use vstd::prelude::*;
use std::path::PathBuf;
use vstd::string::*;

verus! {

#[verifier::external_type_specification]
#[verifier::external_body]
pub struct ExPathBuf(PathBuf);

/// The text of a path with every sequence that is not valid Unicode
/// replaced by U+FFFD, as `Path::to_string_lossy` gives it.
pub uninterp spec fn lossy_text(path: PathBuf) -> Seq<char>;

/// `Path::to_string_lossy`, turned into an owned `String`. Its result
/// depends on the path alone; what that text is, character by character,
/// is left to the name `lossy_text`.
#[verifier::external_body]
fn lossy_string(path: &PathBuf) -> (s: String)
    ensures
        s@ == lossy_text(*path),
{
    path.to_string_lossy().to_string()
}

/// The text of a path, for messages and logs.
pub fn path_to_string(path: PathBuf) -> (s: String)
    ensures
        s@ == lossy_text(path),
{
    lossy_string(&path)
}

/// Whether `base` is a prefix of `path`, whole component by whole
/// component, as `Path::starts_with` decides it.
pub uninterp spec fn path_has_prefix(path: PathBuf, base: PathBuf) -> bool;

/// `Path::starts_with`. Its result depends on the two paths alone; which
/// paths count as prefixes is left to the name `path_has_prefix`.
#[verifier::external_body]
fn starts_with(path: &PathBuf, base: &PathBuf) -> (r: bool)
    ensures
        r == path_has_prefix(*path, *base),
{
    path.starts_with(base)
}

/// The message with which a data directory inside the desktop directory is
/// refused.
pub open spec fn desktop_message(path: Seq<char>, desktop: Seq<char>) -> Seq<char> {
    "应用数据目录异常："@ + path + " 位于桌面目录 "@ + desktop + " 下，已拒绝启动以避免污染桌面。"@
}

/// Refuses a data directory that lies inside the desktop directory, when
/// the desktop directory is known.
pub fn ensure_not_on_desktop(path: &PathBuf, desktop_dir: Option<PathBuf>) -> (r: Result<(), String>)
    ensures
        match desktop_dir {
            None => r is Ok,
            Some(d) => if path_has_prefix(*path, d) {
                r matches Err(m) && m@ == desktop_message(lossy_text(*path), lossy_text(d))
            } else {
                r is Ok
            },
        },
{
    match desktop_dir {
        None => Ok(()),
        Some(d) => {
            if starts_with(path, &d) {
                let mut m = String::from_str("应用数据目录异常：");
                let p = lossy_string(path);
                m.append(p.as_str());
                m.append(" 位于桌面目录 ");
                let t = lossy_string(&d);
                m.append(t.as_str());
                m.append(" 下，已拒绝启动以避免污染桌面。");
                Err(m)
            } else {
                Ok(())
            }
        },
    }
}

/// The text of the path diagnostics written in development builds.
pub open spec fn diagnostics_text(
    app_data_dir: Seq<char>,
    app_local_data_dir: Seq<char>,
    desktop_dir: Seq<char>,
    current_dir: Seq<char>,
    study_data_dir: Seq<char>,
    db_path: Seq<char>,
) -> Seq<char> {
    "product_name=计组备考助手\nidentifier=com.fanrenxiuluo.computer-organization-study-assistant\napp_data_dir="@
        + app_data_dir + "\napp_local_data_dir="@ + app_local_data_dir + "\ndesktop_dir="@
        + desktop_dir + "\ncurrent_dir="@ + current_dir + "\nstudy_data_dir="@ + study_data_dir
        + "\ndb_path="@ + db_path + "\n"@
}

/// The path diagnostics: the product, its identifier and each directory the
/// application resolved, one `key=value` line each.
pub fn path_diagnostics(
    app_data_dir: &str,
    app_local_data_dir: &str,
    desktop_dir: &str,
    current_dir: &str,
    study_data_dir: &str,
    db_path: &str,
) -> (r: String)
    ensures
        r@ == diagnostics_text(
            app_data_dir@,
            app_local_data_dir@,
            desktop_dir@,
            current_dir@,
            study_data_dir@,
            db_path@,
        ),
{
    let mut r = String::from_str(
        "product_name=计组备考助手\nidentifier=com.fanrenxiuluo.computer-organization-study-assistant\napp_data_dir=",
    );
    r.append(app_data_dir);
    r.append("\napp_local_data_dir=");
    r.append(app_local_data_dir);
    r.append("\ndesktop_dir=");
    r.append(desktop_dir);
    r.append("\ncurrent_dir=");
    r.append(current_dir);
    r.append("\nstudy_data_dir=");
    r.append(study_data_dir);
    r.append("\ndb_path=");
    r.append(db_path);
    r.append("\n");
    r
}

} // verus!
