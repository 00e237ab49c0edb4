use vstd::prelude::*;
use vstd::string::*;

verus! {

/// The error that every fallible operation of the library reports: a short
/// machine-readable code and a human-readable message.
#[derive(Debug)]
pub struct AppError {
    pub code: String,
    pub message: String,
}

impl Clone for AppError {
    fn clone(&self) -> (r: Self)
        ensures
            r == *self,
    {
        AppError { code: self.code.clone(), message: self.message.clone() }
    }
}

/// The message of a "not found" error: `"<entity> <id> 不存在"`.
pub open spec fn not_found_message(entity: Seq<char>, id: Seq<char>) -> Seq<char> {
    entity + " "@ + id + " 不存在"@
}

impl AppError {
    /// An error for an entity that does not exist.
    pub fn not_found(entity: &str, id: &str) -> (e: Self)
        ensures
            e.code@ == "NOT_FOUND"@,
            e.message@ == not_found_message(entity@, id@),
    {
        let mut message = String::from_str(entity);
        message.append(" ");
        message.append(id);
        message.append(" 不存在");
        AppError { code: String::from_str("NOT_FOUND"), message }
    }

    /// An error raised by the storage layer, carrying its message unchanged.
    pub fn db_error(msg: &str) -> (e: Self)
        ensures
            e.code@ == "DB_ERROR"@,
            e.message@ == msg@,
    {
        AppError { code: String::from_str("DB_ERROR"), message: String::from_str(msg) }
    }

    /// An error for an argument that the caller got wrong.
    pub fn validation(msg: &str) -> (e: Self)
        ensures
            e.code@ == "VALIDATION"@,
            e.message@ == msg@,
    {
        AppError { code: String::from_str("VALIDATION"), message: String::from_str(msg) }
    }
}

} // verus!
