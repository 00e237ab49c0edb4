# Computer organization study assistant

A desktop study aid for a computer-organization course: a question bank of
practice tasks grouped by chapter, knowledge point and course outcome, saved
answers, self-assessments per task and per requirement, and progress tallies.

- `src/` is the library, verified with Verus. It keeps every table of the
  application as an in-memory model (`store::StudyDb`, viewed as
  `store::DbView`) and implements the listings, task details, random
  practice draws, answers and self-assessments, progress tallies, seed and
  task imports and schema migration on it. Each operation that changes the
  data returns the writes it made, so that the storage layer can replay them.
  `laws.rs` states and proves what holds across operations.
- `tests/` runs the library on concrete data.
- `app/` is the desktop shell: the SQLite file (schema, loading the tables,
  replaying the library's writes in a transaction), the commands the front
  end invokes, JSON shapes for the front end and for seed files, and
  start-up.
