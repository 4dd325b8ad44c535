//! The store that the repositories work on.

use crate::model::Database;
use vstd::prelude::*;
use vstd::string::StringExecFns;

verus! {

/// Opens the store as it is before anything was written to it. The host
/// keeps this one value for as long as it runs and hands it to every
/// repository call.
pub fn get_db() -> (db: Database)
    ensures
        db.wf(),
        db.folder_rows().len() == 0,
        db.script_rows().len() == 0,
        db.relation_rows().len() == 0,
        db.state_row().is_none(),
        db.next_folder() == 1,
        db.next_script() == 1,
{
    Database::new()
}

/// Decides whether the database is ready for use, from what the host found:
/// whether the migrations could be applied and, when they could not, whether
/// the folder table could still be counted, which shows a database that was
/// set up before. Only when both failed is the database not ready.
pub fn initialize_database(migrated: bool, countable: bool) -> (done: Result<(), String>)
    ensures
        done.is_ok() == (migrated || countable),
        match done {
            Ok(_) => true,
            Err(message) => message@ == "Database initialization failed"@,
        },
{
    if migrated || countable {
        Ok(())
    } else {
        Err(String::from_str("Database initialization failed"))
    }
}

} // verus!
