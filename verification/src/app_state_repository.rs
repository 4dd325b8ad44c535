//! The settings record: created by the first write, updated by every later
//! one.

use crate::model::{AppState, Database, QueryError, APP_STATE_ID};
use vstd::prelude::*;

verus! {

/// The operations on the settings record.
pub struct AppStateRepository {}

/// The settings before anything was written: no folder was opened, and the
/// display is light.
pub open spec fn initial_state() -> AppState {
    AppState { id: APP_STATE_ID, last_opened_folder_id: None, dark_mode: false }
}

/// The settings that a write starts from: the stored record, or the initial
/// settings when there is none.
pub open spec fn current_state(db: &Database) -> AppState {
    match db.state_row() {
        Some(state) => state,
        None => initial_state(),
    }
}

impl AppStateRepository {
    /// The repository. It holds nothing: every operation is handed the store.
    pub fn new() -> (repo: Self) {
        AppStateRepository {}
    }

    /// The settings record, if it was ever written.
    pub fn get_app_state(&self, db: &Database) -> (out: Result<Option<AppState>, QueryError>)
        ensures
            out == Ok::<Option<AppState>, QueryError>(db.state_row()),
    {
        Ok(db.app_state())
    }

    /// Records which folder was opened last (or that none is), leaves the
    /// display preference as it is, and returns the record as stored.
    pub fn set_last_opened_folder(&self, db: &mut Database, folder_id: Option<i32>) -> (out: Result<
        AppState,
        QueryError,
    >)
        requires
            old(db).wf(),
        ensures
            final(db).wf(),
            final(db).folder_rows() == old(db).folder_rows(),
            final(db).script_rows() == old(db).script_rows(),
            final(db).relation_rows() == old(db).relation_rows(),
            final(db).next_folder() == old(db).next_folder(),
            final(db).next_script() == old(db).next_script(),
            out == Ok::<AppState, QueryError>(
                AppState {
                    id: APP_STATE_ID,
                    last_opened_folder_id: folder_id,
                    dark_mode: current_state(old(db)).dark_mode,
                },
            ),
            final(db).state_row() == Some(out.unwrap()),
    {
        let dark_mode = match db.app_state() {
            Some(state) => state.dark_mode,
            None => false,
        };
        let state = AppState { id: APP_STATE_ID, last_opened_folder_id: folder_id, dark_mode };
        db.put_app_state(state);
        Ok(state)
    }

    /// Records the display preference, leaves the folder last opened as it
    /// is, and returns the record as stored.
    pub fn set_dark_mode(&self, db: &mut Database, enabled: bool) -> (out: Result<
        AppState,
        QueryError,
    >)
        requires
            old(db).wf(),
        ensures
            final(db).wf(),
            final(db).folder_rows() == old(db).folder_rows(),
            final(db).script_rows() == old(db).script_rows(),
            final(db).relation_rows() == old(db).relation_rows(),
            final(db).next_folder() == old(db).next_folder(),
            final(db).next_script() == old(db).next_script(),
            out == Ok::<AppState, QueryError>(
                AppState {
                    id: APP_STATE_ID,
                    last_opened_folder_id: current_state(old(db)).last_opened_folder_id,
                    dark_mode: enabled,
                },
            ),
            final(db).state_row() == Some(out.unwrap()),
    {
        let last_opened_folder_id = match db.app_state() {
            Some(state) => state.last_opened_folder_id,
            None => None,
        };
        let state = AppState { id: APP_STATE_ID, last_opened_folder_id, dark_mode: enabled };
        db.put_app_state(state);
        Ok(state)
    }
}

} // verus!
