//! The rows of the relational store and the state that holds them.

use crate::filters::{
    lemma_filter_all, lemma_filter_members, lemma_filter_one_out, lemma_filter_push,
};
use crate::order::{
    count_true, covers, dense, is_listing, lemma_count_true_all, lemma_count_true_bound,
    order_positions, ranked_by,
};
use vstd::prelude::*;

verus! {

/// A named folder and its place in the list of folders.
#[derive(Debug)]
pub struct Folder {
    pub id: i32,
    pub name: String,
    pub ordering: i32,
}

/// A named shell command and its place among the scripts of a folder.
#[derive(Debug)]
pub struct Script {
    pub id: i32,
    pub name: String,
    pub command: String,
    pub ordering: i32,
}

/// A join record: the script is shown in the folder.
#[derive(Clone, Copy, Debug, PartialEq, Eq, Structural)]
pub struct Relation {
    pub folder_id: i32,
    pub script_id: i32,
}

/// A script together with its join records to one folder.
#[derive(Debug)]
pub struct ScriptWithRelations {
    pub script: Script,
    pub relations: Vec<Relation>,
}

/// The singleton record of application settings.
#[derive(Clone, Copy, Debug)]
pub struct AppState {
    pub id: i32,
    pub last_opened_folder_id: Option<i32>,
    pub dark_mode: bool,
}

/// Why the store refused an operation.
#[derive(Clone, Copy, Debug, PartialEq, Eq, Structural)]
pub enum QueryError {
    /// No fresh identity is left for a new row.
    IdsExhausted,
    /// A join record would name a folder or a script that does not exist.
    ForeignKeyViolation,
}

impl QueryError {
    /// The cause in words.
    pub fn message(&self) -> (text: String)
        ensures
            text@ == match *self {
                QueryError::IdsExhausted => "no identity left for a new row"@,
                QueryError::ForeignKeyViolation => "foreign key constraint failed"@,
            },
    {
        match self {
            QueryError::IdsExhausted => "no identity left for a new row".to_string(),
            QueryError::ForeignKeyViolation => "foreign key constraint failed".to_string(),
        }
    }
}

impl Folder {
    /// This folder at another place in the list.
    pub open spec fn with_ordering(self, ordering: i32) -> Folder {
        Folder { id: self.id, name: self.name, ordering }
    }

    /// This folder under another name.
    pub open spec fn with_name(self, name: String) -> Folder {
        Folder { id: self.id, name, ordering: self.ordering }
    }
}

impl Clone for Folder {
    fn clone(&self) -> (copy: Self)
        ensures
            copy == *self,
    {
        Folder { id: self.id, name: self.name.clone(), ordering: self.ordering }
    }
}

impl Script {
    /// This script at another place in its folder.
    pub open spec fn with_ordering(self, ordering: i32) -> Script {
        Script { id: self.id, name: self.name, command: self.command, ordering }
    }

    /// This script under another name.
    pub open spec fn with_name(self, name: String) -> Script {
        Script { id: self.id, name, command: self.command, ordering: self.ordering }
    }

    /// This script with another command text.
    pub open spec fn with_command(self, command: String) -> Script {
        Script { id: self.id, name: self.name, command, ordering: self.ordering }
    }
}

impl Clone for Script {
    fn clone(&self) -> (copy: Self)
        ensures
            copy == *self,
    {
        Script {
            id: self.id,
            name: self.name.clone(),
            command: self.command.clone(),
            ordering: self.ordering,
        }
    }
}

/// The join records of one folder.
pub open spec fn of_folder(folder_id: i32) -> spec_fn(Relation) -> bool {
    |r: Relation| r.folder_id == folder_id
}

/// The join records of all other folders.
pub open spec fn not_of_folder(folder_id: i32) -> spec_fn(Relation) -> bool {
    |r: Relation| r.folder_id != folder_id
}

/// The join records of one script.
pub open spec fn of_script(script_id: i32) -> spec_fn(Relation) -> bool {
    |r: Relation| r.script_id == script_id
}

/// The join records of all other scripts.
pub open spec fn not_of_script(script_id: i32) -> spec_fn(Relation) -> bool {
    |r: Relation| r.script_id != script_id
}

/// The join records of one script to one folder.
pub open spec fn joining(folder_id: i32, script_id: i32) -> spec_fn(Relation) -> bool {
    |r: Relation| r.folder_id == folder_id && r.script_id == script_id
}

/// The scripts with another identity than this one.
pub open spec fn other_script(id: i32) -> spec_fn(Script) -> bool {
    |row: Script| row.id != id
}

/// Parts the join records into those that name `id` (as their folder when
/// `by_folder`, else as their script) and the others.
fn split_relations(rows: &Vec<Relation>, by_folder: bool, id: i32) -> (parts: (
    Vec<Relation>,
    Vec<Relation>,
))
    ensures
        parts.0@ == rows@.filter(if by_folder { not_of_folder(id) } else { not_of_script(id) }),
        parts.1@ == rows@.filter(if by_folder { of_folder(id) } else { of_script(id) }),
        forall|r: Relation| #[trigger]
            parts.0@.contains(r) <==> rows@.contains(r) && (if by_folder {
                r.folder_id
            } else {
                r.script_id
            }) != id,
        forall|r: Relation| #[trigger]
            parts.1@.contains(r) <==> rows@.contains(r) && (if by_folder {
                r.folder_id
            } else {
                r.script_id
            }) == id,
{
    let ghost keep = if by_folder { not_of_folder(id) } else { not_of_script(id) };
    let ghost take = if by_folder { of_folder(id) } else { of_script(id) };
    let mut kept: Vec<Relation> = Vec::new();
    let mut taken: Vec<Relation> = Vec::new();
    let mut i: usize = 0;
    proof {
        reveal(Seq::filter);
        assert(rows@.take(0) =~= Seq::<Relation>::empty());
    }
    while i < rows.len()
        invariant
            i <= rows.len(),
            keep == (if by_folder { not_of_folder(id) } else { not_of_script(id) }),
            take == (if by_folder { of_folder(id) } else { of_script(id) }),
            kept@ == rows@.take(i as int).filter(keep),
            taken@ == rows@.take(i as int).filter(take),
        decreases rows.len() - i,
    {
        let row = rows[i];
        let names = if by_folder { row.folder_id == id } else { row.script_id == id };
        if names {
            taken.push(row);
        } else {
            kept.push(row);
        }
        proof {
            assert(rows@.take(i + 1) =~= rows@.take(i as int).push(row));
            lemma_filter_push(rows@.take(i as int), row, keep);
            lemma_filter_push(rows@.take(i as int), row, take);
        }
        i += 1;
    }
    proof {
        assert(rows@.take(i as int) =~= rows@);
        lemma_filter_members(rows@, keep);
        lemma_filter_members(rows@, take);
    }
    (kept, taken)
}

/// The identity of the one record of application settings.
pub const APP_STATE_ID: i32 = 1;

/// The tables of the store: folders, scripts, the join records between them
/// and the application settings.
pub struct Database {
    folders: Vec<Folder>,
    scripts: Vec<Script>,
    relations: Vec<Relation>,
    app_state: Option<AppState>,
    next_folder_id: i32,
    next_script_id: i32,
}

impl Database {
    /// The folder rows, in the order in which they are stored.
    pub closed spec fn folder_rows(&self) -> Seq<Folder> {
        self.folders@
    }

    /// The script rows, in the order in which they are stored.
    pub closed spec fn script_rows(&self) -> Seq<Script> {
        self.scripts@
    }

    /// The join records.
    pub closed spec fn relation_rows(&self) -> Seq<Relation> {
        self.relations@
    }

    /// The record of application settings, once it was written.
    pub closed spec fn state_row(&self) -> Option<AppState> {
        self.app_state
    }

    /// The identity that the next new folder gets.
    pub closed spec fn next_folder(&self) -> int {
        self.next_folder_id as int
    }

    /// The identity that the next new script gets.
    pub closed spec fn next_script(&self) -> int {
        self.next_script_id as int
    }

    /// A folder with this identity exists.
    pub open spec fn has_folder(&self, id: i32) -> bool {
        exists|i: int| 0 <= i < self.folder_rows().len() && (#[trigger] self.folder_rows()[i]).id == id
    }

    /// A script with this identity exists.
    pub open spec fn has_script(&self, id: i32) -> bool {
        exists|i: int| 0 <= i < self.script_rows().len() && (#[trigger] self.script_rows()[i]).id == id
    }

    /// The script is associated with the folder.
    pub open spec fn linked(&self, folder_id: i32, script_id: i32) -> bool {
        self.relation_rows().contains(Relation { folder_id, script_id })
    }

    /// The script is associated with some folder.
    pub open spec fn script_in_use(&self, script_id: i32) -> bool {
        exists|folder_id: i32| #[trigger] self.linked(folder_id, script_id)
    }

    /// The folder is associated with some script.
    pub open spec fn folder_in_use(&self, folder_id: i32) -> bool {
        exists|script_id: i32| #[trigger] self.linked(folder_id, script_id)
    }

    /// What the store keeps true of its rows: identities are positive, below
    /// the next one to be given and used once; every join record names an
    /// existing folder and an existing script; the settings record has the
    /// fixed identity.
    pub open spec fn wf(&self) -> bool {
        &&& 1 <= self.next_folder() <= i32::MAX
        &&& 1 <= self.next_script() <= i32::MAX
        &&& self.folder_rows().len() < self.next_folder()
        &&& self.script_rows().len() < self.next_script()
        &&& forall|i: int|
            0 <= i < self.folder_rows().len() ==> 1 <= (#[trigger] self.folder_rows()[i]).id
                < self.next_folder()
        &&& forall|i: int, j: int|
            0 <= i < j < self.folder_rows().len() ==> (#[trigger] self.folder_rows()[i]).id != (
            #[trigger] self.folder_rows()[j]).id
        &&& forall|i: int|
            0 <= i < self.script_rows().len() ==> 1 <= (#[trigger] self.script_rows()[i]).id
                < self.next_script()
        &&& forall|i: int, j: int|
            0 <= i < j < self.script_rows().len() ==> (#[trigger] self.script_rows()[i]).id != (
            #[trigger] self.script_rows()[j]).id
        &&& forall|i: int|
            0 <= i < self.relation_rows().len() ==> {
                &&& self.has_folder((#[trigger] self.relation_rows()[i]).folder_id)
                &&& self.has_script(self.relation_rows()[i].script_id)
            }
        &&& match self.state_row() {
            Some(state) => state.id == APP_STATE_ID,
            None => true,
        }
    }

    /// The store differs from `other` at most in its folder rows and in the
    /// identity of the next folder.
    pub open spec fn same_but_folder_rows(&self, other: &Database) -> bool {
        &&& self.script_rows() == other.script_rows()
        &&& self.relation_rows() == other.relation_rows()
        &&& self.state_row() == other.state_row()
        &&& self.next_script() == other.next_script()
    }

    /// The store differs from `other` at most in its script rows and in the
    /// identity of the next script.
    pub open spec fn same_but_script_rows(&self, other: &Database) -> bool {
        &&& self.folder_rows() == other.folder_rows()
        &&& self.relation_rows() == other.relation_rows()
        &&& self.state_row() == other.state_row()
        &&& self.next_folder() == other.next_folder()
    }

    /// The store differs from `other` at most in its join records.
    pub open spec fn same_but_relation_rows(&self, other: &Database) -> bool {
        &&& self.folder_rows() == other.folder_rows()
        &&& self.script_rows() == other.script_rows()
        &&& self.state_row() == other.state_row()
        &&& self.next_folder() == other.next_folder()
        &&& self.next_script() == other.next_script()
    }

    /// An empty store.
    pub fn new() -> (db: Database)
        ensures
            db.wf(),
            db.folder_rows().len() == 0,
            db.script_rows().len() == 0,
            db.relation_rows().len() == 0,
            db.state_row().is_none(),
            db.next_folder() == 1,
            db.next_script() == 1,
    {
        Database {
            folders: Vec::new(),
            scripts: Vec::new(),
            relations: Vec::new(),
            app_state: None,
            next_folder_id: 1,
            next_script_id: 1,
        }
    }

    /// An empty store that gives new folders and scripts identities from the
    /// given numbers on.
    pub fn starting_at(next_folder_id: i32, next_script_id: i32) -> (db: Database)
        requires
            1 <= next_folder_id,
            1 <= next_script_id,
        ensures
            db.wf(),
            db.folder_rows().len() == 0,
            db.script_rows().len() == 0,
            db.relation_rows().len() == 0,
            db.state_row().is_none(),
            db.next_folder() == next_folder_id,
            db.next_script() == next_script_id,
    {
        Database {
            folders: Vec::new(),
            scripts: Vec::new(),
            relations: Vec::new(),
            app_state: None,
            next_folder_id,
            next_script_id,
        }
    }

    /// Reads the folder table.
    pub fn folders(&self) -> (rows: &Vec<Folder>)
        ensures
            rows@ == self.folder_rows(),
    {
        &self.folders
    }

    /// Reads the script table.
    pub fn scripts(&self) -> (rows: &Vec<Script>)
        ensures
            rows@ == self.script_rows(),
    {
        &self.scripts
    }

    /// Reads the join table.
    pub fn relations(&self) -> (rows: &Vec<Relation>)
        ensures
            rows@ == self.relation_rows(),
    {
        &self.relations
    }

    /// Reads the settings record.
    pub fn app_state(&self) -> (state: Option<AppState>)
        ensures
            state == self.state_row(),
    {
        self.app_state
    }

    /// Where the folder with this identity is stored.
    pub open spec fn folder_position(&self, id: i32) -> int {
        choose|i: int| 0 <= i < self.folder_rows().len() && (#[trigger] self.folder_rows()[i]).id == id
    }

    /// Where the script with this identity is stored.
    pub open spec fn script_position(&self, id: i32) -> int {
        choose|i: int| 0 <= i < self.script_rows().len() && (#[trigger] self.script_rows()[i]).id == id
    }

    /// Both ends of a join record are found where `folder_position` and
    /// `script_position` say.
    pub proof fn lemma_relation_ends(&self, i: int)
        requires
            self.wf(),
            0 <= i < self.relation_rows().len(),
        ensures
            self.has_folder(self.relation_rows()[i].folder_id),
            self.has_script(self.relation_rows()[i].script_id),
            0 <= self.folder_position(self.relation_rows()[i].folder_id) < self.folder_rows().len(),
            0 <= self.script_position(self.relation_rows()[i].script_id) < self.script_rows().len(),
            self.folder_rows()[self.folder_position(self.relation_rows()[i].folder_id)].id
                == self.relation_rows()[i].folder_id,
            self.script_rows()[self.script_position(self.relation_rows()[i].script_id)].id
                == self.relation_rows()[i].script_id,
    {
    }

    /// Looks a folder up by its identity.
    pub fn find_folder(&self, id: i32) -> (found: Option<usize>)
        ensures
            match found {
                Some(i) => i < self.folder_rows().len() && self.folder_rows()[i as int].id == id,
                None => !self.has_folder(id),
            },
    {
        let mut i: usize = 0;
        while i < self.folders.len()
            invariant
                i <= self.folders.len(),
                forall|k: int| 0 <= k < i ==> (#[trigger] self.folders@[k]).id != id,
            decreases self.folders.len() - i,
        {
            if self.folders[i].id == id {
                return Some(i);
            }
            i += 1;
        }
        None
    }

    /// Looks a script up by its identity.
    pub fn find_script(&self, id: i32) -> (found: Option<usize>)
        ensures
            match found {
                Some(i) => i < self.script_rows().len() && self.script_rows()[i as int].id == id,
                None => !self.has_script(id),
            },
    {
        let mut i: usize = 0;
        while i < self.scripts.len()
            invariant
                i <= self.scripts.len(),
                forall|k: int| 0 <= k < i ==> (#[trigger] self.scripts@[k]).id != id,
            decreases self.scripts.len() - i,
        {
            if self.scripts[i].id == id {
                return Some(i);
            }
            i += 1;
        }
        None
    }

    /// Tells whether the script is associated with the folder.
    pub fn is_linked(&self, folder_id: i32, script_id: i32) -> (yes: bool)
        ensures
            yes == self.linked(folder_id, script_id),
    {
        let mut i: usize = 0;
        while i < self.relations.len()
            invariant
                i <= self.relations.len(),
                forall|k: int|
                    0 <= k < i ==> (#[trigger] self.relations@[k]) != (Relation {
                        folder_id,
                        script_id,
                    }),
            decreases self.relations.len() - i,
        {
            if self.relations[i].folder_id == folder_id && self.relations[i].script_id
                == script_id {
                assert(self.relations@[i as int] == (Relation { folder_id, script_id }));
                return true;
            }
            i += 1;
        }
        false
    }

    /// The join records of the script to the folder, in the order in which
    /// they are stored: there is one at least exactly when the two are
    /// associated.
    pub fn relations_between(&self, folder_id: i32, script_id: i32) -> (found: Vec<Relation>)
        ensures
            found@ == self.relation_rows().filter(joining(folder_id, script_id)),
            found.len() > 0 <==> self.linked(folder_id, script_id),
            forall|k: int|
                0 <= k < found.len() ==> #[trigger] found@[k] == (Relation { folder_id, script_id }),
    {
        let mut found: Vec<Relation> = Vec::new();
        let mut i: usize = 0;
        proof {
            reveal(Seq::filter);
            assert(self.relations@.take(0) =~= Seq::<Relation>::empty());
        }
        while i < self.relations.len()
            invariant
                i <= self.relations.len(),
                found@ == self.relations@.take(i as int).filter(joining(folder_id, script_id)),
                forall|k: int|
                    0 <= k < found.len() ==> #[trigger] found@[k] == (Relation {
                        folder_id,
                        script_id,
                    }),
            decreases self.relations.len() - i,
        {
            let row = self.relations[i];
            proof {
                assert(self.relations@.take(i + 1) =~= self.relations@.take(i as int).push(row));
                lemma_filter_push(self.relations@.take(i as int), row, joining(folder_id, script_id));
            }
            if row.folder_id == folder_id && row.script_id == script_id {
                found.push(row);
            }
            i += 1;
        }
        proof {
            assert(self.relations@.take(i as int) =~= self.relations@);
            lemma_filter_members(self.relations@, joining(folder_id, script_id));
            let link = Relation { folder_id, script_id };
            if found.len() > 0 {
                assert(found@.contains(found@[0]));
            }
            if self.linked(folder_id, script_id) {
                assert(found@.contains(link));
            }
        }
        found
    }

    /// Tells whether the script is associated with any folder.
    pub fn is_script_in_use(&self, script_id: i32) -> (yes: bool)
        ensures
            yes == self.script_in_use(script_id),
    {
        let mut i: usize = 0;
        while i < self.relations.len()
            invariant
                i <= self.relations.len(),
                forall|k: int| 0 <= k < i ==> (#[trigger] self.relations@[k]).script_id != script_id,
            decreases self.relations.len() - i,
        {
            if self.relations[i].script_id == script_id {
                assert(self.relations@[i as int] == (Relation {
                    folder_id: self.relations@[i as int].folder_id,
                    script_id,
                }));
                assert(self.linked(self.relations@[i as int].folder_id, script_id));
                return true;
            }
            i += 1;
        }
        assert forall|folder_id: i32| !#[trigger] self.linked(folder_id, script_id) by {
            if self.linked(folder_id, script_id) {
                let k = choose|k: int|
                    0 <= k < self.relations@.len() && self.relations@[k] == (Relation {
                        folder_id,
                        script_id,
                    });
                assert(self.relations@[k].script_id == script_id);
            }
        }
        false
    }

    /// Adds a folder row under a fresh identity and returns it. Fails, and
    /// changes nothing, when no identity is left.
    pub fn insert_folder(&mut self, name: String, ordering: i32) -> (made: Result<
        Folder,
        QueryError,
    >)
        requires
            old(self).wf(),
        ensures
            final(self).wf(),
            final(self).same_but_folder_rows(old(self)),
            match made {
                Ok(row) => {
                    &&& old(self).next_folder() < i32::MAX
                    &&& row == (Folder { id: old(self).next_folder() as i32, name, ordering })
                    &&& final(self).folder_rows() == old(self).folder_rows().push(row)
                    &&& final(self).next_folder() == old(self).next_folder() + 1
                },
                Err(e) => {
                    &&& e == QueryError::IdsExhausted
                    &&& old(self).next_folder() == i32::MAX
                    &&& final(self).folder_rows() == old(self).folder_rows()
                    &&& final(self).next_folder() == old(self).next_folder()
                },
            },
    {
        if self.next_folder_id == i32::MAX {
            return Err(QueryError::IdsExhausted);
        }
        let row = Folder { id: self.next_folder_id, name, ordering };
        let copy = row.clone();
        let ghost before = *self;
        self.folders.push(row);
        self.next_folder_id = self.next_folder_id + 1;
        proof {
            assert forall|i: int| 0 <= i < self.relation_rows().len() implies {
                &&& self.has_folder((#[trigger] self.relation_rows()[i]).folder_id)
                &&& self.has_script(self.relation_rows()[i].script_id)
            } by {
                before.lemma_relation_ends(i);
                let f = before.relation_rows()[i].folder_id;
                let s = before.relation_rows()[i].script_id;
                assert(self.folder_rows()[before.folder_position(f)].id == f);
                assert(self.script_rows()[before.script_position(s)].id == s);
            }
        }
        Ok(copy)
    }

    /// Adds a script row under a fresh identity and returns it. Fails, and
    /// changes nothing, when no identity is left.
    pub fn insert_script(&mut self, name: String, command: String, ordering: i32) -> (made: Result<
        Script,
        QueryError,
    >)
        requires
            old(self).wf(),
        ensures
            final(self).wf(),
            final(self).same_but_script_rows(old(self)),
            match made {
                Ok(row) => {
                    &&& old(self).next_script() < i32::MAX
                    &&& row == (Script {
                        id: old(self).next_script() as i32,
                        name,
                        command,
                        ordering,
                    })
                    &&& final(self).script_rows() == old(self).script_rows().push(row)
                    &&& final(self).next_script() == old(self).next_script() + 1
                },
                Err(e) => {
                    &&& e == QueryError::IdsExhausted
                    &&& old(self).next_script() == i32::MAX
                    &&& final(self).script_rows() == old(self).script_rows()
                    &&& final(self).next_script() == old(self).next_script()
                },
            },
    {
        if self.next_script_id == i32::MAX {
            return Err(QueryError::IdsExhausted);
        }
        let row = Script { id: self.next_script_id, name, command, ordering };
        let copy = row.clone();
        let ghost before = *self;
        self.scripts.push(row);
        self.next_script_id = self.next_script_id + 1;
        proof {
            assert forall|i: int| 0 <= i < self.relation_rows().len() implies {
                &&& self.has_folder((#[trigger] self.relation_rows()[i]).folder_id)
                &&& self.has_script(self.relation_rows()[i].script_id)
            } by {
                before.lemma_relation_ends(i);
                let f = before.relation_rows()[i].folder_id;
                let s = before.relation_rows()[i].script_id;
                assert(self.folder_rows()[before.folder_position(f)].id == f);
                assert(self.script_rows()[before.script_position(s)].id == s);
            }
        }
        Ok(copy)
    }

    /// Stores with the same folder and script rows have the same folders
    /// and scripts.
    pub proof fn lemma_same_members(&self, before: &Database)
        requires
            self.folder_rows() == before.folder_rows(),
            self.script_rows() == before.script_rows(),
        ensures
            forall|id: i32| self.has_folder(id) == before.has_folder(id),
            forall|id: i32| self.has_script(id) == before.has_script(id),
    {
        assert forall|id: i32| self.has_folder(id) == before.has_folder(id) by {
            if before.has_folder(id) {
                assert(self.folder_rows()[before.folder_position(id)].id == id);
            }
            if self.has_folder(id) {
                assert(before.folder_rows()[self.folder_position(id)].id == id);
            }
        }
        assert forall|id: i32| self.has_script(id) == before.has_script(id) by {
            if before.has_script(id) {
                assert(self.script_rows()[before.script_position(id)].id == id);
            }
            if self.has_script(id) {
                assert(before.script_rows()[self.script_position(id)].id == id);
            }
        }
    }

    /// A store whose rows have the identities of a well-formed one, and
    /// its join records, is well formed.
    pub proof fn lemma_wf_by_ids(&self, before: &Database)
        requires
            before.wf(),
            self.relation_rows() == before.relation_rows(),
            self.state_row() == before.state_row(),
            self.next_folder() == before.next_folder(),
            self.next_script() == before.next_script(),
            self.folder_rows().len() == before.folder_rows().len(),
            self.script_rows().len() == before.script_rows().len(),
            forall|i: int|
                0 <= i < self.folder_rows().len() ==> (#[trigger] self.folder_rows()[i]).id
                    == before.folder_rows()[i].id,
            forall|i: int|
                0 <= i < self.script_rows().len() ==> (#[trigger] self.script_rows()[i]).id
                    == before.script_rows()[i].id,
        ensures
            self.wf(),
            forall|id: i32| self.has_folder(id) == before.has_folder(id),
            forall|id: i32| self.has_script(id) == before.has_script(id),
    {
        assert forall|id: i32| self.has_folder(id) == before.has_folder(id) by {
            if before.has_folder(id) {
                assert(self.folder_rows()[before.folder_position(id)].id == id);
            }
            if self.has_folder(id) {
                assert(before.folder_rows()[self.folder_position(id)].id == id);
            }
        }
        assert forall|id: i32| self.has_script(id) == before.has_script(id) by {
            if before.has_script(id) {
                assert(self.script_rows()[before.script_position(id)].id == id);
            }
            if self.has_script(id) {
                assert(before.script_rows()[self.script_position(id)].id == id);
            }
        }
        assert forall|i: int| 0 <= i < self.relation_rows().len() implies {
            &&& self.has_folder((#[trigger] self.relation_rows()[i]).folder_id)
            &&& self.has_script(self.relation_rows()[i].script_id)
        } by {
            before.lemma_relation_ends(i);
        }
        assert forall|i: int, j: int| 0 <= i < j < self.folder_rows().len() implies (
        #[trigger] self.folder_rows()[i]).id != (#[trigger] self.folder_rows()[j]).id by {
            assert(before.folder_rows()[i].id != before.folder_rows()[j].id);
        }
        assert forall|i: int, j: int| 0 <= i < j < self.script_rows().len() implies (
        #[trigger] self.script_rows()[i]).id != (#[trigger] self.script_rows()[j]).id by {
            assert(before.script_rows()[i].id != before.script_rows()[j].id);
        }
        assert forall|i: int| 0 <= i < self.folder_rows().len() implies 1 <= (
        #[trigger] self.folder_rows()[i]).id < self.next_folder() by {
            assert(1 <= before.folder_rows()[i].id);
        }
        assert forall|i: int| 0 <= i < self.script_rows().len() implies 1 <= (
        #[trigger] self.script_rows()[i]).id < self.next_script() by {
            assert(1 <= before.script_rows()[i].id);
        }
    }

    /// Sets the ordering index of the folder with this identity, if there is
    /// one.
    pub fn update_folder_ordering(&mut self, id: i32, ordering: i32)
        requires
            old(self).wf(),
        ensures
            final(self).wf(),
            final(self).same_but_folder_rows(old(self)),
            final(self).next_folder() == old(self).next_folder(),
            final(self).folder_rows().len() == old(self).folder_rows().len(),
            forall|i: int|
                0 <= i < old(self).folder_rows().len() ==> #[trigger] final(self).folder_rows()[i]
                    == if old(self).folder_rows()[i].id == id {
                    old(self).folder_rows()[i].with_ordering(ordering)
                } else {
                    old(self).folder_rows()[i]
                },
    {
        let ghost before = *self;
        match self.find_folder(id) {
            Some(i) => {
                let row = Folder {
                    id: self.folders[i].id,
                    name: self.folders[i].name.clone(),
                    ordering,
                };
                self.folders.set(i, row);
                proof {
                    self.lemma_wf_by_ids(&before);
                }
            },
            None => {},
        }
    }

    /// Sets the name of the folder with this identity, if there is one.
    pub fn update_folder_name(&mut self, id: i32, name: String)
        requires
            old(self).wf(),
        ensures
            final(self).wf(),
            final(self).same_but_folder_rows(old(self)),
            final(self).next_folder() == old(self).next_folder(),
            final(self).folder_rows().len() == old(self).folder_rows().len(),
            forall|i: int|
                0 <= i < old(self).folder_rows().len() ==> #[trigger] final(self).folder_rows()[i]
                    == if old(self).folder_rows()[i].id == id {
                    old(self).folder_rows()[i].with_name(name)
                } else {
                    old(self).folder_rows()[i]
                },
    {
        let ghost before = *self;
        match self.find_folder(id) {
            Some(i) => {
                let row = Folder { id: self.folders[i].id, name, ordering: self.folders[i].ordering };
                self.folders.set(i, row);
                proof {
                    self.lemma_wf_by_ids(&before);
                }
            },
            None => {},
        }
    }

    /// Sets the ordering index of the script with this identity, if there is
    /// one.
    pub fn update_script_ordering(&mut self, id: i32, ordering: i32)
        requires
            old(self).wf(),
        ensures
            final(self).wf(),
            final(self).same_but_script_rows(old(self)),
            final(self).next_script() == old(self).next_script(),
            final(self).script_rows().len() == old(self).script_rows().len(),
            forall|i: int|
                0 <= i < old(self).script_rows().len() ==> #[trigger] final(self).script_rows()[i]
                    == if old(self).script_rows()[i].id == id {
                    old(self).script_rows()[i].with_ordering(ordering)
                } else {
                    old(self).script_rows()[i]
                },
    {
        let ghost before = *self;
        match self.find_script(id) {
            Some(i) => {
                let row = Script {
                    id: self.scripts[i].id,
                    name: self.scripts[i].name.clone(),
                    command: self.scripts[i].command.clone(),
                    ordering,
                };
                self.scripts.set(i, row);
                proof {
                    self.lemma_wf_by_ids(&before);
                }
            },
            None => {},
        }
    }

    /// Sets the name of the script with this identity, if there is one.
    pub fn update_script_name(&mut self, id: i32, name: String)
        requires
            old(self).wf(),
        ensures
            final(self).wf(),
            final(self).same_but_script_rows(old(self)),
            final(self).next_script() == old(self).next_script(),
            final(self).script_rows().len() == old(self).script_rows().len(),
            forall|i: int|
                0 <= i < old(self).script_rows().len() ==> #[trigger] final(self).script_rows()[i]
                    == if old(self).script_rows()[i].id == id {
                    old(self).script_rows()[i].with_name(name)
                } else {
                    old(self).script_rows()[i]
                },
    {
        let ghost before = *self;
        match self.find_script(id) {
            Some(i) => {
                let row = Script {
                    id: self.scripts[i].id,
                    name,
                    command: self.scripts[i].command.clone(),
                    ordering: self.scripts[i].ordering,
                };
                self.scripts.set(i, row);
                proof {
                    self.lemma_wf_by_ids(&before);
                }
            },
            None => {},
        }
    }

    /// Sets the command text of the script with this identity, if there is
    /// one.
    pub fn update_script_command(&mut self, id: i32, command: String)
        requires
            old(self).wf(),
        ensures
            final(self).wf(),
            final(self).same_but_script_rows(old(self)),
            final(self).next_script() == old(self).next_script(),
            final(self).script_rows().len() == old(self).script_rows().len(),
            forall|i: int|
                0 <= i < old(self).script_rows().len() ==> #[trigger] final(self).script_rows()[i]
                    == if old(self).script_rows()[i].id == id {
                    old(self).script_rows()[i].with_command(command)
                } else {
                    old(self).script_rows()[i]
                },
    {
        let ghost before = *self;
        match self.find_script(id) {
            Some(i) => {
                let row = Script {
                    id: self.scripts[i].id,
                    name: self.scripts[i].name.clone(),
                    command,
                    ordering: self.scripts[i].ordering,
                };
                self.scripts.set(i, row);
                proof {
                    self.lemma_wf_by_ids(&before);
                }
            },
            None => {},
        }
    }

    /// Tells whether the folder is associated with any script.
    pub fn is_folder_in_use(&self, folder_id: i32) -> (yes: bool)
        ensures
            yes == self.folder_in_use(folder_id),
    {
        let mut i: usize = 0;
        while i < self.relations.len()
            invariant
                i <= self.relations.len(),
                forall|k: int| 0 <= k < i ==> (#[trigger] self.relations@[k]).folder_id != folder_id,
            decreases self.relations.len() - i,
        {
            if self.relations[i].folder_id == folder_id {
                assert(self.relations@[i as int] == (Relation {
                    folder_id,
                    script_id: self.relations@[i as int].script_id,
                }));
                assert(self.linked(folder_id, self.relations@[i as int].script_id));
                return true;
            }
            i += 1;
        }
        assert forall|script_id: i32| !#[trigger] self.linked(folder_id, script_id) by {
            if self.linked(folder_id, script_id) {
                let k = choose|k: int|
                    0 <= k < self.relations@.len() && self.relations@[k] == (Relation {
                        folder_id,
                        script_id,
                    });
                assert(self.relations@[k].folder_id == folder_id);
            }
        }
        false
    }

    /// Removes the folder row with this identity, if there is one. Fails,
    /// and changes nothing, while a join record names the folder.
    pub fn delete_folder(&mut self, id: i32) -> (done: Result<(), QueryError>)
        requires
            old(self).wf(),
        ensures
            final(self).wf(),
            final(self).same_but_folder_rows(old(self)),
            final(self).next_folder() == old(self).next_folder(),
            done.is_err() == old(self).folder_in_use(id),
            match done {
                Ok(_) => {
                    &&& final(self).folder_rows() == if old(self).has_folder(id) {
                        old(self).folder_rows().remove(old(self).folder_position(id))
                    } else {
                        old(self).folder_rows()
                    }
                    &&& !final(self).has_folder(id)
                    &&& forall|other: i32|
                        other != id ==> final(self).has_folder(other) == old(self).has_folder(other)
                    &&& forall|row: Folder| #[trigger]
                        final(self).folder_rows().contains(row) <==> old(self).folder_rows().contains(
                            row,
                        ) && row.id != id
                },
                Err(e) => e == QueryError::ForeignKeyViolation && final(self).folder_rows() == old(
                    self,
                ).folder_rows(),
            },
    {
        if self.is_folder_in_use(id) {
            return Err(QueryError::ForeignKeyViolation);
        }
        self.remove_folder_row(id);
        Ok(())
    }

    /// Removes the folder row with this identity, if there is one.
    fn remove_folder_row(&mut self, id: i32)
        requires
            old(self).wf(),
            !old(self).folder_in_use(id),
        ensures
            final(self).wf(),
            final(self).same_but_folder_rows(old(self)),
            final(self).next_folder() == old(self).next_folder(),
            final(self).folder_rows() == if old(self).has_folder(id) {
                old(self).folder_rows().remove(old(self).folder_position(id))
            } else {
                old(self).folder_rows()
            },
            !final(self).has_folder(id),
            forall|other: i32| other != id ==> final(self).has_folder(other) == old(self).has_folder(other),
            forall|row: Folder| #[trigger]
                final(self).folder_rows().contains(row) <==> old(self).folder_rows().contains(row)
                    && row.id != id,
    {
        let ghost before = *self;
        match self.find_folder(id) {
            Some(i) => {
                let _ = self.folders.remove(i);
                proof {
                    let at = i as int;
                    assert(before.folder_position(id) == at);
                    assert forall|other: i32| other != id implies self.has_folder(other)
                        == before.has_folder(other) by {
                        if before.has_folder(other) {
                            let k = before.folder_position(other);
                            if k < at {
                                assert(self.folder_rows()[k].id == other);
                            } else {
                                assert(self.folder_rows()[k - 1].id == other);
                            }
                        }
                        if self.has_folder(other) {
                            let k = self.folder_position(other);
                            if k < at {
                                assert(before.folder_rows()[k].id == other);
                            } else {
                                assert(before.folder_rows()[k + 1].id == other);
                            }
                        }
                    }
                    if self.has_folder(id) {
                        let k = self.folder_position(id);
                        if k < at {
                            assert(before.folder_rows()[k].id == id);
                        } else {
                            assert(before.folder_rows()[k + 1].id == id);
                        }
                    }
                    assert forall|r: int| 0 <= r < self.relation_rows().len() implies {
                        &&& self.has_folder((#[trigger] self.relation_rows()[r]).folder_id)
                        &&& self.has_script(self.relation_rows()[r].script_id)
                    } by {
                        before.lemma_relation_ends(r);
                        let row = before.relation_rows()[r];
                        assert(before.linked(row.folder_id, row.script_id));
                        assert(self.script_rows()[before.script_position(row.script_id)].id
                            == row.script_id);
                    }
                    assert forall|a: int, b: int| 0 <= a < b < self.folder_rows().len() implies (
                    #[trigger] self.folder_rows()[a]).id != (#[trigger] self.folder_rows()[b]).id by {
                        let a0 = if a < at { a } else { a + 1 };
                        let b0 = if b < at { b } else { b + 1 };
                        assert(before.folder_rows()[a0].id != before.folder_rows()[b0].id);
                    }
                    assert forall|a: int| 0 <= a < self.folder_rows().len() implies 1 <= (
                    #[trigger] self.folder_rows()[a]).id < self.next_folder() by {
                        let a0 = if a < at { a } else { a + 1 };
                        assert(1 <= before.folder_rows()[a0].id);
                    }
                    assert forall|row: Folder| #[trigger]
                        self.folder_rows().contains(row) <==> before.folder_rows().contains(row)
                            && row.id != id by {
                        if self.folder_rows().contains(row) {
                            let k = choose|k: int|
                                0 <= k < self.folder_rows().len() && self.folder_rows()[k] == row;
                            let k0 = if k < at { k } else { k + 1 };
                            assert(before.folder_rows()[k0] == row);
                        }
                        if before.folder_rows().contains(row) && row.id != id {
                            let k = choose|k: int|
                                0 <= k < before.folder_rows().len() && before.folder_rows()[k]
                                    == row;
                            let k1 = if k < at { k } else { k - 1 };
                            assert(self.folder_rows()[k1] == row);
                        }
                    }
                }
            },
            None => {
                assert forall|row: Folder| #[trigger]
                    self.folder_rows().contains(row) implies row.id != id by {
                    let k = choose|k: int|
                        0 <= k < self.folder_rows().len() && self.folder_rows()[k] == row;
                    assert(self.folder_rows()[k].id != id);
                }
            },
        }
    }

    /// Removes the script row with this identity, if there is one. Fails,
    /// and changes nothing, while a join record names the script.
    pub fn delete_script(&mut self, id: i32) -> (done: Result<(), QueryError>)
        requires
            old(self).wf(),
        ensures
            final(self).wf(),
            final(self).same_but_script_rows(old(self)),
            final(self).next_script() == old(self).next_script(),
            done.is_err() == old(self).script_in_use(id),
            match done {
                Ok(_) => {
                    &&& final(self).script_rows() == old(self).script_rows().filter(
                        other_script(id),
                    )
                    &&& final(self).script_rows() == if old(self).has_script(id) {
                        old(self).script_rows().remove(old(self).script_position(id))
                    } else {
                        old(self).script_rows()
                    }
                    &&& !final(self).has_script(id)
                    &&& forall|other: i32|
                        other != id ==> final(self).has_script(other) == old(self).has_script(other)
                    &&& forall|row: Script| #[trigger]
                        final(self).script_rows().contains(row) <==> old(self).script_rows().contains(
                            row,
                        ) && row.id != id
                },
                Err(e) => e == QueryError::ForeignKeyViolation && final(self).script_rows() == old(
                    self,
                ).script_rows(),
            },
    {
        if self.is_script_in_use(id) {
            return Err(QueryError::ForeignKeyViolation);
        }
        self.remove_script_row(id);
        Ok(())
    }

    /// Removes the script row with this identity, if there is one.
    fn remove_script_row(&mut self, id: i32)
        requires
            old(self).wf(),
            !old(self).script_in_use(id),
        ensures
            final(self).wf(),
            final(self).same_but_script_rows(old(self)),
            final(self).next_script() == old(self).next_script(),
            final(self).script_rows() == if old(self).has_script(id) {
                old(self).script_rows().remove(old(self).script_position(id))
            } else {
                old(self).script_rows()
            },
            !final(self).has_script(id),
            forall|other: i32| other != id ==> final(self).has_script(other) == old(self).has_script(other),
            forall|row: Script| #[trigger]
                final(self).script_rows().contains(row) <==> old(self).script_rows().contains(row)
                    && row.id != id,
            final(self).script_rows() == old(self).script_rows().filter(other_script(id)),
    {
        let ghost before = *self;
        match self.find_script(id) {
            Some(i) => {
                let _ = self.scripts.remove(i);
                proof {
                    let at = i as int;
                    assert(before.script_position(id) == at);
                    assert forall|other: i32| other != id implies self.has_script(other)
                        == before.has_script(other) by {
                        if before.has_script(other) {
                            let k = before.script_position(other);
                            if k < at {
                                assert(self.script_rows()[k].id == other);
                            } else {
                                assert(self.script_rows()[k - 1].id == other);
                            }
                        }
                        if self.has_script(other) {
                            let k = self.script_position(other);
                            if k < at {
                                assert(before.script_rows()[k].id == other);
                            } else {
                                assert(before.script_rows()[k + 1].id == other);
                            }
                        }
                    }
                    if self.has_script(id) {
                        let k = self.script_position(id);
                        if k < at {
                            assert(before.script_rows()[k].id == id);
                        } else {
                            assert(before.script_rows()[k + 1].id == id);
                        }
                    }
                    assert forall|r: int| 0 <= r < self.relation_rows().len() implies {
                        &&& self.has_folder((#[trigger] self.relation_rows()[r]).folder_id)
                        &&& self.has_script(self.relation_rows()[r].script_id)
                    } by {
                        before.lemma_relation_ends(r);
                        let row = before.relation_rows()[r];
                        assert(before.linked(row.folder_id, row.script_id));
                        assert(self.folder_rows()[before.folder_position(row.folder_id)].id
                            == row.folder_id);
                    }
                    assert forall|a: int, b: int| 0 <= a < b < self.script_rows().len() implies (
                    #[trigger] self.script_rows()[a]).id != (#[trigger] self.script_rows()[b]).id by {
                        let a0 = if a < at { a } else { a + 1 };
                        let b0 = if b < at { b } else { b + 1 };
                        assert(before.script_rows()[a0].id != before.script_rows()[b0].id);
                    }
                    assert forall|a: int| 0 <= a < self.script_rows().len() implies 1 <= (
                    #[trigger] self.script_rows()[a]).id < self.next_script() by {
                        let a0 = if a < at { a } else { a + 1 };
                        assert(1 <= before.script_rows()[a0].id);
                    }
                    assert forall|j: int|
                        0 <= j < before.script_rows().len() && j != at implies other_script(id)(
                        #[trigger] before.script_rows()[j],
                    ) by {
                        if j < at {
                            assert(before.script_rows()[j].id != before.script_rows()[at].id);
                        } else {
                            assert(before.script_rows()[at].id != before.script_rows()[j].id);
                        }
                    }
                    lemma_filter_one_out(before.script_rows(), other_script(id), at);
                    assert forall|row: Script| #[trigger]
                        self.script_rows().contains(row) <==> before.script_rows().contains(row)
                            && row.id != id by {
                        if self.script_rows().contains(row) {
                            let k = choose|k: int|
                                0 <= k < self.script_rows().len() && self.script_rows()[k] == row;
                            let k0 = if k < at { k } else { k + 1 };
                            assert(before.script_rows()[k0] == row);
                        }
                        if before.script_rows().contains(row) && row.id != id {
                            let k = choose|k: int|
                                0 <= k < before.script_rows().len() && before.script_rows()[k]
                                    == row;
                            let k1 = if k < at { k } else { k - 1 };
                            assert(self.script_rows()[k1] == row);
                        }
                    }
                }
            },
            None => {
                proof {
                    assert forall|j: int| 0 <= j < self.script_rows().len() implies other_script(
                        id,
                    )(#[trigger] self.script_rows()[j]) by {
                        assert(self.script_rows()[j].id != id);
                    }
                    lemma_filter_all(self.script_rows(), other_script(id));
                }
                assert forall|row: Script| #[trigger]
                    self.script_rows().contains(row) implies row.id != id by {
                    let k = choose|k: int|
                        0 <= k < self.script_rows().len() && self.script_rows()[k] == row;
                    assert(self.script_rows()[k].id != id);
                }
            },
        }
    }

    /// Adds the join record of a folder and a script. Fails, and changes
    /// nothing, unless both exist.
    pub fn insert_relation(&mut self, folder_id: i32, script_id: i32) -> (made: Result<
        (),
        QueryError,
    >)
        requires
            old(self).wf(),
        ensures
            final(self).wf(),
            final(self).same_but_relation_rows(old(self)),
            made.is_ok() == (old(self).has_folder(folder_id) && old(self).has_script(script_id)),
            match made {
                Ok(_) => final(self).relation_rows() == old(self).relation_rows().push(
                    Relation { folder_id, script_id },
                ),
                Err(e) => e == QueryError::ForeignKeyViolation && final(self).relation_rows()
                    == old(self).relation_rows(),
            },
    {
        if self.find_folder(folder_id).is_none() || self.find_script(script_id).is_none() {
            return Err(QueryError::ForeignKeyViolation);
        }
        let ghost before = *self;
        self.relations.push(Relation { folder_id, script_id });
        proof {
            assert forall|r: int| 0 <= r < self.relation_rows().len() implies {
                &&& self.has_folder((#[trigger] self.relation_rows()[r]).folder_id)
                &&& self.has_script(self.relation_rows()[r].script_id)
            } by {
                self.lemma_same_members(&before);
                if r < before.relation_rows().len() {
                    before.lemma_relation_ends(r);
                    assert(self.relation_rows()[r] == before.relation_rows()[r]);
                }
            }
        }
        Ok(())
    }

    /// Removes every join record of the folder and returns them.
    pub fn delete_relations_by_folder(&mut self, folder_id: i32) -> (removed: Vec<Relation>)
        requires
            old(self).wf(),
        ensures
            final(self).wf(),
            final(self).same_but_relation_rows(old(self)),
            final(self).relation_rows() == old(self).relation_rows().filter(
                not_of_folder(folder_id),
            ),
            removed@ == old(self).relation_rows().filter(of_folder(folder_id)),
            forall|r: Relation| #[trigger]
                final(self).relation_rows().contains(r) <==> old(self).relation_rows().contains(r)
                    && r.folder_id != folder_id,
            forall|r: Relation| #[trigger]
                removed@.contains(r) <==> old(self).relation_rows().contains(r) && r.folder_id
                    == folder_id,
    {
        let ghost before = *self;
        let (kept, removed) = split_relations(&self.relations, true, folder_id);
        self.relations = kept;
        proof {
            self.lemma_fewer_relations(&before);
        }
        removed
    }

    /// Removes every join record of the script and returns them.
    pub fn delete_relations_by_script(&mut self, script_id: i32) -> (removed: Vec<Relation>)
        requires
            old(self).wf(),
        ensures
            final(self).wf(),
            final(self).same_but_relation_rows(old(self)),
            final(self).relation_rows() == old(self).relation_rows().filter(
                not_of_script(script_id),
            ),
            removed@ == old(self).relation_rows().filter(of_script(script_id)),
            forall|r: Relation| #[trigger]
                final(self).relation_rows().contains(r) <==> old(self).relation_rows().contains(r)
                    && r.script_id != script_id,
            forall|r: Relation| #[trigger]
                removed@.contains(r) <==> old(self).relation_rows().contains(r) && r.script_id
                    == script_id,
    {
        let ghost before = *self;
        let (kept, removed) = split_relations(&self.relations, false, script_id);
        self.relations = kept;
        proof {
            self.lemma_fewer_relations(&before);
        }
        removed
    }

    /// A store that keeps the rows of a well-formed one and some of its join
    /// records is well formed.
    pub proof fn lemma_fewer_relations(&self, before: &Database)
        requires
            before.wf(),
            self.same_but_relation_rows(before),
            self.next_script() == before.next_script(),
            forall|r: Relation| #[trigger]
                self.relation_rows().contains(r) ==> before.relation_rows().contains(r),
        ensures
            self.wf(),
    {
        assert forall|i: int| 0 <= i < self.relation_rows().len() implies {
            &&& self.has_folder((#[trigger] self.relation_rows()[i]).folder_id)
            &&& self.has_script(self.relation_rows()[i].script_id)
        } by {
            let r = self.relation_rows()[i];
            assert(self.relation_rows().contains(r));
            let k = choose|k: int|
                0 <= k < before.relation_rows().len() && before.relation_rows()[k] == r;
            before.lemma_relation_ends(k);
            self.lemma_same_members(before);
        }
    }

    /// Writes the settings record.
    pub fn put_app_state(&mut self, state: AppState)
        requires
            old(self).wf(),
            state.id == APP_STATE_ID,
        ensures
            final(self).wf(),
            final(self).state_row() == Some(state),
            final(self).folder_rows() == old(self).folder_rows(),
            final(self).script_rows() == old(self).script_rows(),
            final(self).relation_rows() == old(self).relation_rows(),
            final(self).next_folder() == old(self).next_folder(),
            final(self).next_script() == old(self).next_script(),
    {
        let ghost before = *self;
        self.app_state = Some(state);
        proof {
            assert forall|i: int| 0 <= i < self.relation_rows().len() implies {
                &&& self.has_folder((#[trigger] self.relation_rows()[i]).folder_id)
                &&& self.has_script(self.relation_rows()[i].script_id)
            } by {
                self.lemma_same_members(&before);
                before.lemma_relation_ends(i);
            }
        }
    }

    /// The ordering index of each folder row.
    pub open spec fn folder_keys(&self) -> Seq<i32> {
        Seq::new(self.folder_rows().len(), |i: int| self.folder_rows()[i].ordering)
    }

    /// A mark on every folder row.
    pub open spec fn all_folders(&self) -> Seq<bool> {
        Seq::new(self.folder_rows().len(), |i: int| true)
    }

    /// The ordering index of each script row.
    pub open spec fn script_keys(&self) -> Seq<i32> {
        Seq::new(self.script_rows().len(), |i: int| self.script_rows()[i].ordering)
    }

    /// A mark on each script row that is associated with the folder.
    pub open spec fn folder_members(&self, folder_id: i32) -> Seq<bool> {
        Seq::new(
            self.script_rows().len(),
            |i: int| self.linked(folder_id, self.script_rows()[i].id),
        )
    }

    /// How many scripts are associated with the folder.
    pub open spec fn script_count(&self, folder_id: i32) -> nat {
        count_true(self.folder_members(folder_id))
    }

    /// The ordering indices of the folders are 0 up to their number, each
    /// once.
    pub open spec fn folders_dense(&self) -> bool {
        dense(self.folder_keys(), self.all_folders())
    }

    /// The ordering indices of the folder's scripts are 0 up to their
    /// number, each once.
    pub open spec fn scripts_dense(&self, folder_id: i32) -> bool {
        dense(self.script_keys(), self.folder_members(folder_id))
    }

    /// The positions of the folder rows in display order.
    pub fn folder_positions(&self) -> (pos: Vec<usize>)
        ensures
            is_listing(pos@, self.folder_keys(), self.all_folders()),
            pos.len() == self.folder_rows().len(),
    {
        let mut keys: Vec<i32> = Vec::new();
        let mut member: Vec<bool> = Vec::new();
        let mut i: usize = 0;
        while i < self.folders.len()
            invariant
                i <= self.folders.len(),
                keys.len() == i,
                member.len() == i,
                forall|k: int| 0 <= k < i ==> #[trigger] keys@[k] == self.folders@[k].ordering,
                forall|k: int| 0 <= k < i ==> #[trigger] member@[k],
            decreases self.folders.len() - i,
        {
            keys.push(self.folders[i].ordering);
            member.push(true);
            i += 1;
        }
        proof {
            assert(keys@ =~= self.folder_keys());
            assert(member@ =~= self.all_folders());
            lemma_count_true_all(member@);
        }
        order_positions(&keys, &member)
    }

    /// The positions of the script rows of a folder in display order.
    pub fn script_positions(&self, folder_id: i32) -> (pos: Vec<usize>)
        ensures
            is_listing(pos@, self.script_keys(), self.folder_members(folder_id)),
            pos.len() == self.script_count(folder_id),
    {
        let mut keys: Vec<i32> = Vec::new();
        let mut member: Vec<bool> = Vec::new();
        let mut i: usize = 0;
        while i < self.scripts.len()
            invariant
                i <= self.scripts.len(),
                keys.len() == i,
                member.len() == i,
                forall|k: int| 0 <= k < i ==> #[trigger] keys@[k] == self.scripts@[k].ordering,
                forall|k: int|
                    0 <= k < i ==> #[trigger] member@[k] == self.linked(
                        folder_id,
                        self.scripts@[k].id,
                    ),
            decreases self.scripts.len() - i,
        {
            keys.push(self.scripts[i].ordering);
            member.push(self.is_linked(folder_id, self.scripts[i].id));
            i += 1;
        }
        proof {
            assert(keys@ =~= self.script_keys());
            assert(member@ =~= self.folder_members(folder_id));
        }
        order_positions(&keys, &member)
    }

    /// Gives each folder row that `pos` names its place in `pos` as its
    /// ordering index; a row that has it already is not written.
    pub(crate) fn rank_folders(&mut self, pos: &Vec<usize>)
        requires
            old(self).wf(),
            covers(pos@, old(self).all_folders()),
        ensures
            final(self).wf(),
            final(self).same_but_folder_rows(old(self)),
            final(self).next_folder() == old(self).next_folder(),
            final(self).folder_rows().len() == old(self).folder_rows().len(),
            forall|i: int|
                0 <= i < old(self).folder_rows().len() ==> #[trigger] final(self).folder_rows()[i]
                    == old(self).folder_rows()[i].with_ordering(final(self).folder_rows()[i].ordering),
            ranked_by(final(self).folder_keys(), pos@),
    {
        let ghost before = *self;
        proof {
            lemma_count_true_bound(self.all_folders());
        }
        let mut k: usize = 0;
        while k < pos.len()
            invariant
                before.wf(),
                self.wf(),
                covers(pos@, before.all_folders()),
                pos.len() <= before.folder_rows().len(),
                k <= pos.len(),
                self.same_but_folder_rows(&before),
                self.next_folder() == before.next_folder(),
                self.folder_rows().len() == before.folder_rows().len(),
                forall|i: int|
                    0 <= i < before.folder_rows().len() ==> #[trigger] self.folder_rows()[i]
                        == before.folder_rows()[i].with_ordering(self.folder_rows()[i].ordering),
                forall|j: int| 0 <= j < k ==> self.folder_rows()[(#[trigger] pos@[j]) as int].ordering == j,
            decreases pos.len() - k,
        {
            let at = pos[k];
            let id = self.folders[at].id;
            let ghost mid = *self;
            if self.folders[at].ordering != k as i32 {
                self.update_folder_ordering(id, k as i32);
            }
            proof {
                assert forall|j: int| 0 <= j < k + 1 implies self.folder_rows()[(
                #[trigger] pos@[j]) as int].ordering == j by {
                    if j < k {
                        assert(pos@[j] != pos@[k as int]);
                        let a = pos@[j] as int;
                        let b = at as int;
                        if a < b {
                            assert(mid.folder_rows()[a].id != mid.folder_rows()[b].id);
                        } else {
                            assert(mid.folder_rows()[b].id != mid.folder_rows()[a].id);
                        }
                    }
                }
            }
            k += 1;
        }
    }

    /// Gives each script row that `pos` names its place in `pos` as its
    /// ordering index; a row that has it already is not written.
    pub(crate) fn rank_scripts(&mut self, pos: &Vec<usize>, Ghost(member): Ghost<Seq<bool>>)
        requires
            old(self).wf(),
            member.len() == old(self).script_rows().len(),
            covers(pos@, member),
        ensures
            final(self).wf(),
            final(self).same_but_script_rows(old(self)),
            final(self).next_script() == old(self).next_script(),
            final(self).script_rows().len() == old(self).script_rows().len(),
            forall|i: int|
                0 <= i < old(self).script_rows().len() ==> #[trigger] final(self).script_rows()[i]
                    == old(self).script_rows()[i].with_ordering(final(self).script_rows()[i].ordering),
            forall|i: int|
                0 <= i < old(self).script_rows().len() && !member[i] ==> #[trigger] final(self).script_rows()[i]
                    == old(self).script_rows()[i],
            ranked_by(final(self).script_keys(), pos@),
    {
        let ghost before = *self;
        proof {
            lemma_count_true_bound(member);
        }
        let mut k: usize = 0;
        while k < pos.len()
            invariant
                before.wf(),
                self.wf(),
                member.len() == before.script_rows().len(),
                covers(pos@, member),
                pos.len() <= before.script_rows().len(),
                k <= pos.len(),
                self.same_but_script_rows(&before),
                self.next_script() == before.next_script(),
                self.script_rows().len() == before.script_rows().len(),
                forall|i: int|
                    0 <= i < before.script_rows().len() ==> #[trigger] self.script_rows()[i]
                        == before.script_rows()[i].with_ordering(self.script_rows()[i].ordering),
                forall|i: int|
                    0 <= i < before.script_rows().len() && !member[i] ==> #[trigger] self.script_rows()[i]
                        == before.script_rows()[i],
                forall|j: int| 0 <= j < k ==> self.script_rows()[(#[trigger] pos@[j]) as int].ordering == j,
            decreases pos.len() - k,
        {
            let at = pos[k];
            let id = self.scripts[at].id;
            let ghost mid = *self;
            if self.scripts[at].ordering != k as i32 {
                self.update_script_ordering(id, k as i32);
            }
            proof {
                assert forall|j: int| 0 <= j < k + 1 implies self.script_rows()[(
                #[trigger] pos@[j]) as int].ordering == j by {
                    if j < k {
                        assert(pos@[j] != pos@[k as int]);
                        let a = pos@[j] as int;
                        let b = at as int;
                        if a < b {
                            assert(mid.script_rows()[a].id != mid.script_rows()[b].id);
                        } else {
                            assert(mid.script_rows()[b].id != mid.script_rows()[a].id);
                        }
                    }
                }
                assert forall|i: int|
                    0 <= i < before.script_rows().len() && !member[i] implies #[trigger] self.script_rows()[i]
                    == before.script_rows()[i] by {
                    let b = at as int;
                    if i < b {
                        assert(mid.script_rows()[i].id != mid.script_rows()[b].id);
                    } else if b < i {
                        assert(mid.script_rows()[b].id != mid.script_rows()[i].id);
                    }
                }
            }
            k += 1;
        }
    }

    /// The scripts of a folder that shows none are dense: there is no index
    /// to give.
    pub proof fn lemma_unused_folder_is_dense(&self, folder_id: i32)
        requires
            !self.folder_in_use(folder_id),
        ensures
            self.scripts_dense(folder_id),
            self.script_count(folder_id) == 0,
    {
        let member = self.folder_members(folder_id);
        assert forall|i: int| 0 <= i < member.len() implies !#[trigger] member[i] by {
            assert(!self.linked(folder_id, self.script_rows()[i].id));
        }
        crate::order::lemma_count_true_none(member);
    }
}

} // verus!
