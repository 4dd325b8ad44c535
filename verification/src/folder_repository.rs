//! The operations on folders: listing, creation, cascading deletion and
//! reordering.

use crate::filters::{
    lemma_filter_agree, lemma_filter_all, lemma_filter_members, lemma_filter_twice,
};
use crate::model::{
    not_of_folder, other_script, AppState, Database, Folder, QueryError, Relation, Script,
    APP_STATE_ID,
};
use crate::order::{
    assigned, cascade_orphans, is_listing, lemma_count_true_all, lemma_dense_push,
    lemma_listing_covers, lemma_ranked_is_dense, lemma_ranks_keep_order, lemma_reorder_covers,
    listed, names_script, precedes, ranked_by, reorder, reordered, FolderOrderUpdate,
};
use vstd::prelude::*;

verus! {

/// The operations on folders.
pub struct FolderRepository {}

/// Deleting the folder leaves the script without any folder: the script is
/// associated with this folder and with no other.
pub open spec fn orphaned_by(db: &Database, folder_id: i32, script_id: i32) -> bool {
    &&& db.linked(folder_id, script_id)
    &&& forall|other: i32| #[trigger] db.linked(other, script_id) ==> other == folder_id
}

/// The folder rows that are left when the folder with this identity is
/// taken out.
pub open spec fn folders_without(db: &Database, folder_id: i32) -> Seq<Folder> {
    if db.has_folder(folder_id) {
        db.folder_rows().remove(db.folder_position(folder_id))
    } else {
        db.folder_rows()
    }
}

/// The ordering index of each of the rows.
pub open spec fn folder_keys_of(rows: Seq<Folder>) -> Seq<i32> {
    Seq::new(rows.len(), |i: int| rows[i].ordering)
}

/// The scripts that the deletion of the folder leaves stored.
pub open spec fn survives(db: &Database, folder_id: i32) -> spec_fn(Script) -> bool {
    |row: Script| !orphaned_by(db, folder_id, row.id)
}

/// The scripts whose identity is not in the set.
pub open spec fn not_among(gone: Set<i32>) -> spec_fn(Script) -> bool {
    |row: Script| !gone.contains(row.id)
}

/// A script that no join record names is associated with no folder.
proof fn lemma_unnamed_is_unused(db: &Database, script_id: i32)
    requires
        !names_script(db.relation_rows(), script_id),
    ensures
        !db.script_in_use(script_id),
{
    assert forall|folder_id: i32| !#[trigger] db.linked(folder_id, script_id) by {
        if db.linked(folder_id, script_id) {
            let link = Relation { folder_id, script_id };
            let at = choose|at: int|
                0 <= at < db.relation_rows().len() && db.relation_rows()[at] == link;
            assert(db.relation_rows()[at].script_id == script_id);
        }
    }
}

/// A script that the deletion of a folder orphans is among the orphans
/// computed from the removed and the remaining join records.
proof fn lemma_orphan_is_listed(
    before: &Database,
    mid: &Database,
    removed: Seq<Relation>,
    orphans: Seq<i32>,
    id: i32,
    script_id: i32,
)
    requires
        orphaned_by(before, id, script_id),
        forall|r: Relation| #[trigger]
            mid.relation_rows().contains(r) <==> before.relation_rows().contains(r) && r.folder_id
                != id,
        forall|r: Relation| #[trigger]
            removed.contains(r) <==> before.relation_rows().contains(r) && r.folder_id == id,
        forall|j: int|
            0 <= j < removed.len() && !names_script(
                mid.relation_rows(),
                (#[trigger] removed[j]).script_id,
            ) ==> orphans.contains(removed[j].script_id),
    ensures
        orphans.contains(script_id),
{
    let link = Relation { folder_id: id, script_id };
    assert(removed.contains(link));
    let j = choose|j: int| 0 <= j < removed.len() && removed[j] == link;
    assert(removed[j].script_id == script_id);
    if names_script(mid.relation_rows(), script_id) {
        let at = choose|at: int|
            0 <= at < mid.relation_rows().len() && (#[trigger] mid.relation_rows()[at]).script_id
                == script_id;
        let found = mid.relation_rows()[at];
        assert(mid.relation_rows().contains(found));
        assert(found == (Relation { folder_id: found.folder_id, script_id }));
        assert(before.linked(found.folder_id, script_id));
    }
}

impl FolderRepository {
    /// The repository. It holds nothing: every operation is handed the store.
    pub fn new() -> (repo: Self) {
        FolderRepository {}
    }

    /// The number of folders.
    pub fn get_folder_count(&self, db: &Database) -> (count: i64)
        requires
            db.wf(),
        ensures
            count == db.folder_rows().len(),
    {
        db.folders().len() as i64
    }

    /// The folders in display order: by ordering index ascending, folders
    /// with the same index in the order in which they were created.
    pub fn get_all_folders(&self, db: &Database) -> (out: Result<Vec<Folder>, QueryError>)
        ensures
            match out {
                Ok(rows) => exists|pos: Seq<usize>|
                    #![auto]
                    is_listing(pos, db.folder_keys(), db.all_folders()) && rows@ == listed(
                        db.folder_rows(),
                        pos,
                    ),
                Err(_) => false,
            },
    {
        let pos = db.folder_positions();
        let table = db.folders();
        let mut rows: Vec<Folder> = Vec::new();
        let mut k: usize = 0;
        while k < pos.len()
            invariant
                k <= pos.len(),
                table@ == db.folder_rows(),
                is_listing(pos@, db.folder_keys(), db.all_folders()),
                rows.len() == k,
                forall|j: int| 0 <= j < k ==> #[trigger] rows@[j] == table@[pos@[j] as int],
            decreases pos.len() - k,
        {
            rows.push(table[pos[k]].clone());
            k += 1;
        }
        proof {
            assert(rows@ =~= listed(db.folder_rows(), pos@));
        }
        Ok(rows)
    }

    /// Stores a new folder with the given ordering index. Fails, and changes
    /// nothing, when no identity is left for it.
    pub fn create_script_folder(&self, db: &mut Database, folder_name: &String, ordering: i32) -> (made:
        Result<Folder, QueryError>)
        requires
            old(db).wf(),
        ensures
            final(db).wf(),
            final(db).same_but_folder_rows(old(db)),
            match made {
                Ok(row) => {
                    &&& old(db).next_folder() < i32::MAX
                    &&& row == (Folder {
                        id: old(db).next_folder() as i32,
                        name: *folder_name,
                        ordering,
                    })
                    &&& final(db).folder_rows() == old(db).folder_rows().push(row)
                    &&& final(db).next_folder() == old(db).next_folder() + 1
                },
                Err(e) => {
                    &&& e == QueryError::IdsExhausted
                    &&& old(db).next_folder() == i32::MAX
                    &&& final(db).folder_rows() == old(db).folder_rows()
                    &&& final(db).next_folder() == old(db).next_folder()
                },
            },
    {
        db.insert_folder(folder_name.clone(), ordering)
    }

    /// Creates a folder at the end of the list: its ordering index is the
    /// number of folders there were. A dense list stays dense.
    pub fn create_folder(&self, db: &mut Database, folder_name: &String) -> (made: Result<
        Folder,
        QueryError,
    >)
        requires
            old(db).wf(),
        ensures
            final(db).wf(),
            final(db).same_but_folder_rows(old(db)),
            match made {
                Ok(row) => {
                    &&& old(db).next_folder() < i32::MAX
                    &&& row == (Folder {
                        id: old(db).next_folder() as i32,
                        name: *folder_name,
                        ordering: old(db).folder_rows().len() as i32,
                    })
                    &&& final(db).folder_rows() == old(db).folder_rows().push(row)
                    &&& final(db).next_folder() == old(db).next_folder() + 1
                    &&& old(db).folders_dense() ==> final(db).folders_dense()
                },
                Err(e) => {
                    &&& e == QueryError::IdsExhausted
                    &&& old(db).next_folder() == i32::MAX
                    &&& final(db).folder_rows() == old(db).folder_rows()
                    &&& final(db).next_folder() == old(db).next_folder()
                },
            },
    {
        let count = db.folders().len();
        let ghost before = *db;
        let made = db.insert_folder(folder_name.clone(), count as i32);
        proof {
            if made.is_ok() && before.folders_dense() {
                lemma_count_true_all(before.all_folders());
                assert(db.folder_keys() =~= before.folder_keys().push(count as i32));
                assert(db.all_folders() =~= before.all_folders().push(true));
                lemma_dense_push(
                    before.folder_keys(),
                    before.all_folders(),
                    db.folder_keys(),
                    db.all_folders(),
                );
            }
        }
        made
    }

    /// Renames the folder with this identity, if there is one.
    pub fn rename_folder(&self, db: &mut Database, id: i32, new_name: String) -> (done: Result<
        (),
        QueryError,
    >)
        requires
            old(db).wf(),
        ensures
            done.is_ok(),
            final(db).wf(),
            final(db).same_but_folder_rows(old(db)),
            final(db).next_folder() == old(db).next_folder(),
            final(db).folder_rows().len() == old(db).folder_rows().len(),
            forall|i: int|
                0 <= i < old(db).folder_rows().len() ==> #[trigger] final(db).folder_rows()[i]
                    == if old(db).folder_rows()[i].id == id {
                    old(db).folder_rows()[i].with_name(new_name)
                } else {
                    old(db).folder_rows()[i]
                },
    {
        db.update_folder_name(id, new_name);
        Ok(())
    }

    /// Records the folder as the one last opened, in the settings record,
    /// which is created if it was never written.
    pub fn upsert_app_state_last_folder_id(&self, db: &mut Database, folder_id: i32) -> (done:
        Result<(), QueryError>)
        requires
            old(db).wf(),
        ensures
            done.is_ok(),
            final(db).wf(),
            final(db).folder_rows() == old(db).folder_rows(),
            final(db).script_rows() == old(db).script_rows(),
            final(db).relation_rows() == old(db).relation_rows(),
            final(db).next_folder() == old(db).next_folder(),
            final(db).next_script() == old(db).next_script(),
            final(db).state_row() == Some(
                AppState {
                    id: APP_STATE_ID,
                    last_opened_folder_id: Some(folder_id),
                    dark_mode: match old(db).state_row() {
                        Some(state) => state.dark_mode,
                        None => false,
                    },
                },
            ),
    {
        let dark_mode = match db.app_state() {
            Some(state) => state.dark_mode,
            None => false,
        };
        db.put_app_state(
            AppState { id: APP_STATE_ID, last_opened_folder_id: Some(folder_id), dark_mode },
        );
        Ok(())
    }

    /// The settings record, if it was ever written.
    pub fn get_app_state(&self, db: &Database) -> (out: Result<Option<AppState>, QueryError>)
        ensures
            out == Ok::<Option<AppState>, QueryError>(db.state_row()),
    {
        Ok(db.app_state())
    }

    /// Applies explicit index assignments one after the other, as given: of
    /// several that name one folder the last one stays. Nothing checks that
    /// the indices end up dense.
    pub fn batch_order_update(&self, db: &mut Database, order_updates: Vec<FolderOrderUpdate>) -> (done:
        Result<(), QueryError>)
        requires
            old(db).wf(),
        ensures
            done.is_ok(),
            final(db).wf(),
            final(db).same_but_folder_rows(old(db)),
            final(db).next_folder() == old(db).next_folder(),
            final(db).folder_rows().len() == old(db).folder_rows().len(),
            forall|i: int|
                0 <= i < old(db).folder_rows().len() ==> #[trigger] final(db).folder_rows()[i]
                    == old(db).folder_rows()[i].with_ordering(
                    assigned(
                        order_updates@,
                        old(db).folder_rows()[i].id,
                        old(db).folder_rows()[i].ordering,
                    ),
                ),
    {
        let ghost before = *db;
        let mut k: usize = 0;
        proof {
            assert(order_updates@.take(0) =~= Seq::<FolderOrderUpdate>::empty());
            assert forall|i: int| 0 <= i < before.folder_rows().len() implies before.folder_rows()[i]
                == before.folder_rows()[i].with_ordering(before.folder_rows()[i].ordering) by {}
        }
        while k < order_updates.len()
            invariant
                k <= order_updates.len(),
                db.wf(),
                db.same_but_folder_rows(&before),
                db.next_folder() == before.next_folder(),
                db.folder_rows().len() == before.folder_rows().len(),
                forall|i: int|
                    0 <= i < before.folder_rows().len() ==> #[trigger] db.folder_rows()[i]
                        == before.folder_rows()[i].with_ordering(
                        assigned(
                            order_updates@.take(k as int),
                            before.folder_rows()[i].id,
                            before.folder_rows()[i].ordering,
                        ),
                    ),
            decreases order_updates.len() - k,
        {
            let update = order_updates[k];
            db.update_folder_ordering(update.folder_id, update.new_ordering);
            proof {
                assert(order_updates@.take(k + 1).drop_last() =~= order_updates@.take(k as int));
                assert(order_updates@.take(k + 1).last() == update);
            }
            k += 1;
        }
        proof {
            assert(order_updates@.take(k as int) =~= order_updates@);
        }
        Ok(())
    }

    /// Moves the folder at place `from_index` of the display order to place
    /// `to_index` and renumbers all folders by their new places. A request
    /// with a place that does not exist changes nothing.
    pub fn reorder_folders(&self, db: &mut Database, from_index: usize, to_index: usize) -> (done:
        Result<(), QueryError>)
        requires
            old(db).wf(),
        ensures
            done.is_ok(),
            final(db).wf(),
            final(db).same_but_folder_rows(old(db)),
            final(db).next_folder() == old(db).next_folder(),
            final(db).folder_rows().len() == old(db).folder_rows().len(),
            forall|i: int|
                0 <= i < old(db).folder_rows().len() ==> #[trigger] final(db).folder_rows()[i]
                    == old(db).folder_rows()[i].with_ordering(final(db).folder_rows()[i].ordering),
            old(db).folders_dense() ==> final(db).folders_dense(),
            if from_index < old(db).folder_rows().len() && to_index < old(db).folder_rows().len() {
                &&& final(db).folders_dense()
                &&& exists|pos: Seq<usize>|
                    #![auto]
                    {
                        &&& is_listing(pos, old(db).folder_keys(), old(db).all_folders())
                        &&& is_listing(
                            reordered(pos, from_index as int, to_index as int),
                            final(db).folder_keys(),
                            final(db).all_folders(),
                        )
                        &&& ranked_by(
                            final(db).folder_keys(),
                            reordered(pos, from_index as int, to_index as int),
                        )
                    }
            } else {
                final(db).folder_rows() == old(db).folder_rows()
            },
    {
        let ghost before = *db;
        let pos = db.folder_positions();
        if from_index >= pos.len() || to_index >= pos.len() {
            proof {
                assert forall|i: int| 0 <= i < before.folder_rows().len() implies before.folder_rows()[i]
                    == before.folder_rows()[i].with_ordering(before.folder_rows()[i].ordering) by {}
            }
            return Ok(());
        }
        let ghost listing = pos@;
        let moved = reorder(pos, from_index, to_index);
        proof {
            lemma_listing_covers(listing, before.folder_keys(), before.all_folders());
            lemma_reorder_covers(listing, before.all_folders(), from_index as int, to_index as int);
        }
        db.rank_folders(&moved);
        proof {
            assert(db.all_folders() =~= before.all_folders());
            lemma_ranked_is_dense(db.folder_keys(), db.all_folders(), moved@);
        }
        Ok(())
    }

    /// Deletes a folder and what hangs on it: first its join records, then
    /// each script that these leave without any folder, then the folder
    /// row; then the folders that are left are renumbered by their places
    /// in the display order, which closes the gap. A script that another
    /// folder still shows stays.
    pub fn delete_script_folder(&self, db: &mut Database, id: i32) -> (done: Result<(), QueryError>)
        requires
            old(db).wf(),
        ensures
            done.is_ok(),
            final(db).wf(),
            final(db).state_row() == old(db).state_row(),
            final(db).next_folder() == old(db).next_folder(),
            final(db).next_script() == old(db).next_script(),
            final(db).relation_rows() == old(db).relation_rows().filter(not_of_folder(id)),
            !final(db).has_folder(id),
            forall|other: i32|
                other != id ==> final(db).has_folder(other) == old(db).has_folder(other),
            final(db).folder_rows().len() == folders_without(old(db), id).len(),
            forall|i: int|
                0 <= i < final(db).folder_rows().len() ==> #[trigger] final(db).folder_rows()[i]
                    == folders_without(old(db), id)[i].with_ordering(
                    final(db).folder_rows()[i].ordering,
                ),
            final(db).folders_dense(),
            forall|i: int|
                0 <= i < final(db).folder_rows().len() ==> 0 <= (
                #[trigger] final(db).folder_rows()[i]).ordering < final(db).folder_rows().len(),
            forall|i: int, j: int|
                0 <= i < final(db).folder_rows().len() && 0 <= j < final(db).folder_rows().len() ==> ((
                #[trigger] final(db).folder_rows()[i]).ordering < (
                #[trigger] final(db).folder_rows()[j]).ordering <==> precedes(
                    folder_keys_of(folders_without(old(db), id)),
                    i,
                    j,
                )),
            exists|pos: Seq<usize>|
                #![auto]
                {
                    &&& is_listing(
                        pos,
                        folder_keys_of(folders_without(old(db), id)),
                        final(db).all_folders(),
                    )
                    &&& is_listing(pos, final(db).folder_keys(), final(db).all_folders())
                    &&& ranked_by(final(db).folder_keys(), pos)
                },
            final(db).script_rows() == old(db).script_rows().filter(survives(old(db), id)),
            forall|row: Script| #[trigger]
                final(db).script_rows().contains(row) <==> old(db).script_rows().contains(row)
                    && !orphaned_by(old(db), id, row.id),
            forall|script_id: i32| #[trigger]
                final(db).has_script(script_id) <==> old(db).has_script(script_id) && !orphaned_by(
                    old(db),
                    id,
                    script_id,
                ),
    {
        let ghost before = *db;
        let removed = db.delete_relations_by_folder(id);
        let ghost mid = *db;
        let orphans = cascade_orphans(&removed, db.relations());
        let ghost mut gone: Set<i32> = Set::empty();
        proof {
            lemma_filter_all(before.script_rows(), not_among(gone));
        }
        let mut k: usize = 0;
        while k < orphans.len()
            invariant
                k <= orphans.len(),
                before.wf(),
                db.wf(),
                db.same_but_script_rows(&mid),
                db.next_script() == mid.next_script(),
                mid.same_but_relation_rows(&before),
                mid.next_script() == before.next_script(),
                mid.relation_rows() == before.relation_rows().filter(not_of_folder(id)),
                forall|r: Relation| #[trigger]
                    mid.relation_rows().contains(r) <==> before.relation_rows().contains(r)
                        && r.folder_id != id,
                forall|r: Relation| #[trigger]
                    removed@.contains(r) <==> before.relation_rows().contains(r) && r.folder_id
                        == id,
                forall|j: int|
                    0 <= j < orphans.len() ==> !names_script(
                        mid.relation_rows(),
                        #[trigger] orphans@[j],
                    ) && names_script(removed@, orphans@[j]),
                db.script_rows() == before.script_rows().filter(not_among(gone)),
                forall|script_id: i32| #[trigger]
                    gone.contains(script_id) ==> orphaned_by(&before, id, script_id),
                forall|j: int| 0 <= j < k ==> gone.contains(#[trigger] orphans@[j]),
                forall|j: int| 0 <= j < k ==> !db.has_script(#[trigger] orphans@[j]),
            decreases orphans.len() - k,
        {
            let script_id = orphans[k];
            proof {
                lemma_unnamed_is_unused(db, script_id);
                let at = choose|at: int|
                    0 <= at < removed@.len() && (#[trigger] removed@[at]).script_id == script_id;
                assert(removed@.contains(removed@[at]));
                assert(removed@[at] == (Relation { folder_id: id, script_id }));
                assert(before.linked(id, script_id));
                assert forall|other: i32| #[trigger]
                    before.linked(other, script_id) implies other == id by {
                    if other != id {
                        assert(mid.relation_rows().contains(Relation { folder_id: other, script_id }));
                        assert(db.linked(other, script_id));
                    }
                }
                assert(orphaned_by(&before, id, script_id));
            }
            match db.delete_script(script_id) {
                Ok(_) => {},
                Err(e) => {
                    return Err(e);
                },
            }
            proof {
                let wider = gone.insert(script_id);
                lemma_filter_twice(
                    before.script_rows(),
                    not_among(gone),
                    other_script(script_id),
                    not_among(wider),
                );
                gone = wider;
            }
            k += 1;
        }
        proof {
            assert forall|script_id: i32| !#[trigger] db.linked(id, script_id) by {
                assert(!mid.relation_rows().contains(Relation { folder_id: id, script_id }));
            }
            assert(!db.folder_in_use(id));
        }
        match db.delete_folder(id) {
            Ok(_) => {},
            Err(e) => {
                return Err(e);
            },
        }
        let ghost late = *db;
        let pos = db.folder_positions();
        proof {
            lemma_listing_covers(pos@, late.folder_keys(), late.all_folders());
            assert(late.folder_keys() =~= folder_keys_of(folders_without(&before, id)));
        }
        db.rank_folders(&pos);
        proof {
            assert(db.all_folders() =~= late.all_folders());
            lemma_ranked_is_dense(db.folder_keys(), db.all_folders(), pos@);
            db.lemma_wf_by_ids(&late);
            lemma_ranks_keep_order(pos@, late.folder_keys(), db.folder_keys(), db.all_folders());
            lemma_count_true_all(db.all_folders());
            assert forall|i: int| 0 <= i < db.folder_rows().len() implies 0 <= (
            #[trigger] db.folder_rows()[i]).ordering < db.folder_rows().len() by {
                assert(db.all_folders()[i]);
                assert(db.folder_keys()[i] == db.folder_rows()[i].ordering);
            }
            assert forall|i: int, j: int|
                0 <= i < db.folder_rows().len() && 0 <= j < db.folder_rows().len() implies ((
            #[trigger] db.folder_rows()[i]).ordering < (#[trigger] db.folder_rows()[j]).ordering
                <==> precedes(folder_keys_of(folders_without(&before, id)), i, j)) by {
                assert(db.all_folders()[i] && db.all_folders()[j]);
                assert(db.folder_keys()[i] == db.folder_rows()[i].ordering);
                assert(db.folder_keys()[j] == db.folder_rows()[j].ordering);
            }
            assert forall|j: int| 0 <= j < before.script_rows().len() implies not_among(gone)(
                #[trigger] before.script_rows()[j],
            ) == survives(&before, id)(before.script_rows()[j]) by {
                let script_id = before.script_rows()[j].id;
                if orphaned_by(&before, id, script_id) {
                    lemma_orphan_is_listed(&before, &mid, removed@, orphans@, id, script_id);
                }
            }
            lemma_filter_agree(before.script_rows(), not_among(gone), survives(&before, id));
            lemma_filter_members(before.script_rows(), survives(&before, id));
            assert forall|script_id: i32| #[trigger]
                db.has_script(script_id) <==> before.has_script(script_id) && !orphaned_by(
                    &before,
                    id,
                    script_id,
                ) by {
                if db.has_script(script_id) {
                    let at = db.script_position(script_id);
                    let row = db.script_rows()[at];
                    assert(db.script_rows().contains(row));
                    let was = choose|was: int|
                        0 <= was < before.script_rows().len() && before.script_rows()[was] == row;
                    assert(before.script_rows()[was].id == script_id);
                }
                if before.has_script(script_id) && !orphaned_by(&before, id, script_id) {
                    let was = before.script_position(script_id);
                    let row = before.script_rows()[was];
                    assert(before.script_rows().contains(row));
                    assert(row.id == script_id);
                    assert(db.script_rows().contains(row));
                    let at = choose|at: int|
                        0 <= at < db.script_rows().len() && db.script_rows()[at] == row;
                    assert(db.script_rows()[at].id == script_id);
                }
            }
        }
        Ok(())
    }
}

} // verus!
