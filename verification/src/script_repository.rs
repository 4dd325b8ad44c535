//! The operations on scripts: creation inside a folder, listing, updates,
//! deletion with renumbering, and reordering.

use crate::filters::lemma_filter_push;
use crate::model::{
    joining, not_of_script, Database, QueryError, Relation, Script, ScriptWithRelations,
};
use crate::order::{
    count_true, is_listing, lemma_count_true_mark, lemma_count_true_push, lemma_dense_mark,
    lemma_dense_push, lemma_listing_covers, lemma_ranked_is_dense, lemma_ranks_keep_order,
    lemma_reorder_covers, listed, precedes, ranked_by, reorder, reordered,
};
use vstd::prelude::*;

verus! {

/// The operations on scripts.
pub struct ScriptRepository {}

/// The scripts that a folder shows.
pub open spec fn shown_in(db: &Database, folder_id: i32) -> spec_fn(Script) -> bool {
    |row: Script| db.linked(folder_id, row.id)
}

/// The scripts of the rows, without their join records.
pub open spec fn scripts_of(rows: Seq<ScriptWithRelations>) -> Seq<Script> {
    rows.map_values(|row: ScriptWithRelations| row.script)
}

/// The script rows that are left when the script with this identity is taken
/// out.
pub open spec fn rows_without(db: &Database, script_id: i32) -> Seq<Script> {
    if db.has_script(script_id) {
        db.script_rows().remove(db.script_position(script_id))
    } else {
        db.script_rows()
    }
}

/// The ordering index of each of the rows.
pub open spec fn keys_of(rows: Seq<Script>) -> Seq<i32> {
    Seq::new(rows.len(), |i: int| rows[i].ordering)
}

impl ScriptRepository {
    /// The repository. It holds nothing: every operation is handed the store.
    pub fn new() -> (repo: Self) {
        ScriptRepository {}
    }

    /// Stores a new script with the given ordering index, in no folder yet.
    /// Fails, and changes nothing, when no identity is left for it.
    pub fn create_script(
        &self,
        db: &mut Database,
        name: String,
        command: String,
        ordering: i32,
    ) -> (made: Result<Script, QueryError>)
        requires
            old(db).wf(),
        ensures
            final(db).wf(),
            final(db).same_but_script_rows(old(db)),
            match made {
                Ok(row) => {
                    &&& old(db).next_script() < i32::MAX
                    &&& row == (Script { id: old(db).next_script() as i32, name, command, ordering })
                    &&& final(db).script_rows() == old(db).script_rows().push(row)
                    &&& final(db).next_script() == old(db).next_script() + 1
                },
                Err(e) => {
                    &&& e == QueryError::IdsExhausted
                    &&& old(db).next_script() == i32::MAX
                    &&& final(db).script_rows() == old(db).script_rows()
                    &&& final(db).next_script() == old(db).next_script()
                },
            },
    {
        db.insert_script(name, command, ordering)
    }

    /// Associates a script with a folder. Fails, and changes nothing, unless
    /// both exist. Where the folder did not show the script yet and the
    /// script's ordering index is the number of scripts that the folder
    /// shows, the scripts of a folder whose indices were dense stay dense.
    pub fn create_script_relationship(&self, db: &mut Database, folder_id: i32, script_id: i32) -> (made:
        Result<(), QueryError>)
        requires
            old(db).wf(),
        ensures
            final(db).wf(),
            final(db).same_but_relation_rows(old(db)),
            made.is_ok() == (old(db).has_folder(folder_id) && old(db).has_script(script_id)),
            match made {
                Ok(_) => final(db).relation_rows() == old(db).relation_rows().push(
                    Relation { folder_id, script_id },
                ),
                Err(e) => e == QueryError::ForeignKeyViolation && final(db).relation_rows()
                    == old(db).relation_rows(),
            },
            made.is_ok() && !old(db).linked(folder_id, script_id) ==> final(db).script_count(
                folder_id,
            ) == old(db).script_count(folder_id) + 1,
            made.is_ok() && !old(db).linked(folder_id, script_id) && old(db).scripts_dense(folder_id)
                && old(db).script_rows()[old(db).script_position(script_id)].ordering == old(
                db,
            ).script_count(folder_id) ==> final(db).scripts_dense(folder_id),
    {
        let ghost before = *db;
        let made = db.insert_relation(folder_id, script_id);
        proof {
            if made.is_ok() && !before.linked(folder_id, script_id) {
                let at = before.script_position(script_id);
                let link = Relation { folder_id, script_id };
                assert(db.relation_rows()[db.relation_rows().len() - 1] == link);
                assert forall|i: int| 0 <= i < before.script_rows().len() implies db.linked(
                    folder_id,
                    #[trigger] before.script_rows()[i].id,
                ) == (i == at || before.linked(folder_id, before.script_rows()[i].id)) by {
                    let other = Relation { folder_id, script_id: before.script_rows()[i].id };
                    if i != at {
                        if i < at {
                            assert(before.script_rows()[i].id != before.script_rows()[at].id);
                        } else {
                            assert(before.script_rows()[at].id != before.script_rows()[i].id);
                        }
                        assert(other != link);
                    }
                    if db.relation_rows().contains(other) && other != link {
                        let k = choose|k: int|
                            0 <= k < db.relation_rows().len() && db.relation_rows()[k] == other;
                        assert(before.relation_rows()[k] == other);
                    }
                    if before.relation_rows().contains(other) {
                        let k = choose|k: int|
                            0 <= k < before.relation_rows().len() && before.relation_rows()[k]
                                == other;
                        assert(db.relation_rows()[k] == other);
                    }
                }
                assert(db.folder_members(folder_id) =~= before.folder_members(folder_id).update(
                    at,
                    true,
                ));
                assert(db.script_keys() =~= before.script_keys());
                lemma_count_true_mark(before.folder_members(folder_id), at);
                if before.scripts_dense(folder_id) && before.script_rows()[at].ordering
                    == before.script_count(folder_id) {
                    lemma_dense_mark(before.script_keys(), before.folder_members(folder_id), at);
                }
            }
        }
        made
    }

    /// Replaces the command text of a script and nothing else.
    pub fn update_script_command(&self, db: &mut Database, script_id: i32, new_command: String) -> (done:
        Result<(), QueryError>)
        requires
            old(db).wf(),
        ensures
            done.is_ok(),
            final(db).wf(),
            final(db).same_but_script_rows(old(db)),
            final(db).next_script() == old(db).next_script(),
            final(db).script_rows().len() == old(db).script_rows().len(),
            forall|i: int|
                0 <= i < old(db).script_rows().len() ==> #[trigger] final(db).script_rows()[i]
                    == if old(db).script_rows()[i].id == script_id {
                    old(db).script_rows()[i].with_command(new_command)
                } else {
                    old(db).script_rows()[i]
                },
    {
        db.update_script_command(script_id, new_command);
        Ok(())
    }

    /// Replaces the name of a script and nothing else.
    pub fn update_script_name(&self, db: &mut Database, script_id: i32, new_name: String) -> (done:
        Result<(), QueryError>)
        requires
            old(db).wf(),
        ensures
            done.is_ok(),
            final(db).wf(),
            final(db).same_but_script_rows(old(db)),
            final(db).next_script() == old(db).next_script(),
            final(db).script_rows().len() == old(db).script_rows().len(),
            forall|i: int|
                0 <= i < old(db).script_rows().len() ==> #[trigger] final(db).script_rows()[i]
                    == if old(db).script_rows()[i].id == script_id {
                    old(db).script_rows()[i].with_name(new_name)
                } else {
                    old(db).script_rows()[i]
                },
    {
        db.update_script_name(script_id, new_name);
        Ok(())
    }

    /// The scripts of a folder in display order: by ordering index
    /// ascending, scripts with the same index in the order in which they
    /// were created.
    pub fn get_scripts_by_folder(&self, db: &Database, folder_id: i32) -> (out: Result<
        Vec<Script>,
        QueryError,
    >)
        ensures
            match out {
                Ok(rows) => exists|pos: Seq<usize>|
                    #![auto]
                    is_listing(pos, db.script_keys(), db.folder_members(folder_id)) && rows@
                        == listed(db.script_rows(), pos),
                Err(_) => false,
            },
    {
        let pos = db.script_positions(folder_id);
        let table = db.scripts();
        let mut rows: Vec<Script> = Vec::new();
        let mut k: usize = 0;
        while k < pos.len()
            invariant
                k <= pos.len(),
                table@ == db.script_rows(),
                is_listing(pos@, db.script_keys(), db.folder_members(folder_id)),
                rows.len() == k,
                forall|j: int| 0 <= j < k ==> #[trigger] rows@[j] == table@[pos@[j] as int],
            decreases pos.len() - k,
        {
            rows.push(table[pos[k]].clone());
            k += 1;
        }
        proof {
            assert(rows@ =~= listed(db.script_rows(), pos@));
        }
        Ok(rows)
    }

    /// The number of scripts that the folder shows.
    pub fn get_script_count_by_folder(&self, db: &Database, folder_id: i32) -> (out: Result<
        i64,
        QueryError,
    >)
        requires
            db.wf(),
        ensures
            out == Ok::<i64, QueryError>(db.script_count(folder_id) as i64),
            db.script_count(folder_id) <= db.script_rows().len(),
    {
        let table = db.scripts();
        let ghost member = db.folder_members(folder_id);
        let mut count: i64 = 0;
        let mut i: usize = 0;
        while i < table.len()
            invariant
                i <= table.len(),
                table@ == db.script_rows(),
                table.len() < i32::MAX,
                member == db.folder_members(folder_id),
                count == count_true(member.take(i as int)),
                count <= i,
            decreases table.len() - i,
        {
            proof {
                assert(member.take(i + 1) =~= member.take(i as int).push(member[i as int]));
                lemma_count_true_push(member.take(i as int), member[i as int]);
            }
            if db.is_linked(folder_id, table[i].id) {
                count = count + 1;
            }
            i += 1;
        }
        proof {
            assert(member.take(i as int) =~= member);
        }
        Ok(count)
    }

    /// The scripts that the folder shows, in the order in which they are
    /// stored, each with its join records to the folder: there is one at
    /// least, and each names this folder and this script.
    pub fn get_scripts_with_relations_by_folder(&self, db: &Database, folder_id: i32) -> (out:
        Result<Vec<ScriptWithRelations>, QueryError>)
        ensures
            match out {
                Ok(rows) => {
                    &&& scripts_of(rows@) == db.script_rows().filter(shown_in(db, folder_id))
                    &&& forall|k: int|
                        0 <= k < rows.len() ==> {
                            &&& (#[trigger] rows@[k]).relations@ == db.relation_rows().filter(
                                joining(folder_id, rows@[k].script.id),
                            )
                            &&& rows@[k].relations.len() > 0
                        }
                    &&& forall|k: int, j: int|
                        0 <= k < rows.len() && 0 <= j < rows@[k].relations.len()
                            ==> #[trigger] rows@[k].relations@[j] == (Relation {
                            folder_id,
                            script_id: rows@[k].script.id,
                        })
                },
                Err(_) => false,
            },
    {
        let table = db.scripts();
        let mut rows: Vec<ScriptWithRelations> = Vec::new();
        let mut i: usize = 0;
        proof {
            reveal(Seq::filter);
            assert(table@.take(0) =~= Seq::<Script>::empty());
            assert(scripts_of(rows@) =~= table@.take(0).filter(shown_in(db, folder_id)));
        }
        while i < table.len()
            invariant
                i <= table.len(),
                table@ == db.script_rows(),
                scripts_of(rows@) == table@.take(i as int).filter(shown_in(db, folder_id)),
                forall|k: int|
                    0 <= k < rows.len() ==> {
                        &&& (#[trigger] rows@[k]).relations@ == db.relation_rows().filter(
                            joining(folder_id, rows@[k].script.id),
                        )
                        &&& rows@[k].relations.len() > 0
                    },
                forall|k: int, j: int|
                    0 <= k < rows.len() && 0 <= j < rows@[k].relations.len()
                        ==> #[trigger] rows@[k].relations@[j] == (Relation {
                        folder_id,
                        script_id: rows@[k].script.id,
                    }),
            decreases table.len() - i,
        {
            let ghost shown = scripts_of(rows@);
            proof {
                assert(table@.take(i + 1) =~= table@.take(i as int).push(table@[i as int]));
                lemma_filter_push(table@.take(i as int), table@[i as int], shown_in(db, folder_id));
            }
            let relations = db.relations_between(folder_id, table[i].id);
            if relations.len() > 0 {
                rows.push(ScriptWithRelations { script: table[i].clone(), relations });
                proof {
                    assert(scripts_of(rows@) =~= shown.push(table@[i as int]));
                }
            }
            i += 1;
        }
        proof {
            assert(table@.take(i as int) =~= table@);
        }
        Ok(rows)
    }

    /// Creates a script at the end of a folder: stores it with the number of
    /// scripts that the folder shows as its ordering index, then associates
    /// it with the folder. The two steps are not undone together: when the
    /// folder does not exist, the script stays stored, in no folder. The
    /// scripts of a folder whose indices were dense stay dense.
    pub fn add_script(&self, db: &mut Database, name: String, command: String, folder_id: i32) -> (made:
        Result<Script, QueryError>)
        requires
            old(db).wf(),
        ensures
            final(db).wf(),
            final(db).folder_rows() == old(db).folder_rows(),
            final(db).state_row() == old(db).state_row(),
            final(db).next_folder() == old(db).next_folder(),
            match made {
                Ok(row) => {
                    &&& old(db).next_script() < i32::MAX
                    &&& old(db).has_folder(folder_id)
                    &&& row == (Script {
                        id: old(db).next_script() as i32,
                        name,
                        command,
                        ordering: old(db).script_count(folder_id) as i32,
                    })
                    &&& final(db).script_rows() == old(db).script_rows().push(row)
                    &&& final(db).next_script() == old(db).next_script() + 1
                    &&& final(db).relation_rows() == old(db).relation_rows().push(
                        Relation { folder_id, script_id: row.id },
                    )
                    &&& final(db).script_count(folder_id) == old(db).script_count(folder_id) + 1
                    &&& old(db).scripts_dense(folder_id) ==> final(db).scripts_dense(folder_id)
                },
                Err(QueryError::IdsExhausted) => {
                    &&& old(db).next_script() == i32::MAX
                    &&& final(db).script_rows() == old(db).script_rows()
                    &&& final(db).relation_rows() == old(db).relation_rows()
                    &&& final(db).next_script() == old(db).next_script()
                },
                Err(QueryError::ForeignKeyViolation) => {
                    &&& old(db).next_script() < i32::MAX
                    &&& !old(db).has_folder(folder_id)
                    &&& final(db).script_rows() == old(db).script_rows().push(
                        Script {
                            id: old(db).next_script() as i32,
                            name,
                            command,
                            ordering: old(db).script_count(folder_id) as i32,
                        },
                    )
                    &&& final(db).relation_rows() == old(db).relation_rows()
                    &&& final(db).next_script() == old(db).next_script() + 1
                },
            },
    {
        let ghost before = *db;
        let count = match self.get_script_count_by_folder(db, folder_id) {
            Ok(count) => count,
            Err(e) => { return Err(e); },
        };
        let row = match db.insert_script(name, command, count as i32) {
            Ok(row) => row,
            Err(e) => { return Err(e); },
        };
        let ghost mid = *db;
        match db.insert_relation(folder_id, row.id) {
            Ok(_) => {},
            Err(e) => {
                proof {
                    assert(mid.script_rows()[mid.script_rows().len() - 1].id == row.id);
                    assert(mid.has_script(row.id));
                }
                return Err(e);
            },
        }
        proof {
            let link = Relation { folder_id, script_id: row.id };
            assert forall|i: int| 0 <= i < before.script_rows().len() implies db.linked(
                folder_id,
                #[trigger] before.script_rows()[i].id,
            ) == before.linked(folder_id, before.script_rows()[i].id) by {
                let other = Relation { folder_id, script_id: before.script_rows()[i].id };
                assert(other != link);
                if db.relation_rows().contains(other) {
                    let k = choose|k: int|
                        0 <= k < db.relation_rows().len() && db.relation_rows()[k] == other;
                    assert(before.relation_rows()[k] == other);
                }
                if before.relation_rows().contains(other) {
                    let k = choose|k: int|
                        0 <= k < before.relation_rows().len() && before.relation_rows()[k] == other;
                    assert(db.relation_rows()[k] == other);
                }
            }
            assert(db.relation_rows()[db.relation_rows().len() - 1] == link);
            assert(db.linked(folder_id, row.id));
            assert(db.folder_members(folder_id) =~= before.folder_members(folder_id).push(true));
            assert(db.script_keys() =~= before.script_keys().push(count as i32));
            lemma_count_true_push(before.folder_members(folder_id), true);
            if before.scripts_dense(folder_id) {
                lemma_dense_push(
                    before.script_keys(),
                    before.folder_members(folder_id),
                    db.script_keys(),
                    db.folder_members(folder_id),
                );
            }
        }
        Ok(row)
    }

    /// Deletes a script: first every join record that names it, then its
    /// row; then the scripts that the folder still shows are renumbered by
    /// their places in the display order, which closes the gap.
    pub fn delete_script(&self, db: &mut Database, script_id: i32, folder_id: i32) -> (done: Result<
        (),
        QueryError,
    >)
        requires
            old(db).wf(),
        ensures
            done.is_ok(),
            final(db).wf(),
            final(db).folder_rows() == old(db).folder_rows(),
            final(db).state_row() == old(db).state_row(),
            final(db).next_folder() == old(db).next_folder(),
            final(db).next_script() == old(db).next_script(),
            final(db).relation_rows() == old(db).relation_rows().filter(not_of_script(script_id)),
            !final(db).has_script(script_id),
            final(db).script_rows().len() == rows_without(old(db), script_id).len(),
            forall|i: int|
                0 <= i < final(db).script_rows().len() ==> #[trigger] final(db).script_rows()[i]
                    == rows_without(old(db), script_id)[i].with_ordering(
                    final(db).script_rows()[i].ordering,
                ),
            forall|i: int|
                0 <= i < final(db).script_rows().len() && !final(db).linked(
                    folder_id,
                    rows_without(old(db), script_id)[i].id,
                ) ==> #[trigger] final(db).script_rows()[i] == rows_without(old(db), script_id)[i],
            final(db).scripts_dense(folder_id),
            forall|i: int, j: int|
                0 <= i < final(db).script_rows().len() && 0 <= j < final(db).script_rows().len()
                    && final(db).linked(folder_id, (#[trigger] final(db).script_rows()[i]).id)
                    && final(db).linked(folder_id, (#[trigger] final(db).script_rows()[j]).id) ==> (
                final(db).script_rows()[i].ordering < final(db).script_rows()[j].ordering
                    <==> precedes(keys_of(rows_without(old(db), script_id)), i, j)),
            exists|pos: Seq<usize>|
                #![auto]
                {
                    &&& is_listing(
                        pos,
                        keys_of(rows_without(old(db), script_id)),
                        final(db).folder_members(folder_id),
                    )
                    &&& is_listing(pos, final(db).script_keys(), final(db).folder_members(folder_id))
                    &&& ranked_by(final(db).script_keys(), pos)
                },
    {
        let ghost before = *db;
        let _ = db.delete_relations_by_script(script_id);
        proof {
            assert forall|f: i32| !#[trigger] db.linked(f, script_id) by {
                assert(!db.relation_rows().contains(Relation { folder_id: f, script_id }));
            }
            db.lemma_same_members(&before);
        }
        match db.delete_script(script_id) {
            Ok(_) => {},
            Err(e) => {
                return Err(e);
            },
        }
        let ghost mid = *db;
        let pos = db.script_positions(folder_id);
        proof {
            lemma_listing_covers(pos@, mid.script_keys(), mid.folder_members(folder_id));
            assert(mid.script_keys() =~= keys_of(rows_without(&before, script_id)));
        }
        db.rank_scripts(&pos, Ghost(mid.folder_members(folder_id)));
        proof {
            assert(db.folder_members(folder_id) =~= mid.folder_members(folder_id));
            lemma_ranked_is_dense(db.script_keys(), db.folder_members(folder_id), pos@);
            db.lemma_wf_by_ids(&mid);
            lemma_ranks_keep_order(
                pos@,
                mid.script_keys(),
                db.script_keys(),
                db.folder_members(folder_id),
            );
            assert forall|i: int, j: int|
                0 <= i < db.script_rows().len() && 0 <= j < db.script_rows().len() && db.linked(
                    folder_id,
                    (#[trigger] db.script_rows()[i]).id,
                ) && db.linked(folder_id, (#[trigger] db.script_rows()[j]).id) implies (
            db.script_rows()[i].ordering < db.script_rows()[j].ordering <==> precedes(
                keys_of(rows_without(&before, script_id)),
                i,
                j,
            )) by {
                assert(db.folder_members(folder_id)[i] && db.folder_members(folder_id)[j]);
                assert(db.script_keys()[i] == db.script_rows()[i].ordering);
                assert(db.script_keys()[j] == db.script_rows()[j].ordering);
            }
        }
        Ok(())
    }

    /// Moves the script at place `from_index` of the folder's display order
    /// to place `to_index` and renumbers the folder's scripts by their new
    /// places. A request with a place that does not exist changes nothing.
    pub fn reorder_scripts(
        &self,
        db: &mut Database,
        folder_id: i32,
        from_index: usize,
        to_index: usize,
    ) -> (done: Result<(), QueryError>)
        requires
            old(db).wf(),
        ensures
            done.is_ok(),
            final(db).wf(),
            final(db).same_but_script_rows(old(db)),
            final(db).next_script() == old(db).next_script(),
            final(db).script_rows().len() == old(db).script_rows().len(),
            forall|i: int|
                0 <= i < old(db).script_rows().len() ==> #[trigger] final(db).script_rows()[i]
                    == old(db).script_rows()[i].with_ordering(final(db).script_rows()[i].ordering),
            forall|i: int|
                0 <= i < old(db).script_rows().len() && !old(db).linked(
                    folder_id,
                    old(db).script_rows()[i].id,
                ) ==> #[trigger] final(db).script_rows()[i] == old(db).script_rows()[i],
            old(db).scripts_dense(folder_id) ==> final(db).scripts_dense(folder_id),
            if from_index < old(db).script_count(folder_id) && to_index < old(db).script_count(
                folder_id,
            ) {
                &&& final(db).scripts_dense(folder_id)
                &&& exists|pos: Seq<usize>|
                    #![auto]
                    {
                        &&& is_listing(pos, old(db).script_keys(), old(db).folder_members(folder_id))
                        &&& is_listing(
                            reordered(pos, from_index as int, to_index as int),
                            final(db).script_keys(),
                            final(db).folder_members(folder_id),
                        )
                        &&& ranked_by(
                            final(db).script_keys(),
                            reordered(pos, from_index as int, to_index as int),
                        )
                    }
            } else {
                final(db).script_rows() == old(db).script_rows()
            },
    {
        let ghost before = *db;
        let pos = db.script_positions(folder_id);
        if from_index >= pos.len() || to_index >= pos.len() {
            proof {
                assert forall|i: int| 0 <= i < before.script_rows().len() implies before.script_rows()[i]
                    == before.script_rows()[i].with_ordering(before.script_rows()[i].ordering) by {}
                db.lemma_same_members(&before);
            }
            return Ok(());
        }
        let ghost listing = pos@;
        let ghost member = before.folder_members(folder_id);
        let moved = reorder(pos, from_index, to_index);
        proof {
            lemma_listing_covers(listing, before.script_keys(), member);
            lemma_reorder_covers(listing, member, from_index as int, to_index as int);
        }
        db.rank_scripts(&moved, Ghost(member));
        proof {
            assert(db.folder_members(folder_id) =~= member);
            lemma_ranked_is_dense(db.script_keys(), db.folder_members(folder_id), moved@);
        }
        Ok(())
    }
}

} // verus!
