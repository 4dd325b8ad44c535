use shell_script_manager::app_state_repository::AppStateRepository;
use shell_script_manager::folder_repository::FolderRepository;
use shell_script_manager::get_db::{get_db, initialize_database};
use shell_script_manager::model::{Database, Folder, QueryError, Relation, Script};
use shell_script_manager::order::{reorder, FolderOrderUpdate};
use shell_script_manager::script_repository::ScriptRepository;

fn folder_names(rows: &Vec<Folder>) -> Vec<(String, i32)> {
    rows.iter().map(|f| (f.name.clone(), f.ordering)).collect()
}

fn script_names(rows: &Vec<Script>) -> Vec<(String, i32)> {
    rows.iter().map(|s| (s.name.clone(), s.ordering)).collect()
}

fn orderings_sorted(rows: &Vec<Script>) -> Vec<i32> {
    let mut all: Vec<i32> = rows.iter().map(|s| s.ordering).collect();
    all.sort();
    all
}

#[test]
fn reorder_moves_an_element() {
    assert_eq!(reorder(vec![10, 20, 30, 40], 0, 2), vec![20, 30, 10, 40]);
    assert_eq!(reorder(vec![10, 20, 30, 40], 3, 1), vec![10, 40, 20, 30]);
    assert_eq!(reorder(vec![10, 20], 0, 1), vec![20, 10]);
}

#[test]
fn reorder_out_of_bounds_changes_nothing() {
    assert_eq!(reorder(vec![1, 2, 3], 3, 0), vec![1, 2, 3]);
    assert_eq!(reorder(vec![1, 2, 3], 0, 3), vec![1, 2, 3]);
    assert_eq!(reorder(vec![1, 2, 3], 7, 9), vec![1, 2, 3]);
    assert_eq!(reorder(Vec::<i32>::new(), 0, 0), Vec::<i32>::new());
}

#[test]
fn reorder_onto_itself_changes_nothing() {
    for i in 0..4 {
        assert_eq!(reorder(vec![5, 6, 7, 8], i, i), vec![5, 6, 7, 8]);
    }
}

#[test]
fn folders_and_scripts_scenario() {
    let mut db = get_db();
    let folders = FolderRepository::new();
    let scripts = ScriptRepository::new();

    let dev = folders.create_folder(&mut db, &"Dev".to_string()).unwrap();
    let ops = folders.create_folder(&mut db, &"Ops".to_string()).unwrap();
    assert_eq!((dev.id, dev.ordering), (1, 0));
    assert_eq!((ops.id, ops.ordering), (2, 1));
    assert_eq!(folders.get_folder_count(&db), 2);

    folders.reorder_folders(&mut db, 0, 1).unwrap();
    let listed = folders.get_all_folders(&db).unwrap();
    assert_eq!(
        folder_names(&listed),
        vec![("Ops".to_string(), 0), ("Dev".to_string(), 1)]
    );

    let a = scripts
        .add_script(&mut db, "A".to_string(), "echo a".to_string(), ops.id)
        .unwrap();
    let b = scripts
        .add_script(&mut db, "B".to_string(), "echo b".to_string(), ops.id)
        .unwrap();
    let c = scripts
        .add_script(&mut db, "C".to_string(), "echo c".to_string(), ops.id)
        .unwrap();
    assert_eq!((a.ordering, b.ordering, c.ordering), (0, 1, 2));
    assert_eq!(scripts.get_script_count_by_folder(&db, ops.id).unwrap(), 3);
    assert_eq!(scripts.get_script_count_by_folder(&db, dev.id).unwrap(), 0);

    scripts.delete_script(&mut db, b.id, ops.id).unwrap();
    let left = scripts.get_scripts_by_folder(&db, ops.id).unwrap();
    assert_eq!(
        script_names(&left),
        vec![("A".to_string(), 0), ("C".to_string(), 1)]
    );
    assert_eq!(left[0].command, "echo a");
    assert_eq!(db.relations().len(), 2);
}

#[test]
fn reorder_folders_out_of_range_is_a_no_op() {
    let mut db = get_db();
    let folders = FolderRepository::new();
    folders.create_folder(&mut db, &"One".to_string()).unwrap();
    folders.create_folder(&mut db, &"Two".to_string()).unwrap();
    folders.reorder_folders(&mut db, 0, 2).unwrap();
    folders.reorder_folders(&mut db, 5, 0).unwrap();
    let listed = folders.get_all_folders(&db).unwrap();
    assert_eq!(
        folder_names(&listed),
        vec![("One".to_string(), 0), ("Two".to_string(), 1)]
    );
}

#[test]
fn reorder_folders_moves_backwards_and_forwards() {
    let mut db = get_db();
    let folders = FolderRepository::new();
    for name in ["a", "b", "c", "d"] {
        folders.create_folder(&mut db, &name.to_string()).unwrap();
    }
    folders.reorder_folders(&mut db, 3, 0).unwrap();
    let listed = folders.get_all_folders(&db).unwrap();
    assert_eq!(
        folder_names(&listed),
        vec![
            ("d".to_string(), 0),
            ("a".to_string(), 1),
            ("b".to_string(), 2),
            ("c".to_string(), 3)
        ]
    );
    folders.reorder_folders(&mut db, 1, 2).unwrap();
    let listed = folders.get_all_folders(&db).unwrap();
    assert_eq!(
        folder_names(&listed),
        vec![
            ("d".to_string(), 0),
            ("b".to_string(), 1),
            ("a".to_string(), 2),
            ("c".to_string(), 3)
        ]
    );
    folders.reorder_folders(&mut db, 2, 2).unwrap();
    let again = folders.get_all_folders(&db).unwrap();
    assert_eq!(folder_names(&again), folder_names(&listed));
}

#[test]
fn script_indices_stay_dense() {
    let mut db = get_db();
    let folders = FolderRepository::new();
    let scripts = ScriptRepository::new();
    let f = folders.create_folder(&mut db, &"F".to_string()).unwrap();
    let mut ids = Vec::new();
    for n in 0..6 {
        let made = scripts
            .add_script(&mut db, format!("s{}", n), format!("run {}", n), f.id)
            .unwrap();
        ids.push(made.id);
        let rows = scripts.get_scripts_by_folder(&db, f.id).unwrap();
        assert_eq!(orderings_sorted(&rows), (0..=n).collect::<Vec<i32>>());
    }
    scripts.reorder_scripts(&mut db, f.id, 0, 5).unwrap();
    let rows = scripts.get_scripts_by_folder(&db, f.id).unwrap();
    assert_eq!(orderings_sorted(&rows), vec![0, 1, 2, 3, 4, 5]);
    assert_eq!(
        rows.iter().map(|s| s.name.clone()).collect::<Vec<String>>(),
        vec!["s1", "s2", "s3", "s4", "s5", "s0"]
    );
    scripts.delete_script(&mut db, ids[3], f.id).unwrap();
    let rows = scripts.get_scripts_by_folder(&db, f.id).unwrap();
    assert_eq!(orderings_sorted(&rows), vec![0, 1, 2, 3, 4]);
    assert_eq!(
        rows.iter().map(|s| s.name.clone()).collect::<Vec<String>>(),
        vec!["s1", "s2", "s4", "s5", "s0"]
    );
    scripts.reorder_scripts(&mut db, f.id, 9, 0).unwrap();
    let same = scripts.get_scripts_by_folder(&db, f.id).unwrap();
    assert_eq!(script_names(&same), script_names(&rows));
    scripts.delete_script(&mut db, ids[1], f.id).unwrap();
    scripts.delete_script(&mut db, ids[0], f.id).unwrap();
    let rows = scripts.get_scripts_by_folder(&db, f.id).unwrap();
    assert_eq!(
        script_names(&rows),
        vec![
            ("s2".to_string(), 0),
            ("s4".to_string(), 1),
            ("s5".to_string(), 2)
        ]
    );
}

#[test]
fn deleting_a_folder_removes_only_orphaned_scripts() {
    let mut db = get_db();
    let folders = FolderRepository::new();
    let scripts = ScriptRepository::new();
    let one = folders.create_folder(&mut db, &"one".to_string()).unwrap();
    let two = folders.create_folder(&mut db, &"two".to_string()).unwrap();
    let sole = scripts
        .add_script(&mut db, "sole".to_string(), "ls".to_string(), one.id)
        .unwrap();
    let shared = scripts
        .add_script(&mut db, "shared".to_string(), "pwd".to_string(), one.id)
        .unwrap();
    scripts
        .create_script_relationship(&mut db, two.id, shared.id)
        .unwrap();

    folders.delete_script_folder(&mut db, one.id).unwrap();

    assert_eq!(db.find_script(sole.id), None);
    assert!(db.find_script(shared.id).is_some());
    assert_eq!(db.find_folder(one.id), None);
    assert!(db.find_folder(two.id).is_some());
    assert_eq!(
        db.relations().clone(),
        vec![Relation {
            folder_id: two.id,
            script_id: shared.id
        }]
    );
    let rows = scripts.get_scripts_by_folder(&db, two.id).unwrap();
    assert_eq!(rows.len(), 1);
    assert_eq!(rows[0].name, "shared");
    let listed = folders.get_all_folders(&db).unwrap();
    assert_eq!(folder_names(&listed), vec![("two".to_string(), 0)]);
}

#[test]
fn deleting_a_missing_folder_changes_nothing() {
    let mut db = get_db();
    let folders = FolderRepository::new();
    let scripts = ScriptRepository::new();
    let f = folders.create_folder(&mut db, &"f".to_string()).unwrap();
    scripts
        .add_script(&mut db, "s".to_string(), "true".to_string(), f.id)
        .unwrap();
    folders.delete_script_folder(&mut db, 99).unwrap();
    assert_eq!(db.folders().len(), 1);
    assert_eq!(db.scripts().len(), 1);
    assert_eq!(db.relations().len(), 1);
}

#[test]
fn relationship_needs_both_ends() {
    let mut db = get_db();
    let folders = FolderRepository::new();
    let scripts = ScriptRepository::new();
    let f = folders.create_folder(&mut db, &"f".to_string()).unwrap();
    let s = scripts
        .create_script(&mut db, "s".to_string(), "true".to_string(), 0)
        .unwrap();
    assert_eq!(
        scripts.create_script_relationship(&mut db, f.id + 1, s.id),
        Err(QueryError::ForeignKeyViolation)
    );
    assert_eq!(
        scripts.create_script_relationship(&mut db, f.id, s.id + 1),
        Err(QueryError::ForeignKeyViolation)
    );
    assert_eq!(db.relations().len(), 0);
    assert_eq!(scripts.create_script_relationship(&mut db, f.id, s.id), Ok(()));
    assert!(db.is_linked(f.id, s.id));
    assert!(db.is_script_in_use(s.id));
    assert!(!db.is_linked(s.id, f.id + 5));
}

#[test]
fn add_script_to_missing_folder_leaves_the_script() {
    let mut db = get_db();
    let scripts = ScriptRepository::new();
    let out = scripts.add_script(&mut db, "s".to_string(), "true".to_string(), 4);
    assert_eq!(out.err(), Some(QueryError::ForeignKeyViolation));
    assert_eq!(db.scripts().len(), 1);
    assert_eq!(db.relations().len(), 0);
    assert!(!db.is_script_in_use(1));
}

#[test]
fn identities_run_out() {
    let mut db = Database::starting_at(i32::MAX, i32::MAX - 1);
    let folders = FolderRepository::new();
    let scripts = ScriptRepository::new();
    assert_eq!(
        folders.create_folder(&mut db, &"f".to_string()).err(),
        Some(QueryError::IdsExhausted)
    );
    assert_eq!(
        folders
            .create_script_folder(&mut db, &"f".to_string(), 3)
            .err(),
        Some(QueryError::IdsExhausted)
    );
    let made = scripts
        .create_script(&mut db, "s".to_string(), "c".to_string(), 0)
        .unwrap();
    assert_eq!(made.id, i32::MAX - 1);
    assert_eq!(
        scripts
            .create_script(&mut db, "t".to_string(), "c".to_string(), 1)
            .err(),
        Some(QueryError::IdsExhausted)
    );
    assert_eq!(
        scripts
            .add_script(&mut db, "t".to_string(), "c".to_string(), 1)
            .err(),
        Some(QueryError::IdsExhausted)
    );
    assert_eq!(db.folders().len(), 0);
    assert_eq!(db.scripts().len(), 1);
}

#[test]
fn error_messages() {
    assert_eq!(
        QueryError::IdsExhausted.message(),
        "no identity left for a new row"
    );
    assert_eq!(
        QueryError::ForeignKeyViolation.message(),
        "foreign key constraint failed"
    );
}

#[test]
fn batch_update_applies_assignments_as_given() {
    let mut db = get_db();
    let folders = FolderRepository::new();
    let a = folders.create_folder(&mut db, &"a".to_string()).unwrap();
    let b = folders.create_folder(&mut db, &"b".to_string()).unwrap();
    let c = folders.create_folder(&mut db, &"c".to_string()).unwrap();
    folders
        .batch_order_update(
            &mut db,
            vec![
                FolderOrderUpdate {
                    folder_id: a.id,
                    new_ordering: 7,
                },
                FolderOrderUpdate {
                    folder_id: c.id,
                    new_ordering: 1,
                },
                FolderOrderUpdate {
                    folder_id: a.id,
                    new_ordering: 1,
                },
                FolderOrderUpdate {
                    folder_id: 42,
                    new_ordering: 0,
                },
            ],
        )
        .unwrap();
    let listed = folders.get_all_folders(&db).unwrap();
    assert_eq!(
        folder_names(&listed),
        vec![
            ("a".to_string(), 1),
            ("b".to_string(), 1),
            ("c".to_string(), 1)
        ]
    );
    folders
        .batch_order_update(
            &mut db,
            vec![FolderOrderUpdate {
                folder_id: b.id,
                new_ordering: -3,
            }],
        )
        .unwrap();
    let listed = folders.get_all_folders(&db).unwrap();
    assert_eq!(
        folder_names(&listed),
        vec![
            ("b".to_string(), -3),
            ("a".to_string(), 1),
            ("c".to_string(), 1)
        ]
    );
    folders.reorder_folders(&mut db, 0, 0).unwrap();
    let listed = folders.get_all_folders(&db).unwrap();
    assert_eq!(
        folder_names(&listed),
        vec![
            ("b".to_string(), 0),
            ("a".to_string(), 1),
            ("c".to_string(), 2)
        ]
    );
}

#[test]
fn renaming_and_updating_touch_one_field() {
    let mut db = get_db();
    let folders = FolderRepository::new();
    let scripts = ScriptRepository::new();
    let f = folders.create_folder(&mut db, &"old".to_string()).unwrap();
    let s = scripts
        .add_script(&mut db, "name".to_string(), "cmd".to_string(), f.id)
        .unwrap();
    folders
        .rename_folder(&mut db, f.id, "new".to_string())
        .unwrap();
    scripts
        .update_script_name(&mut db, s.id, "renamed".to_string())
        .unwrap();
    let rows = scripts.get_scripts_by_folder(&db, f.id).unwrap();
    assert_eq!(
        (rows[0].name.as_str(), rows[0].command.as_str(), rows[0].ordering),
        ("renamed", "cmd", 0)
    );
    scripts
        .update_script_command(&mut db, s.id, "other".to_string())
        .unwrap();
    scripts
        .update_script_command(&mut db, s.id + 1, "lost".to_string())
        .unwrap();
    let rows = scripts.get_scripts_with_relations_by_folder(&db, f.id).unwrap();
    assert_eq!(
        (
            rows[0].script.name.as_str(),
            rows[0].script.command.as_str(),
            rows[0].script.id
        ),
        ("renamed", "other", s.id)
    );
    let listed = folders.get_all_folders(&db).unwrap();
    assert_eq!(folder_names(&listed), vec![("new".to_string(), 0)]);
}

#[test]
fn scripts_with_relations_come_in_storage_order() {
    let mut db = get_db();
    let folders = FolderRepository::new();
    let scripts = ScriptRepository::new();
    let f = folders.create_folder(&mut db, &"f".to_string()).unwrap();
    let g = folders.create_folder(&mut db, &"g".to_string()).unwrap();
    scripts
        .add_script(&mut db, "x".to_string(), "1".to_string(), f.id)
        .unwrap();
    scripts
        .add_script(&mut db, "y".to_string(), "2".to_string(), g.id)
        .unwrap();
    scripts
        .add_script(&mut db, "z".to_string(), "3".to_string(), f.id)
        .unwrap();
    scripts.reorder_scripts(&mut db, f.id, 0, 1).unwrap();
    let stored = scripts.get_scripts_with_relations_by_folder(&db, f.id).unwrap();
    assert_eq!(
        stored
            .iter()
            .map(|row| (row.script.name.clone(), row.script.ordering))
            .collect::<Vec<(String, i32)>>(),
        vec![("x".to_string(), 1), ("z".to_string(), 0)]
    );
    for row in &stored {
        assert_eq!(
            row.relations,
            vec![Relation {
                folder_id: f.id,
                script_id: row.script.id
            }]
        );
    }
    let shown = scripts.get_scripts_by_folder(&db, f.id).unwrap();
    assert_eq!(
        script_names(&shown),
        vec![("z".to_string(), 0), ("x".to_string(), 1)]
    );
    let other = scripts.get_scripts_by_folder(&db, g.id).unwrap();
    assert_eq!(script_names(&other), vec![("y".to_string(), 0)]);
}

#[test]
fn settings_are_created_then_updated() {
    let mut db = get_db();
    let state = AppStateRepository::new();
    let folders = FolderRepository::new();
    assert!(state.get_app_state(&db).unwrap().is_none());
    assert!(folders.get_app_state(&db).unwrap().is_none());

    let first = state.set_dark_mode(&mut db, true).unwrap();
    assert_eq!(
        (first.id, first.last_opened_folder_id, first.dark_mode),
        (1, None, true)
    );
    let second = state.set_last_opened_folder(&mut db, Some(5)).unwrap();
    assert_eq!(
        (second.id, second.last_opened_folder_id, second.dark_mode),
        (1, Some(5), true)
    );
    let third = state.set_dark_mode(&mut db, false).unwrap();
    assert_eq!(
        (third.last_opened_folder_id, third.dark_mode),
        (Some(5), false)
    );
    folders.upsert_app_state_last_folder_id(&mut db, 9).unwrap();
    let stored = state.get_app_state(&db).unwrap().unwrap();
    assert_eq!(
        (stored.id, stored.last_opened_folder_id, stored.dark_mode),
        (1, Some(9), false)
    );
    let cleared = state.set_last_opened_folder(&mut db, None).unwrap();
    assert_eq!(cleared.last_opened_folder_id, None);
}

#[test]
fn settings_upsert_on_an_empty_store() {
    let mut db = get_db();
    let folders = FolderRepository::new();
    folders.upsert_app_state_last_folder_id(&mut db, 3).unwrap();
    let stored = db.app_state().unwrap();
    assert_eq!(
        (stored.id, stored.last_opened_folder_id, stored.dark_mode),
        (1, Some(3), false)
    );
}

#[test]
fn deleting_a_folder_closes_the_gap() {
    let mut db = get_db();
    let folders = FolderRepository::new();
    for name in ["Dev", "Ops", "QA"] {
        folders.create_folder(&mut db, &name.to_string()).unwrap();
    }
    assert_eq!(folders.delete_script_folder(&mut db, 1), Ok(()));
    let listed = folders.get_all_folders(&db).unwrap();
    assert_eq!(
        listed
            .iter()
            .map(|f| (f.id, f.name.clone(), f.ordering))
            .collect::<Vec<(i32, String, i32)>>(),
        vec![(2, "Ops".to_string(), 0), (3, "QA".to_string(), 1)]
    );
    let made = folders.create_folder(&mut db, &"New".to_string()).unwrap();
    assert_eq!((made.id, made.ordering), (4, 2));
    folders.delete_script_folder(&mut db, 3).unwrap();
    let listed = folders.get_all_folders(&db).unwrap();
    assert_eq!(
        folder_names(&listed),
        vec![("Ops".to_string(), 0), ("New".to_string(), 1)]
    );
}

#[test]
fn deleting_a_folder_keeps_the_display_order() {
    let mut db = get_db();
    let folders = FolderRepository::new();
    for name in ["a", "b", "c", "d"] {
        folders.create_folder(&mut db, &name.to_string()).unwrap();
    }
    folders.reorder_folders(&mut db, 3, 0).unwrap();
    folders.delete_script_folder(&mut db, 2).unwrap();
    let listed = folders.get_all_folders(&db).unwrap();
    assert_eq!(
        folder_names(&listed),
        vec![
            ("d".to_string(), 0),
            ("a".to_string(), 1),
            ("c".to_string(), 2)
        ]
    );
    folders.delete_script_folder(&mut db, 77).unwrap();
    let again = folders.get_all_folders(&db).unwrap();
    assert_eq!(folder_names(&again), folder_names(&listed));
}

#[test]
fn rows_that_join_records_name_are_not_deleted() {
    let mut db = get_db();
    let folders = FolderRepository::new();
    let scripts = ScriptRepository::new();
    let f = folders.create_folder(&mut db, &"f".to_string()).unwrap();
    let s = scripts
        .add_script(&mut db, "s".to_string(), "true".to_string(), f.id)
        .unwrap();
    assert!(db.is_folder_in_use(f.id));
    assert_eq!(db.delete_folder(f.id), Err(QueryError::ForeignKeyViolation));
    assert_eq!(db.delete_script(s.id), Err(QueryError::ForeignKeyViolation));
    assert_eq!(db.folders().len(), 1);
    assert_eq!(db.scripts().len(), 1);
    assert_eq!(
        db.relations_between(f.id, s.id),
        vec![Relation {
            folder_id: f.id,
            script_id: s.id
        }]
    );
    assert_eq!(db.relations_between(f.id, s.id + 1), vec![]);
    db.delete_relations_by_script(s.id);
    assert!(!db.is_folder_in_use(f.id));
    assert_eq!(db.delete_script(s.id), Ok(()));
    assert_eq!(db.delete_folder(f.id), Ok(()));
    assert_eq!(db.delete_folder(f.id), Ok(()));
    assert_eq!(db.folders().len(), 0);
    assert_eq!(db.scripts().len(), 0);
}

#[test]
fn a_script_stored_with_the_count_joins_a_dense_folder() {
    let mut db = get_db();
    let folders = FolderRepository::new();
    let scripts = ScriptRepository::new();
    let f = folders.create_folder(&mut db, &"f".to_string()).unwrap();
    for n in 0..3 {
        let count = scripts.get_script_count_by_folder(&db, f.id).unwrap();
        assert_eq!(count, n);
        let made = scripts
            .create_script(&mut db, format!("s{}", n), "true".to_string(), count as i32)
            .unwrap();
        scripts
            .create_script_relationship(&mut db, f.id, made.id)
            .unwrap();
        let rows = scripts.get_scripts_by_folder(&db, f.id).unwrap();
        assert_eq!(orderings_sorted(&rows), (0..=n as i32).collect::<Vec<i32>>());
        assert_eq!(rows[n as usize].id, made.id);
    }
}

#[test]
fn database_is_ready_unless_both_steps_failed() {
    assert_eq!(initialize_database(true, true), Ok(()));
    assert_eq!(initialize_database(true, false), Ok(()));
    assert_eq!(initialize_database(false, true), Ok(()));
    assert_eq!(
        initialize_database(false, false),
        Err("Database initialization failed".to_string())
    );
}
