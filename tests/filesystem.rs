use std::sync::mpsc::channel;

use itertools::assert_equal;

use dirwatch::filesystem::{
    apply_file_change, classify, get_initial_state, reconcile_changes, sweep_expired,
    update_file_items, FileChange, FileGroup, FileItem, InitError, NotificationKind, RootScan,
    Tombstone, RETENTION_MS,
};
use dirwatch::path::FsPath;

fn path(text: &str) -> FsPath {
    FsPath::parse(text)
}

const NOW: u64 = 1_700_000_000_000;

#[test]
fn update_file_items_new() {
    let (tx, rx) = channel();
    let mut paths = vec![FileGroup::new(path("/root"))];

    tx.send(FileChange::Added(path("/root/foo"))).unwrap();

    update_file_items(&rx, &mut paths);

    assert_eq!(paths.len(), 1);
    assert_equal(&paths[0].items, &vec![FileItem::new(path("/root/foo"))]);
}

#[test]
fn update_file_items_new_duplicate() {
    let (tx, rx) = channel();
    let mut paths = vec![FileGroup::new(path("/root")), FileGroup::new(path("/root"))];

    tx.send(FileChange::Added(path("/root/foo"))).unwrap();

    update_file_items(&rx, &mut paths);

    assert_eq!(paths.len(), 2);
    let expected_items = vec![FileItem::new(path("/root/foo"))];
    assert_equal(&paths[0].items, &expected_items);
    assert_equal(&paths[1].items, &expected_items);
}

#[test]
fn update_file_items_add() {
    let (tx, rx) = channel();
    let mut paths = vec![FileGroup {
        root: path("/root"),
        items: vec![FileItem::new(path("/root/bar"))],
    }];

    tx.send(FileChange::Added(path("/root/foo"))).unwrap();

    update_file_items(&rx, &mut paths);

    assert_eq!(paths.len(), 1);
    let expected_items = vec![
        FileItem::new(path("/root/bar")),
        FileItem::new(path("/root/foo")),
    ];
    assert_equal(&paths[0].items, &expected_items);
}

#[test]
fn update_file_items_add_duplicate() {
    let (tx, rx) = channel();
    let mut paths = vec![
        FileGroup {
            root: path("/root"),
            items: vec![FileItem::new(path("/root/bar"))],
        },
        FileGroup {
            root: path("/root"),
            items: vec![FileItem::new(path("/root/bar"))],
        },
    ];

    tx.send(FileChange::Added(path("/root/foo"))).unwrap();

    update_file_items(&rx, &mut paths);

    assert_eq!(paths.len(), 2);
    let expected_items = vec![
        FileItem::new(path("/root/bar")),
        FileItem::new(path("/root/foo")),
    ];
    assert_equal(&paths[0].items, &expected_items);
    assert_equal(&paths[1].items, &expected_items);
}

fn bar_foo_group() -> FileGroup {
    FileGroup {
        root: path("/root"),
        items: vec![
            FileItem::new(path("/root/bar")),
            FileItem::new(path("/root/foo")),
        ],
    }
}

#[test]
fn update_file_items_delete_first() {
    let (tx, rx) = channel();
    let mut paths = vec![bar_foo_group()];

    tx.send(FileChange::Removed(path("/root/bar"))).unwrap();

    update_file_items(&rx, &mut paths);

    assert_eq!(paths.len(), 1);
    let items = &paths[0].items;
    assert_eq!(items.len(), 2);
    assert_eq!(items[0].path, path("/root/bar"));
    assert!(items[0].removed.is_some());
    assert_eq!(items[1].path, path("/root/foo"));
    assert!(items[1].removed.is_none());
}

#[test]
fn update_file_items_delete_second() {
    let (tx, rx) = channel();
    let mut paths = vec![bar_foo_group()];

    tx.send(FileChange::Removed(path("/root/foo"))).unwrap();

    update_file_items(&rx, &mut paths);
    assert_eq!(paths.len(), 1);
    let items = &paths[0].items;
    assert_eq!(items.len(), 2);
    assert_eq!(items[0].path, path("/root/bar"));
    assert!(items[0].removed.is_none());
    assert_eq!(items[1].path, path("/root/foo"));
    assert!(items[1].removed.is_some());
}

#[test]
fn update_file_items_delete_first_duplicate() {
    let (tx, rx) = channel();
    let mut paths = vec![bar_foo_group(), bar_foo_group()];

    tx.send(FileChange::Removed(path("/root/bar"))).unwrap();

    update_file_items(&rx, &mut paths);

    assert_eq!(paths.len(), 2);
    let assert_items = |items: &Vec<FileItem>| {
        assert_eq!(items.len(), 2);
        assert_eq!(items[0].path, path("/root/bar"));
        assert!(items[0].removed.is_some());
        assert_eq!(items[1].path, path("/root/foo"));
        assert!(items[1].removed.is_none());
    };
    assert_items(&paths[0].items);
    assert_items(&paths[1].items);
}

#[test]
fn update_file_items_delete_second_duplicate() {
    let (tx, rx) = channel();
    let mut paths = vec![bar_foo_group(), bar_foo_group()];

    tx.send(FileChange::Removed(path("/root/foo"))).unwrap();

    update_file_items(&rx, &mut paths);

    assert_eq!(paths.len(), 2);
    let assert_items = |items: &Vec<FileItem>| {
        assert_eq!(items.len(), 2);
        assert_eq!(items[0].path, path("/root/bar"));
        assert!(items[0].removed.is_none());
        assert_eq!(items[1].path, path("/root/foo"));
        assert!(items[1].removed.is_some());
    };
    assert_items(&paths[0].items);
    assert_items(&paths[1].items);
}

#[test]
fn update_file_items_move_first() {
    let (tx, rx) = channel();
    let mut paths = vec![bar_foo_group()];

    tx.send(FileChange::Moved(path("/root/bar"), path("/root/new"))).unwrap();

    update_file_items(&rx, &mut paths);

    assert_eq!(paths.len(), 1);
    let expected_items = vec![
        FileItem::new(path("/root/new")),
        FileItem::new(path("/root/foo")),
    ];
    assert_equal(&paths[0].items, &expected_items);
}

#[test]
fn update_file_items_move_second() {
    let (tx, rx) = channel();
    let mut paths = vec![bar_foo_group()];

    tx.send(FileChange::Moved(path("/root/foo"), path("/root/new"))).unwrap();

    update_file_items(&rx, &mut paths);

    assert_eq!(paths.len(), 1);
    let expected_items = vec![
        FileItem::new(path("/root/bar")),
        FileItem::new(path("/root/new")),
    ];
    assert_equal(&paths[0].items, &expected_items);
}

#[test]
fn update_file_items_move_first_duplicate() {
    let (tx, rx) = channel();
    let mut paths = vec![bar_foo_group(), bar_foo_group()];

    tx.send(FileChange::Moved(path("/root/bar"), path("/root/new"))).unwrap();

    update_file_items(&rx, &mut paths);

    assert_eq!(paths.len(), 2);
    let expected_items = vec![
        FileItem::new(path("/root/new")),
        FileItem::new(path("/root/foo")),
    ];
    assert_equal(&paths[0].items, &expected_items);
    assert_equal(&paths[1].items, &expected_items);
}

#[test]
fn update_file_items_move_second_duplicate() {
    let (tx, rx) = channel();
    let mut paths = vec![bar_foo_group(), bar_foo_group()];

    tx.send(FileChange::Moved(path("/root/foo"), path("/root/new"))).unwrap();

    update_file_items(&rx, &mut paths);

    assert_eq!(paths.len(), 2);
    let expected_items = vec![
        FileItem::new(path("/root/bar")),
        FileItem::new(path("/root/new")),
    ];
    assert_equal(&paths[0].items, &expected_items);
    assert_equal(&paths[1].items, &expected_items);
}

#[test]
fn update_file_items_move_out() {
    let (tx, rx) = channel();
    let mut paths = vec![bar_foo_group()];

    tx.send(FileChange::Moved(path("/root/bar"), path("/other/new"))).unwrap();

    update_file_items(&rx, &mut paths);

    assert_eq!(paths.len(), 1);
    let items = &paths[0].items;
    assert_eq!(items.len(), 2);
    assert_eq!(items[0].path, path("/root/bar"));
    assert!(items[0].removed.is_some());
    assert_eq!(items[1].path, path("/root/foo"));
    assert!(items[1].removed.is_none());
}

#[test]
fn update_file_items_move_in() {
    let (tx, rx) = channel();
    let mut paths = vec![FileGroup {
        root: path("/root"),
        items: vec![FileItem::new(path("/root/bar"))],
    }];

    tx.send(FileChange::Moved(path("/other/new"), path("/root/foo"))).unwrap();

    update_file_items(&rx, &mut paths);

    assert_eq!(paths.len(), 1);
    let expected_items = vec![
        FileItem::new(path("/root/bar")),
        FileItem::new(path("/root/foo")),
    ];
    assert_eq!(&paths[0].items, &expected_items);
}

#[test]
fn update_file_items_move_between() {
    let (tx, rx) = channel();
    let mut paths = vec![
        FileGroup {
            root: path("/root"),
            items: vec![
                FileItem::new(path("/root/bar")),
                FileItem::new(path("/root/move")),
            ],
        },
        FileGroup {
            root: path("/other"),
            items: vec![FileItem::new(path("/other/foo"))],
        },
    ];

    tx.send(FileChange::Moved(path("/root/move"), path("/other/move"))).unwrap();

    update_file_items(&rx, &mut paths);

    assert_eq!(paths.len(), 2);

    assert_eq!(paths[0].items.len(), 1);
    let items = &paths[0].items;
    assert_eq!(items[0].path, path("/root/bar"));
    assert!(items[0].removed.is_none());

    let expected_items_2 = vec![
        FileItem::new(path("/other/foo")),
        FileItem::new(path("/other/move")),
    ];
    assert_eq!(&paths[1].items, &expected_items_2);
}

#[test]
fn empty_queue_keeps_live_entries() {
    let (_tx, rx) = channel::<FileChange>();
    let mut paths = vec![bar_foo_group()];
    update_file_items(&rx, &mut paths);
    assert_eq!(paths, vec![bar_foo_group()]);
}

#[test]
fn empty_tick_sweeps_only_expired() {
    let mut paths = vec![FileGroup {
        root: path("/root"),
        items: vec![
            FileItem { path: path("/root/old"), removed: Some(Tombstone::At(NOW - RETENTION_MS - 1)) },
            FileItem::new(path("/root/bar")),
            FileItem { path: path("/root/recent"), removed: Some(Tombstone::At(NOW - 5)) },
        ],
    }];
    reconcile_changes(&vec![], &mut paths, NOW);
    assert_eq!(
        paths[0].items,
        vec![
            FileItem::new(path("/root/bar")),
            FileItem { path: path("/root/recent"), removed: Some(Tombstone::At(NOW - 5)) },
        ]
    );
}

#[test]
fn add_then_remove_gives_one_tombstone() {
    let mut paths = vec![FileGroup::new(path("/root"))];
    let changes = vec![
        FileChange::Added(path("/root/p")),
        FileChange::Removed(path("/root/p")),
    ];
    reconcile_changes(&changes, &mut paths, NOW);
    assert_eq!(
        paths[0].items,
        vec![FileItem { path: path("/root/p"), removed: Some(Tombstone::At(NOW)) }]
    );
}

#[test]
fn duplicate_adds_give_two_entries() {
    // known and possibly surprising: additions are not deduplicated
    let mut paths = vec![FileGroup::new(path("/root"))];
    let changes = vec![
        FileChange::Added(path("/root/p")),
        FileChange::Added(path("/root/p")),
    ];
    reconcile_changes(&changes, &mut paths, NOW);
    assert_eq!(paths[0].items.len(), 2);
}

#[test]
fn rename_clears_tombstone() {
    let mut paths = vec![bar_foo_group(), FileGroup::new(path("/elsewhere"))];
    let changes = vec![
        FileChange::Removed(path("/root/bar")),
        FileChange::Moved(path("/root/bar"), path("/root/baz")),
    ];
    reconcile_changes(&changes, &mut paths, NOW);
    assert_eq!(
        paths[0].items,
        vec![FileItem::new(path("/root/baz")), FileItem::new(path("/root/foo"))]
    );
    assert!(paths[1].items.is_empty());
}

#[test]
fn move_between_roots_at_fixed_time() {
    let mut paths = vec![
        FileGroup {
            root: path("/root"),
            items: vec![
                FileItem::new(path("/root/bar")),
                FileItem::new(path("/root/move")),
            ],
        },
        FileGroup {
            root: path("/other"),
            items: vec![FileItem::new(path("/other/foo"))],
        },
    ];
    let changes = vec![FileChange::Moved(path("/root/move"), path("/other/move"))];
    reconcile_changes(&changes, &mut paths, NOW);
    assert_eq!(paths[0].items, vec![FileItem::new(path("/root/bar"))]);
    assert_eq!(
        paths[1].items,
        vec![FileItem::new(path("/other/foo")), FileItem::new(path("/other/move"))]
    );
}

#[test]
fn move_between_roots_purged_at_any_time() {
    for now in [0, 5, RETENTION_MS, RETENTION_MS + 1] {
        let mut paths = vec![
            FileGroup {
                root: path("/root"),
                items: vec![FileItem::new(path("/root/move"))],
            },
            FileGroup::new(path("/other")),
        ];
        let change = FileChange::Moved(path("/root/move"), path("/other/move"));
        apply_file_change(&change, &mut paths, now);
        assert_eq!(
            paths[0].items,
            vec![FileItem { path: path("/root/move"), removed: Some(Tombstone::Relocated(now)) }]
        );
        sweep_expired(&mut paths, now);
        assert!(paths[0].items.is_empty());
        assert_eq!(paths[1].items, vec![FileItem::new(path("/other/move"))]);
    }
}

#[test]
fn move_out_of_scope_then_expires() {
    let mut paths = vec![bar_foo_group()];
    let changes = vec![FileChange::Moved(path("/root/bar"), path("/untracked/x"))];
    reconcile_changes(&changes, &mut paths, NOW);
    assert_eq!(
        paths[0].items,
        vec![
            FileItem { path: path("/root/bar"), removed: Some(Tombstone::At(NOW)) },
            FileItem::new(path("/root/foo")),
        ]
    );
    sweep_expired(&mut paths, NOW + RETENTION_MS);
    assert_eq!(paths[0].items.len(), 2);
    sweep_expired(&mut paths, NOW + RETENTION_MS + 1);
    assert_eq!(paths[0].items, vec![FileItem::new(path("/root/foo"))]);
}

#[test]
fn remove_first_of_two() {
    let mut paths = vec![bar_foo_group()];
    apply_file_change(&FileChange::Removed(path("/root/bar")), &mut paths, NOW);
    assert_eq!(
        paths[0].items,
        vec![
            FileItem { path: path("/root/bar"), removed: Some(Tombstone::At(NOW)) },
            FileItem::new(path("/root/foo")),
        ]
    );
}

#[test]
fn removal_of_untracked_path_is_ignored() {
    let mut paths = vec![bar_foo_group()];
    apply_file_change(&FileChange::Removed(path("/root/none")), &mut paths, NOW);
    apply_file_change(&FileChange::Removed(path("/other/bar")), &mut paths, NOW);
    assert_eq!(paths, vec![bar_foo_group()]);
}

#[test]
fn twin_roots_end_equal() {
    let mut paths = vec![bar_foo_group(), bar_foo_group()];
    let changes = vec![
        FileChange::Added(path("/root/a")),
        FileChange::Removed(path("/root/bar")),
        FileChange::Moved(path("/root/foo"), path("/root/g")),
        FileChange::Moved(path("/root/a"), path("/x/a")),
    ];
    reconcile_changes(&changes, &mut paths, NOW);
    assert_eq!(paths[0], paths[1]);
    assert_eq!(paths[0].items.len(), 3);
}

#[test]
fn sweep_boundary() {
    let mut paths = vec![FileGroup {
        root: path("/root"),
        items: vec![
            FileItem { path: path("/root/a"), removed: Some(Tombstone::At(NOW - RETENTION_MS)) },
            FileItem { path: path("/root/b"), removed: Some(Tombstone::At(NOW - RETENTION_MS - 1)) },
            FileItem { path: path("/root/c"), removed: Some(Tombstone::At(NOW + 10)) },
        ],
    }];
    sweep_expired(&mut paths, NOW);
    assert_eq!(
        paths[0].items,
        vec![
            FileItem { path: path("/root/a"), removed: Some(Tombstone::At(NOW - RETENTION_MS)) },
            FileItem { path: path("/root/c"), removed: Some(Tombstone::At(NOW + 10)) },
        ]
    );
}

#[test]
fn initial_state_lists_children() {
    let scans = vec![
        RootScan::Listed(path("/a"), vec![path("/a/x"), path("/a/y")]),
        RootScan::Listed(path("/b"), vec![]),
    ];
    let groups = get_initial_state(scans).unwrap();
    assert_eq!(
        groups,
        vec![
            FileGroup {
                root: path("/a"),
                items: vec![FileItem::new(path("/a/x")), FileItem::new(path("/a/y"))],
            },
            FileGroup::new(path("/b")),
        ]
    );
}

#[test]
fn initial_state_missing_path() {
    let scans = vec![
        RootScan::Unreadable("denied".to_string()),
        RootScan::Missing("nope".to_string()),
        RootScan::NotADirectory("file".to_string()),
    ];
    assert_eq!(
        get_initial_state(scans),
        Err(InitError::NotFound("nope".to_string()))
    );
}

#[test]
fn initial_state_not_a_directory() {
    let scans = vec![
        RootScan::Listed(path("/a"), vec![]),
        RootScan::NotADirectory("file".to_string()),
    ];
    assert_eq!(
        get_initial_state(scans),
        Err(InitError::NotADirectory("file".to_string()))
    );
}

#[test]
fn initial_state_read_error() {
    let scans = vec![
        RootScan::Listed(path("/a"), vec![]),
        RootScan::Unreadable("denied".to_string()),
    ];
    assert_eq!(get_initial_state(scans), Err(InitError::Io("denied".to_string())));
}

#[test]
fn classify_table() {
    let one = vec![path("/r/a")];
    let two = vec![path("/r/a"), path("/r/b")];
    assert_eq!(classify(NotificationKind::Create, &one), Some(FileChange::Added(path("/r/a"))));
    assert_eq!(classify(NotificationKind::Remove, &one), Some(FileChange::Removed(path("/r/a"))));
    assert_eq!(
        classify(NotificationKind::RenameBoth, &two),
        Some(FileChange::Moved(path("/r/a"), path("/r/b")))
    );
    assert_eq!(classify(NotificationKind::RenameBoth, &one), None);
    assert_eq!(
        classify(NotificationKind::RenameFrom, &one),
        Some(FileChange::Removed(path("/r/a")))
    );
    assert_eq!(classify(NotificationKind::RenameTo, &one), Some(FileChange::Added(path("/r/a"))));
    assert_eq!(classify(NotificationKind::Other, &two), None);
    assert_eq!(classify(NotificationKind::Create, &vec![]), None);
}
