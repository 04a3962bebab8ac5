use line_backup_native::error::CoreError;
use line_backup_native::source::{
    choose_database, classify_source, find_entry, staging_total, staging_wanted, SourceKind,
};

fn names(v: &[&str]) -> Vec<String> {
    v.iter().map(|n| n.to_string()).collect()
}

#[test]
fn sources_are_classified_by_kind() {
    assert_eq!(classify_source(true, "/backups/LINE"), Ok(SourceKind::Directory));
    assert_eq!(classify_source(false, "/backups/LINE.imazingapp"), Ok(SourceKind::ImazingArchive));
    assert_eq!(classify_source(false, "/backups/line.SQLITE"), Ok(SourceKind::Sqlite));
    assert_eq!(classify_source(false, "/backups/notes.txt"), Err(CoreError::UnsupportedSource));
    assert_eq!(SourceKind::ImazingArchive.as_str(), "imazing_archive");
}

#[test]
fn the_best_ranked_database_is_chosen_first_come() {
    let entries = names(&[
        "Payload/LINE.app/Info.plist",
        "AppGroups/group.com.linecorp.line/Messages/Line.sqlite",
        "Lib/PrivateStore/P_a/Messages/Line.sqlite",
        "Lib/PrivateStore/P_b/Messages/Line.sqlite",
    ]);
    assert_eq!(choose_database(&entries), Some(2));
    assert_eq!(choose_database(&names(&["x/Messages/Line.sqlite", "y/Messages/Line.sqlite"])), Some(0));
    assert_eq!(choose_database(&names(&["a", "b"])), None);
    assert_eq!(find_entry(&entries, "Lib/PrivateStore/P_b/Messages/Line.sqlite"), Some(3));
    assert_eq!(find_entry(&entries, "missing"), None);
}

#[test]
fn staging_takes_databases_with_their_sidecars() {
    assert_eq!(
        staging_wanted("A/Messages/Line.sqlite", true, false),
        names(&[
            "A/Messages/Line.sqlite",
            "A/Messages/Line.sqlite-wal",
            "A/Messages/Line.sqlite-shm",
            "A/Messages/LineSquare.sqlite",
            "A/Messages/LineSquare.sqlite-wal",
            "A/Messages/LineSquare.sqlite-shm",
        ])
    );
    assert_eq!(staging_wanted("Line.sqlite", false, true)[3], "UnifiedGroup.sqlite");
    assert_eq!(staging_total(&vec![(10, false), (20, true), (5, false)]), 15);
}
