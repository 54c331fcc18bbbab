use notefs::error::{Existing, FsError};
use notefs::watch::{event_channel, notifications_for, WatchEventKind, WatchRegistry};

#[test]
fn channels_name_kind_and_watcher() {
    assert_eq!(event_channel(WatchEventKind::Created, "w1"), Some("file-created-w1".to_string()));
    assert_eq!(event_channel(WatchEventKind::Removed, "w1"), Some("file-deleted-w1".to_string()));
    assert_eq!(event_channel(WatchEventKind::Modified, "w1"), Some("file-changed-w1".to_string()));
    assert_eq!(event_channel(WatchEventKind::Other, "w1"), None);
}

#[test]
fn created_file_gives_one_notification() {
    let out = notifications_for("w1", WatchEventKind::Created, &vec!["/d/new.md".to_string()]);
    assert_eq!(out.len(), 1);
    assert_eq!(out[0].channel, "file-created-w1");
    assert_eq!(out[0].path, "/d/new.md");
}

#[test]
fn batched_paths_keep_their_order() {
    let paths = vec!["/d/b".to_string(), "/d/a".to_string()];
    let out = notifications_for("w2", WatchEventKind::Modified, &paths);
    assert_eq!(out.len(), 2);
    assert_eq!(out[0].path, "/d/b");
    assert_eq!(out[1].path, "/d/a");
    assert_eq!(out[1].channel, "file-changed-w2");
}

#[test]
fn other_kinds_are_dropped() {
    let out = notifications_for("w1", WatchEventKind::Other, &vec!["/d/a".to_string()]);
    assert!(out.is_empty());
}

#[test]
fn registry_start_and_stop() {
    let mut reg: WatchRegistry<u32> = WatchRegistry::new();
    assert_eq!(reg.len(), 0);
    assert_eq!(reg.insert("a".to_string(), 1), None);
    assert_eq!(reg.insert("b".to_string(), 2), None);
    assert_eq!(reg.len(), 2);
    assert!(reg.contains(&"a".to_string()));
    assert_eq!(reg.remove(&"a".to_string()), Ok(1));
    assert!(!reg.contains(&"a".to_string()));
    assert_eq!(reg.remove(&"a".to_string()), Err(FsError::WatcherNotFound));
    assert_eq!(reg.len(), 1);
}

#[test]
fn registry_insert_hands_back_displaced_handle() {
    let mut reg: WatchRegistry<u32> = WatchRegistry::new();
    reg.insert("a".to_string(), 1);
    assert_eq!(reg.insert("a".to_string(), 5), Some(1));
    assert_eq!(reg.len(), 1);
    assert_eq!(reg.remove(&"a".to_string()), Ok(5));
}

#[test]
fn fresh_ids_are_hyphenated_and_distinct() {
    let mut reg: WatchRegistry<u32> = WatchRegistry::new();
    let a = reg.fresh_id().unwrap();
    assert_eq!(a.len(), 36);
    assert_eq!(a.matches('-').count(), 4);
    for (i, c) in a.chars().enumerate() {
        match i {
            8 | 13 | 18 | 23 => assert_eq!(c, '-'),
            14 => assert_eq!(c, '4'),
            _ => assert!(c.is_ascii_digit() || ('a'..='f').contains(&c)),
        }
    }
    reg.insert(a.clone(), 1);
    let b = reg.fresh_id().unwrap();
    assert_ne!(a, b);
}

#[test]
fn error_messages() {
    assert_eq!(FsError::NotFound.message(), "Path does not exist");
    assert_eq!(FsError::NotADirectory.message(), "Path is not a directory");
    assert_eq!(FsError::WatcherNotFound.message(), "Watcher not found");
    assert_eq!(FsError::Io("disk full".to_string()).message(), "disk full");
    assert_eq!(FsError::AlreadyExists(Existing::File).message(), "File already exists");
    assert_eq!(FsError::AlreadyExists(Existing::Folder).message(), "Folder already exists");
    assert_eq!(
        FsError::AlreadyExists(Existing::Sibling).message(),
        "A file with this name already exists"
    );
    assert_eq!(FsError::InvalidPath.message(), "Invalid path");
    assert_eq!(FsError::InvalidSourcePath.message(), "Invalid source path");
    assert_eq!(
        FsError::RandomUnavailable.message(),
        "Could not draw random bytes for a watcher id"
    );
    assert_eq!(FsError::IdTaken.message(), "The watcher id drawn is already in use");
}

#[test]
fn claim_id_refuses_registered_ids() {
    let mut reg: WatchRegistry<u32> = WatchRegistry::new();
    assert_eq!(reg.claim_id("a".to_string()), Some("a".to_string()));
    reg.insert("a".to_string(), 1);
    assert_eq!(reg.claim_id("a".to_string()), None);
    assert_eq!(reg.claim_id("b".to_string()), Some("b".to_string()));
}

#[test]
fn fresh_id_from_empty_registry_succeeds() {
    let reg: WatchRegistry<u32> = WatchRegistry::new();
    assert!(reg.fresh_id().is_ok());
}

#[test]
fn id_from_draw_builds_a_version_four_id() {
    let reg: WatchRegistry<u32> = WatchRegistry::new();
    let id = reg.id_from_draw(Some([0u8; 16])).unwrap();
    assert_eq!(id, "00000000-0000-4000-8000-000000000000");
    let id = reg.id_from_draw(Some([0xffu8; 16])).unwrap();
    assert_eq!(id, "ffffffff-ffff-4fff-bfff-ffffffffffff");
}

#[test]
fn id_from_draw_refuses_failed_draws_and_taken_ids() {
    let mut reg: WatchRegistry<u32> = WatchRegistry::new();
    assert_eq!(reg.id_from_draw(None), Err(FsError::RandomUnavailable));
    reg.insert("00000000-0000-4000-8000-000000000000".to_string(), 1);
    assert_eq!(reg.id_from_draw(Some([0u8; 16])), Err(FsError::IdTaken));
}
