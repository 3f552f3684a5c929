use dragonfly::error::AppError;
use dragonfly::remote::FileEntry;
use dragonfly::transfer::{
    chunk_size_for, create_child_file_transfer, create_directory_transfer, duplicate_action,
    remote_rename_candidate, rename_file_name, rename_parts, split_file_name, local_rename_candidate,
    resolve_local_path, sequential_buffer_size, skipped_transfer_event,
    transfer_concurrency, download_entry_action, upload_entry_action, EntryAction,
    RemoteFileCounter, RenameSearch, ChunkCursor, DuplicateAction, RetryStep, RetryTracker, TransferControlState, TransferRegistry,
    TransferRuntime,
};

fn runtime(id: &str) -> TransferRuntime {
    TransferRuntime::new_with_kind(
        id.to_string(),
        "s1".to_string(),
        "a.txt".to_string(),
        "/r/a.txt".to_string(),
        "/l/a.txt".to_string(),
        "download".to_string(),
        "file".to_string(),
        None,
        None,
        None,
    )
}

fn is_uuid_text(s: &str) -> bool {
    s.len() == 36
        && s.chars().enumerate().all(|(i, c)| {
            if [8, 13, 18, 23].contains(&i) {
                c == '-'
            } else {
                c.is_ascii_digit() || ('a'..='f').contains(&c)
            }
        })
        && s.as_bytes()[14] == b'4'
}

#[test]
fn pause_then_resume_restores_running() {
    let mut t = runtime("t1");
    let ev = t.pause().expect("paused event");
    assert_eq!(ev.status, "paused");
    assert_eq!(ev.id, "t1");
    assert_eq!(t.control_state, TransferControlState::Paused);
    assert!(t.pause().is_none());
    let ev = t.resume().expect("resumed event");
    assert_eq!(ev.status, "resumed");
    assert_eq!(t.control_state, TransferControlState::Running);
    assert!(t.resume().is_none());
}

#[test]
fn cancel_is_final() {
    let mut t = runtime("t1");
    let ev = t.cancel().expect("cancel event");
    assert_eq!(ev.status, "cancelled");
    assert!(t.cancel().is_none());
    assert!(t.pause().is_none());
    assert!(t.resume().is_none());
    assert_eq!(t.control_state, TransferControlState::Cancelled);
    match t.readiness() {
        Err(AppError::Cancelled(m)) => assert_eq!(m, "Transfer cancelled"),
        other => panic!("unexpected {other:?}"),
    }
}

#[test]
fn readiness_follows_state() {
    let mut t = runtime("t1");
    assert!(matches!(t.readiness(), Ok(true)));
    t.pause();
    assert!(matches!(t.readiness(), Ok(false)));
}

#[test]
fn build_event_copies_the_transfer() {
    let mut t = runtime("t9");
    t.update_progress(10, 100);
    let ev = t.build_event("progress", 100, None);
    assert_eq!(ev.id, "t9");
    assert_eq!(ev.session_id, "s1");
    assert_eq!(ev.status, "progress");
    assert_eq!(ev.bytes_transferred, 10);
    assert_eq!(ev.total_size, 100);
    assert_eq!(ev.size, 100);
    assert_eq!(ev.kind, "file");
    assert_eq!(ev.direction, "download");
}

#[test]
fn finish_reports_completion_error_or_nothing() {
    let mut t = runtime("t1");
    let ev = t.finish(&Ok(42)).expect("completed");
    assert_eq!(ev.status, "completed");
    assert_eq!(ev.size, 42);
    assert_eq!(t.bytes_transferred, 42);
    assert_eq!(t.total_size, 42);

    let mut t = runtime("t2");
    assert!(t.finish(&Err(AppError::Cancelled("Transfer cancelled".to_string()))).is_none());

    let mut t = runtime("t3");
    let ev = t
        .finish(&Err(AppError::Channel("SFTP read failed: eof".to_string())))
        .expect("error event");
    assert_eq!(ev.status, "error");
    assert_eq!(ev.error_msg.as_deref(), Some("SFTP read failed: eof"));
}

#[test]
fn directory_progress_counts_items() {
    let mut d = create_directory_transfer("s1", "dir".to_string(), "/r/dir", "/l/dir", "upload", 5);
    assert!(is_uuid_text(&d.id));
    assert_eq!(d.kind, "directory");
    assert_eq!(d.item_count_total, Some(5));
    assert_eq!(d.item_count_completed, Some(0));
    d.record_completed_item(1);
    assert_eq!(d.item_count_completed, Some(1));
    assert_eq!(d.item_count_total, Some(5));

    let mut c = create_child_file_transfer(
        "s1",
        "f".to_string(),
        "/r/dir/f",
        "/l/dir/f",
        "upload",
        Some(d.id.clone()),
    );
    assert_eq!(c.kind, "file");
    assert_eq!(c.parent_id.as_deref(), Some(d.id.as_str()));
    assert_ne!(c.id, d.id);
    c.record_completed_item(3);
    assert_eq!(c.item_count_total, Some(3));
}

#[test]
fn registry_tracks_transfers_by_id() {
    let mut reg = TransferRegistry::new();
    reg.register(runtime("a"));
    reg.register(runtime("b"));
    reg.register(runtime("a"));
    assert_eq!(reg.active_transfer_count(), 2);
    assert_eq!(reg.pause_transfer("a").map(|e| e.status), Some("paused".to_string()));
    assert_eq!(reg.control_state("a"), Some(TransferControlState::Paused));
    assert!(reg.pause_transfer("a").is_none());
    assert_eq!(reg.resume_transfer("a").map(|e| e.status), Some("resumed".to_string()));
    assert_eq!(reg.cancel_transfer("b").map(|e| e.status), Some("cancelled".to_string()));
    assert!(reg.cancel_transfer("b").is_none());
    assert!(reg.pause_transfer("zzz").is_none());
    reg.unregister_transfer("a");
    assert_eq!(reg.control_state("a"), None);
    assert_eq!(reg.active_transfer_count(), 1);
    reg.unregister_transfer("a");
    assert_eq!(reg.active_transfer_count(), 1);
}

#[test]
fn chunk_size_and_concurrency() {
    assert_eq!(chunk_size_for(32), 32 * 1024);
    assert_eq!(chunk_size_for(0), 1024);
    assert_eq!(transfer_concurrency(3, 10 * 1024, 1024), 3);
    assert_eq!(transfer_concurrency(8, 2500, 1024), 3);
    assert_eq!(transfer_concurrency(0, 5000, 1024), 1);
    assert_eq!(transfer_concurrency(4, 0, 1024), 0);
}

#[test]
fn chunks_cover_the_file_exactly() {
    let mut c = ChunkCursor::new(2500, 1024);
    assert_eq!(c.next_chunk(), Some((0, 1024)));
    assert_eq!(c.next_chunk(), Some((1024, 1024)));
    assert_eq!(c.next_chunk(), Some((2048, 452)));
    assert_eq!(c.next_chunk(), None);
    assert_eq!(c.next_chunk(), None);
    let mut e = ChunkCursor::new(0, 1024);
    assert_eq!(e.next_chunk(), None);
}

#[test]
fn retries_stop_on_success_cancel_or_limit() {
    let mut r = RetryTracker::new(2);
    assert!(matches!(r.record(Err(AppError::Channel("x".to_string()))), RetryStep::Retry));
    assert_eq!(r.current_attempt(), 1);
    assert!(matches!(r.record(Err(AppError::Channel("y".to_string()))), RetryStep::Retry));
    match r.record(Err(AppError::Channel("z".to_string()))) {
        RetryStep::Finished(Err(AppError::Channel(m))) => assert_eq!(m, "z"),
        other => panic!("unexpected {other:?}"),
    }

    let mut r = RetryTracker::new(5);
    match r.record(Err(AppError::Cancelled("Transfer cancelled".to_string()))) {
        RetryStep::Finished(Err(AppError::Cancelled(_))) => {}
        other => panic!("unexpected {other:?}"),
    }
    let mut r = RetryTracker::new(0);
    assert!(matches!(r.record(Ok(())), RetryStep::Finished(Ok(()))));
}

#[test]
fn duplicate_strategy_decides() {
    assert_eq!(duplicate_action(false, "skip"), DuplicateAction::UsePath);
    assert_eq!(duplicate_action(true, "skip"), DuplicateAction::Skip);
    assert_eq!(duplicate_action(true, "rename"), DuplicateAction::Rename);
    assert_eq!(duplicate_action(true, "overwrite"), DuplicateAction::UsePath);
    assert_eq!(duplicate_action(true, "bogus"), DuplicateAction::UsePath);
}

#[test]
fn rename_candidates() {
    assert_eq!(rename_file_name("report", 3, Some("txt")), "report(3).txt");
    assert_eq!(rename_file_name("Makefile", 12, None), "Makefile(12)");
    assert_eq!(remote_rename_candidate("/home/u//", "a", 1, Some("gz")), "/home/u/a(1).gz");
    assert_eq!(remote_rename_candidate("", "a", 999, None), "/a(999)");
}

#[test]
fn skipped_event_is_completed_and_empty() {
    let ev = skipped_transfer_event("s1", "/r/dir/file.bin", "/l/file.bin", "download");
    assert!(is_uuid_text(&ev.id));
    assert_eq!(ev.file_name, "file.bin");
    assert_eq!(ev.status, "completed");
    assert_eq!(ev.kind, "file");
    assert_eq!(ev.size, 0);
    assert_eq!(ev.direction, "download");
}

#[test]
fn directory_finish_events() {
    let mut d = create_directory_transfer("s", "d".to_string(), "/r", "/l", "download", 4);
    let ev = d.finish_directory(4, 4, &Ok(()));
    assert_eq!(ev.status, "completed");
    assert_eq!(ev.item_count_completed, Some(4));
    let ev = d.finish_directory(1, 4, &Err(AppError::Cancelled("Transfer cancelled".to_string())));
    assert_eq!(ev.status, "cancelled");
    let ev = d.finish_directory(1, 4, &Err(AppError::Config("boom".to_string())));
    assert_eq!(ev.status, "error");
    assert_eq!(ev.error_msg.as_deref(), Some("boom"));
}

#[test]
fn sequential_buffer_is_at_least_64k() {
    assert_eq!(sequential_buffer_size(32 * 1024), 65536);
    assert_eq!(sequential_buffer_size(128 * 1024), 128 * 1024);
}

fn entry(name: &str, is_dir: bool, is_symlink: bool) -> FileEntry {
    FileEntry {
        name: name.to_string(),
        is_dir,
        is_symlink,
        size: 0,
        permissions: String::new(),
    }
}

#[test]
fn directory_entries_are_descended_transferred_or_skipped() {
    match download_entry_action("/srv/", "/tmp/out/", &entry("sub", true, false)) {
        EntryAction::Descend { remote, local } => {
            assert_eq!(remote, "/srv/sub");
            assert_eq!(local, "/tmp/out/sub");
        }
        other => panic!("unexpected {other:?}"),
    }
    assert!(matches!(
        download_entry_action("/srv", "/tmp", &entry("ln", false, true)),
        EntryAction::Skip
    ));
    match download_entry_action("/srv", "/tmp", &entry("f", false, false)) {
        EntryAction::Transfer { remote, local } => assert_eq!((remote.as_str(), local.as_str()), ("/srv/f", "/tmp/f")),
        other => panic!("unexpected {other:?}"),
    }
    match upload_entry_action("C:\\up\\", "/srv", "f", false, true) {
        EntryAction::Transfer { remote, local } => {
            assert_eq!(remote, "/srv/f");
            assert_eq!(local, "C:\\up/f");
        }
        other => panic!("unexpected {other:?}"),
    }
    assert!(matches!(upload_entry_action("/a", "/b", "fifo", false, false), EntryAction::Skip));
}

#[test]
fn remote_files_are_counted_by_listing() {
    let mut c = RemoteFileCounter::new("/data");
    let d = c.next_directory().unwrap();
    assert_eq!(d, "/data");
    c.add_listing(&d, &vec![entry("a", false, false), entry("sub", true, false), entry("l", false, true)]);
    assert_eq!(c.counted(), 1);
    let d = c.next_directory().unwrap();
    assert_eq!(d, "/data/sub");
    c.add_listing(&d, &vec![entry("b", false, false), entry("c", false, false)]);
    assert!(c.next_directory().is_none());
    assert_eq!(c.counted(), 3);
}

#[test]
fn rename_search_tries_up_to_999_names() {
    let mut r = RenameSearch::new();
    assert_eq!(r.current(), 1);
    let mut tried = 1;
    while r.advance() {
        tried += 1;
    }
    assert_eq!(tried, 999);
    assert_eq!(r.current(), 999);
    assert!(!r.advance());
}

#[test]
fn file_names_split_into_stem_and_extension() {
    assert_eq!(split_file_name("report.tar.gz"), ("report.tar".to_string(), Some("gz".to_string())));
    assert_eq!(split_file_name("notes"), ("notes".to_string(), None));
    assert_eq!(split_file_name(".bashrc"), (".bashrc".to_string(), None));
    assert_eq!(split_file_name("..x"), (".".to_string(), Some("x".to_string())));
    assert_eq!(split_file_name("a."), ("a".to_string(), Some(String::new())));
}

#[test]
fn rename_parts_of_a_path() {
    let (parent, stem, ext) = rename_parts("/home/u/a.txt");
    assert_eq!(parent.as_deref(), Some("/home/u"));
    assert_eq!(stem, "a");
    assert_eq!(ext.as_deref(), Some("txt"));
    let name = rename_file_name(&stem, 2, ext.as_deref());
    assert_eq!(name, "a(2).txt");
    let (parent, stem, ext) = rename_parts("/");
    assert_eq!(parent, None);
    assert_eq!(stem, "");
    assert_eq!(ext, None);
}

#[test]
fn plain_name_is_split_whole() {
    let (parent, stem, ext) = rename_parts("photo.jpeg");
    assert_eq!(parent.as_deref(), Some(""));
    assert_eq!(stem, "photo");
    assert_eq!(ext.as_deref(), Some("jpeg"));
}

#[test]
fn local_download_path_is_chosen_from_existence_answers() {
    assert_eq!(resolve_local_path("/d/a.txt", "rename", false, &vec![]), Some("/d/a.txt".to_string()));
    assert_eq!(resolve_local_path("/d/a.txt", "skip", true, &vec![]), None);
    assert_eq!(resolve_local_path("/d/a.txt", "overwrite", true, &vec![]), Some("/d/a.txt".to_string()));
    let first = local_rename_candidate("/d/a.txt", 1);
    let third = local_rename_candidate("/d/a.txt", 3);
    assert!(first.ends_with("a(1).txt") && first.starts_with("/d"));
    assert_eq!(resolve_local_path("/d/a.txt", "rename", true, &vec![false]), Some(first));
    assert_eq!(resolve_local_path("/d/a.txt", "rename", true, &vec![true, true, false]), Some(third));
    assert_eq!(resolve_local_path("/d/a.txt", "rename", true, &vec![true; 999]), Some("/d/a.txt".to_string()));
    assert_eq!(local_rename_candidate("notes", 2), "notes(2)");
}

#[test]
fn transfer_begins_with_started_and_leaves_when_ended() {
    let mut reg = TransferRegistry::new();
    let ev = reg.begin_transfer(runtime("t1"));
    assert_eq!(ev.status, "started");
    assert_eq!(ev.size, 0);
    assert_eq!(reg.control_state("t1"), Some(TransferControlState::Running));
    let mut rt = runtime("t1");
    let done = reg.end_transfer(&mut rt, &Ok(42)).expect("completed event");
    assert_eq!(done.status, "completed");
    assert_eq!(done.bytes_transferred, 42);
    assert_eq!(done.total_size, 42);
    assert_eq!(reg.control_state("t1"), None);
    reg.begin_transfer(runtime("t2"));
    let mut rt2 = runtime("t2");
    assert!(reg.end_transfer(&mut rt2, &Err(AppError::Cancelled("Transfer cancelled".to_string()))).is_none());
    assert_eq!(reg.control_state("t2"), None);
}
