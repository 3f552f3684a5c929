use std::path::PathBuf;

use dragonfly::error::AppError;
use dragonfly::history::{rank_matches, rank_scores, sort_dedup_indices, CommandHistoryStore};
use dragonfly::remote::{
    check_text_file_attrs, delete_entry_step, delete_failures_error, dir_remove_error,
    file_delete_failure, DeleteStep, describe_permissions, file_entry_from_listing,
    file_name_from_path, file_properties_from_attrs, home_dir_result, is_directory_mode,
    local_child_path, parse_octal_mode, permissions_to_string, remote_child_path,
    requested_permissions, text_file_from_bytes, type_char_from_mode, RemoteAttrs, RemoteFileType,
};

#[test]
fn add_moves_command_last_and_skips_blank() {
    let mut h = CommandHistoryStore::new();
    h.add("ls".to_string());
    h.add("  cd /tmp ".to_string());
    h.add("ls".to_string());
    h.add("   ".to_string());
    assert_eq!(h.commands(), &vec!["cd /tmp".to_string(), "ls".to_string()]);
    assert!(!h.needs_save());
    h.set_history_path(PathBuf::from("/tmp/history.json"));
    assert!(h.needs_save());
    h.mark_saved();
    assert!(!h.needs_save());
    assert_eq!(h.history_path(), Some(&PathBuf::from("/tmp/history.json")));
    h.set_history_path(PathBuf::from("/tmp/other.json"));
    assert_eq!(h.history_path(), Some(&PathBuf::from("/tmp/other.json")));
}

#[test]
fn history_is_capped() {
    let mut h = CommandHistoryStore::new();
    for i in 0..5005 {
        h.add(format!("cmd {i}"));
    }
    assert_eq!(h.commands().len(), 5000);
    assert_eq!(h.commands()[0], "cmd 5");
    assert_eq!(h.commands()[4999], "cmd 5004");
}

#[test]
fn loaded_history_merges_without_duplicates() {
    let mut h = CommandHistoryStore::new();
    h.add("a".to_string());
    h.merge_loaded(vec!["b".to_string(), "a".to_string(), "c".to_string(), "b".to_string()]);
    assert_eq!(h.commands(), &vec!["a".to_string(), "b".to_string(), "c".to_string()]);
}

#[test]
fn fuzzy_search_ranks_matches() {
    let mut h = CommandHistoryStore::new();
    for c in ["git status", "ls -la", "git stash", "grep foo"] {
        h.add(c.to_string());
    }
    assert!(h.search("  ", 10).is_empty());
    let r = h.search("gst", 10);
    assert!(!r.is_empty());
    assert!(r.iter().all(|m| m.command.starts_with("git")));
    for w in r.windows(2) {
        assert!(w[0].score >= w[1].score);
    }
    assert!(r[0].indices.windows(2).all(|w| w[0] < w[1]));
    assert_eq!(h.search("git", 1).len(), 1);
}

#[test]
fn ranking_and_index_helpers() {
    let scored = vec![(0usize, 5u32), (1, 9), (2, 5), (3, 1)];
    assert_eq!(rank_matches(&scored, 3), vec![(1, 9), (2, 5), (0, 5)]);
    assert_eq!(sort_dedup_indices(&vec![4, 1, 4, 2]), vec![1, 2, 4]);
}

#[test]
fn permission_strings() {
    assert_eq!(permissions_to_string(0o755, 'd'), "drwxr-xr-x");
    assert_eq!(permissions_to_string(0o4755, '-'), "-rwsr-xr-x");
    assert_eq!(permissions_to_string(0o1777, 'd'), "drwxrwxrwt");
    assert_eq!(type_char_from_mode(0o040755), 'd');
    assert_eq!(type_char_from_mode(0o120777), 'l');
    assert_eq!(type_char_from_mode(0o100644), '-');
    assert_eq!(describe_permissions(Some(0o100644)), "0o100644 (-rw-r--r--)");
    assert_eq!(describe_permissions(None), "none");
    assert!(is_directory_mode(Some(0o040700)));
    assert!(!is_directory_mode(Some(0o120777)));
    assert!(!is_directory_mode(None));
}

#[test]
fn octal_modes() {
    assert_eq!(parse_octal_mode("755").unwrap(), 0o755);
    match parse_octal_mode("789") {
        Err(AppError::Channel(m)) => assert_eq!(m, "Invalid octal mode: 789"),
        other => panic!("unexpected {other:?}"),
    }
    assert_eq!(requested_permissions(0o104755), 0o4755);
}

#[test]
fn listing_entries_and_properties() {
    assert!(file_entry_from_listing(".".to_string(), RemoteFileType::Dir, None, None).is_none());
    let e = file_entry_from_listing("src".to_string(), RemoteFileType::Dir, Some(4096), Some(0o755))
        .unwrap();
    assert!(e.is_dir && !e.is_symlink);
    assert_eq!(e.permissions, "drwxr-xr-x");
    let p = file_properties_from_attrs(
        "/etc/hosts",
        RemoteAttrs {
            size: Some(12),
            permissions: Some(0o100644),
            user: Some("root".to_string()),
            group: None,
            uid: Some(0),
            gid: None,
            mtime: Some(7),
            atime: None,
        },
    );
    assert_eq!(p.name, "hosts");
    assert_eq!(p.uid, "0");
    assert_eq!(p.gid, "");
    assert_eq!(p.group, "");
    assert_eq!(p.mtime, 7);
    assert_eq!(p.permissions, "-rw-r--r--");
}

#[test]
fn file_names_and_child_paths() {
    assert_eq!(file_name_from_path("/a/b/c.txt"), "c.txt");
    assert_eq!(file_name_from_path("C:\\dir\\f.txt"), "f.txt");
    assert_eq!(file_name_from_path("/a/b/"), "b");
    assert_eq!(file_name_from_path("///"), "///");
    assert_eq!(remote_child_path("/srv//", "x"), "/srv/x");
    assert_eq!(local_child_path("C:\\data\\", "x"), "C:\\data/x");
    assert_eq!(home_dir_result("/root".to_string()).unwrap(), "/root");
    assert!(home_dir_result(String::new()).is_err());
}

#[test]
fn delete_failures_are_listed() {
    let e = delete_failures_error(&vec!["'/a': denied".to_string(), "'/b': busy".to_string()]);
    match e {
        AppError::Channel(m) => assert_eq!(m, "2 item(s) could not be deleted:\n'/a': denied\n'/b': busy"),
        other => panic!("unexpected {other:?}"),
    }
}

#[test]
fn text_file_checks() {
    match check_text_file_attrs(Some(0o040755), Some(1), 10) {
        Err(AppError::Config(m)) => assert_eq!(m, "Directories are not supported for AI file analysis"),
        other => panic!("unexpected {other:?}"),
    }
    match check_text_file_attrs(Some(0o100644), Some(11), 10) {
        Err(AppError::Config(m)) => assert_eq!(m, "File is too large for AI analysis (11 bytes > 10 bytes)"),
        other => panic!("unexpected {other:?}"),
    }
    assert!(check_text_file_attrs(None, None, 0).is_ok());
    let f = text_file_from_bytes("/x", "héllo".as_bytes().to_vec(), 6, 100).unwrap();
    assert_eq!(f.content, "héllo");
    match text_file_from_bytes("/x", vec![b'a', 0], 2, 100) {
        Err(AppError::Config(m)) => assert_eq!(m, "Binary files are not supported for AI analysis"),
        other => panic!("unexpected {other:?}"),
    }
    match text_file_from_bytes("/x", vec![0xff, 0xfe], 2, 100) {
        Err(AppError::Config(m)) => assert_eq!(m, "Only UTF-8 text files are supported for AI analysis"),
        other => panic!("unexpected {other:?}"),
    }
}

#[test]
fn every_matching_command_is_ranked() {
    let scores = vec![Some(5), None, Some(7), Some(5), None];
    assert_eq!(rank_scores(&scores, 10), vec![(2, 7), (3, 5), (0, 5)]);
    assert_eq!(rank_scores(&scores, 2), vec![(2, 7), (3, 5)]);
    assert_eq!(rank_scores(&vec![None, None], 3), Vec::<(usize, u32)>::new());
}

#[test]
fn search_finds_every_containing_command() {
    let mut h = CommandHistoryStore::new();
    h.add("git status".to_string());
    h.add("ls -la".to_string());
    h.add("git push".to_string());
    let found = h.search("git", 10);
    let mut commands: Vec<String> = found.iter().map(|r| r.command.clone()).collect();
    commands.sort();
    assert_eq!(commands, vec!["git push".to_string(), "git status".to_string()]);
    assert_eq!(h.search("git", 1).len(), 1);
}

#[test]
fn recursive_delete_steps() {
    assert!(matches!(delete_entry_step("/var/www/", ".", true), DeleteStep::Ignore));
    assert!(matches!(delete_entry_step("/var/www/", "..", true), DeleteStep::Ignore));
    match delete_entry_step("/var/www//", "sub", true) {
        DeleteStep::Recurse(p) => assert_eq!(p, "/var/www/sub"),
        _ => panic!("expected recursion"),
    }
    match delete_entry_step("/var/www", "link", false) {
        DeleteStep::RemoveFile(p) => assert_eq!(p, "/var/www/link"),
        _ => panic!("expected a file removal"),
    }
    assert_eq!(file_delete_failure("/var/www/a", "denied"), "'/var/www/a': denied");
    match dir_remove_error("/var/www", "busy") {
        AppError::Channel(m) => assert_eq!(m, "Failed to remove directory '/var/www': busy"),
        _ => panic!("expected a channel error"),
    }
}
