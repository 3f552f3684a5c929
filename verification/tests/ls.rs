use dragonfly::error::AppError;
use dragonfly::ls::{build_list_command, build_path_for_shell, home_dir_from_output, parse_ls_output, shell_escape};

#[test]
fn shell_quoting() {
    assert_eq!(shell_escape("a b"), "'a b'");
    assert_eq!(shell_escape("it's"), "'it'\\''s'");
    assert_eq!(build_path_for_shell("~"), "~");
    assert_eq!(build_path_for_shell("~/my dir"), "~/'my dir'");
    assert_eq!(build_path_for_shell("/etc"), "'/etc'");
    assert_eq!(build_path_for_shell("~user"), "'~user'");
}

#[test]
fn list_command_falls_back_without_color_option() {
    assert_eq!(
        build_list_command("/tmp"),
        "ls -la --color=never '/tmp' 2>/dev/null || ls -la '/tmp' 2>/dev/null"
    );
}

#[test]
fn ls_output_is_parsed() {
    let out = "total 12\r\n\
drwxr-xr-x  2 root root 4096 Jan  1 00:00 .\r\n\
drwxr-xr-x 20 root root 4096 Jan  1 00:00 ..\r\n\
-rw-r--r--  1 root root  220 Jan  1 00:00 my file.txt\r\n\
drwxr-xr-x  2 root root 4096 Jan  1 00:00 docs/\n\
lrwxrwxrwx  1 root root    7 Jan  1 00:00 link@ -> target\n\
-rwxr-xr-x  1 root root   xx Jan  1 00:00 run*\n\
\n\
short line\n";
    let entries = parse_ls_output(out);
    let names: Vec<&str> = entries.iter().map(|e| e.name.as_str()).collect();
    assert_eq!(names, vec!["my file.txt", "docs", "link@ -> target", "run"]);
    assert!(!entries[0].is_dir);
    assert_eq!(entries[0].size, 220);
    assert_eq!(entries[0].permissions, "-rw-r--r--");
    assert!(entries[1].is_dir);
    assert_eq!(entries[3].size, 0);
}

#[test]
fn empty_output_has_no_entries() {
    assert!(parse_ls_output("").is_empty());
    assert!(parse_ls_output("total 0\n").is_empty());
}

#[test]
fn home_dir_is_trimmed_output() {
    assert_eq!(home_dir_from_output("/home/alice\n").unwrap(), "/home/alice");
    match home_dir_from_output("  \n") {
        Err(AppError::Config(m)) => assert_eq!(m, "Failed to determine home directory"),
        other => panic!("unexpected {other:?}"),
    }
}
