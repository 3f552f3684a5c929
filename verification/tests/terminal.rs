use dragonfly::osc::{build_ready_marker, injection_script, OscStripper, ShellKind};
use dragonfly::pty::{shell_command, PtyOutput};
use dragonfly::session_io::{injection_for, shell_from_probe, IoPhase, SessionIo};

#[test]
fn shell_names_are_classified() {
    assert_eq!(ShellKind::from_name("/usr/bin/FISH"), ShellKind::Fish);
    assert_eq!(ShellKind::from_name("zsh"), ShellKind::Zsh);
    assert_eq!(ShellKind::from_name("/bin/bash"), ShellKind::Bash);
    assert_eq!(ShellKind::from_name("pwsh"), ShellKind::PowerShell);
    assert_eq!(ShellKind::from_name("/bin/sh"), ShellKind::PosixSh);
    assert_eq!(ShellKind::from_name("cmd.exe"), ShellKind::Unknown);
}

#[test]
fn ready_marker_and_scripts() {
    let m = build_ready_marker("abc");
    assert_eq!(m, "\x1b]7777;DflyReady:abc\x07");
    let bash = injection_script(ShellKind::Bash, &m).expect("bash hook");
    assert!(bash.ends_with("printf '\\033]7777;DflyReady:abc\\007' 2>/dev/null\n"));
    assert!(!bash.contains('\x1b'));
    let ps = injection_script(ShellKind::PowerShell, &m).expect("ps hook");
    assert!(ps.ends_with("DflyReady:abc`a\"\n"));
    assert!(injection_script(ShellKind::PosixSh, &m).is_none());
    assert!(injection_script(ShellKind::Unknown, &m).is_none());
}

#[test]
fn stripper_removes_cwd_reports_and_marker() {
    let marker = build_ready_marker("s");
    let mut s = OscStripper::new(&marker);
    let r = s.push("hello \x1b]7;file://host/home/u\x07world");
    assert_eq!(r.visible, "hello world");
    assert_eq!(r.cwd_paths, vec!["/home/u".to_string()]);
    assert!(!r.ready);
    let r = s.push("a\x1b]7777;Dfly");
    assert_eq!(r.visible, "a");
    let r = s.push("Ready:s\x07b");
    assert!(r.ready);
    assert_eq!(r.visible, "b");
    let r = s.push("plain text");
    assert_eq!(r.visible, "plain text");
    let r = s.push("\x1b]0;title\x07x");
    assert_eq!(r.visible, "\x1b]0;title\x07x");
    s.push("\x1b]7;file://h/x");
    assert_eq!(s.flush(), "\x1b]7;file://h/x");
    assert_eq!(s.flush(), "");
}

#[test]
fn probe_output_selects_shell() {
    assert_eq!(shell_from_probe("/bin/zsh\nzsh\n"), Some(ShellKind::Zsh));
    assert_eq!(shell_from_probe(""), None);
    assert_eq!(shell_from_probe("pwsh"), None);
    assert!(injection_for(Some(ShellKind::Bash), "m").is_some());
    assert!(injection_for(Some(ShellKind::PosixSh), "m").is_none());
    assert!(injection_for(None, "m").is_none());
}

#[test]
fn ssh_output_waits_for_attach_and_suppresses_hook_echo() {
    let marker = build_ready_marker("s1");
    let mut io = SessionIo::new(Some("HOOK".to_string()), &marker);
    assert!(!io.waiting_for_ready());
    let eff = io.on_data("Welcome!\r\n");
    assert_eq!(eff.send.as_deref(), Some("HOOK"));
    assert!(eff.restart_deadline);
    assert_eq!(eff.record.as_deref(), Some("Welcome!\r\n"));
    assert!(eff.emit.is_empty());
    assert!(io.waiting_for_ready());

    let eff = io.on_data(" if [ -z ... echo \x1b]7;file://h/home\x07");
    assert!(eff.emit.is_empty() && eff.record.is_none());
    assert_eq!(eff.cwd_paths, vec!["/home".to_string()]);

    let eff = io.on_data(&format!("{marker}$ "));
    assert!(eff.emit.is_empty());
    assert!(!io.waiting_for_ready());

    let eff = io.on_data("ls\r\n");
    assert!(eff.emit.is_empty());
    assert_eq!(io.on_attach(), vec!["Welcome!\r\n".to_string(), "ls\r\n".to_string()]);
    let eff = io.on_data("out");
    assert_eq!(eff.emit, vec!["out".to_string()]);
    let eff = io.on_extended_data("err".to_string());
    assert_eq!(eff.emit, vec!["err".to_string()]);
    assert_eq!(eff.record.as_deref(), Some("err"));
    assert_eq!(io.on_attach(), Vec::<String>::new());
}

#[test]
fn ssh_injection_timeout_flushes_held_text() {
    let mut io = SessionIo::new(Some("HOOK".to_string()), "m");
    io.on_attach();
    io.on_data("banner");
    io.on_data("echo \x1b]7;file://h/x");
    assert!(io.waiting_for_ready());
    let eff = io.on_inject_timeout();
    assert_eq!(eff.emit, vec!["\x1b]7;file://h/x".to_string()]);
    assert!(!io.waiting_for_ready());
    let eff = io.on_data("next");
    assert_eq!(eff.emit, vec!["next".to_string()]);
}

#[test]
fn ssh_without_hook_starts_normal() {
    let mut io = SessionIo::new(None, "m");
    let eff = io.on_data("hi");
    assert!(eff.send.is_none() && !eff.restart_deadline);
    assert_eq!(io.on_attach(), vec!["hi".to_string()]);
    let _ = IoPhase::Normal;
}

#[test]
fn local_shell_command() {
    let c = shell_command(Some("  fish -l "), false, Some("/bin/zsh"));
    assert_eq!(c.program, "fish");
    assert_eq!(c.args, vec!["-l".to_string()]);
    assert_eq!(c.name, "fish");
    let c = shell_command(Some("   "), false, Some("/bin/zsh"));
    assert_eq!(c.program, "/bin/zsh");
    assert!(c.args.is_empty());
    let c = shell_command(None, false, None);
    assert_eq!(c.program, "/bin/bash");
    let c = shell_command(None, true, None);
    assert_eq!(c.program, "powershell.exe");
    let c = shell_command(None, false, Some(" "));
    assert_eq!(c.program, "/bin/bash");
    assert_eq!(c.name, "bash");
}

#[test]
fn local_output_is_discarded_until_ready() {
    let marker = build_ready_marker("p");
    let mut out = PtyOutput::new(true, &marker);
    let eff = out.on_data("hook echo \x1b]7;file://h/tmp\x07");
    assert!(eff.emit.is_empty() && eff.cwd_paths.is_empty() && eff.record.is_none());
    let eff = out.on_data(&format!("{marker}prompt$ "));
    assert_eq!(eff.record.as_deref(), Some("prompt$ "));
    assert_eq!(out.on_attach(), vec!["prompt$ ".to_string()]);
    let eff = out.on_data("x\x1b]7;file://h/var\x07");
    assert_eq!(eff.emit, vec!["x".to_string()]);
    assert_eq!(eff.cwd_paths, vec!["/var".to_string()]);

    let mut plain = PtyOutput::new(false, &marker);
    plain.on_attach();
    assert_eq!(plain.on_data("a").emit, vec!["a".to_string()]);
}

#[test]
fn split_cwd_report_is_reassembled() {
    let report = "\x1b]7;file://host/home/u\x07";
    let chars: Vec<char> = report.chars().collect();
    for k in 2..chars.len() {
        let first: String = chars[..k].iter().collect();
        let second: String = chars[k..].iter().collect();
        let mut s = OscStripper::new("m");
        let r1 = s.push(&first);
        assert_eq!(r1.visible, "");
        assert!(r1.cwd_paths.is_empty());
        let r2 = s.push(&second);
        assert_eq!(r2.visible, "");
        assert_eq!(r2.cwd_paths, vec!["/home/u".to_string()]);
        assert_eq!(s.flush(), "");
    }
}

#[test]
fn sequence_ends_at_first_terminator() {
    let mut s = OscStripper::new("m");
    let r = s.push("\x1b]0;\x1b\\\x1b]7;file://h/p\x07");
    assert_eq!(r.visible, "\x1b]0;\x1b\\");
    assert_eq!(r.cwd_paths, vec!["/p".to_string()]);
    assert!(!r.ready);
    assert_eq!(s.flush(), "");
}

#[test]
fn report_split_after_escape_is_reassembled() {
    let whole = "x\x1b]7;file://h/t\x07";
    let mut one = OscStripper::new("m");
    let r = one.push(whole);
    assert_eq!(r.visible, "x");
    assert_eq!(r.cwd_paths, vec!["/t".to_string()]);

    let mut two = OscStripper::new("m");
    let r1 = two.push("x\x1b");
    assert_eq!(r1.visible, "x");
    assert!(r1.cwd_paths.is_empty());
    let r2 = two.push("]7;file://h/t\x07");
    assert_eq!(r2.visible, "");
    assert_eq!(r2.cwd_paths, vec!["/t".to_string()]);
    assert_eq!(two.flush(), "");
}

#[test]
fn every_split_matches_the_whole() {
    let text = "ab\x1b]0;t\x1b\\c\x1b]7;file://h/d\x07e\x1b]7777;DflyReady:s\x07f";
    let chars: Vec<char> = text.chars().collect();
    let mut single = OscStripper::new("m");
    let whole = single.push(text);
    assert_eq!(whole.visible, "ab\x1b]0;t\x1b\\cef");
    assert_eq!(whole.cwd_paths, vec!["/d".to_string()]);
    assert!(whole.ready);
    for k in 0..=chars.len() {
        let first: String = chars[..k].iter().collect();
        let second: String = chars[k..].iter().collect();
        let mut s = OscStripper::new("m");
        let r1 = s.push(&first);
        let r2 = s.push(&second);
        assert_eq!(format!("{}{}", r1.visible, r2.visible), whole.visible);
        let mut paths = r1.cwd_paths.clone();
        paths.extend(r2.cwd_paths.clone());
        assert_eq!(paths, whole.cwd_paths);
        assert_eq!(r1.ready || r2.ready, whole.ready);
        assert_eq!(s.flush(), "");
    }
}

#[test]
fn lone_trailing_escape_is_held_until_flush() {
    let mut s = OscStripper::new("m");
    let r = s.push("abc\x1b");
    assert_eq!(r.visible, "abc");
    assert_eq!(s.flush(), "\x1b");
    let r = s.push("\x1bx");
    assert_eq!(r.visible, "\x1bx");
}

#[test]
fn ssh_hook_is_sent_once() {
    let mut io = SessionIo::new(Some("HOOK".to_string()), "m");
    assert_eq!(io.on_extended_data("e".to_string()).send, None);
    assert_eq!(io.on_data("a").send.as_deref(), Some("HOOK"));
    assert_eq!(io.on_data("b").send, None);
    assert!(io.waiting_for_ready());
    assert_eq!(io.on_inject_timeout().send, None);
    assert!(!io.waiting_for_ready());
    assert_eq!(io.on_data("c").send, None);
    assert!(io.on_attach().contains(&"c".to_string()));
}
