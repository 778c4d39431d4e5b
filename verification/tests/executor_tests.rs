use perfcheck::executor::{normalize, render, run_cmd, split_args, Captured, Launch};

fn exited(success: bool, status: &str, stdout: &[u8], stderr: &[u8]) -> Launch {
    Launch::Exited(Captured {
        success,
        status: status.to_string(),
        stdout: stdout.to_vec(),
        stderr: stderr.to_vec(),
    })
}

#[test]
fn tab_becomes_four_spaces() {
    assert_eq!(normalize("a\tb"), "a    b");
    assert_eq!(run_cmd(&exited(true, "0", b"a\tb", b"")), "a    b");
}

#[test]
fn every_tab_is_replaced() {
    assert_eq!(normalize("\t\tx\t"), "        x    ");
    assert_eq!(normalize(""), "");
    assert_eq!(normalize("no tabs here\n"), "no tabs here\n");
    let long: String = "\tab".repeat(1000);
    let out = normalize(&long);
    assert_eq!(out.len(), 6000);
    assert!(!out.contains('\t'));
}

#[test]
fn normalize_agrees_with_replace() {
    for text in ["", "\t", "a\tb\tc", "Filesystem\tSize\n/dev/sda1\t40G\n", "é\t√"] {
        assert_eq!(normalize(text), text.replace('\t', "    "));
    }
}

#[test]
fn successful_exit_shows_only_standard_output() {
    assert_eq!(render("ok\n", true, "status", "ignored"), "ok\n");
    assert_eq!(run_cmd(&exited(true, "exit status: 0", b"load 0.1\n", b"warning\n")), "load 0.1\n");
}

#[test]
fn failed_exit_adds_status_and_standard_error() {
    let out = run_cmd(&exited(false, "ExitStatus(unix_wait_status(512))", b"partial", b"boom\n"));
    assert!(out.starts_with("partial"));
    assert!(out.contains("ExitStatus(unix_wait_status(512))"));
    assert!(out.contains("boom\n"));
    assert_eq!(
        out,
        "partial\n\n----------\nCMD failed with status: ExitStatus(unix_wait_status(512)), STDERR:\nboom\n"
    );
}

#[test]
fn failure_note_is_not_normalized() {
    assert_eq!(
        render("a\tb", false, "2", "x\ty"),
        "a    b\n\n----------\nCMD failed with status: 2, STDERR:\nx\ty"
    );
}

#[test]
fn spawn_failure_gives_its_description() {
    let launch = Launch::Failed("No such file or directory (os error 2)".to_string());
    assert_eq!(run_cmd(&launch), "No such file or directory (os error 2)");
}

#[test]
fn invalid_bytes_are_replaced_not_rejected() {
    assert_eq!(run_cmd(&exited(true, "0", &[0x66, 0xff, 0x6f], b"")), "f\u{fffd}o");
    assert_eq!(
        run_cmd(&exited(false, "1", b"", &[0xc3, 0x28])),
        "\n\n----------\nCMD failed with status: 1, STDERR:\n\u{fffd}("
    );
    assert_eq!(run_cmd(&exited(true, "0", "héllo\t√".as_bytes(), b"")), "héllo    √");
}

#[test]
fn arguments_are_split_at_ascii_white_space() {
    assert_eq!(split_args("-a  -b\tc"), vec!["-a", "-b", "c"]);
    assert_eq!(split_args("  1 5 \n"), vec!["1", "5"]);
    assert_eq!(split_args("--flag"), vec!["--flag"]);
}

#[test]
fn no_arguments_in_empty_or_blank_string() {
    assert!(split_args("").is_empty());
    assert!(split_args(" \t\r\n\x0c").is_empty());
}

#[test]
fn quotes_do_not_group_arguments() {
    assert_eq!(split_args("-c \"echo hi\""), vec!["-c", "\"echo", "hi\""]);
}

#[test]
fn split_agrees_with_split_ascii_whitespace() {
    for args in ["", " ", "a", " a ", "a b", "a\x0bb", "a\u{a0}b c", "-n DEV\t1  3", "x\ny\rz\x0cw"] {
        let expected: Vec<String> = args.split_ascii_whitespace().map(|word| word.to_string()).collect();
        assert_eq!(split_args(args), expected, "{:?}", args);
    }
}
