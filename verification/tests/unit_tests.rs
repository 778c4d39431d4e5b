use perfcheck::availability::{check_which_cmd, Probe};
use perfcheck::executor::{Captured, Launch};
use perfcheck::source::CommandSpec;
use perfcheck::unit::{conclude, plan, Step};

fn command(line: &str) -> CommandSpec {
    CommandSpec::parse(line).expect("the line holds a command")
}

#[test]
fn missing_helper_hides_no_command() {
    assert!(check_which_cmd(Probe::Exited { success: true }));
    assert!(!check_which_cmd(Probe::Exited { success: false }));
    assert!(check_which_cmd(Probe::Unavailable));
}

#[test]
fn missing_command_is_not_run() {
    let step = plan(&command("definitely-not-a-real-cmd --flag"), Probe::Exited { success: false });
    match step {
        Step::Done(out) => {
            assert_eq!(out.cmdname, "definitely-not-a-real-cmd");
            assert!(out.summary.contains("not exist"));
            assert_eq!(
                out.summary,
                "CMD definitely-not-a-real-cmd not exist. Please recheck or install corresponding packages."
            );
        }
        Step::Launch { .. } => panic!("a missing command must not be started"),
    }
}

#[test]
fn found_command_is_started_with_split_arguments() {
    let step = plan(&command("vmstat  1\t5 # cpu"), Probe::Exited { success: true });
    assert_eq!(
        step,
        Step::Launch {
            program: "vmstat".to_string(),
            argv: vec!["1".to_string(), "5".to_string()],
        }
    );
}

#[test]
fn command_is_started_when_helper_cannot_run() {
    let step = plan(&command("uptime"), Probe::Unavailable);
    assert_eq!(step, Step::Launch { program: "uptime".to_string(), argv: Vec::new() });
}

#[test]
fn result_is_labelled_with_the_command_name() {
    let launch = Launch::Exited(Captured {
        success: true,
        status: "exit status: 0".to_string(),
        stdout: b"total\tused\n".to_vec(),
        stderr: Vec::new(),
    });
    let out = conclude(&command("free -m"), &launch);
    assert_eq!(out.cmdname, "free");
    assert_eq!(out.summary, "total    used\n");
}

#[test]
fn failed_start_becomes_the_result_text() {
    let launch = Launch::Failed("Permission denied (os error 13)".to_string());
    let out = conclude(&command("iotop -b"), &launch);
    assert_eq!(out.cmdname, "iotop");
    assert_eq!(out.summary, "Permission denied (os error 13)");
}

#[test]
fn failed_exit_keeps_partial_output() {
    let launch = Launch::Exited(Captured {
        success: false,
        status: "exit status: 2".to_string(),
        stdout: b"partial".to_vec(),
        stderr: b"cannot open\n".to_vec(),
    });
    let out = conclude(&command("stub"), &launch);
    assert!(out.summary.starts_with("partial"));
    assert!(out.summary.contains("exit status: 2"));
    assert!(out.summary.ends_with("cannot open\n"));
}
