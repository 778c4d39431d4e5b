use perfcheck::source::{read_cmds, CommandSpec};

fn parsed(line: &str) -> (String, String) {
    let command = CommandSpec::parse(line).expect("the line holds a command");
    (command.name().to_string(), command.args().to_string())
}

fn pair(name: &str, args: &str) -> (String, String) {
    (name.to_string(), args.to_string())
}

#[test]
fn comment_is_stripped_not_passed_as_argument() {
    assert_eq!(parsed("echo hello # comment"), pair("echo", "hello"));
}

#[test]
fn line_without_arguments_has_empty_argument_string() {
    assert_eq!(parsed("uptime"), pair("uptime", ""));
}

#[test]
fn surrounding_white_space_is_trimmed() {
    assert_eq!(parsed("  vmstat   1  5  "), pair("vmstat", "1  5"));
    assert_eq!(parsed("\tfree -m\r"), pair("free", "-m"));
    assert_eq!(parsed("\u{3000}uptime\u{a0}"), pair("uptime", ""));
}

#[test]
fn name_ends_at_first_white_space_run() {
    assert_eq!(parsed("echo\thello world"), pair("echo", "hello world"));
    assert_eq!(parsed("iostat \t -xz 1"), pair("iostat", "-xz 1"));
}

#[test]
fn comment_sign_directly_after_name_ends_the_line() {
    assert_eq!(parsed("echo#hello"), pair("echo", ""));
    assert_eq!(parsed("df -h#all # twice"), pair("df", "-h"));
}

#[test]
fn blank_and_comment_only_lines_hold_no_command() {
    assert!(CommandSpec::parse("").is_none());
    assert!(CommandSpec::parse("   \t ").is_none());
    assert!(CommandSpec::parse("# only a comment").is_none());
    assert!(CommandSpec::parse("   # indented comment").is_none());
    assert!(CommandSpec::parse("#").is_none());
}

#[test]
fn parsed_name_is_never_empty() {
    for line in ["a", " a", "a ", "a b", "a#b", "\ta\tb\t#c", "x y z"] {
        let command = CommandSpec::parse(line).expect("the line holds a command");
        assert!(!command.name().is_empty());
        assert!(!command.name().contains('#'));
        assert!(!command.args().contains('#'));
    }
}

#[test]
fn white_space_is_what_the_standard_library_trims() {
    for code in 0u32..0x3100 {
        let c = match char::from_u32(code) {
            Some(c) => c,
            None => unreachable!(),
        };
        if c == '#' {
            continue;
        }
        let line = format!("a{}b", c);
        let (name, args) = parsed(&line);
        if c.is_whitespace() {
            assert_eq!((name, args), pair("a", "b"), "U+{:04X}", code);
        } else {
            assert_eq!((name, args), (line.clone(), String::new()), "U+{:04X}", code);
        }
        let padded = format!("{}a{}", c, c);
        assert_eq!(parsed(&padded).0, padded.trim(), "U+{:04X}", code);
    }
}

#[test]
fn parse_agrees_with_split_and_trim() {
    let lines = [
        "uptime",
        "dmesg | tail",
        "vmstat 1 5   # five samples",
        "  mpstat -P ALL 1 3",
        "pidstat 1 3#",
        "sar -n DEV 1 3 # network # again",
    ];
    for line in lines {
        let content = match line.split_once('#') {
            Some((content, _comment)) => content.trim(),
            None => line.trim(),
        };
        let (name, args) = match content.split_once(' ') {
            Some((name, args)) => (name, args.trim_start()),
            None => (content, ""),
        };
        assert_eq!(parsed(line), pair(name, args));
    }
}

#[test]
fn one_command_for_each_usable_line() {
    let lines: Vec<String> = [
        "# system health",
        "",
        "uptime",
        "   ",
        "vmstat 1 5 # cpu",
        "#free -m",
        "df -h",
    ]
    .iter()
    .map(|line| line.to_string())
    .collect();
    let commands = read_cmds(&lines);
    assert_eq!(commands.len(), 3);
    assert_eq!(commands[0].name(), "uptime");
    assert_eq!(commands[0].args(), "");
    assert_eq!(commands[1].name(), "vmstat");
    assert_eq!(commands[1].args(), "1 5");
    assert_eq!(commands[2].name(), "df");
    assert_eq!(commands[2].args(), "-h");
}

#[test]
fn empty_list_gives_no_command() {
    assert!(read_cmds(&Vec::new()).is_empty());
    assert!(read_cmds(&vec!["# nothing".to_string(), " ".to_string()]).is_empty());
}
