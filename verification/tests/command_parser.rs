use host_bridge_mcp::command_parser::{CommandParseError, ParsedCommand};
use host_bridge_mcp::platform::RuntimePlatform;

fn parse_command_line(input: &str) -> Result<ParsedCommand, CommandParseError> {
    host_bridge_mcp::command_parser::parse_command_line(input, RuntimePlatform::Linux)
}

#[test]
fn windows_paths_and_empty_arguments_are_preserved() {
    let parsed = host_bridge_mcp::command_parser::parse_command_line(
        r#"tool.exe "C:\Users\Public\file.txt" "" next"#,
        RuntimePlatform::Windows,
    )
    .unwrap();
    assert_eq!(parsed.args, [r"C:\Users\Public\file.txt", "", "next"]);
}

#[test]
fn posix_empty_arguments_and_quoted_backslashes_are_preserved() {
    let parsed = parse_command_line(r#"tool '' "" "a\b" a\ b"#).unwrap();
    assert_eq!(parsed.args, ["", "", r"a\b", "a b"]);
}

#[test]
fn windows_escaped_quotes_and_trailing_backslashes_are_preserved() {
    let parsed = host_bridge_mcp::command_parser::parse_command_line(
        r#"tool "C:\Program Files\\" "a\"b""#,
        RuntimePlatform::Windows,
    )
    .unwrap();
    assert_eq!(parsed.args, ["C:\\Program Files\\", "a\"b"]);
}

#[test]
fn parses_simple_command() {
    let parsed = parse_command_line("mvn clean compile").expect("should parse command");
    assert_eq!(parsed.program, "mvn");
    assert_eq!(parsed.args, vec!["clean", "compile"]);
}

#[test]
fn parses_quoted_arguments() {
    let parsed =
        parse_command_line("npm run test -- --grep \"my case\"").expect("should parse command");
    assert_eq!(parsed.program, "npm");
    assert_eq!(parsed.args, vec!["run", "test", "--", "--grep", "my case"]);
}

#[test]
fn fails_on_unclosed_quote() {
    let error = parse_command_line("mvn \"clean").expect_err("should fail");
    assert_eq!(error, CommandParseError::UnclosedQuote);
}

#[test]
fn detects_shell_chaining() {
    let parsed =
        parse_command_line("cargo build && cargo test").expect("should parse chained command");
    assert!(parsed.contains_shell_operator);
    assert_eq!(parsed.program, "cargo");
}

#[test]
fn detects_pipe_operator() {
    let parsed = parse_command_line("ls -la | grep foo").expect("should parse piped command");
    assert!(parsed.contains_shell_operator);
    assert_eq!(parsed.program, "ls");
}

#[test]
fn detects_semicolon_operator() {
    let parsed = parse_command_line("cd /tmp; ls").expect("should parse semicolon command");
    assert!(parsed.contains_shell_operator);
    assert_eq!(parsed.program, "cd");
}

#[test]
fn detects_redirection_operator() {
    let output =
        parse_command_line("echo hello > output.txt").expect("should parse output redirection");
    assert!(output.contains_shell_operator);

    let input = parse_command_line("sort < input.txt").expect("should parse input redirection");
    assert!(input.contains_shell_operator);
}

#[test]
fn simple_command_has_no_shell_operator() {
    let parsed = parse_command_line("cargo build --release").expect("should parse");
    assert!(!parsed.contains_shell_operator);
}

#[test]
fn allows_separator_inside_quotes() {
    let parsed = parse_command_line("python -c \"print('a && b')\"")
        .expect("quoted operator should be allowed");
    assert_eq!(parsed.program, "python");
    assert_eq!(parsed.args, vec!["-c", "print('a && b')"]);
}

#[test]
fn allows_redirection_character_inside_quotes() {
    let parsed = parse_command_line("echo \"a > b\"")
        .expect("quoted redirection character should be allowed");
    assert!(!parsed.contains_shell_operator);
}

#[test]
fn newline_inside_quotes_not_detected_as_shell_operator() {
    let parsed = parse_command_line("python -c \"line1\nline2\"")
        .expect("newline inside quotes should be allowed");
    assert!(!parsed.contains_shell_operator);
}

#[test]
fn newline_outside_quotes_detected_as_shell_operator() {
    let parsed = parse_command_line("echo hello\necho world").expect("should parse");
    assert!(parsed.contains_shell_operator);
}

#[test]
fn empty_and_blank_command_lines_are_rejected() {
    assert_eq!(parse_command_line("").unwrap_err(), CommandParseError::Empty);
    assert_eq!(parse_command_line("   \t ").unwrap_err(), CommandParseError::Empty);
    assert_eq!(parse_command_line("'' build").unwrap_err(), CommandParseError::Empty);
    assert_eq!(
        CommandParseError::Empty.message(),
        "command cannot be empty"
    );
}

#[test]
fn windows_caret_escapes_the_next_character() {
    let parsed = host_bridge_mcp::command_parser::parse_command_line(
        "echo a^&b",
        RuntimePlatform::Windows,
    )
    .unwrap();
    assert_eq!(parsed.args, ["a&b"]);
    assert!(!parsed.contains_shell_operator);
}

#[test]
fn quoted_arguments_read_back_as_themselves() {
    for argument in ["", "plain", "it's", "a b\tc", "x;y|z", "$HOME `id`", "\\'\"", "^caret"] {
        for platform in [RuntimePlatform::Linux, RuntimePlatform::Macos] {
            let line = format!("tool {}", host_bridge_mcp::ssh::quote_posix(argument));
            let parsed = host_bridge_mcp::command_parser::parse_command_line(&line, platform)
                .expect("quoted line should parse");
            assert_eq!(parsed.program, "tool");
            assert_eq!(parsed.args, vec![argument.to_string()]);
            assert!(!parsed.contains_shell_operator);
        }
    }
    for argument in ["", "plain", "a b", "C:\\dir\\", "say \"hi\"", "\\\\\"", "^&|<>", "end\\"] {
        let line = format!("tool {}", host_bridge_mcp::spawn::quote_windows_argument(argument));
        let parsed = host_bridge_mcp::command_parser::parse_command_line(&line, RuntimePlatform::Windows)
            .expect("quoted line should parse");
        assert_eq!(parsed.program, "tool");
        assert_eq!(parsed.args, vec![argument.to_string()]);
        assert!(!parsed.contains_shell_operator);
    }
}
