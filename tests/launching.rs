use freedesktop_apps::{
    expand_field_codes, parse_command_line, shell_escape, ApplicationEntry, ExecuteError,
    LaunchContext,
};

fn entry(text: &str) -> ApplicationEntry {
    ApplicationEntry::parse("/tmp/launch_test.desktop", text).unwrap()
}

fn plain_ctx() -> LaunchContext {
    LaunchContext { try_exec_available: true, terminal: None }
}

fn strings(items: &[&str]) -> Vec<String> {
    items.iter().map(|s| s.to_string()).collect()
}

#[test]
fn test_execute_validation_no_exec() {
    let entry = entry("[Desktop Entry]\nType=Application\nName=Test\nDBusActivatable=true\n");
    let result = entry.prepare_command(&vec![], &vec![], &plain_ctx());
    assert!(matches!(result, Err(ExecuteError::NotExecutable(_))));
}

#[test]
fn test_execute_validation_empty_exec() {
    let entry = entry("[Desktop Entry]\nType=Application\nName=Test\nExec=\n");
    let result = entry.prepare_command(&vec![], &vec![], &plain_ctx());
    assert!(matches!(result, Err(ExecuteError::NotExecutable(_))));
}

#[test]
fn test_field_code_expansion() {
    let entry = entry(
        "[Desktop Entry]\nType=Application\nName=Test App\nIcon=test-icon\nExec=echo 'name:%c icon:%i file:%f'\n",
    );
    let exec = entry.exec().unwrap();
    assert!(exec.contains("%c"));
    assert!(exec.contains("%i"));
    assert!(exec.contains("%f"));
}

#[test]
fn test_command_line_parsing() {
    let entry = entry(
        "[Desktop Entry]\nType=Application\nName=Test\nExec=echo \"arg with spaces\" 'single quotes' normal_arg\n",
    );
    assert!(entry.exec().is_some());
    match entry.prepare_command(&vec![], &vec![], &plain_ctx()) {
        Ok((program, args)) => {
            assert_eq!(program, "echo");
            assert!(args.len() >= 3);
        }
        Err(ExecuteError::InvalidCommand(_)) => panic!("Command line parsing failed"),
        Err(_) => {}
    }
}

#[test]
fn test_try_exec_validation() {
    let entry = entry(
        "[Desktop Entry]\nType=Application\nName=Test\nExec=echo test\nTryExec=/nonexistent/program\n",
    );
    let ctx = LaunchContext { try_exec_available: false, terminal: None };
    let result = entry.prepare_command(&vec![], &vec![], &ctx);
    assert!(matches!(result, Err(ExecuteError::ValidationFailed(_))));
}

#[test]
fn test_try_exec_with_valid_program() {
    let entry = entry("[Desktop Entry]\nType=Application\nName=Test\nExec=echo test\nTryExec=echo\n");
    match entry.prepare_command(&vec![], &vec![], &plain_ctx()) {
        Ok((program, args)) => {
            assert_eq!(program, "echo");
            assert_eq!(args, vec!["test"]);
        }
        Err(ExecuteError::ValidationFailed(_)) => {
            panic!("Validation should have passed for 'echo' in PATH")
        }
        Err(_) => {}
    }
}

#[test]
fn test_terminal_application() {
    let entry = entry("[Desktop Entry]\nType=Application\nName=Terminal Test\nExec=htop\nTerminal=true\n");
    assert!(entry.terminal());
    let ctx = LaunchContext { try_exec_available: true, terminal: Some("xterm".to_string()) };
    let (program, args) = entry.prepare_command(&vec![], &vec![], &ctx).unwrap();
    assert_eq!(program, "xterm");
    assert_eq!(args, vec!["-e", "htop"]);
    let result = entry.prepare_command(&vec![], &vec![], &plain_ctx());
    assert!(matches!(result, Err(ExecuteError::TerminalNotFound)));
}

#[test]
fn test_execute_with_files() {
    let entry = entry("[Desktop Entry]\nType=Application\nName=File Test\nExec=cat %F\n");
    let files = strings(&["/tmp/test1.txt", "/tmp/test2.txt"]);
    let (program, args) = entry.prepare_command(&files, &vec![], &plain_ctx()).unwrap();
    assert_eq!(program, "cat");
    assert_eq!(args, files);
}

#[test]
fn test_execute_with_urls() {
    let entry = entry("[Desktop Entry]\nType=Application\nName=URL Test\nExec=echo %U\n");
    let urls = strings(&["https://example.com", "https://test.org"]);
    let (program, args) = entry.prepare_command(&vec![], &urls, &plain_ctx()).unwrap();
    assert_eq!(program, "echo");
    let args_str = args.join(" ");
    assert!(args_str.contains("example.com"));
    assert!(args_str.contains("test.org"));
}

#[test]
fn test_working_directory() {
    let entry = entry("[Desktop Entry]\nType=Application\nName=WorkDir Test\nExec=pwd\nPath=/tmp\n");
    assert_eq!(entry.path_dir(), Some("/tmp".to_string()));
    let (program, args) = entry.prepare_command(&vec![], &vec![], &plain_ctx()).unwrap();
    assert_eq!(program, "pwd");
    assert!(args.is_empty());
}

#[test]
fn test_shell_escaping() {
    let entry = entry("[Desktop Entry]\nType=Application\nName=Escape Test\nExec=echo %f\n");
    for file in ["file with spaces", "file'with'quotes", "file;with;semicolons"] {
        let result = entry.prepare_command(&strings(&[file]), &vec![], &plain_ctx());
        match result {
            Ok((program, args)) => {
                assert_eq!(program, "echo");
                assert_eq!(args, vec![file.to_string()]);
            }
            Err(e) => panic!("Unexpected error with file '{}': {:?}", file, e),
        }
    }
}

#[test]
fn file_with_space_stays_one_argument() {
    let entry = entry("[Desktop Entry]\nType=Application\nName=T\nExec=echo %f\n");
    let (program, args) = entry.prepare_command(&strings(&["a b.txt"]), &vec![], &plain_ctx()).unwrap();
    assert_eq!(program, "echo");
    assert_eq!(args, vec!["a b.txt"]);
}

#[test]
fn unknown_field_code_is_invalid_command() {
    let entry = entry("[Desktop Entry]\nType=Application\nName=T\nExec=run %x now\n");
    let result = entry.prepare_command(&vec![], &vec![], &plain_ctx());
    assert!(matches!(result, Err(ExecuteError::InvalidCommand(_))));
}

#[test]
fn unterminated_quote_is_invalid_command() {
    let entry = entry("[Desktop Entry]\nType=Application\nName=T\nExec=run 'open\n");
    let result = entry.prepare_command(&vec![], &vec![], &plain_ctx());
    assert!(matches!(result, Err(ExecuteError::InvalidCommand(_))));
}

#[test]
fn escape_quotes_only_when_needed() {
    assert_eq!(shell_escape("plain-name.txt"), "plain-name.txt");
    assert_eq!(shell_escape("a b"), "'a b'");
    assert_eq!(shell_escape("it's"), "'it'\"'\"'s'");
    assert_eq!(shell_escape("$HOME"), "'$HOME'");
    assert_eq!(shell_escape(""), "");
}

#[test]
fn tokenizer_rules() {
    let (p, a) = parse_command_line("  prog   one\t two  ").unwrap();
    assert_eq!(p, "prog");
    assert_eq!(a, vec!["one", "two"]);
    let (p, a) = parse_command_line("prog \"a \\\"b\\\" c\" 'x\\ny'").unwrap();
    assert_eq!(p, "prog");
    assert_eq!(a, vec!["a \"b\" c", "x\\ny"]);
    let (_, a) = parse_command_line("prog 'it'\"'\"'s'").unwrap();
    assert_eq!(a, vec!["it's"]);
    let (_, a) = parse_command_line("prog a\\ b").unwrap();
    assert_eq!(a, vec!["a\\", "b"]);
    assert!(matches!(parse_command_line(""), Err(ExecuteError::InvalidCommand(_))));
    assert!(matches!(parse_command_line("   \t "), Err(ExecuteError::InvalidCommand(_))));
    assert!(matches!(parse_command_line("prog \"open"), Err(ExecuteError::InvalidCommand(_))));
}

#[test]
fn expansion_codes() {
    let files = strings(&["a b", "c"]);
    let urls = strings(&["http://x/y"]);
    let r = expand_field_codes("x %f %F %u %U %% %i %c %k %d%D%n%N%v%m end %", &files, &urls, Some("ic on"), Some("Nm"), "/p/q.desktop");
    assert_eq!(r, Ok("x 'a b' 'a b' c http://x/y http://x/y % --icon 'ic on' Nm /p/q.desktop  end %".to_string()));
    let r = expand_field_codes("a %f %i %c", &vec![], &vec![], None, None, "/p");
    assert_eq!(r, Ok("a   ".to_string()));
    let r = expand_field_codes("a %q rest %f", &files, &urls, None, None, "/p");
    assert_eq!(r, Err("%q rest %f".to_string()));
}
