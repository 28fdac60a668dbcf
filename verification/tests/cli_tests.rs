use ke::app::name_input_char;
use ke::cli::{delete_report, removal_report};
use ke::display::{key_value_label, mask, preview_text};
use ke::cli::{
    command_args, export_line, init_flag_ok, pad_left, pad_right, parse_command, project_arg,
    project_key_args, push_file, removal_failures, run_args, status_line, ArgError, Command,
};
use ke::dotenv::{dotenv_quote, parse_dotenv_value, shell_quote};
use ke::envfile::{format_env_line, parse_env_file, render_pull_file};
use ke::keychain::KeychainError;
use ke::names::{validate_key_name, validate_project_name};

fn args(v: &[&str]) -> Vec<String> {
    v.iter().map(|s| s.to_string()).collect()
}

#[test]
fn key_names_must_be_valid_env_names() {
    assert!(validate_key_name("API_KEY_1").is_ok());
    assert!(validate_key_name("_TOKEN").is_ok());
    assert!(validate_key_name("1BAD").is_err());
    assert!(validate_key_name("lower").is_err());
    assert!(validate_key_name("BAD-NAME").is_err());
}

#[test]
fn shell_quote_escapes_single_quotes() {
    assert_eq!(shell_quote("abc"), "'abc'");
    assert_eq!(shell_quote("a'b"), "'a'\\''b'");
}

#[test]
fn dotenv_quote_escapes_special_chars() {
    assert_eq!(dotenv_quote("a b"), "\"a b\"");
    assert_eq!(dotenv_quote("a\"b\\c\n"), "\"a\\\"b\\\\c\\n\"");
}

#[test]
fn parse_dotenv_value_decodes_quoted_values() {
    assert_eq!(
        parse_dotenv_value("\"a\\\"b\\\\c\\n\""),
        Some("a\"b\\c\n".into())
    );
    assert_eq!(parse_dotenv_value(" leading "), Some(" leading ".into()));
}

#[test]
fn key_name_errors_say_which_rule() {
    assert_eq!(validate_key_name(""), Err("key name cannot be empty".to_string()));
    assert_eq!(
        validate_key_name("1BAD"),
        Err("key name must start with an uppercase ASCII letter or underscore".to_string())
    );
    assert_eq!(
        validate_key_name("BAD-NAME"),
        Err("key name must be uppercase ASCII alphanumeric or underscore".to_string())
    );
}

#[test]
fn project_names() {
    assert!(validate_project_name("my-app_2").is_ok());
    assert!(validate_project_name("naïve").is_ok());
    assert_eq!(validate_project_name(""), Err("project name cannot be empty".to_string()));
    assert_eq!(
        validate_project_name("a/b"),
        Err("project name contains invalid characters".to_string())
    );
    assert_eq!(
        validate_project_name("a\\b"),
        Err("project name contains invalid characters".to_string())
    );
    assert_eq!(
        validate_project_name("a..b"),
        Err("project name contains invalid characters".to_string())
    );
    assert_eq!(
        validate_project_name("a.b"),
        Err("project name must be alphanumeric (hyphens and underscores allowed)".to_string())
    );
    assert_eq!(
        validate_project_name("a b"),
        Err("project name must be alphanumeric (hyphens and underscores allowed)".to_string())
    );
}

#[test]
fn dotenv_quote_escapes_tabs_and_returns() {
    assert_eq!(dotenv_quote("\t\r"), "\"\\t\\r\"");
    assert_eq!(dotenv_quote(""), "\"\"");
}

#[test]
fn parse_dotenv_value_cases() {
    assert_eq!(parse_dotenv_value(""), None);
    assert_eq!(parse_dotenv_value("'single \\n'"), Some("single \\n".to_string()));
    assert_eq!(parse_dotenv_value("  \"x\"  "), Some("x".to_string()));
    assert_eq!(parse_dotenv_value("\"\\q\""), Some("q".to_string()));
    assert_eq!(parse_dotenv_value("\"end\\\""), Some("end\\".to_string()));
    assert_eq!(parse_dotenv_value("\""), Some("\"".to_string()));
    assert_eq!(parse_dotenv_value("plain"), Some("plain".to_string()));
}

#[test]
fn quote_then_parse_round_trips() {
    for v in ["a b", "a\"b\\c\n", "\t\r", "", "'", "x\\", "  spaced  "] {
        assert_eq!(parse_dotenv_value(&dotenv_quote(v)), Some(v.to_string()));
    }
}

#[test]
fn shell_quote_edge_cases() {
    assert_eq!(shell_quote(""), "''");
    assert_eq!(shell_quote("''"), "''\\'''\\'''");
    assert_eq!(shell_quote("$HOME"), "'$HOME'");
}

#[test]
fn env_file_parsing() {
    let content = "# comment\n\nKEY=value\n  SPACED = \"a b\" \nlower=x\nNOEQ\nEMPTY=\nQ='single'\nX=a=b\r\n";
    let entries = parse_env_file(content);
    assert_eq!(
        entries,
        vec![
            ("KEY".to_string(), "value".to_string()),
            ("SPACED".to_string(), "a b".to_string()),
            ("Q".to_string(), "single".to_string()),
            ("X".to_string(), "a=b".to_string()),
        ]
    );
}

#[test]
fn pulled_file_pushes_back() {
    let values = vec![
        ("API_KEY".to_string(), "abc".to_string()),
        ("MULTI".to_string(), "line1\nline2 \"q\" \\".to_string()),
    ];
    let text = render_pull_file("proj", &values);
    assert_eq!(
        text,
        "# proj — pulled from Keychain\n# WARNING: contains secrets — never commit!\n\nAPI_KEY=\"abc\"\nMULTI=\"line1\\nline2 \\\"q\\\" \\\\\"\n"
    );
    assert_eq!(parse_env_file(&text), values);
    assert_eq!(format_env_line("K", "v"), "K=\"v\"");
}

#[test]
fn commands_and_short_forms() {
    assert_eq!(parse_command(&args(&["ke"])), Command::Tui);
    assert_eq!(parse_command(&args(&["ke", "tui"])), Command::Tui);
    assert_eq!(parse_command(&args(&["ke", "interactive"])), Command::Tui);
    assert_eq!(parse_command(&args(&["ke", "help"])), Command::Help);
    assert_eq!(parse_command(&args(&["ke", "--help"])), Command::Help);
    assert_eq!(parse_command(&args(&["ke", "-h"])), Command::Help);
    assert_eq!(parse_command(&args(&["ke", "install"])), Command::Install);
    assert_eq!(parse_command(&args(&["ke", "st"])), Command::Status);
    assert_eq!(parse_command(&args(&["ke", "init"])), Command::Init);
    assert_eq!(parse_command(&args(&["ke", "s"])), Command::SetValue);
    assert_eq!(parse_command(&args(&["ke", "g"])), Command::GetValue);
    assert_eq!(parse_command(&args(&["ke", "ls"])), Command::List);
    assert_eq!(parse_command(&args(&["ke", "load"])), Command::Load);
    assert_eq!(parse_command(&args(&["ke", "c"])), Command::Cat);
    assert_eq!(parse_command(&args(&["ke", "cp"])), Command::CopyValue);
    assert_eq!(parse_command(&args(&["ke", "del"])), Command::Delete);
    assert_eq!(parse_command(&args(&["ke", "pl"])), Command::Pull);
    assert_eq!(parse_command(&args(&["ke", "ph"])), Command::Push);
    assert_eq!(parse_command(&args(&["ke", "r"])), Command::Run);
    assert_eq!(parse_command(&args(&["ke", "rm"])), Command::Remove);
    assert_eq!(parse_command(&args(&["ke", "nonexistent"])), Command::Unknown);
    assert_eq!(command_args(&args(&["ke", "set", "p", "K"])), args(&["p", "K"]));
}

#[test]
fn argument_checks() {
    match project_key_args(&args(&["p"]), "Usage: ke get <project> <key>") {
        Err(ArgError::Usage { text }) => assert_eq!(text, "Usage: ke get <project> <key>"),
        _ => panic!("expected usage"),
    }
    match project_key_args(&args(&["p", "bad"]), "u") {
        Err(ArgError::Invalid { text }) => {
            assert_eq!(text, "key name must start with an uppercase ASCII letter or underscore")
        }
        _ => panic!("expected invalid key"),
    }
    match project_key_args(&args(&["p", "K"]), "u") {
        Ok((p, k)) => assert_eq!((p.as_str(), k.as_str()), ("p", "K")),
        _ => panic!("expected ok"),
    }
    match project_arg(&args(&[]), "Usage: ke rm <project>") {
        Err(ArgError::Usage { text }) => assert_eq!(text, "Usage: ke rm <project>"),
        _ => panic!("expected usage"),
    }
    match project_arg(&args(&["a/b"]), "u") {
        Err(ArgError::Invalid { text }) => {
            assert_eq!(text, "project name contains invalid characters")
        }
        _ => panic!("expected invalid"),
    }
    assert!(init_flag_ok(&args(&["--icloud"])));
    assert!(!init_flag_ok(&args(&[])));
    assert!(!init_flag_ok(&args(&["--other"])));
    assert_eq!(push_file(&args(&["p"])), ".env.local");
    assert_eq!(push_file(&args(&["p", "prod.env"])), "prod.env");
}

#[test]
fn run_arguments() {
    match run_args(&args(&["p"])) {
        Err(ArgError::Usage { text }) => {
            assert_eq!(text, "Usage: ke run <project> -- <command> [args...]")
        }
        _ => panic!("expected usage"),
    }
    match run_args(&args(&["p", "--"])) {
        Err(ArgError::Invalid { text }) => assert_eq!(text, "no command specified"),
        _ => panic!("expected no command"),
    }
    match run_args(&args(&["p", "--", "next", "dev"])) {
        Ok((p, prog, rest)) => {
            assert_eq!(p, "p");
            assert_eq!(prog, "next");
            assert_eq!(rest, args(&["dev"]));
        }
        _ => panic!("expected ok"),
    }
    match run_args(&args(&["p", "env"])) {
        Ok((_, prog, rest)) => {
            assert_eq!(prog, "env");
            assert!(rest.is_empty());
        }
        _ => panic!("expected ok"),
    }
}

#[test]
fn removal_counts_only_real_failures() {
    let results = vec![
        Ok(()),
        Err(KeychainError::NotFound),
        Err(KeychainError::DeleteFailed { detail: "x".to_string() }),
        Err(KeychainError::Command { detail: "no security".to_string() }),
    ];
    assert_eq!(removal_failures(&results), 2);
}

#[test]
fn status_and_export_lines() {
    assert_eq!(pad_right("ab", 4), "ab  ");
    assert_eq!(pad_left("ab", 4), "  ab");
    assert_eq!(pad_left("abcdef", 4), "abcdef");
    assert_eq!(
        status_line("proj", 3, 3),
        format!("  {:<18} {:>6} {:>12}", "proj", 3, "✓ all")
    );
    assert_eq!(
        status_line("proj", 3, 0),
        format!("  {:<18} {:>6} {:>12}", "proj", 3, "✗ 3 missing")
    );
    assert_eq!(
        status_line("proj", 12, 2),
        format!("  {:<18} {:>6} {:>12}", "proj", 12, "~ 10 missing")
    );
    assert_eq!(export_line("K", "it's"), "export K='it'\\''s'");
}

#[test]
fn delete_report_texts() {
    assert_eq!(delete_report("app", "KEY", &Ok(())), Ok("Deleted app:KEY".to_string()));
    assert_eq!(
        delete_report("app", "KEY", &Err(KeychainError::NotFound)),
        Ok("Removed app:KEY from index".to_string())
    );
    assert_eq!(
        delete_report("app", "KEY", &Err(KeychainError::DeleteFailed { detail: "denied".to_string() })),
        Err("Error: failed to delete secret from Keychain: denied".to_string())
    );
}

#[test]
fn removal_report_texts() {
    assert_eq!(removal_report("app", 0), Ok("Removed project 'app'".to_string()));
    assert_eq!(
        removal_report("app", 12),
        Err("Error: failed to delete 12 secret(s) from Keychain".to_string())
    );
}

#[test]
fn key_list_value_labels() {
    assert_eq!(key_value_label("", true), "\u{2014}");
    assert_eq!(key_value_label("", false), "(empty)");
    assert_eq!(key_value_label("post…t/db", true), "post…t/db");
}

#[test]
fn name_field_characters() {
    for c in ['a', 'z', 'A', 'Z', '0', '9', '_'] {
        assert!(name_input_char(c));
    }
    for c in ['é', '-', '.', ' ', 'Ж', '٣'] {
        assert!(!name_input_char(c));
    }
}

#[test]
fn typed_values_are_masked_per_byte() {
    assert_eq!(mask(""), "");
    assert_eq!(mask("abc"), "\u{2022}\u{2022}\u{2022}");
    // 'é' takes two bytes, '€' three
    assert_eq!(mask("é€"), "\u{2022}".repeat(5));
}

#[test]
fn preview_value_lines() {
    assert_eq!(preview_text("", true), "  loading...");
    assert_eq!(preview_text("", false), "  (empty)");
    assert_eq!(preview_text("s3cret", true), "  s3cret");
}

#[test]
fn project_names_with_ascii_rules() {
    assert!(validate_project_name("my-app_1").is_ok());
    assert!(validate_project_name("a.b").is_err());
    assert!(validate_project_name("my app").is_err());
    assert!(validate_project_name("café").is_ok());
}
