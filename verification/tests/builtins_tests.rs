//! The built-in command helpers.

use moonsh::builtins::{cd_target, exit, help, is_builtin};

#[test]
fn builtin_names_are_recognized() {
    assert!(is_builtin("cd"));
    assert!(is_builtin("help"));
    assert!(is_builtin("exit"));
}

#[test]
fn other_names_are_not_builtins() {
    assert!(!is_builtin("ls"));
    assert!(!is_builtin(""));
    assert!(!is_builtin("cd "));
    assert!(!is_builtin("exitt"));
}

#[test]
fn help_hands_back_its_text() {
    let text = help().unwrap_err();
    assert!(text.starts_with("moonsh\n\nBuiltins:\ncd <dest>\nexit\nhelp\n"));
}

#[test]
fn exit_hands_back_the_stop_word() {
    assert_eq!(exit().unwrap_err(), "exit");
}

#[test]
fn cd_needs_an_argument() {
    let none: Vec<&str> = vec![];
    assert_eq!(cd_target(&none).unwrap_err(), "Expected an argument to cd");
    let empty: Vec<&str> = vec![""];
    assert_eq!(cd_target(&empty).unwrap_err(), "Expected an argument to cd");
}

#[test]
fn cd_hands_back_its_first_argument() {
    let args: Vec<&str> = vec!["/tmp", "ignored"];
    assert_eq!(cd_target(&args).unwrap(), "/tmp");
}
