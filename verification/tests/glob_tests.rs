//! Tokenizer and compiler behaviour on concrete argument words.

use moonsh::interpreter::{build_regex, parse_arg, Token, TokenKind};

fn kinds_and_values(tokens: &[Token]) -> Vec<(TokenKind, String)> {
    tokens.iter().map(|t| (t.kind, t.to_string())).collect()
}

#[test]
fn literal_word_single_token() {
    let tokens = parse_arg("hello.txt").unwrap();
    assert_eq!(
        kinds_and_values(&tokens),
        vec![(TokenKind::Normal, "hello.txt".to_string())]
    );
}

#[test]
fn literal_word_compiles_unchanged() {
    let tokens = parse_arg("hello.txt").unwrap();
    let regexes = build_regex(vec![tokens]);
    assert_eq!(regexes, vec!["hello.txt".to_string()]);
}

#[test]
fn lone_star_tokens() {
    let tokens = parse_arg("*").unwrap();
    assert_eq!(
        kinds_and_values(&tokens),
        vec![
            (TokenKind::Normal, "".to_string()),
            (TokenKind::Kleene, "*".to_string()),
        ]
    );
}

#[test]
fn lone_star_compiles_to_match_any_sequence() {
    let tokens = parse_arg("*").unwrap();
    let regexes = build_regex(vec![tokens]);
    assert_eq!(regexes, vec![".*".to_string()]);
}

#[test]
fn star_between_literals() {
    let tokens = parse_arg("a*b").unwrap();
    assert_eq!(
        kinds_and_values(&tokens),
        vec![
            (TokenKind::Normal, "a".to_string()),
            (TokenKind::Kleene, "*".to_string()),
            (TokenKind::Normal, "b".to_string()),
        ]
    );
}

#[test]
fn lone_group_close_is_rejected() {
    let err = parse_arg("]").unwrap_err();
    assert_eq!(err, "No start to group ended with \"]\".");
}

#[test]
fn unterminated_group_is_rejected() {
    let err = parse_arg("[ab").unwrap_err();
    assert_eq!(err, "Group has no matching \"]\".");
}

#[test]
fn nested_group_open_is_rejected() {
    let err = parse_arg("[[ab]").unwrap_err();
    assert_eq!(err, "Cannot nest groups.");
}

#[test]
fn group_open_after_member_is_absorbed() {
    // A second `[` later inside a group is an ordinary member, so this
    // word parses, unlike `[[ab]` where the `[` follows the opener at once.
    let tokens = parse_arg("[a[b]").unwrap();
    assert_eq!(
        kinds_and_values(&tokens),
        vec![
            (TokenKind::Normal, "".to_string()),
            (TokenKind::GroupStart, "[".to_string()),
            (TokenKind::Group, "a[b".to_string()),
            (TokenKind::GroupEnd, "]".to_string()),
        ]
    );
}

#[test]
fn group_members_are_deduplicated() {
    let tokens = parse_arg("[aab]").unwrap();
    let regexes = build_regex(vec![tokens]);
    let expr = &regexes[0];
    assert!(expr.starts_with('('));
    assert!(expr.ends_with(')'));
    let mut members: Vec<&str> = expr[1..expr.len() - 1].split('|').collect();
    members.sort();
    assert_eq!(members, vec!["a", "b"]);
}

#[test]
fn empty_word_yields_one_empty_token() {
    let tokens = parse_arg("").unwrap();
    assert_eq!(
        kinds_and_values(&tokens),
        vec![(TokenKind::Normal, "".to_string())]
    );
    let regexes = build_regex(vec![tokens]);
    assert_eq!(regexes, vec!["".to_string()]);
}

#[test]
fn empty_group_contributes_nothing() {
    let tokens = parse_arg("[]").unwrap();
    assert_eq!(
        kinds_and_values(&tokens),
        vec![
            (TokenKind::Normal, "".to_string()),
            (TokenKind::GroupStart, "[".to_string()),
            (TokenKind::GroupEnd, "]".to_string()),
        ]
    );
    let regexes = build_regex(vec![tokens]);
    assert_eq!(regexes, vec!["".to_string()]);
}

#[test]
fn question_mark_compiles_to_one_character() {
    let tokens = parse_arg("a?.txt").unwrap();
    let regexes = build_regex(vec![tokens]);
    assert_eq!(regexes, vec!["a..txt".to_string()]);
}

#[test]
fn runs_of_metacharacters_collapse() {
    // A run of `*` or `?` forms one token and one operator, whatever its
    // length.
    let star_run = parse_arg("a**b").unwrap();
    assert_eq!(
        kinds_and_values(&star_run),
        vec![
            (TokenKind::Normal, "a".to_string()),
            (TokenKind::Kleene, "**".to_string()),
            (TokenKind::Normal, "b".to_string()),
        ]
    );
    let query_run = parse_arg("a??b").unwrap();
    let regexes = build_regex(vec![star_run, query_run]);
    assert_eq!(regexes, vec!["a.*b".to_string(), "a.b".to_string()]);
}

#[test]
fn metacharacters_inside_group_are_members() {
    let tokens = parse_arg("[a*?]").unwrap();
    let regexes = build_regex(vec![tokens]);
    let expr = &regexes[0];
    let mut members: Vec<&str> = expr[1..expr.len() - 1].split('|').collect();
    members.sort();
    assert_eq!(members, vec!["*", "?", "a"]);
}

#[test]
fn group_close_reopens_ordinary_state() {
    let tokens = parse_arg("[ab]c").unwrap();
    assert_eq!(
        kinds_and_values(&tokens),
        vec![
            (TokenKind::Normal, "".to_string()),
            (TokenKind::GroupStart, "[".to_string()),
            (TokenKind::Group, "ab".to_string()),
            (TokenKind::GroupEnd, "]".to_string()),
            (TokenKind::Normal, "c".to_string()),
        ]
    );
}

#[test]
fn build_regex_keeps_argument_order() {
    let first = parse_arg("a*").unwrap();
    let second = parse_arg("b?").unwrap();
    let regexes = build_regex(vec![first, second]);
    assert_eq!(regexes, vec!["a.*".to_string(), "b.".to_string()]);
}
