//! End-to-end resolution of glob words against a real directory tree.

use moonsh::interpreter::{build_regex, parse_arg};
use moonsh::resolver::{select_matches, valid_paths};
use tempfile::{Builder, NamedTempFile, TempDir};

fn glob(args: &[&str], cwd: &str) -> Result<Vec<Vec<String>>, String> {
    let mut lists = Vec::new();
    for arg in args {
        lists.push(parse_arg(arg).unwrap());
    }
    valid_paths(build_regex(lists), cwd)
}

fn sorted(list: &[String]) -> Vec<String> {
    let mut copy: Vec<String> = list.to_vec();
    copy.sort();
    copy
}

/// A fresh directory holding exactly the named (empty) files; everything
/// is removed again on drop.  The second return value is the directory's
/// path with a trailing separator, for use as the resolver's working
/// directory.
fn scratch_dir(files: &[&str]) -> (TempDir, Vec<NamedTempFile>, String) {
    let dir = Builder::new().prefix("moonsh_scratch").tempdir().unwrap();
    let mut handles = Vec::new();
    for name in files {
        let dot = name.rfind('.').unwrap();
        let handle = Builder::new()
            .prefix(&name[..dot])
            .suffix(&name[dot..])
            .rand_bytes(0)
            .tempfile_in(dir.path())
            .unwrap();
        handles.push(handle);
    }
    let cwd = format!("{}/", dir.path().display());
    (dir, handles, cwd)
}

#[test]
fn literal_path_round_trip() {
    let (_dir, _files, cwd) = scratch_dir(&["hello_rt.txt"]);

    let present = glob(&["hello_rt.txt"], &cwd).unwrap();
    assert_eq!(present, vec![vec![format!("{}hello_rt.txt", cwd)]]);

    let absent = glob(&["absent_rt.txt"], &cwd).unwrap();
    assert_eq!(absent, vec![Vec::<String>::new()]);
}

#[test]
fn wildcard_patterns_match_created_files() {
    let (_dir, _files, cwd) = scratch_dir(&["a1.txt", "a2.txt", "b.txt"]);

    let paths = glob(&["a?.txt", "*.txt", "[ab]*.txt"], &cwd).unwrap();
    assert_eq!(paths.len(), 3);

    let a1 = format!("{}a1.txt", cwd);
    let a2 = format!("{}a2.txt", cwd);
    let b = format!("{}b.txt", cwd);
    assert_eq!(sorted(&paths[0]), vec![a1.clone(), a2.clone()]);
    assert_eq!(sorted(&paths[1]), vec![a1.clone(), a2.clone(), b.clone()]);
    assert_eq!(sorted(&paths[2]), vec![a1, a2, b]);
}

#[test]
fn match_lists_keep_argument_order() {
    let (_dir, _files, cwd) = scratch_dir(&["only.txt"]);

    let paths = glob(&["absent.txt", "only.txt"], &cwd).unwrap();
    assert_eq!(paths, vec![vec![], vec![format!("{}only.txt", cwd)]]);
}

#[test]
fn absolute_pattern_resolves_against_the_root() {
    let missing = glob(&["/zz_no_such_root_entry_qq"], "./").unwrap();
    assert_eq!(missing, vec![Vec::<String>::new()]);

    let tmp = glob(&["/tmp"], "./").unwrap();
    assert!(tmp[0].iter().any(|p| p == "/tmp"));
}

#[test]
fn malformed_expression_aborts_with_the_compile_error() {
    let expected = regex::Regex::new("./(").unwrap_err().to_string();
    assert_eq!(
        valid_paths(vec!["(".to_string()], "./").unwrap_err(),
        expected
    );
}

#[test]
fn select_matches_keeps_exactly_the_accepted_yields() {
    let re = regex::Regex::new("a.").unwrap();
    let entries: Vec<Result<String, String>> = vec![
        Ok("xay".to_string()),
        Ok("zzz".to_string()),
        Ok("ab".to_string()),
    ];
    assert_eq!(
        select_matches(&re, &entries).unwrap(),
        vec!["xay".to_string(), "ab".to_string()]
    );
}

#[test]
fn select_matches_hands_back_the_first_error() {
    let re = regex::Regex::new("a").unwrap();
    let entries: Vec<Result<String, String>> = vec![
        Ok("a".to_string()),
        Err("boom".to_string()),
        Err("later".to_string()),
    ];
    assert_eq!(select_matches(&re, &entries).unwrap_err(), "boom");
}
