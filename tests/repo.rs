use canzero_cli::repo::{chars_of, extract_repo_name, has_remote_branch};

#[test]
fn repo_name_is_last_two_segments_reversed() {
    assert_eq!(extract_repo_name("https://github.com/user/repo"), "resu/oper");
    assert_eq!(extract_repo_name("https://github.com/mu-zero/config.git"), "orez-um/tig.gifnoc");
    assert_eq!(extract_repo_name("a/b"), "a/b");
    assert_eq!(extract_repo_name("ab/cd"), "ba/dc");
    assert_eq!(extract_repo_name("abc"), "cba");
    assert_eq!(extract_repo_name(""), "");
    assert_eq!(extract_repo_name("x/y/"), "y/");
    assert_eq!(extract_repo_name("ü/ä"), "ü/ä");
}

#[test]
fn remote_branch_lookup() {
    let names = vec!["origin/main".to_string(), "origin/dev".to_string(), "upstream/x".to_string()];
    assert!(has_remote_branch(&names, "main"));
    assert!(has_remote_branch(&names, "dev"));
    assert!(!has_remote_branch(&names, "x"));
    assert!(!has_remote_branch(&names, "mai"));
    assert!(!has_remote_branch(&vec![], "main"));
}

#[test]
fn chars_in_order() {
    assert_eq!(chars_of("aé/"), vec!['a', 'é', '/']);
}
