use safa_shell::search::{candidate_paths, first_existing, join_path, split_path_list};

#[test]
fn split_keeps_order_and_empty_pieces() {
    assert_eq!(split_path_list("a:bb:c", ':'), vec!["a", "bb", "c"]);
    assert_eq!(split_path_list(":a::b:", ':'), vec!["", "a", "", "b", ""]);
    assert_eq!(split_path_list("", ':'), vec![""]);
    assert_eq!(split_path_list("abc", ':'), vec!["abc"]);
    assert_eq!(split_path_list("a;b", ';'), vec!["a", "b"]);
}

#[test]
fn join_inserts_exactly_one_separator() {
    assert_eq!(join_path("sys:/bin", "foo"), "sys:/bin/foo");
    assert_eq!(join_path("dir/", "foo"), "dir/foo");
    assert_eq!(join_path("", "foo"), "foo");
}

#[test]
fn candidates_follow_path_order_then_cwd() {
    let cands = candidate_paths("/bin:/usr/bin", ':', "/cwd", "foo");
    assert_eq!(cands, vec!["/bin/foo", "/usr/bin/foo", "/cwd/foo"]);
}

#[test]
fn first_existing_picks_the_first_match_only() {
    // Two directories, only the second holds the program: the second wins,
    // and the result is `Some`, so no bare-name fallback is owed.
    assert_eq!(first_existing(&vec![false, true]), Some(1));
    assert_eq!(first_existing(&vec![true, true]), Some(0));
    assert_eq!(first_existing(&vec![false, false, true, true]), Some(2));
}

#[test]
fn no_candidate_means_fallback() {
    assert_eq!(first_existing(&vec![]), None);
    assert_eq!(first_existing(&vec![false, false]), None);
}
