use nextsync::paths::{
    join_path, normalize_path, normalize_relative, nextsync, nextsyncignore, objects, refs,
    repo_root_candidates, repo_root_without_err, split_str, strip_prefix_path,
};

#[test]
fn normalize_path_resolves_parent_components() {
    assert_eq!(normalize_path("a/b/../c"), "a/c");
    assert_eq!(normalize_path("/a/./b/"), "/a/b/");
    assert_eq!(normalize_path("../x"), "../x");
    assert_eq!(normalize_path("/.."), "/..");
    assert_eq!(normalize_path("./a"), "./a");
    assert_eq!(normalize_path("a//b"), "a/b");
}

#[test]
fn normalizing_twice_is_normalizing_once() {
    for p in ["a/b/../c/", "../../x/./y", "/r/./s/../t", "", "/"] {
        let once = normalize_path(p);
        assert_eq!(normalize_path(&once), once);
    }
}

#[test]
fn a_trailing_slash_is_kept() {
    assert_eq!(normalize_path("a/b/"), "a/b/");
    assert_eq!(normalize_path("/"), "/");
    assert_eq!(normalize_path("a/../"), "./");
    assert_eq!(normalize_path("/a/../"), "/");
}

#[test]
fn normalize_relative_gives_the_path_from_the_root() {
    let r = normalize_relative(Some(String::from("/repo/dir")), "/repo", "../f.txt");
    assert_eq!(r, Ok(String::from("f.txt")));
    let r = normalize_relative(Some(String::from("/repo")), "/repo", "a/b");
    assert_eq!(r, Ok(String::from("a/b")));
}

#[test]
fn normalize_relative_errors() {
    assert_eq!(
        normalize_relative(None, "/repo", "f"),
        Err(String::from("cannot find current location"))
    );
    assert_eq!(
        normalize_relative(Some(String::from("/repo")), "/repo", "../../etc"),
        Err(String::from("is not in a nextsync repo or doesn't exist"))
    );
}

#[test]
fn repository_paths() {
    assert_eq!(nextsync("/r"), "/r/.nextsync");
    assert_eq!(objects("/r"), "/r/.nextsync/objects");
    assert_eq!(refs("/r/"), "/r/.nextsync/refs");
    assert_eq!(nextsyncignore("/r"), "/r/.nextsyncignore");
}

#[test]
fn join_and_strip() {
    assert_eq!(join_path("a", "b"), "a/b");
    assert_eq!(join_path("a/", "b"), "a/b");
    assert_eq!(join_path("a", "/b"), "/b");
    assert_eq!(join_path("", "b"), "b");
    assert_eq!(strip_prefix_path("/r/a/b", "/r"), Some(String::from("a/b")));
    assert_eq!(strip_prefix_path("/ra/b", "/r"), None);
    assert_eq!(split_str("a b  c", ' '), vec!["a", "b", "", "c"]);
}

#[test]
fn the_root_is_the_first_candidate_with_a_repository() {
    assert_eq!(repo_root_candidates("/a/b"), vec!["/a/b", "/a"]);
    assert_eq!(repo_root_candidates("/"), vec!["/"]);
    assert_eq!(
        repo_root_without_err("/a/b", &vec![false, true]),
        Some(String::from("/a"))
    );
    assert_eq!(repo_root_without_err("/a/b", &vec![false, false]), None);
}
