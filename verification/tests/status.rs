use nextsync::push::{PushChange, PushFactory};
use crypto::digest::Digest;
use crypto::sha1::Sha1;
use nextsync::status::{
    add_to_hashmap, add_to_vec, contains_key, get_all_objs, get_all_staged, get_move_copy_objs,
    get_otype, get_staged, is_nextsync_config, mark_deleted, modified_objs, new_objs, remove_duplicate,
    status, DiffWalk, LocalObj, ObjMap, PathFacts, RemoveSide, RetainFacts, Segment, State, StatusArgs,
    Tint,
};

fn sha1(s: &str) -> String {
    let mut hasher = Sha1::new();
    hasher.input_str(s);
    hasher.result_str()
}

fn obj(name: &str, state: State) -> LocalObj {
    LocalObj {
        otype: String::from("blob"),
        name: String::from(name),
        path: String::from(name),
        path_from: None,
        state,
    }
}

fn texts(lines: &Vec<Vec<Segment>>) -> Vec<String> {
    lines.iter().map(|l| l.iter().map(|s| s.text.clone()).collect::<String>()).collect()
}

#[test]
fn test_remove_duplicate() {
    let hash1 = sha1("file1");
    let hash2 = sha1("file2");
    let hash4 = sha1("file4");

    let default_obj = LocalObj {
        otype: String::from("tree"),
        name: String::from("test"),
        path: String::from(""),
        path_from: None,
        state: State::Default,
    };
    let mut hashes: ObjMap = vec![];
    hashes.push((hash1.clone(), default_obj.duplicate()));
    hashes.push((hash2.clone(), default_obj.duplicate()));
    hashes.push((hash4.clone(), default_obj.duplicate()));

    let mut objects: Vec<String> = vec![];
    objects.push(String::from("file1"));
    objects.push(String::from("file2"));
    objects.push(String::from("file3"));
    remove_duplicate(&mut hashes, &mut objects, RemoveSide::Both);

    assert_eq!(contains_key(&hashes, &hash4), true);
    assert_eq!(hashes.len(), 1);
    assert_eq!(objects, vec!["file3"]);
}

#[test]
fn remove_duplicate_reports_paths_found_on_both_sides() {
    let mut hashes: ObjMap = vec![(sha1("a"), obj("a", State::Default))];
    let mut objects = vec![String::from("a"), String::from("b")];
    let found = remove_duplicate(&mut hashes, &mut objects, RemoveSide::Both);
    assert_eq!(found, vec!["a"]);
    assert_eq!(objects, vec!["b"]);
    assert!(hashes.is_empty());
}

#[test]
fn remove_duplicate_left_keeps_the_paths() {
    let mut hashes: ObjMap = vec![(sha1("a"), obj("a", State::Default))];
    let mut objects = vec![String::from("a"), String::from("b")];
    let found = remove_duplicate(&mut hashes, &mut objects, RemoveSide::Left);
    assert_eq!(found, vec!["a"]);
    assert_eq!(objects, vec!["a", "b"]);
    assert!(hashes.is_empty());
}

#[test]
fn remove_duplicate_right_keeps_the_keys() {
    let mut hashes: ObjMap = vec![(sha1("a"), obj("a", State::Default))];
    let mut objects = vec![String::from("a"), String::from("b")];
    let found = remove_duplicate(&mut hashes, &mut objects, RemoveSide::Right);
    assert_eq!(found, vec!["a"]);
    assert_eq!(objects, vec!["b"]);
    assert_eq!(hashes.len(), 1);
}

#[test]
fn get_otype_tells_trees_from_blobs() {
    assert_eq!(get_otype(true), "tree");
    assert_eq!(get_otype(false), "blob");
}

#[test]
fn staged_lines_take_known_changes_or_are_new_or_deleted() {
    let mut moved = obj("b", State::Moved);
    moved.path_from = Some(String::from("a"));
    let mut hashes: ObjMap = vec![(sha1("b"), moved)];
    let lines = vec![String::from("b"), String::from("c"), String::from("d")];
    let facts = vec![
        PathFacts { exists: true, is_dir: false },
        PathFacts { exists: true, is_dir: true },
        PathFacts { exists: false, is_dir: false },
    ];
    let staged = get_staged(&lines, &mut hashes, &facts);
    assert_eq!(staged.len(), 3);
    assert!(staged[0].state == State::Moved);
    assert_eq!(staged[0].path_from, Some(String::from("a")));
    assert!(staged[1].state == State::New);
    assert_eq!(staged[1].otype, "tree");
    assert!(staged[2].state == State::Deleted);
    assert!(hashes.is_empty());
}

#[test]
fn all_staged_are_new_or_deleted() {
    let lines = vec![String::from("x"), String::from("y")];
    let facts = vec![
        PathFacts { exists: true, is_dir: false },
        PathFacts { exists: false, is_dir: false },
    ];
    let staged = get_all_staged(&lines, &facts);
    assert!(staged[0].state == State::New);
    assert!(staged[1].state == State::Deleted);
    assert_eq!(staged[1].name, "y");
}

#[test]
fn get_all_objs_merges_in_order_and_later_entries_win() {
    let mc: ObjMap = vec![(String::from("k1"), obj("moved", State::Moved))];
    let del: ObjMap = vec![(String::from("k2"), obj("gone", State::Deleted))];
    let new: ObjMap = vec![(String::from("k1"), obj("fresh", State::New))];
    let modified: ObjMap = vec![(String::from("k3"), obj("changed", State::Modified))];
    let all = get_all_objs(mc, del, new, modified);
    let names: Vec<String> = all.iter().map(|o| o.name.clone()).collect();
    assert_eq!(names, vec!["fresh", "gone", "changed"]);
}

#[test]
fn modified_and_new_objects_are_keyed_by_path_hash() {
    let paths = vec![String::from("f")];
    let facts = vec![PathFacts { exists: true, is_dir: false }];
    let m = modified_objs(&paths, &facts);
    assert_eq!(m[0].0, sha1("f"));
    assert!(m[0].1.state == State::Modified);
    let n = new_objs(&paths, &facts);
    assert!(n[0].1.state == State::New);
    assert_eq!(n[0].1.otype, "blob");
}

#[test]
fn tree_lines_become_known_objects_under_their_folder() {
    let h = sha1("dir/a");
    let lines = vec![format!("blob {} a", h), String::from("short"), String::from("tree abc sub")];
    let mut hashes: ObjMap = vec![];
    assert!(add_to_hashmap(&lines, &mut hashes, &String::from("dir")));
    assert_eq!(hashes.len(), 2);
    assert_eq!(hashes[0].0, h);
    assert_eq!(hashes[0].1.path, "dir/a");
    assert_eq!(hashes[1].1.otype, "tree");
    assert_eq!(hashes[1].1.path, "dir/sub");
}

#[test]
fn an_invalid_tree_line_changes_nothing() {
    let lines = vec![String::from("blob only-two")];
    let mut hashes: ObjMap = vec![];
    assert!(!add_to_hashmap(&lines, &mut hashes, &String::from("")));
    assert!(hashes.is_empty());
}

#[test]
fn folder_entries_become_relative_paths_without_the_repository_folder() {
    assert!(is_nextsync_config(&String::from("/r/.nextsync")));
    assert!(!is_nextsync_config(&String::from("/r/src")));
    let entries = vec![String::from("/r/.nextsync"), String::from("/r/src"), String::from("/r/a.txt")];
    let mut objects: Vec<String> = vec![];
    add_to_vec(&entries, &mut objects, &String::from("/r"));
    assert_eq!(objects, vec!["src", "a.txt"]);
}

#[test]
fn known_objects_left_are_deleted() {
    let mut hashes: ObjMap = vec![(String::from("k"), obj("x", State::Default))];
    mark_deleted(&mut hashes);
    assert!(hashes[0].1.state == State::Deleted);
    assert_eq!(hashes[0].1.name, "x");
}

#[test]
fn new_files_with_deleted_content_are_moved_else_copied() {
    let mut new_objs: ObjMap = vec![
        (sha1("b"), obj("b", State::New)),
        (sha1("c"), obj("c", State::New)),
        (sha1("d"), obj("d", State::New)),
        (sha1("e"), obj("e", State::New)),
    ];
    let mut del: ObjMap = vec![(sha1("a"), obj("a", State::Deleted))];
    let facts = vec![
        RetainFacts { is_dir: false, identical: vec![String::from("a")], first_exists: false },
        RetainFacts { is_dir: false, identical: vec![String::from("z")], first_exists: true },
        RetainFacts { is_dir: true, identical: vec![String::from("z")], first_exists: true },
        RetainFacts { is_dir: false, identical: vec![], first_exists: false },
    ];
    let mc = get_move_copy_objs(&mut new_objs, &mut del, &facts);
    assert_eq!(mc.len(), 2);
    assert!(mc[0].1.state == State::Moved);
    assert_eq!(mc[0].1.path_from, Some(String::from("a")));
    assert!(mc[1].1.state == State::Copied);
    assert_eq!(mc[1].1.path_from, Some(String::from("z")));
    let left: Vec<String> = new_objs.iter().map(|e| e.1.name.clone()).collect();
    assert_eq!(left, vec!["d", "e"]);
    assert!(del.is_empty());
}

#[test]
fn status_without_style_lists_staged_changes() {
    let mut moved = obj("m", State::Moved);
    moved.path_from = Some(String::from("old"));
    let staged = vec![obj("n", State::New), moved, obj("u", State::Default)];
    let lines = status(StatusArgs { nostyle: true }, staged, vec![obj("x", State::Deleted)]);
    assert_eq!(texts(&lines), vec!["new: n", "moved: old => m"]);
}

#[test]
fn status_of_a_clean_tree() {
    let lines = status(StatusArgs { nostyle: false }, vec![], vec![]);
    assert_eq!(texts(&lines), vec!["Nothing to push, working tree clean"]);
    let quiet = status(StatusArgs { nostyle: true }, vec![], vec![]);
    assert!(quiet.is_empty());
}

#[test]
fn status_with_style_colours_staged_green_and_others_red() {
    let mut copied = obj("c", State::Copied);
    copied.path_from = Some(String::from("src"));
    let lines = status(StatusArgs { nostyle: false }, vec![copied], vec![obj("d", State::Deleted)]);
    assert_eq!(
        texts(&lines),
        vec![
            "Changes to be pushed:",
            "  (Use \"nextsync reset\" to unstage)",
            "      copied:     src => c",
            "Changes not staged for push:",
            "  (Use\"nextsync add <file>...\" to update what will be pushed)",
            "      deleted:    d",
        ]
    );
    assert!(lines[2][1].tint == Tint::Plain);
    assert!(lines[2][3].tint == Tint::Green);
    assert!(lines[5][1].tint == Tint::Red);
    assert!(lines[5][3].tint == Tint::Red);
}

#[test]
fn diff_walk_finds_new_deleted_and_modified() {
    let ha = sha1("a");
    let hb = sha1("b");
    let head = vec![format!("blob {} a", ha), format!("blob {} b", hb)];
    let entries = vec![String::from("/r/a"), String::from("/r/c")];
    let root = String::from("/r");
    let mut walk = DiffWalk::new(Some(head), &String::from(""), Some(entries), &root).unwrap();
    let next = walk.next().unwrap();
    assert_eq!(next, "a");
    walk.visit_file(next, true);
    assert!(walk.next().is_none());
    let (deleted, new, modified) = walk.finish();
    assert_eq!(deleted.len(), 1);
    assert_eq!(deleted[0].0, hb);
    assert!(deleted[0].1.state == State::Deleted);
    assert_eq!(new, vec!["c"]);
    assert_eq!(modified, vec!["a"]);
}

#[test]
fn diff_walk_refuses_invalid_objects() {
    let root = String::from("/r");
    assert!(DiffWalk::new(Some(vec![String::from("blob onlytwo")]), &String::from(""), None, &root).is_none());
    let mut walk = DiffWalk::new(None, &String::from(""), Some(vec![String::from("/r/d")]), &root).unwrap();
    assert!(walk.next().is_none());
    assert!(!walk.visit_dir(&String::from("d"), Some(vec![String::from("bad line!")]), None, &root));
    assert!(walk.visit_dir(&String::from("d"), Some(vec![]), Some(vec![String::from("/r/d/x")]), &root));
    let (_, new, _) = walk.finish();
    assert_eq!(new, vec!["d", "d/x"]);
}

fn staged_file(state: nextsync::status::State) -> nextsync::status::LocalObj {
    nextsync::status::LocalObj {
        otype: String::from("blob"),
        name: String::from("f.txt"),
        path: String::from("d/f.txt"),
        path_from: None,
        state,
    }
}

#[test]
fn the_factory_builds_the_change_of_each_staged_file() {
    assert!(matches!(PushFactory.new(staged_file(State::New)), PushChange::New(_)));
    assert!(matches!(PushFactory.new(staged_file(State::Deleted)), PushChange::Deleted(_)));
    match PushFactory.new(staged_file(State::Modified)) {
        PushChange::Modified(m) => assert_eq!(m.obj.path, "d/f.txt"),
        _ => panic!("expected a modified file"),
    }
    assert!(matches!(PushFactory.new_dir(staged_file(State::New)), PushChange::NewDir(_)));
    assert!(matches!(PushFactory.new_dir(staged_file(State::Deleted)), PushChange::RmDir(_)));
}

#[test]
fn the_factory_picks_the_change_by_kind() {
    let mut dir = staged_file(State::New);
    dir.otype = String::from("tree");
    assert!(matches!(PushFactory.change_of(dir.duplicate()), Some(PushChange::NewDir(_))));
    dir.state = State::Modified;
    assert!(PushFactory.change_of(dir).is_none());
    assert!(matches!(PushFactory.change_of(staged_file(State::Modified)), Some(PushChange::Modified(_))));
    assert!(PushFactory.change_of(staged_file(State::Moved)).is_none());
}
