use crypto::digest::Digest;
use crypto::sha1::Sha1;
use nextsync::{config, gconfig, hash, head, index, init, tree};
use nextsync::blob::{blob_ref_content, Blob, FileMeta};
use nextsync::text::{i64_to_decimal, parse_i64, parse_u16, u64_to_decimal};

fn sha1(s: &str) -> String {
    let mut hasher = Sha1::new();
    hasher.input_str(s);
    hasher.result_str()
}

#[test]
fn a_setting_is_read_back() {
    let line = config::set("remote", "user@host/dir");
    assert_eq!(line, "remote user@host/dir");
    let lines = vec![String::from("other x"), line];
    assert_eq!(config::get(&lines, "remote"), Some(String::from("user@host/dir")));
    assert_eq!(config::get(&lines, "missing"), None);
}

#[test]
fn the_token_is_the_first_line() {
    assert_eq!(gconfig::read_token(Some(vec![String::from("tok"), String::from("x")])), Some(String::from("tok")));
    assert_eq!(gconfig::read_token(Some(vec![])), None);
    assert_eq!(gconfig::read_token(None), None);
}

#[test]
fn index_and_head_lines() {
    assert_eq!(index::path("/r"), "/r/.nextsync/index");
    assert_eq!(head::path("/r"), "/r/.nextsync/HEAD");
    let lines = vec![String::from("a"), String::from(" b "), String::from("c")];
    assert_eq!(index::rm_line(&lines, "b"), vec!["a", "c"]);
    assert_eq!(head::rm_line(&lines, "a"), vec![" b ", "c"]);
    assert!(index::alread_added(&Some(lines.clone()), String::from("c")));
    assert!(!index::alread_added(&Some(index::rm_line(&lines, "c")), String::from("c")));
    assert!(!index::alread_added(&None, String::from("c")));
}

#[test]
fn object_hash_and_paths() {
    let h = sha1("dir/file");
    let (d, r) = hash::hash_obj("dir/file");
    assert_eq!(format!("{}{}", d, r), h);
    assert_eq!(d.len(), 2);
    assert_eq!(hash::_object_path("/o", "dir/file"), format!("/o/{}/{}", d, r));
}

#[test]
fn parse_line_and_path() {
    assert_eq!(
        tree::parse_line(String::from("blob abc name")),
        Some((String::from("blob"), String::from("abc"), String::from("name")))
    );
    assert_eq!(tree::parse_line(String::from("blob abc")), None);
    let (line, h, name) = tree::parse_path("/foo/bar", false);
    assert_eq!(h, sha1("/foo/bar"));
    assert_eq!(name, "bar");
    assert_eq!(line, format!("tree {} bar", h));
}

#[test]
fn adding_a_tree_records_its_line_object_and_dates() {
    let a = tree::add("a/b", "1700000000000", true);
    assert_eq!(a.object, sha1("a/b"));
    assert_eq!(a.content, "b 1700000000000");
    assert_eq!(a.parent, Some(String::from("a")));
    assert_eq!(a.dates, vec!["a", ""]);
    let top = tree::add("c", "5", false);
    assert_eq!(top.parent, None);
    assert!(top.dates.is_empty());
}

#[test]
fn a_date_written_is_read_back() {
    for n in [0i64, 7, 1700000000000, -42, i64::MAX, i64::MIN] {
        let d = i64_to_decimal(n);
        assert_eq!(d, n.to_string());
        let a = tree::add("x/y", &d, false);
        assert!(tree::timestamp_readable(&Some(a.content.clone())));
        assert_eq!(tree::get_timestamp(Some(a.content)), Some(n));
    }
    assert_eq!(tree::get_timestamp(Some(String::from("nodate"))), None);
    assert_eq!(tree::get_timestamp(None), None);
    assert!(!tree::timestamp_readable(&Some(String::from("name abc"))));
}

#[test]
fn a_blob_object_gives_its_server_date() {
    let content = nextsync::blob::blob_ref_content(
        "f.txt",
        "1700000000000",
        5,
        1699999999,
        "5d41402abc4b2a76b9719d911017c592",
    );
    assert_eq!(content, "f.txt 1700000000000 5 1699999999 5d41402abc4b2a76b9719d911017c592 ");
    assert!(tree::timestamp_readable(&Some(content.clone())));
    assert_eq!(tree::get_timestamp(Some(content)), Some(1700000000000));
    let spaced = nextsync::blob::blob_ref_content("a b.txt", "42", 1, 2, "abc");
    assert_eq!(tree::get_timestamp(Some(spaced)), Some(42));
}

#[test]
fn numbers() {
    assert_eq!(u64_to_decimal(1234), "1234");
    assert_eq!(parse_i64("-12"), Some(-12));
    assert_eq!(parse_i64("+3"), Some(3));
    assert_eq!(parse_i64("x"), None);
    assert_eq!(parse_u16("65535"), Some(65535));
    assert_eq!(parse_u16("65536"), None);
    assert_eq!(parse_u16("2"), Some(2));
}

#[test]
fn update_date_rewrites_after_the_first_space() {
    let content = b"name 111".to_vec();
    assert_eq!(tree::update_date(&content, "222"), b"name 222".to_vec());
}

#[test]
fn removing_a_tree_sorts_blobs_and_trees() {
    let lines = vec![String::from("blob h1 a"), String::from("tree h2 b")];
    let (blobs, trees) = tree::rm(&lines).unwrap();
    assert_eq!(blobs, vec!["h1"]);
    assert_eq!(trees, vec!["h2"]);
}

#[test]
fn blob_records_and_changes() {
    let content = blob_ref_content("f", "100", 5, 50, "abc");
    assert_eq!(content, "f 100 5 50 abc ");
    let mut b = Blob::new(String::from("d/f"), "/r");
    assert_eq!(b.a_path, "/r/d/f");
    assert_eq!(b.hash, sha1("d/f"));
    let same = FileMeta { len: 5, modified_secs: 40 };
    let md5 = format!("{:x}", md5::compute(b"hello"));
    let record = blob_ref_content("f", "100", 5, 50, &md5);
    assert!(!b.has_change(Some(record.clone()), Some(same), b"hello"));
    let mut b2 = Blob::new(String::from("d/f"), "/r");
    let bigger = FileMeta { len: 6, modified_secs: 40 };
    assert!(b2.has_change(Some(record), Some(bigger), b"hello!"));
}

#[test]
fn init_layout_and_refusals() {
    let l = match init::init("/d", Some(vec![])) {
        Ok(l) => l,
        Err(_) => panic!("empty directory refused"),
    };
    assert_eq!(l.nextsync, "/d/.nextsync");
    assert_eq!(l.objects, "/d/.nextsync/objects");
    assert_eq!(l.head, "/d/.nextsync/HEAD");
    assert_eq!(l.index, "/d/.nextsync/index");
    assert_eq!(l.ignore, "/d/.nextsyncignore");
    assert!(matches!(init::init("/d", Some(vec![String::from("x")])), Err(init::InitRefusal::NotEmpty)));
    assert!(matches!(init::init("/d", None), Err(init::InitRefusal::CannotOpen)));
}

#[test]
fn recording_and_removing_a_blob() {
    let mut b = Blob::new(String::from("d/f.txt"), "/r");
    let md5 = format!("{:x}", md5::compute(b"data"));
    let c = b.create("/r/.nextsync/refs", "99", true, FileMeta { len: 4, modified_secs: 7 }, b"data");
    assert_eq!(c.parent, Some(String::from("d")));
    assert_eq!(c.line, format!("blob {} f.txt", sha1("d/f.txt")));
    assert_eq!(c.content, format!("f.txt 99 4 7 {} ", md5));
    assert_eq!(c.hash_ref, format!("/r/.nextsync/refs/{}/{}", &md5[..2], &md5[2..]));
    assert_eq!(c.ref_line, "d/f.txt");
    assert_eq!(c.dates, vec!["d", ""]);
    assert_eq!(c.object, b.obj_p);
    let top = Blob::new(String::from("g"), "/r");
    let rm = top.rm();
    assert_eq!(rm.parent, None);
    assert_eq!(rm.line, format!("blob {} g", sha1("g")));
}

#[test]
fn removing_a_node_from_a_tree_object() {
    let lines = vec![String::from("blob h1 a"), String::from("blob h2 b")];
    let (obj_p, kept) = tree::rm_node("/o", "d", &lines, "blob h1 a");
    let h = sha1("d");
    assert_eq!(obj_p, format!("/o/{}/{}", &h[..2], &h[2..]));
    assert_eq!(kept, vec!["blob h2 b"]);
}

#[test]
fn blob_comparisons() {
    let md5 = format!("{:x}", md5::compute(b"abc"));
    let record = blob_ref_content("f", "1", 3, 100, &md5);
    let mut b = Blob::new(String::from("f"), "/r");
    b.read_data(Some(record));
    assert!(b.has_same_size(&Some(FileMeta { len: 3, modified_secs: 0 })));
    assert!(!b.has_same_size(&Some(FileMeta { len: 4, modified_secs: 0 })));
    assert!(b.is_newer(&Some(FileMeta { len: 3, modified_secs: 101 })));
    assert!(!b.is_newer(&Some(FileMeta { len: 3, modified_secs: 100 })));
    assert!(b.has_same_hash(b"abc"));
    let mut c = Blob::new(String::from("f"), "/r");
    c.read_data(Some(blob_ref_content("f", "1", 3, 100, &md5)));
    assert!(!c.has_same_hash(b"abd"));
}

#[test]
fn settings_that_cannot_be_read() {
    let lines = vec![String::from("remote")];
    assert!(!config::readable(&lines, "remote"));
    assert!(config::readable(&lines, "other"));
    assert!(config::readable(&vec![String::from("remote x")], "remote"));
}

#[test]
fn object_formats() {
    let record = blob_ref_content("file_name", "1700", 12, 1600, "0123456789abcdef0123456789abcdef");
    let fields: Vec<&str> = record.split(' ').collect();
    assert_eq!(fields, vec!["file_name", "1700", "12", "1600", "0123456789abcdef0123456789abcdef", ""]);
    let t = tree::add("dir/folder_name", "1700", false);
    assert_eq!(t.content, "folder_name 1700");
    assert_eq!(t.line, format!("tree {} folder_name", sha1("dir/folder_name")));
}

#[test]
fn a_file_recorded_and_untouched_is_unchanged() {
    let mut b = Blob::new(String::from("a.txt"), "/r");
    let bytes = b"content";
    let meta = FileMeta { len: 7, modified_secs: 1234 };
    let c = b.create("/r/.nextsync/refs", "99", false, meta, bytes);
    let mut again = Blob::new(String::from("a.txt"), "/r");
    assert!(again.can_compare(Some(c.content.clone()), Some(meta)));
    assert!(!again.has_change(Some(c.content), Some(meta), bytes));
}

#[test]
fn an_object_line_reads_back() {
    let (line, hash, name) = tree::parse_path("d/f.txt", true);
    assert_eq!(hash, sha1("d/f.txt"));
    assert_eq!(name, "f.txt");
    assert_eq!(tree::parse_line(line), Some((String::from("blob"), sha1("d/f.txt"), String::from("f.txt"))));
    let (line, _, _) = tree::parse_path("d/sub", false);
    assert_eq!(tree::parse_line(line), Some((String::from("tree"), sha1("d/sub"), String::from("sub"))));
    assert_eq!(tree::parse_line(String::from("tree abc")), None);
}

#[test]
fn a_saved_token_reads_back() {
    let text = gconfig::token_text("tok123");
    assert_eq!(text, "tok123\n");
    let older = "a-longer-older-token\n";
    let file: String = format!("{}{}", text, &older[text.len()..]);
    let lines: Vec<String> = file.lines().map(String::from).collect();
    assert_eq!(gconfig::read_token(Some(lines)), Some(String::from("tok123")));
}

#[test]
fn files_with_the_same_content_share_a_reference_file() {
    let mut first = Blob::new(String::from("a.txt"), "/r");
    let mut second = Blob::new(String::from("d/b.txt"), "/r");
    let c = first.create("/r/.nextsync/refs", "1", false, FileMeta { len: 4, modified_secs: 7 }, b"same");
    let shared = second.get_file_ref("/r/.nextsync/refs", b"same");
    assert_eq!(c.hash_ref, shared);
    let file = format!("{}\n", c.ref_line);
    let lines: Vec<String> = file.lines().map(String::from).collect();
    let found = second.get_all_identical_blobs(Some(lines));
    assert_eq!(found, vec!["a.txt"]);
    assert_eq!(second.get_all_identical_blobs(None), Vec::<String>::new());
}
