use nextsync::api::{get_api_props, remote_url, request_url, ReqProps};
use nextsync::remote::{get_deleted, remote_diff};
use nextsync::add::{add_target, added_paths, index_lines, AddTarget, FolderWalk};
use nextsync::clone::{clone_dest_name, remote_config, CloneAction, CloneWalk};
use nextsync::downloader::{should_use_stream, Downloader, SIZE_TO_STREAM};
use nextsync::props::{
    get_relative_s, parse_folder_listing, parse_props_answer, parse_timestamp, try_relative_s,
    ApiProps, ObjProps,
};
use nextsync::remote::{calc_depth_string, iter_with_skip_fct, iter_without_skip_fct, EnumerateOptions, RemoteWalk};
use nextsync::request_manager::RequestManager;
use nextsync::status::{LocalObj, State};

fn api() -> ApiProps {
    ApiProps {
        host: String::from("https://cloud.example.com"),
        username: String::from("user"),
        root: String::from("/root"),
    }
}

fn remote_obj(rel: &str, dir: bool) -> ObjProps {
    let mut o = ObjProps::new();
    let href = if dir {
        format!("/remote.php/dav/files/user/root/{}/", rel)
    } else {
        format!("/remote.php/dav/files/user/root/{}", rel)
    };
    o.href = Some(href);
    o.relative_s = Some(String::from(rel));
    o.lastmodified = Some(1000);
    o.contentlength = Some(10);
    o
}

const ANSWER: &str = "<?xml version=\"1.0\"?>\
<d:multistatus xmlns:d=\"DAV:\">\
<d:response><d:href>/remote.php/dav/files/user/root/</d:href>\
<d:propstat><d:prop><d:getlastmodified>Mon, 01 Jan 2024 00:00:00 GMT</d:getlastmodified></d:prop>\
<d:status>HTTP/1.1 200 OK</d:status></d:propstat></d:response>\
<d:response><d:href>/remote.php/dav/files/user/root/a.txt</d:href>\
<d:propstat><d:prop><d:getlastmodified>Tue, 02 Jan 2024 00:00:00 GMT</d:getlastmodified></d:prop>\
<d:status>HTTP/1.1 200 OK</d:status></d:propstat></d:response>\
</d:multistatus>";

#[test]
fn relative_paths_of_remote_addresses() {
    assert_eq!(try_relative_s("/remote.php/dav/files/user/root/a/b", &api()), Some(String::from("a/b")));
    assert_eq!(try_relative_s("/remote.php/dav/files/other/root/a", &api()), None);
    assert_eq!(get_relative_s(String::from("/remote.php/dav/files/user/root/"), &api()), "");
}

#[test]
fn server_dates_are_read_in_milliseconds() {
    assert_eq!(parse_timestamp("Mon, 01 Jan 2024 00:00:00 GMT"), Some(1704067200000));
    assert_eq!(parse_timestamp("not a date"), None);
}

#[test]
fn a_properties_answer_gives_its_objects() {
    let balises = vec![String::from("href"), String::from("getlastmodified")];
    let objs = parse_props_answer(ANSWER, &balises, true, &api()).unwrap();
    assert_eq!(objs.len(), 2);
    assert_eq!(objs[0].relative_s, Some(String::from("")));
    assert_eq!(objs[1].relative_s, Some(String::from("a.txt")));
    assert_eq!(objs[1].lastmodified, Some(1704153600000));
    let single = parse_props_answer(ANSWER, &balises, false, &api()).unwrap();
    assert!(single.is_empty());
}

#[test]
fn a_listing_gives_its_entries() {
    let balises = vec![String::from("href")];
    let entries = parse_folder_listing(ANSWER, &balises, &api()).unwrap();
    assert_eq!(entries.len(), 2);
    assert_eq!(entries[0].relative_s, Some(String::from("")));
    assert_eq!(entries[1].relative_s, Some(String::from("a.txt")));
}

#[test]
fn an_address_outside_the_remote_fails_the_reading() {
    let answer = "<d:multistatus xmlns:d=\"DAV:\"><d:href>/elsewhere/x</d:href></d:multistatus>";
    let balises = vec![String::from("href")];
    assert!(parse_props_answer(answer, &balises, true, &api()).is_none());
}

#[test]
fn depth_counts_the_pieces() {
    assert_eq!(calc_depth_string(String::from("a/b/c")), 3);
    assert_eq!(calc_depth_string(String::from("")), 1);
}

#[test]
fn listing_without_skip_sorts_files_and_folders() {
    let objs = vec![remote_obj("top", true), remote_obj("top/sub", true), remote_obj("top/f", false)];
    let (mut files, mut folders, mut all) = (vec![], vec![], vec![]);
    assert!(iter_without_skip_fct(objs, 1, &mut files, &mut folders, &mut all));
    assert_eq!(files.len(), 1);
    assert_eq!(folders.len(), 1);
    assert_eq!(all.len(), 1);
    assert_eq!(folders[0].relative_s, Some(String::from("top/sub")));
}

#[test]
fn listing_with_skip_passes_over_skipped_folders() {
    let objs = vec![
        remote_obj("top", true),
        remote_obj("top/skip", true),
        remote_obj("top/skip/inner", false),
        remote_obj("top/keep", false),
    ];
    let skips = vec![false, true, false, false];
    let (mut files, mut folders, mut all) = (vec![], vec![], vec![]);
    let mut children: Vec<(String, Vec<String>)> = vec![(String::from("top"), vec![])];
    assert!(iter_with_skip_fct(objs, 1, &mut files, &mut folders, &skips, &mut children, &mut all));
    let names: Vec<String> = files.iter().map(|f| f.relative_s.clone().unwrap()).collect();
    assert_eq!(names, vec!["top/keep"]);
    assert!(folders.is_empty());
    assert_eq!(children[0].1, vec!["top/skip", "top/keep"]);
}

#[test]
fn objects_below_a_skipped_folder_are_never_asked_about() {
    let options = EnumerateOptions { depth: Some(String::from("1")), relative_s: Some(String::from("top")) };
    let mut walk = RemoteWalk::new(options, true).unwrap();
    let _ = walk.next_folder();
    let listing = vec![
        remote_obj("top", true),
        remote_obj("top/skip", true),
        remote_obj("top/skip/inner", false),
        remote_obj("top/skip/deeper", true),
        remote_obj("top/keep", false),
    ];
    assert!(walk.begin_listing(listing));
    let mut asked: Vec<String> = vec![];
    while let Some(k) = walk.next_query() {
        let name = walk.listing[k].relative_s.clone().unwrap();
        let skip = name == "top/skip";
        asked.push(name);
        walk.answer(skip);
    }
    assert!(!walk.failed);
    assert_eq!(asked, vec!["top/skip", "top/keep"]);
    let (folders, files) = walk.finish();
    assert!(folders.is_empty());
    let names: Vec<String> = files.iter().map(|f| f.relative_s.clone().unwrap()).collect();
    assert_eq!(names, vec!["top/keep"]);
}

#[test]
fn an_undated_object_fails_the_skipping_walk() {
    let options = EnumerateOptions { depth: None, relative_s: None };
    let mut walk = RemoteWalk::new(options, true).unwrap();
    let _ = walk.next_folder();
    let mut nameless = remote_obj("x", false);
    nameless.relative_s = None;
    assert!(walk.begin_listing(vec![remote_obj("", true), nameless]));
    assert_eq!(walk.next_query(), None);
    assert!(walk.failed);
}

#[test]
fn a_folder_above_the_listed_one_fails_the_walk() {
    let objs = vec![remote_obj("a/b", true), remote_obj("c", true)];
    let (mut files, mut folders, mut all) = (vec![], vec![], vec![]);
    assert!(!iter_without_skip_fct(objs, 1, &mut files, &mut folders, &mut all));
}

#[test]
fn remote_walk_lists_folders_until_none_is_left() {
    let options = EnumerateOptions { depth: Some(String::from("1")), relative_s: Some(String::from("top")) };
    let mut walk = RemoteWalk::new(options, false).unwrap();
    assert_eq!(walk.next_folder(), Some(String::from("top")));
    let listing = vec![remote_obj("top", true), remote_obj("top/sub", true), remote_obj("top/f", false)];
    assert!(walk.take_listing(listing));
    assert_eq!(walk.next_folder(), Some(String::from("top/sub")));
    assert!(walk.take_listing(vec![remote_obj("top/sub", true)]));
    assert_eq!(walk.next_folder(), None);
    let (folders, files) = walk.finish();
    assert_eq!(folders.len(), 1);
    assert_eq!(files.len(), 1);
    assert!(RemoteWalk::new(EnumerateOptions { depth: Some(String::from("x")), relative_s: None }, true).is_none());
    let mut empty = RemoteWalk::new(EnumerateOptions { depth: None, relative_s: None }, false).unwrap();
    assert!(!empty.take_listing(vec![]));
}

#[test]
fn clone_walk_inits_the_root_then_adds_folders() {
    let mut walk = CloneWalk::new();
    let root = walk.next_folder().unwrap();
    assert_eq!(CloneWalk::request_path(&root), "");
    let listing = vec![remote_obj("", true), remote_obj("d", true), remote_obj("f", false)];
    assert!(matches!(walk.take_listing(&root, &listing), Some(CloneAction::InitRoot)));
    assert_eq!(walk.files.len(), 1);
    let d = walk.next_folder().unwrap();
    assert_eq!(CloneWalk::request_path(&d), "d");
    match walk.take_listing(&d, &vec![remote_obj("d", true)]) {
        Some(CloneAction::AddFolder { relative_s, date }) => {
            assert_eq!(relative_s, "d");
            assert_eq!(date, "1000");
        }
        _ => panic!("expected a folder to add"),
    }
    assert!(walk.next_folder().is_none());
    let mut undated = ObjProps::new();
    undated.relative_s = Some(String::from("x"));
    assert!(walk.take_listing(&undated, &vec![]).is_none());
}

#[test]
fn the_remote_setting_and_destination() {
    assert_eq!(remote_config(&api()), "user@cloud.example.com/root");
    let plain = ApiProps {
        host: String::from("http://h.example.com"),
        username: String::from("u"),
        root: String::from("/r"),
    };
    assert_eq!(remote_config(&plain), "u@h.example.com/r");
    assert_eq!(clone_dest_name("/foo/bar"), Some(String::from("bar")));
    assert_eq!(clone_dest_name("/"), Some(String::from("/")));
    assert_eq!(clone_dest_name(""), None);
}

#[test]
fn large_files_are_streamed() {
    let mut big = remote_obj("big", false);
    big.contentlength = Some(SIZE_TO_STREAM + 1);
    let mut edge = remote_obj("edge", false);
    edge.contentlength = Some(SIZE_TO_STREAM);
    assert!(should_use_stream(&big));
    assert!(!should_use_stream(&edge));
    let mut d = Downloader::new();
    d.set_files(vec![big, edge]);
    d.should_log();
    d.set_api_props(api());
    assert_eq!(d.total_size(), Some(2 * SIZE_TO_STREAM + 1));
    let plan = d.plan();
    assert!(plan[0].stream);
    assert_eq!(plan[0].bytes, None);
    assert!(!plan[1].stream);
    assert_eq!(plan[1].bytes, Some(SIZE_TO_STREAM));
    let mut huge = Downloader::new();
    let mut a = remote_obj("a", false);
    a.contentlength = Some(u64::MAX);
    huge.add_file(a);
    huge.add_file(remote_obj("b", false));
    assert_eq!(huge.total_size(), None);
}

#[test]
fn the_host_is_found_once_and_kept() {
    let mut m = RequestManager::new();
    assert_eq!(m.get_host(None), None);
    assert_eq!(m.get_host(Some(String::from("user@cloud.example.com/dir"))), Some(String::from("https://cloud.example.com")));
    assert_eq!(m.get_host(Some(String::from("other.org/x"))), Some(String::from("https://cloud.example.com")));
    m.set_host(String::from("http://h"));
    assert_eq!(m.get_host(None), Some(String::from("http://h")));
    assert_eq!(m.get_token(), None);
    m.set_token(String::from("t"));
    assert_eq!(m.get_token(), Some(String::from("t")));
    RequestManager::create_request();
}

#[test]
fn adding_paths() {
    let rules = vec![String::from(".*\\.log")];
    let mut ignored = vec![];
    let t = add_target("a.log", Some(String::from("/r")), "/r", &rules, false, &mut ignored).unwrap();
    assert!(matches!(t, AddTarget::Ignored));
    assert_eq!(ignored, vec!["a.log"]);
    let t = add_target("a.log", Some(String::from("/r")), "/r", &rules, true, &mut ignored).unwrap();
    assert!(matches!(t, AddTarget::Found(ref f) if f == "a.log"));
    let t = add_target("../x", Some(String::from("/r")), "/r", &rules, false, &mut ignored).unwrap();
    assert!(matches!(t, AddTarget::Invalid(_)));
    let bad = vec![String::from("(")];
    assert!(add_target("b", Some(String::from("/r")), "/r", &bad, false, &mut ignored).is_none());
    assert_eq!(added_paths(String::from("d"), true, true, vec![String::from("d/x")], false), Some(vec![String::from("d/x"), String::from("d")]));
    assert_eq!(added_paths(String::from("f"), false, false, vec![], true), Some(vec![String::from("f")]));
    assert_eq!(added_paths(String::from("f"), false, false, vec![], false), None);
}

#[test]
fn folder_contents_are_walked() {
    let mut w = FolderWalk::new(String::from("/r/d"));
    assert_eq!(w.next_folder(), Some(String::from("/r/d")));
    w.take_entries(vec![String::from("/r/d/e"), String::from("/r/d/f")], &vec![true, false]);
    assert_eq!(w.next_folder(), Some(String::from("/r/d/e")));
    assert_eq!(w.next_folder(), None);
    assert_eq!(w.added, vec!["/r/d/e", "/r/d/f"]);
}

#[test]
fn index_lines_are_the_paths() {
    let o = LocalObj {
        otype: String::from("blob"),
        name: String::from("n"),
        path: String::from("p/n"),
        path_from: None,
        state: State::New,
    };
    assert_eq!(index_lines(&vec![o]), vec!["p/n"]);
}

#[test]
fn request_addresses() {
    assert_eq!(
        remote_url("https://h", "user", "/root", "a/b"),
        "https://h/remote.php/dav/files/user/root/a/b"
    );
    assert_eq!(remote_url("https://h", "user", "/root", "/"), "https://h/remote.php/dav/files/user/root/");
    assert_eq!(request_url("a", &api()), "https://cloud.example.com/remote.php/dav/files//user/root/a");
    let a = get_api_props("user@cloud.example.com/root").unwrap();
    assert_eq!(a.host, "https://cloud.example.com");
    assert_eq!(a.username, "user");
    assert_eq!(a.root, "/root");
    assert!(get_api_props("cloud.example.com/root").is_none());
}

#[test]
fn a_properties_request_asks_for_what_it_reads() {
    let mut r = ReqProps::new();
    r.set_request("dir", &api());
    r.gethref();
    r.getlastmodified();
    r.getcontentlenght();
    assert_eq!(r.xml_balises, vec!["href", "getlastmodified", "getcontentlength"]);
    assert_eq!(
        r.validate_xml(),
        "<?xml version=\"1.0\" encoding=\"UTF-8\"?><d:propfind xmlns:d=\"DAV:\" xmlns:oc=\"http://owncloud.org/ns\" xmlns:nc=\"http://nextcloud.org/ns\"><d:prop><d:getlastmodified/><d:getcontentlength/></d:prop></d:propfind>"
    );
    assert_eq!(r.url(), Some(String::from("https://cloud.example.com/remote.php/dav/files//user/root/dir")));
    let mut r2 = ReqProps::new();
    r2.gethref();
    r2.getlastmodified();
    assert!(r2.parse(ANSWER, true).is_none());
    r2.set_request("", &api());
    assert_eq!(r2.parse(ANSWER, true).unwrap().len(), 2);
}

#[test]
fn locals_no_longer_listed_are_deleted() {
    let locals = vec![String::from("d/a"), String::from("d/b"), String::from("d/new"), String::from("d/sub")];
    let is_new = vec![false, false, true, false];
    let children = vec![String::from("d/a"), String::from("d/sub/")];
    assert_eq!(get_deleted(&locals, &is_new, &children), vec!["d/b"]);
}

#[test]
fn checked_folders_are_taken_out() {
    let options = EnumerateOptions { depth: None, relative_s: Some(String::from("top")) };
    let mut walk = RemoteWalk::new(options, true).unwrap();
    let _ = walk.next_folder();
    let listing = vec![remote_obj("top", true), remote_obj("top/f", false)];
    assert!(walk.begin_listing(listing));
    assert_eq!(walk.next_query(), Some(1));
    walk.answer(false);
    assert_eq!(walk.next_query(), None);
    assert!(!walk.failed);
    let checked = walk.take_checked();
    assert_eq!(checked.len(), 1);
    assert_eq!(checked[0].0, "top");
    assert_eq!(checked[0].1, vec!["top/f"]);
    assert!(walk.objs_hashmap.is_empty());
}

#[test]
fn the_pull_report() {
    let lines = remote_diff(&vec![remote_obj("d", true)], &vec![remote_obj("d/f", false)]);
    assert_eq!(lines, vec!["should pull d", "should pull d/f"]);
}

#[test]
fn the_remote_kept_by_a_clone_is_read_back() {
    let a = api();
    let kept = remote_config(&a);
    let back = get_api_props(&kept).unwrap();
    assert_eq!(back.host, a.host);
    assert_eq!(back.username, a.username);
    assert_eq!(back.root, a.root);
}

#[test]
fn every_host_read_names_its_scheme() {
    for url in ["a@b/c", "x.org/p", "http://x.org/p", "https://x/apps/?dir=/d&f", "nothing"] {
        let (host, _, _) = nextsync::url::get_url_props(url);
        assert!(host.starts_with("http://") || host.starts_with("https://"));
    }
}

#[test]
fn sizes_are_read_from_a_properties_answer() {
    let answer = "<d:multistatus xmlns:d=\"DAV:\"><d:response>\
<d:href>/remote.php/dav/files/user/root/f</d:href><d:getcontentlength>42</d:getcontentlength>\
<d:status>ok</d:status></d:response></d:multistatus>";
    let balises = vec![String::from("href"), String::from("getcontentlength")];
    let objs = parse_props_answer(answer, &balises, true, &api()).unwrap();
    assert_eq!(objs[0].contentlength, Some(42));
    let bad = answer.replace("42", "many");
    assert!(parse_props_answer(&bad, &balises, true, &api()).is_none());
}

#[test]
fn files_are_ready_when_located_and_sized() {
    use_ready();
}

fn use_ready() {
    let mut unsized_file = remote_obj("u", false);
    unsized_file.contentlength = None;
    assert!(nextsync::downloader::files_ready_check(&vec![unsized_file.duplicate()], false));
    assert!(!nextsync::downloader::files_ready_check(&vec![unsized_file], true));
    let unlocated = ObjProps::new();
    assert!(!nextsync::downloader::files_ready_check(&vec![unlocated], false));
}

#[test]
fn the_login_answer_gives_the_app_password() {
    let body = "<ocs><meta><status>ok</status></meta><data><apppassword> secret </apppassword></data></ocs>";
    assert_eq!(nextsync::props::parse_login_answer(body), " secret ");
    assert_eq!(nextsync::props::parse_login_answer("<ocs><data/></ocs>"), "");
}

#[test]
fn the_relative_path_of_a_remote_path() {
    let a = ApiProps {
        host: String::from("https://nextcloud.example.com"),
        username: String::from("grimhilt"),
        root: String::from("/dir/dir_to_clone"),
    };
    assert_eq!(
        get_relative_s(String::from("/remote.php/dav/files/grimhilt/dir/dir_to_clone/D1/D1_F1.md"), &a),
        "D1/D1_F1.md"
    );
}

#[test]
fn objects_up_to_date_are_skipped() {
    assert!(nextsync::remote::should_skip(true, Some(10), 10));
    assert!(!nextsync::remote::should_skip(true, Some(9), 10));
    assert!(!nextsync::remote::should_skip(false, Some(11), 10));
    assert!(!nextsync::remote::should_skip(true, None, 10));
}
