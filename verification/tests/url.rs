use nextsync::url::get_url_props;

fn props(url: &str) -> (String, Option<String>, String) {
    get_url_props(url)
}

fn expect(d: &str, u: Option<&str>, p: &str) -> (String, Option<String>, String) {
    (d.to_string(), u.map(|s| s.to_string()), p.to_string())
}

#[test]
fn test_get_url_props() {
    let p = "/foo/bar";
    let u = Some("user");
    let d = String::from("http://nextcloud.com");
    let sd = String::from("https://nextcloud.com");
    let sld = String::from("https://nextcloud.example.com");
    let ld = String::from("http://nextcloud.example.com");
    let _ = d;
    assert_eq!(props("user@nextcloud.com/remote.php/dav/files/user/foo/bar"), expect(&sd, u, p));
    assert_eq!(props("user@nextcloud.com/foo/bar"), expect(&sd, u, p));
    assert_eq!(props("user@nextcloud.example.com/remote.php/dav/files/user/foo/bar"), expect(&sld, u, p));
    assert_eq!(props("user@nextcloud.example.com/foo/bar"), expect(&sld, u, p));
    assert_eq!(props("https://nextcloud.example.com/apps/files/?dir=/foo/bar&fileid=166666"), expect(&sld, None, p));
    assert_eq!(props("https://nextcloud.com/apps/files/?dir=/foo/bar&fileid=166666"), expect(&sd, None, p));
    assert_eq!(props("http://nextcloud.example.com/remote.php/dav/files/user/foo/bar"), expect(&ld, u, p));
    assert_eq!(props("https://nextcloud.example.com/remote.php/dav/files/user/foo/bar"), expect(&sld, u, p));
    assert_eq!(props("http://nextcloud.example.com/remote.php/dav/files/user/foo/bar"), expect(&ld, u, p));
    assert_eq!(props("nextcloud.example.com/remote.php/dav/files/user/foo/bar"), expect(&sld, u, p));
    assert_eq!(props("https://nextcloud.example.com/foo/bar"), expect(&sld, None, p));
    assert_eq!(props("http://nextcloud.example.com/foo/bar"), expect(&ld, None, p));
    assert_eq!(props("nextcloud.example.com/foo/bar"), expect(&sld, None, p));
}

#[test]
fn url_without_any_path_gets_only_a_scheme() {
    assert_eq!(props("nextcloud.example.com"), expect("https://", None, ""));
}

#[test]
fn url_of_several_lines_is_read_from_its_last_matching_line() {
    assert_eq!(
        props("a.com/x\nb.com/remote.php/dav/files/bob/y"),
        expect("https://b.com", Some("bob"), "/y")
    );
}

#[test]
fn url_user_form_keeps_the_last_at_sign() {
    assert_eq!(props("me@x@host.org/dir"), expect("https://host.org", Some("me@x"), "/dir"));
}

#[test]
fn the_path_conventions_of_a_clone() {
    assert_eq!(
        props("https://nextcloud.example.com/remote.php/dav/files/grimhilt/dir/dir_to_clone"),
        expect("https://nextcloud.example.com", Some("grimhilt"), "/dir/dir_to_clone")
    );
}
