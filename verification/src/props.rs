//! Properties of remote files, read from the XML answers of the server.

use vstd::prelude::*;
use vstd::string::*;
use crate::text::{chars_of, substring, str_eq, trim_str, occurs_at_exec};

verus! {

/// Host, user name and directory of a remote.
pub struct ApiProps {
    pub host: String,
    pub username: String,
    pub root: String,
}

impl ApiProps {
    /// A copy of the properties.
    pub fn duplicate(&self) -> (r: ApiProps)
        ensures
            r == *self,
    {
        ApiProps { host: self.host.clone(), username: self.username.clone(), root: self.root.clone() }
    }
}

/// Properties of a remote object: its address, its path relative to the
/// synchronised directory, its last modification (milliseconds since the
/// epoch) and its size.
pub struct ObjProps {
    pub href: Option<String>,
    pub relative_s: Option<String>,
    pub lastmodified: Option<i64>,
    pub contentlength: Option<u64>,
}

impl ObjProps {
    /// Properties with nothing known.
    pub fn new() -> (r: ObjProps)
        ensures
            r == empty_props(),
    {
        ObjProps { href: None, relative_s: None, lastmodified: None, contentlength: None }
    }

    /// A copy of the properties.
    pub fn duplicate(&self) -> (r: ObjProps)
        ensures
            r == *self,
    {
        ObjProps {
            href: match &self.href {
                Some(h) => Some(h.clone()),
                None => None,
            },
            relative_s: match &self.relative_s {
                Some(h) => Some(h.clone()),
                None => None,
            },
            lastmodified: self.lastmodified,
            contentlength: self.contentlength,
        }
    }

    /// Whether the object is a directory: its address ends with `/`.
    pub fn is_dir(&self) -> (r: bool)
        ensures
            r == (self.href matches Some(h) && crate::text::ends_with(h@, seq!['/'])),
    {
        match &self.href {
            None => false,
            Some(h) => {
                let cs = chars_of(h.as_str());
                let n = cs.len();
                proof {
                    if n > 0 {
                        let t = h@.subrange(n - 1, n as int);
                        assert(t =~= seq![cs@.last()]);
                        if cs@.last() != '/' {
                            assert(t[0] != seq!['/'][0]);
                        }
                    }
                }
                n > 0 && cs[n - 1] == '/'
            },
        }
    }
}

/// Properties with nothing known.
pub open spec fn empty_props() -> ObjProps {
    ObjProps { href: None, relative_s: None, lastmodified: None, contentlength: None }
}

/// The characters of an optional string.
pub open spec fn opt_view(o: Option<String>) -> Option<Seq<char>> {
    match o {
        Some(s) => Some(s@),
        None => None,
    }
}

/// Properties of a remote object, its strings taken by their characters.
pub struct PropsView {
    pub href: Option<Seq<char>>,
    pub relative_s: Option<Seq<char>>,
    pub lastmodified: Option<i64>,
    pub contentlength: Option<u64>,
}

impl View for ObjProps {
    type V = PropsView;

    open spec fn view(&self) -> PropsView {
        PropsView {
            href: opt_view(self.href),
            relative_s: opt_view(self.relative_s),
            lastmodified: self.lastmodified,
            contentlength: self.contentlength,
        }
    }
}

/// Nothing known, by characters.
pub open spec fn empty_view() -> PropsView {
    PropsView { href: None, relative_s: None, lastmodified: None, contentlength: None }
}

/// Address and relative path of an entry of a directory listing.
pub struct FolderContent {
    pub href: Option<String>,
    pub relative_s: Option<String>,
}

impl FolderContent {
    /// An entry with nothing known.
    pub fn new() -> (r: FolderContent)
        ensures
            r.href is None && r.relative_s is None,
    {
        FolderContent { href: None, relative_s: None }
    }
}

/// The path of a remote address relative to the synchronised directory: the
/// address without `/remote.php/dav/files/`, the user name, the root and one
/// `/`, in this order; `None` when one of them is missing.
pub open spec fn relative_of(p: Seq<char>, api: ApiProps) -> Option<Seq<char>> {
    let a = "/remote.php/dav/files/"@;
    if !crate::text::starts_with(p, a) {
        None
    } else {
        let p1 = p.subrange(a.len() as int, p.len() as int);
        if !crate::text::starts_with(p1, api.username@) {
            None
        } else {
            let p2 = p1.subrange(api.username@.len() as int, p1.len() as int);
            if !crate::text::starts_with(p2, api.root@) {
                None
            } else {
                let p3 = p2.subrange(api.root@.len() as int, p2.len() as int);
                if !crate::text::starts_with(p3, seq!['/']) {
                    None
                } else {
                    Some(p3.subrange(1, p3.len() as int))
                }
            }
        }
    }
}

/// `s` without the prefix `prefix`, or `None` when `s` does not start with it.
pub(crate) fn strip_prefix_str(s: &str, prefix: &str) -> (r: Option<String>)
    ensures
        crate::text::starts_with(s@, prefix@) ==> (r matches Some(t) && t@ == s@.subrange(
            prefix@.len() as int,
            s@.len() as int,
        )),
        !crate::text::starts_with(s@, prefix@) ==> r is None,
{
    let sc = chars_of(s);
    let pc = chars_of(prefix);
    if occurs_at_exec(&sc, &pc, 0) {
        Some(substring(s, pc.len(), sc.len()))
    } else {
        None
    }
}

/// The relative path of a remote address (see `relative_of`).
pub fn try_relative_s(p: &str, api_props: &ApiProps) -> (r: Option<String>)
    ensures
        match relative_of(p@, *api_props) {
            None => r is None,
            Some(q) => r matches Some(s) && s@ == q,
        },
{
    proof {
        reveal_strlit("/remote.php/dav/files/");
        reveal_strlit("/");
        assert("/"@ =~= seq!['/']);
    }
    let p1 = match strip_prefix_str(p, "/remote.php/dav/files/") {
        Some(x) => x,
        None => return None,
    };
    let p2 = match strip_prefix_str(p1.as_str(), api_props.username.as_str()) {
        Some(x) => x,
        None => return None,
    };
    let p3 = match strip_prefix_str(p2.as_str(), api_props.root.as_str()) {
        Some(x) => x,
        None => return None,
    };
    strip_prefix_str(p3.as_str(), "/")
}

/// The relative path of a remote address that starts with the directory of
/// the remote (see `relative_of`).
pub fn get_relative_s(p: String, api_props: &ApiProps) -> (r: String)
    requires
        relative_of(p@, *api_props) is Some,
    ensures
        r@ == relative_of(p@, *api_props)->Some_0,
{
    match try_relative_s(p.as_str(), api_props) {
        Some(s) => s,
        None => String::new(),
    }
}

/// The last modification date, in milliseconds since the epoch, that the
/// date `text` (written `%a, %d %b %Y %H:%M:%S %Z`) stands for, when it can be read.
pub uninterp spec fn http_date_millis(text: Seq<char>) -> Option<i64>;

/// Reads a date of the server with `chrono` (`Utc.datetime_from_str` with the
/// format `%a, %d %b %Y %H:%M:%S %Z`, then `timestamp_millis`). Claimed: the
/// result is the (named) reading of `timestamp`, `None` when chrono refuses it.
#[verifier::external_body]
pub fn parse_timestamp(timestamp: &str) -> (r: Option<i64>)
    ensures
        r == http_date_millis(timestamp@),
{
    #[allow(deprecated)]
    let parsed = chrono::TimeZone::datetime_from_str(&chrono::Utc, timestamp, "%a, %d %b %Y %H:%M:%S %Z");
    parsed.ok().map(|d| d.timestamp_millis())
}

/// An event of an XML document, as the parser reports it: an element starts
/// (with its local name), text, an element ends, an error, or anything else.
pub enum XmlItem {
    Start(String),
    Text(String),
    End,
    Failed,
    Other,
}

/// The events of the XML document `xml`, in order.
pub uninterp spec fn xml_events(xml: Seq<char>) -> Seq<XmlItem>;

/// Reads `xml` with `xml::reader::EventReader` and lists its events (start of
/// an element with its local name, characters, end of an element, an error,
/// anything else). Claimed: the result is the (named) event list of `xml`.
#[verifier::external_body]
pub(crate) fn read_xml_events(xml: &str) -> (r: Vec<XmlItem>)
    ensures
        r@ == xml_events(xml@),
{
    xml::reader::EventReader::from_str(xml).into_iter().map(|e| match e {
        Ok(xml::reader::XmlEvent::StartElement { name, .. }) => XmlItem::Start(name.local_name),
        Ok(xml::reader::XmlEvent::Characters(text)) => XmlItem::Text(text),
        Ok(xml::reader::XmlEvent::EndElement { .. }) => XmlItem::End,
        Err(_) => XmlItem::Failed,
        Ok(_) => XmlItem::Other,
    }).collect()
}

/// The state of the reading of a properties answer.
pub struct PropsState {
    /// whether the next text is the value of the property expected
    pub should_get: bool,
    /// the property expected next (an index into the requested properties)
    pub next: nat,
    /// objects read so far
    pub values: Seq<PropsView>,
    /// the object being read
    pub content: PropsView,
    /// the reading stopped
    pub done: bool,
    /// a value could not be read (the address, the date or the size)
    pub failed: bool,
}

/// Reads one event. A start tag tells whether the next text is the property
/// expected; once every requested property is read, the next start tag closes
/// the object (or stops the reading when a single object is wanted). A
/// non-blank text read while expected gives the property (an `href` also its
/// relative path; with `details`, a `getlastmodified` its date and a
/// `getcontentlength` its size) and moves to the next one. An end tag ends the
/// expectation; an error stops the reading.
pub open spec fn props_step(
    st: PropsState,
    ev: XmlItem,
    balises: Seq<Seq<char>>,
    multiple: bool,
    details: bool,
    api: ApiProps,
) -> PropsState {
    if st.done || st.failed {
        st
    } else {
        match ev {
            XmlItem::Start(name) => if st.next < balises.len() {
                PropsState { should_get: name@ == balises[st.next as int], ..st }
            } else if multiple {
                PropsState {
                    values: st.values.push(st.content),
                    next: 0,
                    content: empty_view(),
                    should_get: if balises.len() > 0 {
                        name@ == balises[0]
                    } else {
                        st.should_get
                    },
                    ..st
                }
            } else {
                PropsState { done: true, ..st }
            },
            XmlItem::Text(text) => if crate::text::trim(text@).len() > 0 && st.should_get {
                if st.next >= balises.len() {
                    // the value of a property past the last one requested
                    PropsState { failed: true, ..st }
                } else {
                let v = balises[st.next as int];
                if v == "href"@ {
                    match relative_of(text@, api) {
                        None => PropsState { failed: true, ..st },
                        Some(rel) => PropsState {
                            content: PropsView {
                                href: Some(text@),
                                relative_s: Some(rel),
                                ..st.content
                            },
                            next: st.next + 1,
                            ..st
                        },
                    }
                } else if v == "getlastmodified"@ && details {
                    match http_date_millis(text@) {
                        None => PropsState { failed: true, ..st },
                        Some(t) => PropsState {
                            content: PropsView { lastmodified: Some(t), ..st.content },
                            next: st.next + 1,
                            ..st
                        },
                    }
                } else if v == "getcontentlength"@ && details {
                    match crate::text::parse_u64_spec(text@) {
                        None => PropsState { failed: true, ..st },
                        Some(n) => PropsState {
                            content: PropsView { contentlength: Some(n), ..st.content },
                            next: st.next + 1,
                            ..st
                        },
                    }
                } else {
                    PropsState { next: st.next + 1, ..st }
                }
                }
            } else {
                st
            },
            XmlItem::End => PropsState { should_get: false, ..st },
            XmlItem::Failed => PropsState { done: true, ..st },
            XmlItem::Other => st,
        }
    }
}



/// Before any event.
pub open spec fn props_init() -> PropsState {
    PropsState {
        should_get: false,
        next: 0,
        values: Seq::empty(),
        content: empty_view(),
        done: false,
        failed: false,
    }
}

/// The events read in order.
pub open spec fn props_fold(
    events: Seq<XmlItem>,
    balises: Seq<Seq<char>>,
    multiple: bool,
    details: bool,
    api: ApiProps,
) -> PropsState
    decreases events.len(),
{
    if events.len() == 0 {
        props_init()
    } else {
        props_step(
            props_fold(events.drop_last(), balises, multiple, details, api),
            events.last(),
            balises,
            multiple,
            details,
            api,
        )
    }
}

/// The objects read, or `None` when a value could not be read.
pub open spec fn props_result(st: PropsState) -> Option<Seq<PropsView>> {
    if st.failed {
        None
    } else {
        Some(st.values)
    }
}

/// The views of a list of properties.
pub open spec fn props_views(v: Seq<ObjProps>) -> Seq<PropsView> {
    v.map_values(|o: ObjProps| o@)
}

/// Reads the objects of a properties answer from its events (see
/// `props_step`), the requested properties being `balises`; with `multiple`
/// every object is read, else only the first. `None` when an address, a date or a size
/// cannot be read.
pub fn parse_props(events: &Vec<XmlItem>, balises: &Vec<String>, multiple: bool, api: &ApiProps) -> (r: Option<Vec<ObjProps>>)
    ensures
        match props_result(props_fold(events@, crate::paths::views(balises@), multiple, true, *api)) {
            None => r is None,
            Some(vs) => r matches Some(v) && props_views(v@) == vs,
        },
{
    parse_events(events, balises, multiple, true, api)
}

fn parse_events(
    events: &Vec<XmlItem>,
    balises: &Vec<String>,
    multiple: bool,
    details: bool,
    api: &ApiProps,
) -> (r: Option<Vec<ObjProps>>)
    ensures
        match props_result(props_fold(events@, crate::paths::views(balises@), multiple, details, *api)) {
            None => r is None,
            Some(vs) => r matches Some(v) && props_views(v@) == vs,
        },
{
    proof {
        reveal_strlit("href");
        reveal_strlit("getlastmodified");
        reveal_strlit("getcontentlength");
    }
    let ghost bs = crate::paths::views(balises@);
    let mut should_get = false;
    let mut next: usize = 0;
    let mut values: Vec<ObjProps> = Vec::new();
    let mut content = ObjProps::new();
    let mut done = false;
    let mut failed = false;
    let mut i: usize = 0;
    assert(props_views(values@) =~= Seq::<PropsView>::empty());
    while i < events.len()
        invariant
            bs == crate::paths::views(balises@),
            i <= events@.len(),
            next <= balises@.len(),
            props_fold(events@.subrange(0, i as int), bs, multiple, details, *api) == (PropsState {
                should_get,
                next: next as nat,
                values: props_views(values@),
                content: content@,
                done,
                failed,
            }),
        decreases events@.len() - i,
    {
        assert(events@.subrange(0, i + 1).drop_last() =~= events@.subrange(0, i as int));
        assert(events@.subrange(0, i + 1).last() == events@[i as int]);
        if !done && !failed {
            match &events[i] {
                XmlItem::Start(name) => {
                    if next < balises.len() {
                        assert(bs[next as int] == balises@[next as int]@);
                        should_get = str_eq(name.as_str(), balises[next].as_str());
                    } else if multiple {
                        let ghost before = values@;
                        values.push(content);
                        assert(props_views(values@) =~= props_views(before).push(content@));
                        next = 0;
                        content = ObjProps::new();
                        if balises.len() > 0 {
                            assert(bs[0] == balises@[0]@);
                            should_get = str_eq(name.as_str(), balises[0].as_str());
                        }
                    } else {
                        done = true;
                    }
                },
                XmlItem::Text(text) => {
                    let t = trim_str(text.as_str());
                    if t.unicode_len() > 0 && should_get {
                        if next >= balises.len() {
                            failed = true;
                        } else {
                            assert(bs[next as int] == balises@[next as int]@);
                            let v = &balises[next];
                            if str_eq(v.as_str(), "href") {
                                match try_relative_s(text.as_str(), api) {
                                    None => {
                                        failed = true;
                                    },
                                    Some(rel) => {
                                        content.href = Some(text.clone());
                                        content.relative_s = Some(rel);
                                        next = next + 1;
                                    },
                                }
                            } else if details && str_eq(v.as_str(), "getlastmodified") {
                                match parse_timestamp(text.as_str()) {
                                    None => {
                                        failed = true;
                                    },
                                    Some(ts) => {
                                        content.lastmodified = Some(ts);
                                        next = next + 1;
                                    },
                                }
                            } else if details && str_eq(v.as_str(), "getcontentlength") {
                                match crate::text::parse_u64(text.as_str()) {
                                    None => {
                                        failed = true;
                                    },
                                    Some(n) => {
                                        content.contentlength = Some(n);
                                        next = next + 1;
                                    },
                                }
                            } else {
                                next = next + 1;
                            }
                        }
                    }
                },
                XmlItem::End => {
                    should_get = false;
                },
                XmlItem::Failed => {
                    done = true;
                },
                XmlItem::Other => {},
            }
        }
        i = i + 1;
    }
    assert(events@.subrange(0, events@.len() as int) =~= events@);
    if failed {
        None
    } else {
        Some(values)
    }
}

/// Reads the objects of a properties answer (the XML `body`), see `parse_props`.
pub fn parse_props_answer(body: &str, balises: &Vec<String>, multiple: bool, api: &ApiProps) -> (r: Option<Vec<ObjProps>>)
    ensures
        match props_result(props_fold(xml_events(body@), crate::paths::views(balises@), multiple, true, *api)) {
            None => r is None,
            Some(vs) => r matches Some(v) && props_views(v@) == vs,
        },
{
    let events = read_xml_events(body);
    parse_props(&events, balises, multiple, api)
}


/// Whether the directory entries `v` are the objects `vs` (address and relative path).
pub open spec fn folders_match(v: Seq<FolderContent>, vs: Seq<PropsView>) -> bool {
    &&& v.len() == vs.len()
    &&& forall|i: int|
        0 <= i < v.len() ==> opt_view((#[trigger] v[i]).href) == vs[i].href && opt_view(v[i].relative_s)
            == vs[i].relative_s
}

/// Reads the entries of a directory listing (the XML `xml`): every object is
/// read as `props_step` says, no date being read, the requested properties
/// being `balises`. `None` when an address cannot be read.
pub fn parse_folder_listing(xml: &str, balises: &Vec<String>, api: &ApiProps) -> (r: Option<Vec<FolderContent>>)
    ensures
        match props_result(props_fold(xml_events(xml@), crate::paths::views(balises@), true, false, *api)) {
            None => r is None,
            Some(vs) => r matches Some(v) && folders_match(v@, vs),
        },
{
    let events = read_xml_events(xml);
    let objs = match parse_events(&events, balises, true, false, api) {
        Some(o) => o,
        None => return None,
    };
    let mut out: Vec<FolderContent> = Vec::new();
    let mut i: usize = 0;
    while i < objs.len()
        invariant
            i <= objs@.len(),
            folders_match(out@, props_views(objs@.subrange(0, i as int))),
        decreases objs@.len() - i,
    {
        let o = &objs[i];
        let e = FolderContent {
            href: match &o.href {
                Some(h) => Some(h.clone()),
                None => None,
            },
            relative_s: match &o.relative_s {
                Some(h) => Some(h.clone()),
                None => None,
            },
        };
        out.push(e);
        assert(props_views(objs@.subrange(0, i + 1)) =~= props_views(objs@.subrange(0, i as int)).push(o@));
        i = i + 1;
    }
    assert(objs@.subrange(0, objs@.len() as int) =~= objs@);
    Some(out)
}

/// The application password in a login answer: the first non-blank text
/// inside an `apppassword` element (an element that starts elsewhere ends the
/// search inside it); empty when there is none or the document is broken.
pub open spec fn app_password(events: Seq<XmlItem>, should_get: bool) -> Seq<char>
    decreases events.len(),
{
    if events.len() == 0 {
        Seq::empty()
    } else {
        match events[0] {
            XmlItem::Start(name) => app_password(events.drop_first(), name@ == "apppassword"@),
            XmlItem::Text(text) => if crate::text::trim(text@).len() > 0 && should_get {
                text@
            } else {
                app_password(events.drop_first(), should_get)
            },
            XmlItem::Failed => Seq::empty(),
            _ => app_password(events.drop_first(), should_get),
        }
    }
}

/// Reads the application password of a login answer (see `app_password`).
pub fn parse_app_password(events: &Vec<XmlItem>) -> (r: String)
    ensures
        r@ == app_password(events@, false),
{
    proof {
        reveal_strlit("apppassword");
    }
    let mut should_get = false;
    let mut i: usize = 0;
    assert(events@.subrange(0, events@.len() as int) =~= events@);
    while i < events.len()
        invariant
            i <= events@.len(),
            app_password(events@, false) == app_password(
                events@.subrange(i as int, events@.len() as int),
                should_get,
            ),
        decreases events@.len() - i,
    {
        let ghost rest = events@.subrange(i as int, events@.len() as int);
        assert(rest[0] == events@[i as int]);
        assert(rest.drop_first() =~= events@.subrange(i + 1, events@.len() as int));
        match &events[i] {
            XmlItem::Start(name) => {
                should_get = str_eq(name.as_str(), "apppassword");
            },
            XmlItem::Text(text) => {
                let t = trim_str(text.as_str());
                if t.unicode_len() > 0 && should_get {
                    return text.clone();
                }
            },
            XmlItem::Failed => {
                return String::new();
            },
            _ => {},
        }
        i = i + 1;
    }
    String::new()
}

/// The application password of a login answer (the XML `body`, see `app_password`).
pub fn parse_login_answer(body: &str) -> (r: String)
    ensures
        r@ == app_password(xml_events(body@), false),
{
    let events = read_xml_events(body);
    parse_app_password(&events)
}

} // verus!
