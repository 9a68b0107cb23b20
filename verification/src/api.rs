//! The requests to the server: their addresses, and the properties asked of
//! a remote object.

use vstd::prelude::*;
use vstd::string::*;
use crate::props::{ApiProps, ObjProps};
use crate::text::str_eq;

verus! {

/// The WebDAV address of `path` on the remote at `host`, for `username`, under
/// `root`: `<host>/remote.php/dav/files/<username><root>/<path>` (the path
/// left out when it is `/`).
pub open spec fn dav_address(host: Seq<char>, username: Seq<char>, root: Seq<char>, path: Seq<char>) -> Seq<char> {
    host + "/remote.php/dav/files/"@ + username + root + seq!['/'] + if path == seq!['/'] {
        Seq::empty()
    } else {
        path
    }
}

/// The address of `path` on the remote (see `dav_address`), as a request built
/// from the configured remote names it.
pub fn remote_url(host: &str, username: &str, root: &str, path: &str) -> (r: String)
    ensures
        r@ == dav_address(host@, username@, root@, path@),
{
    proof {
        reveal_strlit("/");
        assert("/"@ =~= seq!['/']);
    }
    let mut url = String::from_str(host);
    url.append("/remote.php/dav/files/");
    url.append(username);
    url.append(root);
    url.append("/");
    if !str_eq(path, "/") {
        url.append(path);
    }
    assert(url@ =~= dav_address(host@, username@, root@, path@));
    url
}

/// The address of `p` for a request made with the properties `api`: as
/// `dav_address`, with one more `/` before the user name.
pub fn request_url(p: &str, api: &ApiProps) -> (r: String)
    ensures
        r@ == dav_address(api.host@, seq!['/'] + api.username@, api.root@, p@),
{
    proof {
        reveal_strlit("/");
        assert("/"@ =~= seq!['/']);
    }
    let mut user = String::from_str("/");
    user.append(api.username.as_str());
    remote_url(api.host.as_str(), user.as_str(), api.root.as_str(), p)
}

/// The properties of the remote configured as `remote` (see `get_url_props`):
/// its host, user name and directory. `None` when it names no user.
pub fn get_api_props(remote: &str) -> (r: Option<ApiProps>)
    ensures
        crate::url::url_props(remote@).1 is None ==> r is None,
        crate::url::url_props(remote@).1 matches Some(u) ==> (r matches Some(a) && a.host@
            == crate::url::url_props(remote@).0 && a.username@ == u && a.root@
            == crate::url::url_props(remote@).2),
{
    let (host, username, root) = crate::url::get_url_props(remote);
    match username {
        None => None,
        Some(u) => Some(ApiProps { host, username: u, root }),
    }
}

/// A request for the properties of remote objects: the path asked (relative to
/// the remote's directory), the remote, the properties read from the answer
/// (`balises`) and the XML asking for them (`payload`).
pub struct ReqProps {
    pub path: Option<String>,
    pub api_props: Option<ApiProps>,
    pub xml_balises: Vec<String>,
    pub xml_payload: String,
}

/// The body of a properties request that asks for `payload`.
pub open spec fn propfind_body(payload: Seq<char>) -> Seq<char> {
    "<?xml version=\"1.0\" encoding=\"UTF-8\"?><d:propfind xmlns:d=\"DAV:\" xmlns:oc=\"http://owncloud.org/ns\" xmlns:nc=\"http://nextcloud.org/ns\"><d:prop>"@
        + payload + "</d:prop></d:propfind>"@
}

impl ReqProps {
    /// A request for nothing yet.
    pub fn new() -> (r: ReqProps)
        ensures
            r.path is None,
            r.api_props is None,
            r.xml_balises@.len() == 0,
            r.xml_payload@.len() == 0,
    {
        ReqProps { path: None, api_props: None, xml_balises: Vec::new(), xml_payload: String::new() }
    }

    /// Asks for the path `p` of the remote `api_props`.
    pub fn set_request(&mut self, p: &str, api_props: &ApiProps)
        ensures
            final(self).path matches Some(s) && s@ == p@,
            final(self).api_props == Some(*api_props),
            final(self).xml_balises == old(self).xml_balises,
            final(self).xml_payload == old(self).xml_payload,
    {
        self.path = Some(String::from_str(p));
        self.api_props = Some(api_props.duplicate());
    }

    fn ask(&mut self, balise: &str, xml: &str)
        ensures
            crate::paths::views(final(self).xml_balises@) == crate::paths::views(old(self).xml_balises@).push(balise@),
            final(self).xml_payload@ == old(self).xml_payload@ + xml@,
            final(self).path == old(self).path,
            final(self).api_props == old(self).api_props,
    {
        let ghost before = self.xml_balises@;
        self.xml_balises.push(String::from_str(balise));
        assert(crate::paths::views(self.xml_balises@) =~= crate::paths::views(before).push(balise@));
        self.xml_payload.append(xml);
    }

    /// Reads the address of each object (nothing is added to the body).
    pub fn gethref(&mut self)
        ensures
            crate::paths::views(final(self).xml_balises@) == crate::paths::views(old(self).xml_balises@).push("href"@),
            final(self).xml_payload == old(self).xml_payload,
            final(self).path == old(self).path,
            final(self).api_props == old(self).api_props,
    {
        let ghost before = self.xml_balises@;
        self.xml_balises.push(String::from_str("href"));
        assert(crate::paths::views(self.xml_balises@) =~= crate::paths::views(before).push("href"@));
    }

    /// Asks for and reads the last modification date.
    pub fn getlastmodified(&mut self)
        ensures
            crate::paths::views(final(self).xml_balises@) == crate::paths::views(old(self).xml_balises@).push(
                "getlastmodified"@,
            ),
            final(self).xml_payload@ == old(self).xml_payload@ + "<d:getlastmodified/>"@,
            final(self).path == old(self).path,
            final(self).api_props == old(self).api_props,
    {
        self.ask("getlastmodified", "<d:getlastmodified/>");
    }

    /// Asks for and reads the size.
    pub fn getcontentlenght(&mut self)
        ensures
            crate::paths::views(final(self).xml_balises@) == crate::paths::views(old(self).xml_balises@).push(
                "getcontentlength"@,
            ),
            final(self).xml_payload@ == old(self).xml_payload@ + "<d:getcontentlength/>"@,
            final(self).path == old(self).path,
            final(self).api_props == old(self).api_props,
    {
        self.ask("getcontentlength", "<d:getcontentlength/>");
    }

    /// Asks for and reads the content type.
    pub fn _getcontenttype(&mut self)
        ensures
            crate::paths::views(final(self).xml_balises@) == crate::paths::views(old(self).xml_balises@).push(
                "getcontenttype"@,
            ),
            final(self).xml_payload@ == old(self).xml_payload@ + "<d:getcontenttype/>"@,
            final(self).path == old(self).path,
            final(self).api_props == old(self).api_props,
    {
        self.ask("getcontenttype", "<d:getcontenttype/>");
    }

    /// Asks for and reads the permissions.
    pub fn _getpermissions(&mut self)
        ensures
            crate::paths::views(final(self).xml_balises@) == crate::paths::views(old(self).xml_balises@).push(
                "permissions"@,
            ),
            final(self).xml_payload@ == old(self).xml_payload@ + "<oc:permissions/>"@,
            final(self).path == old(self).path,
            final(self).api_props == old(self).api_props,
    {
        self.ask("permissions", "<oc:permissions/>");
    }

    /// Asks for and reads the resource type.
    pub fn _getressourcetype(&mut self)
        ensures
            crate::paths::views(final(self).xml_balises@) == crate::paths::views(old(self).xml_balises@).push(
                "resourcetype"@,
            ),
            final(self).xml_payload@ == old(self).xml_payload@ + "<d:resourcetype/>"@,
            final(self).path == old(self).path,
            final(self).api_props == old(self).api_props,
    {
        self.ask("resourcetype", "<d:resourcetype/>");
    }

    /// Asks for and reads the entity tag.
    pub fn _getetag(&mut self)
        ensures
            crate::paths::views(final(self).xml_balises@) == crate::paths::views(old(self).xml_balises@).push(
                "getetag"@,
            ),
            final(self).xml_payload@ == old(self).xml_payload@ + "<d:getetag/>"@,
            final(self).path == old(self).path,
            final(self).api_props == old(self).api_props,
    {
        self.ask("getetag", "<d:getetag/>");
    }

    /// The body of the request (see `propfind_body`).
    pub fn validate_xml(&self) -> (r: String)
        ensures
            r@ == propfind_body(self.xml_payload@),
    {
        let mut xml = String::from_str(
            "<?xml version=\"1.0\" encoding=\"UTF-8\"?><d:propfind xmlns:d=\"DAV:\" xmlns:oc=\"http://owncloud.org/ns\" xmlns:nc=\"http://nextcloud.org/ns\"><d:prop>",
        );
        xml.append(self.xml_payload.as_str());
        xml.append("</d:prop></d:propfind>");
        xml
    }

    /// The address the request goes to (see `request_url`).
    pub fn url(&self) -> (r: Option<String>)
        ensures
            match (self.path, self.api_props) {
                (Some(p), Some(a)) => r matches Some(u) && u@ == dav_address(
                    a.host@,
                    seq!['/'] + a.username@,
                    a.root@,
                    p@,
                ),
                _ => r is None,
            },
    {
        match (&self.path, &self.api_props) {
            (Some(p), Some(a)) => Some(request_url(p.as_str(), a)),
            _ => None,
        }
    }

    /// Reads the objects of the answer `xml` (see `parse_props`), all of them
    /// or only the first. `None` when the remote is not set or a value cannot
    /// be read.
    pub fn parse(&self, xml: &str, multiple: bool) -> (r: Option<Vec<ObjProps>>)
        ensures
            self.api_props is None ==> r is None,
            self.api_props matches Some(a) ==> match crate::props::props_result(
                crate::props::props_fold(
                    crate::props::xml_events(xml@),
                    crate::paths::views(self.xml_balises@),
                    multiple,
                    true,
                    a,
                ),
            ) {
                None => r is None,
                Some(vs) => r matches Some(v) && crate::props::props_views(v@) == vs,
            },
    {
        match &self.api_props {
            None => None,
            Some(a) => crate::props::parse_props_answer(xml, &self.xml_balises, multiple, a),
        }
    }
}

} // verus!
