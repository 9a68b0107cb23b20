//! The connection settings shared by the requests: the host of the remote and
//! the token that the login gave, each found once and kept.

use vstd::prelude::*;
use crate::url::get_url_props;

verus! {

/// The host of the remote and the authentication token, when known.
pub struct RequestManager {
    token: Option<String>,
    host: Option<String>,
}

impl RequestManager {
    /// The token kept, by characters.
    pub closed spec fn token_view(&self) -> Option<Seq<char>> {
        match self.token {
            Some(t) => Some(t@),
            None => None,
        }
    }

    /// The host kept, by characters.
    pub closed spec fn host_view(&self) -> Option<Seq<char>> {
        match self.host {
            Some(h) => Some(h@),
            None => None,
        }
    }

    /// A manager that knows neither host nor token.
    pub fn new() -> (r: RequestManager)
        ensures
            r.token_view() is None,
            r.host_view() is None,
    {
        RequestManager { token: None, host: None }
    }

    /// Keeps `host` as the host; the token is unchanged.
    pub fn set_host(&mut self, host: String)
        ensures
            final(self).host_view() == Some(host@),
            final(self).token_view() == old(self).token_view(),
    {
        self.host = Some(host);
    }

    /// The host: the one kept, or else the host of the remote `remote` (the
    /// `remote` setting of the configuration), which is then kept. `None`, with
    /// nothing changed, when no host is kept and no remote is configured.
    pub fn get_host(&mut self, remote: Option<String>) -> (r: Option<String>)
        ensures
            final(self).token_view() == old(self).token_view(),
            match old(self).host_view() {
                Some(h) => r matches Some(s) && s@ == h && final(self).host_view() == Some(h),
                None => match remote {
                    None => r is None && final(self).host_view() is None,
                    Some(rm) => r matches Some(s) && s@ == crate::url::url_props(rm@).0
                        && final(self).host_view() == Some(s@),
                },
            },
    {
        match &self.host {
            Some(h) => {
                return Some(h.clone());
            },
            None => {},
        }
        match remote {
            None => None,
            Some(rm) => {
                let (host, _, _) = get_url_props(rm.as_str());
                self.host = Some(host.clone());
                Some(host)
            },
        }
    }

    /// The token kept, if any (a login gives it; see `set_token`).
    pub fn get_token(&self) -> (r: Option<String>)
        ensures
            match self.token_view() {
                Some(t) => r matches Some(s) && s@ == t,
                None => r is None,
            },
    {
        match &self.token {
            Some(t) => Some(t.clone()),
            None => None,
        }
    }

    /// Keeps `token` as the token; the host is unchanged.
    pub fn set_token(&mut self, token: String)
        ensures
            final(self).token_view() == Some(token@),
            final(self).host_view() == old(self).host_view(),
    {
        self.token = Some(token);
    }

    /// Prepares a request; nothing is done yet.
    pub fn create_request() {
    }
}

} // verus!
