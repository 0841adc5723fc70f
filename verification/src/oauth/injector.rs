//! Which credential goes with which request to the network.

use vstd::prelude::*;
use crate::net;
use crate::oauth::handle::SecretHandle;
use crate::text;

verus! {

/// The credential for the requests of an application to a host.
struct Mapping {
    app: String,
    host: String,
    handle: SecretHandle,
}

/// The mappings as a map: of two for the same pair the later counts.
spec fn mappings_view(mappings: Seq<Mapping>) -> Map<(Seq<char>, Seq<char>), Seq<char>>
    decreases mappings.len(),
{
    if mappings.len() == 0 {
        Map::empty()
    } else {
        let last = mappings.last();
        mappings_view(mappings.drop_last()).insert((last.app@, last.host@), last.handle@)
    }
}

/// Adds credentials to requests. The application never sees them.
pub struct SecretsCredentialInjector {
    mappings: Vec<Mapping>,
}

impl View for SecretsCredentialInjector {
    type V = Map<(Seq<char>, Seq<char>), Seq<char>>;

    closed spec fn view(&self) -> Map<(Seq<char>, Seq<char>), Seq<char>> {
        mappings_view(self.mappings@)
    }
}

/// The header with a token.
pub open spec fn bearer(token: Seq<char>) -> Seq<(Seq<char>, Seq<char>)> {
    seq![("authorization"@, "Bearer "@ + token)]
}

/// The headers that are added: one with the token, where one could be had.
pub fn token_headers(token: Option<&str>) -> (headers: Vec<(String, String)>)
    ensures
        net::headers_view(headers@) == (match token {
            Some(t) => bearer(t@),
            None => Seq::empty(),
        }),
{
    let mut headers: Vec<(String, String)> = Vec::new();
    if let Some(t) = token {
        headers.push(("authorization".to_string(), "Bearer ".to_string().concat(t)));
        assert(net::headers_view(headers@) =~= bearer(t@));
    }
    assert(token is None ==> net::headers_view(headers@) =~= Seq::<(Seq<char>, Seq<char>)>::empty());
    headers
}

proof fn lemma_mapped(mappings: Seq<Mapping>, at: int)
    requires
        0 <= at < mappings.len(),
        forall|k: int|
            at < k < mappings.len() ==> !((#[trigger] mappings[k]).app@ == mappings[at].app@
                && mappings[k].host@ == mappings[at].host@),
    ensures
        mappings_view(mappings).dom().contains((mappings[at].app@, mappings[at].host@)),
        mappings_view(mappings)[(mappings[at].app@, mappings[at].host@)] == mappings[at].handle@,
    decreases mappings.len(),
{
    if at < mappings.len() - 1 {
        let rest = mappings.drop_last();
        assert(mappings.last() == mappings[mappings.len() - 1]);
        assert forall|k: int| at < k < rest.len() implies !((#[trigger] rest[k]).app@
            == rest[at].app@ && rest[k].host@ == rest[at].host@) by {
            assert(rest[k] == mappings[k]);
        }
        lemma_mapped(rest, at);
    }
}

proof fn lemma_not_mapped(mappings: Seq<Mapping>, app: Seq<char>, host: Seq<char>)
    requires
        forall|k: int|
            0 <= k < mappings.len() ==> !((#[trigger] mappings[k]).app@ == app
                && mappings[k].host@ == host),
    ensures
        !mappings_view(mappings).dom().contains((app, host)),
    decreases mappings.len(),
{
    if mappings.len() > 0 {
        let rest = mappings.drop_last();
        assert(mappings.last() == mappings[mappings.len() - 1]);
        assert forall|k: int| 0 <= k < rest.len() implies !((#[trigger] rest[k]).app@ == app
            && rest[k].host@ == host) by {
            assert(rest[k] == mappings[k]);
        }
        lemma_not_mapped(rest, app, host);
    }
}

impl SecretsCredentialInjector {
    /// An injector without credentials.
    pub fn new() -> (injector: Self)
        ensures
            injector@ == Map::<(Seq<char>, Seq<char>), Seq<char>>::empty(),
    {
        SecretsCredentialInjector { mappings: Vec::new() }
    }

    /// Uses a credential for the requests of an application to a host.
    pub fn map(&mut self, app_id: &str, host: &str, handle: SecretHandle)
        ensures
            final(self)@ == old(self)@.insert((app_id@, host@), handle@),
    {
        let mapping = Mapping { app: app_id.to_string(), host: host.to_string(), handle };
        self.mappings.push(mapping);
        assert(self.mappings@.drop_last() =~= old(self).mappings@);
    }

    /// The credential for the requests of an application to a host.
    pub fn handle_for(&self, app_id: &str, host: &str) -> (handle: Option<SecretHandle>)
        ensures
            match handle {
                Some(h) => self@.dom().contains((app_id@, host@)) && self@[(app_id@, host@)] == h@,
                None => !self@.dom().contains((app_id@, host@)),
            },
    {
        let mut i: usize = self.mappings.len();
        while i > 0
            invariant
                i <= self.mappings.len(),
                forall|k: int|
                    i <= k < self.mappings.len() ==> !((#[trigger] self.mappings@[k]).app@ == app_id@
                        && self.mappings@[k].host@ == host@),
            decreases i,
        {
            let mapping = &self.mappings[i - 1];
            if text::same_text(mapping.app.as_str(), app_id) && text::same_text(
                mapping.host.as_str(),
                host,
            ) {
                proof {
                    lemma_mapped(self.mappings@, i - 1);
                }
                return Some(mapping.handle.copy());
            }
            i -= 1;
        }
        proof {
            lemma_not_mapped(self.mappings@, app_id@, host@);
        }
        None
    }
}

/// A credential goes with the requests of its application to its host and with no others.
pub proof fn lemma_only_its_own_requests(
    mappings: Map<(Seq<char>, Seq<char>), Seq<char>>,
    app: Seq<char>,
    host: Seq<char>,
    handle: Seq<char>,
    other_app: Seq<char>,
    other_host: Seq<char>,
)
    requires
        !mappings.dom().contains((other_app, other_host)),
        other_app != app || other_host != host,
    ensures
        mappings.insert((app, host), handle).dom().contains((app, host)),
        !mappings.insert((app, host), handle).dom().contains((other_app, other_host)),
{
}

} // verus!
