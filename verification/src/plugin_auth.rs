//! A guard that asks for a bearer token.

use vstd::prelude::*;

use crate::plugin;
use crate::plugin::{AuthPlugin, PluginContext, PluginEvent};
use crate::text;
use crate::type_config::GroupId;

verus! {

/// Allows requests that carry the token; with an empty token, all of them.
pub struct BearerTokenAuth {
    token: String,
    told: Ghost<Seq<PluginEvent>>,
}

/// A guard with the token `token` allows a request with this authorization.
pub open spec fn bearer_allows(token: Seq<char>, authorization: Option<Seq<char>>) -> bool {
    token.len() == 0 || authorization == Some("Bearer "@ + token)
}

/// What a guard with the token `token` may answer: the same whatever it has been told.
pub open spec fn bearer_answers(token: Seq<char>) -> spec_fn(
    Seq<PluginEvent>,
    Option<Seq<char>>,
    bool,
) -> bool {
    |h: Seq<PluginEvent>, authorization: Option<Seq<char>>, allow: bool|
        allow == bearer_allows(token, authorization)
}

impl BearerTokenAuth {
    pub closed spec fn spec_token(&self) -> Seq<char> {
        self.token@
    }

    pub fn new(token: &str) -> (r: Self)
        ensures
            r.spec_token() == token@,
            r.history() == Seq::<PluginEvent>::empty(),
    {
        BearerTokenAuth { token: token.to_owned(), told: Ghost(Seq::empty()) }
    }

    /// A guard with the token that the environment gives; none is an empty one.
    pub fn from_env(value: Option<String>) -> (r: Self)
        ensures
            r.spec_token() == (match value {
                Some(t) => t@,
                None => Seq::empty(),
            }),
            r.history() == Seq::<PluginEvent>::empty(),
    {
        match value {
            Some(t) => BearerTokenAuth { token: t, told: Ghost(Seq::empty()) },
            None => BearerTokenAuth { token: String::new(), told: Ghost(Seq::empty()) },
        }
    }
}

impl AuthPlugin for BearerTokenAuth {
    closed spec fn history(&self) -> Seq<PluginEvent> {
        self.told@
    }

    open spec fn answers(&self) -> spec_fn(Seq<PluginEvent>, Option<Seq<char>>, bool) -> bool {
        bearer_answers(self.spec_token())
    }

    fn name(&self) -> (r: &'static str)
        ensures
            r@ == "bearer-auth"@,
    {
        "bearer-auth"
    }

    fn on_node_start(&mut self, ctx: &PluginContext)
        ensures
            final(self).spec_token() == old(self).spec_token(),
    {
        self.told = Ghost(self.told@.push(PluginEvent::NodeStart(*ctx)));
    }

    fn on_node_stop(&mut self, ctx: &PluginContext)
        ensures
            final(self).spec_token() == old(self).spec_token(),
    {
        self.told = Ghost(self.told@.push(PluginEvent::NodeStop(*ctx)));
    }

    fn on_group_ready(&mut self, ctx: &PluginContext, group: GroupId)
        ensures
            final(self).spec_token() == old(self).spec_token(),
    {
        self.told = Ghost(self.told@.push(PluginEvent::GroupReady(*ctx, group)));
    }

    fn authorize_admin(&self, authorization: Option<&str>) -> (r: bool)
        ensures
            r == bearer_allows(self.spec_token(), plugin::opt_text(authorization)),
    {
        if self.token.as_str().is_empty() {
            return true;
        }
        match authorization {
            None => false,
            Some(h) => {
                let want = text::concat("Bearer ", self.token.as_str());
                text::same_text(h, want.as_str())
            },
        }
    }
}

/// A guard with a token refuses whatever does not carry it: no authorization, and every text but
/// the one that names the token.
pub proof fn law_token_must_match(token: Seq<char>, authorization: Option<Seq<char>>)
    requires
        token.len() > 0,
    ensures
        !bearer_allows(token, None),
        bearer_allows(token, authorization) <==> authorization == Some("Bearer "@ + token),
        !bearer_allows(token, Some(token)),
{
    reveal_strlit("Bearer ");
    assert(("Bearer "@ + token).len() > token.len());
}

} // verus!
