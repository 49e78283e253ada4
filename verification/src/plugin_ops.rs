//! The administration routes of a node, the plugins it comes with, and the requests of the
//! operator's tool.

use vstd::prelude::*;

use crate::plugin;
use crate::plugin::{
    AuthPlugin, MetricsPlugin, PluginEvent, PluginKind, PluginRegistry, TransitionPlugin,
};
use crate::plugin_auth;
use crate::plugin_auth::BearerTokenAuth;
use crate::plugin_metrics;
use crate::plugin_metrics::SegmentedLatencyMetrics;
use crate::plugin_transition;
use crate::plugin_transition::LagPromotePolicy;
use crate::text;

verus! {

/// The administration routes.
pub const ADMIN_ROUTES: [&'static str; 14] = [
    "GET /metrics/propose-stages",
    "GET /metrics/links",
    "GET /admin/groups/{group}/status",
    "GET /admin/catalog/{group}",
    "GET /admin/archive/{group}/positions",
    "GET /admin/archive/{group}/export/{index}/{term}",
    "GET /admin/archive/{group}/export/{index}/{term}/data",
    "GET /admin/best_snapshot_ad/{group}",
    "POST /admin/replicate_standby_snapshot/{group}",
    "POST /admin/promote_standby/{group}/{id}",
    "POST /admin/demote_standby/{group}/{id}",
    "POST /admin/daisy_sync/{group}",
    "POST /admin/add_standby/{group}/{standby_id}",
    "GET /groups/{id}/stale",
];

/// The token that the guard asks for: the one given, else the environment's; none is an empty one.
pub open spec fn guard_token(auth_token: Option<&str>, env_token: Option<String>) -> Seq<char> {
    match auth_token {
        Some(t) => t@,
        None => match env_token {
            Some(t) => t@,
            None => Seq::empty(),
        },
    }
}

/// A policy is enabled by a threshold above 0.
pub open spec fn lag_enabled(threshold: Option<u64>) -> bool {
    threshold matches Some(t) && t > 0
}

/// The threshold that the policy works with.
pub open spec fn lag_threshold_of(threshold: Option<u64>) -> u64 {
    match threshold {
        Some(t) => t,
        None => 0,
    }
}

/// The default plugins: timings, a lag policy and a token guard. Without a token the guard asks for
/// the environment's, which is handed in; without that it lets everyone in. Without a threshold
/// above 0 the policy is off.
pub fn premium_registry(
    auth_token: Option<&str>,
    transition_lag_threshold: Option<u64>,
    env_token: Option<String>,
) -> (r: PluginRegistry)
    ensures
        r.wf(),
        r.calls() == Seq::<plugin::PluginCall>::empty(),
        r.order@ == seq![PluginKind::Metrics, PluginKind::Transition, PluginKind::Auth],
        r.plain@.len() == 0,
        r.archive@.len() == 0,
        r.metrics@.len() == 1,
        r.metrics@[0].history() == Seq::<PluginEvent>::empty(),
        r.metrics@[0].reports() == plugin_metrics::latency_reports(),
        r.transition@.len() == 1,
        r.transition@[0].history() == Seq::<PluginEvent>::empty(),
        r.transition@[0].reports() == plugin_transition::lag_reports(
            lag_enabled(transition_lag_threshold),
            lag_threshold_of(transition_lag_threshold),
        ),
        r.transition@[0].acts() == plugin_transition::lag_acts(
            lag_enabled(transition_lag_threshold),
            lag_threshold_of(transition_lag_threshold),
        ),
        r.auth@.len() == 1,
        r.auth@[0].history() == Seq::<PluginEvent>::empty(),
        r.auth@[0].answers() == plugin_auth::bearer_answers(guard_token(auth_token, env_token)),
{
    let auth = match auth_token {
        Some(t) => BearerTokenAuth::new(t),
        None => BearerTokenAuth::from_env(env_token),
    };
    let transition = match transition_lag_threshold {
        Some(t) => if t > 0 {
            LagPromotePolicy::enabled(t)
        } else {
            LagPromotePolicy::disabled()
        },
        None => LagPromotePolicy::disabled(),
    };
    let metrics = SegmentedLatencyMetrics::new();
    PluginRegistry::new().register_metrics(Box::new(metrics)).register_transition(
        Box::new(transition),
    ).register_auth(Box::new(auth))
}

/// What the operator's tool can be told to do.
#[derive(Debug)]
pub enum OpsCommand {
    /// List the administration routes.
    Routes,
    MetricsStages,
    ArchivePositions { group: u64 },
    /// Show what is known of a snapshot, or with `data` fetch its bytes.
    ArchiveExport { group: u64, index: u64, term: u64, data: bool },
    GroupStatus { group: u64 },
    BestAd { group: u64 },
    Promote { group: u64, id: u64 },
    Demote { group: u64, id: u64 },
    Replicate { group: u64, fetch_url: Option<String> },
}

/// What the tool does for a command.
#[derive(Debug)]
pub enum OpsRequest {
    PrintRoutes,
    /// Fetch and print the answer's text.
    Get(String),
    /// Fetch the answer's bytes.
    GetBytes(String),
    /// Post the body as JSON, and print the answer's text.
    Post { url: String, body: String },
}

/// What a character comes to in a JSON string: quotes, backslashes and control characters are
/// escaped, by a letter where JSON has one for them and else by their number.
pub open spec fn json_char(c: char) -> Seq<char> {
    if c == '"' || c == '\\' {
        seq!['\\', c]
    } else if c as u32 == 0x08 {
        seq!['\\', 'b']
    } else if c as u32 == 0x09 {
        seq!['\\', 't']
    } else if c as u32 == 0x0a {
        seq!['\\', 'n']
    } else if c as u32 == 0x0c {
        seq!['\\', 'f']
    } else if c as u32 == 0x0d {
        seq!['\\', 'r']
    } else if (c as u32) < 0x20 {
        "\\u00"@ + seq![text::nibble_char(c as nat / 16), text::nibble_char(c as nat % 16)]
    } else {
        seq![c]
    }
}

/// What the characters come to in a JSON string, one after the other.
pub open spec fn json_chars(s: Seq<char>) -> Seq<char>
    decreases s.len(),
{
    if s.len() == 0 {
        Seq::empty()
    } else {
        json_chars(s.drop_last()) + json_char(s.last())
    }
}

/// The JSON text of a string.
pub open spec fn json_string(s: Seq<char>) -> Seq<char> {
    seq!['"'] + json_chars(s) + seq!['"']
}

/// Calls `to_string` of `serde_json::Value::String`: the string in quotes, with each character
/// that JSON escapes put as its escape.
#[verifier::external_body]
fn json_string_text(s: &str) -> (r: String)
    ensures
        r@ == json_string(s@),
{
    serde_json::Value::String(s.to_owned()).to_string()
}

/// A text of which each character stands for itself in JSON is put in quotes, and no more.
pub proof fn law_plain_text_is_only_quoted(s: Seq<char>)
    requires
        forall|i: int|
            0 <= i < s.len() ==> (#[trigger] s[i]) as u32 >= 0x20 && s[i] != '"' && s[i] != '\\',
    ensures
        json_string(s) == seq!['"'] + s + seq!['"'],
{
    lemma_plain_chars(s);
}

proof fn lemma_plain_chars(s: Seq<char>)
    requires
        forall|i: int|
            0 <= i < s.len() ==> (#[trigger] s[i]) as u32 >= 0x20 && s[i] != '"' && s[i] != '\\',
    ensures
        json_chars(s) == s,
    decreases s.len(),
{
    if s.len() > 0 {
        lemma_plain_chars(s.drop_last());
        assert(s[s.len() - 1] == s.last());
        assert(s.drop_last() + seq![s.last()] =~= s);
    }
}

/// The path that a command asks for.
pub open spec fn ops_path(cmd: OpsCommand) -> Seq<char> {
    match cmd {
        OpsCommand::Routes => Seq::empty(),
        OpsCommand::MetricsStages => "/metrics/propose-stages"@,
        OpsCommand::ArchivePositions { group } => "/admin/archive/"@ + text::decimal(group as nat)
            + "/positions"@,
        OpsCommand::ArchiveExport { group, index, term, data } => "/admin/archive/"@
            + text::decimal(group as nat) + "/export/"@ + text::decimal(index as nat) + "/"@
            + text::decimal(term as nat) + (if data {
            "/data"@
        } else {
            Seq::empty()
        }),
        OpsCommand::GroupStatus { group } => "/admin/groups/"@ + text::decimal(group as nat)
            + "/status"@,
        OpsCommand::BestAd { group } => "/admin/best_snapshot_ad/"@ + text::decimal(group as nat),
        OpsCommand::Promote { group, id } => "/admin/promote_standby/"@ + text::decimal(
            group as nat,
        ) + "/"@ + text::decimal(id as nat),
        OpsCommand::Demote { group, id } => "/admin/demote_standby/"@ + text::decimal(group as nat)
            + "/"@ + text::decimal(id as nat),
        OpsCommand::Replicate { group, fetch_url } => "/admin/replicate_standby_snapshot/"@
            + text::decimal(group as nat),
    }
}

/// The body posted for a replication, given the JSON text of the URL.
pub open spec fn replicate_body(quoted: Option<Seq<char>>) -> Seq<char> {
    match quoted {
        Some(q) => "{\"fetch_url\":"@ + q + "}"@,
        None => "{}"@,
    }
}

/// The body posted for a replication, given the JSON text of the URL.
pub fn replicate_payload(quoted: Option<String>) -> (r: String)
    ensures
        r@ == replicate_body(
            match quoted {
                Some(q) => Some(q@),
                None => None,
            },
        ),
{
    match quoted {
        Some(q) => {
            let mut out = "{\"fetch_url\":".to_owned();
            out.append(q.as_str());
            out.append("}");
            out
        },
        None => "{}".to_owned(),
    }
}

/// `r` is what the tool does for `cmd` at a node whose base URL is `base`.
pub open spec fn is_request(base: Seq<char>, cmd: OpsCommand, r: OpsRequest) -> bool {
    let url = text::without_trailing_slashes(base) + ops_path(cmd);
    match cmd {
        OpsCommand::Routes => r == OpsRequest::PrintRoutes,
        OpsCommand::ArchiveExport { group, index, term, data } => if data {
            r matches OpsRequest::GetBytes(u) && u@ == url
        } else {
            r matches OpsRequest::Get(u) && u@ == url
        },
        OpsCommand::Promote { group, id } => r matches OpsRequest::Post { url: u, body } && u@
            == url && body@ == "{}"@,
        OpsCommand::Demote { group, id } => r matches OpsRequest::Post { url: u, body } && u@ == url
            && body@ == "{}"@,
        OpsCommand::Replicate { group, fetch_url } => r matches OpsRequest::Post { url: u, body }
            && u@ == url && body@ == replicate_body(
            match fetch_url {
                Some(f) => Some(json_string(f@)),
                None => None,
            },
        ),
        _ => r matches OpsRequest::Get(u) && u@ == url,
    }
}

fn path_text(cmd: &OpsCommand) -> (r: String)
    ensures
        r@ == ops_path(*cmd),
{
    match cmd {
        OpsCommand::Routes => String::new(),
        OpsCommand::MetricsStages => "/metrics/propose-stages".to_owned(),
        OpsCommand::ArchivePositions { group } => {
            let mut out = "/admin/archive/".to_owned();
            out.append(text::decimal_text(*group).as_str());
            out.append("/positions");
            out
        },
        OpsCommand::ArchiveExport { group, index, term, data } => {
            let mut out = "/admin/archive/".to_owned();
            out.append(text::decimal_text(*group).as_str());
            out.append("/export/");
            out.append(text::decimal_text(*index).as_str());
            out.append("/");
            out.append(text::decimal_text(*term).as_str());
            if *data {
                out.append("/data");
            }
            assert(out@ =~= ops_path(*cmd));
            out
        },
        OpsCommand::GroupStatus { group } => {
            let mut out = "/admin/groups/".to_owned();
            out.append(text::decimal_text(*group).as_str());
            out.append("/status");
            out
        },
        OpsCommand::BestAd { group } => text::concat(
            "/admin/best_snapshot_ad/",
            text::decimal_text(*group).as_str(),
        ),
        OpsCommand::Promote { group, id } => {
            let mut out = "/admin/promote_standby/".to_owned();
            out.append(text::decimal_text(*group).as_str());
            out.append("/");
            out.append(text::decimal_text(*id).as_str());
            out
        },
        OpsCommand::Demote { group, id } => {
            let mut out = "/admin/demote_standby/".to_owned();
            out.append(text::decimal_text(*group).as_str());
            out.append("/");
            out.append(text::decimal_text(*id).as_str());
            out
        },
        OpsCommand::Replicate { group, fetch_url } => text::concat(
            "/admin/replicate_standby_snapshot/",
            text::decimal_text(*group).as_str(),
        ),
    }
}

/// What the tool does for `cmd` at a node whose base URL is `base`.
pub fn request(base: &str, cmd: &OpsCommand) -> (r: OpsRequest)
    ensures
        is_request(base@, *cmd, r),
{
    let mut url = text::trim_trailing_slashes(base);
    url.append(path_text(cmd).as_str());
    match cmd {
        OpsCommand::Routes => OpsRequest::PrintRoutes,
        OpsCommand::ArchiveExport { group, index, term, data } => if *data {
            OpsRequest::GetBytes(url)
        } else {
            OpsRequest::Get(url)
        },
        OpsCommand::Promote { group, id } => OpsRequest::Post { url, body: "{}".to_owned() },
        OpsCommand::Demote { group, id } => OpsRequest::Post { url, body: "{}".to_owned() },
        OpsCommand::Replicate { group, fetch_url } => {
            let quoted = match fetch_url {
                Some(f) => Some(json_string_text(f.as_str())),
                None => None,
            };
            OpsRequest::Post { url, body: replicate_payload(quoted) }
        },
        _ => OpsRequest::Get(url),
    }
}

/// The authorization that the tool sends: the token it was given, or else the environment's; none
/// where there is neither.
pub fn auth_header(token: Option<&str>, env_token: Option<&str>) -> (r: Option<String>)
    ensures
        match (token, env_token) {
            (Some(t), _) => r matches Some(h) && h@ == "Bearer "@ + t@,
            (None, Some(e)) => r matches Some(h) && h@ == "Bearer "@ + e@,
            (None, None) => r is None,
        },
{
    match token {
        Some(t) => Some(text::concat("Bearer ", t)),
        None => match env_token {
            Some(e) => Some(text::concat("Bearer ", e)),
            None => None,
        },
    }
}

/// A tool that sends a token is let in by every guard with that token.
pub proof fn law_tool_is_let_in(token: Seq<char>, header: Seq<char>)
    requires
        header == "Bearer "@ + token,
    ensures
        plugin_auth::bearer_allows(token, Some(header)),
{
}

} // verus!
