use vstd::prelude::*;

use crate::endpoint::{method_name, method_of, parse_method, Method};
use crate::route::{
    lemma_route_key_injective, lemma_table_of, last_with_key, route_key, route_key_of, Rule, RuleModel,
    RouteTable,
};

verus! {

/// Why the rule store could not hand back a rule.
#[derive(Clone, Copy, Debug, PartialEq, Eq, Structural)]
pub enum StoreError {
    /// No rule is stored under the key.
    NotFound,
    /// The store could not be reached in time.
    Unavailable,
    /// The stored value is not a rule.
    CorruptData,
}

/// The start-up probe of the rule store passed: the value read back under the probe
/// key is the value written there.
pub fn store_is_healthy(written: &String, read_back: &String) -> (r: bool)
    ensures
        r == (written@ == read_back@),
{
    *written == *read_back
}

/// An HTTP response: status, `Content-Type` header and body.
#[derive(Clone, Debug)]
pub struct Reply {
    pub status: u16,
    pub content_type: String,
    pub body: String,
}

pub ghost struct ReplyModel {
    pub status: u16,
    pub content_type: Seq<char>,
    pub body: Seq<char>,
}

impl View for Reply {
    type V = ReplyModel;

    open spec fn view(&self) -> ReplyModel {
        ReplyModel { status: self.status, content_type: self.content_type@, body: self.body@ }
    }
}

/// What the request handler does next.
#[derive(Clone, Debug)]
pub enum Step {
    /// Ask the rule store for the rule under `key`.
    Fetch { key: String },
    /// Read the file `rule.response` and hand its contents to `on_body`.
    ReadBody { rule: Rule },
    /// Send `reply`; the request is done.
    Respond { reply: Reply },
}

pub ghost enum StepModel {
    Fetch(Seq<char>),
    ReadBody(RuleModel),
    Respond(ReplyModel),
}

impl View for Step {
    type V = StepModel;

    open spec fn view(&self) -> StepModel {
        match self {
            Step::Fetch { key } => StepModel::Fetch(key@),
            Step::ReadBody { rule } => StepModel::ReadBody(rule@),
            Step::Respond { reply } => StepModel::Respond(reply@),
        }
    }
}

pub open spec fn json_type() -> Seq<char> {
    "application/json"@
}

/// The content types whose body is the response file, passed through unchanged.
pub open spec fn supported_content_type(ct: Seq<char>) -> bool {
    ct == "application/json"@ || ct == "text/html"@ || ct == "application/xml"@ || ct
        == "text/plain"@
}

pub open spec fn unsupported_body() -> Seq<char> {
    "Unsupported content type"@
}

pub open spec fn not_found_body() -> Seq<char> {
    "{\"error\":\"no mock for this method and path\"}"@
}

pub open spec fn unavailable_body() -> Seq<char> {
    "{\"error\":\"rule store unavailable\"}"@
}

pub open spec fn corrupt_body() -> Seq<char> {
    "{\"error\":\"stored rule is unreadable\"}"@
}

pub open spec fn unreadable_file_prefix() -> Seq<char> {
    "cannot read response file: "@
}

/// The reply for a store failure: 404, 502 or 500, with a JSON error body.
pub open spec fn store_error_reply(e: StoreError) -> ReplyModel {
    match e {
        StoreError::NotFound => ReplyModel { status: 404, content_type: json_type(), body: not_found_body() },
        StoreError::Unavailable => ReplyModel {
            status: 502,
            content_type: json_type(),
            body: unavailable_body(),
        },
        StoreError::CorruptData => ReplyModel { status: 500, content_type: json_type(), body: corrupt_body() },
    }
}

/// The first step for a request line: an unsupported method matches no route;
/// any other request asks the store under the route's key.
pub open spec fn begin_step(method: Seq<char>, path: Seq<char>) -> StepModel {
    match method_of(method) {
        None => StepModel::Respond(store_error_reply(StoreError::NotFound)),
        Some(m) => StepModel::Fetch(route_key_of(m, path)),
    }
}

pub open spec fn fetched_view(fetched: Result<Rule, StoreError>) -> Result<RuleModel, StoreError> {
    match fetched {
        Ok(rule) => Ok(rule@),
        Err(e) => Err(e),
    }
}

/// The step once the store has answered: a rule of a supported content type has its
/// body read afresh; one of another type gets a fixed text; a failure gets its error.
pub open spec fn rule_step(fetched: Result<RuleModel, StoreError>) -> StepModel {
    match fetched {
        Ok(rule) => if supported_content_type(rule.content_type) {
            StepModel::ReadBody(rule)
        } else {
            StepModel::Respond(
                ReplyModel {
                    status: rule.status,
                    content_type: rule.content_type,
                    body: unsupported_body(),
                },
            )
        },
        Err(e) => StepModel::Respond(store_error_reply(e)),
    }
}

/// The reply once the body file has been read (`Some` with its contents) or could
/// not be read (`None`).
pub open spec fn body_reply(rule: RuleModel, contents: Option<Seq<char>>) -> ReplyModel {
    match contents {
        Some(c) => ReplyModel { status: rule.status, content_type: rule.content_type, body: c },
        None => ReplyModel {
            status: 500,
            content_type: "text/plain"@,
            body: unreadable_file_prefix() + rule.response,
        },
    }
}

fn json_reply(status: u16, body: &str) -> (r: Reply)
    ensures
        r@ == (ReplyModel { status, content_type: json_type(), body: body@ }),
{
    Reply {
        status,
        content_type: String::from_str("application/json"),
        body: String::from_str(body),
    }
}

/// The reply for a store failure.
pub fn error_reply(e: StoreError) -> (r: Reply)
    ensures
        r@ == store_error_reply(e),
{
    match e {
        StoreError::NotFound => json_reply(404, "{\"error\":\"no mock for this method and path\"}"),
        StoreError::Unavailable => json_reply(502, "{\"error\":\"rule store unavailable\"}"),
        StoreError::CorruptData => json_reply(500, "{\"error\":\"stored rule is unreadable\"}"),
    }
}

/// Whether a content type has its body served from the response file.
pub fn is_supported_content_type(ct: &String) -> (r: bool)
    ensures
        r == supported_content_type(ct@),
{
    *ct == String::from_str("application/json") || *ct == String::from_str("text/html") || *ct
        == String::from_str("application/xml") || *ct == String::from_str("text/plain")
}

/// Starts handling a request from its method and path.
pub fn begin(method: &String, path: &String) -> (r: Step)
    ensures
        r@ == begin_step(method@, path@),
{
    match parse_method(method) {
        None => Step::Respond { reply: error_reply(StoreError::NotFound) },
        Some(m) => Step::Fetch { key: route_key(m, path) },
    }
}

/// Goes on once the rule store has answered.
pub fn on_rule(fetched: Result<Rule, StoreError>) -> (r: Step)
    ensures
        r@ == rule_step(fetched_view(fetched)),
{
    match fetched {
        Ok(rule) => {
            if is_supported_content_type(&rule.content_type) {
                Step::ReadBody { rule }
            } else {
                Step::Respond {
                    reply: Reply {
                        status: rule.status,
                        content_type: rule.content_type,
                        body: String::from_str("Unsupported content type"),
                    },
                }
            }
        },
        Err(e) => Step::Respond { reply: error_reply(e) },
    }
}

/// Renders a rule with the contents of its response file.
pub fn render(rule: &Rule, contents: String) -> (r: Reply)
    ensures
        r@ == body_reply(rule@, Some(contents@)),
{
    Reply { status: rule.status, content_type: rule.content_type.clone(), body: contents }
}

/// Finishes a request once its body file has been read, or found unreadable.
pub fn on_body(rule: &Rule, contents: Option<String>) -> (r: Reply)
    ensures
        r@ == body_reply(
            rule@,
            match contents {
                Some(c) => Some(c@),
                None => None,
            },
        ),
{
    match contents {
        Some(c) => render(rule, c),
        None => {
            let mut body = String::from_str("cannot read response file: ");
            body.append(rule.response.as_str());
            Reply { status: 500, content_type: String::from_str("text/plain"), body }
        },
    }
}

proof fn lemma_method_round_trip(m: Method)
    ensures
        method_of(method_name(m)) == Some(m),
{
    let g = method_name(Method::Get);
    assert(method_name(Method::Put)[1] != g[1]);
    assert(method_name(Method::Put) != g);
}

/// A request for a configured route asks the store under that route's key, under
/// which the table stores the route's own rule and no other; a rule of a supported
/// content type is answered with its status, its content type, and the contents of
/// its response file as read for this request.
pub proof fn lemma_configured_route_served(table: RouteTable, m: Method, p: Seq<char>, contents: Seq<char>)
    requires
        table.wf(),
        table@.contains_key((m, p)),
        supported_content_type(table@[(m, p)].content_type),
    ensures
        begin_step(method_name(m), p) == StepModel::Fetch(route_key_of(m, p)),
        forall|i: int|
            0 <= i < table.entries().len() && route_key_of(
                (#[trigger] table.entries()[i]).method,
                table.entries()[i].path,
            ) == route_key_of(m, p) ==> table.entries()[i].rule == table@[(m, p)],
        rule_step(Ok(table@[(m, p)])) == StepModel::ReadBody(table@[(m, p)]),
        body_reply(table@[(m, p)], Some(contents)) == (ReplyModel {
            status: table@[(m, p)].status,
            content_type: table@[(m, p)].content_type,
            body: contents,
        }),
{
    lemma_method_round_trip(m);
    let e = table.entries();
    lemma_table_of(e);
    assert forall|i: int|
        0 <= i < e.len() && route_key_of((#[trigger] e[i]).method, e[i].path) == route_key_of(m, p)
        implies e[i].rule == table@[(m, p)] by {
        lemma_route_key_injective(e[i].method, e[i].path, m, p);
        assert forall|j: int| i < j < e.len() implies #[trigger] e[j].key() != e[i].key() by {}
        assert(last_with_key(e, i));
    }
}

/// The body is read for every request and never kept: two requests to the same route
/// whose file changed in between get different bodies.
pub proof fn lemma_body_not_cached(rule: RuleModel, first: Seq<char>, second: Seq<char>)
    requires
        supported_content_type(rule.content_type),
    ensures
        rule_step(Ok(rule)) == StepModel::ReadBody(rule),
        first != second ==> body_reply(rule, Some(first)).body != body_reply(rule, Some(second)).body,
{
}

/// A request whose method and path no route declares is answered 404: either its
/// method is none of the five verbs, or its store key is the key of no entry.
pub proof fn lemma_unconfigured_not_found(table: RouteTable, method: Seq<char>, path: Seq<char>)
    requires
        table.wf(),
        match method_of(method) {
            None => true,
            Some(m) => !table@.contains_key((m, path)),
        },
    ensures
        match begin_step(method, path) {
            StepModel::Respond(r) => r.status == 404,
            StepModel::Fetch(k) => forall|i: int|
                0 <= i < table.entries().len() ==> route_key_of(
                    (#[trigger] table.entries()[i]).method,
                    table.entries()[i].path,
                ) != k,
            StepModel::ReadBody(_) => false,
        },
        rule_step(Err(StoreError::NotFound)) is Respond,
        store_error_reply(StoreError::NotFound).status == 404,
{
    let e = table.entries();
    lemma_table_of(e);
    if let Some(m) = method_of(method) {
        assert forall|i: int| 0 <= i < e.len() implies route_key_of((#[trigger] e[i]).method, e[i].path)
            != route_key_of(m, path) by {
            lemma_route_key_injective(e[i].method, e[i].path, m, path);
            assert(table@.contains_key(e[i].key()));
        }
    }
}

/// An unreachable rule store is answered 502, never with a rule.
pub proof fn lemma_store_unavailable()
    ensures
        rule_step(Err(StoreError::Unavailable)) == StepModel::Respond(store_error_reply(StoreError::Unavailable)),
        store_error_reply(StoreError::Unavailable).status == 502,
{
}

} // verus!
