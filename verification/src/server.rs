//! The steps of serving a request.
//!
//! A request is routed first. It is answered at once where its route is not found or its handler
//! has a response registered beforehand; else its body is read and validated, and it is forwarded
//! to its handler, whose answer is made the reply.

use vstd::prelude::*;
use vstd::string::*;

use crate::dispatch::{check_dto, dto_outcome, lemma_dto_outcome};
use crate::json::{
    is_stable, lemma_object_view, lemma_text_object, members_view, object_of_texts, parse_json,
    parsed, print_json, printed, reads_back, text_object, Json, JsonView,
};
use crate::manifest::RouteEntry;
use crate::metrics::Metrics;
use crate::pairs::{
    distinct, has_name, lemma_position, lemma_position_unique, lemma_put_all, lookup, named,
    position, put_all, put_texts, text_pairs,
};
use crate::response::{
    answer_reply, answer_view, lemma_answer, lemma_reply, lemma_stated_status, native_reply,
    plain_reply, reply_headers, reply_view, NativeResponses, Reply, ResponseView,
};
use crate::router::{
    is_literal_route, lemma_routed, match_view, metadata, method_match, routed, QuillRouter,
    RouteMatch, RouteMetadata,
};
use crate::text::{read_text, text_or};
use crate::validator::{
    body_validation, errors_json, errors_object, errors_view, outcome, Outcome, ValidatorRegistry,
};

verus! {

/// How many requests may wait for their handlers.
pub enum QueueLimit {
    AtMost(usize),
    Any,
}

/// The limit that a depth asks for: any number where it is zero.
pub open spec fn queue_limit(max_queue_depth: u32) -> QueueLimit {
    if max_queue_depth > 0 {
        QueueLimit::AtMost(max_queue_depth as usize)
    } else {
        QueueLimit::Any
    }
}

/// The queue in which requests wait for their handlers. There is one for all servers, and it
/// keeps its limit.
pub struct RequestQueue {
    limit: Option<QueueLimit>,
}

impl View for RequestQueue {
    type V = Option<QueueLimit>;

    closed spec fn view(&self) -> Option<QueueLimit> {
        self.limit
    }
}

impl RequestQueue {
    /// There is no queue yet.
    pub fn new() -> (r: RequestQueue)
        ensures
            r@ is None,
    {
        RequestQueue { limit: None }
    }
}

/// The queue once a server was set up.
pub open spec fn after_listen(queue: Option<QueueLimit>, max_queue_depth: u32) -> Option<
    QueueLimit,
> {
    match queue {
        Some(limit) => Some(limit),
        None => Some(queue_limit(max_queue_depth)),
    }
}

/// The first server that is set up decides the limit of the queue, and no later one changes it.
pub proof fn lemma_queue_kept(first: u32, later: u32)
    ensures
        first == 0 ==> after_listen(None, first) == Some(QueueLimit::Any),
        first > 0 ==> after_listen(None, first) == Some(QueueLimit::AtMost(first as usize)),
        after_listen(None, first) == Some(queue_limit(first)),
        after_listen(after_listen(None, first), later) == after_listen(None, first),
{
}

/// How a server is set up.
pub struct ListenPlan {
    /// The limit of the queue that is to be made; none is to be made where there is one.
    pub new_queue: Option<QueueLimit>,
    /// How many threads serve; as many as the machine has where it is not said.
    pub threads: Option<usize>,
}

/// Decides how a server is set up, and notes how many threads it was asked to have. The error is
/// 1 where there is no router.
pub fn quill_server_listen(
    queue: &mut RequestQueue,
    metrics: &mut Metrics,
    has_router: bool,
    worker_threads: i32,
    max_queue_depth: u32,
) -> (r: Result<ListenPlan, i32>)
    ensures
        (match r {
            Ok(plan) => {
                &&& has_router
                &&& final(queue)@ == after_listen(old(queue)@, max_queue_depth)
                &&& final(queue)@ == (match old(queue)@ {
                    Some(limit) => Some(limit),
                    None => if max_queue_depth == 0 {
                        Some(QueueLimit::Any)
                    } else {
                        Some(QueueLimit::AtMost(max_queue_depth as usize))
                    },
                })
                &&& plan.new_queue == (if old(queue)@ is None {
                    final(queue)@
                } else {
                    None
                })
                &&& plan.threads == (if worker_threads > 0 {
                    Some(worker_threads as usize)
                } else {
                    None
                })
                &&& *final(metrics) == (Metrics { workers: worker_threads as u32, ..*old(metrics) })
            },
            Err(code) => !has_router && code == 1 && final(queue)@ == old(queue)@ && *final(metrics)
                == *old(metrics),
        }),
{
    if !has_router {
        return Err(1);
    }
    metrics.workers = worker_threads as u32;
    let new_queue = if queue.limit.is_some() {
        None
    } else if max_queue_depth > 0 {
        queue.limit = Some(QueueLimit::AtMost(max_queue_depth as usize));
        Some(QueueLimit::AtMost(max_queue_depth as usize))
    } else {
        queue.limit = Some(QueueLimit::Any);
        Some(QueueLimit::Any)
    };
    let threads = if worker_threads > 0 {
        Some(worker_threads as usize)
    } else {
        None
    };
    Ok(ListenPlan { new_queue, threads })
}

/// The text that `serde_json` writes for an object of these members, first texts, then numbers.
pub uninterp spec fn serde_printed(
    texts: Seq<(Seq<char>, Seq<char>)>,
    numbers: Seq<(Seq<char>, u64)>,
) -> Seq<char>;

/// The members that are these texts and numbers.
pub open spec fn plain_members(
    texts: Seq<(Seq<char>, Seq<char>)>,
    numbers: Seq<(Seq<char>, u64)>,
) -> Seq<(Seq<char>, JsonView)> {
    Seq::new(texts.len(), |i: int| (texts[i].0, JsonView::Text(texts[i].1))) + Seq::new(
        numbers.len(),
        |i: int| (numbers[i].0, JsonView::Int(numbers[i].1 as int)),
    )
}

/// The text reads as an object that has these members, in any order, where it is no longer than
/// a reader takes.
pub open spec fn reads_as_object(text: Seq<char>, members: Seq<(Seq<char>, JsonView)>) -> bool {
    text.len() <= 0x3fff_ffff ==> (match parsed(text) {
        Some(JsonView::Object(found)) => found.len() == members.len() && forall|name: Seq<char>|
            lookup(found, name) == #[trigger] lookup(members, name),
        _ => false,
    })
}

/// Collects members of different names into a `serde_json::Map` and calls
/// `serde_json::Value::to_string`. The result depends on the members alone and is named
/// [`serde_printed`]. It is JSON text, which `sonic_rs::from_str` reads as an object of the same
/// members. The order of the members is not said.
#[verifier::external_body]
fn serde_object(texts: Vec<(String, String)>, numbers: Vec<(String, u64)>) -> (r: String)
    requires
        distinct(plain_members(text_pairs(texts@), named(numbers@))),
    ensures
        r@ == serde_printed(text_pairs(texts@), named(numbers@)),
        reads_as_object(r@, plain_members(text_pairs(texts@), named(numbers@))),
{
    let mut members = serde_json::Map::new();
    members.extend(texts.into_iter().map(|(name, text)| (name, serde_json::Value::from(text))));
    members.extend(numbers.into_iter().map(|(name, n)| (name, serde_json::Value::from(n))));
    serde_json::Value::Object(members).to_string()
}

/// The members of a response that tells of an error.
pub open spec fn error_members(
    status: u16,
    error: Seq<char>,
    detail: Seq<(Seq<char>, Seq<char>)>,
) -> Seq<(Seq<char>, JsonView)> {
    plain_members(seq![("error"@, error)] + detail, seq![("status"@, status as u64)])
}

/// A response that is a JSON object with an error, more about it where there is more, and the
/// status.
pub open spec fn error_view(
    status: u16,
    error: Seq<char>,
    detail: Seq<(Seq<char>, Seq<char>)>,
) -> ResponseView {
    ResponseView {
        status,
        body: serde_printed(
            seq![("error"@, error)] + detail,
            seq![("status"@, status as u64)],
        ),
        headers: seq![("content-type"@, "application/json"@)],
    }
}

/// The answer to a request that the router refused with that error.
pub open spec fn refusal(code: i32, method: Seq<char>, path: Seq<char>) -> ResponseView {
    if code == 1 {
        error_view(404, "Not Found"@, seq![("path"@, path)])
    } else if code == 2 {
        error_view(405, "Method Not Allowed"@, seq![("method"@, method)])
    } else {
        error_view(500, "Internal Server Error"@, Seq::empty())
    }
}

spec fn detail_view(detail: Option<(&str, &str)>) -> Seq<(Seq<char>, Seq<char>)> {
    match detail {
        Some(pair) => seq![(pair.0@, pair.1@)],
        None => Seq::empty(),
    }
}

fn error_reply(status: u16, error: &str, detail: Option<(&str, &str)>) -> (r: Reply)
    requires
        detail matches Some(pair) ==> pair.0@ != "error"@ && pair.0@ != "status"@,
    ensures
        r@ == error_view(status, error@, detail_view(detail)),
        reads_as_object(r.body@, error_members(status, error@, detail_view(detail))),
{
    let mut texts: Vec<(String, String)> = Vec::new();
    texts.push(("error".to_owned(), error.to_owned()));
    if let Some((name, value)) = detail {
        texts.push((name.to_owned(), value.to_owned()));
    }
    let mut numbers: Vec<(String, u64)> = Vec::new();
    numbers.push(("status".to_owned(), status as u64));
    let mut headers: Vec<(String, String)> = Vec::new();
    headers.push(("content-type".to_owned(), "application/json".to_owned()));
    proof {
        let more = detail_view(detail);
        assert(text_pairs(texts@) =~= seq![("error"@, error@)] + more);
        assert(named(numbers@) =~= seq![("status"@, status as u64)]);
        assert(text_pairs(headers@) =~= seq![("content-type"@, "application/json"@)]);
        lemma_error_names();
        let members = error_members(status, error@, more);
        assert(members[0].0 == "error"@);
        assert(members[members.len() - 1].0 == "status"@);
        assert(detail is Some ==> members[1].0 == detail->Some_0.0@);
    }
    Reply { status, body: serde_object(texts, numbers), headers }
}

proof fn lemma_error_names()
    ensures
        "error"@ != "status"@,
        "path"@ != "error"@,
        "path"@ != "status"@,
        "method"@ != "error"@,
        "method"@ != "status"@,
{
    reveal_strlit("error");
    reveal_strlit("status");
    reveal_strlit("path");
    reveal_strlit("method");
    assert("error"@[0] != "status"@[0]);
    assert("path"@[0] != "error"@[0]);
    assert("path"@[0] != "status"@[0]);
    assert("method"@[0] != "error"@[0]);
    assert("method"@[0] != "status"@[0]);
}

/// The members of the answer to a request that the router refused with that error.
pub open spec fn refusal_members(code: i32, method: Seq<char>, path: Seq<char>) -> Seq<
    (Seq<char>, JsonView),
> {
    if code == 1 {
        error_members(404, "Not Found"@, seq![("path"@, path)])
    } else if code == 2 {
        error_members(405, "Method Not Allowed"@, seq![("method"@, method)])
    } else {
        error_members(500, "Internal Server Error"@, Seq::empty())
    }
}

/// Makes the answer to a request that the router refused with that error.
pub fn refuse(code: i32, method: &str, path: &str) -> (r: Reply)
    ensures
        r@ == refusal(code, method@, path@),
        reads_as_object(r.body@, refusal_members(code, method@, path@)),
        code == 1 ==> r.status == 404,
        code == 2 ==> r.status == 405,
        code != 1 && code != 2 ==> r.status == 500,
        r.body@.len() <= 0x3fff_ffff ==> (parsed(r.body@) matches Some(json) && json.member(
            "status"@,
        ) == Some(JsonView::Int(r.status as int)) && (code == 1 ==> json.member("error"@) == Some(
            JsonView::Text("Not Found"@),
        ) && json.member("path"@) == Some(JsonView::Text(path@))) && (code == 2 ==> json.member(
            "error"@,
        ) == Some(JsonView::Text("Method Not Allowed"@)) && json.member("method"@) == Some(
            JsonView::Text(method@),
        ))),
{
    proof {
        lemma_error_names();
        lemma_refusal(code, method@, path@, Map::empty());
        let members = refusal_members(code, method@, path@);
        lemma_position_unique(members, "error"@, 0);
        lemma_position_unique(members, "status"@, members.len() - 1);
        assert(lookup(members, "error"@) == Some(members[0].1));
        assert(lookup(members, "status"@) == Some(members[members.len() - 1].1));
        if code == 1 {
            lemma_position_unique(members, "path"@, 1);
            assert(lookup(members, "path"@) == Some(JsonView::Text(path@)));
        }
        if code == 2 {
            lemma_position_unique(members, "method"@, 1);
            assert(lookup(members, "method"@) == Some(JsonView::Text(method@)));
        }
    }
    match code {
        1 => error_reply(404, "Not Found", Some(("path", path))),
        2 => error_reply(405, "Method Not Allowed", Some(("method", method))),
        _ => error_reply(500, "Internal Server Error", None),
    }
}

/// What to do with a request once it is routed.
pub enum FirstStep {
    /// Reply at once.
    Serve(Reply),
    /// Refuse the request.
    Refuse(Reply),
    /// Read the body, up to a limit, and go on with [`take_body`].
    ReadBody { limit: usize },
}

/// What to do with a request once it is routed, as mathematical values.
#[verifier::ext_equal]
pub enum FirstView {
    Serve(ResponseView),
    Refuse(ResponseView),
    ReadBody { limit: usize },
}

impl View for FirstStep {
    type V = FirstView;

    open spec fn view(&self) -> FirstView {
        match self {
            FirstStep::Serve(reply) => FirstView::Serve(reply@),
            FirstStep::Refuse(reply) => FirstView::Refuse(reply@),
            FirstStep::ReadBody { limit } => FirstView::ReadBody { limit: *limit },
        }
    }
}

/// A request for that route is served without its handler: the route asks for no validation, the
/// path has no parameters, and a response is registered for the handler.
pub open spec fn is_native(
    route: (RouteMetadata, Seq<(Seq<char>, Seq<char>)>),
    responses: Map<u32, ResponseView>,
) -> bool {
    route.1.len() == 0 && route.0.dto_class is None && responses.contains_key(route.0.handler_id)
}

/// The size that the body of a request for that route may have.
pub open spec fn body_limit(route: RouteMetadata) -> usize {
    match route.max_body_size {
        Some(limit) => limit,
        None => usize::MAX,
    }
}

/// What to do with a request, given what came of routing it.
pub open spec fn first_view(
    matched: Result<(RouteMetadata, Seq<(Seq<char>, Seq<char>)>), i32>,
    responses: Map<u32, ResponseView>,
    method: Seq<char>,
    path: Seq<char>,
) -> FirstView {
    match matched {
        Ok(route) => if is_native(route, responses) {
            FirstView::Serve(reply_view(responses[route.0.handler_id]))
        } else {
            FirstView::ReadBody { limit: body_limit(route.0) }
        },
        Err(code) => FirstView::Refuse(refusal(code, method, path)),
    }
}

/// Decides what to do with a request, given what came of routing it.
pub fn first_step(
    matched: &Result<RouteMatch, i32>,
    responses: &NativeResponses,
    method: &str,
    path: &str,
) -> (r: FirstStep)
    requires
        responses.wf(),
    ensures
        r@ == first_view(match_view(*matched), responses@, method@, path@),
        (match (*matched, r) {
            (Ok(found), FirstStep::Serve(reply)) => {
                &&& found.params@.len() == 0
                &&& found.value.dto_class is None
                &&& responses@.contains_key(found.value.handler_id)
                &&& reply.body@ == responses@[found.value.handler_id].body
                &&& text_pairs(reply.headers@) == reply_headers(
                    responses@[found.value.handler_id].headers,
                )
            },
            (Ok(found), FirstStep::ReadBody { limit }) => {
                &&& found.params@.len() > 0 || found.value.dto_class is Some
                    || !responses@.contains_key(found.value.handler_id)
                &&& found.value.max_body_size matches Some(size) ==> limit == size
                &&& found.value.max_body_size is None ==> limit == usize::MAX
            },
            (Err(code), FirstStep::Refuse(reply)) => {
                &&& code == 1 ==> reply.status == 404
                &&& code == 2 ==> reply.status == 405
                &&& code != 1 && code != 2 ==> reply.status == 500
            },
            _ => false,
        }),
{
    match matched {
        Ok(found) => {
            if found.params.len() == 0 && found.value.dto_class.is_none() {
                if let Some(response) = responses.get(found.value.handler_id) {
                    return FirstStep::Serve(native_reply(response));
                }
            }
            FirstStep::ReadBody {
                limit: match found.value.max_body_size {
                    Some(limit) => limit,
                    None => usize::MAX,
                },
            }
        },
        Err(code) => FirstStep::Refuse(refuse(*code, method, path)),
    }
}

/// Routes a request and decides what to do with it.
pub fn begin_request(
    router: &QuillRouter,
    responses: &NativeResponses,
    method: &str,
    path: &str,
) -> (r: (Result<RouteMatch, i32>, FirstStep))
    requires
        router.wf(),
        responses.wf(),
    ensures
        match_view(r.0) == routed(router.manifest(), method@, path@),
        r.1@ == first_view(
            routed(router.manifest(), method@, path@),
            responses@,
            method@,
            path@,
        ),
        forall|at: int| #[trigger]
            is_literal_route(router.manifest(), method@, path@, at) ==> (r.0 matches Ok(found)
                && found.value == metadata(router.manifest()[at]) && found.params@.len() == 0),
{
    let matched = router.match_route(method, path);
    let step = first_step(&matched, responses, method, path);
    (matched, step)
}

/// What a handler is asked.
pub struct Question {
    pub handler_id: u32,
    pub params_json: String,
    pub dto_data_json: String,
}

/// What to do with a request once its body is read.
pub enum BodyStep {
    /// Reply at once.
    Serve(Reply),
    /// Ask the handler, and go on with [`conclude`].
    Ask(Question),
}

/// What to do with a request once its body is read, as mathematical values.
#[verifier::ext_equal]
pub enum BodyView {
    Serve(ResponseView),
    Ask { handler_id: u32, params_json: Seq<char>, dto_data_json: Seq<char> },
}

impl View for BodyStep {
    type V = BodyView;

    open spec fn view(&self) -> BodyView {
        match self {
            BodyStep::Serve(reply) => BodyView::Serve(reply@),
            BodyStep::Ask(question) => BodyView::Ask {
                handler_id: question.handler_id,
                params_json: question.params_json@,
                dto_data_json: question.dto_data_json@,
            },
        }
    }
}

/// What a handler is told of every request.
pub open spec fn request_fields(
    method: Seq<char>,
    path: Seq<char>,
    ip: Seq<char>,
    body: Seq<char>,
) -> Seq<(Seq<char>, Seq<char>)> {
    seq![("_method"@, method), ("_path"@, path), ("_ip"@, ip), ("_body"@, body)]
}

/// What a handler is told of a request: the fields of every request and the parameters in the
/// path, of which one may take the place of a field of the same name.
pub open spec fn request_params(
    method: Seq<char>,
    path: Seq<char>,
    ip: Seq<char>,
    body: Seq<char>,
    params: Seq<(Seq<char>, Seq<char>)>,
) -> Seq<(Seq<char>, Seq<char>)> {
    put_all(request_fields(method, path, ip, body), params)
}

/// A document tells a handler of a request: it is an object that gives the method, the path, the
/// address and the body of the request, and each parameter in the path, with its last value. A
/// parameter takes the place of a field of the same name. Nothing else is told.
pub open spec fn tells(
    told: JsonView,
    method: Seq<char>,
    path: Seq<char>,
    ip: Seq<char>,
    body: Seq<char>,
    params: Seq<(Seq<char>, Seq<char>)>,
) -> bool {
    &&& !has_name(params, "_method"@) ==> told.member("_method"@) == Some(JsonView::Text(method))
    &&& !has_name(params, "_path"@) ==> told.member("_path"@) == Some(JsonView::Text(path))
    &&& !has_name(params, "_ip"@) ==> told.member("_ip"@) == Some(JsonView::Text(ip))
    &&& !has_name(params, "_body"@) ==> told.member("_body"@) == Some(JsonView::Text(body))
    &&& forall|i: int|
        0 <= i < params.len() && (forall|j: int|
            i < j < params.len() ==> (#[trigger] params[j]).0 != params[i].0) ==> told.member(
            (#[trigger] params[i]).0,
        ) == Some(JsonView::Text(params[i].1))
    &&& forall|name: Seq<char>| #[trigger]
        told.member(name) is Some ==> name == "_method"@ || name == "_path"@ || name == "_ip"@
            || name == "_body"@ || has_name(params, name)
}

/// A response of a status and a text, without headers of its own.
pub open spec fn plain_view(status: u16, body: Seq<char>) -> ResponseView {
    ResponseView { status, body, headers: Seq::empty() }
}

/// What to do with a request whose body is that text, given what came of validating it.
pub open spec fn text_view(
    route: (RouteMetadata, Seq<(Seq<char>, Seq<char>)>),
    method: Seq<char>,
    path: Seq<char>,
    ip: Seq<char>,
    body: Seq<char>,
    validated: Option<Outcome>,
) -> BodyView {
    let params_json = printed(text_object(request_params(method, path, ip, body, route.1)));
    match validated {
        Some(Err(errors)) => BodyView::Serve(plain_view(400, printed(errors_object(errors)))),
        Some(Ok(data)) => BodyView::Ask {
            handler_id: route.0.handler_id,
            params_json,
            dto_data_json: printed(data),
        },
        None => BodyView::Ask {
            handler_id: route.0.handler_id,
            params_json,
            dto_data_json: "null"@,
        },
    }
}

/// The texts in what comes of a request whose body is that text read as the documents that they
/// were written from.
pub open spec fn text_reads_back(
    route: (RouteMetadata, Seq<(Seq<char>, Seq<char>)>),
    method: Seq<char>,
    path: Seq<char>,
    ip: Seq<char>,
    body: Seq<char>,
    validated: Option<Outcome>,
) -> bool {
    let params = text_object(request_params(method, path, ip, body, route.1));
    match validated {
        Some(Err(errors)) => reads_back(printed(errors_object(errors)), errors_object(errors)),
        Some(Ok(data)) => reads_back(printed(params), params) && reads_back(printed(data), data),
        None => reads_back(printed(params), params),
    }
}

/// What to do with a request whose body was read, or was not because it is over the limit. A
/// body that is not UTF-8 counts as empty.
pub open spec fn body_view(
    route: (RouteMetadata, Seq<(Seq<char>, Seq<char>)>),
    validator: Option<&ValidatorRegistry>,
    method: Seq<char>,
    path: Seq<char>,
    ip: Seq<char>,
    body: Option<&[u8]>,
) -> BodyView {
    match body {
        Some(bytes) => {
            let text = text_or(bytes@, ""@);
            text_view(route, method, path, ip, text, dto_outcome(route.0, validator, text))
        },
        None => BodyView::Serve(plain_view(413, "Request body too large"@)),
    }
}

/// What came of validating a body, where it was validated.
pub open spec fn checked_outcome(
    validated: Option<Result<Json, Vec<(String, Vec<String>)>>>,
) -> Option<Outcome> {
    match validated {
        Some(checked) => Some(outcome(checked)),
        None => None,
    }
}

/// Decides what to do with a request whose body is that text, given what came of validating it.
pub fn take_text(
    found: &RouteMatch,
    method: &str,
    path: &str,
    ip: &str,
    body: &str,
    validated: Option<Result<Json, Vec<(String, Vec<String>)>>>,
) -> (r: BodyStep)
    ensures
        r@ == text_view(
            (found.value, text_pairs(found.params@)),
            method@,
            path@,
            ip@,
            body@,
            checked_outcome(validated),
        ),
        text_reads_back(
            (found.value, text_pairs(found.params@)),
            method@,
            path@,
            ip@,
            body@,
            checked_outcome(validated),
        ),
        (match r {
            BodyStep::Ask(question) => {
                &&& question.handler_id == found.value.handler_id
                &&& question.params_json@.len() <= 0x3fff_ffff ==> (parsed(question.params_json@)
                    matches Some(told) && tells(
                    told,
                    method@,
                    path@,
                    ip@,
                    body@,
                    text_pairs(found.params@),
                ))
                &&& validated matches Some(Ok(data)) ==> question.dto_data_json@ == printed(data@)
                    && reads_back(question.dto_data_json@, data@)
                &&& validated is None ==> question.dto_data_json@ == "null"@
                &&& !(validated matches Some(Err(_)))
            },
            BodyStep::Serve(reply) => {
                &&& reply.status == 400
                &&& reply.headers@.len() == 0
                &&& validated matches Some(Err(errors)) && reply.body@ == printed(
                    errors_object(errors_view(errors@)),
                )
            },
        }),
{
    let ghost told = text_object(
        request_params(method@, path@, ip@, body@, text_pairs(found.params@)),
    );
    proof {
        lemma_told(method@, path@, ip@, body@, text_pairs(found.params@));
    }
    let dto_data_json = match validated {
        Some(Err(errors)) => {
            let reply = plain_reply(400, print_json(&errors_json(&errors)));
            assert(text_pairs(reply.headers@).len() == reply.headers@.len());
            return BodyStep::Serve(reply);
        },
        Some(Ok(data)) => print_json(&data),
        None => "null".to_owned(),
    };
    let mut params: Vec<(String, String)> = Vec::new();
    params.push(("_method".to_owned(), method.to_owned()));
    params.push(("_path".to_owned(), path.to_owned()));
    params.push(("_ip".to_owned(), ip.to_owned()));
    params.push(("_body".to_owned(), body.to_owned()));
    assert(text_pairs(params@) =~= request_fields(method@, path@, ip@, body@));
    put_texts(&mut params, &found.params);
    let params_json = print_json(&object_of_texts(&params));
    BodyStep::Ask(
        Question { handler_id: found.value.handler_id, params_json, dto_data_json },
    )
}

/// Validates the body of a request where its route asks for it, and decides what to do with the
/// request. There is no body where it is over the limit.
pub fn take_body(
    found: &RouteMatch,
    validator: Option<&ValidatorRegistry>,
    method: &str,
    path: &str,
    ip: &str,
    body: Option<&[u8]>,
) -> (r: BodyStep)
    requires
        validator matches Some(registry) ==> registry.wf(),
    ensures
        r@ == body_view(
            (found.value, text_pairs(found.params@)),
            validator,
            method@,
            path@,
            ip@,
            body,
        ),
        body matches Some(bytes) ==> text_reads_back(
            (found.value, text_pairs(found.params@)),
            method@,
            path@,
            ip@,
            text_or(bytes@, ""@),
            dto_outcome(found.value, validator, text_or(bytes@, ""@)),
        ),
        (match (body, r) {
            (Some(bytes), BodyStep::Ask(question)) => {
                &&& question.handler_id == found.value.handler_id
                &&& question.params_json@.len() <= 0x3fff_ffff ==> (parsed(question.params_json@)
                    matches Some(told) && tells(
                    told,
                    method@,
                    path@,
                    ip@,
                    text_or(bytes@, ""@),
                    text_pairs(found.params@),
                ))
                &&& found.value.dto_class is None || validator is None
                    ==> question.dto_data_json@ == "null"@
            },
            (Some(_), BodyStep::Serve(reply)) => reply.status == 400
                && found.value.dto_class is Some && validator is Some,
            (None, BodyStep::Serve(reply)) => reply.status == 413 && reply.body@
                == "Request body too large"@,
            (None, BodyStep::Ask(_)) => false,
        }),
{
    match body {
        Some(bytes) => {
            let text = read_text(bytes, "");
            let validated = check_dto(&found.value, validator, text);
            take_text(found, method, path, ip, text, validated)
        },
        None => BodyStep::Serve(plain_reply(413, "Request body too large".to_owned())),
    }
}

/// What became of a question to a handler.
pub enum Conclusion {
    /// The question could not be put into the queue.
    Busy,
    /// The handler did not answer in time.
    TimedOut,
    /// The handler will not answer.
    Dropped,
    /// The handler answered.
    Answered(String),
}

/// The document that a handler's answer reads as: an empty object where it is no JSON.
pub open spec fn answer_document(text: Seq<char>) -> JsonView {
    match parsed(text) {
        Some(json) => json,
        None => JsonView::Object(Seq::empty()),
    }
}

/// The document that a client gets of a handler that did not answer in time.
pub open spec fn timeout_document() -> JsonView {
    JsonView::Object(
        seq![
            ("status"@, JsonView::Int(504)),
            ("body"@, JsonView::Text("Gateway Timeout (PHP handler timed out)"@)),
        ],
    )
}

/// The reply to a request that was put to its handler.
pub open spec fn conclusion_view(conclusion: Conclusion) -> ResponseView {
    match conclusion {
        Conclusion::Busy => plain_view(503, "Server busy"@),
        Conclusion::TimedOut => plain_view(504, printed(timeout_document())),
        Conclusion::Dropped => reply_view(answer_view(answer_document("{}"@))),
        Conclusion::Answered(text) => reply_view(answer_view(answer_document(text@))),
    }
}

fn read_answer(text: &str) -> (r: Json)
    ensures
        r@ == answer_document(text@),
{
    match parse_json(text) {
        Some(json) => json,
        None => {
            let members: Vec<(String, Json)> = Vec::new();
            proof {
                lemma_object_view(members);
                assert(members_view(members@) =~= Seq::empty());
            }
            Json::Object(members)
        },
    }
}

/// Makes the reply to a request that was put to its handler.
pub fn conclude(conclusion: Conclusion) -> (r: Reply)
    ensures
        r@ == conclusion_view(conclusion),
        conclusion is TimedOut ==> reads_back(r.body@, timeout_document()),
        (match conclusion {
            Conclusion::Busy => r.status == 503 && r.body@ == "Server busy"@,
            Conclusion::TimedOut => r.status == 504,
            Conclusion::Dropped => true,
            Conclusion::Answered(text) => parsed(text@) matches Some(json) ==> {
                &&& json.member("body"@) matches Some(JsonView::Text(body)) ==> r.body@ == body
                &&& json.member("status"@) matches Some(JsonView::Int(n)) ==> (100 <= n <= 999
                    ==> r.status == n)
                &&& json.member("status"@) is None ==> r.status == 200
            },
        }),
{
    match conclusion {
        Conclusion::Busy => plain_reply(503, "Server busy".to_owned()),
        Conclusion::TimedOut => {
            let mut members: Vec<(String, Json)> = Vec::new();
            members.push(("status".to_owned(), Json::Natural(504)));
            members.push(
                (
                    "body".to_owned(),
                    Json::Text("Gateway Timeout (PHP handler timed out)".to_owned()),
                ),
            );
            proof {
                lemma_object_view(members);
                assert(members_view(members@) =~= timeout_document()->Object_0);
            }
            plain_reply(504, print_json(&Json::Object(members)))
        },
        Conclusion::Dropped => answer_reply(&read_answer("{}")),
        Conclusion::Answered(text) => answer_reply(&read_answer(text.as_str())),
    }
}

/// An answer that is no JSON, and one that is an empty object, is replied to with 200 and an empty
/// body.
pub proof fn lemma_empty_answer(text: String)
    requires
        parsed(text@) is None || parsed(text@) == Some(JsonView::Object(Seq::empty())),
    ensures
        conclusion_view(Conclusion::Answered(text)) == plain_view(200, ""@),
{
    let members = Seq::<(Seq<char>, JsonView)>::empty();
    lemma_position_unique(members, "status"@, 0);
    lemma_position_unique(members, "body"@, 0);
    lemma_position_unique(members, "headers"@, 0);
    assert(answer_view(JsonView::Object(members)).headers =~= Seq::empty());
}

/// A request is served without its handler only where its route asks for no validation, its path
/// has no parameters and a response is registered for its handler, and then it gets that
/// response.
pub proof fn lemma_native(
    manifest: Seq<RouteEntry>,
    responses: Map<u32, ResponseView>,
    method: Seq<char>,
    path: Seq<char>,
)
    ensures
        first_view(routed(manifest, method, path), responses, method, path) matches FirstView::Serve(
            reply,
        ) ==> (routed(manifest, method, path) matches Ok(route) && route.1.len() == 0
            && route.0.dto_class is None && responses.contains_key(route.0.handler_id) && reply
            == reply_view(responses[route.0.handler_id])),
{
}

/// Once a response is registered for a handler, every request for it without parameters and
/// validation gets that response, and requests for other handlers are served as before.
pub proof fn lemma_preloaded(
    matched: Result<(RouteMetadata, Seq<(Seq<char>, Seq<char>)>), i32>,
    responses: Map<u32, ResponseView>,
    handler_id: u32,
    response: ResponseView,
    method: Seq<char>,
    path: Seq<char>,
)
    ensures
        ({
            let after = first_view(matched, responses.insert(handler_id, response), method, path);
            match matched {
                Ok(route) => if route.0.handler_id == handler_id && route.1.len() == 0
                    && route.0.dto_class is None {
                    after == FirstView::Serve(reply_view(response))
                } else {
                    after == first_view(matched, responses, method, path)
                },
                Err(_) => after == first_view(matched, responses, method, path),
            }
        }),
{
}

/// A request gets 404 where no method of its path has a route, and 405 where only others have.
/// No request gets another refusal.
pub proof fn lemma_refused(
    manifest: Seq<RouteEntry>,
    responses: Map<u32, ResponseView>,
    method: Seq<char>,
    path: Seq<char>,
)
    ensures
        ({
            let step = first_view(routed(manifest, method, path), responses, method, path);
            let nowhere = forall|any: Seq<char>| #[trigger]
                method_match(manifest, any, path) is None;
            &&& (step matches FirstView::Refuse(answer) && answer.status == 404) <==> nowhere
            &&& (step matches FirstView::Refuse(answer) && answer.status == 405) <==> !nowhere
                && method_match(manifest, method, path) is None
            &&& step matches FirstView::Refuse(answer) ==> answer.status == 404 || answer.status
                == 405
        }),
{
    lemma_routed(manifest, method, path);
}

/// A handler is asked only of a request whose body is within the limit and, where the route asks
/// for validation, has passed it. A body that has not passed is answered with 400 and the
/// messages.
pub proof fn lemma_only_valid_bodies(
    route: (RouteMetadata, Seq<(Seq<char>, Seq<char>)>),
    validator: Option<&ValidatorRegistry>,
    method: Seq<char>,
    path: Seq<char>,
    ip: Seq<char>,
    body: Option<&[u8]>,
)
    ensures
        body_view(route, validator, method, path, ip, body) is Ask <==> (body matches Some(bytes)
            && !(dto_outcome(route.0, validator, text_or(bytes@, ""@)) matches Some(Err(_)))),
        (match body {
            Some(bytes) => match dto_outcome(route.0, validator, text_or(bytes@, ""@)) {
                Some(Err(errors)) => body_view(route, validator, method, path, ip, body)
                    == BodyView::Serve(plain_view(400, printed(errors_object(errors)))),
                _ => true,
            },
            None => true,
        }),
{
}

proof fn lemma_field_names()
    ensures
        "_method"@ != "_path"@,
        "_method"@ != "_ip"@,
        "_method"@ != "_body"@,
        "_path"@ != "_ip"@,
        "_path"@ != "_body"@,
        "_ip"@ != "_body"@,
{
    reveal_strlit("_method");
    reveal_strlit("_path");
    reveal_strlit("_ip");
    reveal_strlit("_body");
    assert("_method"@[1] != "_path"@[1]);
    assert("_method"@[1] != "_ip"@[1]);
    assert("_method"@[1] != "_body"@[1]);
    assert("_path"@[1] != "_ip"@[1]);
    assert("_path"@[1] != "_body"@[1]);
    assert("_ip"@[1] != "_body"@[1]);
}

/// A handler is told each name once: the method, the path, the address and the body of the
/// request, but for those names that parameters in the path have too, and of each parameter the
/// last value.
pub proof fn lemma_request_params(
    method: Seq<char>,
    path: Seq<char>,
    ip: Seq<char>,
    body: Seq<char>,
    params: Seq<(Seq<char>, Seq<char>)>,
)
    ensures
        ({
            let told = request_params(method, path, ip, body, params);
            &&& distinct(told)
            &&& !has_name(params, "_method"@) ==> lookup(told, "_method"@) == Some(method)
            &&& !has_name(params, "_path"@) ==> lookup(told, "_path"@) == Some(path)
            &&& !has_name(params, "_ip"@) ==> lookup(told, "_ip"@) == Some(ip)
            &&& !has_name(params, "_body"@) ==> lookup(told, "_body"@) == Some(body)
            &&& forall|i: int|
                0 <= i < params.len() && (forall|j: int|
                    i < j < params.len() ==> (#[trigger] params[j]).0 != params[i].0) ==> lookup(
                    told,
                    (#[trigger] params[i]).0,
                ) == Some(params[i].1)
        }),
{
    let fields = request_fields(method, path, ip, body);
    lemma_field_names();
    lemma_position_unique(fields, "_method"@, 0);
    lemma_position_unique(fields, "_path"@, 1);
    lemma_position_unique(fields, "_ip"@, 2);
    lemma_position_unique(fields, "_body"@, 3);
    lemma_put_all(fields, params, "_method"@);
    lemma_put_all(fields, params, "_path"@);
    lemma_put_all(fields, params, "_ip"@);
    lemma_put_all(fields, params, "_body"@);
    let told = request_params(method, path, ip, body, params);
    assert forall|i: int|
        0 <= i < params.len() && (forall|j: int|
            i < j < params.len() ==> (#[trigger] params[j]).0 != params[i].0) implies lookup(
        told,
        (#[trigger] params[i]).0,
    ) == Some(params[i].1) by {
        lemma_put_all(fields, params, params[i].0);
    }
}

proof fn lemma_told(
    method: Seq<char>,
    path: Seq<char>,
    ip: Seq<char>,
    body: Seq<char>,
    params: Seq<(Seq<char>, Seq<char>)>,
)
    ensures
        tells(
            text_object(request_params(method, path, ip, body, params)),
            method,
            path,
            ip,
            body,
            params,
        ),
        is_stable(text_object(request_params(method, path, ip, body, params))),
{
    let fields = request_fields(method, path, ip, body);
    let all = request_params(method, path, ip, body, params);
    let told = text_object(all);
    lemma_request_params(method, path, ip, body, params);
    assert forall|name: Seq<char>| true implies (match lookup(all, name) {
        Some(text) => #[trigger] told.member(name) == Some(JsonView::Text(text)),
        None => told.member(name) is None,
    }) by {
        lemma_text_object(all, name);
    }
    assert forall|name: Seq<char>| #[trigger] told.member(name) is Some implies name == "_method"@
        || name == "_path"@ || name == "_ip"@ || name == "_body"@ || has_name(params, name) by {
        lemma_put_all(fields, params, name);
        lemma_position(fields, name);
        if has_name(fields, name) {
            let p = position(fields, name);
            assert(fields[p].0 == name);
        }
    }
    lemma_text_object(all, ""@);
}

/// Whenever a handler is asked, whether or not the body was validated, it is the handler of the
/// route. It is told the text of an object that gives the method, the path, the address and the
/// body of the request, and each parameter in the path with its last value, and that has no other
/// member. It gets the text of the data where the body was validated, and `null` where not.
pub proof fn lemma_asked(
    route: (RouteMetadata, Seq<(Seq<char>, Seq<char>)>),
    validator: Option<&ValidatorRegistry>,
    method: Seq<char>,
    path: Seq<char>,
    ip: Seq<char>,
    bytes: &[u8],
)
    ensures
        (match body_view(route, validator, method, path, ip, Some(bytes)) {
            BodyView::Ask { handler_id, params_json, dto_data_json } => {
                &&& handler_id == route.0.handler_id
                &&& exists|told: JsonView|
                    #![trigger printed(told)]
                    {
                        &&& params_json == printed(told)
                        &&& is_stable(told)
                        &&& told.member("_method"@) == Some(JsonView::Text(method)) || has_name(
                            route.1,
                            "_method"@,
                        )
                        &&& told.member("_path"@) == Some(JsonView::Text(path)) || has_name(
                            route.1,
                            "_path"@,
                        )
                        &&& told.member("_ip"@) == Some(JsonView::Text(ip)) || has_name(
                            route.1,
                            "_ip"@,
                        )
                        &&& told.member("_body"@) == Some(
                            JsonView::Text(text_or(bytes@, ""@)),
                        ) || has_name(route.1, "_body"@)
                        &&& forall|i: int|
                            0 <= i < route.1.len() && (forall|j: int|
                                i < j < route.1.len() ==> (#[trigger] route.1[j]).0
                                    != route.1[i].0) ==> told.member((#[trigger] route.1[i]).0)
                                == Some(JsonView::Text(route.1[i].1))
                        &&& forall|name: Seq<char>| #[trigger]
                            told.member(name) is Some ==> name == "_method"@ || name == "_path"@
                                || name == "_ip"@ || name == "_body"@ || has_name(route.1, name)
                    }
                &&& (match (route.0.dto_class, validator) {
                    (Some(dto), Some(registry)) => body_validation(
                        registry.schemas(),
                        registry.patterns(),
                        dto@,
                        parsed(text_or(bytes@, ""@)),
                    ) matches Ok(data) && dto_data_json == printed(data),
                    _ => dto_data_json == "null"@,
                })
            },
            BodyView::Serve(reply) => {
                &&& reply.status == 400
                &&& reply.headers.len() == 0
                &&& (match (route.0.dto_class, validator) {
                    (Some(dto), Some(registry)) => body_validation(
                        registry.schemas(),
                        registry.patterns(),
                        dto@,
                        parsed(text_or(bytes@, ""@)),
                    ) matches Err(errors) && reply.body == printed(errors_object(errors)),
                    _ => false,
                })
            },
        }),
        (match body_view(route, validator, method, path, ip, None) {
            BodyView::Serve(reply) => reply.status == 413 && reply.body
                == "Request body too large"@ && reply.headers.len() == 0,
            BodyView::Ask { .. } => false,
        }),
{
    let body = text_or(bytes@, ""@);
    let told = text_object(request_params(method, path, ip, body, route.1));
    lemma_told(method, path, ip, body, route.1);
    lemma_dto_outcome(route.0, validator, body);
    if let BodyView::Ask { params_json, .. } = body_view(
        route,
        validator,
        method,
        path,
        ip,
        Some(bytes),
    ) {
        assert(params_json == printed(told));
    }
}

/// A request whose route is found is served without its handler exactly where its path has no
/// parameters, its route asks for no validation and a response is registered for its handler. It
/// then gets that response. Of any other the body is read, up to the size that the route says, or
/// up to any size where it says none.
pub proof fn lemma_first_step(
    route: (RouteMetadata, Seq<(Seq<char>, Seq<char>)>),
    responses: Map<u32, ResponseView>,
    method: Seq<char>,
    path: Seq<char>,
)
    ensures
        (match first_view(Ok(route), responses, method, path) {
            FirstView::Serve(reply) => {
                &&& route.1.len() == 0
                &&& route.0.dto_class is None
                &&& responses.contains_key(route.0.handler_id)
                &&& reply.body == responses[route.0.handler_id].body
                &&& 100 <= responses[route.0.handler_id].status <= 999 ==> reply.status
                    == responses[route.0.handler_id].status
                &&& reply.headers == reply_headers(responses[route.0.handler_id].headers)
            },
            FirstView::ReadBody { limit } => {
                &&& route.1.len() > 0 || route.0.dto_class is Some || !responses.contains_key(
                    route.0.handler_id,
                )
                &&& (match route.0.max_body_size {
                    Some(size) => limit == size,
                    None => limit == usize::MAX,
                })
            },
            FirstView::Refuse(_) => false,
        }),
{
    if responses.contains_key(route.0.handler_id) {
        lemma_reply(responses[route.0.handler_id]);
    }
}

/// A request that the router refused is answered with the text of a JSON object. The object gives
/// the error and the status, and the path where it was not found, or the method where it is not
/// allowed.
pub proof fn lemma_refusal(
    code: i32,
    method: Seq<char>,
    path: Seq<char>,
    responses: Map<u32, ResponseView>,
)
    ensures
        first_view(Err(code), responses, method, path) == FirstView::Refuse(
            refusal(code, method, path),
        ),
        refusal(code, method, path).headers == seq![("content-type"@, "application/json"@)],
        refusal(1, method, path).status == 404,
        refusal(1, method, path).body == serde_printed(
            seq![("error"@, "Not Found"@), ("path"@, path)],
            seq![("status"@, 404u64)],
        ),
        refusal(2, method, path).status == 405,
        refusal(2, method, path).body == serde_printed(
            seq![("error"@, "Method Not Allowed"@), ("method"@, method)],
            seq![("status"@, 405u64)],
        ),
        code != 1 && code != 2 ==> refusal(code, method, path).status == 500 && refusal(
            code,
            method,
            path,
        ).body == serde_printed(
            seq![("error"@, "Internal Server Error"@)],
            seq![("status"@, 500u64)],
        ),
        refusal_members(1, method, path) == seq![
            ("error"@, JsonView::Text("Not Found"@)),
            ("path"@, JsonView::Text(path)),
            ("status"@, JsonView::Int(404)),
        ],
        refusal_members(2, method, path) == seq![
            ("error"@, JsonView::Text("Method Not Allowed"@)),
            ("method"@, JsonView::Text(method)),
            ("status"@, JsonView::Int(405)),
        ],
        code != 1 && code != 2 ==> refusal_members(code, method, path) == seq![
            ("error"@, JsonView::Text("Internal Server Error"@)),
            ("status"@, JsonView::Int(500)),
        ],
{
    assert(seq![("error"@, "Not Found"@)] + seq![("path"@, path)] =~= seq![
        ("error"@, "Not Found"@),
        ("path"@, path),
    ]);
    assert(seq![("error"@, "Method Not Allowed"@)] + seq![("method"@, method)] =~= seq![
        ("error"@, "Method Not Allowed"@),
        ("method"@, method),
    ]);
    assert(seq![("error"@, "Internal Server Error"@)] + Seq::empty() =~= seq![
        ("error"@, "Internal Server Error"@),
    ]);
}

/// The string that a handler's answer has for a body is the body of the reply, whatever the
/// status, and a status from 100 to 999 is the status of the reply. An answer that has no body is
/// replied to with an empty one, and one that has no status with 200.
pub proof fn lemma_answered(text: String, json: JsonView)
    requires
        parsed(text@) == Some(json),
    ensures
        ({
            let reply = conclusion_view(Conclusion::Answered(text));
            &&& (match json.member("body"@) {
                Some(JsonView::Text(body)) => reply.body == body,
                _ => reply.body == ""@,
            })
            &&& (match json.member("status"@) {
                Some(JsonView::Int(n)) => {
                    &&& 100 <= n <= 999 ==> reply.status == n
                    &&& 0 <= n < 100 || 999 < n < 0x1_0000 ==> reply.status == 200
                    &&& n < 0 ==> reply.status == 200
                },
                _ => reply.status == 200,
            })
            &&& (match json.member("headers"@) {
                Some(JsonView::Object(_)) => reply.headers == reply_headers(
                    answer_view(json).headers,
                ),
                _ => reply.headers.len() == 0,
            })
        }),
{
    lemma_answer(json);
    lemma_stated_status(json);
    lemma_reply(answer_view(json));
}

/// A request that found no place in the queue gets 503, and one whose handler did not answer in
/// time 504 and an object that says so. One whose handler will not answer is replied to as if it
/// had answered with an empty object.
pub proof fn lemma_unanswered(text: String)
    requires
        text@ == "{}"@,
    ensures
        conclusion_view(Conclusion::Busy).status == 503,
        conclusion_view(Conclusion::Busy).body == "Server busy"@,
        conclusion_view(Conclusion::Busy).headers.len() == 0,
        conclusion_view(Conclusion::TimedOut).status == 504,
        conclusion_view(Conclusion::TimedOut).headers.len() == 0,
        conclusion_view(Conclusion::TimedOut).body == printed(
            JsonView::Object(
                seq![
                    ("status"@, JsonView::Int(504)),
                    ("body"@, JsonView::Text("Gateway Timeout (PHP handler timed out)"@)),
                ],
            ),
        ),
        conclusion_view(Conclusion::Dropped) == conclusion_view(Conclusion::Answered(text)),
{
}

} // verus!
