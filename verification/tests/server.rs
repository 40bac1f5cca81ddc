use quill_core::json::{parse_json, Json};
use quill_core::manifest::RouteEntry;
use quill_core::metrics::{quill_server_stats, stats_json, Metrics};
use quill_core::pending::{
    quill_server_drain, quill_server_poll, quill_server_respond, DrainGate, PendingRequest,
    PendingResponses, RequestIds,
};
use quill_core::response::{
    answer_reply, native_reply, native_response, plain_reply, quill_route_preload, NativeResponses,
    Reply,
};
use quill_core::router::{QuillRouter, RouteMatch};
use quill_core::server::{
    begin_request, conclude, first_step, quill_server_listen, refuse, take_body, take_text,
    BodyStep, Conclusion, FirstStep, QueueLimit, RequestQueue,
};
use quill_core::validator::{DtoSchema, FieldSchema, ValidationRule, ValidatorRegistry};
use tokio::sync::oneshot;

fn pair(name: &str, value: &str) -> (String, String) {
    (name.to_string(), value.to_string())
}

fn parts(reply: Reply) -> (u16, String, Vec<(String, String)>) {
    (reply.status, reply.body, reply.headers)
}

fn entry(method: &str, pattern: &str, handler_id: u32, dto: Option<&str>, limit: Option<usize>) -> RouteEntry {
    RouteEntry {
        method: method.to_string(),
        pattern: pattern.to_string(),
        handler_id,
        dto_class: dto.map(|name| name.to_string()),
        max_body_size: limit,
    }
}

fn router() -> QuillRouter {
    QuillRouter::new(vec![
        entry("GET", "/", 1, None, None),
        entry("GET", "/users/{id}", 2, None, None),
        entry("POST", "/users", 3, Some("User"), Some(16)),
        entry("GET", "/{_path}/x/{_path}", 4, None, None),
    ])
}

fn registry() -> ValidatorRegistry {
    let mut registry = ValidatorRegistry::new();
    let field = FieldSchema {
        rules: vec![ValidationRule::Numeric],
        is_nullable: false,
        has_default: false,
        default_value: None,
    };
    registry.register("User".to_string(), DtoSchema::new().with_field("id".to_string(), field));
    registry
}

fn matched(method: &str, path: &str) -> RouteMatch {
    router().match_route(method, path).unwrap()
}

#[test]
fn a_document_registers_a_response() {
    let json = parse_json(
        "{\"status\":201,\"body\":\"hi\",\"headers\":{\"X-A\":\"1\",\"n\":2,\"x-a\":\"3\"}}",
    )
    .unwrap();
    let response = native_response(&json);
    assert_eq!(response.status, 201);
    assert_eq!(response.body, "hi");
    assert_eq!(response.headers, vec![pair("X-A", "1"), pair("x-a", "3")]);
    assert_eq!(parts(native_reply(&response)), (201, "hi".to_string(), vec![pair("x-a", "3")]));
}

#[test]
fn a_document_without_members_registers_an_empty_response() {
    for text in ["{}", "[]", "1", "{\"status\":\"x\",\"body\":1,\"headers\":[]}", "{\"status\":-1}"] {
        let response = native_response(&parse_json(text).unwrap());
        assert_eq!((response.status, response.body.as_str()), (200, ""));
        assert_eq!(response.headers.len(), 0);
    }
}

#[test]
fn a_status_is_cut_to_its_width() {
    let of = |text: &str| answer_reply(&parse_json(text).unwrap()).status;
    assert_eq!(of("{\"status\":404}"), 404);
    assert_eq!(of("{\"status\":65736}"), 200);
    assert_eq!(of("{\"status\":65940}"), 404);
    assert_eq!(of("{\"status\":99}"), 200);
    assert_eq!(of("{\"status\":100}"), 100);
    assert_eq!(of("{\"status\":999}"), 999);
    assert_eq!(of("{\"status\":1000}"), 200);
    assert_eq!(of("{\"status\":18446744073709551615}"), 200);
}

#[test]
fn headers_that_a_client_cannot_get_are_passed_over() {
    let json = parse_json(
        "{\"headers\":{\"Content-Type\":\"a/b\",\"bad name\":\"x\",\"\":\"x\",\"line\":\"a\\nb\",\
          \"tab\":\"a\\tb\",\"del\":\"\\u007f\",\"acc\":\"\u{e9}\",\"num\":5,\"sep\\\"\":\"x\",\
          \"!#$%&'*+-.^_`|~09azAZ\":\"y\"}}",
    )
    .unwrap();
    let (status, body, headers) = parts(answer_reply(&json));
    assert_eq!((status, body.as_str()), (200, ""));
    assert_eq!(
        headers,
        vec![
            pair("content-type", "a/b"),
            pair("tab", "a\tb"),
            pair("acc", "\u{e9}"),
            pair("num", ""),
            pair("!#$%&'*+-.^_`|~09azaz", "y"),
        ]
    );
}

#[test]
fn long_header_names_have_a_limit() {
    let of = |len: usize| {
        let json = Json::Object(vec![(
            "headers".to_string(),
            Json::Object(vec![("N".repeat(len), Json::Text("v".to_string()))]),
        )]);
        answer_reply(&json).headers
    };
    assert_eq!(of(65535), vec![("n".repeat(65535), "v".to_string())]);
    assert_eq!(of(65536).len(), 0);
}

#[test]
fn only_json_objects_of_text_are_preloaded() {
    let mut responses = NativeResponses::new();
    assert_eq!(quill_route_preload(&mut responses, 1, None), 1);
    assert_eq!(quill_route_preload(&mut responses, 1, Some(&[])), 1);
    assert_eq!(quill_route_preload(&mut responses, 1, Some(&[0xff])), 1);
    assert_eq!(quill_route_preload(&mut responses, 1, Some(b"{")), 1);
    assert!(responses.get(1).is_none());
    assert_eq!(quill_route_preload(&mut responses, 1, Some(b"{\"body\":\"a\"}")), 0);
    assert_eq!(quill_route_preload(&mut responses, 1, Some(b"{\"body\":\"b\"}")), 0);
    assert_eq!(responses.get(1).map(|r| r.body.clone()), Some("b".to_string()));
    assert!(responses.get(2).is_none());
}

#[test]
fn a_registered_response_is_served_without_its_handler() {
    let router = router();
    let mut responses = NativeResponses::new();
    for id in 1..4 {
        quill_route_preload(&mut responses, id, Some(b"{\"status\":202,\"body\":\"hi\"}"));
    }
    match begin_request(&router, &responses, "GET", "/").1 {
        FirstStep::Serve(reply) => assert_eq!(parts(reply), (202, "hi".to_string(), vec![])),
        _ => panic!("the response is registered"),
    }
    assert!(matches!(
        begin_request(&router, &responses, "GET", "/users/1").1,
        FirstStep::ReadBody { limit: usize::MAX }
    ));
    assert!(matches!(
        begin_request(&router, &responses, "POST", "/users").1,
        FirstStep::ReadBody { limit: 16 }
    ));
    assert!(matches!(
        begin_request(&router, &NativeResponses::new(), "GET", "/").1,
        FirstStep::ReadBody { .. }
    ));
}

#[test]
fn a_request_without_route_is_refused() {
    let router = router();
    let responses = NativeResponses::new();
    let (matched, step) = begin_request(&router, &responses, "GET", "/no");
    assert_eq!(matched.err(), Some(1));
    match step {
        FirstStep::Refuse(reply) => assert_eq!(
            parts(reply),
            (
                404,
                "{\"error\":\"Not Found\",\"path\":\"/no\",\"status\":404}".to_string(),
                vec![pair("content-type", "application/json")]
            )
        ),
        _ => panic!("there is no such route"),
    }
    match begin_request(&router, &responses, "PUT", "/users").1 {
        FirstStep::Refuse(reply) => assert_eq!(
            parts(reply),
            (
                405,
                "{\"error\":\"Method Not Allowed\",\"method\":\"PUT\",\"status\":405}".to_string(),
                vec![pair("content-type", "application/json")]
            )
        ),
        _ => panic!("there is no such method"),
    }
    assert_eq!(
        parts(refuse(7, "GET", "/")),
        (
            500,
            "{\"error\":\"Internal Server Error\",\"status\":500}".to_string(),
            vec![pair("content-type", "application/json")]
        )
    );
    assert_eq!(
        refuse(1, "GET", "/\"\n").body,
        "{\"error\":\"Not Found\",\"path\":\"/\\\"\\n\",\"status\":404}"
    );
    assert!(matches!(first_step(&Err(3), &responses, "GET", "/"), FirstStep::Refuse(_)));
}

fn asked(step: BodyStep) -> (u32, String, String) {
    match step {
        BodyStep::Ask(question) => (question.handler_id, question.params_json, question.dto_data_json),
        BodyStep::Serve(_) => panic!("the handler is not asked"),
    }
}

fn served(step: BodyStep) -> (u16, String, Vec<(String, String)>) {
    match step {
        BodyStep::Serve(reply) => parts(reply),
        BodyStep::Ask(_) => panic!("the handler is asked"),
    }
}

#[test]
fn a_handler_is_told_of_the_request() {
    let found = matched("GET", "/users/42");
    let step = take_body(&found, None, "GET", "/users/42", "1.2.3.4", Some(b"text"));
    assert_eq!(
        asked(step),
        (
            2,
            "{\"_method\":\"GET\",\"_path\":\"/users/42\",\"_ip\":\"1.2.3.4\",\"_body\":\"text\",\
              \"id\":\"42\"}"
                .to_string(),
            "null".to_string()
        )
    );
    let step = take_body(&found, None, "GET", "/users/42", "::1", Some(&[0xff]));
    assert_eq!(
        asked(step).1,
        "{\"_method\":\"GET\",\"_path\":\"/users/42\",\"_ip\":\"::1\",\"_body\":\"\",\"id\":\"42\"}"
    );
}

#[test]
fn a_parameter_takes_the_place_of_a_field() {
    let mut found = matched("GET", "/users/42");
    found.params = vec![pair("_path", "a"), pair("k", "b"), pair("_path", "c")];
    let step = take_body(&found, None, "GET", "/p", "ip", Some(b""));
    assert_eq!(
        asked(step).1,
        "{\"_method\":\"GET\",\"_path\":\"c\",\"_ip\":\"ip\",\"_body\":\"\",\"k\":\"b\"}"
    );
}

#[test]
fn only_a_valid_body_reaches_its_handler() {
    let registry = registry();
    let found = matched("POST", "/users");
    let step = take_body(&found, Some(&registry), "POST", "/users", "ip", Some(b"{\"id\":1,\"x\":2}"));
    assert_eq!(asked(step).2, "{\"id\":1}");
    let step = take_body(&found, Some(&registry), "POST", "/users", "ip", Some(b"{\"id\":\"x\"}"));
    assert_eq!(
        served(step),
        (400, "{\"id\":[\"The field 'id' must be a number.\"]}".to_string(), vec![])
    );
    let step = take_body(&found, None, "POST", "/users", "ip", Some(b"no"));
    assert_eq!(asked(step).2, "null");
}

#[test]
fn a_body_over_the_limit_is_answered() {
    let found = matched("GET", "/users/42");
    let step = take_body(&found, None, "GET", "/users/42", "ip", None);
    assert_eq!(served(step), (413, "Request body too large".to_string(), vec![]));
}

#[test]
fn a_validation_decides_where_a_body_goes() {
    let found = matched("POST", "/users");
    let step = take_text(&found, "POST", "/users", "ip", "b", Some(Ok(Json::Bool(true))));
    assert_eq!(asked(step).2, "true");
    let errors = vec![("f".to_string(), vec!["m".to_string()])];
    let step = take_text(&found, "POST", "/users", "ip", "b", Some(Err(errors)));
    assert_eq!(served(step), (400, "{\"f\":[\"m\"]}".to_string(), vec![]));
}

#[test]
fn a_conclusion_becomes_a_reply() {
    assert_eq!(parts(conclude(Conclusion::Busy)), (503, "Server busy".to_string(), vec![]));
    assert_eq!(
        parts(conclude(Conclusion::TimedOut)),
        (
            504,
            "{\"status\":504,\"body\":\"Gateway Timeout (PHP handler timed out)\"}".to_string(),
            vec![]
        )
    );
    assert_eq!(parts(conclude(Conclusion::Dropped)), (200, String::new(), vec![]));
    assert_eq!(
        parts(conclude(Conclusion::Answered("no json".to_string()))),
        (200, String::new(), vec![])
    );
    let text = "{\"status\":201,\"body\":\"made\",\"headers\":{\"Location\":\"/x\"}}";
    assert_eq!(
        parts(conclude(Conclusion::Answered(text.to_string()))),
        (201, "made".to_string(), vec![pair("location", "/x")])
    );
    assert_eq!(parts(plain_reply(418, "t".to_string())), (418, "t".to_string(), vec![]));
}

fn request(id: u32, params: &str) -> (PendingRequest, oneshot::Receiver<String>) {
    let (response_tx, rx) = oneshot::channel();
    let request = PendingRequest {
        id,
        handler_id: 5,
        params_json: params.to_string(),
        dto_data_json: "null".to_string(),
        response_tx,
    };
    (request, rx)
}

#[test]
fn a_polled_request_gets_its_response_once() {
    let mut pending = PendingResponses::new();
    let (mut id, mut handler) = (0, 0);
    let (mut params, mut dto) = ([1u8; 8], [1u8; 3]);
    let (first, mut first_rx) = request(10, "{\"a\":1}");
    let (second, mut second_rx) = request(11, "{}");
    let code = quill_server_poll(&mut pending, Some(first), &mut id, &mut handler, &mut params, &mut dto);
    assert_eq!((code, id, handler), (1, 10, 5));
    assert_eq!(&params, b"{\"a\":1}\0");
    assert_eq!(&dto, b"nu\0");
    let code = quill_server_poll(&mut pending, Some(second), &mut id, &mut handler, &mut params, &mut dto);
    assert_eq!((code, id), (1, 11));
    let code = quill_server_poll(&mut pending, None, &mut id, &mut handler, &mut params, &mut dto);
    assert_eq!((code, id), (0, 11));

    let mut delivery = None;
    assert_eq!(quill_server_respond(&mut pending, 10, None, &mut delivery), 1);
    assert_eq!(quill_server_respond(&mut pending, 12, Some(b"x"), &mut delivery), 1);
    assert!(delivery.is_none());
    assert_eq!(quill_server_respond(&mut pending, 10, Some(b"one"), &mut delivery), 0);
    let out = delivery.take().unwrap();
    out.response_tx.send(out.response).unwrap();
    assert_eq!(first_rx.try_recv(), Ok("one".to_string()));
    assert!(second_rx.try_recv().is_err());
    assert_eq!(quill_server_respond(&mut pending, 10, Some(b"two"), &mut delivery), 1);
    assert_eq!(quill_server_respond(&mut pending, 11, Some(&[0xff]), &mut delivery), 0);
    assert_eq!(delivery.take().unwrap().response, "{}");
}

#[test]
fn ids_carry_the_process_and_the_number() {
    let mut ids = RequestIds::new();
    assert_eq!(ids.issue(0x1234_5678), 0x7800_0001);
    assert_eq!(ids.issue(0x1234_5678), 0x7800_0002);
    assert_eq!(ids.issue(0x1234_5679), 0x7900_0003);
    let mut seen = vec![];
    for _ in 0..1000 {
        let id = ids.issue(7);
        assert!(!seen.contains(&id));
        seen.push(id);
    }
}

#[test]
fn test_drain_signal_behavior() {
    // No server is running, so there is nothing to drain.
    let mut gate = DrainGate::new();
    let mut signal = None;
    let res = quill_server_drain(&mut gate, &mut signal);
    assert_eq!(res, 1);
    assert!(signal.is_none());
}

#[test]
fn a_running_server_is_drained_once() {
    let mut gate = DrainGate::new();
    let (tx, mut rx) = oneshot::channel();
    gate.arm(tx);
    let mut signal = None;
    assert_eq!(quill_server_drain(&mut gate, &mut signal), 0);
    signal.take().unwrap().send(()).unwrap();
    assert_eq!(rx.try_recv(), Ok(()));
    assert_eq!(quill_server_drain(&mut gate, &mut signal), 1);
    assert!(signal.is_none());
}

#[test]
fn test_metrics_tracking() {
    let stats_str = quill_server_stats(&Metrics::new(), 0);
    let stats = parse_json(&stats_str).unwrap();

    // Total requests should be at least 0
    assert!(stats.get("requests_total").and_then(|v| v.as_u64()).is_some());
}

#[test]
fn requests_are_counted_and_averaged() {
    let mut metrics = Metrics::new();
    metrics.begin();
    metrics.begin();
    metrics.begin();
    metrics.finish(10);
    metrics.finish(15);
    assert_eq!((metrics.total, metrics.active, metrics.latency_us), (3, 1, 25));
    metrics.workers = 4;
    assert_eq!(
        quill_server_stats(&metrics, 6),
        "{\"requests_total\":3,\"requests_active\":1,\"avg_latency_us\":8,\"queue_depth\":6,\"workers\":4}"
    );
    assert_eq!(
        quill_server_stats(&Metrics::new(), 0),
        "{\"requests_total\":0,\"requests_active\":0,\"avg_latency_us\":0,\"queue_depth\":0,\"workers\":0}"
    );
    let depth = stats_json(&metrics, 6).get("queue_depth").and_then(|v| v.as_u64());
    assert_eq!(depth, Some(6));
}

#[test]
fn counts_start_over_at_zero() {
    let mut metrics = Metrics { total: u64::MAX, active: 0, latency_us: u64::MAX, workers: 0 };
    metrics.finish(2);
    assert_eq!((metrics.active, metrics.latency_us), (u64::MAX, 1));
    metrics.begin();
    assert_eq!((metrics.total, metrics.active), (0, 0));
}

#[test]
fn a_server_is_set_up_as_asked() {
    let mut metrics = Metrics::new();
    let mut queue = RequestQueue::new();
    assert_eq!(quill_server_listen(&mut queue, &mut metrics, false, 4, 10).err(), Some(1));
    assert_eq!(metrics.workers, 0);
    let plan = quill_server_listen(&mut queue, &mut metrics, true, 4, 10).unwrap();
    assert!(matches!(plan.new_queue, Some(QueueLimit::AtMost(10))));
    assert_eq!(plan.threads, Some(4));
    assert_eq!(metrics.workers, 4);
    let plan = quill_server_listen(&mut queue, &mut metrics, true, -1, 0).unwrap();
    assert!(plan.new_queue.is_none());
    assert_eq!(plan.threads, None);
    assert_eq!(metrics.workers, u32::MAX);
    let mut other = RequestQueue::new();
    let plan = quill_server_listen(&mut other, &mut metrics, true, 0, 0).unwrap();
    assert!(matches!(plan.new_queue, Some(QueueLimit::Any)));
}

#[test]
fn each_valid_header_reaches_the_client() {
    let json = parse_json("{\"headers\":{\"A\":\"1\",\"b\":\"2\",\"a\":\"\\u0000\"}}").unwrap();
    assert_eq!(answer_reply(&json).headers, vec![pair("a", "1"), pair("b", "2")]);
}

#[test]
fn a_refusal_reads_as_the_object_that_it_was_made_from() {
    match parse_json(&refuse(1, "GET", "/\u{e9}\"").body) {
        Some(Json::Object(members)) => {
            assert_eq!(members.len(), 3);
            for (name, value) in &members {
                match name.as_str() {
                    "error" => assert!(matches!(value, Json::Text(text) if text == "Not Found")),
                    "path" => assert!(matches!(value, Json::Text(text) if text == "/\u{e9}\"")),
                    "status" => assert!(matches!(value, Json::Natural(404))),
                    _ => panic!("{}", name),
                }
            }
        }
        _ => panic!("a refusal is an object"),
    }
}
