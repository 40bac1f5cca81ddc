use quill_core::dispatch::{
    dispatch_json, quill_router_build, quill_router_dispatch, quill_router_match, reread_json,
};
use quill_core::json::{parse_json, print_json};
use quill_core::manifest::RouteEntry;
use quill_core::pattern::{has_few_parameters, offer};
use quill_core::router::{is_routable, QuillRouter};
use quill_core::validator::{
    DtoSchema, FieldSchema, ValidationRule, ValidatorRegistry,
};

fn entry(method: &str, pattern: &str, handler_id: u32, dto: Option<&str>) -> RouteEntry {
    RouteEntry {
        method: method.to_string(),
        pattern: pattern.to_string(),
        handler_id,
        dto_class: dto.map(|name| name.to_string()),
        max_body_size: None,
    }
}

fn router() -> QuillRouter {
    QuillRouter::new(vec![
        entry("GET", "/", 1, None),
        entry("GET", "/users/{id}", 2, None),
        entry("POST", "/users", 3, Some("User")),
        entry("GET", "/users/me", 4, None),
        entry("GET", "/files/{*path}", 5, None),
        entry("GET", "/users/me", 6, None),
        entry("DELETE", "/a/{x}/b/{y}", 7, None),
    ])
}

fn registry() -> ValidatorRegistry {
    let mut registry = ValidatorRegistry::new();
    let field = FieldSchema {
        rules: vec![ValidationRule::Numeric],
        is_nullable: false,
        has_default: false,
        default_value: None,
    };
    registry.register("User".to_string(), DtoSchema::new().with_field("id".to_string(), field));
    registry
}

fn found(router: &QuillRouter, method: &str, path: &str) -> Result<(u32, Vec<(String, String)>), i32> {
    router.match_route(method, path).map(|m| (m.value.handler_id, m.params))
}

fn pair(name: &str, value: &str) -> (String, String) {
    (name.to_string(), value.to_string())
}

#[test]
fn a_request_is_routed_by_method_and_path() {
    let router = router();
    assert_eq!(found(&router, "GET", "/"), Ok((1, vec![])));
    assert_eq!(found(&router, "GET", "/users/42"), Ok((2, vec![pair("id", "42")])));
    assert_eq!(found(&router, "GET", "/files/a/b.txt"), Ok((5, vec![pair("path", "a/b.txt")])));
    assert_eq!(
        found(&router, "DELETE", "/a/1/b/2"),
        Ok((7, vec![pair("x", "1"), pair("y", "2")]))
    );
}

#[test]
fn a_literal_route_is_found_first() {
    assert_eq!(found(&router(), "GET", "/users/me"), Ok((4, vec![])));
}

#[test]
fn an_unknown_path_is_told_from_another_method() {
    let router = router();
    assert_eq!(found(&router, "GET", "/nowhere"), Err(1));
    assert_eq!(found(&router, "POST", "/users/42"), Err(2));
    assert_eq!(found(&router, "PATCH", "/users"), Err(2));
    assert_eq!(found(&router, "PATCH", "/nowhere"), Err(1));
    assert_eq!(found(&QuillRouter::new(vec![]), "GET", "/"), Err(1));
}

#[test]
fn a_route_carries_what_the_manifest_says() {
    let router = QuillRouter::new(vec![RouteEntry {
        method: "PUT".to_string(),
        pattern: "/x".to_string(),
        handler_id: 9,
        dto_class: Some("X".to_string()),
        max_body_size: Some(10),
    }]);
    let found = router.match_route("PUT", "/x").unwrap();
    assert_eq!(found.value.handler_id, 9);
    assert_eq!(found.value.dto_class, Some("X".to_string()));
    assert_eq!(found.value.max_body_size, Some(10));
}

#[test]
fn a_malformed_route_is_passed_over() {
    let router = QuillRouter::new(vec![entry("GET", "/{a", 1, None), entry("GET", "/b", 2, None)]);
    assert_eq!(found(&router, "GET", "/b"), Ok((2, vec![])));
}

#[test]
fn the_outcome_of_a_search_is_resolved() {
    let router = router();
    let resolved = router.resolve(Some((2, vec![pair("k", "v")])), false).unwrap();
    assert_eq!(resolved.value.handler_id, 3);
    assert_eq!(resolved.params, vec![pair("k", "v")]);
    assert_eq!(router.resolve(None, true).err(), Some(2));
    assert_eq!(router.resolve(None, false).err(), Some(1));
}

#[test]
fn a_router_is_built_of_a_manifest() {
    assert!(quill_router_build(None).is_none());
    let built = quill_router_build(Some(vec![entry("GET", "/x", 1, None)])).unwrap();
    assert_eq!(found(&built, "GET", "/x"), Ok((1, vec![])));
    let many: String = (0..26).map(|i| format!("/{{p{}}}", i)).collect();
    assert!(!is_routable(&vec![entry("GET", &many, 1, None)]));
    assert!(quill_router_build(Some(vec![entry("GET", &many, 1, None)])).is_none());
    let fewer: String = (0..25).map(|i| format!("/{{p{}}}", i)).collect();
    assert!(quill_router_build(Some(vec![entry("GET", &fewer, 1, None)])).is_some());
}

#[test]
fn braces_that_open_no_parameter_are_not_counted() {
    let escaped: String = (0..13).map(|_| "/{{x}}").collect();
    let named = "{a{b{c}".to_string() + &"/{d{e}".repeat(20);
    let literal: String = (0..13).map(|_| "/{x}").collect();
    let built = quill_router_build(Some(vec![
        entry("GET", &escaped.repeat(3), 1, None),
        entry("GET", &named, 2, None),
        entry("GET", &"}/".repeat(40), 3, None),
        entry("GET", &("/{*r}".to_string() + &"/{x}".repeat(24)), 4, None),
        entry("GET", "/{*}", 5, None),
        entry("GET", "/{}/x", 6, None),
    ]))
    .unwrap();
    assert_eq!(found(&built, "GET", &literal.repeat(3)), Ok((1, vec![])));
    let params = built.match_route("GET", &("v".to_string() + &"/v".repeat(20))).unwrap().params;
    assert_eq!(params.len(), 21);
    assert_eq!(params[0], pair("a{b{c", "v"));
}

#[test]
fn an_empty_pattern_may_take_the_place_of_another() {
    let routes = |patterns: &[&str]| {
        let entries = patterns.iter().zip(1..).map(|(p, id)| entry("GET", p, id, None)).collect();
        quill_router_build(Some(entries)).unwrap()
    };
    assert_eq!(found(&routes(&["", "/{x}", "/"]), "GET", "/"), Ok((1, vec![])));
    assert_eq!(found(&routes(&["/{x}", "/"]), "GET", "/"), Ok((2, vec![])));
    assert_eq!(found(&routes(&["", "/{x}"]), "GET", "/a"), Ok((2, vec![pair("x", "a")])));
}

#[test]
fn a_catch_all_that_does_not_end_its_route_is_passed_over() {
    let built = quill_router_build(Some(vec![
        entry("GET", "/{a}/{*rest}/b", 1, None),
        entry("GET", "/x/y", 2, None),
        entry("GET", "/\u{e9}/{*rest}", 3, None),
        entry("GET", "/\u{e8}", 4, None),
        entry("GET", "/\u{e8}/{*rest}/c", 5, None),
        entry("POST", "/\u{ea}/{*rest}/c", 6, None),
    ]))
    .unwrap();
    assert_eq!(found(&built, "GET", "/x/y"), Ok((2, vec![])));
    assert_eq!(found(&built, "GET", "/x/y/b"), Err(1));
    assert_eq!(found(&built, "GET", "/\u{e9}/a/b"), Ok((3, vec![pair("rest", "a/b")])));
    assert_eq!(found(&built, "GET", "/\u{e8}"), Ok((4, vec![])));
    assert_eq!(found(&built, "GET", "/\u{e8}/a/c"), Err(1));
    assert_eq!(found(&built, "POST", "/\u{ea}/a/c"), Err(1));
}

#[test]
fn a_refused_route_leaves_its_mark() {
    let built = QuillRouter::new(vec![
        entry("GET", "/\u{e9}/{a}/{*x}/y", 1, None),
        entry("GET", "/\u{e9}/{*rest}", 2, None),
        entry("POST", "/{a}/\u{e9}/{*x}/y", 3, None),
        entry("POST", "/{*rest}", 4, None),
        entry("PUT", "/\u{e9}/{*x}/y", 5, None),
        entry("PUT", "/{*rest}", 6, None),
    ]);
    assert_eq!(found(&built, "GET", "/\u{e9}/z"), Err(2));
    assert_eq!(found(&built, "POST", "/z"), Err(2));
    assert_eq!(found(&built, "PUT", "/z"), Ok((6, vec![pair("rest", "z")])));
}

#[test]
fn routes_are_found_as_a_tree_that_was_given_them_finds_them() {
    let cut = "/{a}/\u{e9}/{*x}/y";
    let deep = "/{a}/b/{c}/\u{e9}{{/{*x}/{d}";
    let manifests: [&[&str]; 9] = [
        &[cut, "/{a}/\u{e9}", "/{a}/{*r}", "/p/\u{e9}"],
        &["/{a}/\u{e8}", cut, "/{a}/\u{e9}/z", "/{a}/{b}"],
        &["/{a}/{b}", cut, cut, "/{a}/\u{e9}", "/{a}/\u{e9}/{*r}"],
        &["/{a}", cut, "/{a}/{*r}", "/{b}"],
        &[deep, "/{a}/b/{*r}", "/{a}/b/{c}", "/{a}/b/{c}/\u{e9}{{"],
        &["/{a}/b/{c}/\u{e8}", deep, "/{a}/b/{c}/\u{e9}/z", "/{*r}"],
        &["/\u{e9}/{a}/{*x}/y", "/\u{e8}", "/\u{e9}/{*r}", "/\u{e9}/b"],
        &["/\u{e8}", "/\u{e9}/{*x}/y", "/\u{e9}", "/\u{e9}/{*x}"],
        &["/{a}/\u{e9}/{*x}/y", "/p/{b}", "/{*r}", "/p/\u{e9}/x"],
    ];
    let paths = [
        "/", "/p", "/p/q", "/p/\u{e9}", "/p/\u{e8}", "/p/\u{ea}", "/p/\u{e9}/z", "/p/\u{e9}/x", "/p/\u{e9}/x/y",
        "/p/b", "/p/b/q", "/p/b/q/\u{e9}{", "/p/b/q/\u{e9}/z", "/p/b/q/\u{e8}", "/p/b/q/r/s", "/\u{e8}", "/\u{e9}",
        "/\u{e9}/b", "/\u{e9}/c", "/\u{e9}/c/d", "/\u{e9}/c/d/y",
    ];
    for manifest in manifests {
        let mut tree = matchit::Router::new();
        let mut entries = Vec::new();
        for (i, pattern) in manifest.iter().enumerate() {
            let _ = tree.insert(pattern.to_string(), i as u32);
            entries.push(entry("GET", pattern, i as u32, None));
        }
        let built = QuillRouter::new(entries);
        for path in paths {
            let wanted = match tree.at(path) {
                Ok(m) => Ok((*m.value, m.params.iter().map(|(k, v)| pair(k, v)).collect())),
                Err(_) => Err(1),
            };
            assert_eq!(found(&built, "GET", path), wanted, "{:?} {}", manifest, path);
        }
    }
}

#[test]
fn a_conflict_behind_a_refused_route_is_passed_over() {
    let built = QuillRouter::new(vec![
        entry("GET", "/{a}/\u{e8}", 1, None),
        entry("GET", "/{a}/\u{e9}/{*x}/y", 2, None),
        entry("GET", "/{a}/\u{e9}/{*x}/y", 3, None),
        entry("GET", "/{*rest}", 4, None),
    ]);
    assert_eq!(found(&built, "GET", "/p/\u{e8}"), Ok((1, vec![pair("a", "p")])));
    assert_eq!(found(&built, "GET", "/p/\u{e9}"), Err(1));
    assert_eq!(found(&built, "GET", "/p"), Err(1));
}

#[test]
fn patterns_are_read_as_the_trees_read_them() {
    for pattern in [
        "",
        "/a",
        "/{a}",
        "/\u{e9}/{*r}/b",
        "/\u{e9}/{a}/{*r}/b",
        "/{a}/\u{e9}/{*r}",
        "/{a}/{\u{e9}}/{*r}/b",
        "/{a}/{*r}/\u{e9}",
        "/{a}/{*r}/\u{e9}/{*s}/b",
        "/{a}/\u{e9}/{*r}b",
        "/{a}/\u{e9}/{*r}/{",
        "/{a}/\u{e9}/{{*r}}/b",
        "/{{a}}/\u{e9}/{*r}/b",
    ] {
        assert_eq!(offer(pattern), pattern);
    }
    for (pattern, offered) in [
        ("/{a}/\u{e9}/{*r}/b", "/{a}/{*x}/x"),
        ("/\u{e8}/{b}/{a}/c\u{e9}{*r}/b", "/\u{e8}/{b}/{a}/{*x}/x"),
        ("/{a}}}/\u{e9}/{*r}}}/{b}", "/{a}}}/{*x}/x"),
        ("/{a}/\u{e9}/{*r}/{b}/{*s}/c", "/{a}/{*x}/x"),
    ] {
        assert_eq!(offer(pattern), offered);
    }
    assert!(has_few_parameters(&"/{a}".repeat(25)));
    assert!(!has_few_parameters(&"/{a}".repeat(26)));
    assert!(!has_few_parameters(&("/{a}".repeat(26) + "/")));
    assert!(!has_few_parameters(&("/{a}".repeat(26) + "/}")));
    assert!(has_few_parameters(&("/}".to_string() + &"/{a}".repeat(26))));
    assert!(has_few_parameters(&("/{a}".repeat(25) + "/{a}b")));
    assert!(has_few_parameters(&"/{{a}}".repeat(26)));
}

#[test]
fn a_match_gives_the_handler_and_the_parameters() {
    let router = router();
    let (mut id, mut params) = (77, 77);
    let mut out = [3u8; 32];
    let get: &[u8] = b"GET";
    let path: &[u8] = b"/users/42";
    assert_eq!(quill_router_match(Some(&router), Some(get), Some(path), &mut id, &mut params, &mut out), 0);
    assert_eq!((id, params), (2, 1));
    assert_eq!(&out[..12], b"{\"id\":\"42\"}\0");
    let (mut id, mut params) = (77, 77);
    let mut out = [3u8; 4];
    let post: &[u8] = b"POST";
    assert_eq!(quill_router_match(Some(&router), Some(post), Some(path), &mut id, &mut params, &mut out), 2);
    assert_eq!(quill_router_match(Some(&router), Some(get), Some(b"/no"), &mut id, &mut params, &mut out), 1);
    assert_eq!(quill_router_match(Some(&router), Some(&[0xff]), Some(b"/"), &mut id, &mut params, &mut out), 2);
    assert_eq!(quill_router_match(None, Some(get), Some(path), &mut id, &mut params, &mut out), 1);
    assert_eq!(quill_router_match(Some(&router), None, Some(path), &mut id, &mut params, &mut out), 1);
    assert_eq!(quill_router_match(Some(&router), Some(get), None, &mut id, &mut params, &mut out), 1);
    assert_eq!((id, params, out), (77, 77, [3u8; 4]));
}

fn dispatched(
    router: &QuillRouter,
    registry: Option<&ValidatorRegistry>,
    method: &str,
    path: &str,
    body: Option<&[u8]>,
) -> String {
    let mut out = [0u8; 256];
    let code = quill_router_dispatch(
        Some(router),
        registry,
        Some(method.as_bytes()),
        Some(path.as_bytes()),
        body,
        &mut out,
    );
    assert_eq!(code, 0);
    let end = out.iter().position(|b| *b == 0).unwrap();
    String::from_utf8(out[..end].to_vec()).unwrap()
}

#[test]
fn a_dispatch_answers_with_a_document() {
    let (router, registry) = (router(), registry());
    assert_eq!(
        dispatched(&router, None, "GET", "/users/42", None),
        "{\"status\":1,\"handler_id\":2,\"params\":{\"id\":\"42\"}}"
    );
    assert_eq!(
        dispatched(&router, Some(&registry), "POST", "/users", Some(b"{\"id\":7}")),
        "{\"status\":1,\"handler_id\":3,\"params\":{},\"dto_valid\":true,\"dto_data\":{\"id\":7}}"
    );
    assert_eq!(
        dispatched(&router, Some(&registry), "POST", "/users", Some(b"{}")),
        "{\"status\":1,\"handler_id\":3,\"params\":{},\"dto_valid\":false,\
         \"dto_errors\":{\"id\":[\"Field 'id' is required.\"]}}"
    );
    assert_eq!(
        dispatched(&router, Some(&registry), "POST", "/users", None),
        "{\"status\":1,\"handler_id\":3,\"params\":{},\"dto_valid\":false,\
         \"dto_errors\":{\"system\":[\"Invalid JSON input\"]}}"
    );
    assert_eq!(
        dispatched(&router, None, "POST", "/users", Some(b"{}")),
        "{\"status\":1,\"handler_id\":3,\"params\":{}}"
    );
    assert_eq!(dispatched(&router, None, "GET", "/no", None), "{\"status\":0}");
    assert_eq!(dispatched(&router, None, "PUT", "/users", None), "{\"status\":2}");
}

#[test]
fn a_dispatch_without_router_or_request_is_refused() {
    let router = router();
    let mut out = [5u8; 8];
    assert_eq!(quill_router_dispatch(None, None, Some(b"GET"), Some(b"/"), None, &mut out), 2);
    assert_eq!(quill_router_dispatch(Some(&router), None, None, Some(b"/"), None, &mut out), 2);
    assert_eq!(quill_router_dispatch(Some(&router), None, Some(b"GET"), None, None, &mut out), 2);
    assert_eq!(out, [5u8; 8]);
}

#[test]
fn a_dispatch_document_is_made_of_its_parts() {
    let router = router();
    let matched = router.match_route("GET", "/");
    let data = parse_json("[1]").unwrap();
    assert_eq!(
        print_json(&dispatch_json(&matched, Some(Ok(data)))),
        "{\"status\":1,\"handler_id\":1,\"params\":{},\"dto_valid\":true,\"dto_data\":[1]}"
    );
    assert_eq!(print_json(&dispatch_json(&Err(1), None)), "{\"status\":0}");
    assert_eq!(print_json(&dispatch_json(&Err(2), None)), "{\"status\":2}");
    assert_eq!(print_json(&reread_json(&parse_json("[1,\"\\t\"]").unwrap())), "[1,\"\\t\"]");
}
