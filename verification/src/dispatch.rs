//! Routing and validation of a request in one step.

use vstd::prelude::*;
use vstd::string::*;
use vstd::utf8::*;

use crate::json::{
    is_stable, lemma_object_view, lemma_text_object, members_view, object_of_texts, parse_json,
    parsed, print_json, printed, reads_back, text_object, Json, JsonView,
};
use crate::manifest::RouteEntry;
use crate::pairs::{
    lemma_position, lemma_position_unique, lemma_put_all, position, put_all, put_texts, text_pairs,
};
use crate::router::{
    is_routable, lemma_routed, match_view, method_match, routable, routed, QuillRouter, RouteMatch,
    RouteMetadata,
};
use crate::text::{c_text, optional_text_or, put_c_text, read_text, text_or};
use crate::validator::{
    body_validation, errors_json, errors_object, outcome, Outcome, ValidatorRegistry,
};

verus! {

/// What comes of validating a body for a route; `None` where the route asks for no validation or
/// there is no registry.
pub open spec fn dto_outcome(
    route: RouteMetadata,
    validator: Option<&ValidatorRegistry>,
    body: Seq<char>,
) -> Option<Outcome> {
    match (route.dto_class, validator) {
        (Some(dto), Some(registry)) => Some(
            body_validation(registry.schemas(), registry.patterns(), dto@, parsed(body)),
        ),
        _ => None,
    }
}

/// A body is validated against the schema that the route names, exactly where the route names one
/// and there is a registry.
pub proof fn lemma_dto_outcome(
    route: RouteMetadata,
    validator: Option<&ValidatorRegistry>,
    body: Seq<char>,
)
    ensures
        (match (route.dto_class, validator) {
            (Some(dto), Some(registry)) => dto_outcome(route, validator, body) == Some(
                body_validation(registry.schemas(), registry.patterns(), dto@, parsed(body)),
            ),
            _ => dto_outcome(route, validator, body) is None,
        }),
{
}

/// Validates a body for a route, where the route asks for it and there is a registry.
pub fn check_dto(
    route: &RouteMetadata,
    validator: Option<&ValidatorRegistry>,
    body: &str,
) -> (r: Option<Result<Json, Vec<(String, Vec<String>)>>>)
    requires
        validator matches Some(registry) ==> registry.wf(),
    ensures
        (match r {
            Some(checked) => dto_outcome(*route, validator, body@) == Some(outcome(checked)),
            None => dto_outcome(*route, validator, body@) is None,
        }),
{
    if let Some(dto) = &route.dto_class {
        if let Some(registry) = validator {
            return Some(registry.validate(dto.as_str(), body));
        }
    }
    None
}

/// What a document reads as after it was written; `null` where it does not read.
pub open spec fn reread(json: JsonView) -> JsonView {
    match parsed(printed(json)) {
        Some(again) => again,
        None => JsonView::Null,
    }
}

/// Writes a document and reads it again: the same document, where there is no negative zero in it
/// and its text is no longer than a reader takes.
pub fn reread_json(json: &Json) -> (r: Json)
    ensures
        r@ == reread(json@),
        is_stable(json@) && printed(json@).len() <= 0x3fff_ffff ==> r@ == json@,
{
    match parse_json(print_json(json).as_str()) {
        Some(again) => again,
        None => Json::Null,
    }
}

/// The answer to a dispatch: for a route that was found, the handler, the parameters and, where
/// the body was validated, the data or the messages; else a status that says why not.
pub open spec fn dispatch_document(
    matched: Result<(RouteMetadata, Seq<(Seq<char>, Seq<char>)>), i32>,
    validated: Option<Result<JsonView, JsonView>>,
) -> JsonView {
    match matched {
        Ok(found) => {
            let head = seq![
                ("status"@, JsonView::Int(1)),
                ("handler_id"@, JsonView::Int(found.0.handler_id as int)),
                ("params"@, text_object(found.1)),
            ];
            JsonView::Object(
                match validated {
                    Some(Ok(data)) => head.push(("dto_valid"@, JsonView::Bool(true))).push(
                        ("dto_data"@, data),
                    ),
                    Some(Err(messages)) => head.push(("dto_valid"@, JsonView::Bool(false))).push(
                        ("dto_errors"@, messages),
                    ),
                    None => head,
                },
            )
        },
        Err(code) => JsonView::Object(
            seq![
                (
                    "status"@,
                    JsonView::Int(
                        if code == 1 {
                            0
                        } else {
                            2
                        },
                    ),
                ),
            ],
        ),
    }
}

proof fn lemma_answer_names()
    ensures
        "status"@ != "handler_id"@,
        "status"@ != "params"@,
        "status"@ != "dto_valid"@,
        "status"@ != "dto_data"@,
        "status"@ != "dto_errors"@,
        "handler_id"@ != "params"@,
        "handler_id"@ != "dto_valid"@,
        "handler_id"@ != "dto_data"@,
        "handler_id"@ != "dto_errors"@,
        "params"@ != "dto_valid"@,
        "params"@ != "dto_data"@,
        "params"@ != "dto_errors"@,
        "dto_valid"@ != "dto_data"@,
        "dto_valid"@ != "dto_errors"@,
        "dto_data"@ != "dto_errors"@,
{
    reveal_strlit("status");
    reveal_strlit("handler_id");
    reveal_strlit("params");
    reveal_strlit("dto_valid");
    reveal_strlit("dto_data");
    reveal_strlit("dto_errors");
    assert("status"@[0] == 's');
    assert("handler_id"@[0] == 'h');
    assert("params"@[0] == 'p');
    assert("dto_valid"@[0] == 'd');
    assert("dto_data"@[0] == 'd');
    assert("dto_errors"@[0] == 'd');
    assert("dto_valid"@[4] == 'v');
    assert("dto_data"@[4] == 'd');
    assert("dto_errors"@[4] == 'e');
}

/// The answer for a route that was found has the status 1, the handler of the route, and an object
/// of all its parameters, in order. It says whether the body is valid, with the data or the
/// messages, exactly where the body was validated. The answer for a route that was not found has a
/// status alone: 0 where the error is 1, and else 2.
pub proof fn lemma_dispatch_document(
    matched: Result<(RouteMetadata, Seq<(Seq<char>, Seq<char>)>), i32>,
    validated: Option<Result<JsonView, JsonView>>,
)
    ensures
        ({
            let answer = dispatch_document(matched, validated);
            match matched {
                Ok(found) => {
                    &&& answer.member("status"@) == Some(JsonView::Int(1))
                    &&& answer.member("handler_id"@) == Some(
                        JsonView::Int(found.0.handler_id as int),
                    )
                    &&& answer.member("params"@) matches Some(JsonView::Object(members))
                        && members.len() == found.1.len() && forall|i: int|
                        0 <= i < members.len() ==> #[trigger] members[i] == (
                            found.1[i].0,
                            JsonView::Text(found.1[i].1),
                        )
                    &&& (match validated {
                        Some(Ok(data)) => {
                            &&& answer.member("dto_valid"@) == Some(JsonView::Bool(true))
                            &&& answer.member("dto_data"@) == Some(data)
                            &&& answer.member("dto_errors"@) is None
                        },
                        Some(Err(messages)) => {
                            &&& answer.member("dto_valid"@) == Some(JsonView::Bool(false))
                            &&& answer.member("dto_errors"@) == Some(messages)
                            &&& answer.member("dto_data"@) is None
                        },
                        None => {
                            &&& answer.member("dto_valid"@) is None
                            &&& answer.member("dto_data"@) is None
                            &&& answer.member("dto_errors"@) is None
                        },
                    })
                    &&& answer matches JsonView::Object(all) && all.len() == (
                    if validated is Some {
                        5int
                    } else {
                        3
                    })
                },
                Err(code) => {
                    &&& code == 1 ==> answer.member("status"@) == Some(JsonView::Int(0))
                    &&& code != 1 ==> answer.member("status"@) == Some(JsonView::Int(2))
                    &&& answer matches JsonView::Object(all) && all.len() == 1
                },
            }
        }),
{
    lemma_answer_names();
    let answer = dispatch_document(matched, validated);
    let all = answer->Object_0;
    lemma_position_unique(all, "status"@, 0);
    if let Ok(found) = matched {
        lemma_position_unique(all, "handler_id"@, 1);
        lemma_position_unique(all, "params"@, 2);
        match validated {
            Some(Ok(_)) => {
                lemma_position_unique(all, "dto_valid"@, 3);
                lemma_position_unique(all, "dto_data"@, 4);
                lemma_position_unique(all, "dto_errors"@, 5);
            },
            Some(Err(_)) => {
                lemma_position_unique(all, "dto_valid"@, 3);
                lemma_position_unique(all, "dto_errors"@, 4);
                lemma_position_unique(all, "dto_data"@, 5);
            },
            None => {
                lemma_position_unique(all, "dto_valid"@, 3);
                lemma_position_unique(all, "dto_data"@, 3);
                lemma_position_unique(all, "dto_errors"@, 3);
            },
        }
        lemma_text_object(found.1, ""@);
    }
}

/// The data or the messages of a body that was validated.
pub open spec fn checked_view(validated: Option<Result<Json, Json>>) -> Option<
    Result<JsonView, JsonView>,
> {
    match validated {
        Some(Ok(data)) => Some(Ok(data@)),
        Some(Err(messages)) => Some(Err(messages@)),
        None => None,
    }
}

/// Makes the answer to a dispatch.
pub fn dispatch_json(
    matched: &Result<RouteMatch, i32>,
    validated: Option<Result<Json, Json>>,
) -> (r: Json)
    ensures
        r@ == dispatch_document(match_view(*matched), checked_view(validated)),
        (match *matched {
            Ok(found) => {
                &&& r@.member("status"@) == Some(JsonView::Int(1))
                &&& r@.member("handler_id"@) == Some(JsonView::Int(found.value.handler_id as int))
                &&& r@.member("params"@) matches Some(JsonView::Object(members)) && members.len()
                    == found.params@.len() && forall|i: int|
                    0 <= i < members.len() ==> #[trigger] members[i] == (
                        found.params@[i].0@,
                        JsonView::Text(found.params@[i].1@),
                    )
                &&& (match validated {
                    Some(Ok(data)) => r@.member("dto_valid"@) == Some(JsonView::Bool(true))
                        && r@.member("dto_data"@) == Some(data@),
                    Some(Err(messages)) => r@.member("dto_valid"@) == Some(JsonView::Bool(false))
                        && r@.member("dto_errors"@) == Some(messages@),
                    None => r@.member("dto_valid"@) is None,
                })
            },
            Err(code) => r@.member("status"@) == Some(
                JsonView::Int(
                    if code == 1 {
                        0
                    } else {
                        2
                    },
                ),
            ),
        }),
{
    proof {
        lemma_dispatch_document(match_view(*matched), checked_view(validated));
    }
    let mut fields: Vec<(String, Json)> = Vec::new();
    let ghost want = dispatch_document(match_view(*matched), checked_view(validated));
    match matched {
        Ok(found) => {
            fields.push(("status".to_owned(), Json::Natural(1)));
            fields.push(("handler_id".to_owned(), Json::Natural(found.value.handler_id as u64)));
            fields.push(("params".to_owned(), object_of_texts(&found.params)));
            match validated {
                Some(Ok(data)) => {
                    fields.push(("dto_valid".to_owned(), Json::Bool(true)));
                    fields.push(("dto_data".to_owned(), data));
                },
                Some(Err(messages)) => {
                    fields.push(("dto_valid".to_owned(), Json::Bool(false)));
                    fields.push(("dto_errors".to_owned(), messages));
                },
                None => {},
            }
        },
        Err(code) => {
            fields.push(
                (
                    "status".to_owned(),
                    Json::Natural(
                        if *code == 1 {
                            0
                        } else {
                            2
                        },
                    ),
                ),
            );
        },
    }
    proof {
        lemma_object_view(fields);
        assert(members_view(fields@) =~= want->Object_0);
    }
    Json::Object(fields)
}

/// The document that a dispatch answers with.
pub open spec fn dispatch_answer(
    manifest: Seq<RouteEntry>,
    validator: Option<&ValidatorRegistry>,
    method: Seq<char>,
    path: Seq<char>,
    body: Seq<char>,
) -> JsonView {
    let matched = routed(manifest, method, path);
    dispatch_document(
        matched,
        match matched {
            Ok(found) => match dto_outcome(found.0, validator, body) {
                Some(Ok(data)) => Some(Ok(data)),
                Some(Err(errors)) => Some(Err(reread(errors_object(errors)))),
                None => None,
            },
            Err(_) => None,
        },
    )
}

/// The answer to a request whose path matches a route for its method has the status 1, the handler
/// of the entry that was found, and an object of the parameters that were found, name by name and
/// value by value. Where the entry names a schema and there is a registry, it says whether the body
/// is valid and gives the data, or the messages as they are read back from their text. The answer
/// to any other request has only a status: 2 where the path matches under another method, else 0.
pub proof fn lemma_dispatched(
    manifest: Seq<RouteEntry>,
    validator: Option<&ValidatorRegistry>,
    method: Seq<char>,
    path: Seq<char>,
    body: Seq<char>,
)
    ensures
        ({
            let answer = dispatch_answer(manifest, validator, method, path, body);
            match method_match(manifest, method, path) {
                Some(at) => {
                    &&& answer.member("status"@) == Some(JsonView::Int(1))
                    &&& answer.member("handler_id"@) == Some(
                        JsonView::Int(manifest[at.0 as int].handler_id as int),
                    )
                    &&& answer.member("params"@) matches Some(JsonView::Object(members))
                        && members.len() == at.1.len() && forall|i: int|
                        0 <= i < members.len() ==> (#[trigger] members[i]).0 == at.1[i].0
                            && members[i].1 == JsonView::Text(at.1[i].1)
                    &&& (match (manifest[at.0 as int].dto_class, validator) {
                        (Some(dto), Some(registry)) => match body_validation(
                            registry.schemas(),
                            registry.patterns(),
                            dto@,
                            parsed(body),
                        ) {
                            Ok(data) => {
                                &&& answer.member("dto_valid"@) == Some(JsonView::Bool(true))
                                &&& answer.member("dto_data"@) == Some(data)
                                &&& answer.member("dto_errors"@) is None
                            },
                            Err(errors) => {
                                &&& answer.member("dto_valid"@) == Some(JsonView::Bool(false))
                                &&& answer.member("dto_errors"@) == (match parsed(
                                    printed(errors_object(errors)),
                                ) {
                                    Some(again) => Some(again),
                                    None => Some(JsonView::Null),
                                })
                                &&& answer.member("dto_data"@) is None
                            },
                        },
                        _ => {
                            &&& answer.member("dto_valid"@) is None
                            &&& answer.member("dto_data"@) is None
                            &&& answer.member("dto_errors"@) is None
                        },
                    })
                },
                None => {
                    &&& answer matches JsonView::Object(all) && all.len() == 1
                    &&& answer.member("status"@) == Some(
                        JsonView::Int(
                            if exists|other: Seq<char>|
                                other != method && #[trigger] method_match(manifest, other, path)
                                    is Some {
                                2
                            } else {
                                0
                            },
                        ),
                    )
                },
            }
        }),
{
    lemma_routed(manifest, method, path);
    let matched = routed(manifest, method, path);
    if let Ok(found) = matched {
        lemma_dto_outcome(found.0, validator, body);
        lemma_dispatch_document(
            matched,
            match dto_outcome(found.0, validator, body) {
                Some(Ok(data)) => Some(Ok(data)),
                Some(Err(errors)) => Some(Err(reread(errors_object(errors)))),
                None => None,
            },
        );
    } else {
        lemma_dispatch_document(matched, None);
    }
}

/// Builds a router. `None` where there is no manifest or the trees cannot take its routes.
pub fn quill_router_build(manifest: Option<Vec<RouteEntry>>) -> (r: Option<QuillRouter>)
    ensures
        (match r {
            Some(router) => router.wf() && (manifest matches Some(entries) && routable(entries@)
                && router.manifest() == entries@),
            None => !(manifest matches Some(entries) && routable(entries@)),
        }),
{
    match manifest {
        Some(entries) => if is_routable(&entries) {
            Some(QuillRouter::new(entries))
        } else {
            None
        },
        None => None,
    }
}

/// The object of parameters gives each parameter with its last value, and has no other member.
pub proof fn lemma_params_object(params: Seq<(Seq<char>, Seq<char>)>)
    ensures
        ({
            let object = text_object(put_all(Seq::empty(), params));
            &&& object is Object
            &&& is_stable(object)
            &&& forall|i: int|
                0 <= i < params.len() && (forall|j: int|
                    i < j < params.len() ==> (#[trigger] params[j]).0 != params[i].0)
                    ==> object.member((#[trigger] params[i]).0) == Some(
                    JsonView::Text(params[i].1),
                )
            &&& forall|name: Seq<char>| #[trigger]
                object.member(name) is Some ==> exists|i: int|
                    0 <= i < params.len() && (#[trigger] params[i]).0 == name
        }),
{
    let none = Seq::<(Seq<char>, Seq<char>)>::empty();
    let all = put_all(none, params);
    let object = text_object(all);
    assert forall|i: int|
        0 <= i < params.len() && (forall|j: int|
            i < j < params.len() ==> (#[trigger] params[j]).0 != params[i].0) implies object.member(
        (#[trigger] params[i]).0,
    ) == Some(JsonView::Text(params[i].1)) by {
        lemma_put_all(none, params, params[i].0);
        lemma_text_object(all, params[i].0);
    }
    assert forall|name: Seq<char>| #[trigger] object.member(name) is Some implies exists|i: int|
        0 <= i < params.len() && (#[trigger] params[i]).0 == name by {
        lemma_put_all(none, params, name);
        lemma_text_object(all, name);
        lemma_position(none, name);
        lemma_position(params, name);
        assert(params[position(params, name)].0 == name);
    }
    lemma_text_object(all, ""@);
}

/// Routes a request: gives the handler, the number of parameters, and the parameters as a JSON
/// object, in which the last of several parameters of one name counts. Returns 0, or the error
/// of the router, or 1 where an argument is missing.
pub fn quill_router_match(
    router: Option<&QuillRouter>,
    method: Option<&[u8]>,
    path: Option<&[u8]>,
    out_handler_id: &mut u32,
    out_num_params: &mut u32,
    out_params_json: &mut [u8],
) -> (r: i32)
    requires
        router matches Some(router) ==> router.wf(),
    ensures
        (match (router, method, path) {
            (Some(router), Some(method), Some(path)) => match routed(
                router.manifest(),
                text_or(method@, ""@),
                text_or(path@, ""@),
            ) {
                Ok(found) => {
                    &&& r == 0
                    &&& *final(out_handler_id) == found.0.handler_id
                    &&& *final(out_num_params) == found.1.len() as u32
                    &&& final(out_params_json)@ == c_text(
                        encode_utf8(printed(text_object(put_all(Seq::empty(), found.1)))),
                        old(out_params_json)@,
                    )
                    &&& reads_back(
                        printed(text_object(put_all(Seq::empty(), found.1))),
                        text_object(put_all(Seq::empty(), found.1)),
                    )
                },
                Err(code) => {
                    &&& r == code
                    &&& *final(out_handler_id) == *old(out_handler_id)
                    &&& *final(out_num_params) == *old(out_num_params)
                    &&& final(out_params_json)@ == old(out_params_json)@
                },
            },
            _ => {
                &&& r == 1
                &&& *final(out_handler_id) == *old(out_handler_id)
                &&& *final(out_num_params) == *old(out_num_params)
                &&& final(out_params_json)@ == old(out_params_json)@
            },
        }),
        (match (router, method, path) {
            (Some(router), Some(method), Some(path)) => match method_match(
                router.manifest(),
                text_or(method@, ""@),
                text_or(path@, ""@),
            ) {
                Some(at) => {
                    &&& r == 0
                    &&& *final(out_handler_id) == router.manifest()[at.0 as int].handler_id
                    &&& *final(out_num_params) == at.1.len() as u32
                },
                None => r == 1 || r == 2,
            },
            _ => r == 1,
        }),
{
    let (router, method, path) = match (router, method, path) {
        (Some(router), Some(method), Some(path)) => (router, method, path),
        _ => {
            return 1;
        },
    };
    match router.match_route(read_text(method, ""), read_text(path, "")) {
        Ok(found) => {
            *out_handler_id = found.value.handler_id;
            *out_num_params = found.params.len() as u32;
            let mut params: Vec<(String, String)> = Vec::new();
            assert(text_pairs(params@) =~= Seq::empty());
            put_texts(&mut params, &found.params);
            put_c_text(print_json(&object_of_texts(&params)).as_str(), out_params_json);
            0
        },
        Err(code) => code,
    }
}

/// Routes a request and validates its body where the route asks for it, and answers with a JSON
/// object. Returns 0, or 2 where an argument is missing.
pub fn quill_router_dispatch(
    router: Option<&QuillRouter>,
    validator: Option<&ValidatorRegistry>,
    method: Option<&[u8]>,
    path: Option<&[u8]>,
    body: Option<&[u8]>,
    out_json: &mut [u8],
) -> (r: i32)
    requires
        router matches Some(router) ==> router.wf(),
        validator matches Some(registry) ==> registry.wf(),
    ensures
        (match (router, method, path) {
            (Some(router), Some(method), Some(path)) => {
                let answer = dispatch_answer(
                    router.manifest(),
                    validator,
                    text_or(method@, ""@),
                    text_or(path@, ""@),
                    optional_text_or(body, ""@),
                );
                &&& r == 0
                &&& final(out_json)@ == c_text(encode_utf8(printed(answer)), old(out_json)@)
                &&& reads_back(printed(answer), answer)
            },
            _ => r == 2 && final(out_json)@ == old(out_json)@,
        }),
{
    let (router, method, path) = match (router, method, path) {
        (Some(router), Some(method), Some(path)) => (router, method, path),
        _ => {
            return 2;
        },
    };
    let body = match body {
        Some(bytes) => read_text(bytes, ""),
        None => "",
    };
    let matched = router.match_route(read_text(method, ""), read_text(path, ""));
    let validated = match &matched {
        Ok(found) => match check_dto(&found.value, validator, body) {
            Some(Ok(data)) => Some(Ok(data)),
            Some(Err(errors)) => Some(
                Err(reread_json(&errors_json(&errors))),
            ),
            None => None,
        },
        Err(_) => None,
    };
    let answer = dispatch_json(&matched, validated);
    put_c_text(print_json(&answer).as_str(), out_json);
    0
}

} // verus!
