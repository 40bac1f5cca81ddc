//! Responses: what a handler answers, what is registered beforehand, and what a client gets.

use vstd::prelude::*;
use vstd::string::*;
use vstd::utf8::*;

use crate::json::{lemma_object_view, members_view, parse_json, parsed, Json, JsonView};
use crate::pairs::{
    distinct, lemma_position, lemma_put_distinct, lemma_put_lookup, lookup, put, put_text,
    text_pairs,
};
use crate::tables::IdTable;
use crate::text::utf8;

verus! {

/// The character may stand in the name of a header.
pub open spec fn is_name_char(c: char) -> bool {
    ||| 'a' <= c <= 'z'
    ||| 'A' <= c <= 'Z'
    ||| '0' <= c <= '9'
    ||| "!#$%&'*+-.^_`|~"@.contains(c)
}

/// The character in lower case, where it is an ASCII letter.
pub open spec fn lower(c: char) -> char {
    if 'A' <= c <= 'Z' {
        (c as u32 + 32) as char
    } else {
        c
    }
}

/// The name of a header in its normal form, which is lower case. `None` where the text names no
/// header.
pub open spec fn header_name(text: Seq<char>) -> Option<Seq<char>> {
    if 0 < text.len() <= 65535 && forall|i: int|
        0 <= i < text.len() ==> is_name_char(#[trigger] text[i]) {
        Some(Seq::new(text.len(), |i: int| lower(text[i])))
    } else {
        None
    }
}

/// A text names a header where it has 1 to 65535 characters, each a letter or a digit of ASCII or
/// one of some signs. The normal form has the capital letters replaced by the small ones, and all
/// else as it was.
pub proof fn lemma_header_name(text: Seq<char>)
    ensures
        header_name(text) is Some <==> 1 <= text.len() < 0x1_0000 && forall|i: int|
            0 <= i < text.len() ==> {
                let c = #[trigger] text[i];
                ('a' <= c && c <= 'z') || ('A' <= c && c <= 'Z') || ('0' <= c && c <= '9')
                    || "!#$%&'*+-.^_`|~"@.contains(c)
            },
        header_name(text) matches Some(name) ==> name.len() == text.len() && forall|i: int|
            0 <= i < text.len() ==> (if 'A' <= text[i] && text[i] <= 'Z' {
                #[trigger] name[i] as u32 == text[i] as u32 + 32
            } else {
                name[i] == text[i]
            }),
{
}

/// The text may be the value of a header: it has no control characters but the tab.
pub open spec fn is_header_value(text: Seq<char>) -> bool {
    forall|i: int|
        0 <= i < text.len() ==> (#[trigger] text[i] == '\t' || (' ' <= text[i] && text[i]
            != '\u{7f}'))
}

/// Calls `axum::http::HeaderName::from_bytes`: a name of 1 to 65535 characters that may stand in
/// it is taken, in lower case, and any other is refused.
#[verifier::external_body]
fn normal_name(text: &str) -> (r: Option<String>)
    ensures
        (match r {
            Some(name) => header_name(text@) == Some(name@),
            None => header_name(text@) is None,
        }),
{
    axum::http::HeaderName::from_bytes(text.as_bytes()).ok().map(|name| name.as_str().to_string())
}

/// Calls `axum::http::HeaderValue::from_str`: it takes a text whose bytes are 32 or more and not
/// 127, or tabs, and refuses any other.
#[verifier::external_body]
fn is_value(text: &str) -> (r: bool)
    ensures
        r == is_header_value(text@),
{
    axum::http::HeaderValue::from_str(text).is_ok()
}

/// A response as mathematical values.
#[verifier::ext_equal]
pub struct ResponseView {
    pub status: u16,
    pub body: Seq<char>,
    pub headers: Seq<(Seq<char>, Seq<char>)>,
}

/// A response that is registered for a handler beforehand.
pub struct NativeResponse {
    pub status: u16,
    pub body: String,
    pub headers: Vec<(String, String)>,
}

impl View for NativeResponse {
    type V = ResponseView;

    open spec fn view(&self) -> ResponseView {
        ResponseView {
            status: self.status,
            body: self.body@,
            headers: text_pairs(self.headers@),
        }
    }
}

/// A response that goes to a client. The names of its headers are in normal form, each once.
pub struct Reply {
    pub status: u16,
    pub body: String,
    pub headers: Vec<(String, String)>,
}

impl View for Reply {
    type V = ResponseView;

    open spec fn view(&self) -> ResponseView {
        ResponseView {
            status: self.status,
            body: self.body@,
            headers: text_pairs(self.headers@),
        }
    }
}

/// The status that a client gets: 200 in place of a number that is no status.
pub open spec fn reply_status(status: u16) -> u16 {
    if 100 <= status <= 999 {
        status
    } else {
        200
    }
}

/// The headers that a client gets: those that have a name and a value that a header may have,
/// the last of each name.
pub open spec fn reply_headers(headers: Seq<(Seq<char>, Seq<char>)>) -> Seq<(Seq<char>, Seq<char>)>
    decreases headers.len(),
{
    if headers.len() == 0 {
        Seq::empty()
    } else {
        let before = reply_headers(headers.drop_last());
        match header_name(headers.last().0) {
            Some(name) if is_header_value(headers.last().1) => put(before, name, headers.last().1),
            _ => before,
        }
    }
}

/// The response that a client gets.
pub open spec fn reply_view(response: ResponseView) -> ResponseView {
    ResponseView {
        status: reply_status(response.status),
        body: response.body,
        headers: reply_headers(response.headers),
    }
}

/// A client gets the body of a response as it is, and its status where it is one from 100 to 999,
/// else 200.
pub proof fn lemma_reply(response: ResponseView)
    ensures
        reply_view(response).body == response.body,
        100 <= response.status <= 999 ==> reply_view(response).status == response.status,
        response.status < 100 || response.status > 999 ==> reply_view(response).status == 200,
        reply_view(response).headers == reply_headers(response.headers),
{
}

/// The headers that a client gets have names in normal form, each once, and values that a header
/// may have.
pub proof fn lemma_reply_headers(headers: Seq<(Seq<char>, Seq<char>)>)
    ensures
        distinct(reply_headers(headers)),
        forall|i: int|
            0 <= i < reply_headers(headers).len() ==> is_header_value(
                (#[trigger] reply_headers(headers)[i]).1,
            ) && header_name(reply_headers(headers)[i].0) == Some(reply_headers(headers)[i].0),
    decreases headers.len(),
{
    if headers.len() > 0 {
        let before = reply_headers(headers.drop_last());
        lemma_reply_headers(headers.drop_last());
        let last = headers.last();
        if let Some(name) = header_name(last.0) {
            if is_header_value(last.1) {
                lemma_put_distinct(before, name, last.1);
                lemma_normal_name(last.0);
                lemma_position(before, name);
                let after = reply_headers(headers);
                assert forall|i: int| 0 <= i < after.len() implies is_header_value(
                    (#[trigger] after[i]).1,
                ) && header_name(after[i].0) == Some(after[i].0) by {
                    assert(after[i] == (name, last.1) || after[i] == before[i]);
                }
            }
        }
    }
}

/// A client gets each header that has a name and a value that a header may have, unless a later
/// such header has the same name in normal form.
pub proof fn lemma_header_kept(headers: Seq<(Seq<char>, Seq<char>)>, i: int)
    requires
        0 <= i < headers.len(),
        header_name(headers[i].0) is Some,
        is_header_value(headers[i].1),
        forall|j: int|
            i < j < headers.len() && is_header_value((#[trigger] headers[j]).1) ==> header_name(
                headers[j].0,
            ) != header_name(headers[i].0),
    ensures
        lookup(reply_headers(headers), header_name(headers[i].0).unwrap()) == Some(headers[i].1),
    decreases headers.len(),
{
    let init = headers.drop_last();
    let last = headers.last();
    let name = header_name(headers[i].0).unwrap();
    assert(headers[headers.len() - 1] == last);
    if i < init.len() {
        assert(init[i] == headers[i]);
        assert forall|j: int| i < j < init.len() && is_header_value(
            (#[trigger] init[j]).1,
        ) implies header_name(init[j].0) != header_name(init[i].0) by {
            assert(init[j] == headers[j]);
        }
        lemma_header_kept(init, i);
        if let Some(other) = header_name(last.0) {
            if is_header_value(last.1) {
                lemma_put_lookup(reply_headers(init), other, last.1, name);
            }
        }
    } else {
        lemma_put_lookup(reply_headers(init), name, last.1, name);
    }
}

/// A client gets no header but those of the response.
pub proof fn lemma_header_known(headers: Seq<(Seq<char>, Seq<char>)>, name: Seq<char>)
    ensures
        lookup(reply_headers(headers), name) matches Some(value) ==> exists|i: int|
            0 <= i < headers.len() && header_name((#[trigger] headers[i]).0) == Some(name)
                && headers[i].1 == value && is_header_value(value),
    decreases headers.len(),
{
    if headers.len() > 0 {
        let init = headers.drop_last();
        let last = headers.last();
        lemma_header_known(init, name);
        if let Some(value) = lookup(reply_headers(init), name) {
            let i = choose|i: int|
                0 <= i < init.len() && header_name((#[trigger] init[i]).0) == Some(name)
                    && init[i].1 == value && is_header_value(value);
            assert(headers[i] == init[i]);
        }
        if let Some(other) = header_name(last.0) {
            if is_header_value(last.1) {
                lemma_put_lookup(reply_headers(init), other, last.1, name);
                assert(headers[headers.len() - 1] == last);
            }
        }
    } else {
        lemma_position(reply_headers(headers), name);
    }
}

/// The normal form of a name is its own normal form.
pub proof fn lemma_normal_name(text: Seq<char>)
    ensures
        header_name(text) matches Some(name) ==> header_name(name) == Some(name),
{
    if let Some(name) = header_name(text) {
        assert forall|i: int| 0 <= i < name.len() implies is_name_char(#[trigger] name[i]) && lower(
            name[i],
        ) == name[i] by {
            assert(is_name_char(text[i]));
            let c = text[i];
            if 'A' <= c <= 'Z' {
                assert(lower(c) as u32 == c as u32 + 32);
            }
        }
        assert(Seq::new(name.len(), |i: int| lower(name[i])) =~= name);
    }
}

fn accept_headers(headers: &Vec<(String, String)>) -> (r: Vec<(String, String)>)
    ensures
        text_pairs(r@) == reply_headers(text_pairs(headers@)),
{
    let ghost all = text_pairs(headers@);
    let mut r: Vec<(String, String)> = Vec::new();
    assert(text_pairs(r@) =~= Seq::empty());
    for i in 0..headers.len()
        invariant
            all == text_pairs(headers@),
            text_pairs(r@) == reply_headers(all.take(i as int)),
    {
        assert(all.take(i + 1).drop_last() =~= all.take(i as int));
        if let Some(name) = normal_name(headers[i].0.as_str()) {
            if is_value(headers[i].1.as_str()) {
                put_text(&mut r, name.as_str(), headers[i].1.as_str());
            }
        }
    }
    assert(all.take(all.len() as int) =~= all);
    r
}

/// The text of the member of that name; empty where there is none or it is no string.
pub open spec fn member_text(json: JsonView, name: Seq<char>) -> Seq<char> {
    match json.member(name) {
        Some(value) => text_of(value),
        None => ""@,
    }
}

/// The text of a string; empty of what is no string.
pub open spec fn text_of(json: JsonView) -> Seq<char> {
    match json.text() {
        Some(text) => text,
        None => ""@,
    }
}

/// The status that a document states, cut to 16 bits: 200 where it states none.
pub open spec fn stated_status(json: JsonView) -> u16 {
    match json.member("status"@) {
        Some(value) => match value.unsigned() {
            Some(n) => (n % 0x1_0000) as u16,
            None => 200,
        },
        None => 200,
    }
}

/// The headers that a document states.
pub open spec fn stated_headers(json: JsonView) -> Seq<(Seq<char>, JsonView)> {
    match json.member("headers"@) {
        Some(JsonView::Object(members)) => members,
        _ => Seq::empty(),
    }
}

/// The members that are strings.
pub open spec fn text_members(members: Seq<(Seq<char>, JsonView)>) -> Seq<(Seq<char>, Seq<char>)>
    decreases members.len(),
{
    if members.len() == 0 {
        Seq::empty()
    } else {
        let before = text_members(members.drop_last());
        match members.last().1.text() {
            Some(text) => before.push((members.last().0, text)),
            None => before,
        }
    }
}

/// The response that a document registers. A header that is no string is passed over.
pub open spec fn native_view(json: JsonView) -> ResponseView {
    ResponseView {
        status: stated_status(json),
        body: member_text(json, "body"@),
        headers: text_members(stated_headers(json)),
    }
}

/// The response that a handler answers with. A header that is no string counts as empty.
pub open spec fn answer_view(json: JsonView) -> ResponseView {
    ResponseView {
        status: stated_status(json),
        body: member_text(json, "body"@),
        headers: Seq::new(
            stated_headers(json).len(),
            |i: int| (stated_headers(json)[i].0, text_of(stated_headers(json)[i].1)),
        ),
    }
}

/// A document that has a number from zero up for a status states its low 16 bits, and any other
/// states 200.
pub proof fn lemma_stated_status(json: JsonView)
    ensures
        (match json.member("status"@) {
            Some(JsonView::Int(n)) => {
                &&& 0 <= n < 0x1_0000 ==> stated_status(json) == n
                &&& 0 <= n <= u64::MAX ==> stated_status(json) == n % 0x1_0000
                &&& n < 0 || n > u64::MAX ==> stated_status(json) == 200
            },
            _ => stated_status(json) == 200,
        }),
{
}

/// A handler answers with the string that its document has for a body, whatever else it says, or
/// with nothing where it has none, and with each header of the document, in order, empty where it
/// is no string.
pub proof fn lemma_answer(json: JsonView)
    ensures
        (match json.member("body"@) {
            Some(JsonView::Text(text)) => answer_view(json).body == text,
            _ => answer_view(json).body == ""@,
        }),
        answer_view(json).status == stated_status(json),
        (match json.member("headers"@) {
            Some(JsonView::Object(members)) => answer_view(json).headers.len() == members.len()
                && forall|i: int|
                0 <= i < members.len() ==> (#[trigger] answer_view(json).headers[i]).0
                    == members[i].0 && answer_view(json).headers[i].1 == (match members[i].1 {
                    JsonView::Text(text) => text,
                    _ => ""@,
                }),
            _ => answer_view(json).headers.len() == 0,
        }),
{
}

/// The members that are strings are those among the first members and then those among the others,
/// each with its text.
pub proof fn lemma_text_members(
    first: Seq<(Seq<char>, JsonView)>,
    others: Seq<(Seq<char>, JsonView)>,
    member: (Seq<char>, JsonView),
)
    ensures
        text_members(first + others) == text_members(first) + text_members(others),
        text_members(seq![member]) == (match member.1 {
            JsonView::Text(text) => seq![(member.0, text)],
            _ => Seq::empty(),
        }),
        text_members(Seq::empty()).len() == 0,
    decreases others.len(),
{
    reveal_with_fuel(text_members, 2);
    assert(seq![member].drop_last() =~= Seq::empty());
    if others.len() > 0 {
        lemma_text_members(first, others.drop_last(), member);
        assert((first + others).drop_last() =~= first + others.drop_last());
    } else {
        assert(first + others =~= first);
    }
}

/// A document registers the string that it has for a body, whatever else it says, or nothing where
/// it has none, the status that it states, and those of its headers that are strings.
pub proof fn lemma_registered_response(json: JsonView)
    ensures
        (match json.member("body"@) {
            Some(JsonView::Text(text)) => native_view(json).body == text,
            _ => native_view(json).body == ""@,
        }),
        native_view(json).status == stated_status(json),
        (match json.member("headers"@) {
            Some(JsonView::Object(members)) => native_view(json).headers == text_members(members),
            _ => native_view(json).headers.len() == 0,
        }),
{
}

/// A client gets each header of a handler's answer that has a name and a value that a header may
/// have, unless a later one has the same name.
pub proof fn lemma_answer_header(
    json: JsonView,
    members: Seq<(Seq<char>, JsonView)>,
    i: int,
    name: Seq<char>,
    value: Seq<char>,
)
    requires
        json.member("headers"@) == Some(JsonView::Object(members)),
        0 <= i < members.len(),
        members[i].1 == JsonView::Text(value),
        header_name(members[i].0) == Some(name),
        is_header_value(value),
        forall|j: int| i < j < members.len() ==> header_name((#[trigger] members[j]).0) != Some(name),
    ensures
        lookup(reply_view(answer_view(json)).headers, name) == Some(value),
{
    let headers = answer_view(json).headers;
    lemma_answer(json);
    assert(headers[i] == (members[i].0, value));
    assert forall|j: int|
        i < j < headers.len() && is_header_value((#[trigger] headers[j]).1) implies header_name(
        headers[j].0,
    ) != header_name(headers[i].0) by {
        assert(headers[j].0 == members[j].0);
    }
    lemma_header_kept(headers, i);
}

fn status_in(json: &Json) -> (r: u16)
    ensures
        r == stated_status(json@),
{
    match json.get("status") {
        Some(value) => match value.as_u64() {
            Some(n) => (n % 0x1_0000) as u16,
            None => 200,
        },
        None => 200,
    }
}

fn text_in(json: &Json, name: &str) -> (r: String)
    ensures
        r@ == member_text(json@, name@),
{
    match json.get(name) {
        Some(value) => match value.as_str() {
            Some(text) => text.to_owned(),
            None => "".to_owned(),
        },
        None => "".to_owned(),
    }
}

/// Makes the response that a document registers.
pub fn native_response(json: &Json) -> (r: NativeResponse)
    ensures
        r@ == native_view(json@),
        (match json@.member("body"@) {
            Some(JsonView::Text(text)) => r.body@ == text,
            _ => r.body@ == ""@,
        }),
        (match json@.member("status"@) {
            Some(JsonView::Int(n)) => 0 <= n < 0x1_0000 ==> r.status == n,
            _ => r.status == 200,
        }),
{
    let mut headers: Vec<(String, String)> = Vec::new();
    assert(text_pairs(headers@) =~= Seq::empty());
    if let Some(Json::Object(members)) = json.get("headers") {
        proof {
            lemma_object_view(*members);
        }
        let ghost all = members_view(members@);
        for i in 0..members.len()
            invariant
                all == members_view(members@),
                text_pairs(headers@) == text_members(all.take(i as int)),
        {
            let ghost before = headers@;
            assert(all.take(i + 1).drop_last() =~= all.take(i as int));
            if let Some(text) = members[i].1.as_str() {
                headers.push((members[i].0.clone(), text.to_owned()));
                assert(text_pairs(headers@) =~= text_pairs(before).push((all[i as int].0, text@)));
            }
        }
        assert(all.take(all.len() as int) =~= all);
    }
    NativeResponse { status: status_in(json), body: text_in(json, "body"), headers }
}

/// Makes the reply to a client of a response that is registered.
pub fn native_reply(response: &NativeResponse) -> (r: Reply)
    ensures
        r@ == reply_view(response@),
        r.body@ == response.body@,
        r.status == (if 100 <= response.status <= 999 {
            response.status
        } else {
            200
        }),
{
    Reply {
        status: valid_status(response.status),
        body: response.body.clone(),
        headers: accept_headers(&response.headers),
    }
}

/// Makes the reply to a client of what a handler answered.
pub fn answer_reply(json: &Json) -> (r: Reply)
    ensures
        r@ == reply_view(answer_view(json@)),
        (match json@.member("body"@) {
            Some(JsonView::Text(text)) => r.body@ == text,
            _ => r.body@ == ""@,
        }),
        (match json@.member("status"@) {
            Some(JsonView::Int(n)) => 100 <= n <= 999 ==> r.status == n,
            _ => r.status == 200,
        }),
{
    let mut headers: Vec<(String, String)> = Vec::new();
    if let Some(Json::Object(members)) = json.get("headers") {
        proof {
            lemma_object_view(*members);
        }
        for i in 0..members.len()
            invariant
                headers@.len() == i,
                forall|j: int|
                    0 <= j < i ==> (#[trigger] headers@[j]).0@ == members@[j].0@ && headers@[j].1@
                        == text_of(members@[j].1@),
        {
            let text = match members[i].1.as_str() {
                Some(text) => text.to_owned(),
                None => "".to_owned(),
            };
            headers.push((members[i].0.clone(), text));
        }
    }
    assert(text_pairs(headers@) =~= answer_view(json@).headers);
    Reply {
        status: valid_status(status_in(json)),
        body: text_in(json, "body"),
        headers: accept_headers(&headers),
    }
}

fn valid_status(status: u16) -> (r: u16)
    ensures
        r == reply_status(status),
{
    if 100 <= status && status <= 999 {
        status
    } else {
        200
    }
}

/// A reply of a status and a text, without headers of its own.
pub fn plain_reply(status: u16, body: String) -> (r: Reply)
    ensures
        r@ == (ResponseView { status, body: body@, headers: Seq::empty() }),
{
    let headers: Vec<(String, String)> = Vec::new();
    assert(text_pairs(headers@) =~= Seq::empty());
    Reply { status, body, headers }
}

/// The responses that are registered beforehand, by handler.
pub struct NativeResponses {
    table: IdTable<NativeResponse>,
}

impl View for NativeResponses {
    type V = Map<u32, ResponseView>;

    closed spec fn view(&self) -> Map<u32, ResponseView> {
        self.table.map().map_values(|response: NativeResponse| response@)
    }
}

impl NativeResponses {
    /// The table is well formed.
    pub closed spec fn wf(self) -> bool {
        self.table.wf()
    }

    /// No responses.
    pub fn new() -> (r: NativeResponses)
        ensures
            r.wf(),
            r@ == Map::<u32, ResponseView>::empty(),
    {
        let r = NativeResponses { table: IdTable::new() };
        assert(r@ =~= Map::<u32, ResponseView>::empty());
        r
    }

    /// The response that is registered for a handler.
    pub fn get(&self, handler_id: u32) -> (r: Option<&NativeResponse>)
        requires
            self.wf(),
        ensures
            (match r {
                Some(response) => self@.contains_key(handler_id) && response@ == self@[handler_id],
                None => !self@.contains_key(handler_id),
            }),
    {
        self.table.get(handler_id)
    }

    /// Registers a response for a handler, in place of the one that was there.
    pub fn set(&mut self, handler_id: u32, response: NativeResponse)
        requires
            old(self).wf(),
        ensures
            final(self).wf(),
            final(self)@ == old(self)@.insert(handler_id, response@),
    {
        self.table.set(handler_id, response);
        assert(self@ =~= old(self)@.insert(handler_id, response@));
    }
}

/// The response that bytes register: `None` where there are none, or they are not UTF-8, or the
/// text is no JSON.
pub open spec fn preloaded(response_json: Option<&[u8]>) -> Option<ResponseView> {
    match response_json {
        Some(bytes) if bytes@.len() > 0 && valid_utf8(bytes@) => match parsed(decode_utf8(bytes@)) {
            Some(json) => Some(native_view(json)),
            None => None,
        },
        _ => None,
    }
}

/// Bytes that are the text of a document register the response of that document. Any other bytes,
/// and none, register nothing.
pub proof fn lemma_preloaded_bytes(bytes: &[u8], json: JsonView)
    ensures
        bytes@.len() > 0 && valid_utf8(bytes@) && parsed(decode_utf8(bytes@)) == Some(json)
            ==> preloaded(Some(bytes)) == Some(native_view(json)),
        bytes@.len() == 0 || !valid_utf8(bytes@) || parsed(decode_utf8(bytes@)) is None
            ==> preloaded(Some(bytes)) is None,
        preloaded(None) is None,
{
}

/// Registers a response for a handler. Returns 0, or 1 where the bytes register none.
pub fn quill_route_preload(
    responses: &mut NativeResponses,
    handler_id: u32,
    response_json: Option<&[u8]>,
) -> (r: i32)
    requires
        old(responses).wf(),
    ensures
        final(responses).wf(),
        (match preloaded(response_json) {
            Some(response) => r == 0 && final(responses)@ == old(responses)@.insert(
                handler_id,
                response,
            ),
            None => r == 1 && final(responses)@ == old(responses)@,
        }),
{
    let bytes = match response_json {
        Some(bytes) => bytes,
        None => {
            return 1;
        },
    };
    if bytes.len() == 0 {
        return 1;
    }
    match utf8(bytes) {
        Some(text) => match parse_json(text) {
            Some(json) => {
                responses.set(handler_id, native_response(&json));
                0
            },
            None => 1,
        },
        None => 1,
    }
}

} // verus!
