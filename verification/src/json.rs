//! JSON documents.

use sonic_rs::{JsonContainerTrait, JsonValueTrait, Value, ValueRef};
use vstd::prelude::*;
use vstd::string::*;
use vstd::utf8::*;

use crate::float::{is_near, rank, SIGN};
use crate::pairs::{
    has_name, lemma_position, lemma_position_unique, lookup, position, text_pairs,
};
use crate::text::{
    c_text, c_text_len, optional_text_or, put_c_text, read_text, same_text, texts_view,
};

verus! {

/// The JSON document type of `sonic_rs`. It is opaque here: what a value holds is named by
/// [`document`].
#[verifier::external_type_specification]
#[verifier::external_body]
pub struct ExValue(Value);

/// A JSON document as a mathematical value.
#[verifier::ext_equal]
pub enum JsonView {
    /// `null`.
    Null,
    /// `true` or `false`.
    Bool(bool),
    /// A number without fraction or exponent that fits in 64 bits, signed or unsigned.
    Int(int),
    /// Any other number, as the bits of the nearest binary64 number.
    Real(u64),
    /// A string.
    Text(Seq<char>),
    /// An array.
    Array(Seq<JsonView>),
    /// An object: its members in the order of the text, repeated names kept.
    Object(Seq<(Seq<char>, JsonView)>),
}

/// What a `sonic_rs` value holds.
pub uninterp spec fn document(value: Value) -> JsonView;

/// No part of the value is kept as raw text. `sonic_rs` keeps raw text where it is told to, shows
/// what it stands for, and writes it as it came.
pub uninterp spec fn is_plain(value: Value) -> bool;

/// What `sonic_rs::from_str` makes of a text: `None` where it reports an error.
pub uninterp spec fn parsed(text: Seq<char>) -> Option<JsonView>;

/// The text that `sonic_rs::to_string` writes for a document that is kept as plain values.
pub uninterp spec fn printed(json: JsonView) -> Seq<char>;

/// The bits of the binary64 number that `as_f64` gives for an integer.
pub uninterp spec fn nearest_float(n: int) -> u64;

impl JsonView {
    /// The member of that name, where the document is an object that has one.
    pub open spec fn member(self, name: Seq<char>) -> Option<JsonView> {
        match self {
            JsonView::Object(members) => lookup(members, name),
            _ => None,
        }
    }

    /// The document is a number.
    pub open spec fn is_number(self) -> bool {
        self is Int || self is Real
    }

    /// The bits of the number as a binary64 number.
    pub open spec fn float(self) -> Option<u64> {
        match self {
            JsonView::Int(n) => Some(nearest_float(n)),
            JsonView::Real(bits) => Some(bits),
            _ => None,
        }
    }

    /// The text of a string.
    pub open spec fn text(self) -> Option<Seq<char>> {
        match self {
            JsonView::Text(s) => Some(s),
            _ => None,
        }
    }

    /// The number as a signed integer of 64 bits.
    pub open spec fn signed(self) -> Option<i64> {
        match self {
            JsonView::Int(n) if i64::MIN <= n <= i64::MAX => Some(n as i64),
            _ => None,
        }
    }

    /// The number as an unsigned integer of 64 bits.
    pub open spec fn unsigned(self) -> Option<u64> {
        match self {
            JsonView::Int(n) if 0 <= n <= u64::MAX => Some(n as u64),
            _ => None,
        }
    }
}

/// The member of a name is the first that has it. There is none where no member has it, or the
/// document is no object.
pub proof fn lemma_member(json: JsonView, name: Seq<char>)
    ensures
        (match json {
            JsonView::Object(members) => {
                &&& forall|i: int|
                    0 <= i < members.len() && (#[trigger] members[i]).0 == name && (forall|j: int|
                        0 <= j < i ==> (#[trigger] members[j]).0 != name) ==> json.member(name)
                        == Some(members[i].1)
                &&& (forall|i: int| 0 <= i < members.len() ==> (#[trigger] members[i]).0 != name)
                    ==> json.member(name) is None
            },
            _ => json.member(name) is None,
        }),
{
    if let JsonView::Object(members) = json {
        lemma_position(members, name);
        assert forall|i: int|
            0 <= i < members.len() && (#[trigger] members[i]).0 == name && (forall|j: int|
                0 <= j < i ==> (#[trigger] members[j]).0 != name) implies json.member(name) == Some(
            members[i].1,
        ) by {
            lemma_position_unique(members, name, i);
        }
    }
}

/// A string is its text, an integer of 64 bits is that integer, and a number counts as a binary64
/// number, itself where it is no integer. Nothing else is a text or a number.
pub proof fn lemma_scalar(json: JsonView)
    ensures
        (match json {
            JsonView::Text(text) => json.text() == Some(text),
            _ => json.text() is None,
        }),
        (match json {
            JsonView::Int(n) => {
                &&& -0x8000_0000_0000_0000 <= n < 0x8000_0000_0000_0000 ==> (json.signed()
                    matches Some(m) && m == n)
                &&& 0x8000_0000_0000_0000 <= n || n < -0x8000_0000_0000_0000 ==> json.signed()
                    is None
                &&& 0 <= n < 0x1_0000_0000_0000_0000 ==> (json.unsigned() matches Some(m) && m
                    == n)
                &&& n < 0 || 0x1_0000_0000_0000_0000 <= n ==> json.unsigned() is None
                &&& json.float() == Some(nearest_float(n))
                &&& json.is_number()
            },
            JsonView::Real(bits) => {
                &&& json.signed() is None
                &&& json.unsigned() is None
                &&& json.float() == Some(bits)
                &&& json.is_number()
            },
            _ => {
                &&& json.signed() is None
                &&& json.unsigned() is None
                &&& json.float() is None
                &&& !json.is_number()
            },
        }),
{
}

/// The document has no negative zero in it, which would be read back as zero.
pub open spec fn is_stable(json: JsonView) -> bool
    decreases json,
{
    match json {
        JsonView::Real(bits) => bits != SIGN,
        JsonView::Array(items) => forall|i: int|
            0 <= i < items.len() ==> is_stable(#[trigger] items[i]),
        JsonView::Object(members) => forall|i: int|
            0 <= i < members.len() ==> is_stable((#[trigger] members[i]).1),
        _ => true,
    }
}

/// The text reads as the document, where the document has no negative zero in it and the text is
/// no longer than a reader takes.
pub open spec fn reads_back(text: Seq<char>, json: JsonView) -> bool {
    is_stable(json) && text.len() <= 0x3fff_ffff ==> parsed(text) == Some(json)
}

/// Whether the end of the text stands inside a string, and behind a backslash there.
pub open spec fn inside_string(text: Seq<char>) -> (bool, bool)
    decreases text.len(),
{
    if text.len() == 0 {
        (false, false)
    } else {
        let c = text.last();
        match inside_string(text.drop_last()) {
            (false, _) => (c == '"', false),
            (true, true) => (true, false),
            (true, false) => (c != '"', c == '\\'),
        }
    }
}

/// The character is a blank of JSON.
pub open spec fn is_blank(c: char) -> bool {
    c == ' ' || c == '\t' || c == '\n' || c == '\r'
}

/// No blank stands outside of the strings in the text.
pub open spec fn is_compact(text: Seq<char>) -> bool {
    forall|i: int|
        0 <= i < text.len() && is_blank(#[trigger] text[i]) ==> inside_string(text.take(i)).0
}

/// What a text is compacted to: `None` where it is no JSON.
pub open spec fn compacted(text: Seq<char>) -> Option<Seq<char>> {
    match parsed(text) {
        Some(json) => Some(printed(json)),
        None => None,
    }
}

/// A JSON number that is no 64-bit integer.
pub struct Real {
    bits: u64,
    value: Value,
}

impl Real {
    /// The value of a `Real` is a number that is no 64-bit integer, has its bits, and is plain.
    #[verifier::type_invariant]
    spec fn inv(self) -> bool {
        document(self.value) == JsonView::Real(self.bits) && is_plain(self.value)
    }

    /// The bits of the binary64 number.
    pub closed spec fn spec_bits(self) -> u64 {
        self.bits
    }

    /// The bits of the binary64 number.
    pub fn bits(&self) -> (bits: u64)
        ensures
            bits == self.spec_bits(),
    {
        self.bits
    }

    /// The same number again.
    pub fn duplicate(&self) -> (r: Real)
        ensures
            r.spec_bits() == self.spec_bits(),
    {
        proof {
            use_type_invariant(self);
        }
        Real { bits: self.bits, value: clone_value(&self.value) }
    }
}

/// A JSON document.
pub enum Json {
    /// `null`.
    Null,
    /// `true` or `false`.
    Bool(bool),
    /// An integer from zero up.
    Natural(u64),
    /// A signed integer.
    Integer(i64),
    /// Any other number.
    Real(Real),
    /// A string.
    Text(String),
    /// An array.
    Array(Vec<Json>),
    /// An object: its members in order, repeated names kept.
    Object(Vec<(String, Json)>),
}

impl View for Json {
    type V = JsonView;

    open spec fn view(&self) -> JsonView
        decreases self,
    {
        match self {
            Json::Null => JsonView::Null,
            Json::Bool(b) => JsonView::Bool(*b),
            Json::Natural(n) => JsonView::Int(*n as int),
            Json::Integer(n) => JsonView::Int(*n as int),
            Json::Real(r) => JsonView::Real(r.spec_bits()),
            Json::Text(s) => JsonView::Text(s@),
            Json::Array(items) => JsonView::Array(
                Seq::new(
                    items@.len(),
                    |i: int| if 0 <= i < items@.len() { items@[i].view() } else { JsonView::Null },
                ),
            ),
            Json::Object(members) => JsonView::Object(
                Seq::new(
                    members@.len(),
                    |i: int|
                        if 0 <= i < members@.len() {
                            (members@[i].0@, members@[i].1.view())
                        } else {
                            (Seq::empty(), JsonView::Null)
                        },
                ),
            ),
        }
    }
}

/// What an array of documents holds.
pub open spec fn items_view(items: Seq<Json>) -> Seq<JsonView> {
    Seq::new(items.len(), |i: int| items[i]@)
}

/// What a list of members holds.
pub open spec fn members_view(members: Seq<(String, Json)>) -> Seq<(Seq<char>, JsonView)> {
    Seq::new(members.len(), |i: int| (members[i].0@, members[i].1@))
}

/// The view of an array lists the views of its items.
pub proof fn lemma_array_view(items: Vec<Json>)
    ensures
        Json::Array(items)@ == JsonView::Array(items_view(items@)),
{
    reveal_with_fuel(<Json as View>::view, 2);
    assert(Json::Array(items)@->Array_0 =~= items_view(items@));
}

/// The view of an object lists the names and the views of its members.
pub proof fn lemma_object_view(members: Vec<(String, Json)>)
    ensures
        Json::Object(members)@ == JsonView::Object(members_view(members@)),
{
    reveal_with_fuel(<Json as View>::view, 2);
    assert(Json::Object(members)@->Object_0 =~= members_view(members@));
}

impl Json {
    /// The member of that name, the first where the name is repeated. `None` of what is no
    /// object.
    pub fn get(&self, name: &str) -> (r: Option<&Json>)
        ensures
            (match r {
                Some(json) => self@.member(name@) == Some(json@),
                None => self@.member(name@) is None,
            }),
    {
        match self {
            Json::Object(members) => {
                proof {
                    lemma_object_view(*members);
                }
                let ghost all = members_view(members@);
                for i in 0..members.len()
                    invariant
                        all == members_view(members@),
                        self@ == JsonView::Object(all),
                        forall|j: int| 0 <= j < i ==> (#[trigger] all[j]).0 != name@,
                {
                    if same_text(members[i].0.as_str(), name) {
                        proof {
                            lemma_position_unique(all, name@, i as int);
                        }
                        return Some(&members[i].1);
                    }
                }
                proof {
                    lemma_position_unique(all, name@, all.len() as int);
                }
                None
            },
            _ => None,
        }
    }

    /// The document is `null`.
    pub fn is_null(&self) -> (r: bool)
        ensures
            r == (self@ is Null),
    {
        matches!(self, Json::Null)
    }

    /// The document is a number.
    pub fn is_number(&self) -> (r: bool)
        ensures
            r == self@.is_number(),
    {
        matches!(self, Json::Natural(_) | Json::Integer(_) | Json::Real(_))
    }

    /// The document is `true` or `false`.
    pub fn is_boolean(&self) -> (r: bool)
        ensures
            r == (self@ is Bool),
    {
        matches!(self, Json::Bool(_))
    }

    /// The text of a string.
    pub fn as_str(&self) -> (r: Option<&str>)
        ensures
            (match r {
                Some(text) => self@.text() == Some(text@),
                None => self@.text() is None,
            }),
    {
        match self {
            Json::Text(text) => Some(text.as_str()),
            _ => None,
        }
    }

    /// The number, where it is a signed integer of 64 bits.
    pub fn as_i64(&self) -> (r: Option<i64>)
        ensures
            r == self@.signed(),
    {
        match self {
            Json::Natural(n) if *n <= i64::MAX as u64 => Some(*n as i64),
            Json::Integer(n) => Some(*n),
            _ => None,
        }
    }

    /// The number, where it is an unsigned integer of 64 bits.
    pub fn as_u64(&self) -> (r: Option<u64>)
        ensures
            r == self@.unsigned(),
    {
        match self {
            Json::Natural(n) => Some(*n),
            Json::Integer(n) if *n >= 0 => Some(*n as u64),
            _ => None,
        }
    }

    /// The bits of the number as a binary64 number.
    pub fn float_bits(&self) -> (r: Option<u64>)
        ensures
            r == self@.float(),
            self@ matches JsonView::Int(n) ==> is_near(n, nearest_float(n)),
    {
        match self {
            Json::Natural(_) | Json::Integer(_) | Json::Real(_) => value_float(&write_value(self)),
            _ => None,
        }
    }

    /// The same document again.
    pub fn duplicate(&self) -> (r: Json)
        ensures
            r@ == self@,
        decreases self@,
    {
        match self {
            Json::Null => Json::Null,
            Json::Bool(b) => Json::Bool(*b),
            Json::Natural(n) => Json::Natural(*n),
            Json::Integer(n) => Json::Integer(*n),
            Json::Real(r) => Json::Real(r.duplicate()),
            Json::Text(s) => Json::Text(s.clone()),
            Json::Array(items) => {
                proof {
                    lemma_array_view(*items);
                }
                let mut out: Vec<Json> = Vec::new();
                for i in 0..items.len()
                    invariant
                        self@ == JsonView::Array(items_view(items@)),
                        out@.len() == i,
                        forall|j: int| 0 <= j < i ==> (#[trigger] out@[j])@ == items@[j]@,
                {
                    assert(items_view(items@)[i as int] == items@[i as int]@);
                    assert(decreases_to!(self@ => self@->Array_0[i as int]));
                    out.push(items[i].duplicate());
                }
                proof {
                    lemma_array_view(out);
                    assert(items_view(out@) =~= items_view(items@));
                }
                Json::Array(out)
            },
            Json::Object(members) => {
                proof {
                    lemma_object_view(*members);
                }
                let mut out: Vec<(String, Json)> = Vec::new();
                for i in 0..members.len()
                    invariant
                        self@ == JsonView::Object(members_view(members@)),
                        out@.len() == i,
                        forall|j: int|
                            0 <= j < i ==> (#[trigger] out@[j]).0@ == members@[j].0@ && out@[j].1@
                                == members@[j].1@,
                {
                    assert(members_view(members@)[i as int].1 == members@[i as int].1@);
                    assert(decreases_to!(self@ => self@->Object_0[i as int].1));
                    out.push((members[i].0.clone(), members[i].1.duplicate()));
                }
                proof {
                    lemma_object_view(out);
                    assert(members_view(out@) =~= members_view(members@));
                }
                Json::Object(out)
            },
        }
    }
}

/// One level of a document: a scalar, or the documents directly inside.
pub(crate) enum Shape {
    Null,
    Bool(bool),
    /// A number, as the value that it is.
    Number(Value),
    Text(String),
    Array(Vec<Value>),
    Object(Vec<(String, Value)>),
}

impl Shape {
    /// The document that has this shape.
    pub(crate) open spec fn json(self) -> JsonView {
        match self {
            Shape::Null => JsonView::Null,
            Shape::Bool(b) => JsonView::Bool(b),
            Shape::Number(value) => document(value),
            Shape::Text(s) => JsonView::Text(s@),
            Shape::Array(items) => JsonView::Array(
                Seq::new(items@.len(), |i: int| document(items@[i])),
            ),
            Shape::Object(members) => JsonView::Object(
                Seq::new(members@.len(), |i: int| (members@[i].0@, document(members@[i].1))),
            ),
        }
    }

    /// The values in the shape are plain.
    pub(crate) open spec fn is_plain(self) -> bool {
        match self {
            Shape::Number(value) => is_plain(value),
            Shape::Array(items) => forall|i: int|
                0 <= i < items@.len() ==> is_plain(#[trigger] items@[i]),
            Shape::Object(members) => forall|i: int|
                0 <= i < members@.len() ==> is_plain((#[trigger] members@[i]).1),
            _ => true,
        }
    }
}

/// Calls `sonic_rs::from_str`. The result depends on the text alone and is named [`parsed`]. It
/// keeps no raw text.
#[verifier::external_body]
fn parse_value(text: &str) -> (r: Option<Value>)
    ensures
        (match r {
            Some(value) => parsed(text@) == Some(document(value)) && is_plain(value),
            None => parsed(text@) is None,
        }),
{
    sonic_rs::from_str::<Value>(text).ok()
}

/// Calls `sonic_rs::to_string`. Of a plain value the result depends on what it holds alone and is
/// named [`printed`]. It escapes in strings what `sonic_rs::from_str` unescapes, writes integers in full
/// and other numbers with the digits that tell them apart, so that the text reads as the same
/// document. A negative zero, which is read as zero, and texts of four gigabytes, which are not
/// read, are left out. It writes no blanks but those inside of strings.
#[verifier::external_body]
fn print_value(value: &Value) -> (r: String)
    requires
        is_plain(*value),
    ensures
        r@ == printed(document(*value)),
        reads_back(r@, document(*value)),
        is_compact(r@),
{
    sonic_rs::to_string(value).unwrap_or_default()
}

/// Calls `sonic_rs::Value::as_ref` and moves what it shows into a [`Shape`]. A number is an
/// integer of 64 bits, signed or unsigned, or a binary64 number, and is made a plain value.
#[verifier::external_body]
fn open_value(value: &Value) -> (r: Shape)
    ensures
        r.json() == document(*value),
        (match r {
            Shape::Number(number) => is_plain(number) && (match document(number) {
                JsonView::Int(n) => i64::MIN <= n <= u64::MAX,
                JsonView::Real(_) => true,
                _ => false,
            }),
            _ => true,
        }),
{
    match value.as_ref() {
        ValueRef::Null => Shape::Null,
        ValueRef::Bool(b) => Shape::Bool(b),
        ValueRef::Number(n) => Shape::Number(Value::from(n)),
        ValueRef::String(s) => Shape::Text(s.to_string()),
        ValueRef::Array(a) => Shape::Array(a.iter().cloned().collect()),
        ValueRef::Object(o) => Shape::Object(o.iter().map(|(k, v)| (k.to_string(), v.clone())).collect()),
    }
}

/// Builds the `sonic_rs` value of a [`Shape`], with the constructor that `sonic_rs` has for it. A
/// number is its own value. The value is plain where those in the shape are.
#[verifier::external_body]
fn build_value(shape: Shape) -> (r: Value)
    requires
        shape.is_plain(),
    ensures
        document(r) == shape.json(),
        is_plain(r),
{
    match shape {
        Shape::Null => Value::new(),
        Shape::Bool(b) => Value::from(b),
        Shape::Number(value) => value,
        Shape::Text(s) => Value::from(&s),
        Shape::Array(items) => Value::from(items),
        Shape::Object(members) => {
            let pairs: Vec<(Value, Value)> = members.into_iter().map(|(k, v)| (Value::from(&k), v)).collect();
            Value::from(&pairs[..])
        }
    }
}

/// Calls `sonic_rs::Value::new_u64`, which makes the value of an integer.
#[verifier::external_body]
fn natural_value(n: u64) -> (r: Value)
    ensures
        document(r) == JsonView::Int(n as int),
        is_plain(r),
{
    Value::new_u64(n)
}

/// Calls `sonic_rs::Value::new_i64`, which makes the value of an integer.
#[verifier::external_body]
fn integer_value(n: i64) -> (r: Value)
    ensures
        document(r) == JsonView::Int(n as int),
        is_plain(r),
{
    Value::new_i64(n)
}

/// Calls `sonic_rs::Value::as_u64`: the integer, where it is one of 64 bits without sign.
#[verifier::external_body]
fn value_natural(value: &Value) -> (r: Option<u64>)
    ensures
        r == document(*value).unsigned(),
{
    value.as_u64()
}

/// Calls `sonic_rs::Value::as_i64`: the integer, where it is one of 64 bits with sign.
#[verifier::external_body]
fn value_integer(value: &Value) -> (r: Option<i64>)
    ensures
        r == document(*value).signed(),
{
    value.as_i64()
}

/// Calls `Value::clone`, which keeps what the value holds. The clone of a plain value is plain.
#[verifier::external_body]
fn clone_value(value: &Value) -> (r: Value)
    requires
        is_plain(*value),
    ensures
        document(r) == document(*value),
        is_plain(r),
{
    value.clone()
}

/// Calls `sonic_rs::Value::as_f64`. It is `None` of what is no number, and the number itself of
/// a number that is no integer. The binary64 number that it gives for an integer is named
/// [`nearest_float`]. It is the integer itself up to 2^53 in magnitude, and beyond the nearest
/// binary64 number, so that a greater integer never gives a lesser one.
#[verifier::external_body]
fn value_float(value: &Value) -> (r: Option<u64>)
    ensures
        r == (match document(*value) {
            JsonView::Int(n) => Some(nearest_float(n)),
            JsonView::Real(bits) => Some(bits),
            _ => None,
        }),
        (match (r, document(*value)) {
            (Some(bits), JsonView::Int(n)) => is_near(n, bits) && forall|m: int|
                i64::MIN <= m <= u64::MAX ==> (if m <= n {
                    rank(#[trigger] nearest_float(m)) <= rank(bits)
                } else {
                    rank(bits) <= rank(nearest_float(m))
                }),
            _ => true,
        }),
{
    value.as_f64().map(|x| x.to_bits())
}

/// Reads the document that a `sonic_rs` value holds. Where the value keeps raw text, what it
/// stands for is read, and the raw text is not kept.
pub fn read_value(value: &Value) -> (r: Json)
    ensures
        r@ == document(*value),
    decreases document(*value),
{
    let ghost json = document(*value);
    match open_value(value) {
        Shape::Null => Json::Null,
        Shape::Bool(b) => Json::Bool(b),
        Shape::Number(number) => match value_natural(&number) {
            Some(n) => Json::Natural(n),
            None => match value_integer(&number) {
                Some(n) => Json::Integer(n),
                None => {
                    assert(json is Real);
                    let bits = match value_float(&number) {
                        Some(bits) => bits,
                        None => 0,
                    };
                    Json::Real(Real { bits, value: number })
                },
            },
        },
        Shape::Text(s) => Json::Text(s),
        Shape::Array(items) => {
            let mut out: Vec<Json> = Vec::new();
            for i in 0..items.len()
                invariant
                    json == document(*value),
                    json == Shape::Array(items).json(),
                    out@.len() == i,
                    forall|j: int| 0 <= j < i ==> (#[trigger] out@[j])@ == document(items@[j]),
            {
                assert(json->Array_0[i as int] == document(items@[i as int]));
                assert(decreases_to!(json => json->Array_0[i as int]));
                out.push(read_value(&items[i]));
            }
            let r = Json::Array(out);
            assert(r@->Array_0 =~= json->Array_0);
            r
        },
        Shape::Object(members) => {
            let mut out: Vec<(String, Json)> = Vec::new();
            for i in 0..members.len()
                invariant
                    json == document(*value),
                    json == Shape::Object(members).json(),
                    out@.len() == i,
                    forall|j: int|
                        0 <= j < i ==> (#[trigger] out@[j]).0@ == members@[j].0@ && out@[j].1@
                            == document(members@[j].1),
            {
                assert(json->Object_0[i as int].1 == document(members@[i as int].1));
                assert(decreases_to!(json => json->Object_0[i as int].1));
                out.push((members[i].0.clone(), read_value(&members[i].1)));
            }
            let r = Json::Object(out);
            assert(r@->Object_0 =~= json->Object_0);
            r
        },
    }
}

fn write_value(json: &Json) -> (r: Value)
    ensures
        document(r) == json@,
        is_plain(r),
    decreases json@,
{
    match json {
        Json::Null => build_value(Shape::Null),
        Json::Bool(b) => build_value(Shape::Bool(*b)),
        Json::Natural(n) => natural_value(*n),
        Json::Integer(n) => integer_value(*n),
        Json::Real(r) => {
            proof {
                use_type_invariant(r);
            }
            clone_value(&r.value)
        },
        Json::Text(s) => build_value(Shape::Text(s.clone())),
        Json::Array(items) => {
            proof {
                lemma_array_view(*items);
            }
            let mut out: Vec<Value> = Vec::new();
            for i in 0..items.len()
                invariant
                    json@ == JsonView::Array(items_view(items@)),
                    out@.len() == i,
                    forall|j: int|
                        0 <= j < i ==> document(#[trigger] out@[j]) == items@[j]@ && is_plain(
                            out@[j],
                        ),
            {
                assert(items_view(items@)[i as int] == items@[i as int]@);
                assert(decreases_to!(json@ => json@->Array_0[i as int]));
                out.push(write_value(&items[i]));
            }
            let shape = Shape::Array(out);
            assert(shape.json()->Array_0 =~= items_view(items@));
            build_value(shape)
        },
        Json::Object(members) => {
            proof {
                lemma_object_view(*members);
            }
            let mut out: Vec<(String, Value)> = Vec::new();
            for i in 0..members.len()
                invariant
                    json@ == JsonView::Object(members_view(members@)),
                    out@.len() == i,
                    forall|j: int|
                        0 <= j < i ==> (#[trigger] out@[j]).0@ == members@[j].0@ && document(
                            out@[j].1,
                        ) == members@[j].1@ && is_plain(out@[j].1),
            {
                assert(members_view(members@)[i as int].1 == members@[i as int].1@);
                assert(decreases_to!(json@ => json@->Object_0[i as int].1));
                out.push((members[i].0.clone(), write_value(&members[i].1)));
            }
            let shape = Shape::Object(out);
            assert(shape.json()->Object_0 =~= members_view(members@));
            build_value(shape)
        },
    }
}

/// An array of strings.
pub open spec fn text_array(texts: Seq<Seq<char>>) -> JsonView {
    JsonView::Array(Seq::new(texts.len(), |i: int| JsonView::Text(texts[i])))
}

/// An object whose members are strings.
pub open spec fn text_object(pairs: Seq<(Seq<char>, Seq<char>)>) -> JsonView {
    JsonView::Object(Seq::new(pairs.len(), |i: int| (pairs[i].0, JsonView::Text(pairs[i].1))))
}

/// An array of strings has as many items as there are texts, each the string of the text in its
/// place.
pub proof fn lemma_text_array(texts: Seq<Seq<char>>)
    ensures
        text_array(texts) matches JsonView::Array(items) && items.len() == texts.len() && forall|
            i: int,
        |
            0 <= i < texts.len() ==> #[trigger] items[i] == JsonView::Text(texts[i]),
        is_stable(text_array(texts)),
{
    reveal_with_fuel(is_stable, 2);
}

/// An object of strings has as many members as there are pairs, each with the name and the text
/// of the pair in its place. The member of a name is the text of the first pair of that name.
pub proof fn lemma_text_object(pairs: Seq<(Seq<char>, Seq<char>)>, name: Seq<char>)
    ensures
        text_object(pairs) matches JsonView::Object(members) && members.len() == pairs.len()
            && forall|i: int|
            0 <= i < pairs.len() ==> #[trigger] members[i] == (
                pairs[i].0,
                JsonView::Text(pairs[i].1),
            ),
        has_name(pairs, name) ==> text_object(pairs).member(name) == Some(
            JsonView::Text(lookup(pairs, name).unwrap()),
        ),
        !has_name(pairs, name) ==> text_object(pairs).member(name) is None,
        is_stable(text_object(pairs)),
{
    reveal_with_fuel(is_stable, 2);
    let members = text_object(pairs)->Object_0;
    lemma_position(pairs, name);
    let p = position(pairs, name);
    assert forall|i: int| 0 <= i < p implies (#[trigger] members[i]).0 != name by {
        assert(pairs[i].0 != name);
    }
    lemma_position_unique(members, name, p);
}

/// Makes an array of strings.
pub fn array_of_texts(texts: &Vec<String>) -> (r: Json)
    ensures
        r@ == text_array(texts_view(texts@)),
{
    let mut out: Vec<Json> = Vec::new();
    for i in 0..texts.len()
        invariant
            out@.len() == i,
            forall|j: int| 0 <= j < i ==> (#[trigger] out@[j])@ == JsonView::Text(texts@[j]@),
    {
        out.push(Json::Text(texts[i].clone()));
    }
    proof {
        lemma_array_view(out);
        assert(items_view(out@) =~= text_array(texts_view(texts@))->Array_0);
    }
    Json::Array(out)
}

/// Makes an object whose members are strings.
pub fn object_of_texts(pairs: &Vec<(String, String)>) -> (r: Json)
    ensures
        r@ == text_object(text_pairs(pairs@)),
{
    let mut out: Vec<(String, Json)> = Vec::new();
    for i in 0..pairs.len()
        invariant
            out@.len() == i,
            forall|j: int|
                0 <= j < i ==> (#[trigger] out@[j]).0@ == pairs@[j].0@ && out@[j].1@
                    == JsonView::Text(pairs@[j].1@),
    {
        out.push((pairs[i].0.clone(), Json::Text(pairs[i].1.clone())));
    }
    proof {
        lemma_object_view(out);
        assert(members_view(out@) =~= text_object(text_pairs(pairs@))->Object_0);
    }
    Json::Object(out)
}

/// Reads a JSON text.
pub fn parse_json(text: &str) -> (r: Option<Json>)
    ensures
        (match r {
            Some(json) => parsed(text@) == Some(json@),
            None => parsed(text@) is None,
        }),
{
    match parse_value(text) {
        Some(value) => Some(read_value(&value)),
        None => None,
    }
}

/// Writes a document as compact JSON text.
pub fn print_json(json: &Json) -> (r: String)
    ensures
        r@ == printed(json@),
        reads_back(r@, json@),
        is_compact(r@),
{
    print_value(&write_value(json))
}

/// Rewrites a JSON text without blanks outside of strings. `None` where the text is no JSON. The
/// new text reads as the same document, and is compacted to itself, where there is no negative
/// zero in the document and the text is no longer than a reader takes.
pub fn compact_json(input: &str) -> (r: Option<String>)
    ensures
        (match r {
            Some(text) => {
                &&& compacted(input@) == Some(text@)
                &&& is_compact(text@)
                &&& parsed(input@) matches Some(json) && text@ == printed(json) && reads_back(
                    text@,
                    json,
                ) && (is_stable(json) && text@.len() <= 0x3fff_ffff ==> compacted(text@) == Some(
                    text@,
                ))
            },
            None => compacted(input@) is None && parsed(input@) is None,
        }),
{
    match parse_value(input) {
        Some(value) => Some(print_value(&value)),
        None => None,
    }
}

/// Rewrites a JSON text compactly into a buffer. Returns how many bytes of the text went in: zero
/// where there is no input, or it is no JSON.
pub fn quill_json_compact(input: Option<&[u8]>, out: &mut [u8]) -> (r: usize)
    ensures
        (match parsed(optional_text_or(input, ""@)) {
            Some(json) if input is Some => r == c_text_len(
                encode_utf8(printed(json)),
                old(out)@.len(),
            ) && final(out)@ == c_text(encode_utf8(printed(json)), old(out)@) && reads_back(
                printed(json),
                json,
            ),
            _ => r == 0 && final(out)@ == old(out)@,
        }),
{
    match input {
        Some(bytes) => match compact_json(read_text(bytes, "")) {
            Some(text) => put_c_text(text.as_str(), out),
            None => 0,
        },
        None => 0,
    }
}

} // verus!
