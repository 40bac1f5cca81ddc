//! Validation of request bodies against registered schemas.

use dashmap::DashMap;
use regex::Regex;
use vstd::prelude::*;
use vstd::string::*;
use vstd::utf8::*;

use crate::float::{float_less, is_near, lemma_near_order, less, whole_bits, EXACT};
use crate::json::{
    array_of_texts, is_stable, lemma_object_view, members_view, nearest_float, parse_json, parsed,
    print_json, printed, reads_back, text_array, Json, JsonView,
};
use crate::pairs::{
    distinct, lemma_position_unique, lemma_put_distinct, lemma_put_lookup, lookup, named, put,
    put_pair,
};
use crate::tables::NameTable;
use crate::text::{
    c_text, decimal, decimal_text, put_c_text, read_text, text_or, texts_view,
};

verus! {

/// A compiled regular expression of `regex`. It is opaque here, and stands for the pattern that
/// it was compiled from.
#[verifier::external_type_specification]
#[verifier::external_body]
pub struct ExRegex(Regex);

/// What a cache of regular expressions holds: the pattern that each key was compiled from.
pub uninterp spec fn cached_patterns(cache: DashMap<String, Regex>) -> Map<Seq<char>, Seq<char>>;

/// `Regex::new` accepts the pattern.
pub uninterp spec fn regex_compiles(pattern: Seq<char>) -> bool;

/// The regular expression of that pattern finds a match in the text.
pub uninterp spec fn regex_matches(pattern: Seq<char>, text: Seq<char>) -> bool;

/// Calls `DashMap::new`, which makes an empty map.
#[verifier::external_body]
fn new_cache() -> (r: DashMap<String, Regex>)
    ensures
        cached_patterns(r).dom().is_empty(),
{
    DashMap::new()
}

/// Calls `Regex::new`. Whether it accepts a pattern depends on the pattern alone and is named
/// [`regex_compiles`]. It accepts the pattern of e-mail addresses, which is made of anchors,
/// classes, groups and bounded repetitions of the syntax of `regex`.
#[verifier::external_body]
fn compiles(pattern: &str) -> (r: bool)
    ensures
        r == regex_compiles(pattern@),
        pattern@ == EMAIL_PATTERN@ ==> r,
{
    Regex::new(pattern).is_ok()
}

/// Calls `DashMap::entry` and `or_insert_with`, which binds a key that is not bound yet to the
/// regular expression of the pattern, and leaves a key that is bound as it is.
#[verifier::external_body]
fn cache_pattern(cache: &mut DashMap<String, Regex>, key: &str, pattern: &str)
    requires
        cached_patterns(*old(cache)).contains_key(key@) || regex_compiles(pattern@),
    ensures
        cached_patterns(*final(cache)) == (if cached_patterns(*old(cache)).contains_key(key@) {
            cached_patterns(*old(cache))
        } else {
            cached_patterns(*old(cache)).insert(key@, pattern@)
        }),
{
    cache.entry(key.to_string()).or_insert_with(|| Regex::new(pattern).expect("the pattern compiles"));
}

/// Calls `DashMap::get` and `Regex::is_match`: `None` where the key is not bound. Whether a
/// regular expression finds a match depends on its pattern and the text alone and is named
/// [`regex_matches`].
#[verifier::external_body]
fn cached_match(cache: &DashMap<String, Regex>, key: &str, text: &str) -> (r: Option<bool>)
    ensures
        r == (if cached_patterns(*cache).contains_key(key@) {
            Some(regex_matches(cached_patterns(*cache)[key@], text@))
        } else {
            None
        }),
{
    cache.get(key).map(|re| re.is_match(text))
}

/// A number that a field is held against: the bits of a binary64 number, and the number as a
/// message shows it.
pub struct Bound {
    pub bits: u64,
    pub text: String,
}

/// A rule that the value of a field is held to.
pub enum ValidationRule {
    Required,
    Email,
    Min { val: Bound },
    Max { val: Bound },
    MinLength { len: usize },
    MaxLength { len: usize },
    Regex { pattern: String },
    Numeric,
    Boolean,
}

/// What a schema says of one field.
pub struct FieldSchema {
    pub rules: Vec<ValidationRule>,
    pub is_nullable: bool,
    pub has_default: bool,
    pub default_value: Option<Json>,
}

/// The fields of a request body, each name once.
pub struct DtoSchema {
    fields: Vec<(String, FieldSchema)>,
}

impl DtoSchema {
    #[verifier::type_invariant]
    spec fn inv(self) -> bool {
        distinct(named(self.fields@))
    }

    /// The fields.
    pub closed spec fn spec_fields(self) -> Seq<(Seq<char>, FieldSchema)> {
        named(self.fields@)
    }

    /// A schema without fields.
    pub fn new() -> (r: DtoSchema)
        ensures
            r.spec_fields().len() == 0,
            distinct(r.spec_fields()),
    {
        DtoSchema { fields: Vec::new() }
    }

    /// The schema with one more field, which takes the place of a field of the same name.
    pub fn with_field(self, name: String, field: FieldSchema) -> (r: DtoSchema)
        ensures
            r.spec_fields() == put(self.spec_fields(), name@, field),
            distinct(r.spec_fields()),
            lookup(r.spec_fields(), name@) == Some(field),
            forall|other: Seq<char>|
                other != name@ ==> #[trigger] lookup(r.spec_fields(), other) == lookup(
                    self.spec_fields(),
                    other,
                ),
    {
        proof {
            use_type_invariant(&self);
            lemma_put_distinct(named(self.fields@), name@, field);
            assert forall|other: Seq<char>| true implies #[trigger] lookup(
                put(named(self.fields@), name@, field),
                other,
            ) == (if other == name@ {
                Some(field)
            } else {
                lookup(named(self.fields@), other)
            }) by {
                lemma_put_lookup(named(self.fields@), name@, field, other);
            }
        }
        let mut fields = self.fields;
        put_pair(&mut fields, name, field);
        DtoSchema { fields }
    }
}

/// The pattern that e-mail addresses are held to.
pub const EMAIL_PATTERN: &'static str = r"^[a-zA-Z0-9.!#$%&'*+/=?^_`{|}~-]+@[a-zA-Z0-9](?:[a-zA-Z0-9-]{0,61}[a-zA-Z0-9])?(?:\.[a-zA-Z0-9](?:[a-zA-Z0-9-]{0,61}[a-zA-Z0-9])?)*$";

/// The message for a field that is missing.
pub open spec fn required_message(field: Seq<char>) -> Seq<char> {
    "Field '"@ + field + "' is required."@
}

/// A message for a field whose value breaks a rule.
pub open spec fn field_message(field: Seq<char>, what: Seq<char>) -> Seq<char> {
    "The field '"@ + field + what
}

/// A message for a field whose value breaks a rule that has a limit.
pub open spec fn limit_message(
    field: Seq<char>,
    what: Seq<char>,
    limit: Seq<char>,
    end: Seq<char>,
) -> Seq<char> {
    field_message(field, what) + limit + end
}

/// The bits of the number that a value counts as: zero where it is none.
pub open spec fn number_bits(value: JsonView) -> u64 {
    match value.float() {
        Some(bits) => bits,
        None => 0,
    }
}

/// The value is a text in which the regular expression under that key finds no match. A key
/// without a regular expression fails no text.
pub open spec fn mismatches(
    patterns: Map<Seq<char>, Seq<char>>,
    key: Seq<char>,
    value: JsonView,
) -> bool {
    match value.text() {
        Some(text) => patterns.contains_key(key) && !regex_matches(patterns[key], text),
        None => false,
    }
}

/// The message that a rule gives of a value; `None` where the value keeps the rule.
pub open spec fn rule_error(
    patterns: Map<Seq<char>, Seq<char>>,
    field: Seq<char>,
    value: JsonView,
    rule: ValidationRule,
) -> Option<Seq<char>> {
    match rule {
        ValidationRule::Required => if value is Null {
            Some(required_message(field))
        } else {
            None
        },
        ValidationRule::Email => if mismatches(patterns, "email"@, value) {
            Some(field_message(field, "' must be a valid email address."@))
        } else {
            None
        },
        ValidationRule::Min { val } => if less(number_bits(value), val.bits) {
            Some(limit_message(field, "' must be at least "@, val.text@, "."@))
        } else {
            None
        },
        ValidationRule::Max { val } => if less(val.bits, number_bits(value)) {
            Some(limit_message(field, "' may not be greater than "@, val.text@, "."@))
        } else {
            None
        },
        ValidationRule::MinLength { len } => match value.text() {
            Some(text) if encode_utf8(text).len() < len => Some(
                limit_message(field, "' must be at least "@, decimal(len as nat), " characters."@),
            ),
            _ => None,
        },
        ValidationRule::MaxLength { len } => match value.text() {
            Some(text) if encode_utf8(text).len() > len => Some(
                limit_message(
                    field,
                    "' may not be greater than "@,
                    decimal(len as nat),
                    " characters."@,
                ),
            ),
            _ => None,
        },
        ValidationRule::Regex { pattern } => if mismatches(patterns, pattern@, value) {
            Some(field_message(field, "' format is invalid."@))
        } else {
            None
        },
        ValidationRule::Numeric => if !value.is_number() {
            Some(field_message(field, "' must be a number."@))
        } else {
            None
        },
        ValidationRule::Boolean => if !(value is Bool) {
            Some(field_message(field, "' must be a boolean."@))
        } else {
            None
        },
    }
}

/// A value keeps a rule, or not, by what it is, and a rule that is not kept gives its own message.
/// A limit is held against any number, with or without a fraction, in the order of binary64
/// numbers, and against zero where the value is no number. A length is held against the bytes of a
/// text, and a pattern against a text, where it is cached.
pub proof fn lemma_rule(
    patterns: Map<Seq<char>, Seq<char>>,
    field: Seq<char>,
    value: JsonView,
    rule: ValidationRule,
)
    ensures
        rule_error(patterns, field, value, rule) is Some <==> (match (rule, value) {
            (ValidationRule::Required, JsonView::Null) => true,
            (ValidationRule::Required, _) => false,
            (ValidationRule::Email, JsonView::Text(text)) => patterns.contains_key("email"@)
                && !regex_matches(patterns["email"@], text),
            (ValidationRule::Email, _) => false,
            (ValidationRule::Min { val }, JsonView::Real(bits)) => less(bits, val.bits),
            (ValidationRule::Min { val }, JsonView::Int(n)) => less(nearest_float(n), val.bits),
            (ValidationRule::Min { val }, _) => less(0, val.bits),
            (ValidationRule::Max { val }, JsonView::Real(bits)) => less(val.bits, bits),
            (ValidationRule::Max { val }, JsonView::Int(n)) => less(val.bits, nearest_float(n)),
            (ValidationRule::Max { val }, _) => less(val.bits, 0),
            (ValidationRule::MinLength { len }, JsonView::Text(text)) => encode_utf8(text).len()
                < len,
            (ValidationRule::MinLength { .. }, _) => false,
            (ValidationRule::MaxLength { len }, JsonView::Text(text)) => encode_utf8(text).len()
                > len,
            (ValidationRule::MaxLength { .. }, _) => false,
            (ValidationRule::Regex { pattern }, JsonView::Text(text)) => patterns.contains_key(
                pattern@,
            ) && !regex_matches(patterns[pattern@], text),
            (ValidationRule::Regex { .. }, _) => false,
            (ValidationRule::Numeric, JsonView::Int(_)) => false,
            (ValidationRule::Numeric, JsonView::Real(_)) => false,
            (ValidationRule::Numeric, _) => true,
            (ValidationRule::Boolean, JsonView::Bool(_)) => false,
            (ValidationRule::Boolean, _) => true,
        }),
        rule_error(patterns, field, value, rule) matches Some(message) ==> message == (match rule {
            ValidationRule::Required => "Field '"@ + field + "' is required."@,
            ValidationRule::Email => "The field '"@ + field + "' must be a valid email address."@,
            ValidationRule::Min { val } => "The field '"@ + field + "' must be at least "@
                + val.text@ + "."@,
            ValidationRule::Max { val } => "The field '"@ + field + "' may not be greater than "@
                + val.text@ + "."@,
            ValidationRule::MinLength { len } => "The field '"@ + field + "' must be at least "@
                + decimal(len as nat) + " characters."@,
            ValidationRule::MaxLength { len } => "The field '"@ + field
                + "' may not be greater than "@ + decimal(len as nat) + " characters."@,
            ValidationRule::Regex { .. } => "The field '"@ + field + "' format is invalid."@,
            ValidationRule::Numeric => "The field '"@ + field + "' must be a number."@,
            ValidationRule::Boolean => "The field '"@ + field + "' must be a boolean."@,
        }),
{
}

/// A number that is greater than one that breaks an upper limit breaks it too, and one that is less
/// than one that breaks a lower limit.
pub proof fn lemma_limits_order(
    patterns: Map<Seq<char>, Seq<char>>,
    field: Seq<char>,
    lesser: u64,
    greater: u64,
    val: Bound,
)
    requires
        less(lesser, greater),
    ensures
        rule_error(patterns, field, JsonView::Real(lesser), ValidationRule::Max { val }) is Some
            ==> rule_error(patterns, field, JsonView::Real(greater), ValidationRule::Max { val })
            is Some,
        rule_error(patterns, field, JsonView::Real(greater), ValidationRule::Min { val }) is Some
            ==> rule_error(patterns, field, JsonView::Real(lesser), ValidationRule::Min { val })
            is Some,
        rule_error(patterns, field, JsonView::Real(greater), ValidationRule::Max { val }) is None
            && less(lesser, val.bits) ==> rule_error(
            patterns,
            field,
            JsonView::Real(lesser),
            ValidationRule::Max { val },
        ) is None,
{
}

/// The messages that rules give of a value, in the order of the rules.
pub open spec fn rule_errors(
    patterns: Map<Seq<char>, Seq<char>>,
    field: Seq<char>,
    value: JsonView,
    rules: Seq<ValidationRule>,
) -> Seq<Seq<char>>
    decreases rules.len(),
{
    if rules.len() == 0 {
        Seq::empty()
    } else {
        let before = rule_errors(patterns, field, value, rules.drop_last());
        match rule_error(patterns, field, value, rules.last()) {
            Some(message) => before.push(message),
            None => before,
        }
    }
}

/// The messages of rules are those of the first rules and then those of the others, one for each
/// rule that is not kept.
pub proof fn lemma_rule_errors(
    patterns: Map<Seq<char>, Seq<char>>,
    field: Seq<char>,
    value: JsonView,
    first: Seq<ValidationRule>,
    others: Seq<ValidationRule>,
    rule: ValidationRule,
)
    ensures
        rule_errors(patterns, field, value, first + others) == rule_errors(
            patterns,
            field,
            value,
            first,
        ) + rule_errors(patterns, field, value, others),
        rule_errors(patterns, field, value, seq![rule]) == (match rule_error(
            patterns,
            field,
            value,
            rule,
        ) {
            Some(message) => seq![message],
            None => Seq::empty(),
        }),
        rule_errors(patterns, field, value, Seq::empty()) == Seq::<Seq<char>>::empty(),
        rule_errors(patterns, field, value, first).len() == 0 <==> forall|j: int|
            0 <= j < first.len() ==> rule_error(patterns, field, value, #[trigger] first[j])
                is None,
    decreases first.len() + others.len(),
{
    assert(seq![rule].drop_last() =~= Seq::empty());
    reveal_with_fuel(rule_errors, 2);
    if others.len() > 0 {
        lemma_rule_errors(patterns, field, value, first, others.drop_last(), rule);
        assert((first + others).drop_last() =~= first + others.drop_last());
    } else {
        assert(first + others =~= first);
        if first.len() > 0 {
            lemma_rule_errors(patterns, field, value, first.drop_last(), others, rule);
            let init = first.drop_last();
            if rule_errors(patterns, field, value, first).len() == 0 {
                assert forall|j: int| 0 <= j < first.len() implies rule_error(
                    patterns,
                    field,
                    value,
                    #[trigger] first[j],
                ) is None by {
                    if j < init.len() {
                        assert(rule_error(patterns, field, value, init[j]) is None);
                    }
                }
            } else {
                if rule_errors(patterns, field, value, init).len() > 0 {
                    let j = choose|j: int|
                        0 <= j < init.len() && !(rule_error(
                            patterns,
                            field,
                            value,
                            #[trigger] init[j],
                        ) is None);
                    assert(first[j] == init[j]);
                } else {
                    assert(first[first.len() - 1] == first.last());
                }
            }
        }
    }
}

/// The value of a field: that of the member of its name, else the default of the field.
pub open spec fn field_value(
    name: Seq<char>,
    field: FieldSchema,
    input: JsonView,
) -> Option<JsonView> {
    match input.member(name) {
        Some(value) => Some(value),
        None => match field.default_value {
            Some(value) if field.has_default => Some(value@),
            _ => None,
        },
    }
}

/// A field has the value that the document gives it, else its default, where it has one.
pub proof fn lemma_field_value(name: Seq<char>, field: FieldSchema, input: JsonView)
    ensures
        input.member(name) matches Some(value) ==> field_value(name, field, input) == Some(value),
        input.member(name) is None && field.has_default ==> (match field.default_value {
            Some(value) => field_value(name, field, input) == Some(value@),
            None => field_value(name, field, input) is None,
        }),
        input.member(name) is None && !field.has_default ==> field_value(name, field, input)
            is None,
{
}

/// The messages of a field. A field that is missing or null breaks no rule, but it is required
/// where it neither may be null nor has a default.
pub open spec fn field_errors(
    patterns: Map<Seq<char>, Seq<char>>,
    name: Seq<char>,
    field: FieldSchema,
    input: JsonView,
) -> Seq<Seq<char>> {
    match field_value(name, field, input) {
        Some(value) if !(value is Null) => rule_errors(patterns, name, value, field.rules@),
        _ => if !field.is_nullable && !field.has_default {
            seq![required_message(name)]
        } else {
            Seq::empty()
        },
    }
}

/// A field that has a value has the messages of its rules. A field that is missing or null has one
/// message, that it is required, or none where it may be null or has a default.
pub proof fn lemma_field_errors(
    patterns: Map<Seq<char>, Seq<char>>,
    name: Seq<char>,
    field: FieldSchema,
    input: JsonView,
)
    ensures
        ({
            let messages = field_errors(patterns, name, field, input);
            match field_value(name, field, input) {
                Some(value) => if value == JsonView::Null {
                    if field.is_nullable || field.has_default {
                        messages.len() == 0
                    } else {
                        messages == seq!["Field '"@ + name + "' is required."@]
                    }
                } else {
                    &&& messages == rule_errors(patterns, name, value, field.rules@)
                    &&& messages.len() == 0 <==> forall|j: int|
                        0 <= j < field.rules@.len() ==> rule_error(
                            patterns,
                            name,
                            value,
                            #[trigger] field.rules@[j],
                        ) is None
                },
                None => if field.is_nullable || field.has_default {
                    messages.len() == 0
                } else {
                    messages == seq!["Field '"@ + name + "' is required."@]
                },
            }
        }),
{
    if let Some(value) = field_value(name, field, input) {
        lemma_rule_errors(
            patterns,
            name,
            value,
            field.rules@,
            Seq::empty(),
            ValidationRule::Required,
        );
    }
}

/// The fields that have messages, with their messages, in the order of the fields.
pub open spec fn failures(
    patterns: Map<Seq<char>, Seq<char>>,
    fields: Seq<(Seq<char>, FieldSchema)>,
    input: JsonView,
) -> Seq<(Seq<char>, Seq<Seq<char>>)>
    decreases fields.len(),
{
    if fields.len() == 0 {
        Seq::empty()
    } else {
        let before = failures(patterns, fields.drop_last(), input);
        let messages = field_errors(patterns, fields.last().0, fields.last().1, input);
        if messages.len() == 0 {
            before
        } else {
            before.push((fields.last().0, messages))
        }
    }
}

/// The fields with their values, in the order of the fields: `null` where a field has none.
pub open spec fn field_values(
    fields: Seq<(Seq<char>, FieldSchema)>,
    input: JsonView,
) -> Seq<(Seq<char>, JsonView)> {
    Seq::new(
        fields.len(),
        |i: int|
            (
                fields[i].0,
                match field_value(fields[i].0, fields[i].1, input) {
                    Some(value) => value,
                    None => JsonView::Null,
                },
            ),
    )
}

/// What comes of a validation: the fields with their values, or the messages by field.
pub type Outcome = Result<JsonView, Seq<(Seq<char>, Seq<Seq<char>>)>>;

/// What comes of validating a document against fields.
pub open spec fn validation(
    patterns: Map<Seq<char>, Seq<char>>,
    fields: Seq<(Seq<char>, FieldSchema)>,
    input: JsonView,
) -> Outcome {
    let failed = failures(patterns, fields, input);
    if failed.len() == 0 {
        Ok(JsonView::Object(field_values(fields, input)))
    } else {
        Err(failed)
    }
}

/// What comes of validating a body, which is `None` where it is no JSON, against the schema of
/// that name.
pub open spec fn body_validation(
    schemas: Map<Seq<char>, DtoSchema>,
    patterns: Map<Seq<char>, Seq<char>>,
    dto_name: Seq<char>,
    input: Option<JsonView>,
) -> Outcome {
    if !schemas.contains_key(dto_name) {
        system_failure("DTO '"@ + dto_name + "' not registered"@)
    } else {
        match input {
            Some(json) => validation(patterns, schemas[dto_name].spec_fields(), json),
            None => system_failure("Invalid JSON input"@),
        }
    }
}

/// A refusal that concerns no field.
pub open spec fn system_failure(message: Seq<char>) -> Outcome {
    Err(seq![("system"@, seq![message])])
}

/// The messages by field, as text.
pub open spec fn errors_view(errors: Seq<(String, Vec<String>)>) -> Seq<
    (Seq<char>, Seq<Seq<char>>),
> {
    Seq::new(errors.len(), |i: int| (errors[i].0@, texts_view(errors[i].1@)))
}

/// The messages by field, as a document.
pub open spec fn errors_object(errors: Seq<(Seq<char>, Seq<Seq<char>>)>) -> JsonView {
    JsonView::Object(Seq::new(errors.len(), |i: int| (errors[i].0, text_array(errors[i].1))))
}

/// What came of a validation.
pub open spec fn outcome(r: Result<Json, Vec<(String, Vec<String>)>>) -> Outcome {
    match r {
        Ok(json) => Ok(json@),
        Err(errors) => Err(errors_view(errors@)),
    }
}

/// What came of a validation is the data itself, or each field that has messages, with all its
/// messages, in their order.
pub proof fn lemma_outcome(data: Json, errors: Vec<(String, Vec<String>)>)
    ensures
        outcome(Ok(data)) == Outcome::Ok(data@),
        (match outcome(Err(errors)) {
            Ok(_) => false,
            Err(list) => list.len() == errors@.len() && forall|i: int|
                0 <= i < list.len() ==> (#[trigger] list[i]).0 == errors@[i].0@ && list[i].1.len()
                    == errors@[i].1@.len() && forall|j: int|
                    0 <= j < list[i].1.len() ==> #[trigger] list[i].1[j] == errors@[i].1@[j]@,
        }),
{
}

/// The rule is that a text match that pattern.
pub open spec fn rule_uses(rule: ValidationRule, pattern: Seq<char>) -> bool {
    rule matches ValidationRule::Regex { pattern: own } && own@ == pattern
}

/// The patterns that rules use.
pub open spec fn rules_patterns(rules: Seq<ValidationRule>) -> Set<Seq<char>> {
    Set::new(
        |pattern: Seq<char>|
            exists|j: int| 0 <= j < rules.len() && rule_uses(#[trigger] rules[j], pattern),
    )
}

/// The patterns that the rules of fields use.
pub open spec fn schema_patterns(fields: Seq<(Seq<char>, FieldSchema)>) -> Set<Seq<char>> {
    Set::new(
        |pattern: Seq<char>|
            exists|i: int|
                0 <= i < fields.len() && rules_patterns(
                    (#[trigger] fields[i]).1.rules@,
                ).contains(pattern),
    )
}

/// The pattern of a rule, if it has one, compiles.
pub open spec fn rule_compiles(rule: ValidationRule) -> bool {
    rule matches ValidationRule::Regex { pattern } ==> regex_compiles(pattern@)
}

/// Each pattern that the fields use compiles.
pub open spec fn schema_compiles(fields: Seq<(Seq<char>, FieldSchema)>) -> bool {
    forall|pattern: Seq<char>| #[trigger]
        schema_patterns(fields).contains(pattern) ==> regex_compiles(pattern)
}

/// The cached patterns and, under themselves, those that were not cached yet.
pub open spec fn extended(
    patterns: Map<Seq<char>, Seq<char>>,
    more: Set<Seq<char>>,
) -> Map<Seq<char>, Seq<char>> {
    Map::new(
        |key: Seq<char>| patterns.contains_key(key) || more.contains(key),
        |key: Seq<char>| if patterns.contains_key(key) { patterns[key] } else { key },
    )
}

/// The patterns that a new registry has cached.
pub open spec fn initial_patterns() -> Map<Seq<char>, Seq<char>> {
    map!["email"@ => EMAIL_PATTERN@]
}

proof fn lemma_rules_patterns(rules: Seq<ValidationRule>, j: int)
    requires
        0 <= j < rules.len(),
    ensures
        forall|pattern: Seq<char>| #[trigger]
            rules_patterns(rules.take(j + 1)).contains(pattern) <==> rules_patterns(
                rules.take(j),
            ).contains(pattern) || rule_uses(rules[j], pattern),
{
    assert forall|pattern: Seq<char>| #[trigger]
        rules_patterns(rules.take(j + 1)).contains(pattern) <==> rules_patterns(
            rules.take(j),
        ).contains(pattern) || rule_uses(rules[j], pattern) by {
        if rules_patterns(rules.take(j)).contains(pattern) {
            let k = choose|k: int|
                0 <= k < rules.take(j).len() && rule_uses(#[trigger] rules.take(j)[k], pattern);
            assert(rule_uses(rules.take(j + 1)[k], pattern));
        }
        if rule_uses(rules[j], pattern) {
            assert(rule_uses(rules.take(j + 1)[j], pattern));
        }
        if rules_patterns(rules.take(j + 1)).contains(pattern) {
            let k = choose|k: int|
                0 <= k < rules.take(j + 1).len() && rule_uses(
                    #[trigger] rules.take(j + 1)[k],
                    pattern,
                );
            if k < j {
                assert(rule_uses(rules.take(j)[k], pattern));
            }
        }
    }
}

proof fn lemma_schema_patterns(fields: Seq<(Seq<char>, FieldSchema)>, i: int)
    requires
        0 <= i < fields.len(),
    ensures
        forall|pattern: Seq<char>| #[trigger]
            schema_patterns(fields.take(i + 1)).contains(pattern) <==> schema_patterns(
                fields.take(i),
            ).contains(pattern) || rules_patterns(fields[i].1.rules@).contains(pattern),
{
    assert forall|pattern: Seq<char>| #[trigger]
        schema_patterns(fields.take(i + 1)).contains(pattern) <==> schema_patterns(
            fields.take(i),
        ).contains(pattern) || rules_patterns(fields[i].1.rules@).contains(pattern) by {
        if schema_patterns(fields.take(i)).contains(pattern) {
            let k = choose|k: int|
                0 <= k < fields.take(i).len() && rules_patterns(
                    (#[trigger] fields.take(i)[k]).1.rules@,
                ).contains(pattern);
            assert(rules_patterns(fields.take(i + 1)[k].1.rules@).contains(pattern));
        }
        if rules_patterns(fields[i].1.rules@).contains(pattern) {
            assert(rules_patterns(fields.take(i + 1)[i].1.rules@).contains(pattern));
        }
        if schema_patterns(fields.take(i + 1)).contains(pattern) {
            let k = choose|k: int|
                0 <= k < fields.take(i + 1).len() && rules_patterns(
                    (#[trigger] fields.take(i + 1)[k]).1.rules@,
                ).contains(pattern);
            if k < i {
                assert(rules_patterns(fields.take(i)[k].1.rules@).contains(pattern));
            }
        }
    }
}

/// Once the patterns of fields are cached, those are cached that were before, as they were, and
/// under itself each pattern that a rule of a field asks for. The fields compile where each such
/// pattern does.
pub proof fn lemma_cached(
    patterns: Map<Seq<char>, Seq<char>>,
    fields: Seq<(Seq<char>, FieldSchema)>,
    key: Seq<char>,
)
    ensures
        ({
            let after = extended(patterns, schema_patterns(fields));
            let asked = exists|i: int, j: int|
                0 <= i < fields.len() && 0 <= j < fields[i].1.rules@.len() && (
                #[trigger] fields[i].1.rules@[j] matches ValidationRule::Regex { pattern }
                    && pattern@ == key);
            &&& after.contains_key(key) <==> patterns.contains_key(key) || asked
            &&& patterns.contains_key(key) ==> after[key] == patterns[key]
            &&& asked && !patterns.contains_key(key) ==> after[key] == key
            &&& asked && schema_compiles(fields) ==> regex_compiles(key)
        }),
        (forall|i: int, j: int|
            0 <= i < fields.len() && 0 <= j < fields[i].1.rules@.len() ==> (
            #[trigger] fields[i].1.rules@[j] matches ValidationRule::Regex { pattern }
                ==> regex_compiles(pattern@))) ==> schema_compiles(fields),
{
    if exists|i: int, j: int|
        0 <= i < fields.len() && 0 <= j < fields[i].1.rules@.len() && (
        #[trigger] fields[i].1.rules@[j] matches ValidationRule::Regex { pattern } && pattern@
            == key) {
        let (i, j) = choose|i: int, j: int|
            0 <= i < fields.len() && 0 <= j < fields[i].1.rules@.len() && (
            #[trigger] fields[i].1.rules@[j] matches ValidationRule::Regex { pattern } && pattern@
                == key);
        assert(rule_uses(fields[i].1.rules@[j], key));
        assert(rules_patterns(fields[i].1.rules@).contains(key));
        assert(schema_patterns(fields).contains(key));
    }
    assert forall|other: Seq<char>| #[trigger] schema_patterns(fields).contains(other) implies (
    exists|i: int, j: int|
        0 <= i < fields.len() && 0 <= j < fields[i].1.rules@.len() && (
        #[trigger] fields[i].1.rules@[j] matches ValidationRule::Regex { pattern } && pattern@
            == other)) by {
        let i = choose|i: int|
            0 <= i < fields.len() && rules_patterns((#[trigger] fields[i]).1.rules@).contains(
                other,
            );
        let rules = fields[i].1.rules@;
        let j = choose|j: int| 0 <= j < rules.len() && rule_uses(#[trigger] rules[j], other);
        assert(fields[i].1.rules@[j] matches ValidationRule::Regex { pattern } && pattern@
            == other);
    }
}

/// A document passes exactly where no field of the schema has messages. It then comes out as an
/// object of the fields of the schema, each with its value.
pub proof fn lemma_passes(
    patterns: Map<Seq<char>, Seq<char>>,
    fields: Seq<(Seq<char>, FieldSchema)>,
    input: JsonView,
)
    ensures
        validation(patterns, fields, input) is Ok <==> forall|i: int|
            0 <= i < fields.len() ==> field_errors(
                patterns,
                (#[trigger] fields[i]).0,
                fields[i].1,
                input,
            ).len() == 0,
        validation(patterns, fields, input) matches Ok(data) ==> (data matches JsonView::Object(
            members,
        ) && members.len() == fields.len() && forall|i: int|
            0 <= i < fields.len() ==> (#[trigger] members[i]).0 == fields[i].0 && members[i].1 == (
            match field_value(fields[i].0, fields[i].1, input) {
                Some(value) => value,
                None => JsonView::Null,
            })),
{
    lemma_failures(patterns, fields, input);
    let failed = failures(patterns, fields, input);
    if failed.len() == 0 {
        assert forall|i: int| 0 <= i < fields.len() implies field_errors(
            patterns,
            (#[trigger] fields[i]).0,
            fields[i].1,
            input,
        ).len() == 0 by {
            if field_errors(patterns, fields[i].0, fields[i].1, input).len() > 0 {
                assert(failed.contains(
                    (fields[i].0, field_errors(patterns, fields[i].0, fields[i].1, input)),
                ));
            }
        }
    } else {
        assert(is_failure(patterns, fields, input, failed[0]));
    }
}

/// The entry is a field of the schema that has messages, with its messages.
pub open spec fn is_failure(
    patterns: Map<Seq<char>, Seq<char>>,
    fields: Seq<(Seq<char>, FieldSchema)>,
    input: JsonView,
    entry: (Seq<char>, Seq<Seq<char>>),
) -> bool {
    exists|i: int|
        0 <= i < fields.len() && (#[trigger] fields[i]).0 == entry.0 && entry.1 == field_errors(
            patterns,
            fields[i].0,
            fields[i].1,
            input,
        ) && entry.1.len() > 0
}

/// A refusal lists each field that has messages, with its messages, and nothing else.
pub proof fn lemma_failures(
    patterns: Map<Seq<char>, Seq<char>>,
    fields: Seq<(Seq<char>, FieldSchema)>,
    input: JsonView,
)
    ensures
        forall|i: int|
            0 <= i < fields.len() && field_errors(
                patterns,
                (#[trigger] fields[i]).0,
                fields[i].1,
                input,
            ).len() > 0 ==> failures(patterns, fields, input).contains(
                (fields[i].0, field_errors(patterns, fields[i].0, fields[i].1, input)),
            ),
        forall|k: int|
            0 <= k < failures(patterns, fields, input).len() ==> is_failure(
                patterns,
                fields,
                input,
                #[trigger] failures(patterns, fields, input)[k],
            ),
    decreases fields.len(),
{
    if fields.len() > 0 {
        let init = fields.drop_last();
        let before = failures(patterns, init, input);
        let all = failures(patterns, fields, input);
        lemma_failures(patterns, init, input);
        assert forall|i: int|
            0 <= i < fields.len() && field_errors(
                patterns,
                (#[trigger] fields[i]).0,
                fields[i].1,
                input,
            ).len() > 0 implies all.contains(
            (fields[i].0, field_errors(patterns, fields[i].0, fields[i].1, input)),
        ) by {
            let entry = (fields[i].0, field_errors(patterns, fields[i].0, fields[i].1, input));
            if i < init.len() {
                assert(init[i] == fields[i]);
                assert(before.contains(entry));
                let k = choose|k: int| 0 <= k < before.len() && before[k] == entry;
                assert(all[k] == entry);
            } else {
                assert(all[all.len() - 1] == entry);
            }
        }
        assert forall|k: int| 0 <= k < all.len() implies is_failure(
            patterns,
            fields,
            input,
            #[trigger] all[k],
        ) by {
            if k < before.len() {
                assert(all[k] == before[k]);
                assert(is_failure(patterns, init, input, before[k]));
                let i = choose|i: int|
                    0 <= i < init.len() && (#[trigger] init[i]).0 == before[k].0 && before[k].1
                        == field_errors(patterns, init[i].0, init[i].1, input) && before[k].1.len()
                        > 0;
                assert(fields[i] == init[i]);
            } else {
                assert(fields[fields.len() - 1] == fields.last());
            }
        }
    }
}

/// The fields that have messages are those among the first fields and then those among the others,
/// each with its messages.
pub proof fn lemma_failures_join(
    patterns: Map<Seq<char>, Seq<char>>,
    first: Seq<(Seq<char>, FieldSchema)>,
    others: Seq<(Seq<char>, FieldSchema)>,
    field: (Seq<char>, FieldSchema),
    input: JsonView,
)
    ensures
        failures(patterns, first + others, input) == failures(patterns, first, input) + failures(
            patterns,
            others,
            input,
        ),
        ({
            let messages = field_errors(patterns, field.0, field.1, input);
            failures(patterns, seq![field], input) == (if messages.len() > 0 {
                seq![(field.0, messages)]
            } else {
                Seq::empty()
            })
        }),
        failures(patterns, Seq::empty(), input).len() == 0,
    decreases others.len(),
{
    assert(seq![field].drop_last() =~= Seq::empty());
    reveal_with_fuel(failures, 2);
    if others.len() > 0 {
        lemma_failures_join(patterns, first, others.drop_last(), field, input);
        assert((first + others).drop_last() =~= first + others.drop_last());
    } else {
        assert(first + others =~= first);
    }
}

/// A document passes exactly where each field that has a value keeps all its rules, and each that
/// is missing or null may be null or has a default. It then comes out as an object that gives each
/// field of the schema its value, or null where it has none. Else the fields that have messages
/// come out.
pub proof fn lemma_validation(
    patterns: Map<Seq<char>, Seq<char>>,
    fields: Seq<(Seq<char>, FieldSchema)>,
    input: JsonView,
)
    ensures
        validation(patterns, fields, input) is Ok <==> forall|i: int|
            0 <= i < fields.len() ==> (match field_value(
                (#[trigger] fields[i]).0,
                fields[i].1,
                input,
            ) {
                Some(value) => if value == JsonView::Null {
                    fields[i].1.is_nullable || fields[i].1.has_default
                } else {
                    forall|j: int|
                        0 <= j < fields[i].1.rules@.len() ==> rule_error(
                            patterns,
                            fields[i].0,
                            value,
                            #[trigger] fields[i].1.rules@[j],
                        ) is None
                },
                None => fields[i].1.is_nullable || fields[i].1.has_default,
            }),
        (match validation(patterns, fields, input) {
            Ok(JsonView::Object(members)) => members.len() == fields.len() && forall|i: int|
                0 <= i < fields.len() ==> (#[trigger] members[i]).0 == fields[i].0 && members[i].1
                    == (match field_value(fields[i].0, fields[i].1, input) {
                    Some(value) => value,
                    None => JsonView::Null,
                }),
            Ok(_) => false,
            Err(errors) => errors.len() > 0 && errors == failures(patterns, fields, input),
        }),
{
    lemma_passes(patterns, fields, input);
    assert forall|i: int| 0 <= i < fields.len() implies (field_errors(
        patterns,
        (#[trigger] fields[i]).0,
        fields[i].1,
        input,
    ).len() == 0) == (match field_value(fields[i].0, fields[i].1, input) {
        Some(value) => if value == JsonView::Null {
            fields[i].1.is_nullable || fields[i].1.has_default
        } else {
            forall|j: int|
                0 <= j < fields[i].1.rules@.len() ==> rule_error(
                    patterns,
                    fields[i].0,
                    value,
                    #[trigger] fields[i].1.rules@[j],
                ) is None
        },
        None => fields[i].1.is_nullable || fields[i].1.has_default,
    }) by {
        lemma_field_errors(patterns, fields[i].0, fields[i].1, input);
    }
}

/// What comes of a validation hangs on nothing in a document but the members that the schema has
/// fields for.
pub proof fn lemma_other_members(
    patterns: Map<Seq<char>, Seq<char>>,
    fields: Seq<(Seq<char>, FieldSchema)>,
    input: JsonView,
    other: JsonView,
)
    requires
        forall|i: int|
            0 <= i < fields.len() ==> input.member((#[trigger] fields[i]).0) == other.member(
                fields[i].0,
            ),
    ensures
        validation(patterns, fields, input) == validation(patterns, fields, other),
    decreases fields.len(),
{
    if fields.len() > 0 {
        let init = fields.drop_last();
        assert(fields[fields.len() - 1] == fields.last());
        assert forall|i: int| 0 <= i < init.len() implies input.member((#[trigger] init[i]).0)
            == other.member(init[i].0) by {
            assert(init[i] == fields[i]);
        }
        lemma_other_members(patterns, init, input, other);
        assert(failures(patterns, init, input) == failures(patterns, init, other)) by {
            lemma_validation(patterns, init, input);
            lemma_validation(patterns, init, other);
            lemma_failures(patterns, init, input);
            lemma_failures(patterns, init, other);
            if validation(patterns, init, input) is Ok {
                assert(failures(patterns, init, input) =~= Seq::empty());
                assert(failures(patterns, init, other) =~= Seq::empty());
            }
        }
    }
    assert(field_values(fields, input) =~= field_values(fields, other));
}

/// A body is refused as a whole where no schema has the name, or else where it is no JSON. Any
/// other body is validated against the fields of the schema.
pub proof fn lemma_body_validation(
    schemas: Map<Seq<char>, DtoSchema>,
    patterns: Map<Seq<char>, Seq<char>>,
    dto_name: Seq<char>,
    json: JsonView,
    input: Option<JsonView>,
)
    ensures
        !schemas.contains_key(dto_name) ==> body_validation(schemas, patterns, dto_name, input)
            == Outcome::Err(
            seq![("system"@, seq!["DTO '"@ + dto_name + "' not registered"@])],
        ),
        schemas.contains_key(dto_name) ==> body_validation(schemas, patterns, dto_name, None)
            == Outcome::Err(seq![("system"@, seq!["Invalid JSON input"@])]),
        schemas.contains_key(dto_name) ==> body_validation(schemas, patterns, dto_name, Some(json))
            == validation(patterns, schemas[dto_name].spec_fields(), json),
{
}

/// The document of messages has a member for each field that has messages, in their order: an
/// array of the messages, each as a string.
pub proof fn lemma_errors_object(errors: Seq<(Seq<char>, Seq<Seq<char>>)>, data: JsonView)
    ensures
        (match errors_object(errors) {
            JsonView::Object(members) => members.len() == errors.len() && forall|i: int|
                0 <= i < errors.len() ==> (#[trigger] members[i]).0 == errors[i].0 && (
                members[i].1 matches JsonView::Array(items) && items.len() == errors[i].1.len()
                    && forall|j: int|
                    0 <= j < items.len() ==> #[trigger] items[j] == JsonView::Text(errors[i].1[j])),
            _ => false,
        }),
        report_document(Outcome::Err(errors)) == errors_object(errors),
        report_document(Outcome::Ok(data)) == data,
{
}

/// Data that came out of a validation passes it again and comes out as it is, where the fields
/// have different names.
pub proof fn lemma_validation_again(
    patterns: Map<Seq<char>, Seq<char>>,
    fields: Seq<(Seq<char>, FieldSchema)>,
    input: JsonView,
)
    requires
        distinct(fields),
    ensures
        validation(patterns, fields, input) matches Ok(data) ==> validation(patterns, fields, data)
            == Outcome::Ok(data),
{
    if let Ok(data) = validation(patterns, fields, input) {
        let values = field_values(fields, input);
        lemma_passes(patterns, fields, input);
        assert forall|i: int| 0 <= i < fields.len() implies field_value(
            (#[trigger] fields[i]).0,
            fields[i].1,
            data,
        ) == Some(values[i].1) by {
            assert forall|j: int| 0 <= j < i implies (#[trigger] values[j]).0 != fields[i].0 by {
                assert(fields[j].0 != fields[i].0);
            }
            lemma_position_unique(values, fields[i].0, i);
        }
        assert forall|i: int| 0 <= i < fields.len() implies field_errors(
            patterns,
            (#[trigger] fields[i]).0,
            fields[i].1,
            data,
        ).len() == 0 by {
            assert(field_value(fields[i].0, fields[i].1, data) == Some(values[i].1));
            assert(field_errors(patterns, fields[i].0, fields[i].1, input).len() == 0);
        }
        lemma_passes(patterns, fields, data);
        assert(field_values(fields, data) =~= values);
    }
}

/// The data that comes out of a validation names each field once, where the fields have different
/// names.
pub proof fn lemma_fields_once(
    patterns: Map<Seq<char>, Seq<char>>,
    fields: Seq<(Seq<char>, FieldSchema)>,
    input: JsonView,
)
    requires
        distinct(fields),
    ensures
        validation(patterns, fields, input) matches Ok(data) ==> (data matches JsonView::Object(
            members,
        ) && distinct(members)),
{
    let members = field_values(fields, input);
    assert forall|i: int, j: int| 0 <= i < j < members.len() implies (#[trigger] members[i]).0 != (
    #[trigger] members[j]).0 by {
        assert(fields[i].0 != fields[j].0);
    }
}

proof fn lemma_rule_errors_kept(
    patterns: Map<Seq<char>, Seq<char>>,
    more: Set<Seq<char>>,
    field: Seq<char>,
    value: JsonView,
    rules: Seq<ValidationRule>,
)
    requires
        more.contains("email"@) ==> patterns.contains_key("email"@),
        rules_patterns(rules).subset_of(patterns.dom()),
    ensures
        rule_errors(extended(patterns, more), field, value, rules) == rule_errors(
            patterns,
            field,
            value,
            rules,
        ),
    decreases rules.len(),
{
    if rules.len() > 0 {
        let init = rules.drop_last();
        assert forall|pattern: Seq<char>| rules_patterns(init).contains(
            pattern,
        ) implies patterns.dom().contains(pattern) by {
            let k = choose|k: int| 0 <= k < init.len() && rule_uses(#[trigger] init[k], pattern);
            assert(rule_uses(rules[k], pattern));
            assert(rules_patterns(rules).contains(pattern));
        }
        lemma_rule_errors_kept(patterns, more, field, value, init);
        if let ValidationRule::Regex { pattern } = rules.last() {
            assert(rule_uses(rules[rules.len() - 1], pattern@));
            assert(rules_patterns(rules).contains(pattern@));
        }
    }
}

/// Patterns that are cached later change nothing for a schema whose patterns are cached, but that
/// one under the name `email` is taken for the one of e-mail addresses where there is none.
pub proof fn lemma_validation_kept(
    patterns: Map<Seq<char>, Seq<char>>,
    more: Set<Seq<char>>,
    fields: Seq<(Seq<char>, FieldSchema)>,
    input: JsonView,
)
    requires
        more.contains("email"@) ==> patterns.contains_key("email"@),
        schema_patterns(fields).subset_of(patterns.dom()),
    ensures
        validation(extended(patterns, more), fields, input) == validation(patterns, fields, input),
{
    lemma_failures_kept(patterns, more, fields, input);
}

proof fn lemma_failures_kept(
    patterns: Map<Seq<char>, Seq<char>>,
    more: Set<Seq<char>>,
    fields: Seq<(Seq<char>, FieldSchema)>,
    input: JsonView,
)
    requires
        more.contains("email"@) ==> patterns.contains_key("email"@),
        schema_patterns(fields).subset_of(patterns.dom()),
    ensures
        failures(extended(patterns, more), fields, input) == failures(patterns, fields, input),
    decreases fields.len(),
{
    if fields.len() > 0 {
        let init = fields.drop_last();
        let last = fields.last();
        assert forall|pattern: Seq<char>| schema_patterns(init).contains(
            pattern,
        ) implies patterns.dom().contains(pattern) by {
            let k = choose|k: int|
                0 <= k < init.len() && rules_patterns((#[trigger] init[k]).1.rules@).contains(
                    pattern,
                );
            assert(rules_patterns(fields[k].1.rules@).contains(pattern));
            assert(schema_patterns(fields).contains(pattern));
        }
        assert forall|pattern: Seq<char>| rules_patterns(last.1.rules@).contains(
            pattern,
        ) implies patterns.dom().contains(pattern) by {
            assert(rules_patterns(fields[fields.len() - 1].1.rules@).contains(pattern));
            assert(schema_patterns(fields).contains(pattern));
        }
        lemma_failures_kept(patterns, more, init, input);
        if let Some(value) = field_value(last.0, last.1, input) {
            lemma_rule_errors_kept(patterns, more, last.0, value, last.1.rules@);
        }
    }
}

fn required_text(field: &str) -> (r: String)
    ensures
        r@ == required_message(field@),
{
    let mut r = "Field '".to_owned();
    r.append(field);
    r.append("' is required.");
    r
}

fn field_text(field: &str, what: &str) -> (r: String)
    ensures
        r@ == field_message(field@, what@),
{
    let mut r = "The field '".to_owned();
    r.append(field);
    r.append(what);
    r
}

fn limit_text(field: &str, what: &str, limit: &str, end: &str) -> (r: String)
    ensures
        r@ == limit_message(field@, what@, limit@, end@),
{
    let mut r = field_text(field, what);
    r.append(limit);
    r.append(end);
    r
}

/// Registered schemas, and the regular expressions that their rules use.
pub struct ValidatorRegistry {
    schemas: NameTable<DtoSchema>,
    regex_cache: DashMap<String, Regex>,
}

impl ValidatorRegistry {
    /// The schemas, by name.
    pub closed spec fn schemas(self) -> Map<Seq<char>, DtoSchema> {
        self.schemas.map()
    }

    /// The patterns of the cached regular expressions, by key.
    pub closed spec fn patterns(self) -> Map<Seq<char>, Seq<char>> {
        cached_patterns(self.regex_cache)
    }

    /// The table of schemas is in order, the fields of each registered schema have different names
    /// and the patterns that it uses are cached. Each cached pattern compiles, and stands under
    /// itself, but that the one of e-mail addresses stands under `email`.
    pub closed spec fn wf(self) -> bool {
        &&& self.schemas.wf()
        &&& forall|name: Seq<char>| #[trigger]
            self.schemas().contains_key(name) ==> schema_patterns(
                self.schemas()[name].spec_fields(),
            ).subset_of(self.patterns().dom()) && distinct(self.schemas()[name].spec_fields())
        &&& forall|key: Seq<char>| #[trigger]
            self.patterns().contains_key(key) ==> regex_compiles(self.patterns()[key])
                && self.patterns()[key] == (if key == "email"@ {
                EMAIL_PATTERN@
            } else {
                key
            })
        &&& self.patterns().contains_key("email"@)
    }

    /// The fields of a registered schema have different names.
    pub proof fn lemma_field_names(self, name: Seq<char>)
        requires
            self.wf(),
            self.schemas().contains_key(name),
        ensures
            distinct(self.schemas()[name].spec_fields()),
    {
    }

    /// A registry without schemas, with the regular expression of e-mail addresses cached.
    pub fn new() -> (r: ValidatorRegistry)
        ensures
            r.wf(),
            r.schemas() == Map::<Seq<char>, DtoSchema>::empty(),
            r.patterns() == initial_patterns(),
    {
        let mut regex_cache = new_cache();
        if compiles(EMAIL_PATTERN) {
            cache_pattern(&mut regex_cache, "email", EMAIL_PATTERN);
        }
        let r = ValidatorRegistry { schemas: NameTable::new(), regex_cache };
        assert(r.patterns() =~= initial_patterns());
        r
    }

    /// How many schemas are registered.
    pub fn len(&self) -> (r: usize)
        requires
            self.wf(),
        ensures
            self.schemas().dom().finite(),
            r == self.schemas().dom().len(),
    {
        self.schemas.len()
    }

    /// Whether each pattern of the schema compiles.
    pub fn accepts(&self, schema: &DtoSchema) -> (r: bool)
        ensures
            r == schema_compiles(schema.spec_fields()),
            r <==> forall|i: int, j: int|
                0 <= i < schema.spec_fields().len() && 0 <= j
                    < schema.spec_fields()[i].1.rules@.len() ==> (
                #[trigger] schema.spec_fields()[i].1.rules@[j] matches ValidationRule::Regex {
                    pattern,
                } ==> regex_compiles(pattern@)),
    {
        let ghost fields = schema.spec_fields();
        for i in 0..schema.fields.len()
            invariant
                fields == schema.spec_fields(),
                forall|k: int, l: int|
                    0 <= k < i && 0 <= l < (#[trigger] fields[k]).1.rules@.len() ==> rule_compiles(
                        #[trigger] fields[k].1.rules@[l],
                    ),
        {
            let rules = &schema.fields[i].1.rules;
            assert(fields[i as int].1.rules@ == rules@);
            for j in 0..rules.len()
                invariant
                    fields == schema.spec_fields(),
                    0 <= i < fields.len(),
                    fields[i as int].1.rules@ == rules@,
                    forall|l: int| 0 <= l < j ==> rule_compiles(#[trigger] rules@[l]),
            {
                if let ValidationRule::Regex { pattern } = &rules[j] {
                    if !compiles(pattern.as_str()) {
                        proof {
                            assert(rule_uses(rules@[j as int], pattern@));
                            assert(rules_patterns(fields[i as int].1.rules@).contains(pattern@));
                            assert(schema_patterns(fields).contains(pattern@));
                        }
                        return false;
                    }
                }
            }
        }
        proof {
            assert forall|pattern: Seq<char>| #[trigger]
                schema_patterns(fields).contains(pattern) implies regex_compiles(pattern) by {
                let k = choose|k: int|
                    0 <= k < fields.len() && rules_patterns(
                        (#[trigger] fields[k]).1.rules@,
                    ).contains(pattern);
                let rules = fields[k].1.rules@;
                let l = choose|l: int|
                    0 <= l < rules.len() && rule_uses(#[trigger] rules[l], pattern);
                assert(rule_compiles(fields[k].1.rules@[l]));
            }
        }
        true
    }

    /// Registers a schema under a name, in place of the one that was there, and caches the
    /// regular expressions of its rules.
    pub fn register(&mut self, name: String, schema: DtoSchema)
        requires
            old(self).wf(),
            schema_compiles(schema.spec_fields()),
        ensures
            final(self).wf(),
            final(self).schemas() == old(self).schemas().insert(name@, schema),
            final(self).patterns() == extended(
                old(self).patterns(),
                schema_patterns(schema.spec_fields()),
            ),
    {
        proof {
            use_type_invariant(&schema);
        }
        let ghost fields = schema.spec_fields();
        let ghost before = self.patterns();
        for i in 0..schema.fields.len()
            invariant
                fields == schema.spec_fields(),
                schema_compiles(fields),
                self.patterns() == extended(before, schema_patterns(fields.take(i as int))),
                self.schemas == old(self).schemas,
        {
            let rules = &schema.fields[i].1.rules;
            let ghost here = self.patterns();
            assert(fields[i as int].1.rules@ == rules@);
            for j in 0..rules.len()
                invariant
                    fields == schema.spec_fields(),
                    schema_compiles(fields),
                    0 <= i < fields.len(),
                    fields[i as int].1.rules@ == rules@,
                    here == extended(before, schema_patterns(fields.take(i as int))),
                    self.patterns() == extended(here, rules_patterns(rules@.take(j as int))),
                    self.schemas == old(self).schemas,
            {
                if let ValidationRule::Regex { pattern } = &rules[j] {
                    proof {
                        assert(rule_uses(rules@[j as int], pattern@));
                        assert(rules_patterns(fields[i as int].1.rules@).contains(pattern@));
                        assert(schema_patterns(fields).contains(pattern@));
                    }
                    cache_pattern(&mut self.regex_cache, pattern.as_str(), pattern.as_str());
                }
                proof {
                    lemma_rules_patterns(rules@, j as int);
                    assert(self.patterns() =~= extended(
                        here,
                        rules_patterns(rules@.take(j + 1)),
                    ));
                }
            }
            proof {
                assert(rules@.take(rules@.len() as int) =~= rules@);
                lemma_schema_patterns(fields, i as int);
                assert(self.patterns() =~= extended(
                    before,
                    schema_patterns(fields.take(i + 1)),
                ));
            }
        }
        assert(fields.take(fields.len() as int) =~= fields);
        self.schemas.set(name, schema);
        assert(self.patterns().dom() =~= before.dom().union(schema_patterns(fields)));
        assert forall|other: Seq<char>| #[trigger]
            self.schemas().contains_key(other) implies schema_patterns(
            self.schemas()[other].spec_fields(),
        ).subset_of(self.patterns().dom()) && distinct(self.schemas()[other].spec_fields()) by {
            if other != name@ {
                assert(old(self).schemas().contains_key(other));
            }
        }
        assert forall|key: Seq<char>| #[trigger]
            self.patterns().contains_key(key) implies regex_compiles(self.patterns()[key])
            && self.patterns()[key] == (if key == "email"@ {
            EMAIL_PATTERN@
        } else {
            key
        }) by {
            if before.contains_key(key) {
                assert(old(self).patterns().contains_key(key));
            } else {
                assert(schema_patterns(fields).contains(key));
            }
        }
    }

    /// Once a schema is registered under a name, bodies are validated against it under that name,
    /// whatever stood there before, and under any other name as before.
    pub proof fn lemma_registered(
        self,
        name: Seq<char>,
        schema: DtoSchema,
        dto_name: Seq<char>,
        input: Option<JsonView>,
    )
        requires
            self.wf(),
        ensures
            ({
                let patterns = extended(
                    self.patterns(),
                    schema_patterns(schema.spec_fields()),
                );
                let after = body_validation(
                    self.schemas().insert(name, schema),
                    patterns,
                    dto_name,
                    input,
                );
                if dto_name == name {
                    after == (match input {
                        Some(json) => validation(patterns, schema.spec_fields(), json),
                        None => system_failure("Invalid JSON input"@),
                    })
                } else {
                    after == body_validation(self.schemas(), self.patterns(), dto_name, input)
                }
            }),
    {
        if let Some(json) = input {
            if dto_name != name && self.schemas().contains_key(dto_name) {
                lemma_validation_kept(
                    self.patterns(),
                    schema_patterns(schema.spec_fields()),
                    self.schemas()[dto_name].spec_fields(),
                    json,
                );
            }
        }
    }

    /// Data that came out of a validation passes it again and comes out as it is, where its text
    /// reads back as the data.
    pub proof fn lemma_validated_again(self, dto_name: Seq<char>, input: Option<JsonView>)
        requires
            self.wf(),
        ensures
            (match body_validation(self.schemas(), self.patterns(), dto_name, input) {
                Ok(data) => {
                    &&& body_validation(self.schemas(), self.patterns(), dto_name, Some(data))
                        == Outcome::Ok(data)
                    &&& reads_back(printed(data), data) && is_stable(data) && printed(data).len()
                        <= 0x3fff_ffff ==> body_validation(
                        self.schemas(),
                        self.patterns(),
                        dto_name,
                        parsed(printed(data)),
                    ) == Outcome::Ok(data)
                },
                Err(_) => true,
            }),
    {
        if self.schemas().contains_key(dto_name) {
            if let Some(json) = input {
                lemma_validation_again(
                    self.patterns(),
                    self.schemas()[dto_name].spec_fields(),
                    json,
                );
            }
        }
    }

    /// A pattern that a registered schema asks for is enforced: a text that it does not match has
    /// a message. A pattern that reads `email` stands for the one of e-mail addresses.
    pub proof fn lemma_patterns_enforced(
        self,
        name: Seq<char>,
        i: int,
        j: int,
        field: Seq<char>,
        text: Seq<char>,
    )
        requires
            self.wf(),
            self.schemas().contains_key(name),
            0 <= i < self.schemas()[name].spec_fields().len(),
            0 <= j < self.schemas()[name].spec_fields()[i].1.rules@.len(),
        ensures
            (match self.schemas()[name].spec_fields()[i].1.rules@[j] {
                ValidationRule::Regex { pattern } => rule_error(
                    self.patterns(),
                    field,
                    JsonView::Text(text),
                    self.schemas()[name].spec_fields()[i].1.rules@[j],
                ) == (if regex_matches(
                    if pattern@ == "email"@ {
                        EMAIL_PATTERN@
                    } else {
                        pattern@
                    },
                    text,
                ) {
                    None
                } else {
                    Some("The field '"@ + field + "' format is invalid."@)
                }),
                _ => true,
            }),
    {
        let fields = self.schemas()[name].spec_fields();
        if let ValidationRule::Regex { pattern } = fields[i].1.rules@[j] {
            assert(rule_uses(fields[i].1.rules@[j], pattern@));
            assert(rules_patterns(fields[i].1.rules@).contains(pattern@));
            assert(schema_patterns(fields).contains(pattern@));
            assert(self.patterns().contains_key(pattern@));
        }
    }

    /// A text is held to the pattern of e-mail addresses, whatever schemas are registered.
    pub proof fn lemma_email_enforced(self, field: Seq<char>, text: Seq<char>)
        requires
            self.wf(),
        ensures
            rule_error(self.patterns(), field, JsonView::Text(text), ValidationRule::Email)
                is Some <==> !regex_matches(
                r"^[a-zA-Z0-9.!#$%&'*+/=?^_`{|}~-]+@[a-zA-Z0-9](?:[a-zA-Z0-9-]{0,61}[a-zA-Z0-9])?(?:\.[a-zA-Z0-9](?:[a-zA-Z0-9-]{0,61}[a-zA-Z0-9])?)*$"@,
                text,
            ),
    {
    }

    /// The value of a field keeps a rule, or the message that says how not. Against a limit that
    /// is an integer of less than 2^53 in magnitude, an integer is held as integers are ordered.
    pub fn check_rule(&self, field: &str, value: &Json, rule: &ValidationRule) -> (r: Result<
        (),
        String,
    >)
        ensures
            (match r {
                Ok(_) => rule_error(self.patterns(), field@, value@, *rule) is None,
                Err(message) => rule_error(self.patterns(), field@, value@, *rule) == Some(
                    message@,
                ),
            }),
            (match *rule {
                ValidationRule::Required => r is Err <==> value@ is Null,
                ValidationRule::Email => r is Err <==> (value@ matches JsonView::Text(text)
                    && self.patterns().contains_key("email"@) && !regex_matches(
                    self.patterns()["email"@],
                    text,
                )),
                ValidationRule::Min { val } => match value@ {
                    JsonView::Real(bits) => r is Err <==> less(bits, val.bits),
                    JsonView::Int(n) => r is Err <==> less(nearest_float(n), val.bits),
                    _ => r is Err <==> less(0, val.bits),
                },
                ValidationRule::Max { val } => match value@ {
                    JsonView::Real(bits) => r is Err <==> less(val.bits, bits),
                    JsonView::Int(n) => r is Err <==> less(val.bits, nearest_float(n)),
                    _ => r is Err <==> less(val.bits, 0),
                },
                ValidationRule::MinLength { len } => r is Err <==> (value@ matches JsonView::Text(
                    text,
                ) && encode_utf8(text).len() < len),
                ValidationRule::MaxLength { len } => r is Err <==> (value@ matches JsonView::Text(
                    text,
                ) && encode_utf8(text).len() > len),
                ValidationRule::Regex { pattern } => r is Err <==> (value@ matches JsonView::Text(
                    text,
                ) && self.patterns().contains_key(pattern@) && !regex_matches(
                    self.patterns()[pattern@],
                    text,
                )),
                ValidationRule::Numeric => r is Ok <==> value@ is Int || value@ is Real,
                ValidationRule::Boolean => r is Ok <==> value@ is Bool,
            }),
            (match (*rule, value@) {
                (ValidationRule::Min { val }, JsonView::Int(n)) => forall|k: int|
                    -EXACT < k < EXACT && val.bits == #[trigger] whole_bits(k) ==> (r is Err <==> n
                        < k),
                (ValidationRule::Max { val }, JsonView::Int(n)) => forall|k: int|
                    -EXACT < k < EXACT && val.bits == #[trigger] whole_bits(k) ==> (r is Err <==> n
                        > k),
                _ => true,
            }),
    {
        match rule {
            ValidationRule::Required => {
                if value.is_null() {
                    return Err(required_text(field));
                }
            },
            ValidationRule::Email => {
                if self.is_mismatch("email", value) {
                    return Err(field_text(field, "' must be a valid email address."));
                }
            },
            ValidationRule::Min { val } => {
                let number = number_of(value);
                proof {
                    lemma_limits(value@, number, val.bits);
                }
                if float_less(number, val.bits) {
                    return Err(limit_text(field, "' must be at least ", val.text.as_str(), "."));
                }
            },
            ValidationRule::Max { val } => {
                let number = number_of(value);
                proof {
                    lemma_limits(value@, number, val.bits);
                }
                if float_less(val.bits, number) {
                    return Err(
                        limit_text(field, "' may not be greater than ", val.text.as_str(), "."),
                    );
                }
            },
            ValidationRule::MinLength { len } => {
                if let Some(text) = value.as_str() {
                    if text.as_bytes().len() < *len {
                        let limit = decimal_text(*len as u64);
                        return Err(
                            limit_text(field, "' must be at least ", limit.as_str(), " characters."),
                        );
                    }
                }
            },
            ValidationRule::MaxLength { len } => {
                if let Some(text) = value.as_str() {
                    if text.as_bytes().len() > *len {
                        let limit = decimal_text(*len as u64);
                        return Err(
                            limit_text(
                                field,
                                "' may not be greater than ",
                                limit.as_str(),
                                " characters.",
                            ),
                        );
                    }
                }
            },
            ValidationRule::Regex { pattern } => {
                if self.is_mismatch(pattern.as_str(), value) {
                    return Err(field_text(field, "' format is invalid."));
                }
            },
            ValidationRule::Numeric => {
                if !value.is_number() {
                    return Err(field_text(field, "' must be a number."));
                }
            },
            ValidationRule::Boolean => {
                if !value.is_boolean() {
                    return Err(field_text(field, "' must be a boolean."));
                }
            },
        }
        Ok(())
    }

    fn check_rules(&self, name: &str, value: &Json, rules: &Vec<ValidationRule>) -> (r: Vec<String>)
        ensures
            texts_view(r@) == rule_errors(self.patterns(), name@, value@, rules@),
    {
        let mut messages: Vec<String> = Vec::new();
        for i in 0..rules.len()
            invariant
                texts_view(messages@) == rule_errors(
                    self.patterns(),
                    name@,
                    value@,
                    rules@.take(i as int),
                ),
        {
            let ghost before = messages@;
            if let Err(message) = self.check_rule(name, value, &rules[i]) {
                messages.push(message);
                assert(texts_view(messages@) =~= texts_view(before).push(message@));
            }
            assert(rules@.take(i + 1).drop_last() =~= rules@.take(i as int));
        }
        assert(rules@.take(rules@.len() as int) =~= rules@);
        messages
    }

    fn check_field(&self, name: &str, field: &FieldSchema, input: &Json) -> (r: (Json, Vec<String>))
        ensures
            texts_view(r.1@) == field_errors(self.patterns(), name@, *field, input@),
            r.0@ == (match field_value(name@, *field, input@) {
                Some(value) => value,
                None => JsonView::Null,
            }),
    {
        let found = match input.get(name) {
            Some(value) => Some(value),
            None => if field.has_default {
                field.default_value.as_ref()
            } else {
                None
            },
        };
        let mut messages: Vec<String> = Vec::new();
        match found {
            Some(value) if !value.is_null() => {
                messages = self.check_rules(name, value, &field.rules);
                (value.duplicate(), messages)
            },
            _ => {
                if !field.is_nullable && !field.has_default {
                    messages.push(required_text(name));
                }
                assert(texts_view(messages@) =~= field_errors(
                    self.patterns(),
                    name@,
                    *field,
                    input@,
                ));
                (Json::Null, messages)
            },
        }
    }

    /// Validates a document against a schema.
    pub fn validate_fields(&self, schema: &DtoSchema, input: &Json) -> (r: Result<
        Json,
        Vec<(String, Vec<String>)>,
    >)
        ensures
            outcome(r) == validation(self.patterns(), schema.spec_fields(), input@),
    {
        let ghost fields = schema.spec_fields();
        let mut errors: Vec<(String, Vec<String>)> = Vec::new();
        let mut values: Vec<(String, Json)> = Vec::new();
        for i in 0..schema.fields.len()
            invariant
                fields == schema.spec_fields(),
                errors_view(errors@) == failures(self.patterns(), fields.take(i as int), input@),
                errors@.len() == 0 ==> members_view(values@) == field_values(
                    fields.take(i as int),
                    input@,
                ),
        {
            let name = &schema.fields[i].0;
            let ghost errors_before = errors@;
            let ghost values_before = values@;
            let (value, messages) = self.check_field(name.as_str(), &schema.fields[i].1, input);
            assert(fields[i as int] == (name@, schema.fields@[i as int].1));
            assert(fields.take(i + 1).drop_last() =~= fields.take(i as int));
            if messages.len() == 0 {
                values.push((name.clone(), value));
                assert(members_view(values@) =~= members_view(values_before).push(
                    (name@, value@),
                ));
                assert(field_values(fields.take(i + 1), input@) =~= field_values(
                    fields.take(i as int),
                    input@,
                ).push((name@, value@)));
            } else {
                errors.push((name.clone(), messages));
                assert(errors_view(errors@) =~= errors_view(errors_before).push(
                    (name@, texts_view(messages@)),
                ));
            }
        }
        assert(fields.take(fields.len() as int) =~= fields);
        if errors.len() == 0 {
            proof {
                lemma_object_view(values);
            }
            Ok(Json::Object(values))
        } else {
            Err(errors)
        }
    }

    /// Validates a body that was read already, which is `None` where it is no JSON, against the
    /// schema of that name.
    pub fn validate_document(&self, dto_name: &str, input: Option<Json>) -> (r: Result<
        Json,
        Vec<(String, Vec<String>)>,
    >)
        requires
            self.wf(),
        ensures
            outcome(r) == body_validation(
                self.schemas(),
                self.patterns(),
                dto_name@,
                (match input {
                    Some(json) => Some(json@),
                    None => None,
                }),
            ),
    {
        match self.schemas.get(dto_name) {
            None => {
                let mut message = "DTO '".to_owned();
                message.append(dto_name);
                message.append("' not registered");
                Err(system_errors(message))
            },
            Some(schema) => match input {
                Some(json) => self.validate_fields(schema, &json),
                None => Err(system_errors("Invalid JSON input".to_owned())),
            },
        }
    }

    /// Validates a body against the schema of that name.
    pub fn validate(&self, dto_name: &str, input_json: &str) -> (r: Result<
        Json,
        Vec<(String, Vec<String>)>,
    >)
        requires
            self.wf(),
        ensures
            outcome(r) == body_validation(
                self.schemas(),
                self.patterns(),
                dto_name@,
                parsed(input_json@),
            ),
    {
        self.validate_document(dto_name, parse_json(input_json))
    }

    fn is_mismatch(&self, key: &str, value: &Json) -> (r: bool)
        ensures
            r == mismatches(self.patterns(), key@, value@),
    {
        match value.as_str() {
            Some(text) => match cached_match(&self.regex_cache, key, text) {
                Some(matched) => !matched,
                None => false,
            },
            None => false,
        }
    }
}

/// Makes a document of the messages by field.
pub fn errors_json(errors: &Vec<(String, Vec<String>)>) -> (r: Json)
    ensures
        r@ == errors_object(errors_view(errors@)),
{
    let mut out: Vec<(String, Json)> = Vec::new();
    for i in 0..errors.len()
        invariant
            out@.len() == i,
            forall|j: int|
                0 <= j < i ==> (#[trigger] out@[j]).0@ == errors@[j].0@ && out@[j].1@ == text_array(
                    texts_view(errors@[j].1@),
                ),
    {
        out.push((errors[i].0.clone(), array_of_texts(&errors[i].1)));
    }
    proof {
        lemma_object_view(out);
        assert(members_view(out@) =~= errors_object(errors_view(errors@))->Object_0);
    }
    Json::Object(out)
}

fn system_errors(message: String) -> (r: Vec<(String, Vec<String>)>)
    ensures
        Outcome::Err(errors_view(r@)) == system_failure(message@),
{
    let mut messages: Vec<String> = Vec::new();
    messages.push(message);
    let mut r: Vec<(String, Vec<String>)> = Vec::new();
    r.push(("system".to_owned(), messages));
    assert(texts_view(messages@) =~= seq![message@]);
    assert(errors_view(r@) =~= seq![("system"@, seq![message@])]);
    r
}

/// A new registry.
pub fn quill_validator_new() -> (r: ValidatorRegistry)
    ensures
        r.wf(),
        r.schemas() == Map::<Seq<char>, DtoSchema>::empty(),
        r.patterns() == initial_patterns(),
{
    ValidatorRegistry::new()
}

/// Registers a schema under a name; a name that is not UTF-8 counts as empty. Returns 0, or 1
/// where there is no name or no schema, or -1 where a pattern of the schema does not compile.
pub fn quill_validator_register(
    registry: &mut ValidatorRegistry,
    name: Option<&[u8]>,
    schema: Option<DtoSchema>,
) -> (r: i32)
    requires
        old(registry).wf(),
    ensures
        final(registry).wf(),
        (match (name, schema) {
            (Some(name), Some(schema)) => if schema_compiles(schema.spec_fields()) {
                &&& r == 0
                &&& final(registry).schemas() == old(registry).schemas().insert(
                    text_or(name@, ""@),
                    schema,
                )
                &&& final(registry).patterns() == extended(
                    old(registry).patterns(),
                    schema_patterns(schema.spec_fields()),
                )
            } else {
                r == -1 && *final(registry) == *old(registry)
            },
            _ => r == 1 && *final(registry) == *old(registry),
        }),
{
    match (name, schema) {
        (Some(name), Some(schema)) => if registry.accepts(&schema) {
            registry.register(read_text(name, "").to_owned(), schema);
            0
        } else {
            -1
        },
        _ => 1,
    }
}

/// The document that tells what came of a validation: the data, or the messages by field.
pub open spec fn report_document(checked: Outcome) -> JsonView {
    match checked {
        Ok(data) => data,
        Err(errors) => errors_object(errors),
    }
}

/// Writes what came of a validation into a buffer: 0 and the data, or 1 and the messages.
pub fn report(checked: &Result<Json, Vec<(String, Vec<String>)>>, out: &mut [u8]) -> (r: i32)
    ensures
        r == (if checked is Ok {
            0i32
        } else {
            1i32
        }),
        final(out)@ == c_text(
            encode_utf8(printed(report_document(outcome(*checked)))),
            old(out)@,
        ),
        reads_back(
            printed(report_document(outcome(*checked))),
            report_document(outcome(*checked)),
        ),
{
    match checked {
        Ok(data) => {
            put_c_text(print_json(data).as_str(), out);
            0
        },
        Err(errors) => {
            put_c_text(print_json(&errors_json(errors)).as_str(), out);
            1
        },
    }
}

/// Validates a body against the schema of that name, and writes the data or the messages into a
/// buffer. What is not UTF-8 counts as empty. Returns 0 where the body passes, 1 where it does
/// not, or 2 where an argument is missing.
pub fn quill_validator_validate(
    registry: Option<&ValidatorRegistry>,
    dto_name: Option<&[u8]>,
    input_json: Option<&[u8]>,
    out_json: &mut [u8],
) -> (r: i32)
    requires
        registry matches Some(registry) ==> registry.wf(),
    ensures
        (match (registry, dto_name, input_json) {
            (Some(registry), Some(name), Some(input)) => {
                let checked = body_validation(
                    registry.schemas(),
                    registry.patterns(),
                    text_or(name@, ""@),
                    parsed(text_or(input@, ""@)),
                );
                &&& r == (if checked is Ok {
                    0i32
                } else {
                    1i32
                })
                &&& final(out_json)@ == c_text(
                    encode_utf8(printed(report_document(checked))),
                    old(out_json)@,
                )
                &&& reads_back(printed(report_document(checked)), report_document(checked))
            },
            _ => r == 2 && final(out_json)@ == old(out_json)@,
        }),
{
    match (registry, dto_name, input_json) {
        (Some(registry), Some(name), Some(input)) => {
            let checked = registry.validate(read_text(name, ""), read_text(input, ""));
            report(&checked, out_json)
        },
        _ => 2,
    }
}

proof fn lemma_limits(value: JsonView, number: u64, limit: u64)
    requires
        value matches JsonView::Int(n) ==> is_near(n, number),
    ensures
        (match value {
            JsonView::Int(n) => forall|k: int|
                -EXACT < k < EXACT && limit == #[trigger] whole_bits(k) ==> (less(number, limit)
                    <==> n < k) && (less(limit, number) <==> k < n),
            _ => true,
        }),
{
    if let JsonView::Int(n) = value {
        assert forall|k: int| -EXACT < k < EXACT && limit == #[trigger] whole_bits(k) implies (less(
            number,
            limit,
        ) <==> n < k) && (less(limit, number) <==> k < n) by {
            lemma_near_order(n, number, k);
        }
    }
}

fn number_of(value: &Json) -> (r: u64)
    ensures
        r == number_bits(value@),
        value@ matches JsonView::Int(n) ==> is_near(n, r),
{
    match value.float_bits() {
        Some(bits) => bits,
        None => 0,
    }
}

} // verus!
