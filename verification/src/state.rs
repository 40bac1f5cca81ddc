//! The shared state: JSON documents by key.

use vstd::prelude::*;
use vstd::string::*;
use vstd::utf8::*;

use crate::json::{
    array_of_texts, is_stable, lemma_text_array, parse_json, parsed, print_json, printed,
    text_array, Json, JsonView,
};
use crate::tables::NameTable;
use crate::text::{
    c_text, c_text_len, lemma_c_text_reads_back, optional_text_or, put_c_text, read_text, text_or,
    texts_view,
};

verus! {

/// A store of JSON documents by key.
pub struct SharedState {
    kv: NameTable<Json>,
}

/// The number that a counter stands at: that of its document, or zero where there is none or
/// it is no integer.
pub open spec fn counter(store: Map<Seq<char>, JsonView>, key: Seq<char>) -> i64 {
    if store.contains_key(key) {
        match store[key].signed() {
            Some(n) => n,
            None => 0,
        }
    } else {
        0
    }
}

/// The store once a counter moved by a step.
pub open spec fn incremented(
    store: Map<Seq<char>, JsonView>,
    key: Seq<char>,
    delta: i64,
) -> Map<Seq<char>, JsonView> {
    store.insert(key, JsonView::Int(counter(store, key) + delta))
}

/// The counter can move by that step without leaving the range of 64 bits.
pub open spec fn can_increment(
    store: Map<Seq<char>, JsonView>,
    key: Seq<char>,
    delta: i64,
) -> bool {
    i64::MIN <= counter(store, key) + delta <= i64::MAX
}

/// A counter stands at the integer under its key, where it is a signed one of 64 bits, and else at
/// zero. A step leaves the sum under the key, and can be taken where the sum is such an integer.
pub proof fn lemma_counter(store: Map<Seq<char>, JsonView>, key: Seq<char>, n: int, delta: i64)
    ensures
        store.contains_key(key) && store[key] == JsonView::Int(n) && -0x8000_0000_0000_0000 <= n
            < 0x8000_0000_0000_0000 ==> counter(store, key) == n && incremented(
            store,
            key,
            delta,
        )[key] == JsonView::Int(n + delta) && (can_increment(store, key, delta)
            <==> -0x8000_0000_0000_0000 <= n + delta < 0x8000_0000_0000_0000),
        !store.contains_key(key) || !(store[key] is Int) || store[key]->Int_0
            < -0x8000_0000_0000_0000 || store[key]->Int_0 >= 0x8000_0000_0000_0000 ==> counter(
            store,
            key,
        ) == 0 && incremented(store, key, delta)[key] == JsonView::Int(delta as int)
            && can_increment(store, key, delta),
        incremented(store, key, delta).dom() == store.dom().insert(key),
{
    assert(incremented(store, key, delta).dom() =~= store.dom().insert(key));
}

/// Steps of a counter add up, and move no other counter.
pub proof fn lemma_increments(
    store: Map<Seq<char>, JsonView>,
    key: Seq<char>,
    a: i64,
    b: i64,
    other: Seq<char>,
)
    requires
        can_increment(store, key, a),
        can_increment(incremented(store, key, a), key, b),
    ensures
        counter(incremented(store, key, a), key) == counter(store, key) + a,
        counter(incremented(incremented(store, key, a), key, b), key) == counter(store, key) + a
            + b,
        other != key ==> incremented(store, key, a).contains_key(other) == store.contains_key(
            other,
        ) && incremented(store, key, a)[other] == store[other],
{
}

/// Steps of two counters can be taken in either order.
pub proof fn lemma_increments_commute(
    store: Map<Seq<char>, JsonView>,
    key: Seq<char>,
    a: i64,
    other: Seq<char>,
    b: i64,
)
    requires
        key != other,
    ensures
        incremented(incremented(store, key, a), other, b) == incremented(
            incremented(store, other, b),
            key,
            a,
        ),
{
    assert(incremented(incremented(store, key, a), other, b) =~= incremented(
        incremented(store, other, b),
        key,
        a,
    ));
}

impl View for SharedState {
    type V = Map<Seq<char>, JsonView>;

    closed spec fn view(&self) -> Map<Seq<char>, JsonView> {
        self.kv.map().map_values(|json: Json| json@)
    }
}

impl SharedState {
    /// The store is well formed.
    pub closed spec fn wf(self) -> bool {
        self.kv.wf()
    }

    /// An empty store.
    pub fn new() -> (r: SharedState)
        ensures
            r.wf(),
            r@ == Map::<Seq<char>, JsonView>::empty(),
    {
        let r = SharedState { kv: NameTable::new() };
        assert(r@ =~= Map::<Seq<char>, JsonView>::empty());
        r
    }

    /// Stores a document under a key, in place of the one that was there.
    pub fn set(&mut self, key: String, value: Json)
        requires
            old(self).wf(),
        ensures
            final(self).wf(),
            final(self)@ == old(self)@.insert(key@, value@),
    {
        self.kv.set(key, value);
        assert(self@ =~= old(self)@.insert(key@, value@));
    }

    /// The document under a key.
    pub fn get_ref(&self, key: &str) -> (r: Option<&Json>)
        requires
            self.wf(),
        ensures
            (match r {
                Some(json) => self@.contains_key(key@) && json@ == self@[key@],
                None => !self@.contains_key(key@),
            }),
    {
        self.kv.get(key)
    }

    /// Takes the document under a key out.
    pub fn remove(&mut self, key: &str) -> (r: Option<Json>)
        requires
            old(self).wf(),
        ensures
            final(self).wf(),
            final(self)@ == old(self)@.remove(key@),
            (match r {
                Some(json) => old(self)@.contains_key(key@) && json@ == old(self)@[key@],
                None => !old(self)@.contains_key(key@),
            }),
    {
        let r = self.kv.remove(key);
        assert(self@ =~= old(self)@.remove(key@));
        r
    }

    /// The number that a counter stands at.
    pub fn current(&self, key: &str) -> (r: i64)
        requires
            self.wf(),
        ensures
            r == counter(self@, key@),
    {
        match self.get_ref(key) {
            Some(json) => match json.as_i64() {
                Some(n) => n,
                None => 0,
            },
            None => 0,
        }
    }

    /// Moves a counter by a step, and returns where it stands then. A key without a number
    /// counts from zero.
    pub fn increment(&mut self, key: &str, delta: i64) -> (r: i64)
        requires
            old(self).wf(),
            can_increment(old(self)@, key@, delta),
        ensures
            final(self).wf(),
            r == counter(old(self)@, key@) + delta,
            final(self)@ == incremented(old(self)@, key@, delta),
            final(self)@ == old(self)@.insert(key@, JsonView::Int(r as int)),
    {
        let r = self.current(key) + delta;
        self.set(key.to_owned(), Json::Integer(r));
        r
    }

    /// The keys that hold a document, each once.
    pub fn keys(&self) -> (r: Vec<String>)
        requires
            self.wf(),
        ensures
            r@.map_values(|key: String| key@).no_duplicates(),
            r@.map_values(|key: String| key@).to_set() == self@.dom(),
    {
        assert(self@.dom() =~= self.kv.map().dom());
        self.kv.names()
    }
}

/// The store once bytes were stored as a document under a key: `None` where there is no key or
/// no document, or the document is no JSON. A key that is not UTF-8 counts as empty.
pub open spec fn after_set(
    store: Map<Seq<char>, JsonView>,
    key: Option<&[u8]>,
    value: Option<&[u8]>,
) -> Option<Map<Seq<char>, JsonView>> {
    match (key, value) {
        (Some(key), Some(value)) => match parsed(text_or(value@, ""@)) {
            Some(json) => Some(store.insert(text_or(key@, ""@), json)),
            None => None,
        },
        _ => None,
    }
}

/// The document under a key: `None` where there is no key or no document under it. A key that is
/// not UTF-8 counts as empty.
pub open spec fn stored(store: Map<Seq<char>, JsonView>, key: Option<&[u8]>) -> Option<JsonView> {
    match key {
        Some(key) if store.contains_key(text_or(key@, ""@)) => Some(store[text_or(key@, ""@)]),
        _ => None,
    }
}

/// What was stored under a key is found under it, and every other key is found as before.
pub proof fn lemma_set_get(
    store: Map<Seq<char>, JsonView>,
    key: Option<&[u8]>,
    value: Option<&[u8]>,
    other: Option<&[u8]>,
)
    ensures
        (match after_set(store, key, value) {
            Some(after) => {
                &&& stored(after, key) == parsed(optional_text_or(value, ""@))
                &&& optional_text_or(other, ""@) != optional_text_or(key, ""@) ==> stored(
                    after,
                    other,
                ) == stored(store, other)
            },
            None => true,
        }),
{
}

/// A document is stored where there are a key and a text that reads as it, and only there. A key
/// finds what the store has under it, and nothing where the store has nothing.
pub proof fn lemma_stored(
    store: Map<Seq<char>, JsonView>,
    key: Option<&[u8]>,
    value: Option<&[u8]>,
)
    ensures
        (match (key, value) {
            (Some(key), Some(value)) => match parsed(text_or(value@, ""@)) {
                Some(json) => after_set(store, Some(key), Some(value)) == Some(
                    store.insert(text_or(key@, ""@), json),
                ),
                None => after_set(store, Some(key), Some(value)) is None,
            },
            _ => after_set(store, key, value) is None,
        }),
        (match key {
            Some(key) => {
                &&& store.contains_key(text_or(key@, ""@)) ==> stored(store, Some(key)) == Some(
                    store[text_or(key@, ""@)],
                )
                &&& !store.contains_key(text_or(key@, ""@)) ==> stored(store, Some(key)) is None
            },
            None => stored(store, None) is None,
        }),
{
}

/// What was taken out is not found, and every other key is found as before.
pub proof fn lemma_remove_get(
    store: Map<Seq<char>, JsonView>,
    key: &[u8],
    other: Option<&[u8]>,
)
    ensures
        stored(store.remove(text_or(key@, ""@)), Some(key)) is None,
        optional_text_or(other, ""@) != text_or(key@, ""@) ==> stored(
            store.remove(text_or(key@, ""@)),
            other,
        ) == stored(store, other),
{
}

/// Stores a document under a key. Returns 0, or 1 where nothing was stored.
pub fn quill_shared_set(
    state: &mut SharedState,
    key: Option<&[u8]>,
    val_json: Option<&[u8]>,
) -> (r: i32)
    requires
        old(state).wf(),
    ensures
        final(state).wf(),
        (match after_set(old(state)@, key, val_json) {
            Some(after) => r == 0 && final(state)@ == after,
            None => r == 1 && final(state)@ == old(state)@,
        }),
{
    match (key, val_json) {
        (Some(key), Some(value)) => match parse_json(read_text(value, "")) {
            Some(json) => {
                state.set(read_text(key, "").to_owned(), json);
                0
            },
            None => 1,
        },
        _ => 1,
    }
}

/// Writes the document under a key into a buffer. Returns how many bytes of its text went in:
/// zero where there is no key or no document under it. A text that fits reads as the document
/// again, where there is no negative zero in it.
pub fn quill_shared_get(state: &SharedState, key: Option<&[u8]>, out: &mut [u8]) -> (r: usize)
    requires
        state.wf(),
    ensures
        (match stored(state@, key) {
            Some(json) => {
                &&& r == c_text_len(encode_utf8(printed(json)), old(out)@.len())
                &&& final(out)@ == c_text(encode_utf8(printed(json)), old(out)@)
                &&& encode_utf8(printed(json)).len() < old(out)@.len() && is_stable(json) && printed(
                    json,
                ).len() <= 0x3fff_ffff ==> parsed(text_or(final(out)@.take(r as int), ""@)) == Some(
                    json,
                )
            },
            None => r == 0 && final(out)@ == old(out)@,
        }),
{
    if out.len() == 0 {
        return 0;
    }
    match key {
        Some(key) => match state.get_ref(read_text(key, "")) {
            Some(json) => {
                let text = print_json(json);
                proof {
                    if encode_utf8(text@).len() < out@.len() {
                        lemma_c_text_reads_back(text@, out@, ""@);
                    }
                }
                put_c_text(text.as_str(), out)
            },
            None => 0,
        },
        None => 0,
    }
}

/// Moves a counter by a step, and returns where it stands then. Returns zero, and moves nothing,
/// where there is no key or the counter would leave the range of 64 bits.
pub fn quill_shared_incr(state: &mut SharedState, key: Option<&[u8]>, delta: i64) -> (r: i64)
    requires
        old(state).wf(),
    ensures
        final(state).wf(),
        (match key {
            Some(key) if can_increment(old(state)@, text_or(key@, ""@), delta) => {
                &&& r == counter(old(state)@, text_or(key@, ""@)) + delta
                &&& final(state)@ == incremented(old(state)@, text_or(key@, ""@), delta)
            },
            _ => r == 0 && final(state)@ == old(state)@,
        }),
{
    match key {
        Some(key) => {
            let key = read_text(key, "");
            match state.current(key).checked_add(delta) {
                Some(_) => state.increment(key, delta),
                None => 0,
            }
        },
        None => 0,
    }
}

/// Takes the document under a key out. Returns 0, or 1 where there is none.
pub fn quill_shared_remove(state: &mut SharedState, key: Option<&[u8]>) -> (r: i32)
    requires
        old(state).wf(),
    ensures
        final(state).wf(),
        (match key {
            Some(key) => final(state)@ == old(state)@.remove(text_or(key@, ""@)),
            None => final(state)@ == old(state)@,
        }),
        r == (if stored(old(state)@, key) is Some {
            0i32
        } else {
            1i32
        }),
{
    match key {
        Some(key) => match state.remove(read_text(key, "")) {
            Some(_) => 0,
            None => 1,
        },
        None => 1,
    }
}

/// The list names each key of the store once.
pub open spec fn lists_keys(keys: Seq<Seq<char>>, store: Map<Seq<char>, JsonView>) -> bool {
    keys.no_duplicates() && keys.to_set() == store.dom()
}

/// Writes the keys that hold a document into a buffer, as a JSON array, in any order. Returns
/// how many bytes of the text went in.
pub fn quill_shared_keys(state: &SharedState, out: &mut [u8]) -> (r: usize)
    requires
        state.wf(),
    ensures
        exists|keys: Seq<Seq<char>>| #[trigger]
            lists_keys(keys, state@) && r == c_text_len(
                encode_utf8(printed(text_array(keys))),
                old(out)@.len(),
            ) && final(out)@ == c_text(encode_utf8(printed(text_array(keys))), old(out)@)
            && keys.no_duplicates() && (forall|key: Seq<char>| #[trigger]
            keys.contains(key) <==> state@.contains_key(key)) && (printed(text_array(keys)).len()
            <= 0x3fff_ffff ==> parsed(printed(text_array(keys))) == Some(text_array(keys))),
{
    let keys = state.keys();
    proof {
        assert(texts_view(keys@) =~= keys@.map_values(|key: String| key@));
        let names = texts_view(keys@);
        assert(lists_keys(names, state@));
        lemma_text_array(names);
        assert forall|key: Seq<char>| #[trigger] names.contains(key) <==> state@.contains_key(
            key,
        ) by {
            assert(names.to_set().contains(key) <==> names.contains(key));
        }
    }
    put_c_text(print_json(&array_of_texts(&keys)).as_str(), out)
}

} // verus!
