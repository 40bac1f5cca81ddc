//! Lists of named values.

use vstd::prelude::*;
use vstd::string::*;

use crate::text::same_text;

verus! {

/// A list of named values, with the names as text.
pub open spec fn named<V>(entries: Seq<(String, V)>) -> Seq<(Seq<char>, V)> {
    Seq::new(entries.len(), |i: int| (entries[i].0@, entries[i].1))
}

/// A list of named texts.
pub open spec fn text_pairs(entries: Seq<(String, String)>) -> Seq<(Seq<char>, Seq<char>)> {
    Seq::new(entries.len(), |i: int| (entries[i].0@, entries[i].1@))
}

/// Names and texts are listed in the order of the entries, all of them.
pub proof fn lemma_listed<V>(entries: Seq<(String, V)>, texts: Seq<(String, String)>)
    ensures
        named(entries).len() == entries.len(),
        forall|i: int|
            0 <= i < entries.len() ==> (#[trigger] named(entries)[i]).0 == entries[i].0@ && named(
                entries,
            )[i].1 == entries[i].1,
        text_pairs(texts).len() == texts.len(),
        forall|i: int|
            0 <= i < texts.len() ==> (#[trigger] text_pairs(texts)[i]).0 == texts[i].0@
                && text_pairs(texts)[i].1 == texts[i].1@,
{
}

/// The place of the first entry of that name; the length of the list where there is none.
pub open spec fn position<V>(entries: Seq<(Seq<char>, V)>, name: Seq<char>) -> int
    decreases entries.len(),
{
    if entries.len() == 0 || entries[0].0 == name {
        0
    } else {
        1 + position(entries.drop_first(), name)
    }
}

/// The list has an entry of that name.
pub open spec fn has_name<V>(entries: Seq<(Seq<char>, V)>, name: Seq<char>) -> bool {
    position(entries, name) < entries.len()
}

/// The value of the first entry of that name.
pub open spec fn lookup<V>(entries: Seq<(Seq<char>, V)>, name: Seq<char>) -> Option<V> {
    if has_name(entries, name) {
        Some(entries[position(entries, name)].1)
    } else {
        None
    }
}

/// The list with the name given that value: in its place where the list has the name, else at
/// the end.
pub open spec fn put<V>(entries: Seq<(Seq<char>, V)>, name: Seq<char>, value: V) -> Seq<
    (Seq<char>, V),
> {
    if has_name(entries, name) {
        entries.update(position(entries, name), (name, value))
    } else {
        entries.push((name, value))
    }
}

/// The list with each of more names given its value, one after the other.
pub open spec fn put_all<V>(
    entries: Seq<(Seq<char>, V)>,
    more: Seq<(Seq<char>, V)>,
) -> Seq<(Seq<char>, V)>
    decreases more.len(),
{
    if more.len() == 0 {
        entries
    } else {
        put(put_all(entries, more.drop_last()), more.last().0, more.last().1)
    }
}

/// No name is repeated.
pub open spec fn distinct<V>(entries: Seq<(Seq<char>, V)>) -> bool {
    forall|i: int, j: int|
        0 <= i < j < entries.len() ==> (#[trigger] entries[i]).0 != (#[trigger] entries[j]).0
}

/// The place of a name is within the list or at its end, no entry before it has the name, and
/// the entry at it has.
pub proof fn lemma_position<V>(entries: Seq<(Seq<char>, V)>, name: Seq<char>)
    ensures
        0 <= position(entries, name) <= entries.len(),
        forall|i: int| 0 <= i < position(entries, name) ==> (#[trigger] entries[i]).0 != name,
        has_name(entries, name) ==> entries[position(entries, name)].0 == name,
    decreases entries.len(),
{
    if entries.len() > 0 && entries[0].0 != name {
        lemma_position(entries.drop_first(), name);
        assert forall|i: int| 0 <= i < position(entries, name) implies (#[trigger] entries[i]).0
            != name by {
            if i > 0 {
                assert(entries.drop_first()[i - 1] == entries[i]);
            }
        }
    }
}

/// The place of a name is the only one that has what [`lemma_position`] says of it.
pub proof fn lemma_position_unique<V>(entries: Seq<(Seq<char>, V)>, name: Seq<char>, at: int)
    requires
        0 <= at <= entries.len(),
        forall|i: int| 0 <= i < at ==> (#[trigger] entries[i]).0 != name,
        at < entries.len() ==> entries[at].0 == name,
    ensures
        position(entries, name) == at,
{
    lemma_position(entries, name);
    let p = position(entries, name);
    if p < at {
        assert(entries[p].0 != name);
    }
    if at < p {
        assert(entries[at].0 != name);
    }
}

/// A name is found with the value of the first entry that has it, and is not found where none has.
pub proof fn lemma_lookup<V>(entries: Seq<(Seq<char>, V)>, name: Seq<char>)
    ensures
        forall|i: int|
            0 <= i < entries.len() && (#[trigger] entries[i]).0 == name && (forall|j: int|
                0 <= j < i ==> (#[trigger] entries[j]).0 != name) ==> has_name(entries, name)
                && lookup(entries, name) == Some(entries[i].1),
        (forall|i: int| 0 <= i < entries.len() ==> (#[trigger] entries[i]).0 != name)
            ==> !has_name(entries, name) && lookup(entries, name) is None,
{
    lemma_position(entries, name);
    assert forall|i: int|
        0 <= i < entries.len() && (#[trigger] entries[i]).0 == name && (forall|j: int|
            0 <= j < i ==> (#[trigger] entries[j]).0 != name) implies has_name(entries, name)
        && lookup(entries, name) == Some(entries[i].1) by {
        lemma_position_unique(entries, name, i);
    }
}

/// Putting keeps a list without repeated names free of them.
pub proof fn lemma_put_distinct<V>(entries: Seq<(Seq<char>, V)>, name: Seq<char>, value: V)
    requires
        distinct(entries),
    ensures
        distinct(put(entries, name, value)),
{
    lemma_position(entries, name);
}

/// Putting leaves every entry in its place, but that of the name, and adds one at the end where the
/// list does not have the name.
pub proof fn lemma_put_places<V>(entries: Seq<(Seq<char>, V)>, name: Seq<char>, value: V)
    ensures
        (exists|i: int| 0 <= i < entries.len() && (#[trigger] entries[i]).0 == name) ==> put(
            entries,
            name,
            value,
        ).len() == entries.len(),
        (forall|i: int| 0 <= i < entries.len() ==> (#[trigger] entries[i]).0 != name) ==> put(
            entries,
            name,
            value,
        ) == entries.push((name, value)),
        forall|i: int|
            0 <= i < entries.len() && (#[trigger] entries[i]).0 != name ==> put(
                entries,
                name,
                value,
            )[i] == entries[i],
{
    lemma_position(entries, name);
}

/// What was put under a name is found there, and every other name is found as before.
pub proof fn lemma_put_lookup<V>(
    entries: Seq<(Seq<char>, V)>,
    name: Seq<char>,
    value: V,
    other: Seq<char>,
)
    ensures
        lookup(put(entries, name, value), other) == (if other == name {
            Some(value)
        } else {
            lookup(entries, other)
        }),
{
    let after = put(entries, name, value);
    lemma_position(entries, name);
    lemma_position(entries, other);
    let p = position(entries, other);
    if other == name {
        lemma_position_unique(after, name, p);
    } else if p < entries.len() {
        lemma_position_unique(after, other, p);
    } else {
        lemma_position_unique(after, other, after.len() as int);
    }
}

/// Putting more names leaves every other name as it was found, gives each name the last of its
/// values, and repeats no name.
pub proof fn lemma_put_all<V>(
    entries: Seq<(Seq<char>, V)>,
    more: Seq<(Seq<char>, V)>,
    name: Seq<char>,
)
    ensures
        !has_name(more, name) ==> lookup(put_all(entries, more), name) == lookup(entries, name),
        forall|i: int|
            0 <= i < more.len() && (#[trigger] more[i]).0 == name && (forall|j: int|
                i < j < more.len() ==> (#[trigger] more[j]).0 != name) ==> lookup(
                put_all(entries, more),
                name,
            ) == Some(more[i].1),
        distinct(entries) ==> distinct(put_all(entries, more)),
    decreases more.len(),
{
    if more.len() > 0 {
        let before = more.drop_last();
        let last = more.last();
        lemma_put_all(entries, before, name);
        lemma_put_lookup(put_all(entries, before), last.0, last.1, name);
        if distinct(entries) {
            lemma_put_distinct(put_all(entries, before), last.0, last.1);
        }
        lemma_position(more, name);
        lemma_position(before, name);
        if !has_name(more, name) {
            assert(more[more.len() - 1].0 != name);
            if has_name(before, name) {
                assert(more[position(before, name)].0 == name);
            }
        }
        assert forall|i: int|
            0 <= i < more.len() && (#[trigger] more[i]).0 == name && (forall|j: int|
                i < j < more.len() ==> (#[trigger] more[j]).0 != name) implies lookup(
            put_all(entries, more),
            name,
        ) == Some(more[i].1) by {
            if i < more.len() - 1 {
                assert(more[more.len() - 1].0 != name);
                assert(before[i].0 == name);
                assert forall|j: int| i < j < before.len() implies (#[trigger] before[j]).0
                    != name by {
                    assert(more[j].0 != name);
                }
            }
        }
    }
}

/// Finds the first entry of that name.
pub fn find_pair<V>(entries: &Vec<(String, V)>, name: &str) -> (r: Option<usize>)
    ensures
        (match r {
            Some(i) => i < entries@.len() && i == position(named(entries@), name@),
            None => !has_name(named(entries@), name@),
        }),
{
    for i in 0..entries.len()
        invariant
            forall|j: int| 0 <= j < i ==> (#[trigger] named(entries@)[j]).0 != name@,
    {
        if same_text(entries[i].0.as_str(), name) {
            proof {
                lemma_position_unique(named(entries@), name@, i as int);
            }
            return Some(i);
        }
    }
    proof {
        lemma_position_unique(named(entries@), name@, entries@.len() as int);
    }
    None
}

/// Gives a name that value in a list: in its place where the list has the name, else at the end.
pub fn put_pair<V>(entries: &mut Vec<(String, V)>, name: String, value: V)
    ensures
        named(final(entries)@) == put(named(old(entries)@), name@, value),
{
    match find_pair(entries, name.as_str()) {
        Some(i) => {
            entries.set(i, (name, value));
        },
        None => {
            entries.push((name, value));
        },
    }
    assert(named(entries@) =~= put(named(old(entries)@), name@, value));
}

/// Gives a name that text in a list: in its place where the list has the name, else at the end.
pub fn put_text(entries: &mut Vec<(String, String)>, name: &str, value: &str)
    ensures
        text_pairs(final(entries)@) == put(text_pairs(old(entries)@), name@, value@),
{
    proof {
        let plain = named(entries@);
        let texts = text_pairs(entries@);
        lemma_position(plain, name@);
        let p = position(plain, name@);
        assert forall|i: int| 0 <= i < p implies (#[trigger] texts[i]).0 != name@ by {
            assert(plain[i].0 != name@);
        }
        lemma_position_unique(texts, name@, p);
    }
    let text = value.to_owned();
    put_pair(entries, name.to_owned(), text);
    proof {
        let after = named(entries@);
        assert(after == put(named(old(entries)@), name@, text));
        let want = put(text_pairs(old(entries)@), name@, value@);
        assert(entries@.len() == after.len());
        assert forall|i: int| 0 <= i < entries@.len() implies (#[trigger] text_pairs(entries@)[i])
            == want[i] by {
            assert(after[i] == (entries@[i].0@, entries@[i].1));
            if i < old(entries)@.len() {
                assert(named(old(entries)@)[i] == (old(entries)@[i].0@, old(entries)@[i].1));
            }
        }
        assert(text_pairs(entries@) =~= want);
    }
}

/// Gives each of more names its text in a list, one after the other.
pub fn put_texts(entries: &mut Vec<(String, String)>, more: &Vec<(String, String)>)
    ensures
        text_pairs(final(entries)@) == put_all(text_pairs(old(entries)@), text_pairs(more@)),
{
    let ghost all = text_pairs(more@);
    for i in 0..more.len()
        invariant
            all == text_pairs(more@),
            text_pairs(entries@) == put_all(text_pairs(old(entries)@), all.take(i as int)),
    {
        put_text(entries, more[i].0.as_str(), more[i].1.as_str());
        assert(all.take(i + 1).drop_last() =~= all.take(i as int));
    }
    assert(all.take(all.len() as int) =~= all);
}

} // verus!
