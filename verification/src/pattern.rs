//! Patterns of routes.
//!
//! In a pattern `{name}` stands for a parameter, which ends its segment, and `{*name}` for a
//! catch-all. A doubled brace stands for the brace itself.

use vstd::prelude::*;
use vstd::string::*;

verus! {

/// Where in a pattern a character stands.
pub enum Place {
    /// Outside of parameters.
    Outside,
    /// Behind the brace that opens a parameter.
    Opened,
    /// In the name of a parameter, or of a catch-all, of which only the star was read so far
    /// where it is bare.
    Name { catch_all: bool, bare: bool },
    /// Behind the brace that closes a parameter or a catch-all.
    Closed { catch_all: bool },
    /// Behind a mistake.
    Broken,
}

/// What was read of a pattern.
pub struct Reading {
    pub place: Place,
    /// How many parameters ended their segment, but no more than 26.
    pub params: u8,
    /// Where the last of them before the catch-all ended.
    pub stem: Option<usize>,
    /// A character outside of ASCII stood behind that, outside of parameters.
    pub accented: bool,
    /// A catch-all was followed by more.
    pub overrun: bool,
    /// Such a character stood between a parameter and the first catch-all that was followed by
    /// more.
    pub cut: bool,
}

/// Nothing was read yet.
pub open spec fn unread() -> Reading {
    Reading {
        place: Place::Outside,
        params: 0,
        stem: None,
        accented: false,
        overrun: false,
        cut: false,
    }
}

/// The reading after one more character at that place in the text, which may be a brace that is
/// doubled.
pub open spec fn step(reading: Reading, c: char, doubled: bool, at: usize) -> Reading {
    match reading.place {
        Place::Outside => if c == '{' && !doubled {
            Reading { place: Place::Opened, ..reading }
        } else if c == '}' && !doubled {
            Reading { place: Place::Broken, ..reading }
        } else {
            Reading { accented: reading.accented || c as u32 > 0x7f, ..reading }
        },
        Place::Opened => if c == '}' {
            Reading { place: Place::Broken, ..reading }
        } else {
            Reading { place: Place::Name { catch_all: c == '*', bare: c == '*' }, ..reading }
        },
        Place::Name { catch_all, bare } => if c == '}' && !doubled {
            if bare {
                Reading { place: Place::Broken, ..reading }
            } else {
                Reading { place: Place::Closed { catch_all }, ..reading }
            }
        } else if c == '*' || c == '/' {
            Reading { place: Place::Broken, ..reading }
        } else {
            Reading { place: Place::Name { catch_all, bare: false }, ..reading }
        },
        Place::Closed { catch_all } => if c != '/' {
            Reading { place: Place::Broken, ..reading }
        } else if catch_all {
            Reading {
                place: Place::Outside,
                overrun: true,
                cut: if reading.overrun {
                    reading.cut
                } else {
                    reading.accented && reading.stem is Some
                },
                ..reading
            }
        } else {
            Reading {
                place: Place::Outside,
                params: if reading.params < 26 {
                    (reading.params + 1) as u8
                } else {
                    reading.params
                },
                stem: if reading.overrun {
                    reading.stem
                } else {
                    Some(at)
                },
                accented: false,
                ..reading
            }
        },
        Place::Broken => reading,
    }
}

/// The text begins with a brace that is doubled.
pub open spec fn is_doubled(text: Seq<char>) -> bool {
    text.len() > 1 && text[0] == text[1] && (text[0] == '{' || text[0] == '}')
}

/// The reading after the text that begins at that place.
pub open spec fn read(reading: Reading, text: Seq<char>, at: int) -> Reading
    decreases text.len(),
{
    if text.len() == 0 {
        reading
    } else if is_doubled(text) {
        read(step(reading, text[0], true, at as usize), text.skip(2), at + 2)
    } else {
        read(step(reading, text[0], false, at as usize), text.skip(1), at + 1)
    }
}

/// How many parameters a pattern has before the first mistake in it, but no more than 27.
pub open spec fn parameters(pattern: Seq<char>) -> int {
    let reading = read(unread(), pattern, 0);
    reading.params + if reading.place == (Place::Closed { catch_all: false }) {
        1int
    } else {
        0
    }
}

/// The pattern is without mistake but that a catch-all in it does not end it, and has a character
/// outside of ASCII between a parameter and that catch-all.
pub open spec fn leaves_cut(pattern: Seq<char>) -> bool {
    let reading = read(unread(), pattern, 0);
    reading.cut && (reading.place is Outside || reading.place is Closed)
}

/// The pattern as a tree is given it. Of one that may leave the tree cut, what stands behind the
/// last parameter before the catch-all is replaced by a catch-all that does not end the pattern
/// either. The tree refuses the one as it does the other, when it has taken in the parameters.
pub open spec fn offered(pattern: Seq<char>) -> Seq<char> {
    if leaves_cut(pattern) {
        pattern.take(read(unread(), pattern, 0).stem.unwrap() as int) + "/{*x}/x"@
    } else {
        pattern
    }
}

/// The text has no braces: as a pattern it stands for itself.
pub open spec fn is_literal(text: Seq<char>) -> bool {
    text.len() > 0 && !text.contains('{') && !text.contains('}')
}

proof fn lemma_read_literal(reading: Reading, text: Seq<char>, at: int)
    requires
        reading.place is Outside,
        !text.contains('{'),
        !text.contains('}'),
    ensures
        read(reading, text, at).place is Outside,
        read(reading, text, at).params == reading.params,
        read(reading, text, at).cut == reading.cut,
    decreases text.len(),
{
    if text.len() > 0 {
        assert(text.contains(text[0]));
        let rest = text.skip(1);
        assert forall|c: char| rest.contains(c) implies text.contains(c) by {
            let i = choose|i: int| 0 <= i < rest.len() && rest[i] == c;
            assert(text[i + 1] == c);
        }
        lemma_read_literal(step(reading, text[0], false, at as usize), rest, at + 1);
    }
}

/// A pattern without braces has no parameters, and is given to a tree as it is.
pub proof fn lemma_literal(pattern: Seq<char>)
    requires
        is_literal(pattern),
    ensures
        parameters(pattern) == 0,
        offered(pattern) == pattern,
{
    lemma_read_literal(unread(), pattern, 0);
}

/// What a tree is given of a pattern is a text without braces only where the pattern is that text.
pub proof fn lemma_offered_literal(pattern: Seq<char>, literal: Seq<char>)
    requires
        is_literal(literal),
    ensures
        (offered(pattern) == literal) == (pattern == literal),
{
    lemma_literal(literal);
    if leaves_cut(pattern) {
        let stem = pattern.take(read(unread(), pattern, 0).stem.unwrap() as int);
        reveal_strlit("/{*x}/x");
        assert(offered(pattern)[stem.len() as int + 1] == '{');
        assert(offered(pattern).contains('{'));
    }
}

proof fn lemma_read_ascii(reading: Reading, text: Seq<char>, at: int)
    requires
        !reading.cut,
        !reading.accented,
        forall|i: int| 0 <= i < text.len() ==> #[trigger] text[i] as u32 <= 0x7f,
    ensures
        !read(reading, text, at).cut,
    decreases text.len(),
{
    if text.len() > 0 {
        if is_doubled(text) {
            lemma_read_ascii(step(reading, text[0], true, at as usize), text.skip(2), at + 2);
        } else {
            lemma_read_ascii(step(reading, text[0], false, at as usize), text.skip(1), at + 1);
        }
    }
}

proof fn lemma_read_ended(reading: Reading, text: Seq<char>, at: int)
    requires
        !reading.cut,
        reading.place matches Place::Name { catch_all, .. } && catch_all ==> !text.contains('/'),
        reading.place matches Place::Closed { catch_all } && catch_all ==> !text.contains('/'),
        reading.place is Opened && text.len() > 0 && text[0] == '*' ==> !text.contains('/'),
        forall|i: int, k: int|
            0 < i < k < text.len() && text[i - 1] == '{' && #[trigger] text[i] == '*'
                ==> #[trigger] text[k] != '/',
    ensures
        !read(reading, text, at).cut,
    decreases text.len(),
{
    if text.len() > 0 {
        let doubled = is_doubled(text);
        let width: int = if doubled {
            2
        } else {
            1
        };
        let next = step(reading, text[0], doubled, at as usize);
        let rest = text.skip(width);
        assert(text.contains(text[0]));
        assert forall|c: char| rest.contains(c) implies text.contains(c) by {
            let i = choose|i: int| 0 <= i < rest.len() && rest[i] == c;
            assert(text[i + width] == c);
        }
        if next.place is Opened && rest.len() > 0 && rest[0] == '*' {
            assert(text[1] == '*');
            assert forall|k: int| 0 <= k < rest.len() implies #[trigger] rest[k] != '/' by {
                assert(rest[k] == text[k + 1]);
            }
        }
        assert forall|i: int, k: int|
            0 < i < k < rest.len() && rest[i - 1] == '{' && #[trigger] rest[i] == '*' implies
            #[trigger] rest[k] != '/' by {
            assert(text[i + width] == '*');
            assert(text[k + width] != '/');
        }
        lemma_read_ended(next, rest, at + width);
    }
}

/// A pattern is given to a tree as it is where it has no characters outside of ASCII, and where no
/// slash stands behind the star of a catch-all. Of any other pattern at least the part up to a
/// slash behind a parameter is given, and then one that a tree refuses.
pub proof fn lemma_offered_same(pattern: Seq<char>)
    requires
        pattern.len() <= usize::MAX,
    ensures
        (forall|i: int| 0 <= i < pattern.len() ==> #[trigger] pattern[i] as u32 <= 0x7f)
            ==> offered(pattern) == pattern,
        (forall|i: int, k: int|
            0 < i < k < pattern.len() && pattern[i - 1] == '{' && #[trigger] pattern[i] == '*'
                ==> #[trigger] pattern[k] != '/') ==> offered(pattern) == pattern,
        offered(pattern) == pattern || exists|n: int|
            0 <= n < pattern.len() && pattern[n] == '/' && offered(pattern) == #[trigger] pattern.take(
                n,
            ) + "/{*x}/x"@,
{
    if forall|i: int| 0 <= i < pattern.len() ==> #[trigger] pattern[i] as u32 <= 0x7f {
        lemma_read_ascii(unread(), pattern, 0);
    }
    if forall|i: int, k: int|
        0 < i < k < pattern.len() && pattern[i - 1] == '{' && #[trigger] pattern[i] == '*' ==>
        #[trigger] pattern[k] != '/' {
        lemma_read_ended(unread(), pattern, 0);
    }
    if leaves_cut(pattern) {
        lemma_stem(unread(), pattern, 0);
        lemma_cut_has_stem(unread(), pattern, 0);
        let n = read(unread(), pattern, 0).stem.unwrap() as int;
        assert(offered(pattern) == pattern.take(n) + "/{*x}/x"@);
    }
}

/// How many times a character stands in a text.
pub open spec fn count_of(text: Seq<char>, c: char) -> nat
    decreases text.len(),
{
    if text.len() == 0 {
        0
    } else {
        count_of(text.skip(1), c) + if text[0] == c {
            1nat
        } else {
            0
        }
    }
}

spec fn parameters_begun(reading: Reading) -> int {
    reading.params + match reading.place {
        Place::Opened => 1int,
        Place::Name { catch_all, .. } => if catch_all {
            0
        } else {
            1
        },
        Place::Closed { catch_all } => if catch_all {
            0
        } else {
            1
        },
        _ => 0,
    }
}

proof fn lemma_read_count(reading: Reading, text: Seq<char>, at: int)
    ensures
        parameters_begun(read(reading, text, at)) <= parameters_begun(reading) + count_of(
            text,
            '{',
        ),
    decreases text.len(),
{
    if text.len() > 0 {
        if is_doubled(text) {
            reveal_with_fuel(count_of, 3);
            assert(text.skip(1).skip(1) =~= text.skip(2));
            lemma_read_count(step(reading, text[0], true, at as usize), text.skip(2), at + 2);
        } else {
            lemma_read_count(step(reading, text[0], false, at as usize), text.skip(1), at + 1);
        }
    }
}

proof fn lemma_read_join(reading: Reading, a: Seq<char>, b: Seq<char>, at: int)
    requires
        b.len() > 0,
        b[0] == '/',
    ensures
        read(reading, a + b, at) == read(read(reading, a, at), b, at + a.len()),
    decreases a.len(),
{
    if a.len() == 0 {
        assert(a + b =~= b);
    } else {
        assert(is_doubled(a + b) == is_doubled(a)) by {
            if a.len() == 1 {
                assert((a + b)[1] == '/');
            }
        }
        if is_doubled(a) {
            assert((a + b).skip(2) =~= a.skip(2) + b);
            lemma_read_join(step(reading, a[0], true, at as usize), a.skip(2), b, at + 2);
        } else {
            assert((a + b).skip(1) =~= a.skip(1) + b);
            lemma_read_join(step(reading, a[0], false, at as usize), a.skip(1), b, at + 1);
        }
    }
}

/// The text may be the name of a parameter: it is not empty and has no braces, stars or slashes.
pub open spec fn is_parameter_name(name: Seq<char>) -> bool {
    name.len() > 0 && !name.contains('{') && !name.contains('}') && !name.contains('*')
        && !name.contains('/')
}

/// The pattern that has a segment for each of these parameters.
pub open spec fn segments(names: Seq<Seq<char>>) -> Seq<char>
    decreases names.len(),
{
    if names.len() == 0 {
        Seq::empty()
    } else {
        segments(names.drop_last()) + (seq!['/', '{'] + names.last() + seq!['}'])
    }
}

proof fn lemma_read_name(reading: Reading, name: Seq<char>, at: int)
    requires
        reading.place matches Place::Name { catch_all, bare } && !catch_all && !bare,
        !name.contains('{'),
        !name.contains('}'),
        !name.contains('*'),
        !name.contains('/'),
    ensures
        ({
            let last = read(reading, name + seq!['}'], at);
            &&& last.place == (Place::Closed { catch_all: false })
            &&& last.params == reading.params
        }),
    decreases name.len(),
{
    let text = name + seq!['}'];
    if name.len() == 0 {
        assert(text =~= seq!['}']);
        let next = step(reading, '}', false, at as usize);
        lemma_plain_step(reading, text, at);
        assert(text.skip(1).len() == 0);
        assert(read(next, text.skip(1), at + 1) == next);
    } else {
        assert(name.contains(name[0]));
        assert(text[0] == name[0]);
        let rest = name.skip(1);
        assert forall|c: char| rest.contains(c) implies name.contains(c) by {
            let i = choose|i: int| 0 <= i < rest.len() && rest[i] == c;
            assert(name[i + 1] == c);
        }
        lemma_plain_step(reading, text, at);
        assert(text.skip(1) =~= rest + seq!['}']);
        lemma_read_name(step(reading, name[0], false, at as usize), rest, at + 1);
    }
}

proof fn lemma_read_segment(reading: Reading, name: Seq<char>, at: int)
    requires
        reading.place is Outside || reading.place == (Place::Closed { catch_all: false }),
        is_parameter_name(name),
    ensures
        ({
            let last = read(reading, seq!['/', '{'] + name + seq!['}'], at);
            let ended = reading.params + if reading.place is Closed {
                1int
            } else {
                0
            };
            &&& last.place == (Place::Closed { catch_all: false })
            &&& last.params == (if reading.params < 26 {
                ended
            } else {
                reading.params as int
            })
        }),
{
    let t0 = seq!['/', '{'] + name + seq!['}'];
    let t1 = t0.skip(1);
    let t2 = t1.skip(1);
    let t3 = t2.skip(1);
    let rest = name.skip(1);
    assert(name.contains(name[0]));
    assert(t1[0] == '{' && t1[1] == name[0]);
    assert(t2[0] == name[0]);
    assert(t3 =~= rest + seq!['}']);
    let r1 = step(reading, t0[0], false, at as usize);
    let r2 = step(r1, t1[0], false, (at + 1) as usize);
    let r3 = step(r2, t2[0], false, (at + 2) as usize);
    lemma_plain_step(reading, t0, at);
    lemma_plain_step(r1, t1, at + 1);
    lemma_plain_step(r2, t2, at + 2);
    assert forall|c: char| rest.contains(c) implies name.contains(c) by {
        let i = choose|i: int| 0 <= i < rest.len() && rest[i] == c;
        assert(name[i + 1] == c);
    }
    lemma_read_name(r3, rest, at + 3);
}

/// A pattern of segments that are parameters has as many parameters as segments, counted up to 27.
pub proof fn lemma_segments(names: Seq<Seq<char>>)
    requires
        forall|i: int| 0 <= i < names.len() ==> is_parameter_name(#[trigger] names[i]),
    ensures
        parameters(segments(names)) == (if names.len() < 27 {
            names.len() as int
        } else {
            27
        }),
        names.len() > 0 ==> read(unread(), segments(names), 0).place == (Place::Closed {
            catch_all: false,
        }),
    decreases names.len(),
{
    if names.len() > 0 {
        let init = names.drop_last();
        assert(names[names.len() - 1] == names.last());
        assert forall|i: int| 0 <= i < init.len() implies is_parameter_name(#[trigger] init[i]) by {
            assert(init[i] == names[i]);
        }
        lemma_segments(init);
        let before = read(unread(), segments(init), 0);
        let segment = seq!['/', '{'] + names.last() + seq!['}'];
        lemma_read_join(unread(), segments(init), segment, 0);
        lemma_read_segment(before, names.last(), segments(init).len() as int);
    }
}

/// A pattern has no more parameters than it has opening braces.
pub proof fn lemma_parameters(pattern: Seq<char>)
    ensures
        0 <= parameters(pattern) <= count_of(pattern, '{'),
{
    lemma_read_count(unread(), pattern, 0);
}

/// The reading after the first `n` characters of the text that begins at that place.
spec fn read_to(reading: Reading, text: Seq<char>, at: int, n: int) -> Reading
    decreases text.len(),
{
    if n <= 0 || text.len() == 0 {
        reading
    } else if is_doubled(text) {
        read_to(step(reading, text[0], true, at as usize), text.skip(2), at + 2, n - 2)
    } else {
        read_to(step(reading, text[0], false, at as usize), text.skip(1), at + 1, n - 1)
    }
}

/// A text is read up to a slash, and then from it.
proof fn lemma_read_to(reading: Reading, text: Seq<char>, at: int, n: int)
    requires
        0 <= n < text.len(),
        text[n] == '/',
    ensures
        read(reading, text, at) == read(
            read_to(reading, text, at, n),
            text.skip(n),
            at + n,
        ),
    decreases text.len(),
{
    if n == 0 {
        assert(text.skip(0) =~= text);
    } else if is_doubled(text) {
        assert(text.skip(2).skip(n - 2) =~= text.skip(n));
        lemma_read_to(step(reading, text[0], true, at as usize), text.skip(2), at + 2, n - 2);
    } else {
        assert(text.skip(1).skip(n - 1) =~= text.skip(n));
        lemma_read_to(step(reading, text[0], false, at as usize), text.skip(1), at + 1, n - 1);
    }
}

/// Texts that are the same up to a slash are read the same up to it.
proof fn lemma_read_same(reading: Reading, a: Seq<char>, b: Seq<char>, at: int, n: int)
    requires
        0 <= n < a.len(),
        n < b.len(),
        a[n] == '/',
        b[n] == '/',
        forall|i: int| 0 <= i < n ==> a[i] == b[i],
    ensures
        read_to(reading, a, at, n) == read_to(reading, b, at, n),
    decreases a.len(),
{
    if n > 0 {
        assert(a[0] == b[0]);
        if n > 1 {
            assert(a[1] == b[1]);
        }
        assert(is_doubled(a) == is_doubled(b));
        if is_doubled(a) {
            lemma_read_same(
                step(reading, a[0], true, at as usize),
                a.skip(2),
                b.skip(2),
                at + 2,
                n - 2,
            );
        } else {
            lemma_read_same(
                step(reading, a[0], false, at as usize),
                a.skip(1),
                b.skip(1),
                at + 1,
                n - 1,
            );
        }
    }
}

/// Reading on never takes a parameter back.
proof fn lemma_params_grow(reading: Reading, text: Seq<char>, at: int)
    ensures
        read(reading, text, at).params >= reading.params,
    decreases text.len(),
{
    if text.len() > 0 {
        if is_doubled(text) {
            lemma_params_grow(step(reading, text[0], true, at as usize), text.skip(2), at + 2);
        } else {
            lemma_params_grow(step(reading, text[0], false, at as usize), text.skip(1), at + 1);
        }
    }
}

/// The reading stands behind a parameter, before a slash, with one parameter less than in all,
/// and before any catch-all that is followed by more.
spec fn is_stem(mid: Reading, params: u8) -> bool {
    &&& mid.place == (Place::Closed { catch_all: false })
    &&& !mid.overrun
    &&& !mid.cut
    &&& mid.params < 26 ==> mid.params < params
    &&& mid.params >= 26 ==> params >= 26
}

proof fn lemma_stem(reading: Reading, text: Seq<char>, at: int)
    requires
        0 <= at,
        at + text.len() <= usize::MAX,
        !reading.overrun ==> !reading.cut,
    ensures
        ({
            let last = read(reading, text, at);
            last.stem == reading.stem || (last.stem matches Some(stem) && ({
                let n = stem - at;
                &&& 0 <= n < text.len()
                &&& text[n] == '/'
                &&& is_stem(read_to(reading, text, at, n), last.params)
            }))
        }),
    decreases text.len(),
{
    if text.len() > 0 {
        let last = read(reading, text, at);
        let doubled = is_doubled(text);
        let width: int = if doubled {
            2
        } else {
            1
        };
        let next = step(reading, text[0], doubled, at as usize);
        let rest = text.skip(width);
        lemma_stem(next, rest, at + width);
        lemma_params_grow(next, rest, at + width);
        if last.stem != next.stem {
            let n = last.stem.unwrap() - at;
            assert(text[n] == rest[n - width]);
            assert(read_to(reading, text, at, n) == read_to(next, rest, at + width, n - width));
        }
    }
}

proof fn lemma_cut_has_stem(reading: Reading, text: Seq<char>, at: int)
    requires
        reading.cut ==> reading.stem is Some,
    ensures
        read(reading, text, at).cut ==> read(reading, text, at).stem is Some,
    decreases text.len(),
{
    if text.len() > 0 {
        if is_doubled(text) {
            lemma_cut_has_stem(step(reading, text[0], true, at as usize), text.skip(2), at + 2);
        } else {
            lemma_cut_has_stem(step(reading, text[0], false, at as usize), text.skip(1), at + 1);
        }
    }
}

proof fn lemma_plain_step(reading: Reading, text: Seq<char>, at: int)
    requires
        text.len() > 0,
        !is_doubled(text),
    ensures
        read(reading, text, at) == read(
            step(reading, text[0], false, at as usize),
            text.skip(1),
            at + 1,
        ),
{
}

proof fn lemma_tail(mid: Reading, at: int)
    requires
        mid.place == (Place::Closed { catch_all: false }),
        !mid.overrun,
        !mid.cut,
    ensures
        ({
            let last = read(mid, "/{*x}/x"@, at);
            &&& !last.cut
            &&& last.place is Outside
            &&& last.params == (if mid.params < 26 {
                mid.params + 1
            } else {
                mid.params as int
            })
        }),
{
    reveal_strlit("/{*x}/x");
    let t0 = "/{*x}/x"@;
    let t1 = t0.skip(1);
    let t2 = t1.skip(1);
    let t3 = t2.skip(1);
    let t4 = t3.skip(1);
    let t5 = t4.skip(1);
    let t6 = t5.skip(1);
    let t7 = t6.skip(1);
    let r1 = step(mid, t0[0], false, at as usize);
    let r2 = step(r1, t1[0], false, (at + 1) as usize);
    let r3 = step(r2, t2[0], false, (at + 2) as usize);
    let r4 = step(r3, t3[0], false, (at + 3) as usize);
    let r5 = step(r4, t4[0], false, (at + 4) as usize);
    let r6 = step(r5, t5[0], false, (at + 5) as usize);
    let r7 = step(r6, t6[0], false, (at + 6) as usize);
    assert(t0 =~= seq!['/', '{', '*', 'x', '}', '/', 'x']);
    assert(t7.len() == 0);
    lemma_plain_step(mid, t0, at);
    lemma_plain_step(r1, t1, at + 1);
    lemma_plain_step(r2, t2, at + 2);
    lemma_plain_step(r3, t3, at + 3);
    lemma_plain_step(r4, t4, at + 4);
    lemma_plain_step(r5, t5, at + 5);
    lemma_plain_step(r6, t6, at + 6);
    assert(read(r7, t7, at + 7) == r7);
}

/// What a tree is given of a pattern does not leave it cut, and has at most 25 parameters where the
/// pattern has no more. The place at which a pattern is replaced is inside of it.
pub proof fn lemma_offered(pattern: Seq<char>)
    requires
        pattern.len() <= usize::MAX,
    ensures
        !leaves_cut(offered(pattern)),
        parameters(pattern) <= 25 ==> parameters(offered(pattern)) <= 25,
        leaves_cut(pattern) ==> (read(unread(), pattern, 0).stem matches Some(stem) && stem
            < pattern.len()),
{
    if leaves_cut(pattern) {
        lemma_stem(unread(), pattern, 0);
        lemma_cut_has_stem(unread(), pattern, 0);
        let last = read(unread(), pattern, 0);
        let n = last.stem.unwrap() as int;
        let given = offered(pattern);
        reveal_strlit("/{*x}/x");
        assert(given[n] == '/');
        assert(given.skip(n) =~= "/{*x}/x"@);
        lemma_read_same(unread(), pattern, given, 0, n);
        lemma_read_to(unread(), given, 0, n);
        lemma_tail(read_to(unread(), given, 0, n), n);
    }
}

fn step_on(reading: Reading, c: char, doubled: bool, at: usize) -> (r: Reading)
    ensures
        r == step(reading, c, doubled, at),
{
    match reading.place {
        Place::Outside => if c == '{' && !doubled {
            Reading { place: Place::Opened, ..reading }
        } else if c == '}' && !doubled {
            Reading { place: Place::Broken, ..reading }
        } else {
            Reading { accented: reading.accented || c as u32 > 0x7f, ..reading }
        },
        Place::Opened => if c == '}' {
            Reading { place: Place::Broken, ..reading }
        } else {
            Reading { place: Place::Name { catch_all: c == '*', bare: c == '*' }, ..reading }
        },
        Place::Name { catch_all, bare } => if c == '}' && !doubled && !bare {
            Reading { place: Place::Closed { catch_all }, ..reading }
        } else if c == '*' || c == '/' || (c == '}' && !doubled) {
            Reading { place: Place::Broken, ..reading }
        } else {
            Reading { place: Place::Name { catch_all, bare: false }, ..reading }
        },
        Place::Closed { catch_all } => if c != '/' {
            Reading { place: Place::Broken, ..reading }
        } else if catch_all {
            let cut = if reading.overrun {
                reading.cut
            } else {
                reading.accented && reading.stem.is_some()
            };
            Reading { place: Place::Outside, overrun: true, cut, ..reading }
        } else {
            let params: u8 = if reading.params < 26 {
                reading.params + 1
            } else {
                reading.params
            };
            let stem = if reading.overrun {
                reading.stem
            } else {
                Some(at)
            };
            Reading { place: Place::Outside, params, stem, accented: false, ..reading }
        },
        Place::Broken => reading,
    }
}

fn chars_of(text: &str) -> (r: Vec<char>)
    ensures
        r@ == text@,
{
    let mut chars: Vec<char> = Vec::new();
    for c in iter: text.chars()
        invariant
            iter.seq() == text@,
            chars@ == text@.take(iter.index()),
    {
        chars.push(c);
        assert(chars@ =~= text@.take(iter.index() + 1));
    }
    assert(chars@ =~= text@);
    chars
}

fn read_all(chars: &Vec<char>) -> (r: Reading)
    ensures
        r == read(unread(), chars@, 0),
{
    let mut reading = Reading {
        place: Place::Outside,
        params: 0,
        stem: None,
        accented: false,
        overrun: false,
        cut: false,
    };
    let mut i: usize = 0;
    assert(chars@.skip(0) =~= chars@);
    while i < chars.len()
        invariant
            i <= chars@.len(),
            read(unread(), chars@, 0) == read(reading, chars@.skip(i as int), i as int),
        decreases chars.len() - i,
    {
        let ghost rest = chars@.skip(i as int);
        let c = chars[i];
        let doubled = i + 1 < chars.len() && chars[i + 1] == c && (c == '{' || c == '}');
        assert(rest[0] == c);
        assert(rest.len() > 1 ==> rest[1] == chars@[i + 1]);
        assert(doubled == is_doubled(rest));
        reading = step_on(reading, c, doubled, i);
        if doubled {
            i += 2;
            assert(rest.skip(2) =~= chars@.skip(i as int));
        } else {
            i += 1;
            assert(rest.skip(1) =~= chars@.skip(i as int));
        }
    }
    reading
}

/// Whether a pattern has at most 25 parameters before the first mistake in it.
pub fn has_few_parameters(pattern: &str) -> (r: bool)
    ensures
        r == (parameters(pattern@) <= 25),
{
    let reading = read_all(&chars_of(pattern));
    let last = matches!(reading.place, Place::Closed { catch_all: false });
    reading.params < 25 || (reading.params == 25 && !last)
}

/// The pattern as a tree is given it. It does not leave the tree cut, and has at most 25 parameters
/// where the pattern has no more.
pub fn offer(pattern: &str) -> (r: String)
    ensures
        r@ == offered(pattern@),
        !leaves_cut(r@),
        parameters(pattern@) <= 25 ==> parameters(r@) <= 25,
{
    let chars = chars_of(pattern);
    let reading = read_all(&chars);
    proof {
        assert(chars.len() == pattern@.len());
        lemma_offered(pattern@);
    }
    match reading.stem {
        Some(stem) if reading.cut && matches!(
            reading.place,
            Place::Outside | Place::Closed { .. }
        ) => {
            let mut r = pattern.substring_char(0, stem).to_owned();
            r.append("/{*x}/x");
            r
        },
        _ => pattern.to_owned(),
    }
}

} // verus!
