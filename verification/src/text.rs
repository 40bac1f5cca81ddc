//! Text at the boundary: UTF-8 in, NUL-terminated buffers out, and numbers as digits.

use vstd::prelude::*;
use vstd::string::*;
use vstd::utf8::*;

verus! {

/// Calls `std::str::from_utf8`: a slice that is UTF-8 is given back as the text that it
/// encodes, any other slice is refused.
#[verifier::external_body]
pub(crate) fn utf8(bytes: &[u8]) -> (r: Option<&str>)
    ensures
        (match r {
            Some(text) => valid_utf8(bytes@) && text@ == decode_utf8(bytes@),
            None => !valid_utf8(bytes@),
        }),
{
    std::str::from_utf8(bytes).ok()
}

/// The text that the bytes encode, or the fallback where they are not UTF-8.
pub open spec fn text_or(bytes: Seq<u8>, fallback: Seq<char>) -> Seq<char> {
    if valid_utf8(bytes) {
        decode_utf8(bytes)
    } else {
        fallback
    }
}

/// Reads bytes as text; bytes that are not UTF-8 read as the fallback.
pub fn read_text<'a>(bytes: &'a [u8], fallback: &'a str) -> (r: &'a str)
    ensures
        r@ == text_or(bytes@, fallback@),
{
    match utf8(bytes) {
        Some(text) => text,
        None => fallback,
    }
}

/// The text that the bytes encode, or the fallback where there are none or they are not UTF-8.
pub open spec fn optional_text_or(bytes: Option<&[u8]>, fallback: Seq<char>) -> Seq<char> {
    match bytes {
        Some(bytes) => text_or(bytes@, fallback),
        None => fallback,
    }
}

/// Bytes that are UTF-8 read as the text that they encode, so that a text is read from its own
/// bytes, whatever the fallback. Bytes that are not, and those that are missing, read as the
/// fallback.
pub proof fn lemma_text_or(bytes: &[u8], text: Seq<char>, fallback: Seq<char>)
    ensures
        bytes@ == encode_utf8(text) ==> text_or(bytes@, fallback) == text && optional_text_or(
            Some(bytes),
            fallback,
        ) == text,
        valid_utf8(bytes@) ==> text_or(bytes@, fallback) == decode_utf8(bytes@),
        !valid_utf8(bytes@) ==> text_or(bytes@, fallback) == fallback,
        optional_text_or(Some(bytes), fallback) == text_or(bytes@, fallback),
        optional_text_or(None, fallback) == fallback,
{
    encode_utf8_decode_utf8(text);
    encode_utf8_valid_utf8(text);
}

/// A list of texts.
pub open spec fn texts_view(texts: Seq<String>) -> Seq<Seq<char>> {
    Seq::new(texts.len(), |i: int| texts[i]@)
}

/// Two texts are the same.
pub fn same_text(a: &str, b: &str) -> (r: bool)
    ensures
        r == (a@ == b@),
{
    let x = a.as_bytes();
    let y = b.as_bytes();
    proof {
        encode_utf8_decode_utf8(a@);
        encode_utf8_decode_utf8(b@);
    }
    if x.len() != y.len() {
        return false;
    }
    for i in 0..x.len()
        invariant
            x@ == encode_utf8(a@),
            y@ == encode_utf8(b@),
            x@.len() == y@.len(),
            forall|j: int| 0 <= j < i ==> x@[j] == y@[j],
    {
        if x[i] != y[i] {
            return false;
        }
    }
    assert(x@ =~= y@);
    true
}

/// The number of bytes that go into a buffer of that size: one byte is kept for the NUL.
pub open spec fn c_text_len(bytes: Seq<u8>, size: nat) -> nat {
    if size == 0 {
        0
    } else if bytes.len() < size {
        bytes.len()
    } else {
        (size - 1) as nat
    }
}

/// A buffer after a text was put into it: as many bytes of the text as fit, a NUL, and behind
/// it what the buffer held before. A buffer without room stays as it is.
pub open spec fn c_text(bytes: Seq<u8>, buffer: Seq<u8>) -> Seq<u8> {
    if buffer.len() == 0 {
        buffer
    } else {
        let len = c_text_len(bytes, buffer.len()) as int;
        bytes.take(len).push(0u8) + buffer.skip(len + 1)
    }
}

/// All bytes of a text go into a buffer that is longer than the text, and into any other all that
/// leave room for the NUL. A buffer without room takes none and stays as it is.
pub proof fn lemma_c_text_len(bytes: Seq<u8>, size: nat, buffer: Seq<u8>)
    ensures
        bytes.len() + 1 <= size ==> c_text_len(bytes, size) == bytes.len(),
        1 <= size <= bytes.len() ==> c_text_len(bytes, size) + 1 == size,
        c_text_len(bytes, 0) == 0,
        buffer.len() == 0 ==> c_text(bytes, buffer) == buffer,
{
}

/// A buffer with room keeps its length, holds as much of the text as fits and then a NUL, and is
/// untouched behind it. The whole text fits where the buffer is longer than the text.
pub proof fn lemma_c_text(bytes: Seq<u8>, buffer: Seq<u8>)
    requires
        buffer.len() > 0,
    ensures
        ({
            let len = c_text_len(bytes, buffer.len()) as int;
            let after = c_text(bytes, buffer);
            &&& after.len() == buffer.len()
            &&& len < buffer.len()
            &&& after.take(len) == bytes.take(len)
            &&& after[len] == 0
            &&& after.skip(len + 1) == buffer.skip(len + 1)
            &&& bytes.len() < buffer.len() ==> after.take(len) == bytes
        }),
{
    let len = c_text_len(bytes, buffer.len()) as int;
    let after = c_text(bytes, buffer);
    assert(after.take(len) =~= bytes.take(len));
    assert(after.skip(len + 1) =~= buffer.skip(len + 1));
    if bytes.len() < buffer.len() {
        assert(bytes.take(len) =~= bytes);
    }
}

/// A text that fits into a buffer is read back from it, whatever the buffer held before.
pub proof fn lemma_c_text_reads_back(text: Seq<char>, buffer: Seq<u8>, fallback: Seq<char>)
    requires
        encode_utf8(text).len() < buffer.len(),
    ensures
        ({
            let bytes = encode_utf8(text);
            let len = c_text_len(bytes, buffer.len()) as int;
            text_or(c_text(bytes, buffer).take(len), fallback) == text
        }),
{
    lemma_c_text(encode_utf8(text), buffer);
    encode_utf8_decode_utf8(text);
    encode_utf8_valid_utf8(text);
}

/// Puts a text into a buffer, cut to the buffer's size and ended by a NUL. Returns how many
/// bytes of the text went in.
pub fn put_c_text(text: &str, buffer: &mut [u8]) -> (len: usize)
    ensures
        len == c_text_len(encode_utf8(text@), old(buffer)@.len()),
        final(buffer)@ == c_text(encode_utf8(text@), old(buffer)@),
        final(buffer)@.len() == old(buffer)@.len(),
        old(buffer)@.len() == 0 ==> len == 0,
        old(buffer)@.len() > 0 ==> {
            &&& len == encode_utf8(text@).len() || (len + 1 == old(buffer)@.len() && len
                < encode_utf8(text@).len())
            &&& len < old(buffer)@.len()
            &&& forall|i: int| 0 <= i < len ==> #[trigger] final(buffer)@[i] == encode_utf8(text@)[i]
            &&& final(buffer)@[len as int] == 0
            &&& forall|i: int|
                len < i < old(buffer)@.len() ==> #[trigger] final(buffer)@[i] == old(buffer)@[i]
        },
{
    let bytes = text.as_bytes();
    if buffer.len() == 0 {
        return 0;
    }
    let len: usize = if bytes.len() < buffer.len() { bytes.len() } else { buffer.len() - 1 };
    let mut i: usize = 0;
    while i < len
        invariant
            i <= len,
            len <= bytes@.len(),
            len < old(buffer)@.len(),
            buffer@ == bytes@.take(i as int) + old(buffer)@.skip(i as int),
        decreases len - i,
    {
        buffer[i] = bytes[i];
        i += 1;
        assert(buffer@ =~= bytes@.take(i as int) + old(buffer)@.skip(i as int));
    }
    buffer[len] = 0;
    assert(buffer@ =~= bytes@.take(len as int).push(0u8) + old(buffer)@.skip(len + 1));
    len
}

/// The digit of a number below ten.
pub open spec fn digit(d: nat) -> char {
    if d == 0 {
        '0'
    } else if d == 1 {
        '1'
    } else if d == 2 {
        '2'
    } else if d == 3 {
        '3'
    } else if d == 4 {
        '4'
    } else if d == 5 {
        '5'
    } else if d == 6 {
        '6'
    } else if d == 7 {
        '7'
    } else if d == 8 {
        '8'
    } else {
        '9'
    }
}

/// A number in decimal digits, without leading zeros.
pub open spec fn decimal(n: nat) -> Seq<char>
    decreases n,
{
    if n < 10 {
        seq![digit(n)]
    } else {
        decimal(n / 10).push(digit(n % 10))
    }
}

/// The number that decimal digits are read as.
pub open spec fn digits_value(digits: Seq<char>) -> int
    decreases digits.len(),
{
    if digits.len() == 0 {
        0
    } else {
        10 * digits_value(digits.drop_last()) + (digits.last() as int - '0' as int)
    }
}

/// A number in decimal digits is read as that number again, consists of digits, and begins with a
/// zero only where it is zero.
pub proof fn lemma_decimal(n: nat)
    ensures
        digits_value(decimal(n)) == n,
        decimal(n).len() > 0,
        forall|i: int| 0 <= i < decimal(n).len() ==> '0' <= #[trigger] decimal(n)[i] <= '9',
        decimal(n)[0] == '0' <==> n == 0,
        n == 0 ==> decimal(n).len() == 1,
    decreases n,
{
    assert(digit(n % 10) as int - '0' as int == n % 10);
    if n < 10 {
        assert(decimal(n).drop_last() =~= Seq::empty());
        assert(digits_value(decimal(n).drop_last()) == 0);
    } else {
        lemma_decimal(n / 10);
        assert(decimal(n).drop_last() =~= decimal(n / 10));
        assert(decimal(n)[0] == decimal(n / 10)[0]);
        assert forall|i: int| 0 <= i < decimal(n).len() implies '0' <= #[trigger] decimal(n)[i]
            <= '9' by {
            if i < decimal(n).len() - 1 {
                assert(decimal(n)[i] == decimal(n / 10)[i]);
            }
        }
    }
}

fn digit_text(d: u64) -> (r: &'static str)
    requires
        d < 10,
    ensures
        r@ == seq![digit(d as nat)],
{
    proof {
        reveal_strlit("0");
        reveal_strlit("1");
        reveal_strlit("2");
        reveal_strlit("3");
        reveal_strlit("4");
        reveal_strlit("5");
        reveal_strlit("6");
        reveal_strlit("7");
        reveal_strlit("8");
        reveal_strlit("9");
    }
    match d {
        0 => "0",
        1 => "1",
        2 => "2",
        3 => "3",
        4 => "4",
        5 => "5",
        6 => "6",
        7 => "7",
        8 => "8",
        _ => "9",
    }
}

/// Writes a number in decimal digits.
pub fn decimal_text(n: u64) -> (r: String)
    ensures
        r@ == decimal(n as nat),
    decreases n,
{
    if n < 10 {
        digit_text(n).to_owned()
    } else {
        let mut r = decimal_text(n / 10);
        r.append(digit_text(n % 10));
        assert(r@ =~= decimal(n as nat));
        r
    }
}

} // verus!
