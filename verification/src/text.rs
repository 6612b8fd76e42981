//! Text as the format stores it: bytes that end at a NUL, UTF-8 with NULs
//! strewn in, or one byte per character.

use vstd::prelude::*;
use vstd::slice::{slice_subrange, slice_to_vec};
use vstd::utf8::{decode_utf8, encode_utf8, encode_utf8_decode_utf8, valid_utf8};

verus! {

/// `String::push`: appends one character.
#[verifier::external_body]
pub(crate) fn push_char(text: &mut String, c: char)
    ensures
        final(text)@ == old(text)@.push(c),
{
    text.push(c)
}

/// `String::from_utf8`: the text that `bytes` encode, where they are valid
/// UTF-8, and `None` where they are not.
#[verifier::external_body]
pub(crate) fn string_from_utf8(bytes: Vec<u8>) -> (text: Option<String>)
    ensures
        text is Some <==> valid_utf8(bytes@),
        text matches Some(t) ==> t@ == decode_utf8(bytes@),
{
    String::from_utf8(bytes).ok()
}

/// `text` without its NUL characters.
pub open spec fn without_nuls(text: Seq<char>) -> Seq<char>
    decreases text.len(),
{
    if text.len() == 0 {
        Seq::empty()
    } else if text.last() == '\0' {
        without_nuls(text.drop_last())
    } else {
        without_nuls(text.drop_last()).push(text.last())
    }
}

/// Removes every NUL character, not only trailing ones.
pub fn strip_nuls(text: &str) -> (stripped: String)
    ensures
        stripped@ == without_nuls(text@),
{
    let mut stripped = String::new();
    assert(text@.take(0) =~= Seq::<char>::empty());
    for c in it: text.chars()
        invariant
            it.seq() == text@,
            stripped@ == without_nuls(text@.take(it.index() as int)),
    {
        proof {
            let upto = text@.take(it.index() + 1);
            assert(upto.drop_last() =~= text@.take(it.index() as int));
            assert(upto.last() == c);
        }
        if c != '\0' {
            push_char(&mut stripped, c);
        }
    }
    assert(text@.take(text@.len() as int) =~= text@);
    stripped
}

/// The characters that stand for `bytes` one for one, each byte taken as the
/// code point of its value, with the zero bytes left out.
pub open spec fn latin1_without_nuls(bytes: Seq<u8>) -> Seq<char>
    decreases bytes.len(),
{
    if bytes.len() == 0 {
        Seq::empty()
    } else if bytes.last() == 0 {
        latin1_without_nuls(bytes.drop_last())
    } else {
        latin1_without_nuls(bytes.drop_last()).push(bytes.last() as char)
    }
}

/// Reads each byte as a character of its own and drops the NULs.
pub fn latin1_text(bytes: &[u8]) -> (text: String)
    ensures
        text@ == latin1_without_nuls(bytes@),
{
    let mut text = String::new();
    let mut i: usize = 0;
    assert(bytes@.take(0) =~= Seq::<u8>::empty());
    while i < bytes.len()
        invariant
            i <= bytes@.len(),
            text@ == latin1_without_nuls(bytes@.take(i as int)),
        decreases bytes@.len() - i,
    {
        let b: u8 = bytes[i];
        proof {
            let upto = bytes@.take(i + 1);
            assert(upto.drop_last() =~= bytes@.take(i as int));
            assert(upto.last() == b);
        }
        if b != 0 {
            push_char(&mut text, b as char);
        }
        i += 1;
    }
    assert(bytes@.take(bytes@.len() as int) =~= bytes@);
    text
}

/// Whether two texts hold the same characters.
pub fn same_text(a: &str, b: &str) -> (same: bool)
    ensures
        same == (a@ == b@),
{
    let x = a.as_bytes();
    let y = b.as_bytes();
    proof {
        encode_utf8_decode_utf8(a@);
        encode_utf8_decode_utf8(b@);
    }
    if x.len() != y.len() {
        return false;
    }
    let mut i: usize = 0;
    while i < x.len()
        invariant
            i <= x@.len(),
            x@.len() == y@.len(),
            x@ == encode_utf8(a@),
            y@ == encode_utf8(b@),
            forall|j: int| 0 <= j < i ==> x@[j] == y@[j],
        decreases x@.len() - i,
    {
        if x[i] != y[i] {
            return false;
        }
        i += 1;
    }
    assert(x@ =~= y@);
    true
}

/// Whether the first NUL of `data` stands at `at`.
pub open spec fn is_first_nul(data: Seq<u8>, at: int) -> bool {
    &&& 0 <= at < data.len()
    &&& data[at] == 0
    &&& forall|j: int| 0 <= j < at ==> data[j] != 0
}

/// The bytes in front of the first NUL of `data`; `None` where `data` holds
/// no NUL.
pub open spec fn c_bytes(data: Seq<u8>) -> Option<Seq<u8>> {
    if exists|at: int| is_first_nul(data, at) {
        Some(data.take(choose|at: int| is_first_nul(data, at)))
    } else {
        None
    }
}

/// The NUL-terminated text that `data` starts with: the bytes in front of the
/// first NUL, read as UTF-8. What follows the NUL does not count. `None`
/// where there is no NUL, or where those bytes are not UTF-8.
pub open spec fn c_text(data: Seq<u8>) -> Option<Seq<char>> {
    match c_bytes(data) {
        Some(bytes) => if valid_utf8(bytes) {
            Some(decode_utf8(bytes))
        } else {
            None
        },
        None => None,
    }
}

/// Reads the NUL-terminated text that `data` starts with.
pub fn c_string(data: &[u8]) -> (text: Option<String>)
    ensures
        match text {
            Some(t) => c_text(data@) == Some(t@),
            None => c_text(data@) is None,
        },
{
    let mut i: usize = 0;
    while i < data.len() && data[i] != 0
        invariant
            i <= data@.len(),
            forall|j: int| 0 <= j < i ==> data@[j] != 0,
        decreases data@.len() - i,
    {
        i += 1;
    }
    if i == data.len() {
        return None;
    }
    assert(is_first_nul(data@, i as int));
    string_from_utf8(slice_to_vec(slice_subrange(data, 0, i)))
}

/// Whether `c` is one of the ASCII digits.
pub open spec fn is_digit(c: char) -> bool {
    '0' <= c <= '9'
}

/// The number that a sequence of digits writes in base ten.
pub open spec fn digits_value(digits: Seq<char>) -> nat
    decreases digits.len(),
{
    if digits.len() == 0 {
        0
    } else {
        10 * digits_value(digits.drop_last()) + (digits.last() as nat - '0' as nat) as nat
    }
}

/// Whether `text` is one or more ASCII digits that write a number within
/// `u64`.
pub open spec fn is_u64_digits(text: Seq<char>) -> bool {
    &&& text.len() > 0
    &&& forall|i: int| 0 <= i < text.len() ==> is_digit(#[trigger] text[i])
    &&& digits_value(text) <= u64::MAX
}

/// Whether `text` writes a `u64` in base ten: digits, with one `+` in front
/// of them at most, nothing else, and a value that fits.
pub open spec fn is_u64_text(text: Seq<char>) -> bool {
    if text.len() > 0 && text[0] == '+' {
        is_u64_digits(text.skip(1))
    } else {
        is_u64_digits(text)
    }
}

/// More digits do not write a smaller number.
proof fn lemma_digits_value_grows(digits: Seq<char>, upto: int)
    requires
        0 <= upto <= digits.len(),
    ensures
        digits_value(digits.take(upto)) <= digits_value(digits),
    decreases digits.len(),
{
    if upto == digits.len() {
        assert(digits.take(upto) =~= digits);
    } else {
        assert(digits.drop_last().take(upto) =~= digits.take(upto));
        lemma_digits_value_grows(digits.drop_last(), upto);
    }
}

/// Whether `text` writes a `u64` in base ten.
pub fn writes_u64(text: &str) -> (numeric: bool)
    ensures
        numeric == is_u64_text(text@),
{
    if !text.is_ascii() {
        proof {
            let i = choose|i: int| 0 <= i < text@.len() && !('\0' <= #[trigger] text@[i] <= '\u{7f}');
            if text@.len() > 0 && text@[0] == '+' {
                assert(text@.skip(1)[i - 1] == text@[i]);
            }
        }
        return false;
    }
    let bytes = text.as_bytes();
    proof {
        vstd::string::is_ascii_spec_bytes(text);
    }
    let len: usize = bytes.len();
    let start: usize = if len > 0 && bytes[0] == 0x2B {
        1
    } else {
        0
    };
    let ghost digits = if start == 1 {
        text@.skip(1)
    } else {
        text@
    };
    assert(is_u64_text(text@) == is_u64_digits(digits));
    if start == len {
        return false;
    }
    let mut value: u64 = 0;
    let mut i: usize = start;
    assert(digits.take(0) =~= Seq::<char>::empty());
    while i < len
        invariant
            start <= i <= len,
            len == text@.len(),
            len == bytes@.len(),
            digits.len() == len - start,
            is_u64_text(text@) == is_u64_digits(digits),
            forall|j: int| 0 <= j < len ==> bytes@[j] as int == text@[j] as int,
            forall|j: int| 0 <= j < digits.len() ==> digits[j] == text@[j + start],
            forall|j: int| 0 <= j < i - start ==> is_digit(#[trigger] digits[j]),
            value == digits_value(digits.take(i - start)),
        decreases len - i,
    {
        let b: u8 = bytes[i];
        let ghost c = digits[i - start];
        assert(b as int == c as int);
        if b < 0x30 || b > 0x39 {
            assert(!is_digit(c));
            return false;
        }
        let d: u64 = (b - 0x30) as u64;
        proof {
            let next = digits.take(i - start + 1);
            assert(next.drop_last() =~= digits.take(i - start));
            assert(next.last() == c);
            assert(c as nat - '0' as nat == d);
            assert(digits_value(next) == 10 * value + d);
            lemma_digits_value_grows(digits, i - start + 1);
        }
        if value > (u64::MAX - d) / 10 {
            return false;
        }
        value = 10 * value + d;
        i += 1;
    }
    assert(digits.take(len - start) =~= digits);
    true
}

} // verus!
