//! Text: strings built from bytes, hexadecimal and decimal numbers, and the
//! edits that writing source text in other languages needs.

use vstd::prelude::*;
use vstd::string::StringExecFns;
use vstd::std_specs::iter::IteratorSpec;
use vstd::string::StrSliceExecFns;
use vstd::utf8::{decode_utf8, encode_utf8, valid_utf8};

use crate::grammar::spec_ascii_lower;
use crate::parser::ascii_lower;

verus! {

/// The characters of the ASCII bytes `b`.
pub open spec fn ascii_chars(b: Seq<u8>) -> Seq<char> {
    Seq::new(b.len(), |i: int| b[i] as char)
}

/// Every byte of `b` is ASCII.
pub open spec fn is_ascii_bytes(b: Seq<u8>) -> bool {
    forall|i: int| 0 <= i < b.len() ==> #[trigger] b[i] < 128
}

/// ASCII bytes are valid UTF-8, one character per byte.
pub proof fn lemma_ascii_utf8(b: Seq<u8>)
    requires
        is_ascii_bytes(b),
    ensures
        valid_utf8(b),
        decode_utf8(b) == ascii_chars(b),
    decreases b.len(),
{
    if b.len() > 0 {
        let rest = vstd::utf8::pop_first_scalar(b);
        assert(rest =~= b.drop_first());
        assert(is_ascii_bytes(rest));
        lemma_ascii_utf8(rest);
        let b0 = b[0];
        assert(b0 & 0x7f == b0) by (bit_vector)
            requires
                b0 < 128,
        ;
        assert(decode_utf8(b) =~= ascii_chars(b));
    }
}

/// `String::from_utf8`: the string whose UTF-8 bytes are `bytes`, when they
/// are valid UTF-8. Claimed: a result exactly when the bytes are valid, and its
/// UTF-8 encoding is then `bytes`.
#[verifier::external_body]
fn string_from_utf8(bytes: Vec<u8>) -> (r: Option<String>)
    ensures
        r is Some <==> valid_utf8(bytes@),
        r matches Some(s) ==> encode_utf8(s@) == bytes@,
{
    String::from_utf8(bytes).ok()
}

/// The string of the ASCII bytes `bytes`.
pub fn ascii_string(bytes: Vec<u8>) -> (s: String)
    requires
        is_ascii_bytes(bytes@),
    ensures
        s@ == ascii_chars(bytes@),
{
    proof {
        lemma_ascii_utf8(bytes@);
    }
    let ghost b = bytes@;
    match string_from_utf8(bytes) {
        Some(s) => {
            proof {
                vstd::utf8::encode_utf8_decode_utf8(s@);
            }
            s
        },
        None => String::new(),
    }
}

/// The lowercase hexadecimal digit of `d`.
pub open spec fn hex_digit(d: nat) -> u8 {
    if d < 10 {
        (48 + d) as u8
    } else {
        (87 + d) as u8
    }
}

/// Two lowercase hexadecimal digits per byte, high nibble first.
pub open spec fn spec_hex_bytes(b: Seq<u8>) -> Seq<u8>
    decreases b.len(),
{
    if b.len() == 0 {
        seq![]
    } else {
        seq![hex_digit((b[0] / 16) as nat), hex_digit((b[0] % 16) as nat)] + spec_hex_bytes(
            b.drop_first(),
        )
    }
}

pub proof fn lemma_hex_bytes_ascii(b: Seq<u8>)
    ensures
        is_ascii_bytes(spec_hex_bytes(b)),
        spec_hex_bytes(b).len() == 2 * b.len(),
    decreases b.len(),
{
    if b.len() > 0 {
        lemma_hex_bytes_ascii(b.drop_first());
    }
}

/// The lowercase hexadecimal text of `bytes`, two digits per byte.
pub fn hex_lower(bytes: &[u8]) -> (s: String)
    ensures
        s@ == ascii_chars(spec_hex_bytes(bytes@)),
{
    let mut out: Vec<u8> = Vec::new();
    let mut i: usize = 0;
    assert(bytes@.skip(0) =~= bytes@);
    while i < bytes.len()
        invariant
            i <= bytes@.len(),
            out@ + spec_hex_bytes(bytes@.skip(i as int)) == spec_hex_bytes(bytes@),
        decreases bytes@.len() - i,
    {
        let b = bytes[i];
        let high: u8 = b / 16;
        let low: u8 = b % 16;
        let h: u8 = if high < 10 {
            48 + high
        } else {
            87 + high
        };
        let l: u8 = if low < 10 {
            48 + low
        } else {
            87 + low
        };
        let ghost before = out@;
        out.push(h);
        out.push(l);
        proof {
            assert(bytes@.skip(i as int).drop_first() =~= bytes@.skip(i + 1));
            assert(before + spec_hex_bytes(bytes@.skip(i as int)) =~= out@ + spec_hex_bytes(
                bytes@.skip(i + 1),
            ));
        }
        i = i + 1;
    }
    proof {
        assert(bytes@.skip(bytes@.len() as int) =~= Seq::<u8>::empty());
        assert(out@ =~= spec_hex_bytes(bytes@));
        lemma_hex_bytes_ascii(bytes@);
    }
    ascii_string(out)
}

/// The decimal digits of `n`, most significant first, with no leading zero.
pub open spec fn spec_decimal(n: nat) -> Seq<u8>
    decreases n,
{
    if n < 10 {
        seq![(48 + n) as u8]
    } else {
        spec_decimal(n / 10).push((48 + n % 10) as u8)
    }
}

pub proof fn lemma_decimal_ascii(n: nat)
    ensures
        is_ascii_bytes(spec_decimal(n)),
        spec_decimal(n).len() >= 1,
    decreases n,
{
    if n >= 10 {
        lemma_decimal_ascii(n / 10);
    }
}

/// The decimal text of `n`.
pub fn decimal(n: u64) -> (s: String)
    ensures
        s@ == ascii_chars(spec_decimal(n as nat)),
{
    let mut digits: Vec<u8> = Vec::new();
    let mut v: u64 = n;
    while v >= 10
        invariant
            spec_decimal(n as nat) == spec_decimal(v as nat) + digits@,
        decreases v,
    {
        let ghost before = digits@;
        digits.insert(0, (48 + v % 10) as u8);
        proof {
            assert(spec_decimal(v as nat) + before =~= spec_decimal((v / 10) as nat) + digits@);
        }
        v = v / 10;
    }
    let ghost before = digits@;
    digits.insert(0, (48 + v) as u8);
    assert(spec_decimal(v as nat) + before =~= digits@);
    proof {
        lemma_decimal_ascii(n as nat);
        assert(digits@ =~= spec_decimal(n as nat));
    }
    ascii_string(digits)
}


/// Whether `s` reads `text`.
pub fn text_is(s: &String, text: &str) -> (r: bool)
    ensures
        r == (s@ == text@),
{
    let t = text.to_owned();
    *s == t
}

/// The characters of `text`.
pub fn chars_of(text: &str) -> (r: Vec<char>)
    ensures
        r@ == text@,
{
    broadcast use vstd::string::group_string_axioms;

    let len = text.unicode_len();
    let mut it = text.chars();
    let mut out: Vec<char> = Vec::new();
    let mut i: usize = 0;
    while i < len
        invariant
            len == text@.len(),
            i <= len,
            out@.len() == i,
            it.obeys_prophetic_iter_laws(),
            out@ + it.remaining() == text@,
        decreases len - i,
    {
        match it.next() {
            Some(c) => {
                out.push(c);
            },
            None => {
                assert(false);
            },
        }
        i = i + 1;
    }
    assert(out@ =~= text@);
    out
}

/// `String::push`: appends `c`. Claimed: the text gains `c` at its end and
/// is otherwise unchanged.
#[verifier::external_body]
pub(crate) fn push_char(text: &mut String, c: char)
    ensures
        final(text)@ == old(text)@.push(c),
{
    text.push(c);
}

// ---------------------------------------------------------------------------
// Editing text
// ---------------------------------------------------------------------------

/// `s` with each ASCII capital letter made small.
pub open spec fn spec_lowercase(s: Seq<char>) -> Seq<char> {
    s.map_values(|c: char| spec_ascii_lower(c))
}

/// `str::to_ascii_lowercase`, written out: each ASCII capital made small.
pub fn ascii_lowercase(s: &str) -> (r: String)
    ensures
        r@ == spec_lowercase(s@),
{
    let chars = chars_of(s);
    let mut out = String::new();
    let mut i: usize = 0;
    while i < chars.len()
        invariant
            i <= chars@.len(),
            chars@ == s@,
            out@ == spec_lowercase(s@.take(i as int)),
        decreases chars@.len() - i,
    {
        let c = ascii_lower(chars[i]);
        push_char(&mut out, c);
        assert(spec_lowercase(s@.take(i + 1)) =~= spec_lowercase(s@.take(i as int)).push(c));
        i = i + 1;
    }
    assert(s@.take(chars@.len() as int) =~= s@);
    out
}

/// `s` without the character `c`.
pub open spec fn spec_without(s: Seq<char>, c: char) -> Seq<char>
    decreases s.len(),
{
    if s.len() == 0 {
        seq![]
    } else if s.last() == c {
        spec_without(s.drop_last(), c)
    } else {
        spec_without(s.drop_last(), c).push(s.last())
    }
}

/// `s` with every `c` taken out.
pub fn without_char(s: &str, c: char) -> (r: String)
    ensures
        r@ == spec_without(s@, c),
{
    let chars = chars_of(s);
    let mut out = String::new();
    let mut i: usize = 0;
    while i < chars.len()
        invariant
            i <= chars@.len(),
            chars@ == s@,
            out@ == spec_without(s@.take(i as int), c),
        decreases chars@.len() - i,
    {
        assert(s@.take(i + 1).drop_last() =~= s@.take(i as int));
        if chars[i] != c {
            push_char(&mut out, chars[i]);
        }
        i = i + 1;
    }
    assert(s@.take(chars@.len() as int) =~= s@);
    out
}

/// `s` with each occurrence of `pattern`, from the left and without
/// overlaps, replaced by `with`.
pub open spec fn spec_replace(s: Seq<char>, pattern: Seq<char>, with: Seq<char>) -> Seq<char>
    decreases s.len(),
{
    if pattern.len() == 0 || s.len() < pattern.len() {
        s
    } else if s.take(pattern.len() as int) == pattern {
        with + spec_replace(s.skip(pattern.len() as int), pattern, with)
    } else {
        seq![s[0]] + spec_replace(s.drop_first(), pattern, with)
    }
}

/// Whether `pattern` stands in `s` at `at`.
fn matches_at(s: &Vec<char>, at: usize, pattern: &Vec<char>) -> (r: bool)
    requires
        at <= s@.len(),
    ensures
        r == (at + pattern@.len() <= s@.len() && s@.skip(at as int).take(pattern@.len() as int)
            == pattern@),
{
    if pattern.len() > s.len() - at {
        return false;
    }
    let mut i: usize = 0;
    while i < pattern.len()
        invariant
            i <= pattern@.len(),
            at + pattern@.len() <= s@.len(),
            s@.len() <= usize::MAX,
            forall|j: int| 0 <= j < i ==> s@[at + j] == pattern@[j],
        decreases pattern@.len() - i,
    {
        if s[at + i] != pattern[i] {
            assert(s@.skip(at as int).take(pattern@.len() as int)[i as int] != pattern@[i as int]);
            return false;
        }
        i = i + 1;
    }
    assert(s@.skip(at as int).take(pattern@.len() as int) =~= pattern@);
    true
}

/// `str::replace`: each occurrence of `pattern`, from the left and without
/// overlaps, replaced by `with`.
pub fn replace_text(s: &str, pattern: &str, with: &str) -> (r: String)
    ensures
        r@ == spec_replace(s@, pattern@, with@),
{
    let chars = chars_of(s);
    let pat = chars_of(pattern);
    let mut out = String::new();
    if pat.len() == 0 {
        out.append(s);
        return out;
    }
    let mut i: usize = 0;
    assert(s@.skip(0) =~= s@);
    assert(out@ + spec_replace(s@, pattern@, with@) =~= spec_replace(s@, pattern@, with@));
    while i < chars.len()
        invariant
            i <= chars@.len(),
            chars@ == s@,
            pat@ == pattern@,
            pat@.len() > 0,
            out@ + spec_replace(s@.skip(i as int), pattern@, with@) == spec_replace(
                s@,
                pattern@,
                with@,
            ),
        decreases chars@.len() - i,
    {
        let ghost rest = s@.skip(i as int);
        if matches_at(&chars, i, &pat) {
            assert(rest.take(pattern@.len() as int) =~= s@.skip(i as int).take(
                pattern@.len() as int,
            ));
            assert(rest.skip(pattern@.len() as int) =~= s@.skip(i + pat@.len()));
            let ghost before = out@;
            out.append(with);
            assert(before + spec_replace(rest, pattern@, with@) =~= out@ + spec_replace(
                s@.skip(i + pat@.len()),
                pattern@,
                with@,
            ));
            i = i + pat.len();
        } else {
            assert(rest.drop_first() =~= s@.skip(i + 1));
            let ghost before = out@;
            push_char(&mut out, chars[i]);
            proof {
                if rest.len() < pattern@.len() {
                    assert(spec_replace(rest, pattern@, with@) == rest);
                    assert(rest =~= seq![rest[0]] + rest.drop_first());
                    assert(rest.drop_first().len() < pattern@.len());
                    assert(spec_replace(rest.drop_first(), pattern@, with@) == rest.drop_first());
                }
            }
            assert(before + spec_replace(rest, pattern@, with@) =~= out@ + spec_replace(
                s@.skip(i + 1),
                pattern@,
                with@,
            ));
            i = i + 1;
        }
    }
    assert(s@.skip(chars@.len() as int) =~= Seq::<char>::empty());
    assert(out@ + Seq::<char>::empty() =~= out@);
    out
}

/// The place of the first `c` in `s` at or after `from`.
pub open spec fn spec_find_char(s: Seq<char>, c: char, from: int) -> Option<int>
    decreases s.len() - from,
{
    if from < 0 || from >= s.len() {
        None
    } else if s[from] == c {
        Some(from)
    } else {
        spec_find_char(s, c, from + 1)
    }
}

/// `str::split_once`: the text before the first `c` and the text after it.
pub fn split_once(s: &str, c: char) -> (r: Option<(String, String)>)
    ensures
        match spec_find_char(s@, c, 0) {
            Some(k) => r matches Some((a, b)) && a@ == s@.take(k) && b@ == s@.skip(k + 1),
            None => r is None,
        },
{
    let chars = chars_of(s);
    let mut i: usize = 0;
    while i < chars.len()
        invariant
            i <= chars@.len(),
            chars@ == s@,
            spec_find_char(s@, c, 0) == spec_find_char(s@, c, i as int),
        decreases chars@.len() - i,
    {
        if chars[i] == c {
            let mut before = String::new();
            let mut after = String::new();
            let mut j: usize = 0;
            while j < chars.len()
                invariant
                    i < chars@.len(),
                    j <= chars@.len(),
                    chars@ == s@,
                    j <= i ==> before@ == s@.take(j as int) && after@.len() == 0,
                    j > i ==> before@ == s@.take(i as int) && after@ == s@.subrange(
                        i + 1,
                        j as int,
                    ),
                decreases chars@.len() - j,
            {
                if j < i {
                    push_char(&mut before, chars[j]);
                    assert(before@ =~= s@.take(j + 1));
                } else if j > i {
                    push_char(&mut after, chars[j]);
                    assert(after@ =~= s@.subrange(i + 1, j + 1));
                } else {
                    assert(after@ =~= s@.subrange(i + 1, j + 1));
                }
                j = j + 1;
            }
            assert(after@ =~= s@.skip(i + 1));
            return Some((before, after));
        }
        i = i + 1;
    }
    None
}

/// Whether `s` starts with the character `c`.
pub fn starts_with_char(s: &str, c: char) -> (r: bool)
    ensures
        r == (s@.len() > 0 && s@[0] == c),
{
    let chars = chars_of(s);
    chars.len() > 0 && chars[0] == c
}

} // verus!
