//! The schema grammar, as functions from a text and a position to what is
//! read there and the position after it.
//!
//! A reading either yields a value and the position after it, or stops with
//! a message and the position where it stopped. Positions count characters.

use vstd::prelude::*;

use crate::ast::{
    AliasModel, BitModel, EnumModel, FieldModel, FlagsModel, ItemModel, SchemaModel, StructModel,
    TypeModel, VariantModel,
};
use crate::limits::MAX_NESTING_DEPTH;

verus! {

// ---------------------------------------------------------------------------
// Characters
// ---------------------------------------------------------------------------

/// The Unicode `White_Space` property.
pub uninterp spec fn is_white_space(c: char) -> bool;

/// `char::is_whitespace`: whether `c` has the Unicode `White_Space` property.
/// Claimed: the answer depends on `c` alone, and among ASCII characters
/// exactly tab, line feed, vertical tab, form feed, carriage return and space
/// have it. Which other characters have it (the Unicode tables) is not
/// stated.
#[verifier::external_body]
pub(crate) fn char_is_whitespace(c: char) -> (r: bool)
    ensures
        r == is_white_space(c),
        (c as u32) < 128 ==> (r <==> (c == ' ' || (9 <= (c as u32) <= 13))),
{
    c.is_whitespace()
}

/// `A`-`Z` or `a`-`z`.
pub open spec fn spec_is_ascii_alphabetic(c: char) -> bool {
    ('A' <= c && c <= 'Z') || ('a' <= c && c <= 'z')
}

/// `0`-`9`.
pub open spec fn spec_is_ascii_digit(c: char) -> bool {
    '0' <= c && c <= '9'
}

/// `0`-`9`, `A`-`F` or `a`-`f`.
pub open spec fn spec_is_ascii_hexdigit(c: char) -> bool {
    spec_is_ascii_digit(c) || ('A' <= c && c <= 'F') || ('a' <= c && c <= 'f')
}

/// A character that can start an identifier.
pub open spec fn spec_is_ident_start(c: char) -> bool {
    spec_is_ascii_alphabetic(c) || c == '_'
}

/// A character that can continue an identifier.
pub open spec fn spec_is_ident_char(c: char) -> bool {
    spec_is_ascii_alphabetic(c) || spec_is_ascii_digit(c) || c == '_'
}

/// The small letter of an ASCII capital, any other character unchanged.
pub open spec fn spec_ascii_lower(c: char) -> char {
    if 'A' <= c && c <= 'Z' {
        (((c as u8) + 32) as u8) as char
    } else {
        c
    }
}

/// The value of a run of decimal digits.
pub open spec fn spec_digits_value(d: Seq<char>) -> nat
    decreases d.len(),
{
    if d.len() == 0 {
        0
    } else {
        spec_digits_value(d.drop_last()) * 10 + ((d.last() as u32) - 48) as nat
    }
}

// ---------------------------------------------------------------------------
// Scanning
// ---------------------------------------------------------------------------

/// `text` stands in `s` at `p`.
pub open spec fn spec_starts_with(s: Seq<char>, p: int, text: Seq<char>) -> bool {
    0 <= p && p + text.len() <= s.len() && s.subrange(p, p + text.len()) == text
}

/// The first position from `p` on that holds no white space.
pub open spec fn spec_skip_space(s: Seq<char>, p: int) -> int
    decreases s.len() - p,
{
    if 0 <= p < s.len() && is_white_space(s[p]) {
        spec_skip_space(s, p + 1)
    } else {
        p
    }
}

/// The first position from `p` on that holds a line break, or the end.
pub open spec fn spec_line_end(s: Seq<char>, p: int) -> int
    decreases s.len() - p,
{
    if 0 <= p < s.len() && s[p] != '\n' {
        spec_line_end(s, p + 1)
    } else {
        p
    }
}

/// The first position from `p` on where `*/` stands, if any.
pub open spec fn spec_comment_close(s: Seq<char>, p: int) -> Option<int>
    decreases s.len() - p,
{
    if p < 0 || p + 2 > s.len() {
        None
    } else if s[p] == '*' && s[p + 1] == '/' {
        Some(p)
    } else {
        spec_comment_close(s, p + 1)
    }
}

/// The first position from `p` on that holds no identifier character.
pub open spec fn spec_scan_ident(s: Seq<char>, p: int) -> int
    decreases s.len() - p,
{
    if 0 <= p < s.len() && spec_is_ident_char(s[p]) {
        spec_scan_ident(s, p + 1)
    } else {
        p
    }
}

/// The first position from `p` on that holds no decimal digit.
pub open spec fn spec_scan_digits(s: Seq<char>, p: int) -> int
    decreases s.len() - p,
{
    if 0 <= p < s.len() && spec_is_ascii_digit(s[p]) {
        spec_scan_digits(s, p + 1)
    } else {
        p
    }
}

/// The first position from `p` on that holds no hexadecimal digit.
pub open spec fn spec_scan_hex(s: Seq<char>, p: int) -> int
    decreases s.len() - p,
{
    if 0 <= p < s.len() && spec_is_ascii_hexdigit(s[p]) {
        spec_scan_hex(s, p + 1)
    } else {
        p
    }
}

pub proof fn lemma_skip_space(s: Seq<char>, p: int)
    ensures
        spec_skip_space(s, p) >= p,
        p <= s.len() ==> spec_skip_space(s, p) <= s.len(),
    decreases s.len() - p,
{
    if 0 <= p < s.len() && is_white_space(s[p]) {
        lemma_skip_space(s, p + 1);
    }
}

pub proof fn lemma_line_end(s: Seq<char>, p: int)
    ensures
        spec_line_end(s, p) >= p,
        p <= s.len() ==> spec_line_end(s, p) <= s.len(),
    decreases s.len() - p,
{
    if 0 <= p < s.len() && s[p] != '\n' {
        lemma_line_end(s, p + 1);
    }
}

pub proof fn lemma_comment_close(s: Seq<char>, p: int)
    ensures
        spec_comment_close(s, p) matches Some(q) ==> q >= p && q + 2 <= s.len(),
    decreases s.len() - p,
{
    if !(p < 0 || p + 2 > s.len()) && !(s[p] == '*' && s[p + 1] == '/') {
        lemma_comment_close(s, p + 1);
    }
}

pub proof fn lemma_scan_ident(s: Seq<char>, p: int)
    ensures
        spec_scan_ident(s, p) >= p,
        p <= s.len() ==> spec_scan_ident(s, p) <= s.len(),
    decreases s.len() - p,
{
    if 0 <= p < s.len() && spec_is_ident_char(s[p]) {
        lemma_scan_ident(s, p + 1);
    }
}

pub proof fn lemma_scan_digits(s: Seq<char>, p: int)
    ensures
        spec_scan_digits(s, p) >= p,
        p <= s.len() ==> spec_scan_digits(s, p) <= s.len(),
    decreases s.len() - p,
{
    if 0 <= p < s.len() && spec_is_ascii_digit(s[p]) {
        lemma_scan_digits(s, p + 1);
    }
}

pub proof fn lemma_scan_hex(s: Seq<char>, p: int)
    ensures
        spec_scan_hex(s, p) >= p,
        p <= s.len() ==> spec_scan_hex(s, p) <= s.len(),
    decreases s.len() - p,
{
    if 0 <= p < s.len() && spec_is_ascii_hexdigit(s[p]) {
        lemma_scan_hex(s, p + 1);
    }
}

// ---------------------------------------------------------------------------
// Tokens
// ---------------------------------------------------------------------------

/// The position after the white space and comments at `p`; a `/*` comment
/// without its `*/` stops the reading.
pub open spec fn spec_trivia(s: Seq<char>, p: int) -> Result<int, (Seq<char>, int)>
    decreases s.len() - p,
{
    let q = spec_skip_space(s, p);
    proof {
        lemma_skip_space(s, p);
    }
    if spec_starts_with(s, q, seq!['/', '/']) {
        proof {
            lemma_line_end(s, q + 2);
        }
        spec_trivia(s, spec_line_end(s, q + 2))
    } else if spec_starts_with(s, q, seq!['/', '*']) {
        match spec_comment_close(s, q + 2) {
            None => Err(("unterminated block comment"@, q)),
            Some(close) => {
                proof {
                    lemma_comment_close(s, q + 2);
                }
                spec_trivia(s, close + 2)
            },
        }
    } else {
        Ok(q)
    }
}

pub proof fn lemma_trivia(s: Seq<char>, p: int)
    ensures
        spec_trivia(s, p) matches Ok(q) ==> q >= p && (p <= s.len() ==> q <= s.len()),
    decreases s.len() - p,
{
    let q = spec_skip_space(s, p);
    lemma_skip_space(s, p);
    if spec_starts_with(s, q, seq!['/', '/']) {
        lemma_line_end(s, q + 2);
        lemma_trivia(s, spec_line_end(s, q + 2));
    } else if spec_starts_with(s, q, seq!['/', '*']) {
        lemma_comment_close(s, q + 2);
        if let Some(close) = spec_comment_close(s, q + 2) {
            lemma_trivia(s, close + 2);
        }
    }
}

/// Reads `text` if it stands after the trivia at `p`: whether it did, and
/// the position after it (or after the trivia).
pub open spec fn spec_consume(s: Seq<char>, p: int, text: Seq<char>) -> Result<
    (bool, int),
    (Seq<char>, int),
> {
    match spec_trivia(s, p) {
        Err(e) => Err(e),
        Ok(q) => if spec_starts_with(s, q, text) {
            Ok((true, q + text.len()))
        } else {
            Ok((false, q))
        },
    }
}

/// Reads `text` after the trivia at `p`, or stops there.
pub open spec fn spec_expect(s: Seq<char>, p: int, text: Seq<char>) -> Result<int, (Seq<char>, int)> {
    match spec_trivia(s, p) {
        Err(e) => Err(e),
        Ok(q) => if spec_starts_with(s, q, text) {
            Ok(q + text.len())
        } else {
            Err(("expected `"@ + text + "`"@, q))
        },
    }
}

pub proof fn lemma_consume(s: Seq<char>, p: int, text: Seq<char>)
    ensures
        spec_consume(s, p, text) matches Ok((found, q)) ==> q >= p && (found ==> q >= p
            + text.len()) && (p <= s.len() || found ==> q <= s.len()),
{
    lemma_trivia(s, p);
}

pub proof fn lemma_expect(s: Seq<char>, p: int, text: Seq<char>)
    ensures
        spec_expect(s, p, text) matches Ok(q) ==> p + text.len() <= q <= s.len(),
{
    lemma_trivia(s, p);
}

/// An identifier after the trivia at `p`.
pub open spec fn spec_identifier(s: Seq<char>, p: int) -> Result<
    (Seq<char>, int),
    (Seq<char>, int),
> {
    match spec_trivia(s, p) {
        Err(e) => Err(e),
        Ok(q) => if 0 <= q < s.len() && spec_is_ident_start(s[q]) {
            let end = spec_scan_ident(s, q + 1);
            Ok((s.subrange(q, end), end))
        } else {
            Err(("expected identifier"@, q))
        },
    }
}

pub proof fn lemma_identifier(s: Seq<char>, p: int)
    ensures
        spec_identifier(s, p) matches Ok((_, q)) ==> p < q <= s.len(),
{
    lemma_trivia(s, p);
    if let Ok(q) = spec_trivia(s, p) {
        lemma_scan_ident(s, q + 1);
    }
}

/// A decimal number after the trivia at `p`; one beyond `u64` stops at its
/// first digit.
pub open spec fn spec_number(s: Seq<char>, p: int) -> Result<(u64, int), (Seq<char>, int)> {
    match spec_trivia(s, p) {
        Err(e) => Err(e),
        Ok(q) => {
            let end = spec_scan_digits(s, q);
            if end == q {
                Err(("expected integer"@, q))
            } else if spec_digits_value(s.subrange(q, end)) > u64::MAX {
                Err(("integer out of range"@, q))
            } else {
                Ok((spec_digits_value(s.subrange(q, end)) as u64, end))
            }
        },
    }
}

pub proof fn lemma_number(s: Seq<char>, p: int)
    ensures
        spec_number(s, p) matches Ok((_, q)) ==> p < q <= s.len(),
{
    lemma_trivia(s, p);
    if let Ok(q) = spec_trivia(s, p) {
        lemma_scan_digits(s, q);
    }
}

// ---------------------------------------------------------------------------
// Attributes
// ---------------------------------------------------------------------------

/// `#[cid(...)]`, if it stands at `p`: sixteen hexadecimal digits, kept in
/// small letters.
pub open spec fn spec_cid_attr(s: Seq<char>, p: int) -> Result<
    (Option<Seq<char>>, int),
    (Seq<char>, int),
> {
    match spec_consume(s, p, seq!['#', '[', 'c', 'i', 'd', '(']) {
        Err(e) => Err(e),
        Ok((false, q)) => Ok((None, q)),
        Ok((true, q)) => match spec_trivia(s, q) {
            Err(e) => Err(e),
            Ok(start) => {
                let end = spec_scan_hex(s, start);
                let cid = s.subrange(start, end);
                if cid.len() == 0 {
                    Err(("expected hexadecimal C-ID"@, end))
                } else {
                    match spec_expect(s, end, seq![')', ']']) {
                        Err(e) => Err(e),
                        Ok(after) => if cid.len() != 16 {
                            Err(("C-ID must contain exactly 16 hexadecimal characters"@, after))
                        } else {
                            Ok((Some(cid.map_values(|c: char| spec_ascii_lower(c))), after))
                        },
                    }
                }
            },
        },
    }
}

/// `#[guard(owner.bit)]`, if it stands at `p`.
pub open spec fn spec_guard_attr(s: Seq<char>, p: int) -> Result<
    (Option<Seq<char>>, int),
    (Seq<char>, int),
> {
    match spec_consume(s, p, seq!['#', '[', 'g', 'u', 'a', 'r', 'd', '(']) {
        Err(e) => Err(e),
        Ok((false, q)) => Ok((None, q)),
        Ok((true, q)) => match spec_identifier(s, q) {
            Err(e) => Err(e),
            Ok((owner, q1)) => match spec_expect(s, q1, seq!['.']) {
                Err(e) => Err(e),
                Ok(q2) => match spec_identifier(s, q2) {
                    Err(e) => Err(e),
                    Ok((bit, q3)) => match spec_expect(s, q3, seq![')', ']']) {
                        Err(e) => Err(e),
                        Ok(q4) => Ok((Some(owner + seq!['.'] + bit), q4)),
                    },
                },
            },
        },
    }
}

/// `#[exact_len(n)]`, if it stands at `p`.
pub open spec fn spec_exact_len_attr(s: Seq<char>, p: int) -> Result<
    (Option<usize>, int),
    (Seq<char>, int),
> {
    match spec_consume(
        s,
        p,
        seq!['#', '[', 'e', 'x', 'a', 'c', 't', '_', 'l', 'e', 'n', '('],
    ) {
        Err(e) => Err(e),
        Ok((false, q)) => Ok((None, q)),
        Ok((true, q)) => match spec_number(s, q) {
            Err(e) => Err(e),
            Ok((n, q1)) => match spec_expect(s, q1, seq![')', ']']) {
                Err(e) => Err(e),
                Ok(q2) => if n > usize::MAX {
                    Err(("exact length does not fit usize"@, q2))
                } else {
                    Ok((Some(n as usize), q2))
                },
            },
        },
    }
}

pub proof fn lemma_attrs(s: Seq<char>, p: int)
    ensures
        spec_cid_attr(s, p) matches Ok((_, q)) ==> q >= p && (p <= s.len() ==> q <= s.len()),
        spec_guard_attr(s, p) matches Ok((_, q)) ==> q >= p && (p <= s.len() ==> q <= s.len()),
        spec_exact_len_attr(s, p) matches Ok((_, q)) ==> q >= p && (p <= s.len() ==> q
            <= s.len()),
{
    lemma_consume(s, p, seq!['#', '[', 'c', 'i', 'd', '(']);
    lemma_consume(s, p, seq!['#', '[', 'g', 'u', 'a', 'r', 'd', '(']);
    lemma_consume(s, p, seq!['#', '[', 'e', 'x', 'a', 'c', 't', '_', 'l', 'e', 'n', '(']);
    if let Ok((true, q)) = spec_consume(s, p, seq!['#', '[', 'c', 'i', 'd', '(']) {
        lemma_trivia(s, q);
        if let Ok(start) = spec_trivia(s, q) {
            lemma_scan_hex(s, start);
            lemma_expect(s, spec_scan_hex(s, start), seq![')', ']']);
        }
    }
    if let Ok((true, q)) = spec_consume(s, p, seq!['#', '[', 'g', 'u', 'a', 'r', 'd', '(']) {
        lemma_identifier(s, q);
        if let Ok((_, q1)) = spec_identifier(s, q) {
            lemma_expect(s, q1, seq!['.']);
            if let Ok(q2) = spec_expect(s, q1, seq!['.']) {
                lemma_identifier(s, q2);
                if let Ok((_, q3)) = spec_identifier(s, q2) {
                    lemma_expect(s, q3, seq![')', ']']);
                }
            }
        }
    }
    if let Ok((true, q)) = spec_consume(
        s,
        p,
        seq!['#', '[', 'e', 'x', 'a', 'c', 't', '_', 'l', 'e', 'n', '('],
    ) {
        lemma_number(s, q);
        if let Ok((_, q1)) = spec_number(s, q) {
            lemma_expect(s, q1, seq![')', ']']);
        }
    }
}

// ---------------------------------------------------------------------------
// Types
// ---------------------------------------------------------------------------

/// A type at `p`, nested `depth` deep: `bytes[n]`, `Optional<T>`, `Vec<T>`,
/// `Map<K, V>` or a name.
pub open spec fn spec_type_at(s: Seq<char>, p: int, depth: nat) -> Result<
    (TypeModel, int),
    (Seq<char>, int),
>
    decreases 101 - depth,
{
    if depth > MAX_NESTING_DEPTH {
        Err(("maximum type nesting depth exceeded"@, p))
    } else {
        match spec_identifier(s, p) {
            Err(e) => Err(e),
            Ok((name, q)) => if name == "bytes"@ {
                match spec_expect(s, q, seq!['[']) {
                    Err(e) => Err(e),
                    Ok(q1) => match spec_number(s, q1) {
                        Err(e) => Err(e),
                        Ok((n, q2)) => match spec_expect(s, q2, seq![']']) {
                            Err(e) => Err(e),
                            Ok(q3) => if n > usize::MAX {
                                Err(("fixed byte length does not fit usize"@, q3))
                            } else {
                                Ok((TypeModel::FixedBytes(n as nat), q3))
                            },
                        },
                    },
                }
            } else if name == "Optional"@ || name == "Vec"@ {
                match spec_expect(s, q, seq!['<']) {
                    Err(e) => Err(e),
                    Ok(q1) => match spec_type_at(s, q1, depth + 1) {
                        Err(e) => Err(e),
                        Ok((item, q2)) => match spec_expect(s, q2, seq!['>']) {
                            Err(e) => Err(e),
                            Ok(q3) => if name == "Optional"@ {
                                Ok((TypeModel::Optional(Box::new(item)), q3))
                            } else {
                                Ok((TypeModel::Vec(Box::new(item)), q3))
                            },
                        },
                    },
                }
            } else if name == "Map"@ {
                match spec_expect(s, q, seq!['<']) {
                    Err(e) => Err(e),
                    Ok(q1) => match spec_type_at(s, q1, depth + 1) {
                        Err(e) => Err(e),
                        Ok((key, q2)) => match spec_expect(s, q2, seq![',']) {
                            Err(e) => Err(e),
                            Ok(q3) => match spec_type_at(s, q3, depth + 1) {
                                Err(e) => Err(e),
                                Ok((value, q4)) => match spec_expect(s, q4, seq!['>']) {
                                    Err(e) => Err(e),
                                    Ok(q5) => Ok(
                                        (TypeModel::Mapping(Box::new(key), Box::new(value)), q5),
                                    ),
                                },
                            },
                        },
                    },
                }
            } else {
                Ok((TypeModel::Primitive(name), q))
            },
        }
    }
}

pub proof fn lemma_type_at(s: Seq<char>, p: int, depth: nat)
    ensures
        spec_type_at(s, p, depth) matches Ok((_, q)) ==> p < q <= s.len(),
    decreases 101 - depth,
{
    lemma_identifier(s, p);
    if depth <= MAX_NESTING_DEPTH {
        if let Ok((name, q)) = spec_identifier(s, p) {
            lemma_expect(s, q, seq!['[']);
            lemma_expect(s, q, seq!['<']);
            if let Ok(q1) = spec_expect(s, q, seq!['[']) {
                lemma_number(s, q1);
                if let Ok((_, q2)) = spec_number(s, q1) {
                    lemma_expect(s, q2, seq![']']);
                }
            }
            if let Ok(q1) = spec_expect(s, q, seq!['<']) {
                lemma_type_at(s, q1, depth + 1);
                if let Ok((_, q2)) = spec_type_at(s, q1, depth + 1) {
                    lemma_expect(s, q2, seq!['>']);
                    lemma_expect(s, q2, seq![',']);
                    if let Ok(q3) = spec_expect(s, q2, seq![',']) {
                        lemma_type_at(s, q3, depth + 1);
                        if let Ok((_, q4)) = spec_type_at(s, q3, depth + 1) {
                            lemma_expect(s, q4, seq!['>']);
                        }
                    }
                }
            }
        }
    }
}

// ---------------------------------------------------------------------------
// Fields
// ---------------------------------------------------------------------------

/// A field: `#[guard(..)]`, a name, `:`, a type, `#[exact_len(..)]`.
pub open spec fn spec_field(s: Seq<char>, p: int) -> Result<(FieldModel, int), (Seq<char>, int)> {
    match spec_guard_attr(s, p) {
        Err(e) => Err(e),
        Ok((guard, q1)) => match spec_identifier(s, q1) {
            Err(e) => Err(e),
            Ok((name, q2)) => match spec_expect(s, q2, seq![':']) {
                Err(e) => Err(e),
                Ok(q3) => match spec_type_at(s, q3, 0) {
                    Err(e) => Err(e),
                    Ok((ty, q4)) => match spec_exact_len_attr(s, q4) {
                        Err(e) => Err(e),
                        Ok((exact_len, q5)) => Ok(
                            (
                                FieldModel {
                                    name,
                                    guard,
                                    exact_len,
                                    ty,
                                    deprecated: None,
                                },
                                q5,
                            ),
                        ),
                    },
                },
            },
        },
    }
}

pub proof fn lemma_field(s: Seq<char>, p: int)
    ensures
        spec_field(s, p) matches Ok((_, q)) ==> p < q <= s.len(),
{
    lemma_attrs(s, p);
    if let Ok((_, q1)) = spec_guard_attr(s, p) {
        lemma_identifier(s, q1);
        if let Ok((_, q2)) = spec_identifier(s, q1) {
            lemma_expect(s, q2, seq![':']);
            if let Ok(q3) = spec_expect(s, q2, seq![':']) {
                lemma_type_at(s, q3, 0);
                if let Ok((_, q4)) = spec_type_at(s, q3, 0) {
                    lemma_attrs(s, q4);
                }
            }
        }
    }
}

/// The fields after an opening `{`, up to and with the closing `}`, each
/// but the last followed by `,`; `acc` holds those read so far.
pub open spec fn spec_fields(s: Seq<char>, p: int, acc: Seq<FieldModel>) -> Result<
    (Seq<FieldModel>, int),
    (Seq<char>, int),
>
    decreases s.len() - p,
{
    match spec_consume(s, p, seq!['}']) {
        Err(e) => Err(e),
        Ok((true, q)) => Ok((acc, q)),
        Ok((false, q)) => match spec_field(s, q) {
            Err(e) => Err(e),
            Ok((field, q1)) => match spec_consume(s, q1, seq!['}']) {
                Err(e) => Err(e),
                Ok((true, q2)) => Ok((acc.push(field), q2)),
                Ok((false, q2)) => match spec_expect(s, q2, seq![',']) {
                    Err(e) => Err(e),
                    Ok(q3) => {
                        proof {
                            lemma_consume(s, p, seq!['}']);
                            lemma_field(s, q);
                            lemma_consume(s, q1, seq!['}']);
                            lemma_expect(s, q2, seq![',']);
                        }
                        spec_fields(s, q3, acc.push(field))
                    },
                },
            },
        },
    }
}

pub proof fn lemma_fields(s: Seq<char>, p: int, acc: Seq<FieldModel>)
    ensures
        spec_fields(s, p, acc) matches Ok((_, q)) ==> p < q <= s.len(),
    decreases s.len() - p,
{
    lemma_consume(s, p, seq!['}']);
    if let Ok((false, q)) = spec_consume(s, p, seq!['}']) {
        lemma_field(s, q);
        if let Ok((field, q1)) = spec_field(s, q) {
            lemma_consume(s, q1, seq!['}']);
            if let Ok((false, q2)) = spec_consume(s, q1, seq!['}']) {
                lemma_expect(s, q2, seq![',']);
                if let Ok(q3) = spec_expect(s, q2, seq![',']) {
                    lemma_fields(s, q3, acc.push(field));
                }
            }
        }
    }
}

// ---------------------------------------------------------------------------
// Enums and flags
// ---------------------------------------------------------------------------

/// An enum variant: `#[cid(..)]`, a name, fields in braces, `= value`, `,`;
/// all but the name may be left out.
pub open spec fn spec_variant(s: Seq<char>, p: int) -> Result<
    (VariantModel, int),
    (Seq<char>, int),
> {
    match spec_cid_attr(s, p) {
        Err(e) => Err(e),
        Ok((cid, q1)) => match spec_identifier(s, q1) {
            Err(e) => Err(e),
            Ok((name, q2)) => {
                let fields = match spec_consume(s, q2, seq!['{']) {
                    Err(e) => Err(e),
                    Ok((true, q3)) => spec_fields(s, q3, seq![]),
                    Ok((false, q3)) => Ok((seq![], q3)),
                };
                match fields {
                    Err(e) => Err(e),
                    Ok((fields, q4)) => {
                        let value = match spec_consume(s, q4, seq!['=']) {
                            Err(e) => Err(e),
                            Ok((true, q5)) => match spec_number(s, q5) {
                                Err(e) => Err(e),
                                Ok((v, q6)) => Ok((Some(v), q6)),
                            },
                            Ok((false, q5)) => Ok((None, q5)),
                        };
                        match value {
                            Err(e) => Err(e),
                            Ok((value, q7)) => match spec_consume(s, q7, seq![',']) {
                                Err(e) => Err(e),
                                Ok((_, q8)) => Ok(
                                    (VariantModel { name, cid, fields, value }, q8),
                                ),
                            },
                        }
                    },
                }
            },
        },
    }
}

pub proof fn lemma_variant(s: Seq<char>, p: int)
    ensures
        spec_variant(s, p) matches Ok((_, q)) ==> p < q <= s.len(),
{
    lemma_attrs(s, p);
    if let Ok((_, q1)) = spec_cid_attr(s, p) {
        lemma_identifier(s, q1);
        if let Ok((_, q2)) = spec_identifier(s, q1) {
            lemma_consume(s, q2, seq!['{']);
            if let Ok((true, q3)) = spec_consume(s, q2, seq!['{']) {
                lemma_fields(s, q3, seq![]);
            }
            let fields = match spec_consume(s, q2, seq!['{']) {
                Err(e) => Err(e),
                Ok((true, q3)) => spec_fields(s, q3, seq![]),
                Ok((false, q3)) => Ok((seq![], q3)),
            };
            if let Ok((_, q4)) = fields {
                lemma_consume(s, q4, seq!['=']);
                if let Ok((true, q5)) = spec_consume(s, q4, seq!['=']) {
                    lemma_number(s, q5);
                }
                let value = match spec_consume(s, q4, seq!['=']) {
                    Err(e) => Err(e),
                    Ok((true, q5)) => match spec_number(s, q5) {
                        Err(e) => Err(e),
                        Ok((v, q6)) => Ok((Some(v), q6)),
                    },
                    Ok((false, q5)) => Ok((None, q5)),
                };
                if let Ok((_, q7)) = value {
                    lemma_consume(s, q7, seq![',']);
                }
            }
        }
    }
}

/// The variants after an opening `{`, up to and with the closing `}`.
pub open spec fn spec_variants(s: Seq<char>, p: int, acc: Seq<VariantModel>) -> Result<
    (Seq<VariantModel>, int),
    (Seq<char>, int),
>
    decreases s.len() - p,
{
    match spec_consume(s, p, seq!['}']) {
        Err(e) => Err(e),
        Ok((true, q)) => Ok((acc, q)),
        Ok((false, q)) => match spec_variant(s, q) {
            Err(e) => Err(e),
            Ok((variant, q1)) => {
                proof {
                    lemma_consume(s, p, seq!['}']);
                    lemma_variant(s, q);
                }
                spec_variants(s, q1, acc.push(variant))
            },
        },
    }
}

/// An enum after `enum`: its name and its variants in braces.
#[verifier::opaque]
pub open spec fn spec_enum(s: Seq<char>, p: int) -> Result<(EnumModel, int), (Seq<char>, int)> {
    match spec_identifier(s, p) {
        Err(e) => Err(e),
        Ok((name, q1)) => match spec_expect(s, q1, seq!['{']) {
            Err(e) => Err(e),
            Ok(q2) => match spec_variants(s, q2, seq![]) {
                Err(e) => Err(e),
                Ok((variants, q3)) => Ok((EnumModel { name, variants }, q3)),
            },
        },
    }
}

/// A flags bit: a name, `= position`, an optional `,`.
pub open spec fn spec_bit(s: Seq<char>, p: int) -> Result<(BitModel, int), (Seq<char>, int)> {
    match spec_identifier(s, p) {
        Err(e) => Err(e),
        Ok((name, q1)) => match spec_expect(s, q1, seq!['=']) {
            Err(e) => Err(e),
            Ok(q2) => match spec_number(s, q2) {
                Err(e) => Err(e),
                Ok((value, q3)) => match spec_consume(s, q3, seq![',']) {
                    Err(e) => Err(e),
                    Ok((_, q4)) => Ok((BitModel { name, value }, q4)),
                },
            },
        },
    }
}

pub proof fn lemma_bit(s: Seq<char>, p: int)
    ensures
        spec_bit(s, p) matches Ok((_, q)) ==> p < q <= s.len(),
{
    lemma_identifier(s, p);
    if let Ok((_, q1)) = spec_identifier(s, p) {
        lemma_expect(s, q1, seq!['=']);
        if let Ok(q2) = spec_expect(s, q1, seq!['=']) {
            lemma_number(s, q2);
            if let Ok((_, q3)) = spec_number(s, q2) {
                lemma_consume(s, q3, seq![',']);
            }
        }
    }
}

/// The bits after an opening `{`, up to and with the closing `}`.
pub open spec fn spec_bits(s: Seq<char>, p: int, acc: Seq<BitModel>) -> Result<
    (Seq<BitModel>, int),
    (Seq<char>, int),
>
    decreases s.len() - p,
{
    match spec_consume(s, p, seq!['}']) {
        Err(e) => Err(e),
        Ok((true, q)) => Ok((acc, q)),
        Ok((false, q)) => match spec_bit(s, q) {
            Err(e) => Err(e),
            Ok((bit, q1)) => {
                proof {
                    lemma_consume(s, p, seq!['}']);
                    lemma_bit(s, q);
                }
                spec_bits(s, q1, acc.push(bit))
            },
        },
    }
}

/// A flags type after `#[flags(underlying)] enum`: its name and its bits.
#[verifier::opaque]
pub open spec fn spec_flags(s: Seq<char>, p: int, underlying: Seq<char>) -> Result<
    (FlagsModel, int),
    (Seq<char>, int),
> {
    match spec_identifier(s, p) {
        Err(e) => Err(e),
        Ok((name, q1)) => match spec_expect(s, q1, seq!['{']) {
            Err(e) => Err(e),
            Ok(q2) => match spec_bits(s, q2, seq![]) {
                Err(e) => Err(e),
                Ok((bits, q3)) => Ok((FlagsModel { name, underlying, bits }, q3)),
            },
        },
    }
}

// ---------------------------------------------------------------------------
// Items and schemas
// ---------------------------------------------------------------------------

/// A struct after `struct`: its name and its fields in braces.
#[verifier::opaque]
pub open spec fn spec_struct(s: Seq<char>, p: int, cid: Option<Seq<char>>) -> Result<
    (StructModel, int),
    (Seq<char>, int),
> {
    match spec_identifier(s, p) {
        Err(e) => Err(e),
        Ok((name, q1)) => match spec_expect(s, q1, seq!['{']) {
            Err(e) => Err(e),
            Ok(q2) => match spec_fields(s, q2, seq![]) {
                Err(e) => Err(e),
                Ok((fields, q3)) => Ok((StructModel { name, cid, fields }, q3)),
            },
        },
    }
}

/// An alias after `type`: `Name = T #[exact_len(n)];`, the constraint and
/// the `;` optional.
#[verifier::opaque]
pub open spec fn spec_alias(s: Seq<char>, p: int) -> Result<(AliasModel, int), (Seq<char>, int)> {
    match spec_identifier(s, p) {
        Err(e) => Err(e),
        Ok((name, q1)) => match spec_expect(s, q1, seq!['=']) {
            Err(e) => Err(e),
            Ok(q2) => match spec_type_at(s, q2, 0) {
                Err(e) => Err(e),
                Ok((ty, q3)) => match spec_exact_len_attr(s, q3) {
                    Err(e) => Err(e),
                    Ok((exact_len, q4)) => match spec_consume(s, q4, seq![';']) {
                        Err(e) => Err(e),
                        Ok((_, q5)) => Ok((AliasModel { name, ty, exact_len }, q5)),
                    },
                },
            },
        },
    }
}

/// The keywords that start items.
pub open spec fn kw_type() -> Seq<char> {
    seq!['t', 'y', 'p', 'e']
}

pub open spec fn kw_flags() -> Seq<char> {
    seq!['#', '[', 'f', 'l', 'a', 'g', 's', '(']
}

pub open spec fn kw_struct() -> Seq<char> {
    seq!['s', 't', 'r', 'u', 'c', 't']
}

pub open spec fn kw_enum() -> Seq<char> {
    seq!['e', 'n', 'u', 'm']
}

/// A flags type after `#[flags(`: `underlying)] enum`, then the flags.
#[verifier::opaque]
pub open spec fn spec_flags_item(s: Seq<char>, p: int) -> Result<
    (ItemModel, int),
    (Seq<char>, int),
> {
    match spec_identifier(s, p) {
        Err(e) => Err(e),
        Ok((underlying, q1)) => match spec_expect(s, q1, seq![')', ']']) {
            Err(e) => Err(e),
            Ok(q2) => match spec_expect(s, q2, kw_enum()) {
                Err(e) => Err(e),
                Ok(q3) => match spec_flags(s, q3, underlying) {
                    Err(e) => Err(e),
                    Ok((x, q)) => Ok((ItemModel::Flags(x), q)),
                },
            },
        },
    }
}

/// A struct or an enum, after the trivia and attributes at `p`.
#[verifier::opaque]
pub open spec fn spec_struct_or_enum(s: Seq<char>, p: int, cid: Option<Seq<char>>) -> Result<
    (ItemModel, int),
    (Seq<char>, int),
> {
    match spec_consume(s, p, kw_struct()) {
        Err(e) => Err(e),
        Ok((true, q1)) => match spec_struct(s, q1, cid) {
            Err(e) => Err(e),
            Ok((x, q)) => Ok((ItemModel::Struct(x), q)),
        },
        Ok((false, q1)) => match spec_consume(s, q1, kw_enum()) {
            Err(e) => Err(e),
            Ok((true, q2)) => match spec_enum(s, q2) {
                Err(e) => Err(e),
                Ok((x, q)) => Ok((ItemModel::Enum(x), q)),
            },
            Ok((false, q2)) => Err(
                ("expected `type`, `struct`, `enum` or `#[flags(...)] enum`"@, q2),
            ),
        },
    }
}

/// An item: an optional `#[cid(..)]`, then an alias, a flags type, a struct
/// or an enum.
#[verifier::opaque]
pub open spec fn spec_item(s: Seq<char>, p: int) -> Result<(ItemModel, int), (Seq<char>, int)> {
    match spec_cid_attr(s, p) {
        Err(e) => Err(e),
        Ok((cid, q0)) => match spec_consume(s, q0, kw_type()) {
            Err(e) => Err(e),
            Ok((true, q1)) => match spec_alias(s, q1) {
                Err(e) => Err(e),
                Ok((x, q)) => Ok((ItemModel::Alias(x), q)),
            },
            Ok((false, q1)) => match spec_consume(s, q1, kw_flags()) {
                Err(e) => Err(e),
                Ok((true, q2)) => spec_flags_item(s, q2),
                Ok((false, q2)) => spec_struct_or_enum(s, q2, cid),
            },
        },
    }
}

pub proof fn lemma_alias(s: Seq<char>, p: int)
    ensures
        spec_alias(s, p) matches Ok((_, q)) ==> p < q <= s.len(),
{
    reveal(spec_alias);
    lemma_identifier(s, p);
    if let Ok((_, q1)) = spec_identifier(s, p) {
        lemma_expect(s, q1, seq!['=']);
        if let Ok(q2) = spec_expect(s, q1, seq!['=']) {
            lemma_type_at(s, q2, 0);
            if let Ok((_, q3)) = spec_type_at(s, q2, 0) {
                lemma_attrs(s, q3);
                if let Ok((_, q4)) = spec_exact_len_attr(s, q3) {
                    lemma_consume(s, q4, seq![';']);
                }
            }
        }
    }
}

pub proof fn lemma_variants(s: Seq<char>, p: int, acc: Seq<VariantModel>)
    ensures
        spec_variants(s, p, acc) matches Ok((_, q)) ==> p < q <= s.len(),
    decreases s.len() - p,
{
    lemma_consume(s, p, seq!['}']);
    if let Ok((false, q)) = spec_consume(s, p, seq!['}']) {
        lemma_variant(s, q);
        if let Ok((variant, q1)) = spec_variant(s, q) {
            lemma_variants(s, q1, acc.push(variant));
        }
    }
}

pub proof fn lemma_bits(s: Seq<char>, p: int, acc: Seq<BitModel>)
    ensures
        spec_bits(s, p, acc) matches Ok((_, q)) ==> p < q <= s.len(),
    decreases s.len() - p,
{
    lemma_consume(s, p, seq!['}']);
    if let Ok((false, q)) = spec_consume(s, p, seq!['}']) {
        lemma_bit(s, q);
        if let Ok((bit, q1)) = spec_bit(s, q) {
            lemma_bits(s, q1, acc.push(bit));
        }
    }
}

pub proof fn lemma_flags_item(s: Seq<char>, p: int)
    ensures
        spec_flags_item(s, p) matches Ok((_, q)) ==> p < q <= s.len(),
{
    reveal(spec_flags_item);
    reveal(spec_flags);
    lemma_identifier(s, p);
    if let Ok((underlying, q1)) = spec_identifier(s, p) {
        lemma_expect(s, q1, seq![')', ']']);
        if let Ok(q2) = spec_expect(s, q1, seq![')', ']']) {
            lemma_expect(s, q2, kw_enum());
            if let Ok(q3) = spec_expect(s, q2, kw_enum()) {
                lemma_identifier(s, q3);
                if let Ok((_, q4)) = spec_identifier(s, q3) {
                    lemma_expect(s, q4, seq!['{']);
                    if let Ok(q5) = spec_expect(s, q4, seq!['{']) {
                        lemma_bits(s, q5, seq![]);
                    }
                }
            }
        }
    }
}

pub proof fn lemma_struct_or_enum(s: Seq<char>, p: int, cid: Option<Seq<char>>)
    ensures
        spec_struct_or_enum(s, p, cid) matches Ok((_, q)) ==> p < q <= s.len(),
{
    reveal(spec_struct_or_enum);
    reveal(spec_struct);
    reveal(spec_enum);
    lemma_consume(s, p, kw_struct());
    if let Ok((true, q1)) = spec_consume(s, p, kw_struct()) {
        lemma_identifier(s, q1);
        if let Ok((_, q2)) = spec_identifier(s, q1) {
            lemma_expect(s, q2, seq!['{']);
            if let Ok(q3) = spec_expect(s, q2, seq!['{']) {
                lemma_fields(s, q3, seq![]);
            }
        }
    }
    if let Ok((false, q1)) = spec_consume(s, p, kw_struct()) {
        lemma_consume(s, q1, kw_enum());
        if let Ok((true, q2)) = spec_consume(s, q1, kw_enum()) {
            lemma_identifier(s, q2);
            if let Ok((_, q3)) = spec_identifier(s, q2) {
                lemma_expect(s, q3, seq!['{']);
                if let Ok(q4) = spec_expect(s, q3, seq!['{']) {
                    lemma_variants(s, q4, seq![]);
                }
            }
        }
    }
}

pub proof fn lemma_item(s: Seq<char>, p: int)
    ensures
        spec_item(s, p) matches Ok((_, q)) ==> p < q <= s.len(),
{
    reveal(spec_item);
    lemma_attrs(s, p);
    if let Ok((cid, q0)) = spec_cid_attr(s, p) {
        lemma_consume(s, q0, kw_type());
        if let Ok((true, q1)) = spec_consume(s, q0, kw_type()) {
            lemma_alias(s, q1);
        }
        if let Ok((false, q1)) = spec_consume(s, q0, kw_type()) {
            lemma_consume(s, q1, kw_flags());
            if let Ok((true, q2)) = spec_consume(s, q1, kw_flags()) {
                lemma_flags_item(s, q2);
            }
            if let Ok((false, q2)) = spec_consume(s, q1, kw_flags()) {
                lemma_struct_or_enum(s, q2, cid);
            }
        }
    }
}

/// The items from `p` to the end of the text.
pub open spec fn spec_items(s: Seq<char>, p: int, acc: Seq<ItemModel>) -> Result<
    Seq<ItemModel>,
    (Seq<char>, int),
>
    decreases s.len() - p,
{
    match spec_trivia(s, p) {
        Err(e) => Err(e),
        Ok(q) => if q >= s.len() {
            Ok(acc)
        } else {
            match spec_item(s, q) {
                Err(e) => Err(e),
                Ok((item, q1)) => {
                    proof {
                        lemma_trivia(s, p);
                        lemma_item(s, q);
                    }
                    spec_items(s, q1, acc.push(item))
                },
            }
        },
    }
}

/// A schema: `#[version(n)]`, `n` a `u16`, then its items.
pub open spec fn spec_schema(s: Seq<char>) -> Result<SchemaModel, (Seq<char>, int)> {
    match spec_expect(s, 0, seq!['#', '[', 'v', 'e', 'r', 's', 'i', 'o', 'n', '(']) {
        Err(e) => Err(e),
        Ok(q1) => match spec_number(s, q1) {
            Err(e) => Err(e),
            Ok((version, q2)) => if version > u16::MAX {
                Err(("version must fit u16"@, q2))
            } else {
                match spec_expect(s, q2, seq![')', ']']) {
                    Err(e) => Err(e),
                    Ok(q3) => match spec_items(s, q3, seq![]) {
                        Err(e) => Err(e),
                        Ok(items) => Ok(
                            SchemaModel {
                                version: version as u16,
                                items,
                                comments: seq![],
                                item_comments: seq![],
                                functions: seq![],
                            },
                        ),
                    },
                }
            },
        },
    }
}

} // verus!
