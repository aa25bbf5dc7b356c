//! The schema parser: reads a schema text by the grammar of
//! [`crate::grammar`] and validates what it read.

use vstd::prelude::*;
use vstd::string::StrSliceExecFns;
use vstd::utf8::{encode_scalar, encode_utf8};

use crate::ast::{
    fields_model, items_model, text_model, Alias, BitModel, FunctionModel, Item, ItemModel, Schema,
    Struct, Enum, EnumModel, EnumVariant, Field, FieldModel, Flags, FlagsBit, FlagsModel, Type,
    VariantModel,
};
use crate::error::ParseError;
use crate::grammar::{
    char_is_whitespace, lemma_comment_close, lemma_consume, lemma_expect, lemma_field,
    spec_ascii_lower, spec_comment_close, spec_consume, spec_bit, spec_bits, spec_cid_attr,
    spec_digits_value, spec_enum, spec_flags, spec_variant, spec_variants, lemma_bit, lemma_variant,
    kw_enum, kw_flags, kw_struct, kw_type, lemma_item, spec_alias, spec_flags_item, spec_item,
    spec_items, spec_schema, spec_struct, spec_struct_or_enum, spec_exact_len_attr, spec_expect,
    spec_field, spec_fields, spec_guard_attr, spec_identifier, spec_is_ascii_digit,
    spec_is_ascii_hexdigit, spec_is_ident_char, spec_is_ident_start, spec_line_end, spec_number,
    spec_scan_digits, spec_scan_hex, spec_scan_ident, spec_skip_space, spec_starts_with,
    spec_trivia, spec_type_at,
};
use crate::limits::MAX_NESTING_DEPTH;
use crate::text::{chars_of, push_char, text_is};
use crate::validate::{spec_validate, validate};

verus! {

// ---------------------------------------------------------------------------
// What a reading returns
// ---------------------------------------------------------------------------

/// `r` is a position reached as `expected` says, or the stop it says; any
/// position lies within a text of `len` characters.
pub open spec fn spec_reached(
    r: Result<usize, ParseError>,
    expected: Result<int, (Seq<char>, int)>,
    len: int,
) -> bool {
    &&& match expected {
        Ok(q) => r matches Ok(x) && x == q,
        Err((m, at)) => r matches Err(e) && e.message@ == m && e.position == at,
    }
    &&& r matches Ok(x) ==> x <= len
    &&& r matches Err(e) ==> e.position <= len
}

/// `r` is the value and position `expected` says, or the stop it says.
pub open spec fn spec_read<X: View>(
    r: Result<(X, usize), ParseError>,
    expected: Result<(X::V, int), (Seq<char>, int)>,
    len: int,
) -> bool {
    &&& match expected {
        Ok((v, q)) => r matches Ok((x, y)) && x@ == v && y == q,
        Err((m, at)) => r matches Err(e) && e.message@ == m && e.position == at,
    }
    &&& r matches Ok((_, y)) ==> y <= len
    &&& r matches Err(e) ==> e.position <= len
}

/// `r` is the fields and position `expected` says, or the stop it says.
pub open spec fn spec_read_fields(
    r: Result<(Vec<Field>, usize), ParseError>,
    expected: Result<(Seq<FieldModel>, int), (Seq<char>, int)>,
    len: int,
) -> bool {
    &&& match expected {
        Ok((v, q)) => r matches Ok((x, y)) && fields_model(x@) == v && y == q,
        Err((m, at)) => r matches Err(e) && e.message@ == m && e.position == at,
    }
    &&& r matches Ok((_, y)) ==> y <= len
    &&& r matches Err(e) ==> e.position <= len
}

/// `r` is the optional text and position `expected` says, or the stop it
/// says.
pub open spec fn spec_read_text(
    r: Result<(Option<String>, usize), ParseError>,
    expected: Result<(Option<Seq<char>>, int), (Seq<char>, int)>,
    len: int,
) -> bool {
    &&& match expected {
        Ok((v, q)) => r matches Ok((x, y)) && text_model(x) == v && y == q,
        Err((m, at)) => r matches Err(e) && e.message@ == m && e.position == at,
    }
    &&& r matches Ok((_, y)) ==> y <= len
    &&& r matches Err(e) ==> e.position <= len
}

fn stop(message: &str, at: usize) -> (e: ParseError)
    ensures
        e.message@ == message@,
        e.position == at,
{
    ParseError { message: message.to_owned(), position: at }
}

// ---------------------------------------------------------------------------
// Characters and scanning
// ---------------------------------------------------------------------------

fn is_ascii_digit(c: char) -> (r: bool)
    ensures
        r == spec_is_ascii_digit(c),
{
    '0' <= c && c <= '9'
}

fn is_ascii_hexdigit(c: char) -> (r: bool)
    ensures
        r == spec_is_ascii_hexdigit(c),
{
    is_ascii_digit(c) || ('A' <= c && c <= 'F') || ('a' <= c && c <= 'f')
}

fn is_ident_start(c: char) -> (r: bool)
    ensures
        r == spec_is_ident_start(c),
{
    ('A' <= c && c <= 'Z') || ('a' <= c && c <= 'z') || c == '_'
}

fn is_ident_char(c: char) -> (r: bool)
    ensures
        r == spec_is_ident_char(c),
{
    is_ident_start(c) || is_ascii_digit(c)
}

pub(crate) fn ascii_lower(c: char) -> (r: char)
    ensures
        r == spec_ascii_lower(c),
{
    if 'A' <= c && c <= 'Z' {
        ((c as u8) + 32) as char
    } else {
        c
    }
}

/// Whether `text` stands in `s` at `p`.
fn starts_with(s: &Vec<char>, p: usize, text: &str) -> (r: bool)
    requires
        p <= s@.len(),
    ensures
        r == spec_starts_with(s@, p as int, text@),
{
    let t = chars_of(text);
    let len = s.len();
    if t.len() > len - p {
        return false;
    }
    let mut i: usize = 0;
    while i < t.len()
        invariant
            len == s@.len(),
            p + t@.len() <= s@.len(),
            i <= t@.len(),
            t@ == text@,
            forall|j: int| 0 <= j < i ==> s@[p + j] == t@[j],
        decreases t@.len() - i,
    {
        if s[p + i] != t[i] {
            assert(s@.subrange(p as int, p + t@.len())[i as int] != text@[i as int]);
            return false;
        }
        i = i + 1;
    }
    assert(s@.subrange(p as int, p + t@.len()) =~= text@);
    true
}

/// The characters of `s` from `from` to `to`.
fn chars_to_string(s: &Vec<char>, from: usize, to: usize) -> (r: String)
    requires
        from <= to <= s@.len(),
    ensures
        r@ == s@.subrange(from as int, to as int),
{
    let mut out = String::new();
    let mut i = from;
    while i < to
        invariant
            from <= i <= to <= s@.len(),
            out@ == s@.subrange(from as int, i as int),
        decreases to - i,
    {
        push_char(&mut out, s[i]);
        assert(out@ =~= s@.subrange(from as int, i + 1));
        i = i + 1;
    }
    out
}

/// The characters of `s` from `from` to `to`, ASCII capitals made small.
fn lowered_string(s: &Vec<char>, from: usize, to: usize) -> (r: String)
    requires
        from <= to <= s@.len(),
    ensures
        r@ == s@.subrange(from as int, to as int).map_values(|c: char| spec_ascii_lower(c)),
{
    let mut out = String::new();
    let mut i = from;
    while i < to
        invariant
            from <= i <= to <= s@.len(),
            out@ == s@.subrange(from as int, i as int).map_values(|c: char| spec_ascii_lower(c)),
        decreases to - i,
    {
        push_char(&mut out, ascii_lower(s[i]));
        assert(out@ =~= s@.subrange(from as int, i + 1).map_values(|c: char| spec_ascii_lower(c)));
        i = i + 1;
    }
    out
}

fn skip_space(s: &Vec<char>, p: usize) -> (q: usize)
    requires
        p <= s@.len(),
    ensures
        q == spec_skip_space(s@, p as int),
        p <= q <= s@.len(),
{
    let mut q = p;
    while q < s.len() && char_is_whitespace(s[q])
        invariant
            p <= q <= s@.len(),
            spec_skip_space(s@, p as int) == spec_skip_space(s@, q as int),
        decreases s@.len() - q,
    {
        q = q + 1;
    }
    q
}

fn line_end(s: &Vec<char>, p: usize) -> (q: usize)
    requires
        p <= s@.len(),
    ensures
        q == spec_line_end(s@, p as int),
        p <= q <= s@.len(),
{
    let mut q = p;
    while q < s.len() && s[q] != '\n'
        invariant
            p <= q <= s@.len(),
            spec_line_end(s@, p as int) == spec_line_end(s@, q as int),
        decreases s@.len() - q,
    {
        q = q + 1;
    }
    q
}

fn comment_close(s: &Vec<char>, p: usize) -> (r: Option<usize>)
    requires
        p <= s@.len(),
    ensures
        match spec_comment_close(s@, p as int) {
            Some(q) => r matches Some(x) && x == q,
            None => r is None,
        },
{
    let len = s.len();
    let mut i = p;
    while len - i >= 2
        invariant
            len == s@.len(),
            p <= i <= s@.len(),
            spec_comment_close(s@, p as int) == spec_comment_close(s@, i as int),
        decreases s@.len() - i,
    {
        if s[i] == '*' && s[i + 1] == '/' {
            return Some(i);
        }
        i = i + 1;
    }
    None
}

fn scan_ident(s: &Vec<char>, p: usize) -> (q: usize)
    requires
        p <= s@.len(),
    ensures
        q == spec_scan_ident(s@, p as int),
        p <= q <= s@.len(),
{
    let mut q = p;
    while q < s.len() && is_ident_char(s[q])
        invariant
            p <= q <= s@.len(),
            spec_scan_ident(s@, p as int) == spec_scan_ident(s@, q as int),
        decreases s@.len() - q,
    {
        q = q + 1;
    }
    q
}

fn scan_digits(s: &Vec<char>, p: usize) -> (q: usize)
    requires
        p <= s@.len(),
    ensures
        q == spec_scan_digits(s@, p as int),
        p <= q <= s@.len(),
        forall|i: int| p <= i < q ==> spec_is_ascii_digit(#[trigger] s@[i]),
{
    let mut q = p;
    while q < s.len() && is_ascii_digit(s[q])
        invariant
            p <= q <= s@.len(),
            spec_scan_digits(s@, p as int) == spec_scan_digits(s@, q as int),
            forall|i: int| p <= i < q ==> spec_is_ascii_digit(#[trigger] s@[i]),
        decreases s@.len() - q,
    {
        q = q + 1;
    }
    q
}

fn scan_hex(s: &Vec<char>, p: usize) -> (q: usize)
    requires
        p <= s@.len(),
    ensures
        q == spec_scan_hex(s@, p as int),
        p <= q <= s@.len(),
{
    let mut q = p;
    while q < s.len() && is_ascii_hexdigit(s[q])
        invariant
            p <= q <= s@.len(),
            spec_scan_hex(s@, p as int) == spec_scan_hex(s@, q as int),
        decreases s@.len() - q,
    {
        q = q + 1;
    }
    q
}

/// A longer run of digits is worth at least as much as its beginning.
pub proof fn lemma_digits_prefix(d: Seq<char>, k: int)
    requires
        0 <= k <= d.len(),
    ensures
        spec_digits_value(d.take(k)) <= spec_digits_value(d),
    decreases d.len(),
{
    if k < d.len() {
        lemma_digits_prefix(d.drop_last(), k);
        assert(d.drop_last().take(k) =~= d.take(k));
    } else {
        assert(d.take(k) =~= d);
    }
}

/// The value of the digits of `s` from `from` to `to`, if it fits `u64`.
fn digits_value(s: &Vec<char>, from: usize, to: usize) -> (r: Option<u64>)
    requires
        from <= to <= s@.len(),
        forall|i: int| from <= i < to ==> spec_is_ascii_digit(#[trigger] s@[i]),
    ensures
        match r {
            Some(v) => v == spec_digits_value(s@.subrange(from as int, to as int)),
            None => spec_digits_value(s@.subrange(from as int, to as int)) > u64::MAX,
        },
{
    let ghost digits = s@.subrange(from as int, to as int);
    let mut value: u64 = 0;
    let mut i = from;
    assert(digits.take(0) =~= Seq::<char>::empty());
    while i < to
        invariant
            from <= i <= to <= s@.len(),
            digits == s@.subrange(from as int, to as int),
            forall|j: int| from <= j < to ==> spec_is_ascii_digit(#[trigger] s@[j]),
            value == spec_digits_value(digits.take(i - from)),
        decreases to - i,
    {
        let c = s[i];
        assert(spec_is_ascii_digit(s@[i as int]));
        let d = (c as u32 - 48) as u64;
        let ghost longer = digits.take(i + 1 - from);
        proof {
            assert(longer.drop_last() =~= digits.take(i - from));
            assert(longer.last() == c);
        }
        match value.checked_mul(10) {
            Some(m) => match m.checked_add(d) {
                Some(v) => {
                    value = v;
                },
                None => {
                    proof {
                        lemma_digits_prefix(digits, i + 1 - from);
                    }
                    return None;
                },
            },
            None => {
                proof {
                    lemma_digits_prefix(digits, i + 1 - from);
                }
                return None;
            },
        }
        i = i + 1;
    }
    assert(digits.take(to - from) =~= digits);
    Some(value)
}

// ---------------------------------------------------------------------------
// Tokens
// ---------------------------------------------------------------------------

fn trivia(s: &Vec<char>, p: usize) -> (r: Result<usize, ParseError>)
    requires
        p <= s@.len(),
    ensures
        spec_reached(r, spec_trivia(s@, p as int), s@.len() as int),
        r matches Ok(q) ==> p <= q,
{
    proof {
        reveal_strlit("//");
        assert("//"@ =~= seq!['/', '/']);
        reveal_strlit("/*");
        assert("/*"@ =~= seq!['/', '*']);
    }
    let len = s.len();
    let mut pos = p;
    loop
        invariant
            len == s@.len(),
            p <= pos <= s@.len(),
            spec_trivia(s@, p as int) == spec_trivia(s@, pos as int),
            "//"@ == seq!['/', '/'],
            "/*"@ == seq!['/', '*'],
        decreases s@.len() - pos,
    {
        let q = skip_space(s, pos);
        if starts_with(s, q, "//") {
            let e = line_end(s, q + 2);
            pos = e;
        } else if starts_with(s, q, "/*") {
            match comment_close(s, q + 2) {
                None => {
                    return Err(stop("unterminated block comment", q));
                },
                Some(close) => {
                    proof {
                        lemma_comment_close(s@, q + 2);
                    }
                    pos = close + 2;
                },
            }
        } else {
            return Ok(q);
        }
    }
}

fn consume(s: &Vec<char>, p: usize, text: &str) -> (r: Result<(bool, usize), ParseError>)
    requires
        p <= s@.len(),
    ensures
        spec_read(r, spec_consume(s@, p as int, text@), s@.len() as int),
{
    let q = match trivia(s, p) {
        Ok(q) => q,
        Err(e) => return Err(e),
    };
    let len = s.len();
    if starts_with(s, q, text) {
        let n = text.unicode_len();
        Ok((true, q + n))
    } else {
        Ok((false, q))
    }
}

fn expect(s: &Vec<char>, p: usize, text: &str) -> (r: Result<usize, ParseError>)
    requires
        p <= s@.len(),
    ensures
        spec_reached(r, spec_expect(s@, p as int, text@), s@.len() as int),
{
    let q = match trivia(s, p) {
        Ok(q) => q,
        Err(e) => return Err(e),
    };
    let len = s.len();
    if starts_with(s, q, text) {
        let n = text.unicode_len();
        Ok(q + n)
    } else {
        let mut message = "expected `".to_owned();
        message.append(text);
        message.append("`");
        Err(ParseError { message, position: q })
    }
}

fn identifier(s: &Vec<char>, p: usize) -> (r: Result<(String, usize), ParseError>)
    requires
        p <= s@.len(),
    ensures
        spec_read(r, spec_identifier(s@, p as int), s@.len() as int),
{
    let q = match trivia(s, p) {
        Ok(q) => q,
        Err(e) => return Err(e),
    };
    if q < s.len() && is_ident_start(s[q]) {
        let end = scan_ident(s, q + 1);
        let name = chars_to_string(s, q, end);
        Ok((name, end))
    } else {
        Err(stop("expected identifier", q))
    }
}

fn number(s: &Vec<char>, p: usize) -> (r: Result<(u64, usize), ParseError>)
    requires
        p <= s@.len(),
    ensures
        spec_read(r, spec_number(s@, p as int), s@.len() as int),
{
    let q = match trivia(s, p) {
        Ok(q) => q,
        Err(e) => return Err(e),
    };
    let end = scan_digits(s, q);
    if end == q {
        return Err(stop("expected integer", q));
    }
    match digits_value(s, q, end) {
        Some(value) => Ok((value, end)),
        None => Err(stop("integer out of range", q)),
    }
}

// ---------------------------------------------------------------------------
// Attributes
// ---------------------------------------------------------------------------

fn cid_attr(s: &Vec<char>, p: usize) -> (r: Result<(Option<String>, usize), ParseError>)
    requires
        p <= s@.len(),
    ensures
        spec_read_text(r, spec_cid_attr(s@, p as int), s@.len() as int),
{
    proof {
        reveal_strlit("#[cid(");
        assert("#[cid("@ =~= seq!['#', '[', 'c', 'i', 'd', '(']);
        reveal_strlit(")]");
        assert(")]"@ =~= seq![')', ']']);
    }
    let q = match consume(s, p, "#[cid(") {
        Ok((true, q)) => q,
        Ok((false, q)) => return Ok((None, q)),
        Err(e) => return Err(e),
    };
    let start = match trivia(s, q) {
        Ok(start) => start,
        Err(e) => return Err(e),
    };
    let end = scan_hex(s, start);
    if end == start {
        return Err(stop("expected hexadecimal C-ID", end));
    }
    let after = match expect(s, end, ")]") {
        Ok(after) => after,
        Err(e) => return Err(e),
    };
    if end - start != 16 {
        return Err(stop("C-ID must contain exactly 16 hexadecimal characters", after));
    }
    let cid = lowered_string(s, start, end);
    Ok((Some(cid), after))
}

fn guard_attr(s: &Vec<char>, p: usize) -> (r: Result<(Option<String>, usize), ParseError>)
    requires
        p <= s@.len(),
    ensures
        spec_read_text(r, spec_guard_attr(s@, p as int), s@.len() as int),
{
    proof {
        reveal_strlit("#[guard(");
        assert("#[guard("@ =~= seq!['#', '[', 'g', 'u', 'a', 'r', 'd', '(']);
        reveal_strlit(".");
        assert("."@ =~= seq!['.']);
        reveal_strlit(")]");
        assert(")]"@ =~= seq![')', ']']);
    }
    let q = match consume(s, p, "#[guard(") {
        Ok((true, q)) => q,
        Ok((false, q)) => return Ok((None, q)),
        Err(e) => return Err(e),
    };
    let (owner, q1) = match identifier(s, q) {
        Ok(x) => x,
        Err(e) => return Err(e),
    };
    let q2 = match expect(s, q1, ".") {
        Ok(x) => x,
        Err(e) => return Err(e),
    };
    let (bit, q3) = match identifier(s, q2) {
        Ok(x) => x,
        Err(e) => return Err(e),
    };
    let q4 = match expect(s, q3, ")]") {
        Ok(x) => x,
        Err(e) => return Err(e),
    };
    let mut guard = owner;
    guard.append(".");
    guard.append(bit.as_str());
    Ok((Some(guard), q4))
}

fn exact_len_attr(s: &Vec<char>, p: usize) -> (r: Result<(Option<usize>, usize), ParseError>)
    requires
        p <= s@.len(),
    ensures
        spec_read(r, spec_exact_len_attr(s@, p as int), s@.len() as int),
{
    proof {
        reveal_strlit("#[exact_len(");
        assert("#[exact_len("@ =~= seq!['#', '[', 'e', 'x', 'a', 'c', 't', '_', 'l', 'e', 'n', '(']);
        reveal_strlit(")]");
        assert(")]"@ =~= seq![')', ']']);
    }
    let q = match consume(s, p, "#[exact_len(") {
        Ok((true, q)) => q,
        Ok((false, q)) => return Ok((None, q)),
        Err(e) => return Err(e),
    };
    let (length, q1) = match number(s, q) {
        Ok(x) => x,
        Err(e) => return Err(e),
    };
    let q2 = match expect(s, q1, ")]") {
        Ok(x) => x,
        Err(e) => return Err(e),
    };
    if length > usize::MAX as u64 {
        return Err(stop("exact length does not fit usize", q2));
    }
    Ok((Some(length as usize), q2))
}

// ---------------------------------------------------------------------------
// Types and fields
// ---------------------------------------------------------------------------

fn type_at(s: &Vec<char>, p: usize, depth: usize) -> (r: Result<(Type, usize), ParseError>)
    requires
        p <= s@.len(),
        depth <= MAX_NESTING_DEPTH + 1,
    ensures
        spec_read(r, spec_type_at(s@, p as int, depth as nat), s@.len() as int),
    decreases MAX_NESTING_DEPTH + 1 - depth,
{
    proof {
        reveal_strlit("[");
        assert("["@ =~= seq!['[']);
        reveal_strlit("]");
        assert("]"@ =~= seq![']']);
        reveal_strlit("<");
        assert("<"@ =~= seq!['<']);
        reveal_strlit(">");
        assert(">"@ =~= seq!['>']);
        reveal_strlit(",");
        assert(","@ =~= seq![',']);
    }
    if depth > MAX_NESTING_DEPTH {
        return Err(stop("maximum type nesting depth exceeded", p));
    }
    let (name, q) = match identifier(s, p) {
        Ok(x) => x,
        Err(e) => return Err(e),
    };
    if text_is(&name, "bytes") {
        let q1 = match expect(s, q, "[") {
            Ok(x) => x,
            Err(e) => return Err(e),
        };
        let (length, q2) = match number(s, q1) {
            Ok(x) => x,
            Err(e) => return Err(e),
        };
        let q3 = match expect(s, q2, "]") {
            Ok(x) => x,
            Err(e) => return Err(e),
        };
        if length > usize::MAX as u64 {
            return Err(stop("fixed byte length does not fit usize", q3));
        }
        Ok((Type::FixedBytes(length as usize), q3))
    } else if text_is(&name, "Optional") || text_is(&name, "Vec") {
        let q1 = match expect(s, q, "<") {
            Ok(x) => x,
            Err(e) => return Err(e),
        };
        let (item, q2) = match type_at(s, q1, depth + 1) {
            Ok(x) => x,
            Err(e) => return Err(e),
        };
        let q3 = match expect(s, q2, ">") {
            Ok(x) => x,
            Err(e) => return Err(e),
        };
        if text_is(&name, "Optional") {
            Ok((Type::Optional(Box::new(item)), q3))
        } else {
            Ok((Type::Vec(Box::new(item)), q3))
        }
    } else if text_is(&name, "Map") {
        let q1 = match expect(s, q, "<") {
            Ok(x) => x,
            Err(e) => return Err(e),
        };
        let (key, q2) = match type_at(s, q1, depth + 1) {
            Ok(x) => x,
            Err(e) => return Err(e),
        };
        let q3 = match expect(s, q2, ",") {
            Ok(x) => x,
            Err(e) => return Err(e),
        };
        let (value, q4) = match type_at(s, q3, depth + 1) {
            Ok(x) => x,
            Err(e) => return Err(e),
        };
        let q5 = match expect(s, q4, ">") {
            Ok(x) => x,
            Err(e) => return Err(e),
        };
        Ok((Type::Mapping(Box::new(key), Box::new(value)), q5))
    } else {
        Ok((Type::Primitive(name), q))
    }
}

fn field(s: &Vec<char>, p: usize) -> (r: Result<(Field, usize), ParseError>)
    requires
        p <= s@.len(),
    ensures
        spec_read(r, spec_field(s@, p as int), s@.len() as int),
{
    proof {
        reveal_strlit(":");
        assert(":"@ =~= seq![':']);
    }
    let (guard, q1) = match guard_attr(s, p) {
        Ok(x) => x,
        Err(e) => return Err(e),
    };
    let (name, q2) = match identifier(s, q1) {
        Ok(x) => x,
        Err(e) => return Err(e),
    };
    let q3 = match expect(s, q2, ":") {
        Ok(x) => x,
        Err(e) => return Err(e),
    };
    let (ty, q4) = match type_at(s, q3, 0) {
        Ok(x) => x,
        Err(e) => return Err(e),
    };
    let (exact_len, q5) = match exact_len_attr(s, q4) {
        Ok(x) => x,
        Err(e) => return Err(e),
    };
    Ok((Field { name, guard, exact_len, ty, deprecated: None }, q5))
}

/// The fields after an opening `{`, up to and with the closing `}`.
fn fields(s: &Vec<char>, p: usize) -> (r: Result<(Vec<Field>, usize), ParseError>)
    requires
        p <= s@.len(),
    ensures
        spec_read_fields(r, spec_fields(s@, p as int, seq![]), s@.len() as int),
{
    proof {
        reveal_strlit("}");
        assert("}"@ =~= seq!['}']);
        reveal_strlit(",");
        assert(","@ =~= seq![',']);
    }
    let mut out: Vec<Field> = Vec::new();
    let mut pos = p;
    assert(fields_model(out@) =~= Seq::<FieldModel>::empty());
    loop
        invariant
            pos <= s@.len(),
            spec_fields(s@, p as int, seq![]) == spec_fields(s@, pos as int, fields_model(out@)),
            "}"@ == seq!['}'],
            ","@ == seq![','],
        decreases s@.len() - pos,
    {
        let q = match consume(s, pos, "}") {
            Ok((true, q)) => return Ok((out, q)),
            Ok((false, q)) => q,
            Err(e) => return Err(e),
        };
        let (f, q1) = match field(s, q) {
            Ok(x) => x,
            Err(e) => return Err(e),
        };
        let ghost before = fields_model(out@);
        out.push(f);
        assert(fields_model(out@) =~= before.push(f@));
        let q2 = match consume(s, q1, "}") {
            Ok((true, q2)) => return Ok((out, q2)),
            Ok((false, q2)) => q2,
            Err(e) => return Err(e),
        };
        let q3 = match expect(s, q2, ",") {
            Ok(x) => x,
            Err(e) => return Err(e),
        };
        proof {
            lemma_consume(s@, pos as int, seq!['}']);
            lemma_field(s@, q as int);
            lemma_consume(s@, q1 as int, seq!['}']);
            lemma_expect(s@, q2 as int, seq![',']);
        }
        pos = q3;
    }
}

// ---------------------------------------------------------------------------
// Enums and flags
// ---------------------------------------------------------------------------

fn variant(s: &Vec<char>, p: usize) -> (r: Result<(EnumVariant, usize), ParseError>)
    requires
        p <= s@.len(),
    ensures
        spec_read(r, spec_variant(s@, p as int), s@.len() as int),
{
    proof {
        reveal_strlit("{");
        assert("{"@ =~= seq!['{']);
        reveal_strlit("=");
        assert("="@ =~= seq!['=']);
        reveal_strlit(",");
        assert(","@ =~= seq![',']);
    }
    let (cid, q1) = match cid_attr(s, p) {
        Ok(x) => x,
        Err(e) => return Err(e),
    };
    let (name, q2) = match identifier(s, q1) {
        Ok(x) => x,
        Err(e) => return Err(e),
    };
    let (fields, q4) = match consume(s, q2, "{") {
        Ok((true, q3)) => match fields(s, q3) {
            Ok(x) => x,
            Err(e) => return Err(e),
        },
        Ok((false, q3)) => (Vec::new(), q3),
        Err(e) => return Err(e),
    };
    proof {
        if fields@.len() == 0 {
            assert(fields_model(fields@) =~= Seq::<FieldModel>::empty());
        }
    }
    let (value, q6) = match consume(s, q4, "=") {
        Ok((true, q5)) => match number(s, q5) {
            Ok((v, q6)) => (Some(v), q6),
            Err(e) => return Err(e),
        },
        Ok((false, q5)) => (None, q5),
        Err(e) => return Err(e),
    };
    let q7 = match consume(s, q6, ",") {
        Ok((_, q7)) => q7,
        Err(e) => return Err(e),
    };
    Ok((EnumVariant { name, cid, fields, value }, q7))
}

/// An enum after `enum`: its name and its variants in braces.
fn enum_body(s: &Vec<char>, p: usize) -> (r: Result<(Enum, usize), ParseError>)
    requires
        p <= s@.len(),
    ensures
        spec_read(r, spec_enum(s@, p as int), s@.len() as int),
{
    proof {
        reveal(spec_enum);
        reveal_strlit("{");
        assert("{"@ =~= seq!['{']);
        reveal_strlit("}");
        assert("}"@ =~= seq!['}']);
    }
    let (name, q1) = match identifier(s, p) {
        Ok(x) => x,
        Err(e) => return Err(e),
    };
    let q2 = match expect(s, q1, "{") {
        Ok(x) => x,
        Err(e) => return Err(e),
    };
    let mut variants: Vec<EnumVariant> = Vec::new();
    let mut pos = q2;
    assert(variants@.map_values(|v: EnumVariant| v@) =~= Seq::<VariantModel>::empty());
    loop
        invariant
            pos <= s@.len(),
            spec_enum(s@, p as int) == match spec_variants(
                s@,
                pos as int,
                variants@.map_values(|v: EnumVariant| v@),
            ) {
                Err(e) => Err(e),
                Ok((variants, q3)) => Ok((EnumModel { name: name@, variants }, q3)),
            },
            "}"@ == seq!['}'],
        decreases s@.len() - pos,
    {
        let q = match consume(s, pos, "}") {
            Ok((true, q)) => return Ok((Enum { name, variants }, q)),
            Ok((false, q)) => q,
            Err(e) => return Err(e),
        };
        let (v, q1) = match variant(s, q) {
            Ok(x) => x,
            Err(e) => return Err(e),
        };
        let ghost before = variants@.map_values(|v: EnumVariant| v@);
        variants.push(v);
        assert(variants@.map_values(|v: EnumVariant| v@) =~= before.push(v@));
        proof {
            lemma_consume(s@, pos as int, seq!['}']);
            lemma_variant(s@, q as int);
        }
        pos = q1;
    }
}

fn bit(s: &Vec<char>, p: usize) -> (r: Result<(FlagsBit, usize), ParseError>)
    requires
        p <= s@.len(),
    ensures
        spec_read(r, spec_bit(s@, p as int), s@.len() as int),
{
    proof {
        reveal_strlit("=");
        assert("="@ =~= seq!['=']);
        reveal_strlit(",");
        assert(","@ =~= seq![',']);
    }
    let (name, q1) = match identifier(s, p) {
        Ok(x) => x,
        Err(e) => return Err(e),
    };
    let q2 = match expect(s, q1, "=") {
        Ok(x) => x,
        Err(e) => return Err(e),
    };
    let (value, q3) = match number(s, q2) {
        Ok(x) => x,
        Err(e) => return Err(e),
    };
    let q4 = match consume(s, q3, ",") {
        Ok((_, q4)) => q4,
        Err(e) => return Err(e),
    };
    Ok((FlagsBit { name, value }, q4))
}

/// A flags type after `#[flags(underlying)] enum`: its name and its bits.
fn flags_body(s: &Vec<char>, p: usize, underlying: String) -> (r: Result<(Flags, usize), ParseError>)
    requires
        p <= s@.len(),
    ensures
        spec_read(r, spec_flags(s@, p as int, underlying@), s@.len() as int),
{
    proof {
        reveal(spec_flags);
        reveal_strlit("{");
        assert("{"@ =~= seq!['{']);
        reveal_strlit("}");
        assert("}"@ =~= seq!['}']);
    }
    let (name, q1) = match identifier(s, p) {
        Ok(x) => x,
        Err(e) => return Err(e),
    };
    let q2 = match expect(s, q1, "{") {
        Ok(x) => x,
        Err(e) => return Err(e),
    };
    let mut bits: Vec<FlagsBit> = Vec::new();
    let mut pos = q2;
    assert(bits@.map_values(|b: FlagsBit| b@) =~= Seq::<BitModel>::empty());
    loop
        invariant
            pos <= s@.len(),
            spec_flags(s@, p as int, underlying@) == match spec_bits(
                s@,
                pos as int,
                bits@.map_values(|b: FlagsBit| b@),
            ) {
                Err(e) => Err(e),
                Ok((bits, q3)) => Ok(
                    (FlagsModel { name: name@, underlying: underlying@, bits }, q3),
                ),
            },
            "}"@ == seq!['}'],
        decreases s@.len() - pos,
    {
        let q = match consume(s, pos, "}") {
            Ok((true, q)) => return Ok((Flags { name, underlying, bits }, q)),
            Ok((false, q)) => q,
            Err(e) => return Err(e),
        };
        let (b, q1) = match bit(s, q) {
            Ok(x) => x,
            Err(e) => return Err(e),
        };
        let ghost before = bits@.map_values(|b: FlagsBit| b@);
        bits.push(b);
        assert(bits@.map_values(|b: FlagsBit| b@) =~= before.push(b@));
        proof {
            lemma_consume(s@, pos as int, seq!['}']);
            lemma_bit(s@, q as int);
        }
        pos = q1;
    }
}

// ---------------------------------------------------------------------------
// Items
// ---------------------------------------------------------------------------

fn struct_body(s: &Vec<char>, p: usize, cid: Option<String>) -> (r: Result<
    (Struct, usize),
    ParseError,
>)
    requires
        p <= s@.len(),
    ensures
        spec_read(r, spec_struct(s@, p as int, text_model(cid)), s@.len() as int),
{
    proof {
        reveal(spec_struct);
        reveal_strlit("{");
        assert("{"@ =~= seq!['{']);
    }
    let (name, q1) = match identifier(s, p) {
        Ok(x) => x,
        Err(e) => return Err(e),
    };
    let q2 = match expect(s, q1, "{") {
        Ok(x) => x,
        Err(e) => return Err(e),
    };
    let (fields, q3) = match fields(s, q2) {
        Ok(x) => x,
        Err(e) => return Err(e),
    };
    Ok((Struct { name, cid, fields }, q3))
}

fn alias_body(s: &Vec<char>, p: usize) -> (r: Result<(Alias, usize), ParseError>)
    requires
        p <= s@.len(),
    ensures
        spec_read(r, spec_alias(s@, p as int), s@.len() as int),
{
    proof {
        reveal(spec_alias);
        reveal_strlit("=");
        assert("="@ =~= seq!['=']);
        reveal_strlit(";");
        assert(";"@ =~= seq![';']);
    }
    let (name, q1) = match identifier(s, p) {
        Ok(x) => x,
        Err(e) => return Err(e),
    };
    let q2 = match expect(s, q1, "=") {
        Ok(x) => x,
        Err(e) => return Err(e),
    };
    let (ty, q3) = match type_at(s, q2, 0) {
        Ok(x) => x,
        Err(e) => return Err(e),
    };
    let (exact_len, q4) = match exact_len_attr(s, q3) {
        Ok(x) => x,
        Err(e) => return Err(e),
    };
    let q5 = match consume(s, q4, ";") {
        Ok((_, q5)) => q5,
        Err(e) => return Err(e),
    };
    Ok((Alias { name, ty, exact_len }, q5))
}

fn flags_item(s: &Vec<char>, p: usize) -> (r: Result<(Item, usize), ParseError>)
    requires
        p <= s@.len(),
    ensures
        spec_read(r, spec_flags_item(s@, p as int), s@.len() as int),
{
    proof {
        reveal(spec_flags_item);
        reveal_strlit(")]");
        assert(")]"@ =~= seq![')', ']']);
        reveal_strlit("enum");
        assert("enum"@ =~= kw_enum());
    }
    let (underlying, q1) = match identifier(s, p) {
        Ok(x) => x,
        Err(e) => return Err(e),
    };
    let q2 = match expect(s, q1, ")]") {
        Ok(x) => x,
        Err(e) => return Err(e),
    };
    let q3 = match expect(s, q2, "enum") {
        Ok(x) => x,
        Err(e) => return Err(e),
    };
    match flags_body(s, q3, underlying) {
        Ok((x, q)) => Ok((Item::Flags(x), q)),
        Err(e) => Err(e),
    }
}

fn struct_or_enum(s: &Vec<char>, p: usize, cid: Option<String>) -> (r: Result<
    (Item, usize),
    ParseError,
>)
    requires
        p <= s@.len(),
    ensures
        spec_read(r, spec_struct_or_enum(s@, p as int, text_model(cid)), s@.len() as int),
{
    proof {
        reveal(spec_struct_or_enum);
        reveal_strlit("struct");
        assert("struct"@ =~= kw_struct());
        reveal_strlit("enum");
        assert("enum"@ =~= kw_enum());
    }
    match consume(s, p, "struct") {
        Ok((true, q1)) => {
            return match struct_body(s, q1, cid) {
                Ok((x, q)) => Ok((Item::Struct(x), q)),
                Err(e) => Err(e),
            };
        },
        Ok((false, q1)) => match consume(s, q1, "enum") {
            Ok((true, q2)) => match enum_body(s, q2) {
                Ok((x, q)) => Ok((Item::Enum(x), q)),
                Err(e) => Err(e),
            },
            Ok((false, q2)) => Err(
                stop("expected `type`, `struct`, `enum` or `#[flags(...)] enum`", q2),
            ),
            Err(e) => Err(e),
        },
        Err(e) => Err(e),
    }
}

fn item(s: &Vec<char>, p: usize) -> (r: Result<(Item, usize), ParseError>)
    requires
        p <= s@.len(),
    ensures
        spec_read(r, spec_item(s@, p as int), s@.len() as int),
{
    proof {
        reveal(spec_item);
        reveal_strlit("type");
        assert("type"@ =~= kw_type());
        reveal_strlit("#[flags(");
        assert("#[flags("@ =~= kw_flags());
    }
    let (cid, q0) = match cid_attr(s, p) {
        Ok(x) => x,
        Err(e) => return Err(e),
    };
    match consume(s, q0, "type") {
        Ok((true, q1)) => match alias_body(s, q1) {
            Ok((x, q)) => Ok((Item::Alias(x), q)),
            Err(e) => Err(e),
        },
        Ok((false, q1)) => match consume(s, q1, "#[flags(") {
            Ok((true, q2)) => flags_item(s, q2),
            Ok((false, q2)) => struct_or_enum(s, q2, cid),
            Err(e) => Err(e),
        },
        Err(e) => Err(e),
    }
}

/// The items from `p` to the end of the text.
fn items(s: &Vec<char>, p: usize) -> (r: Result<Vec<Item>, ParseError>)
    requires
        p <= s@.len(),
    ensures
        match spec_items(s@, p as int, seq![]) {
            Ok(v) => r matches Ok(x) && items_model(x@) == v,
            Err((m, at)) => r matches Err(e) && e.message@ == m && e.position == at,
        },
        r matches Err(e) ==> e.position <= s@.len(),
{
    let mut out: Vec<Item> = Vec::new();
    let mut pos = p;
    assert(items_model(out@) =~= Seq::<ItemModel>::empty());
    loop
        invariant
            pos <= s@.len(),
            spec_items(s@, p as int, seq![]) == spec_items(s@, pos as int, items_model(out@)),
        decreases s@.len() - pos,
    {
        let q = match trivia(s, pos) {
            Ok(q) => q,
            Err(e) => return Err(e),
        };
        if q >= s.len() {
            return Ok(out);
        }
        let (it, q1) = match item(s, q) {
            Ok(x) => x,
            Err(e) => return Err(e),
        };
        let ghost before = items_model(out@);
        out.push(it);
        assert(items_model(out@) =~= before.push(it@));
        proof {
            lemma_item(s@, q as int);
        }
        pos = q1;
    }
}

// ---------------------------------------------------------------------------
// Schemas
// ---------------------------------------------------------------------------

/// The UTF-8 length of the first `at` characters of `s`.
pub open spec fn spec_byte_offset(s: Seq<char>, at: int) -> int {
    encode_utf8(s.take(at)).len() as int
}

/// The UTF-8 encoding of a concatenation is the concatenation of the
/// encodings.
pub proof fn lemma_encode_utf8_concat(a: Seq<char>, b: Seq<char>)
    ensures
        encode_utf8(a + b) == encode_utf8(a) + encode_utf8(b),
    decreases a.len(),
{
    if a.len() == 0 {
        assert(a + b =~= b);
        assert(encode_utf8(a) + encode_utf8(b) =~= encode_utf8(b));
    } else {
        lemma_encode_utf8_concat(a.drop_first(), b);
        assert((a + b).drop_first() =~= a.drop_first() + b);
        assert(encode_utf8(a + b) =~= encode_utf8(a) + encode_utf8(b));
    }
}

/// The UTF-8 width of `c`.
fn utf8_width(c: char) -> (w: usize)
    ensures
        w == encode_scalar(c as u32).len(),
{
    let v = c as u32;
    if v <= 0x7f {
        1
    } else if v <= 0x7ff {
        2
    } else if v <= 0xffff {
        3
    } else {
        4
    }
}

/// The byte offset of character `at` of a text whose characters are `s`
/// and whose UTF-8 encoding is `len` bytes long.
fn byte_offset(s: &Vec<char>, at: usize, len: usize) -> (r: usize)
    requires
        at <= s@.len(),
        encode_utf8(s@).len() == len,
    ensures
        r == spec_byte_offset(s@, at as int),
{
    let mut offset: usize = 0;
    let mut i: usize = 0;
    assert(s@.take(0) =~= Seq::<char>::empty());
    while i < at
        invariant
            i <= at <= s@.len(),
            encode_utf8(s@).len() == len,
            offset == encode_utf8(s@.take(i as int)).len(),
        decreases at - i,
    {
        let w = utf8_width(s[i]);
        proof {
            reveal_with_fuel(encode_utf8, 2);
            assert(encode_utf8(seq![s@[i as int]]) =~= encode_scalar(s@[i as int] as u32));
            assert(s@.take(i + 1) =~= s@.take(i as int) + seq![s@[i as int]]);
            lemma_encode_utf8_concat(s@.take(i as int), seq![s@[i as int]]);
            assert(seq![s@[i as int]].drop_first() =~= Seq::<char>::empty());
            assert(s@ =~= s@.take(i + 1) + s@.skip(i + 1));
            lemma_encode_utf8_concat(s@.take(i + 1), s@.skip(i + 1));
        }
        offset = offset + w;
        i = i + 1;
    }
    offset
}

/// Parses a schema text and validates it.
///
/// Reads `#[version(n)]` and the items that follow by the grammar of
/// [`crate::grammar`]: white space, `//` and `/* */` comments between
/// tokens, aliases, flags types, structs and enums, types nested at most
/// [`MAX_NESTING_DEPTH`] deep. A text the grammar refuses gives its message
/// and the byte offset where reading stopped; a schema that validation
/// refuses gives the validation message at offset zero. Comments and
/// functions are not recorded.
pub fn parse_schema(source: &str) -> (r: Result<Schema, ParseError>)
    ensures
        match spec_schema(source@) {
            Err((m, at)) => r matches Err(e) && e.message@ == m && e.position
                == spec_byte_offset(source@, at),
            Ok(model) => match spec_validate(model) {
                None => r matches Ok(schema) && schema@ == model,
                Some(m) => r matches Err(e) && e.message@ == m && e.position == 0,
            },
        },
{
    let s = chars_of(source);
    let len = source.as_bytes().len();
    match read_schema(&s) {
        Err(e) => {
            let position = byte_offset(&s, e.position, len);
            Err(ParseError { message: e.message, position })
        },
        Ok(schema) => match validate(&schema) {
            Ok(()) => Ok(schema),
            Err(e) => Err(e),
        },
    }
}

fn read_schema(s: &Vec<char>) -> (r: Result<Schema, ParseError>)
    ensures
        match spec_schema(s@) {
            Err((m, at)) => r matches Err(e) && e.message@ == m && e.position == at,
            Ok(model) => r matches Ok(schema) && schema@ == model,
        },
        r matches Err(e) ==> e.position <= s@.len(),
{
    proof {
        reveal_strlit("#[version(");
        assert("#[version("@ =~= seq!['#', '[', 'v', 'e', 'r', 's', 'i', 'o', 'n', '(']);
        reveal_strlit(")]");
        assert(")]"@ =~= seq![')', ']']);
    }
    let q1 = match expect(s, 0, "#[version(") {
        Ok(x) => x,
        Err(e) => return Err(e),
    };
    let (version, q2) = match number(s, q1) {
        Ok(x) => x,
        Err(e) => return Err(e),
    };
    if version > u16::MAX as u64 {
        return Err(stop("version must fit u16", q2));
    }
    let q3 = match expect(s, q2, ")]") {
        Ok(x) => x,
        Err(e) => return Err(e),
    };
    let items = match items(s, q3) {
        Ok(x) => x,
        Err(e) => return Err(e),
    };
    let schema = Schema {
        version: version as u16,
        items,
        comments: Vec::new(),
        item_comments: Vec::new(),
        functions: Vec::new(),
    };
    assert(schema@.comments =~= Seq::<Seq<char>>::empty());
    assert(schema@.item_comments =~= Seq::<Seq<Seq<char>>>::empty());
    assert(schema@.functions =~= Seq::<FunctionModel>::empty());
    Ok(schema)
}

} // verus!
