//! Reading documentation out of doc attributes: the attribute's printed
//! tokens are searched for `doc = "..."` and the string literal is unescaped.
use vstd::prelude::*;

use crate::text::{
    append_chars, chars_of, contains, contains_chars, copy_chars, find_chars, no_spaces,
    no_spaces_chars, find_first, has_prefix, join, join_lines,
    lemma_find_first_bounds,
    join_sep, newline, opt_view, starts_with_chars, string_of, strings_view, trim, trim_chars,
    trim_start, trim_start_chars, vecs_view, is_ws_char, is_ws,
};

verus! {

/// An outer attribute (`#[...]`), held as its printed tokens, e.g.
/// `# [doc = " text"]`.
#[derive(Debug)]
pub struct Attribute {
    pub tokens: String,
}

/// An inner attribute (`#![...]`), held as its printed tokens, e.g.
/// `# ! [doc = " text"]`.
#[derive(Debug)]
pub struct InnerAttribute {
    pub tokens: String,
}

/// Number of bytes of the UTF-8 encoding of a character.
pub open spec fn utf8_len(c: char) -> int {
    let u = c as u32;
    if u < 0x80 {
        1
    } else if u < 0x800 {
        2
    } else if u < 0x10000 {
        3
    } else {
        4
    }
}

/// Number of bytes of the UTF-8 encoding of a text.
pub open spec fn byte_len(s: Seq<char>) -> int
    decreases s.len(),
{
    if s.len() == 0 {
        0
    } else {
        byte_len(s.drop_last()) + utf8_len(s.last())
    }
}

/// The character index at or after `j` where byte offset `k` falls on a
/// character boundary.
pub open spec fn byte_to_char_from(s: Seq<char>, k: int, j: int) -> Option<int>
    decreases s.len() + 1 - j,
{
    if j < 0 || j > s.len() {
        None
    } else if byte_len(s.take(j)) == k {
        Some(j)
    } else if byte_len(s.take(j)) > k {
        None
    } else {
        byte_to_char_from(s, k, j + 1)
    }
}

/// The character index of byte offset `k`, `None` when `k` is not a
/// character boundary of `s` (slicing there panics).
pub open spec fn byte_to_char(s: Seq<char>, k: int) -> Option<int> {
    byte_to_char_from(s, k, 0)
}

/// Offset, from `i` on, of the first `"` not escaped by a backslash.
pub open spec fn quote_from(t: Seq<char>, i: int, escaped: bool) -> Option<int>
    decreases t.len() - i,
{
    if i < 0 || i >= t.len() {
        None
    } else if escaped {
        quote_from(t, i + 1, false)
    } else if t[i] == '\\' {
        quote_from(t, i + 1, true)
    } else if t[i] == '"' {
        Some(i)
    } else {
        quote_from(t, i + 1, false)
    }
}

/// Character index, from `m` on, of the first `"` not escaped by a
/// backslash.
pub open spec fn quote_end(t: Seq<char>, m: int) -> Option<int> {
    match quote_from(t.skip(m), 0, false) {
        Some(i) => Some(m + i),
        None => None,
    }
}

/// `find_closing_quote`: the byte offset of the first unescaped `"` at or
/// after byte offset `start`.
pub open spec fn closing_quote(s: Seq<char>, start: int) -> Option<int> {
    match byte_to_char(s, start) {
        Some(j) => match quote_end(s, j) {
            Some(k) => Some(byte_len(s.take(k))),
            None => None,
        },
        None => None,
    }
}

pub open spec fn hex_digit(c: char) -> Option<int> {
    if '0' <= c <= '9' {
        Some(c as int - '0' as int)
    } else if 'a' <= c <= 'f' {
        Some(c as int - 'a' as int + 10)
    } else if 'A' <= c <= 'F' {
        Some(c as int - 'A' as int + 10)
    } else {
        None
    }
}

/// The value of a run of hexadecimal digits.
pub open spec fn hex_value(d: Seq<char>) -> Option<int>
    decreases d.len(),
{
    if d.len() == 0 {
        Some(0)
    } else {
        match hex_value(d.drop_last()) {
            Some(v) => match hex_digit(d.last()) {
                Some(x) => Some(v * 16 + x),
                None => None,
            },
            None => None,
        }
    }
}

/// `from_str_radix(t, 16)` for an unsigned type whose largest value is
/// `max`: an optional `+` and at least one digit, nothing else.
pub open spec fn parse_hex(t: Seq<char>, max: int) -> Option<int> {
    let d = if t.len() > 0 && t[0] == '+' {
        t.skip(1)
    } else {
        t
    };
    if d.len() == 0 {
        None
    } else {
        match hex_value(d) {
            Some(v) => if v <= max {
                Some(v)
            } else {
                None
            },
            None => None,
        }
    }
}

/// A Unicode scalar value (`char::from_u32` succeeds).
pub open spec fn is_scalar(v: int) -> bool {
    0 <= v <= 0x10FFFF && !(0xD800 <= v <= 0xDFFF)
}

pub proof fn lemma_close_brace_bounds(s: Seq<char>, k: int)
    requires
        0 <= k <= s.len(),
    ensures
        k <= close_brace_from(s, k) <= s.len(),
    decreases s.len() - k,
{
    if k < s.len() && s[k] != '}' {
        lemma_close_brace_bounds(s, k + 1);
    }
}

/// Index of the first `}` at or after `k`, or the length.
pub open spec fn close_brace_from(s: Seq<char>, k: int) -> int
    decreases s.len() - k,
{
    if k < 0 || k >= s.len() {
        s.len() as int
    } else if s[k] == '}' {
        k
    } else {
        close_brace_from(s, k + 1)
    }
}

pub open spec fn min_int(a: int, b: int) -> int {
    if a < b {
        a
    } else {
        b
    }
}

/// The text from position `i` on with Rust escapes resolved; malformed and
/// unknown escapes are kept (a `\u` not followed by `{` loses the next
/// character).
pub open spec fn unescape_from(s: Seq<char>, i: int) -> Seq<char>
    decreases s.len() - i,
{
    if i < 0 || i >= s.len() {
        Seq::empty()
    } else if s[i] != '\\' {
        seq![s[i]] + unescape_from(s, i + 1)
    } else if i + 1 >= s.len() {
        seq!['\\']
    } else {
        let c = s[i + 1];
        if c == 'n' {
            seq!['\n'] + unescape_from(s, i + 2)
        } else if c == 'r' {
            seq!['\r'] + unescape_from(s, i + 2)
        } else if c == 't' {
            seq!['\t'] + unescape_from(s, i + 2)
        } else if c == '\\' {
            seq!['\\'] + unescape_from(s, i + 2)
        } else if c == '0' {
            seq!['\0'] + unescape_from(s, i + 2)
        } else if c == '\'' {
            seq!['\''] + unescape_from(s, i + 2)
        } else if c == '"' {
            seq!['"'] + unescape_from(s, i + 2)
        } else if c == 'x' {
            let end = min_int(i + 4, s.len() as int);
            let hex = s.subrange(i + 2, end);
            match parse_hex(hex, 0xFF) {
                Some(b) => seq![(b as u8) as char] + unescape_from(s, end),
                None => seq!['\\', 'x'] + hex + unescape_from(s, end),
            }
        } else if c == 'u' {
            if i + 2 < s.len() && s[i + 2] == '{' {
                let j = close_brace_from(s, i + 3);
                proof {
                    lemma_close_brace_bounds(s, i + 3);
                }
                let hex = s.subrange(i + 3, j);
                let next = if j < s.len() {
                    j + 1
                } else {
                    s.len() as int
                };
                match parse_hex(hex, 0xFFFF_FFFF) {
                    Some(v) => if is_scalar(v) {
                        seq![v as char] + unescape_from(s, next)
                    } else {
                        seq!['\\', 'u', '{'] + hex + seq!['}'] + unescape_from(s, next)
                    },
                    None => seq!['\\', 'u', '{'] + hex + seq!['}'] + unescape_from(s, next),
                }
            } else {
                seq!['\\', 'u'] + unescape_from(s, min_int(i + 3, s.len() as int))
            }
        } else {
            seq!['\\', c] + unescape_from(s, i + 2)
        }
    }
}

/// `unescape_rust_string`.
pub open spec fn unescape(s: Seq<char>) -> Seq<char> {
    unescape_from(s, 0)
}

/// The content of the string literal that the text starts with (a quoted
/// string unescaped, a raw string as it is).
pub open spec fn string_literal(s: Seq<char>) -> Option<Seq<char>> {
    let t = trim(s);
    if has_prefix(t, "\""@) && quote_end(t, 1) is Some {
        Some(unescape(t.subrange(1, quote_end(t, 1)->0)))
    } else if has_prefix(t, "r#"@) && find_first(t, "\""@) is Some && find_first(
        t.skip(find_first(t, "\""@)->0 + 1),
        "\"#"@,
    ) is Some {
        let st = find_first(t, "\""@)->0;
        let e = find_first(t.skip(st + 1), "\"#"@)->0;
        Some(t.subrange(st + 1, st + 1 + e))
    } else if has_prefix(t, "r\""@) && quote_end(t, 2) is Some {
        Some(t.subrange(2, quote_end(t, 2)->0))
    } else {
        None
    }
}

/// The text after the first `=` that follows the first `doc` of an
/// attribute printed with `opener` in front, if there are such.
pub open spec fn after_doc_eq(text: Seq<char>, opener: Seq<char>) -> Option<Seq<char>> {
    if !has_prefix(text, opener) {
        None
    } else {
        match find_first(text, "doc"@) {
            None => None,
            Some(d) => {
                let a = text.skip(d);
                match find_first(a, "="@) {
                    None => None,
                    Some(e) => Some(trim_start(a.skip(e + 1))),
                }
            },
        }
    }
}

/// The documentation string of an attribute printed with `opener` in front.
pub open spec fn attr_doc(text: Seq<char>, opener: Seq<char>) -> Option<Seq<char>> {
    match after_doc_eq(text, opener) {
        Some(a) => string_literal(a),
        None => None,
    }
}

pub open spec fn outer_opener() -> Seq<char> {
    "# ["@
}

pub open spec fn inner_opener() -> Seq<char> {
    "# ! ["@
}

/// A doc string without the one space that a doc comment puts first.
pub open spec fn strip_one_space(c: Seq<char>) -> Seq<char> {
    if has_prefix(c, " "@) {
        c.skip(1)
    } else {
        c
    }
}

/// The documentation lines of a list of attributes printed with `opener`.
pub open spec fn doc_lines(attrs: Seq<Seq<char>>, opener: Seq<char>) -> Seq<Seq<char>>
    decreases attrs.len(),
{
    if attrs.len() == 0 {
        Seq::empty()
    } else {
        let prev = doc_lines(attrs.drop_last(), opener);
        match attr_doc(attrs.last(), opener) {
            Some(c) => prev.push(strip_one_space(c)),
            None => prev,
        }
    }
}

/// The documentation of an attribute list: its doc lines joined by `\n`
/// and trimmed, `None` when there is none.
pub open spec fn doc_content(attrs: Option<Seq<Seq<char>>>, opener: Seq<char>) -> Option<Seq<char>> {
    match attrs {
        None => None,
        Some(a) => {
            let ls = doc_lines(a, opener);
            if ls.len() == 0 {
                None
            } else {
                Some(trim(join(ls, newline())))
            }
        },
    }
}

pub open spec fn attrs_view(attrs: Option<Vec<Attribute>>) -> Option<Seq<Seq<char>>> {
    match attrs {
        None => None,
        Some(v) => Some(v@.map_values(|a: Attribute| a.tokens@)),
    }
}

pub open spec fn inner_attrs_view(attrs: Option<Vec<InnerAttribute>>) -> Option<Seq<Seq<char>>> {
    match attrs {
        None => None,
        Some(v) => Some(v@.map_values(|a: InnerAttribute| a.tokens@)),
    }
}

/// A character that ends an identifier as tokens are printed: whitespace
/// or ASCII punctuation other than `_`.
pub open spec fn ends_ident(c: char) -> bool {
    let u = c as u32;
    is_ws(c) || (0x21 <= u <= 0x2F) || (0x3A <= u <= 0x40) || (0x5B <= u <= 0x60 && u != 0x5F)
        || (0x7B <= u <= 0x7E)
}

/// The identifier that starts at position `i` (up to the first character
/// that ends one).
pub open spec fn ident_from(s: Seq<char>, i: int) -> Seq<char>
    decreases s.len() - i,
{
    if i < 0 || i >= s.len() || ends_ident(s[i]) {
        Seq::empty()
    } else {
        seq![s[i]] + ident_from(s, i + 1)
    }
}

/// Position of the first non-whitespace character at or after `i`.
pub open spec fn skip_ws_from(s: Seq<char>, i: int) -> int
    decreases s.len() - i,
{
    if i < 0 || i >= s.len() || !is_ws(s[i]) {
        i
    } else {
        skip_ws_from(s, i + 1)
    }
}

/// A documentation attribute body: the bracketed content starts with the
/// identifier `doc`, or with `cfg_attr` whose arguments carry a `doc = ...`
/// (`, doc =` once spaces are removed). Any other `cfg_attr` is not
/// documentation.
pub open spec fn is_doc_bracket(bracket: Seq<char>) -> bool {
    match find_first(bracket, "["@) {
        None => false,
        Some(b) => {
            let id = ident_from(bracket, skip_ws_from(bracket, b + 1));
            id == "doc"@ || (id == "cfg_attr"@ && contains(no_spaces(bracket), ",doc="@))
        },
    }
}

proof fn lemma_byte_to_char_from_bounds(s: Seq<char>, k: int, j: int)
    ensures
        byte_to_char_from(s, k, j) matches Some(r) ==> j <= r <= s.len() && byte_len(s.take(r))
            == k,
    decreases s.len() + 1 - j,
{
    if j < 0 || j > s.len() {
    } else if byte_len(s.take(j)) == k {
    } else if byte_len(s.take(j)) > k {
    } else {
        lemma_byte_to_char_from_bounds(s, k, j + 1);
    }
}

fn utf8_len_exec(c: char) -> (n: usize)
    ensures
        n == utf8_len(c),
{
    let u = c as u32;
    if u < 0x80 {
        1
    } else if u < 0x800 {
        2
    } else if u < 0x10000 {
        3
    } else {
        4
    }
}

/// Byte lengths of prefixes grow with the prefix.
proof fn lemma_byte_len_mono(s: Seq<char>, a: int, b: int)
    requires
        0 <= a <= b <= s.len(),
    ensures
        byte_len(s.take(a)) <= byte_len(s.take(b)),
    decreases b - a,
{
    if a < b {
        lemma_byte_len_mono(s, a, b - 1);
        lemma_byte_len_take(s, b - 1);
    }
}

proof fn lemma_byte_len_take(s: Seq<char>, j: int)
    requires
        0 <= j < s.len(),
    ensures
        byte_len(s.take(j + 1)) == byte_len(s.take(j)) + utf8_len(s[j]),
{
    assert(s.take(j + 1).drop_last() == s.take(j));
}

/// The character index of byte offset `k` of `v`, if it is a boundary.
fn byte_to_char_exec(v: &Vec<char>, k: usize) -> (r: Option<usize>)
    ensures
        r matches Some(j) ==> byte_to_char(v@, k as int) == Some(j as int),
        r is None ==> byte_to_char(v@, k as int) is None,
{
    let mut j: usize = 0;
    let mut b: usize = 0;
    assert(v@.take(0) =~= Seq::<char>::empty());
    loop
        invariant
            j <= v.len(),
            b <= k,
            b == byte_len(v@.take(j as int)),
            byte_to_char(v@, k as int) == byte_to_char_from(v@, k as int, j as int),
        decreases v.len() - j,
    {
        if b == k {
            return Some(j);
        }
        if j == v.len() {
            assert(byte_to_char_from(v@, k as int, j + 1) is None);
            return None;
        }
        let l = utf8_len_exec(v[j]);
        proof {
            lemma_byte_len_take(v@, j as int);
        }
        if l > k - b {
            assert(byte_len(v@.take(j + 1)) > k);
            assert(byte_to_char_from(v@, k as int, j + 1) is None) by {
                assert(j + 1 <= v@.len());
            }
            return None;
        }
        b = b + l;
        j = j + 1;
    }
}

/// Character index, from `m` on, of the first `"` of `t` not escaped by a
/// backslash.
fn quote_end_chars(t: &Vec<char>, m: usize) -> (r: Option<usize>)
    requires
        m <= t.len(),
    ensures
        r matches Some(k) ==> quote_end(t@, m as int) == Some(k as int) && m <= k < t.len(),
        r is None ==> quote_end(t@, m as int) is None,
{
    let ghost u = t@.skip(m as int);
    let mut i = m;
    let mut escaped = false;
    while i < t.len()
        invariant
            m <= i <= t.len(),
            u == t@.skip(m as int),
            quote_from(u, 0, false) == quote_from(u, i - m, escaped),
        decreases t.len() - i,
    {
        assert(u[i - m] == t@[i as int]);
        if escaped {
            escaped = false;
        } else if t[i] == '\\' {
            escaped = true;
        } else if t[i] == '"' {
            return Some(i);
        }
        i = i + 1;
    }
    None
}

/// The byte length of the first `k` characters of `v`, given that of the
/// first `j`.
fn byte_offset(v: &Vec<char>, j: usize, bj: usize, k: usize) -> (r: usize)
    requires
        j <= k <= v.len(),
        bj == byte_len(v@.take(j as int)),
        byte_len(v@) <= usize::MAX,
    ensures
        r == byte_len(v@.take(k as int)),
{
    let mut i = j;
    let mut b = bj;
    while i < k
        invariant
            j <= i <= k <= v.len(),
            b == byte_len(v@.take(i as int)),
            byte_len(v@) <= usize::MAX,
        decreases k - i,
    {
        proof {
            lemma_byte_len_take(v@, i as int);
            lemma_byte_len_mono(v@, i + 1, v@.len() as int);
            assert(v@.take(v@.len() as int) == v@);
        }
        b = b + utf8_len_exec(v[i]);
        i = i + 1;
    }
    b
}

/// Finds the closing quote of a quoted string, skipping escaped quotes: the
/// byte offset of the first unescaped `"` at or after byte offset `start`.
pub fn find_closing_quote(s: &str, start: usize) -> (r: Option<usize>)
    requires
        byte_to_char(s@, start as int) is Some,
        byte_len(s@) <= usize::MAX,
    ensures
        r matches Some(p) ==> closing_quote(s@, start as int) == Some(p as int),
        r is None ==> closing_quote(s@, start as int) is None,
{
    let v = chars_of(s);
    let j = match byte_to_char_exec(&v, start) {
        Some(j) => j,
        None => return None,
    };
    proof {
        lemma_byte_to_char_from_bounds(v@, start as int, 0);
    }
    match quote_end_chars(&v, j) {
        Some(k) => Some(byte_offset(&v, j, start, k)),
        None => None,
    }
}

fn hex_digit_exec(c: char) -> (r: Option<u32>)
    ensures
        r matches Some(x) ==> x <= 15,
        r matches Some(x) ==> hex_digit(c) == Some(x as int),
        r is None ==> hex_digit(c) is None,
{
    if '0' <= c && c <= '9' {
        Some((c as u32) - ('0' as u32))
    } else if 'a' <= c && c <= 'f' {
        Some((c as u32) - ('a' as u32) + 10)
    } else if 'A' <= c && c <= 'F' {
        Some((c as u32) - ('A' as u32) + 10)
    } else {
        None
    }
}

proof fn lemma_hex_value_grows(d: Seq<char>, k: int)
    requires
        0 <= k <= d.len(),
        hex_value(d) is Some,
    ensures
        hex_value(d.take(k)) is Some,
        hex_value(d.take(k))->0 <= hex_value(d)->0,
        hex_value(d.take(k))->0 >= 0,
    decreases d.len(),
{
    if k == d.len() {
        assert(d.take(k) == d);
        lemma_hex_value_nonneg(d);
    } else {
        assert(d.drop_last().take(k) == d.take(k));
        lemma_hex_value_grows(d.drop_last(), k);
        lemma_hex_value_nonneg(d.drop_last());
    }
}

proof fn lemma_hex_value_nonneg(d: Seq<char>)
    ensures
        hex_value(d) matches Some(v) ==> v >= 0,
    decreases d.len(),
{
    if d.len() > 0 {
        lemma_hex_value_nonneg(d.drop_last());
    }
}

/// `parse_hex` with the bound `max` below `u32::MAX` or equal to it.
fn parse_hex_exec(t: &Vec<char>, max: u32) -> (r: Option<u32>)
    requires
        max >= 15,
    ensures
        r matches Some(x) ==> parse_hex(t@, max as int) == Some(x as int),
        r is None ==> parse_hex(t@, max as int) is None,
{
    let first = if t.len() > 0 && t[0] == '+' {
        1
    } else {
        0
    };
    let d = copy_chars(t, first, t.len());
    assert(d@ == (if t@.len() > 0 && t@[0] == '+' {
        t@.skip(1)
    } else {
        t@
    }));
    if d.len() == 0 {
        return None;
    }
    let mut v: u32 = 0;
    let mut k: usize = 0;
    assert(d@.take(0) =~= Seq::<char>::empty());
    while k < d.len()
        invariant
            k <= d.len(),
            hex_value(d@.take(k as int)) == Some(v as int),
            v <= max,
            max >= 15,
            d@.len() > 0,
            d@ == (if t@.len() > 0 && t@[0] == '+' {
                t@.skip(1)
            } else {
                t@
            }),
        decreases d.len() - k,
    {
        assert(d@.take(k + 1).drop_last() == d@.take(k as int));
        assert(d@.take(k + 1).last() == d@[k as int]);
        let x = match hex_digit_exec(d[k]) {
            Some(x) => x,
            None => {
                proof {
                    assert(hex_value(d@.take(k + 1)) is None);
                    if hex_value(d@) is Some {
                        lemma_hex_value_grows(d@, k + 1);
                    }
                }
                return None;
            },
        };
        if v > (max - x) / 16 {
            proof {
                assert(hex_value(d@.take(k + 1)) == Some(v * 16 + x));
                assert(v * 16 + x > max) by (nonlinear_arith)
                    requires
                        v > (max - x) / 16,
                        x <= max,
                ;
                if hex_value(d@) is Some {
                    lemma_hex_value_grows(d@, k + 1);
                }
            }
            return None;
        }
        proof {
            assert(v * 16 + x <= max) by (nonlinear_arith)
                requires
                    v <= (max - x) / 16,
                    x <= max,
            ;
        }
        v = v * 16 + x;
        k = k + 1;
    }
    assert(d@.take(d.len() as int) == d@);
    Some(v)
}

/// `char::from_u32`: the character with code point `v`, when `v` is a
/// Unicode scalar value.
#[verifier::external_body]
fn char_from_u32(v: u32) -> (r: Option<char>)
    ensures
        r is Some <==> is_scalar(v as int),
        r matches Some(c) ==> c as int == v as int,
{
    char::from_u32(v)
}

/// Index of the first `}` at or after `k`, or the length.
fn close_brace_exec(s: &Vec<char>, k: usize) -> (j: usize)
    requires
        k <= s.len(),
    ensures
        j == close_brace_from(s@, k as int),
        k <= j <= s.len(),
{
    let mut j = k;
    while j < s.len() && s[j] != '}'
        invariant
            k <= j <= s.len(),
            close_brace_from(s@, k as int) == close_brace_from(s@, j as int),
        decreases s.len() - j,
    {
        j = j + 1;
    }
    j
}

/// The characters that position `i` of `s` stands for once escapes are
/// resolved, and the position after them.
fn unescape_step(s: &Vec<char>, i: usize) -> (r: (Vec<char>, usize))
    requires
        i < s.len(),
    ensures
        i < r.1 <= s.len(),
        unescape_from(s@, i as int) == r.0@ + unescape_from(s@, r.1 as int),
{
    let n = s.len();
    let c0 = s[i];
    if c0 != '\\' {
        let mut out: Vec<char> = Vec::new();
        out.push(c0);
        return (out, i + 1);
    }
    if n - i <= 1 {
        let mut out: Vec<char> = Vec::new();
        out.push('\\');
        assert(unescape_from(s@, n as int) == Seq::<char>::empty());
        return (out, n);
    }
    let c = s[i + 1];
    let mut out: Vec<char> = Vec::new();
    if c == 'n' {
        out.push('\n');
        return (out, i + 2);
    } else if c == 'r' {
        out.push('\r');
        return (out, i + 2);
    } else if c == 't' {
        out.push('\t');
        return (out, i + 2);
    } else if c == '\\' {
        out.push('\\');
        return (out, i + 2);
    } else if c == '0' {
        out.push('\0');
        return (out, i + 2);
    } else if c == '\'' {
        out.push('\'');
        return (out, i + 2);
    } else if c == '"' {
        out.push('"');
        return (out, i + 2);
    } else if c == 'x' {
        let end = if n - i >= 4 {
            i + 4
        } else {
            n
        };
        let hex = copy_chars(s, i + 2, end);
        match parse_hex_exec(&hex, 0xFF) {
            Some(b) => {
                let byte = b as u8;
                out.push(byte as char);
            },
            None => {
                out.push('\\');
                out.push('x');
                append_chars(&mut out, &hex);
            },
        }
        return (out, end);
    } else if c == 'u' {
        if n - i > 2 && s[i + 2] == '{' {
            let j = close_brace_exec(s, i + 3);
            proof {
                lemma_close_brace_bounds(s@, i + 3);
            }
            let hex = copy_chars(s, i + 3, j);
            let next = if j < n {
                j + 1
            } else {
                n
            };
            let decoded = match parse_hex_exec(&hex, 0xFFFF_FFFF) {
                Some(v) => char_from_u32(v),
                None => None,
            };
            match decoded {
                Some(ch) => {
                    out.push(ch);
                },
                None => {
                    out.push('\\');
                    out.push('u');
                    out.push('{');
                    append_chars(&mut out, &hex);
                    out.push('}');
                },
            }
            return (out, next);
        } else {
            let next = if n - i >= 3 {
                i + 3
            } else {
                n
            };
            out.push('\\');
            out.push('u');
            return (out, next);
        }
    } else {
        out.push('\\');
        out.push(c);
        return (out, i + 2);
    }
}

/// Resolves the Rust escapes of a character sequence.
fn unescape_chars(s: &Vec<char>) -> (r: Vec<char>)
    ensures
        r@ == unescape(s@),
{
    let mut out: Vec<char> = Vec::new();
    let mut i: usize = 0;
    while i < s.len()
        invariant
            i <= s.len(),
            out@ + unescape_from(s@, i as int) == unescape(s@),
        decreases s.len() - i,
    {
        let (piece, next) = unescape_step(s, i);
        let ghost before = out@;
        append_chars(&mut out, &piece);
        assert(before + (piece@ + unescape_from(s@, next as int)) == out@ + unescape_from(
            s@,
            next as int,
        ));
        i = next;
    }
    assert(out@ + Seq::<char>::empty() == out@);
    out
}

/// Unescapes Rust string escape sequences (`\n`, `\x41`, `\u{1F600}`, ...);
/// malformed and unknown escapes are kept as written.
pub fn unescape_rust_string(s: &str) -> (r: String)
    ensures
        r@ == unescape(s@),
{
    let v = chars_of(s);
    string_of(&unescape_chars(&v))
}

proof fn lemma_quote_from_bounds(t: Seq<char>, i: int, escaped: bool)
    ensures
        quote_from(t, i, escaped) matches Some(k) ==> i <= k < t.len(),
    decreases t.len() - i,
{
    if 0 <= i < t.len() {
        lemma_quote_from_bounds(t, i + 1, true);
        lemma_quote_from_bounds(t, i + 1, false);
    }
}

/// The content of the string literal that a trimmed text starts with.
fn literal_chars(s: &Vec<char>) -> (r: Option<Vec<char>>)
    ensures
        r matches Some(c) ==> string_literal(s@) == Some(c@),
        r is None ==> string_literal(s@) is None,
{
    let t = trim_chars(s);
    if starts_with_chars(&t, &chars_of("\"")) {
        proof {
            reveal_strlit("\"");
        }
        if let Some(end) = quote_end_chars(&t, 1) {
            let escaped = copy_chars(&t, 1, end);
            return Some(unescape_chars(&escaped));
        }
    }
    if starts_with_chars(&t, &chars_of("r#")) {
        if let Some(start) = find_chars(&t, &chars_of("\"")) {
            proof {
                lemma_find_first_bounds(t@, "\""@);
                reveal_strlit("\"");
            }
            let tail = copy_chars(&t, start + 1, t.len());
            assert(tail@ == t@.skip(start + 1));
            if let Some(end) = find_chars(&tail, &chars_of("\"#")) {
                proof {
                    lemma_find_first_bounds(tail@, "\"#"@);
                }
                return Some(copy_chars(&t, start + 1, start + 1 + end));
            }
        }
    }
    if starts_with_chars(&t, &chars_of("r\"")) {
        proof {
            reveal_strlit("r\"");
        }
        if let Some(end) = quote_end_chars(&t, 2) {
            return Some(copy_chars(&t, 2, end));
        }
    }
    None
}

/// Extracts the string literal a text starts with: a quoted string with
/// its escapes resolved, or a raw string (`r"..."`, `r#"..."#`) as it is.
pub fn extract_string_literal(s: &str) -> (r: Option<String>)
    ensures
        opt_view(r) == string_literal(s@),
{
    let v = chars_of(s);
    match literal_chars(&v) {
        Some(c) => Some(string_of(&c)),
        None => None,
    }
}

/// The top-level token trees of source text as proc-macro2 prints each of
/// them, for source text that lexes; `None` when it does not.
pub uninterp spec fn token_tree_texts(src: Seq<char>) -> Option<Seq<Seq<char>>>;

/// `proc_macro2::TokenStream::from_str`, each top-level token tree of the
/// result converted to its text with `to_string` (doc comments lex as `doc`
/// attributes). The texts are named, not described; they depend on the
/// source text alone.
#[verifier::external_body]
fn lex_token_trees(src: &str) -> (r: Option<Vec<String>>)
    ensures
        match r {
            Some(v) => token_tree_texts(src@) == Some(strings_view(v@)),
            None => token_tree_texts(src@) is None,
        },
{
    match src.parse::<proc_macro2::TokenStream>() {
        Ok(ts) => Some(ts.into_iter().map(|t| t.to_string()).collect()),
        Err(_) => None,
    }
}

/// Attribute tokens as the parsed attribute prints them: its top-level
/// token trees separated by single spaces (`# ! [doc = " x"]`).
pub open spec fn printed_attr(src: Seq<char>) -> Option<Seq<char>> {
    match token_tree_texts(src) {
        Some(ts) => Some(join(ts, seq![' '])),
        None => None,
    }
}

fn printed_attr_exec(src: &str) -> (r: Option<String>)
    ensures
        opt_view(r) == printed_attr(src@),
{
    match lex_token_trees(src) {
        Some(trees) => {
            let mut parts: Vec<Vec<char>> = Vec::new();
            let mut i: usize = 0;
            while i < trees.len()
                invariant
                    i <= trees.len(),
                    vecs_view(parts@) == strings_view(trees@.take(i as int)),
                decreases trees.len() - i,
            {
                let ghost before = parts@;
                parts.push(chars_of(trees[i].as_str()));
                assert(vecs_view(parts@) == vecs_view(before).push(trees@[i as int]@));
                assert(strings_view(trees@.take(i + 1)) == strings_view(trees@.take(i as int)).push(
                    trees@[i as int]@,
                ));
                i = i + 1;
            }
            assert(trees@.take(trees.len() as int) == trees@);
            Some(string_of(&join_sep(&parts, ' ')))
        },
        None => None,
    }
}

impl Attribute {
    /// An outer attribute from its source text (`#[doc = "..."]` or a doc
    /// comment), held as its printed tokens; `None` when the text does not
    /// lex.
    pub fn from_source(src: &str) -> (r: Option<Attribute>)
        ensures
            r matches Some(a) ==> printed_attr(src@) == Some(a.tokens@),
            r is None ==> printed_attr(src@) is None,
    {
        match printed_attr_exec(src) {
            Some(tokens) => Some(Attribute { tokens }),
            None => None,
        }
    }
}

impl InnerAttribute {
    /// An inner attribute from its source text (`#![doc = "..."]` or a
    /// `//!` comment), held as its printed tokens; `None` when the text does
    /// not lex.
    pub fn from_source(src: &str) -> (r: Option<InnerAttribute>)
        ensures
            r matches Some(a) ==> printed_attr(src@) == Some(a.tokens@),
            r is None ==> printed_attr(src@) is None,
    {
        match printed_attr_exec(src) {
            Some(tokens) => Some(InnerAttribute { tokens }),
            None => None,
        }
    }
}

/// The text after the `=` that follows `doc` in printed attribute tokens
/// that begin with `opener`.
fn after_doc_eq_exec(text: &Vec<char>, opener: &Vec<char>) -> (r: Option<Vec<char>>)
    ensures
        r matches Some(a) ==> after_doc_eq(text@, opener@) == Some(a@),
        r is None ==> after_doc_eq(text@, opener@) is None,
{
    if !starts_with_chars(text, opener) {
        return None;
    }
    let d = match find_chars(text, &chars_of("doc")) {
        Some(d) => d,
        None => return None,
    };
    proof {
        lemma_find_first_bounds(text@, "doc"@);
    }
    let after_doc = copy_chars(text, d, text.len());
    assert(after_doc@ == text@.skip(d as int));
    let e = match find_chars(&after_doc, &chars_of("=")) {
        Some(e) => e,
        None => return None,
    };
    proof {
        lemma_find_first_bounds(after_doc@, "="@);
        reveal_strlit("=");
    }
    let rest = copy_chars(&after_doc, e + 1, after_doc.len());
    assert(rest@ == after_doc@.skip(e + 1));
    Some(trim_start_chars(&rest))
}

/// The documentation string of printed attribute tokens that begin with
/// `opener`.
fn doc_from_tokens(text: &Vec<char>, opener: &Vec<char>) -> (r: Option<Vec<char>>)
    ensures
        r matches Some(c) ==> attr_doc(text@, opener@) == Some(c@),
        r is None ==> attr_doc(text@, opener@) is None,
{
    match after_doc_eq_exec(text, opener) {
        Some(after_eq) => literal_chars(&after_eq),
        None => None,
    }
}

/// Extracts the doc string of a single outer attribute (`#[doc = "..."]`).
pub fn extract_from_single_attr(attr: &Attribute) -> (r: Option<String>)
    ensures
        opt_view(r) == attr_doc(attr.tokens@, outer_opener()),
{
    let text = chars_of(attr.tokens.as_str());
    match doc_from_tokens(&text, &chars_of("# [")) {
        Some(c) => Some(string_of(&c)),
        None => None,
    }
}

/// Extracts the doc string of a single inner attribute (`#![doc = "..."]`).
pub fn extract_from_inner_attr(attr: &InnerAttribute) -> (r: Option<String>)
    ensures
        opt_view(r) == attr_doc(attr.tokens@, inner_opener()),
{
    let text = chars_of(attr.tokens.as_str());
    match doc_from_tokens(&text, &chars_of("# ! [")) {
        Some(c) => Some(string_of(&c)),
        None => None,
    }
}

/// `strip_one_space` on characters.
fn strip_one_space_chars(c: &Vec<char>) -> (r: Vec<char>)
    ensures
        r@ == strip_one_space(c@),
{
    if starts_with_chars(c, &chars_of(" ")) {
        proof {
            reveal_strlit(" ");
        }
        let r = copy_chars(c, 1, c.len());
        assert(r@ == c@.skip(1));
        r
    } else {
        copy_chars(c, 0, c.len())
    }
}

/// Joins collected doc lines with `\n` and trims the result; `None` when
/// there are none.
fn finish_doc_lines(lines: &Vec<Vec<char>>) -> (r: Option<String>)
    ensures
        lines@.len() == 0 ==> r is None,
        lines@.len() > 0 ==> opt_view(r) == Some(trim(join(vecs_view(lines@), newline()))),
{
    if lines.len() == 0 {
        None
    } else {
        let joined = join_lines(lines);
        Some(string_of(&trim_chars(&joined)))
    }
}

/// Extracts documentation content from a list of outer attributes: the doc
/// strings (without the one space a doc comment puts first) joined by
/// `\n` and trimmed, or `None` when there is no doc attribute.
pub fn extract_doc_content(attrs: &Option<Vec<Attribute>>) -> (r: Option<String>)
    ensures
        opt_view(r) == doc_content(attrs_view(*attrs), outer_opener()),
{
    let list = match attrs {
        Some(list) => list,
        None => return None,
    };
    let ghost a = list@.map_values(|x: Attribute| x.tokens@);
    let mut doc_strings: Vec<Vec<char>> = Vec::new();
    let mut i: usize = 0;
    while i < list.len()
        invariant
            i <= list.len(),
            a == list@.map_values(|x: Attribute| x.tokens@),
            a.len() == list.len(),
            vecs_view(doc_strings@) == doc_lines(a.take(i as int), outer_opener()),
        decreases list.len() - i,
    {
        assert(a.take(i + 1).drop_last() == a.take(i as int));
        assert(a.take(i + 1).last() == a[i as int]);
        let text = chars_of(list[i].tokens.as_str());
        if let Some(c) = doc_from_tokens(&text, &chars_of("# [")) {
            let line = strip_one_space_chars(&c);
            let ghost before = doc_strings@;
            doc_strings.push(line);
            assert(vecs_view(doc_strings@) == vecs_view(before).push(line@));
        }
        i = i + 1;
    }
    assert(a.take(list.len() as int) == a);
    finish_doc_lines(&doc_strings)
}

/// Extracts documentation content from a list of inner attributes
/// (`#![doc = "..."]`), as `extract_doc_content` does for outer ones.
pub fn extract_inner_doc_content(attrs: &Option<Vec<InnerAttribute>>) -> (r: Option<String>)
    ensures
        opt_view(r) == doc_content(inner_attrs_view(*attrs), inner_opener()),
{
    let list = match attrs {
        Some(list) => list,
        None => return None,
    };
    let ghost a = list@.map_values(|x: InnerAttribute| x.tokens@);
    let mut doc_strings: Vec<Vec<char>> = Vec::new();
    let mut i: usize = 0;
    while i < list.len()
        invariant
            i <= list.len(),
            a == list@.map_values(|x: InnerAttribute| x.tokens@),
            a.len() == list.len(),
            vecs_view(doc_strings@) == doc_lines(a.take(i as int), inner_opener()),
        decreases list.len() - i,
    {
        assert(a.take(i + 1).drop_last() == a.take(i as int));
        assert(a.take(i + 1).last() == a[i as int]);
        let text = chars_of(list[i].tokens.as_str());
        if let Some(c) = doc_from_tokens(&text, &chars_of("# ! [")) {
            let line = strip_one_space_chars(&c);
            let ghost before = doc_strings@;
            doc_strings.push(line);
            assert(vecs_view(doc_strings@) == vecs_view(before).push(line@));
        }
        i = i + 1;
    }
    assert(a.take(list.len() as int) == a);
    finish_doc_lines(&doc_strings)
}

/// Whether any doc attribute is present.
pub fn has_doc_attrs(attrs: &Option<Vec<Attribute>>) -> (b: bool)
    ensures
        b == doc_content(attrs_view(*attrs), outer_opener()) is Some,
{
    extract_doc_content(attrs).is_some()
}

fn ends_ident_exec(c: char) -> (b: bool)
    ensures
        b == ends_ident(c),
{
    let u = c as u32;
    is_ws_char(c) || (0x21 <= u && u <= 0x2F) || (0x3A <= u && u <= 0x40) || (0x5B <= u && u
        <= 0x60 && u != 0x5F) || (0x7B <= u && u <= 0x7E)
}

fn skip_ws_exec(v: &Vec<char>, i: usize) -> (j: usize)
    requires
        i <= v.len(),
    ensures
        j == skip_ws_from(v@, i as int),
{
    let mut j = i;
    while j < v.len() && is_ws_char(v[j])
        invariant
            i <= j <= v.len(),
            skip_ws_from(v@, i as int) == skip_ws_from(v@, j as int),
        decreases v.len() - j,
    {
        j = j + 1;
    }
    j
}

fn ident_exec(v: &Vec<char>, i: usize) -> (r: Vec<char>)
    requires
        i <= v.len(),
    ensures
        r@ == ident_from(v@, i as int),
{
    let mut out: Vec<char> = Vec::new();
    let mut k = i;
    while k < v.len() && !ends_ident_exec(v[k])
        invariant
            i <= k <= v.len(),
            out@ + ident_from(v@, k as int) == ident_from(v@, i as int),
        decreases v.len() - k,
    {
        let ghost before = out@;
        out.push(v[k]);
        assert(before + (seq![v@[k as int]] + ident_from(v@, k + 1)) == out@ + ident_from(
            v@,
            k + 1,
        ));
        k = k + 1;
    }
    assert(out@ + Seq::<char>::empty() == out@);
    out
}

/// Whether two character sequences are equal.
fn same_chars(a: &Vec<char>, b: &Vec<char>) -> (r: bool)
    ensures
        r == (a@ == b@),
{
    if a.len() != b.len() {
        return false;
    }
    let r = starts_with_chars(a, b);
    proof {
        assert(a@.len() == b@.len() ==> a@.take(b@.len() as int) == a@);
    }
    r
}

/// Whether a bracketed attribute body (`[doc = "..."]`, printed as tokens)
/// is documentation: `doc`, or a `cfg_attr` that carries `doc = ...`.
pub fn is_doc_attribute_bracket(bracket: &str) -> (b: bool)
    ensures
        b == is_doc_bracket(bracket@),
{
    let v = chars_of(bracket);
    let lb = match find_chars(&v, &chars_of("[")) {
        Some(o) => o,
        None => return false,
    };
    proof {
        reveal_strlit("[");
        lemma_find_first_bounds(v@, "["@);
    }
    let n = v.len();
    assert(lb + 1 <= n);
    let start = skip_ws_exec(&v, lb + 1);
    proof {
        lemma_skip_ws_bounds(v@, lb + 1);
    }
    let id = ident_exec(&v, start);
    same_chars(&id, &chars_of("doc")) || (same_chars(&id, &chars_of("cfg_attr")) && contains_chars(
        &no_spaces_chars(&v),
        &chars_of(",doc="),
    ))
}

proof fn lemma_skip_ws_bounds(s: Seq<char>, i: int)
    requires
        0 <= i <= s.len(),
    ensures
        i <= skip_ws_from(s, i) <= s.len(),
    decreases s.len() - i,
{
    if i < s.len() && is_ws(s[i]) {
        lemma_skip_ws_bounds(s, i + 1);
    }
}

/// Whether an inner attribute is a doc attribute.
pub fn is_inner_doc_attr(attr: &InnerAttribute) -> (b: bool)
    ensures
        b == is_doc_bracket(attr.tokens@),
{
    is_doc_attribute_bracket(attr.tokens.as_str())
}

/// Whether an outer attribute is a doc attribute.
pub fn is_outer_doc_attr(attr: &Attribute) -> (b: bool)
    ensures
        b == is_doc_bracket(attr.tokens@),
{
    is_doc_attribute_bracket(attr.tokens.as_str())
}

proof fn lemma_unescape_plain_from(s: Seq<char>, i: int)
    requires
        0 <= i <= s.len(),
        forall|k: int| 0 <= k < s.len() ==> s[k] != '\\',
    ensures
        unescape_from(s, i) == s.skip(i),
    decreases s.len() - i,
{
    if i < s.len() {
        lemma_unescape_plain_from(s, i + 1);
        assert(s.skip(i) =~= seq![s[i]] + s.skip(i + 1));
    } else {
        assert(s.skip(i) =~= Seq::<char>::empty());
    }
}

/// A text without backslashes has nothing to unescape: it comes back as it
/// is.
pub proof fn lemma_unescape_plain(s: Seq<char>)
    requires
        forall|k: int| 0 <= k < s.len() ==> s[k] != '\\',
    ensures
        unescape(s) == s,
{
    lemma_unescape_plain_from(s, 0);
    assert(s.skip(0) == s);
}

/// The lowercase hexadecimal digit of a value below 16.
pub open spec fn hex_char(d: int) -> char {
    if d < 10 {
        (('0' as int) + d) as char
    } else {
        (('a' as int) + d - 10) as char
    }
}

/// The lowercase hexadecimal digits of `n`, without leading zeros.
pub open spec fn hex_digits(n: nat) -> Seq<char>
    decreases n,
{
    if n < 16 {
        seq![hex_char(n as int)]
    } else {
        hex_digits(n / 16).push(hex_char((n % 16) as int))
    }
}

proof fn lemma_hex_char(d: int)
    requires
        0 <= d < 16,
    ensures
        hex_digit(hex_char(d)) == Some(d),
        hex_char(d) != '}',
        hex_char(d) != '+',
{
}

proof fn lemma_hex_digits(n: nat)
    ensures
        hex_value(hex_digits(n)) == Some(n as int),
        hex_digits(n).len() > 0,
        forall|k: int| 0 <= k < hex_digits(n).len() ==> #[trigger] hex_digits(n)[k] != '}'
            && hex_digits(n)[k] != '+',
    decreases n,
{
    if n < 16 {
        lemma_hex_char(n as int);
        let d = hex_digits(n);
        assert(d.drop_last() =~= Seq::<char>::empty());
        assert(hex_value(Seq::<char>::empty()) == Some(0int));
        assert(d.last() == hex_char(n as int));
        assert(hex_value(d) == Some(0int * 16 + n));
    } else {
        lemma_hex_digits(n / 16);
        lemma_hex_char((n % 16) as int);
        let d = hex_digits(n);
        assert(d.drop_last() == hex_digits(n / 16));
        assert(d.last() == hex_char((n % 16) as int));
        assert((n / 16) as int * 16 + (n % 16) as int == n) by (nonlinear_arith);
        assert(hex_value(d) == Some((n / 16) as int * 16 + (n % 16) as int));
        assert forall|k: int| 0 <= k < d.len() implies #[trigger] d[k] != '}' && d[k] != '+' by {
            if k < d.len() - 1 {
                assert(d[k] == hex_digits(n / 16)[k]);
            }
        }
    }
}

/// `char::escape_default` of one character: `\t`, `\r`, `\n`, `\'`, `\"`
/// and `\\` for those, printable ASCII as it is, and `\u{...}` with the
/// lowercase hexadecimal code point for every other character.
pub open spec fn escape_default_char(c: char) -> Seq<char> {
    if c == '\t' {
        seq!['\\', 't']
    } else if c == '\r' {
        seq!['\\', 'r']
    } else if c == '\n' {
        seq!['\\', 'n']
    } else if c == '\'' || c == '"' || c == '\\' {
        seq!['\\', c]
    } else if 0x20 <= (c as u32) <= 0x7e {
        seq![c]
    } else {
        seq!['\\', 'u', '{'] + hex_digits((c as u32) as nat) + seq!['}']
    }
}

/// `str::escape_default`: each character escaped in turn.
pub open spec fn escape_default(s: Seq<char>) -> Seq<char>
    decreases s.len(),
{
    if s.len() == 0 {
        Seq::empty()
    } else {
        escape_default(s.drop_last()) + escape_default_char(s.last())
    }
}

proof fn lemma_close_brace_at(s: Seq<char>, k: int, m: int)
    requires
        0 <= k <= m < s.len(),
        s[m] == '}',
        forall|j: int| k <= j < m ==> s[j] != '}',
    ensures
        close_brace_from(s, k) == m,
    decreases m - k,
{
    if k < m {
        lemma_close_brace_at(s, k + 1, m);
    }
}

/// Unescaping at the start of one escaped character reads that character
/// and goes on right after its escape.
#[verifier::spinoff_prover]
proof fn lemma_unescape_one(e: Seq<char>, b: int, c: char)
    requires
        0 <= b,
        b + escape_default_char(c).len() <= e.len(),
        e.subrange(b, b + escape_default_char(c).len()) == escape_default_char(c),
    ensures
        unescape_from(e, b) == seq![c] + unescape_from(e, b + escape_default_char(c).len()),
{
    let x = escape_default_char(c);
    assert forall|j: int| 0 <= j < x.len() implies e[b + j] == #[trigger] x[j] by {
        assert(e.subrange(b, b + x.len())[j] == e[b + j]);
    }
    assert(e[b] == x[0]);
    if x.len() >= 2 {
        assert(e[b + 1] == x[1]);
    }
    if !(c == '\t' || c == '\r' || c == '\n' || c == '\'' || c == '"' || c == '\\' || 0x20 <= (
    c as u32) <= 0x7e) {
        let v = (c as u32) as nat;
        let h = hex_digits(v);
        lemma_hex_digits(v);
        assert(x == seq!['\\', 'u', '{'] + h + seq!['}']);
        assert(e[b + 2] == x[2]);
        assert forall|j: int| b + 3 <= j < b + 3 + h.len() implies e[j] != '}' by {
            assert(e[b + (j - b)] == x[j - b]);
            assert(x[j - b] == h[j - b - 3]);
        }
        assert(e[b + 3 + h.len()] == x[3 + h.len() as int]);
        lemma_close_brace_at(e, b + 3, b + 3 + h.len());
        assert(e.subrange(b + 3, b + 3 + h.len()) =~= h) by {
            assert forall|j: int| 0 <= j < h.len() implies e.subrange(b + 3, b + 3 + h.len())[j]
                == h[j] by {
                assert(e[b + (j + 3)] == x[j + 3]);
            }
        }
        assert(h[0] != '+');
        assert(parse_hex(h, 0xFFFF_FFFF) == Some(v as int));
        assert(is_scalar(v as int));
        assert((v as int) as char == c);
    }
}

/// The escape of a prefix is a prefix of the escape.
proof fn lemma_escape_prefix(s: Seq<char>, k: int)
    requires
        0 <= k <= s.len(),
    ensures
        escape_default(s.take(k)).len() <= escape_default(s).len(),
        escape_default(s).take(escape_default(s.take(k)).len() as int) == escape_default(s.take(k)),
    decreases s.len(),
{
    if k < s.len() {
        lemma_escape_prefix(s.drop_last(), k);
        assert(s.drop_last().take(k) =~= s.take(k));
        let a = escape_default(s.drop_last());
        let p = escape_default(s.take(k));
        assert(escape_default(s) == a + escape_default_char(s.last()));
        assert((a + escape_default_char(s.last())).take(p.len() as int) =~= a.take(p.len() as int));
    } else {
        assert(s.take(k) =~= s);
    }
}

proof fn lemma_unescape_escaped_from(s: Seq<char>, k: int)
    requires
        0 <= k <= s.len(),
    ensures
        unescape_from(escape_default(s), escape_default(s.take(k)).len() as int) == s.skip(k),
    decreases s.len() - k,
{
    let e = escape_default(s);
    if k == s.len() {
        assert(s.take(k) =~= s);
        assert(s.skip(k) =~= Seq::<char>::empty());
    } else {
        lemma_escape_prefix(s, k + 1);
        let p0 = escape_default(s.take(k));
        let p1 = escape_default(s.take(k + 1));
        assert(s.take(k + 1).drop_last() =~= s.take(k));
        assert(s.take(k + 1).last() == s[k]);
        let x = escape_default_char(s[k]);
        assert(p1 == p0 + x);
        let lo = p0.len() as int;
        let hi = lo + x.len();
        assert(e.subrange(lo, hi) =~= x) by {
            assert forall|j: int| 0 <= j < x.len() implies e.subrange(lo, hi)[j] == x[j] by {
                assert(e.take(p1.len() as int)[p0.len() + j] == p1[p0.len() + j]);
            }
        }
        lemma_unescape_one(e, p0.len() as int, s[k]);
        lemma_unescape_escaped_from(s, k + 1);
        assert(s.skip(k) =~= seq![s[k]] + s.skip(k + 1));
    }
}

/// Unescaping undoes `str::escape_default`: every text comes back from its
/// escaped form.
pub proof fn lemma_unescape_escape_default(s: Seq<char>)
    ensures
        unescape(escape_default(s)) == s,
{
    lemma_unescape_escaped_from(s, 0);
    assert(s.take(0) =~= Seq::<char>::empty());
    assert(s.skip(0) =~= s);
}

} // verus!
