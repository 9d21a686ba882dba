//! Reformatting of inner attribute lines that hold the module documentation
//! macro: the attribute's content is wrapped in a constant expression
//! ("bookended"), formatted by rustfmt, unwrapped and put back.
use vstd::prelude::*;

use crate::text::{
    append_chars, chars_of, contains, contains_chars, copy_chars, ends_with_chars, find_chars,
    find_first, find_last, has_prefix, has_suffix, join, join_lines, lines, lines_of, newline,
    no_spaces, no_spaces_chars, rfind_chars, starts_with_chars, string_of, trim, trim_chars,
    trim_end, trim_start, trim_start_chars, vecs_view,
};

verus! {

/// A line that opens an inner attribute holding the module documentation macro.
pub open spec fn needs_bookend(line: Seq<char>) -> bool {
    let n = no_spaces(trim_start(line));
    has_prefix(n, "#!"@) && (contains(n, "syncdoc::module_doc!"@) || contains(n, "module_doc!"@))
}

/// `s` from index `i` on with the spaces outside string literals removed;
/// `in_str` and `esc` say whether `s[i]` lies inside a literal and follows
/// a backslash there. Text inside a literal is kept as it is.
pub open spec fn layout_free_from(s: Seq<char>, i: int, in_str: bool, esc: bool) -> Seq<char>
    decreases s.len() - i,
{
    if i < 0 || i >= s.len() {
        Seq::empty()
    } else {
        let c = s[i];
        if in_str {
            if esc {
                seq![c] + layout_free_from(s, i + 1, true, false)
            } else if c == '\\' {
                seq![c] + layout_free_from(s, i + 1, true, true)
            } else if c == '"' {
                seq![c] + layout_free_from(s, i + 1, false, false)
            } else {
                seq![c] + layout_free_from(s, i + 1, true, false)
            }
        } else if c == ' ' {
            layout_free_from(s, i + 1, false, false)
        } else if c == '"' {
            seq![c] + layout_free_from(s, i + 1, true, false)
        } else {
            seq![c] + layout_free_from(s, i + 1, false, false)
        }
    }
}

/// The text with the spaces outside string literals removed.
pub open spec fn layout_free(s: Seq<char>) -> Seq<char> {
    layout_free_from(s, 0, false, false)
}

/// What stands between `#![` and the last `]` of the line, with the spaces
/// outside string literals removed.
pub open spec fn bookend_content(line: Seq<char>) -> Option<Seq<char>> {
    let n = layout_free(trim_start(line));
    match find_first(n, "#!["@) {
        None => None,
        Some(st) => match find_last(n, "]"@) {
            None => None,
            Some(e) => if st + 3 >= e {
                None
            } else {
                Some(trim(n.subrange(st + 3, e)))
            },
        },
    }
}

pub open spec fn bookend_prefix() -> Seq<char> {
    "const _: i32 = { "@
}

pub open spec fn bookend_suffix() -> Seq<char> {
    " };"@
}

/// The content wrapped in a constant expression that rustfmt can format.
pub open spec fn bookended(content: Seq<char>) -> Seq<char> {
    bookend_prefix() + content + bookend_suffix()
}

/// The content of a formatted constant expression, `None` when the text is
/// not one, or when its prefix and suffix overlap (as in `const _: i32 = { };`).
pub open spec fn unbookended(formatted: Seq<char>) -> Option<Seq<char>> {
    let t = trim(formatted);
    if !has_prefix(t, bookend_prefix()) || !has_suffix(t, bookend_suffix()) || t.len()
        < bookend_prefix().len() + bookend_suffix().len() {
        None
    } else {
        Some(t.subrange(bookend_prefix().len() as int, t.len() - bookend_suffix().len()))
    }
}

/// `#![content]`.
pub open spec fn inner_attr(content: Seq<char>) -> Seq<char> {
    "#!["@ + content + "]"@
}

/// What rustfmt is asked to format for a line, if anything.
pub open spec fn bookend_request(line: Seq<char>) -> Option<Seq<char>> {
    if needs_bookend(line) {
        match bookend_content(line) {
            Some(c) => Some(bookended(c)),
            None => None,
        }
    } else {
        None
    }
}

/// The reformatted attribute, given what rustfmt made of the bookended
/// content (`None` when it failed).
pub open spec fn reformatted(line: Seq<char>, formatted: Option<Seq<char>>) -> Option<Seq<char>> {
    match bookend_content(line) {
        None => None,
        Some(_) => match formatted {
            None => None,
            Some(f) => match unbookended(f) {
                None => None,
                Some(c) => Some(inner_attr(c)),
            },
        },
    }
}

/// A line after bookending: the reformatted attribute where there is one,
/// else the line as it was.
pub open spec fn bookended_line(line: Seq<char>, formatted: Option<Seq<char>>) -> Seq<char> {
    if needs_bookend(line) {
        match reformatted(line, formatted) {
            Some(r) => r,
            None => line,
        }
    } else {
        line
    }
}

/// There is one answer of rustfmt for each line.
pub open spec fn answers_in_range(ls: Seq<Seq<char>>, fs: Seq<Option<Seq<char>>>) -> bool {
    fs.len() == ls.len()
}

/// The code with each line bookended.
pub open spec fn bookended_code(code: Seq<char>, fs: Seq<Option<Seq<char>>>) -> Seq<char> {
    let ls = lines(code);
    join(Seq::new(ls.len(), |i: int| bookended_line(ls[i], fs[i])), newline())
}

/// The views of optional strings.
pub open spec fn opt_strings_view(fs: Seq<Option<String>>) -> Seq<Option<Seq<char>>> {
    fs.map_values(
        |f: Option<String>|
            match f {
                Some(s) => Some(s@),
                None => None,
            },
    )
}

fn needs_bookending_chars(line: &Vec<char>) -> (b: bool)
    ensures
        b == needs_bookend(line@),
{
    let t = trim_start_chars(line);
    let n = no_spaces_chars(&t);
    if !starts_with_chars(&n, &chars_of("#!")) {
        return false;
    }
    contains_chars(&n, &chars_of("syncdoc::module_doc!")) || contains_chars(
        &n,
        &chars_of("module_doc!"),
    )
}

/// Checks whether a line opens an inner attribute holding the module
/// documentation macro.
pub fn needs_bookending(line: &str) -> (b: bool)
    ensures
        b == needs_bookend(line@),
{
    needs_bookending_chars(&chars_of(line))
}

fn layout_free_chars(v: &Vec<char>) -> (r: Vec<char>)
    ensures
        r@ == layout_free(v@),
{
    let mut out: Vec<char> = Vec::new();
    let mut in_str = false;
    let mut esc = false;
    let mut i: usize = 0;
    while i < v.len()
        invariant
            i <= v.len(),
            out@ + layout_free_from(v@, i as int, in_str, esc) == layout_free(v@),
            !in_str ==> !esc,
        decreases v.len() - i,
    {
        let c = v[i];
        assert(c == v@[i as int]);
        let ghost out0 = out@;
        let ghost s0 = in_str;
        let ghost e0 = esc;
        let mut pushed = true;
        if in_str {
            if esc {
                esc = false;
            } else if c == '\\' {
                esc = true;
            } else if c == '"' {
                in_str = false;
            }
            out.push(c);
        } else if c == ' ' {
            pushed = false;
        } else {
            if c == '"' {
                in_str = true;
            }
            out.push(c);
        }
        proof {
            let tail = layout_free_from(v@, i + 1, in_str, esc);
            if pushed {
                assert(layout_free_from(v@, i as int, s0, e0) == seq![c] + tail);
                assert(out0 + (seq![c] + tail) =~= out@ + tail);
            } else {
                assert(layout_free_from(v@, i as int, s0, e0) == tail);
                assert(out@ == out0);
            }
        }
        i = i + 1;
    }
    assert(layout_free_from(v@, i as int, in_str, esc) == Seq::<char>::empty());
    assert(out@ + Seq::<char>::empty() =~= out@);
    out
}

fn bookend_content_chars(line: &Vec<char>) -> (r: Option<Vec<char>>)
    ensures
        r matches Some(c) ==> bookend_content(line@) == Some(c@),
        r is None ==> bookend_content(line@) is None,
{
    let t = trim_start_chars(line);
    let n = layout_free_chars(&t);
    let start = match find_chars(&n, &chars_of("#![")) {
        Some(s) => s,
        None => return None,
    };
    let end = match rfind_chars(&n, &chars_of("]")) {
        Some(e) => e,
        None => return None,
    };
    proof {
        reveal_strlit("#![");
        reveal_strlit("]");
        crate::text::lemma_find_first_bounds(n@, "#!["@);
        crate::text::lemma_find_last_bounds(n@, "]"@);
    }
    assert(n@.len() == n.len());
    let cs = start + 3;
    if cs >= end {
        return None;
    }
    let inner = copy_chars(&n, cs, end);
    Some(trim_chars(&inner))
}

/// Extracts what stands between `#![` and the last `]` of the line, with
/// the spaces outside string literals removed and the result trimmed.
pub fn extract_bookend_content(line: &str) -> (r: Option<String>)
    ensures
        r matches Some(c) ==> bookend_content(line@) == Some(c@),
        r is None ==> bookend_content(line@) is None,
{
    match bookend_content_chars(&chars_of(line)) {
        Some(c) => Some(string_of(&c)),
        None => None,
    }
}

fn bookended_chars(content: &Vec<char>) -> (r: Vec<char>)
    ensures
        r@ == bookended(content@),
{
    let mut r = chars_of("const _: i32 = { ");
    append_chars(&mut r, content);
    append_chars(&mut r, &chars_of(" };"));
    r
}

/// Wraps content in a constant expression for rustfmt.
pub fn create_bookended_expr(content: &str) -> (r: String)
    ensures
        r@ == bookended(content@),
{
    string_of(&bookended_chars(&chars_of(content)))
}

fn unbookended_chars(formatted: &Vec<char>) -> (r: Option<Vec<char>>)
    ensures
        r matches Some(c) ==> unbookended(formatted@) == Some(c@),
        r is None ==> unbookended(formatted@) is None,
{
    let t = trim_chars(formatted);
    let prefix = chars_of("const _: i32 = { ");
    let suffix = chars_of(" };");
    if !starts_with_chars(&t, &prefix) || !ends_with_chars(&t, &suffix) || t.len() - suffix.len()
        < prefix.len() {
        return None;
    }
    Some(copy_chars(&t, prefix.len(), t.len() - suffix.len()))
}

/// Strips the constant-expression wrapper from rustfmt's output.
pub fn strip_bookends(formatted: &str) -> (r: Option<String>)
    ensures
        r matches Some(c) ==> unbookended(formatted@) == Some(c@),
        r is None ==> unbookended(formatted@) is None,
{
    match unbookended_chars(&chars_of(formatted)) {
        Some(c) => Some(string_of(&c)),
        None => None,
    }
}

fn inner_attr_chars(content: &Vec<char>) -> (r: Vec<char>)
    ensures
        r@ == inner_attr(content@),
{
    let mut r = chars_of("#![");
    append_chars(&mut r, content);
    append_chars(&mut r, &chars_of("]"));
    r
}

/// Writes `#![content]`.
pub fn reconstruct_inner_attr(content: &str) -> (r: String)
    ensures
        r@ == inner_attr(content@),
{
    string_of(&inner_attr_chars(&chars_of(content)))
}

/// What rustfmt has to format so that the line can be reformatted, if anything.
pub fn bookend_line_request(line: &str) -> (r: Option<String>)
    ensures
        r matches Some(q) ==> bookend_request(line@) == Some(q@),
        r is None ==> bookend_request(line@) is None,
{
    let v = chars_of(line);
    if !needs_bookending_chars(&v) {
        return None;
    }
    match bookend_content_chars(&v) {
        Some(c) => Some(string_of(&bookended_chars(&c))),
        None => None,
    }
}

fn reformat_line_chars(line: &Vec<char>, formatted: &Option<Vec<char>>) -> (r: Option<Vec<char>>)
    ensures
        r matches Some(x) ==> reformatted(
            line@,
            match formatted {
                Some(f) => Some(f@),
                None => None,
            },
        ) == Some(x@),
        r is None ==> reformatted(
            line@,
            match formatted {
                Some(f) => Some(f@),
                None => None,
            },
        ) is None,
{
    match bookend_content_chars(line) {
        None => None,
        Some(_) => match formatted {
            None => None,
            Some(f) => match unbookended_chars(f) {
                None => None,
                Some(c) => Some(inner_attr_chars(&c)),
            },
        },
    }
}

/// Reformats a line given rustfmt's output for its bookended content
/// (`None` when rustfmt failed): the content is unwrapped and put back in
/// `#![...]`.
pub fn reformat_line(line: &str, formatted: Option<String>) -> (r: Option<String>)
    ensures
        r matches Some(x) ==> reformatted(
            line@,
            match formatted {
                Some(f) => Some(f@),
                None => None,
            },
        ) == Some(x@),
        r is None ==> reformatted(
            line@,
            match formatted {
                Some(f) => Some(f@),
                None => None,
            },
        ) is None,
{
    let f = match formatted {
        Some(s) => Some(chars_of(s.as_str())),
        None => None,
    };
    match reformat_line_chars(&chars_of(line), &f) {
        Some(x) => Some(string_of(&x)),
        None => None,
    }
}

/// What rustfmt has to format for each line of the code.
pub fn bookend_requests(code: &str) -> (r: Vec<Option<String>>)
    ensures
        r@.len() == lines(code@).len(),
        forall|i: int| 0 <= i < r@.len() ==> (#[trigger] r@[i] matches Some(q) ==> bookend_request(lines(code@)[i]) == Some(q@)),
        forall|i: int| 0 <= i < r@.len() ==> (#[trigger] r@[i] is None ==> bookend_request(lines(code@)[i]) is None),
{
    let ls = lines_of(code);
    let mut r: Vec<Option<String>> = Vec::new();
    let mut i: usize = 0;
    while i < ls.len()
        invariant
            i <= ls.len(),
            vecs_view(ls@) == lines(code@),
            r@.len() == i,
            forall|k: int| 0 <= k < i ==> (#[trigger] r@[k] matches Some(q) ==> bookend_request(lines(code@)[k]) == Some(q@)),
            forall|k: int| 0 <= k < i ==> (#[trigger] r@[k] is None ==> bookend_request(lines(code@)[k]) is None),
        decreases ls.len() - i,
    {
        let l = &ls[i];
        assert(lines(code@)[i as int] == l@);
        let q = if needs_bookending_chars(l) {
            match bookend_content_chars(l) {
                Some(c) => Some(string_of(&bookended_chars(&c))),
                None => None,
            }
        } else {
            None
        };
        r.push(q);
        i = i + 1;
    }
    r
}

/// Bookends each line of the code that holds the module documentation
/// macro, given rustfmt's answer for each line's request (see
/// `bookend_requests`); other lines stay as they are.
pub fn reformat_bookended_lines(code: &str, formatted: &Vec<Option<String>>) -> (r: String)
    requires
        answers_in_range(lines(code@), opt_strings_view(formatted@)),
    ensures
        r@ == bookended_code(code@, opt_strings_view(formatted@)),
{
    let ls = lines_of(code);
    let ghost fs = opt_strings_view(formatted@);
    let ghost lv = lines(code@);
    let mut out: Vec<Vec<char>> = Vec::new();
    let mut i: usize = 0;
    while i < ls.len()
        invariant
            i <= ls.len(),
            vecs_view(ls@) == lv,
            lv == lines(code@),
            fs == opt_strings_view(formatted@),
            answers_in_range(lv, fs),
            vecs_view(out@) == Seq::new(i as nat, |k: int| bookended_line(lv[k], fs[k])),
        decreases ls.len() - i,
    {
        let l = &ls[i];
        assert(lv[i as int] == l@);
        let f: Option<Vec<char>> = match &formatted[i] {
            Some(s) => Some(chars_of(s.as_str())),
            None => None,
        };
        assert(fs[i as int] == match f {
            Some(x) => Some(x@),
            None => None::<Seq<char>>,
        });
        let line_out = if needs_bookending_chars(l) {
            match reformat_line_chars(l, &f) {
                Some(x) => x,
                None => copy_chars(l, 0, l.len()),
            }
        } else {
            copy_chars(l, 0, l.len())
        };
        assert(l@.subrange(0, l@.len() as int) == l@);
        let ghost before = vecs_view(out@);
        out.push(line_out);
        assert(vecs_view(out@) == before.push(line_out@));
        assert(Seq::new((i + 1) as nat, |k: int| bookended_line(lv[k], fs[k])) == Seq::new(
            i as nat,
            |k: int| bookended_line(lv[k], fs[k]),
        ).push(bookended_line(lv[i as int], fs[i as int])));
        i = i + 1;
    }
    string_of(&join_lines(&out))
}

/// Unwrapping undoes wrapping: the formatted form of a bookended content,
/// when rustfmt leaves it as it is, gives the content back.
pub proof fn lemma_bookend_roundtrip(content: Seq<char>)
    ensures
        unbookended(bookended(content)) == Some(content),
{
    let b = bookended(content);
    let p = bookend_prefix();
    let q = bookend_suffix();
    reveal_strlit("const _: i32 = { ");
    reveal_strlit(" };");
    assert(b[0] == 'c');
    assert(b[b.len() - 1] == ';');
    assert(trim_start(b) == b);
    assert(b.last() == ';');
    assert(trim_end(b) == b);
    assert(trim(b) == b);
    assert(b.take(p.len() as int) =~= p);
    assert(b.skip(b.len() - q.len()) =~= q);
    assert(b.subrange(p.len() as int, b.len() - q.len()) =~= content);
}

/// When no line is reformatted (none holds the module documentation macro,
/// or rustfmt gave no usable answer for it, as when rustfmt is missing),
/// `reformat_bookended_lines` gives the lines back unchanged, joined by `\n`.
pub proof fn lemma_bookend_identity(code: Seq<char>, fs: Seq<Option<Seq<char>>>)
    requires
        fs.len() == lines(code).len(),
        forall|i: int|
            0 <= i < lines(code).len() ==> !needs_bookend(#[trigger] lines(code)[i]) || reformatted(
                lines(code)[i],
                fs[i],
            ) is None,
    ensures
        bookended_code(code, fs) == join(lines(code), newline()),
{
    let ls = lines(code);
    assert(Seq::new(ls.len(), |i: int| bookended_line(ls[i], fs[i])) =~= ls);
}

} // verus!
