//! Diff hunks and the line classifications that decide which hunks are
//! applied by a migration or a restore.
use vstd::prelude::*;

use crate::text::{
    chars_of, contains, contains_chars, has_prefix, is_blank, is_blank_chars, no_spaces,
    no_spaces_chars, starts_with_chars, strs_view, trim, trim_chars, vecs_view,
};

verus! {

/// A change hunk of a line diff: `before_count` lines of the old text from
/// `before_start` on were replaced by `after_count` lines of the new text
/// from `after_start` on.
#[derive(Debug, Clone, Copy)]
pub struct DiffHunk {
    pub before_start: usize,
    pub before_count: usize,
    pub after_start: usize,
    pub after_count: usize,
}

/// Some line with an index in `[start, start + count)` that exists in `ls`
/// passes the test `t`.
pub open spec fn any_line_in(ls: Seq<Seq<char>>, start: int, count: int, t: LineTest) -> bool {
    exists|i: int| start <= i < start + count && 0 <= i < ls.len() && #[trigger] passes(t, ls[i])
}

/// A removed line that carries documentation: a doc comment or a doc attribute.
pub open spec fn is_doc_line(line: Seq<char>) -> bool {
    let t = trim(line);
    let n = no_spaces(t);
    ||| has_prefix(t, "///"@)
    ||| has_prefix(t, "//!"@)
    ||| has_prefix(n, "#[doc="@)
    ||| has_prefix(n, "#![doc="@)
}

/// An added line that carries documentation, an omnidoc attribute or the
/// module documentation macro.
pub open spec fn is_doc_or_annotation_line(line: Seq<char>) -> bool {
    let n = no_spaces(trim(line));
    ||| is_doc_line(line)
    ||| has_prefix(n, "#[syncdoc::omnidoc"@)
    ||| has_prefix(n, "#[omnidoc"@)
    ||| (contains(n, "module_doc!"@) && contains(n, "#![doc="@))
}

/// A line that names an omnidoc attribute or the module documentation macro.
pub open spec fn is_annotation_line(line: Seq<char>) -> bool {
    let n = no_spaces(line);
    ||| contains(n, "#[omnidoc"@)
    ||| contains(n, "#[syncdoc::omnidoc"@)
    ||| contains(n, "#![doc=syncdoc::module_doc!"@)
}

/// A line that is a doc comment, or a doc attribute holding one.
pub open spec fn is_restored_doc_line(line: Seq<char>) -> bool {
    let t = trim(line);
    ||| has_prefix(t, "///"@)
    ||| has_prefix(t, "//!"@)
    ||| contains(t, "#[doc = \"///"@)
    ||| contains(t, "#[doc = \"//!"@)
}

/// The hunk removes or adds documentation.
pub open spec fn doc_related(h: DiffHunk, orig: Seq<Seq<char>>, after: Seq<Seq<char>>) -> bool {
    ||| any_line_in(orig, h.before_start as int, h.before_count as int, LineTest::Doc)
    ||| any_line_in(
        after,
        h.after_start as int,
        h.after_count as int,
        LineTest::DocOrAnnotation,
    )
}

/// The hunk removes an annotation or adds documentation (the work of a restore).
pub open spec fn restore_related(h: DiffHunk, orig: Seq<Seq<char>>, after: Seq<Seq<char>>) -> bool {
    ||| any_line_in(orig, h.before_start as int, h.before_count as int, LineTest::Annotation)
    ||| any_line_in(after, h.after_start as int, h.after_count as int, LineTest::RestoredDoc)
}

/// The inputs on which the doc-relevance check runs without an arithmetic
/// overflow: the scan of the removed lines stops at the first doc line, and
/// the end of the added range is computed only when none was found.
pub open spec fn doc_related_in_range(h: DiffHunk, orig: Seq<Seq<char>>) -> bool {
    any_line_in(orig, h.before_start as int, h.before_count as int, LineTest::Doc) || (
    h.before_start + h.before_count <= usize::MAX + 1 && h.after_start + h.after_count
        <= usize::MAX)
}

/// As `doc_related_in_range`, for the restore-relevance check.
pub open spec fn restore_related_in_range(h: DiffHunk, orig: Seq<Seq<char>>) -> bool {
    any_line_in(orig, h.before_start as int, h.before_count as int, LineTest::Annotation) || (
    h.before_start + h.before_count <= usize::MAX + 1 && h.after_start + h.after_count
        <= usize::MAX)
}

/// A line that opens an inner attribute.
pub open spec fn is_inner_attr_open(line: Seq<char>) -> bool {
    let n = no_spaces(line);
    has_prefix(n, "#!["@) || has_prefix(n, "#!{"@)
}

/// Index of the first line at or after `j` (below `end`) that is not blank,
/// if that line opens an outer attribute.
pub open spec fn next_item_attr(after: Seq<Seq<char>>, j: int, end: int) -> Option<int>
    decreases end - j,
{
    if j >= end || j >= after.len() || j < 0 {
        None
    } else if is_blank(after[j]) {
        next_item_attr(after, j + 1, end)
    } else if has_prefix(no_spaces(after[j]), "#["@) {
        Some(j)
    } else {
        None
    }
}

/// The first line index at or after `i` where an outer attribute follows an
/// inner attribute line (blank lines between them allowed).
pub open spec fn split_point(after: Seq<Seq<char>>, i: int, end: int) -> Option<int>
    decreases end - i,
{
    if i >= end || i >= after.len() || i < 0 {
        None
    } else if is_inner_attr_open(after[i]) && next_item_attr(after, i + 1, end) is Some {
        next_item_attr(after, i + 1, end)
    } else {
        split_point(after, i + 1, end)
    }
}

/// The hunk, or its two halves when module-level documentation is followed
/// by item-level documentation on its added side.  The first half takes the
/// first two removed lines (one when only one is removed).
pub open spec fn split_hunk(h: DiffHunk, after: Seq<Seq<char>>) -> Seq<DiffHunk> {
    if h.after_count == 0 || h.before_count == 0 {
        seq![h]
    } else {
        match split_point(after, h.after_start as int, h.after_start + h.after_count) {
            None => seq![h],
            Some(p) => {
                let b1: int = if h.before_count >= 2 {
                    2
                } else {
                    1
                };
                let a1 = p - h.after_start;
                seq![
                    DiffHunk {
                        before_start: h.before_start,
                        before_count: b1 as usize,
                        after_start: h.after_start,
                        after_count: a1 as usize,
                    },
                    DiffHunk {
                        before_start: (h.before_start + b1) as usize,
                        before_count: (h.before_count - b1) as usize,
                        after_start: p as usize,
                        after_count: (h.after_count - a1) as usize,
                    },
                ]
            },
        }
    }
}

/// The inputs on which splitting runs without an arithmetic overflow.
pub open spec fn split_in_range(h: DiffHunk, after: Seq<Seq<char>>) -> bool {
    h.after_count == 0 || h.before_count == 0 || (h.after_start + h.after_count <= usize::MAX
        && h.before_start + h.before_count <= usize::MAX)
}

pub(crate) fn lit(s: &str) -> (v: Vec<char>)
    ensures
        v@ == s@,
{
    chars_of(s)
}

/// `is_doc_line` on one line.
pub fn is_doc_line_exec(line: &Vec<char>) -> (b: bool)
    ensures
        b == is_doc_line(line@),
{
    let t = trim_chars(line);
    let n = no_spaces_chars(&t);
    starts_with_chars(&t, &lit("///")) || starts_with_chars(&t, &lit("//!")) || starts_with_chars(
        &n,
        &lit("#[doc="),
    ) || starts_with_chars(&n, &lit("#![doc="))
}

/// `is_doc_or_annotation_line` on one line.
pub fn is_doc_or_annotation_line_exec(line: &Vec<char>) -> (b: bool)
    ensures
        b == is_doc_or_annotation_line(line@),
{
    if is_doc_line_exec(line) {
        return true;
    }
    let t = trim_chars(line);
    let n = no_spaces_chars(&t);
    starts_with_chars(&n, &lit("#[syncdoc::omnidoc")) || starts_with_chars(&n, &lit("#[omnidoc"))
        || (contains_chars(&n, &lit("module_doc!")) && contains_chars(&n, &lit("#![doc=")))
}

/// `is_annotation_line` on one line.
pub fn is_annotation_line_exec(line: &Vec<char>) -> (b: bool)
    ensures
        b == is_annotation_line(line@),
{
    let n = no_spaces_chars(line);
    contains_chars(&n, &lit("#[omnidoc")) || contains_chars(&n, &lit("#[syncdoc::omnidoc"))
        || contains_chars(&n, &lit("#![doc=syncdoc::module_doc!"))
}

/// `is_restored_doc_line` on one line.
pub fn is_restored_doc_line_exec(line: &Vec<char>) -> (b: bool)
    ensures
        b == is_restored_doc_line(line@),
{
    let t = trim_chars(line);
    starts_with_chars(&t, &lit("///")) || starts_with_chars(&t, &lit("//!")) || contains_chars(
        &t,
        &lit("#[doc = \"///"),
    ) || contains_chars(&t, &lit("#[doc = \"//!"))
}

/// The characters of each line.
pub fn lines_to_chars(ls: &[&str]) -> (r: Vec<Vec<char>>)
    ensures
        vecs_view(r@) == strs_view(ls@),
{
    let mut r: Vec<Vec<char>> = Vec::new();
    let mut i: usize = 0;
    while i < ls.len()
        invariant
            i <= ls.len(),
            vecs_view(r@) == strs_view(ls@).take(i as int),
        decreases ls.len() - i,
    {
        let c = chars_of(ls[i]);
        let ghost before = r@;
        r.push(c);
        assert(vecs_view(r@) == vecs_view(before).push(c@));
        assert(strs_view(ls@).take(i + 1) == strs_view(ls@).take(i as int).push(ls@[i as int]@));
        i = i + 1;
    }
    assert(strs_view(ls@).take(ls.len() as int) == strs_view(ls@));
    r
}

/// Which per-line test to scan a range of lines with.
pub enum LineTest {
    Doc,
    DocOrAnnotation,
    Annotation,
    RestoredDoc,
}

/// The line passes the test.
pub open spec fn passes(t: LineTest, line: Seq<char>) -> bool {
    match t {
        LineTest::Doc => is_doc_line(line),
        LineTest::DocOrAnnotation => is_doc_or_annotation_line(line),
        LineTest::Annotation => is_annotation_line(line),
        LineTest::RestoredDoc => is_restored_doc_line(line),
    }
}

fn run_line_test(t: &LineTest, line: &Vec<char>) -> (b: bool)
    ensures
        b == passes(*t, line@),
{
    match t {
        LineTest::Doc => is_doc_line_exec(line),
        LineTest::DocOrAnnotation => is_doc_or_annotation_line_exec(line),
        LineTest::Annotation => is_annotation_line_exec(line),
        LineTest::RestoredDoc => is_restored_doc_line_exec(line),
    }
}

/// Whether some line of `ls` with an index in `[start, start + count)` passes the test.
pub(crate) fn any_line_in_exec(ls: &Vec<Vec<char>>, start: usize, count: usize, t: LineTest) -> (b:
    bool)
    ensures
        b == any_line_in(vecs_view(ls@), start as int, count as int, t),
{
    let ghost v = vecs_view(ls@);
    if start >= ls.len() {
        return false;
    }
    let avail = ls.len() - start;
    let n = if count < avail {
        count
    } else {
        avail
    };
    let mut i: usize = 0;
    while i < n
        invariant
            n <= count,
            start + n <= ls.len(),
            i <= n,
            v == vecs_view(ls@),
            forall|k: int| start <= k < start + i ==> !#[trigger] passes(t, v[k]),
        decreases n - i,
    {
        if run_line_test(&t, &ls[start + i]) {
            assert(passes(t, v[start + i]));
            return true;
        }
        i = i + 1;
    }
    assert forall|k: int| start <= k < start + count && 0 <= k < v.len() implies !#[trigger] passes(
        t,
        v[k],
    ) by {
        assert(k < start + n);
    }
    false
}

/// `doc_related` on lines held as characters.
pub(crate) fn doc_related_exec(h: &DiffHunk, orig: &Vec<Vec<char>>, after: &Vec<Vec<char>>) -> (b:
    bool)
    ensures
        b == doc_related(*h, vecs_view(orig@), vecs_view(after@)),
{
    let r1 = any_line_in_exec(orig, h.before_start, h.before_count, LineTest::Doc);
    let r2 = any_line_in_exec(after, h.after_start, h.after_count, LineTest::DocOrAnnotation);
    r1 || r2
}

/// `restore_related` on lines held as characters.
pub(crate) fn restore_related_exec(h: &DiffHunk, orig: &Vec<Vec<char>>, after: &Vec<Vec<char>>) -> (b:
    bool)
    ensures
        b == restore_related(*h, vecs_view(orig@), vecs_view(after@)),
{
    let r1 = any_line_in_exec(orig, h.before_start, h.before_count, LineTest::Annotation);
    let r2 = any_line_in_exec(after, h.after_start, h.after_count, LineTest::RestoredDoc);
    r1 || r2
}

/// Checks whether a hunk is related to documentation changes: it removes a
/// doc comment or doc attribute, or it adds one, an omnidoc attribute or the
/// module documentation macro.
pub fn is_doc_related_hunk(hunk: &DiffHunk, original_lines: &[&str], after_lines: &[&str]) -> (b:
    bool)
    requires
        doc_related_in_range(*hunk, strs_view(original_lines@)),
    ensures
        b == doc_related(*hunk, strs_view(original_lines@), strs_view(after_lines@)),
{
    let orig = lines_to_chars(original_lines);
    let after = lines_to_chars(after_lines);
    doc_related_exec(hunk, &orig, &after)
}

/// Checks whether a hunk is related to a restore: it removes an omnidoc
/// attribute or the module documentation macro, or it adds doc comments.
pub fn is_restore_related_hunk(hunk: &DiffHunk, original_lines: &[&str], after_lines: &[&str]) -> (b:
    bool)
    requires
        restore_related_in_range(*hunk, strs_view(original_lines@)),
    ensures
        b == restore_related(*hunk, strs_view(original_lines@), strs_view(after_lines@)),
{
    let orig = lines_to_chars(original_lines);
    let after = lines_to_chars(after_lines);
    restore_related_exec(hunk, &orig, &after)
}

fn is_inner_attr_open_exec(line: &Vec<char>) -> (b: bool)
    ensures
        b == is_inner_attr_open(line@),
{
    let n = no_spaces_chars(line);
    starts_with_chars(&n, &lit("#![")) || starts_with_chars(&n, &lit("#!{"))
}

fn next_item_attr_exec(after: &Vec<Vec<char>>, j0: usize, end: usize) -> (r: Option<usize>)
    ensures
        r matches Some(j) ==> next_item_attr(vecs_view(after@), j0 as int, end as int) == Some(
            j as int,
        ),
        r is None ==> next_item_attr(vecs_view(after@), j0 as int, end as int) is None,
{
    let ghost v = vecs_view(after@);
    let mut j = j0;
    while j < end && j < after.len()
        invariant
            v == vecs_view(after@),
            j0 <= j,
            next_item_attr(v, j0 as int, end as int) == next_item_attr(v, j as int, end as int),
        decreases end - j,
    {
        if is_blank_chars(&after[j]) {
            j = j + 1;
        } else {
            let n = no_spaces_chars(&after[j]);
            if starts_with_chars(&n, &lit("#[")) {
                return Some(j);
            } else {
                return None;
            }
        }
    }
    None
}

fn split_point_exec(after: &Vec<Vec<char>>, i0: usize, end: usize) -> (r: Option<usize>)
    ensures
        r matches Some(p) ==> split_point(vecs_view(after@), i0 as int, end as int) == Some(
            p as int,
        ),
        r is None ==> split_point(vecs_view(after@), i0 as int, end as int) is None,
{
    let ghost v = vecs_view(after@);
    let mut i = i0;
    while i < end && i < after.len()
        invariant
            v == vecs_view(after@),
            i0 <= i,
            split_point(v, i0 as int, end as int) == split_point(v, i as int, end as int),
        decreases end - i,
    {
        if is_inner_attr_open_exec(&after[i]) {
            let nx = next_item_attr_exec(after, i + 1, end);
            if let Some(j) = nx {
                return Some(j);
            }
        }
        i = i + 1;
    }
    None
}

/// `split_hunk` on lines held as characters.
pub(crate) fn split_hunk_exec(hunk: &DiffHunk, after: &Vec<Vec<char>>) -> (r: Vec<DiffHunk>)
    requires
        split_in_range(*hunk, vecs_view(after@)),
    ensures
        r@ == split_hunk(*hunk, vecs_view(after@)),
{
    if hunk.after_count == 0 || hunk.before_count == 0 {
        return vec![*hunk];
    }
    let after_end = hunk.after_start + hunk.after_count;
    match split_point_exec(after, hunk.after_start, after_end) {
        None => vec![*hunk],
        Some(p) => {
            proof {
                let v = vecs_view(after@);
                assert(split_point(v, hunk.after_start as int, after_end as int) == Some(p as int));
                lemma_split_point_range(v, hunk.after_start as int, after_end as int);
            }
            let b1: usize = if hunk.before_count >= 2 {
                2
            } else {
                1
            };
            let a1 = p - hunk.after_start;
            let first = DiffHunk {
                before_start: hunk.before_start,
                before_count: b1,
                after_start: hunk.after_start,
                after_count: a1,
            };
            let second = DiffHunk {
                before_start: hunk.before_start + b1,
                before_count: hunk.before_count - b1,
                after_start: p,
                after_count: hunk.after_count - a1,
            };
            let r = vec![first, second];
            assert(r@ == split_hunk(*hunk, vecs_view(after@)));
            r
        },
    }
}

proof fn lemma_next_item_attr_range(v: Seq<Seq<char>>, j: int, end: int)
    ensures
        next_item_attr(v, j, end) matches Some(k) ==> j <= k < end,
    decreases end - j,
{
    if j >= end || j >= v.len() || j < 0 {
    } else if is_blank(v[j]) {
        lemma_next_item_attr_range(v, j + 1, end);
    }
}

pub proof fn lemma_split_point_range(v: Seq<Seq<char>>, i: int, end: int)
    ensures
        split_point(v, i, end) matches Some(k) ==> i < k < end,
    decreases end - i,
{
    if i >= end || i >= v.len() || i < 0 {
    } else if is_inner_attr_open(v[i]) && next_item_attr(v, i + 1, end) is Some {
        lemma_next_item_attr_range(v, i + 1, end);
    } else {
        lemma_split_point_range(v, i + 1, end);
    }
}

/// Splits a hunk in two when module-level documentation on its added side is
/// followed by item-level documentation; otherwise returns the hunk itself.
pub fn split_hunk_if_mixed(hunk: &DiffHunk, after_lines: &[&str]) -> (r: Vec<DiffHunk>)
    requires
        split_in_range(*hunk, strs_view(after_lines@)),
    ensures
        r@ == split_hunk(*hunk, strs_view(after_lines@)),
{
    let after = lines_to_chars(after_lines);
    split_hunk_exec(hunk, &after)
}

} // verus!
