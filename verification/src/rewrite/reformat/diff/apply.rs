//! Application of the relevant hunks of a line diff to the original text,
//! module-level hunks first.
use vstd::prelude::*;

use super::hunk::{
    doc_related, restore_related, split_hunk, doc_related_exec, lines_to_chars, lit, restore_related_exec, split_in_range, DiffHunk,
};
use super::{
    empties, is_plain_comment, is_plain_comment_exec, kept_on_migrate, kept_on_migrate_exec,
    line_range, max_int,
    apply_mode, push_empties, push_range, relevant, split_all, split_all_exec, strip_all_doc_attr_bookends,
    strip_all_doc_attrs,
};
use crate::text::{
    contains, contains_chars, has_prefix, is_blank, is_blank_chars, join, join_lines, lines,
    lines_of, newline, no_spaces, no_spaces_chars, starts_with_chars, string_of, strs_view,
    trim_start, trim_start_chars, vecs_view, chars_of, copy_chars,
};

verus! {

/// Copies original lines from `st.1` up to `end` (and the end of the original).
pub open spec fn copy_upto(orig: Seq<Seq<char>>, st: (Seq<Seq<char>>, int), end: int) -> (
    Seq<Seq<char>>,
    int,
) {
    let hi = if end < orig.len() {
        end
    } else {
        orig.len() as int
    };
    (st.0 + line_range(orig, st.1, end), if st.1 < hi {
        hi
    } else {
        st.1
    })
}

/// Blank lines of `ls` with an index in `[lo, hi)` counted, except one that
/// follows a plain comment; with whether the last line seen is a plain comment.
pub open spec fn blank_scan(ls: Seq<Seq<char>>, lo: int, hi: int) -> (nat, bool)
    decreases hi - lo,
{
    if hi <= lo {
        (0, false)
    } else {
        let prev = blank_scan(ls, lo, hi - 1);
        if 0 <= hi - 1 < ls.len() {
            let line = ls[hi - 1];
            let counted = is_blank(line) && !(is_blank(line) && prev.1);
            (prev.0 + if counted {
                1nat
            } else {
                0nat
            }, is_plain_comment(trim_start(line)))
        } else {
            prev
        }
    }
}

/// Removed lines kept by a migration: non-doc attributes and plain comments,
/// and one blank line right after a kept plain comment; with whether the
/// last line seen is a kept plain comment.
pub open spec fn keep_scan(ls: Seq<Seq<char>>, lo: int, hi: int) -> (Seq<Seq<char>>, bool)
    decreases hi - lo,
{
    if hi <= lo {
        (Seq::empty(), false)
    } else {
        let prev = keep_scan(ls, lo, hi - 1);
        if 0 <= hi - 1 < ls.len() {
            let line = ls[hi - 1];
            if kept_on_migrate(line) {
                (prev.0.push(line), is_plain_comment(trim_start(line)))
            } else if is_blank(line) && prev.1 {
                (prev.0.push(line), false)
            } else {
                (prev.0, false)
            }
        } else {
            prev
        }
    }
}

/// An added line that the application leaves out because the original's
/// copy of it is kept: a non-doc outer or inner attribute or a plain comment.
pub open spec fn skip_from_transformed(line: Seq<char>) -> bool {
    let t = trim_start(line);
    let n = no_spaces(t);
    ||| (has_prefix(n, "#["@) && !has_prefix(n, "#[doc"@) && !contains(n, "omnidoc"@) && !contains(
        n,
        "syncdoc::omnidoc"@,
    ))
    ||| (has_prefix(n, "#!["@) && !has_prefix(n, "#![doc"@))
    ||| is_plain_comment(t)
}

/// The added lines of `ls` with an index in `[lo, hi)` that are not skipped.
pub open spec fn added_lines(ls: Seq<Seq<char>>, lo: int, hi: int) -> Seq<Seq<char>>
    decreases hi - lo,
{
    if hi <= lo {
        Seq::empty()
    } else {
        let prev = added_lines(ls, lo, hi - 1);
        if 0 <= hi - 1 < ls.len() && !skip_from_transformed(ls[hi - 1]) {
            prev.push(ls[hi - 1])
        } else {
            prev
        }
    }
}

/// A line with module-level documentation.
pub open spec fn is_module_level_line(line: Seq<char>) -> bool {
    let n = no_spaces(line);
    has_prefix(n, "#![doc"@) || contains(n, "module_doc!"@)
}

/// Some added line of the hunk holds module-level documentation.
pub open spec fn module_level(h: DiffHunk, after: Seq<Seq<char>>) -> bool {
    exists|i: int|
        h.after_start <= i < h.after_start + h.after_count && 0 <= i < after.len()
            && #[trigger] is_module_level_line(after[i])
}

/// The hunks whose module-level status is `want`, in their order.
pub open spec fn filter_level(hs: Seq<DiffHunk>, after: Seq<Seq<char>>, want: bool) -> Seq<DiffHunk>
    decreases hs.len(),
{
    if hs.len() == 0 {
        Seq::empty()
    } else {
        let prev = filter_level(hs.drop_last(), after, want);
        if module_level(hs.last(), after) == want {
            prev.push(hs.last())
        } else {
            prev
        }
    }
}

/// `x` inserted into `s` after every hunk that starts no later than it.
pub open spec fn insert_by_start(x: DiffHunk, s: Seq<DiffHunk>) -> Seq<DiffHunk>
    decreases s.len(),
{
    if s.len() == 0 {
        seq![x]
    } else if s.last().before_start <= x.before_start {
        s.push(x)
    } else {
        insert_by_start(x, s.drop_last()).push(s.last())
    }
}

/// The hunks stably sorted by where they start in the original.
pub open spec fn sort_by_start(hs: Seq<DiffHunk>) -> Seq<DiffHunk>
    decreases hs.len(),
{
    if hs.len() == 0 {
        Seq::empty()
    } else {
        insert_by_start(hs.last(), sort_by_start(hs.drop_last()))
    }
}

/// The split hunks, module-level ones first, each group sorted by start.
pub open spec fn ordered_hunks(hs: Seq<DiffHunk>, after: Seq<Seq<char>>) -> Seq<DiffHunk> {
    let split = split_all(hs, after);
    sort_by_start(filter_level(split, after, true)) + sort_by_start(filter_level(split, after, false))
}

/// The first added line of the hunk opens an inner attribute.
pub open spec fn opens_inner(after: Seq<Seq<char>>, h: DiffHunk) -> bool {
    &&& h.after_count > 0
    &&& h.after_start < after.len()
    &&& has_prefix(no_spaces(after[h.after_start as int]), "#!"@)
}

/// One hunk of the application.
pub open spec fn ordered_step(
    orig: Seq<Seq<char>>,
    after: Seq<Seq<char>>,
    restore: bool,
    st: (Seq<Seq<char>>, int),
    h: DiffHunk,
) -> (Seq<Seq<char>>, int) {
    let bs = h.before_start as int;
    let bc = h.before_count as int;
    if !relevant(h, orig, after, apply_mode(restore)) {
        copy_upto(orig, st, bs + bc)
    } else {
        let c = copy_upto(orig, st, bs);
        let nb = blank_scan(orig, bs, bs + bc).0;
        let md = opens_inner(after, h);
        let before_blanks = if nb > 0 && !md {
            empties(nb)
        } else {
            Seq::empty()
        };
        let after_blanks = if nb > 0 && md {
            empties(nb)
        } else {
            Seq::empty()
        };
        (
            c.0 + before_blanks + keep_scan(orig, bs, bs + bc).0 + added_lines(
                after,
                h.after_start as int,
                h.after_start + h.after_count,
            ) + after_blanks,
            c.1 + bc,
        )
    }
}

/// The step runs without an arithmetic overflow.
pub open spec fn ordered_step_ok(
    orig: Seq<Seq<char>>,
    after: Seq<Seq<char>>,
    restore: bool,
    st: (Seq<Seq<char>>, int),
    h: DiffHunk,
) -> bool {
    if !relevant(h, orig, after, apply_mode(restore)) {
        h.before_start + h.before_count <= usize::MAX
    } else {
        h.before_start + h.before_count <= usize::MAX + 1 && copy_upto(
            orig,
            st,
            h.before_start as int,
        ).1 + h.before_count <= usize::MAX
    }
}

pub open spec fn ordered_fold(
    orig: Seq<Seq<char>>,
    after: Seq<Seq<char>>,
    restore: bool,
    hs: Seq<DiffHunk>,
) -> (Seq<Seq<char>>, int)
    decreases hs.len(),
{
    if hs.len() == 0 {
        (Seq::empty(), 0)
    } else {
        ordered_step(
            orig,
            after,
            restore,
            ordered_fold(orig, after, restore, hs.drop_last()),
            hs.last(),
        )
    }
}

pub open spec fn ordered_fold_ok(
    orig: Seq<Seq<char>>,
    after: Seq<Seq<char>>,
    restore: bool,
    hs: Seq<DiffHunk>,
) -> bool
    decreases hs.len(),
{
    if hs.len() == 0 {
        true
    } else {
        ordered_fold_ok(orig, after, restore, hs.drop_last()) && ordered_step_ok(
            orig,
            after,
            restore,
            ordered_fold(orig, after, restore, hs.drop_last()),
            hs.last(),
        )
    }
}

/// The lines that result from applying the relevant hunks in order.
pub open spec fn ordered_apply_lines(
    orig: Seq<Seq<char>>,
    after: Seq<Seq<char>>,
    restore: bool,
    hs: Seq<DiffHunk>,
) -> Seq<Seq<char>> {
    copy_upto(
        orig,
        ordered_fold(orig, after, restore, ordered_hunks(hs, after)),
        orig.len() as int,
    ).0
}

/// The inputs on which the application runs without an arithmetic overflow.
pub open spec fn ordered_apply_ok(
    orig: Seq<Seq<char>>,
    after: Seq<Seq<char>>,
    restore: bool,
    hs: Seq<DiffHunk>,
) -> bool {
    &&& forall|i: int| 0 <= i < hs.len() ==> split_in_range(#[trigger] hs[i], after)
    &&& forall|i: int|
        0 <= i < split_all(hs, after).len() ==> #[trigger] split_all(hs, after)[i].after_start
            + split_all(hs, after)[i].after_count <= usize::MAX
    &&& ordered_fold_ok(orig, after, restore, ordered_hunks(hs, after))
}

/// The migration result (`apply_diff`).
pub open spec fn ordered_apply_diff(original: Seq<char>, hs: Seq<DiffHunk>, after: Seq<char>) -> Seq<
    char,
> {
    join(ordered_apply_lines(lines(original), lines(after), false, hs), newline())
}

/// The restore result (`apply_diff_restore`).
pub open spec fn ordered_apply_diff_restore(
    original: Seq<char>,
    hs: Seq<DiffHunk>,
    after: Seq<char>,
) -> Seq<char> {
    strip_all_doc_attrs(
        join(ordered_apply_lines(lines(original), lines(after), true, hs), newline()),
    )
}

/// Checks whether a line from the transformed text is left out because the
/// original's copy of it is kept: a non-doc attribute or a plain comment.
pub fn should_skip_from_transformed(line: &str) -> (b: bool)
    ensures
        b == skip_from_transformed(line@),
{
    let v = chars_of(line);
    skip_exec(&v)
}

fn skip_exec(line: &Vec<char>) -> (b: bool)
    ensures
        b == skip_from_transformed(line@),
{
    let t = trim_start_chars(line);
    let n = no_spaces_chars(&t);
    if starts_with_chars(&n, &lit("#[")) && !starts_with_chars(&n, &lit("#[doc")) && !contains_chars(
        &n,
        &lit("omnidoc"),
    ) && !contains_chars(&n, &lit("syncdoc::omnidoc")) {
        return true;
    }
    if starts_with_chars(&n, &lit("#![")) && !starts_with_chars(&n, &lit("#![doc")) {
        return true;
    }
    is_plain_comment_exec(&t)
}

fn is_module_level_line_exec(line: &Vec<char>) -> (b: bool)
    ensures
        b == is_module_level_line(line@),
{
    let n = no_spaces_chars(line);
    starts_with_chars(&n, &lit("#![doc")) || contains_chars(&n, &lit("module_doc!"))
}

fn module_level_exec(h: &DiffHunk, after: &Vec<Vec<char>>) -> (b: bool)
    requires
        h.after_start + h.after_count <= usize::MAX,
    ensures
        b == module_level(*h, vecs_view(after@)),
{
    let ghost v = vecs_view(after@);
    let end = h.after_start + h.after_count;
    let mut i = h.after_start;
    while i < end
        invariant
            h.after_start <= i <= end,
            end == h.after_start + h.after_count,
            v == vecs_view(after@),
            forall|k: int| h.after_start <= k < i && 0 <= k < v.len() ==> !#[trigger] is_module_level_line(v[k]),
        decreases end - i,
    {
        if i < after.len() {
            if is_module_level_line_exec(&after[i]) {
                assert(is_module_level_line(v[i as int]));
                return true;
            }
        }
        i = i + 1;
    }
    false
}

/// Checks whether a hunk adds module-level documentation (an inner doc
/// attribute or the module documentation macro).
pub fn is_module_level_hunk(hunk: &DiffHunk, after_lines: &[&str]) -> (b: bool)
    requires
        hunk.after_start + hunk.after_count <= usize::MAX,
    ensures
        b == module_level(*hunk, strs_view(after_lines@)),
{
    let after = lines_to_chars(after_lines);
    module_level_exec(hunk, &after)
}


proof fn lemma_scans_beyond(ls: Seq<Seq<char>>, lo: int, hi: int)
    requires
        0 <= lo,
    ensures
        hi >= ls.len() ==> blank_scan(ls, lo, hi) == blank_scan(ls, lo, max_int(lo, ls.len() as int)),
        hi >= ls.len() ==> keep_scan(ls, lo, hi) == keep_scan(ls, lo, max_int(lo, ls.len() as int)),
        hi >= ls.len() ==> added_lines(ls, lo, hi) == added_lines(ls, lo, max_int(lo, ls.len() as int)),
    decreases hi - lo,
{
    if hi > lo && hi > ls.len() {
        lemma_scans_beyond(ls, lo, hi - 1);
    }
}

/// Copies original lines from `*orig_idx` up to `up_to + count` (and the end
/// of the original) to `result`, advancing `*orig_idx` past them.
pub(crate) fn copy_original_lines(
    original: &Vec<Vec<char>>,
    result: &mut Vec<Vec<char>>,
    orig_idx: &mut usize,
    up_to: usize,
    count: usize,
)
    requires
        up_to + count <= usize::MAX,
    ensures
        (vecs_view(final(result)@), *final(orig_idx) as int) == copy_upto(
            vecs_view(original@),
            (vecs_view(old(result)@), *old(orig_idx) as int),
            up_to + count,
        ),
{
    let end = up_to + count;
    let hi = if end < original.len() {
        end
    } else {
        original.len()
    };
    push_range(result, original, *orig_idx, end);
    if *orig_idx < hi {
        *orig_idx = hi;
    }
}

/// The number of blank lines among the `count` original lines from `start`
/// on, leaving out a blank line right after a plain comment.
pub(crate) fn count_blank_lines(original: &Vec<Vec<char>>, start: usize, count: usize) -> (n: usize)
    requires
        start + count <= usize::MAX + 1,
    ensures
        n == blank_scan(vecs_view(original@), start as int, start + count).0,
        n <= count,
{
    let ghost v = vecs_view(original@);
    let hi = if start >= original.len() {
        start
    } else if count < original.len() - start {
        start + count
    } else {
        original.len()
    };
    let mut k = start;
    let mut n: usize = 0;
    let mut prev_was_non_doc_comment = false;
    while k < hi
        invariant
            start <= k <= hi,
            hi <= start + count,
            hi <= original.len() || hi == start,
            v == vecs_view(original@),
            (n as nat, prev_was_non_doc_comment) == blank_scan(v, start as int, k as int),
            n <= k - start,
        decreases hi - k,
    {
        let line = &original[k];
        let blank = is_blank_chars(line);
        let is_blank_after_comment = blank && prev_was_non_doc_comment;
        let t = trim_start_chars(line);
        prev_was_non_doc_comment = is_plain_comment_exec(&t);
        if blank && !is_blank_after_comment {
            n = n + 1;
        }
        k = k + 1;
    }
    proof {
        lemma_scans_beyond(v, start as int, start + count);
    }
    n
}

/// Appends to `result` the non-doc attributes and plain comments among the
/// `count` original lines from `start` on, with one blank line right after
/// such a comment.
pub(crate) fn preserve_non_doc_lines(
    original: &Vec<Vec<char>>,
    result: &mut Vec<Vec<char>>,
    start: usize,
    count: usize,
)
    requires
        start + count <= usize::MAX + 1,
    ensures
        vecs_view(final(result)@) == vecs_view(old(result)@) + keep_scan(
            vecs_view(original@),
            start as int,
            start + count,
        ).0,
{
    let ghost v = vecs_view(original@);
    let ghost r0 = vecs_view(result@);
    let hi = if start >= original.len() {
        start
    } else if count < original.len() - start {
        start + count
    } else {
        original.len()
    };
    let mut k = start;
    let mut just_added_comment = false;
    while k < hi
        invariant
            start <= k <= hi,
            hi <= start + count,
            hi <= original.len() || hi == start,
            v == vecs_view(original@),
            (vecs_view(result@), just_added_comment) == (
                r0 + keep_scan(v, start as int, k as int).0,
                keep_scan(v, start as int, k as int).1,
            ),
        decreases hi - k,
    {
        let line = &original[k];
        let t = trim_start_chars(line);
        let is_non_doc_comment = is_plain_comment_exec(&t);
        let keep = kept_on_migrate_exec(line);
        let ghost before = vecs_view(result@);
        if keep {
            result.push(copy_chars(line, 0, line.len()));
            assert(line@.subrange(0, line@.len() as int) == line@);
            assert(vecs_view(result@) == before.push(line@));
            just_added_comment = is_non_doc_comment;
        } else if is_blank_chars(line) && just_added_comment {
            result.push(copy_chars(line, 0, line.len()));
            assert(line@.subrange(0, line@.len() as int) == line@);
            assert(vecs_view(result@) == before.push(line@));
            just_added_comment = false;
        } else {
            just_added_comment = false;
        }
        assert(vecs_view(result@) == r0 + keep_scan(v, start as int, k + 1).0);
        k = k + 1;
    }
    proof {
        lemma_scans_beyond(v, start as int, start + count);
    }
}

/// Appends the added lines of the hunk that are not skipped.
fn push_added_lines(out: &mut Vec<Vec<char>>, after: &Vec<Vec<char>>, a: usize, n: usize)
    requires
        a + n <= usize::MAX,
    ensures
        vecs_view(final(out)@) == vecs_view(old(out)@) + added_lines(vecs_view(after@), a as int, a + n),
{
    let ghost v = vecs_view(after@);
    let ghost r0 = vecs_view(out@);
    let end = a + n;
    let hi = if end < after.len() {
        end
    } else if a < after.len() {
        after.len()
    } else {
        a
    };
    let mut i = a;
    while i < hi
        invariant
            a <= i <= hi,
            hi <= end,
            end == a + n,
            hi <= after.len() || hi == a,
            v == vecs_view(after@),
            vecs_view(out@) == r0 + added_lines(v, a as int, i as int),
        decreases hi - i,
    {
        let line = &after[i];
        if !skip_exec(line) {
            let ghost before = vecs_view(out@);
            out.push(copy_chars(line, 0, line.len()));
            assert(line@.subrange(0, line@.len() as int) == line@);
            assert(vecs_view(out@) == before.push(line@));
        }
        i = i + 1;
    }
    proof {
        lemma_scans_beyond(v, a as int, a + n);
    }
}

fn opens_inner_exec(after: &Vec<Vec<char>>, h: &DiffHunk) -> (b: bool)
    ensures
        b == opens_inner(vecs_view(after@), *h),
{
    if h.after_count == 0 || h.after_start >= after.len() {
        return false;
    }
    let n = no_spaces_chars(&after[h.after_start]);
    starts_with_chars(&n, &lit("#!"))
}

proof fn lemma_insert_by_start(x: DiffHunk, s: Seq<DiffHunk>, p: int)
    requires
        0 <= p <= s.len(),
        p == 0 || s[p - 1].before_start <= x.before_start,
        forall|k: int| p <= k < s.len() ==> #[trigger] s[k].before_start > x.before_start,
    ensures
        insert_by_start(x, s) == s.insert(p, x),
    decreases s.len(),
{
    if s.len() == 0 {
        assert(s.insert(p, x) == seq![x]);
    } else if s.last().before_start <= x.before_start {
        assert(p == s.len());
        assert(s.insert(p, x) == s.push(x));
    } else {
        assert(p < s.len());
        lemma_insert_by_start(x, s.drop_last(), p);
        assert(s.insert(p, x) == s.drop_last().insert(p, x).push(s.last()));
    }
}

/// The hunks stably sorted by where they start in the original.
fn sort_hunks_by_start(hs: &Vec<DiffHunk>) -> (r: Vec<DiffHunk>)
    ensures
        r@ == sort_by_start(hs@),
{
    let mut r: Vec<DiffHunk> = Vec::new();
    let mut i: usize = 0;
    while i < hs.len()
        invariant
            i <= hs.len(),
            r@ == sort_by_start(hs@.take(i as int)),
        decreases hs.len() - i,
    {
        let x = hs[i];
        let mut p = r.len();
        while p > 0 && r[p - 1].before_start > x.before_start
            invariant
                p <= r.len(),
                forall|k: int| p <= k < r@.len() ==> #[trigger] r@[k].before_start > x.before_start,
            decreases p,
        {
            p = p - 1;
        }
        proof {
            lemma_insert_by_start(x, r@, p as int);
            assert(hs@.take(i + 1).drop_last() == hs@.take(i as int));
            assert(hs@.take(i + 1).last() == x);
        }
        r.insert(p, x);
        i = i + 1;
    }
    assert(hs@.take(hs.len() as int) == hs@);
    r
}

/// The hunks whose module-level status is `want`.
fn filter_level_exec(hs: &Vec<DiffHunk>, after: &Vec<Vec<char>>, want: bool) -> (r: Vec<DiffHunk>)
    requires
        forall|i: int| 0 <= i < hs@.len() ==> #[trigger] hs@[i].after_start + hs@[i].after_count <= usize::MAX,
    ensures
        r@ == filter_level(hs@, vecs_view(after@), want),
{
    let mut r: Vec<DiffHunk> = Vec::new();
    let mut i: usize = 0;
    while i < hs.len()
        invariant
            i <= hs.len(),
            forall|j: int| 0 <= j < hs@.len() ==> #[trigger] hs@[j].after_start + hs@[j].after_count <= usize::MAX,
            r@ == filter_level(hs@.take(i as int), vecs_view(after@), want),
        decreases hs.len() - i,
    {
        let h = hs[i];
        assert(hs@[i as int].after_start + hs@[i as int].after_count <= usize::MAX);
        if module_level_exec(&h, after) == want {
            r.push(h);
        }
        assert(hs@.take(i + 1).drop_last() == hs@.take(i as int));
        i = i + 1;
    }
    assert(hs@.take(hs.len() as int) == hs@);
    r
}

proof fn lemma_ordered_fold_ok_prefix(
    orig: Seq<Seq<char>>,
    after: Seq<Seq<char>>,
    restore: bool,
    hs: Seq<DiffHunk>,
    k: int,
)
    requires
        ordered_fold_ok(orig, after, restore, hs),
        0 <= k < hs.len(),
    ensures
        ordered_step_ok(orig, after, restore, ordered_fold(orig, after, restore, hs.take(k)), hs[k]),
    decreases hs.len(),
{
    if k + 1 < hs.len() {
        assert(hs.drop_last().take(k) == hs.take(k));
        lemma_ordered_fold_ok_prefix(orig, after, restore, hs.drop_last(), k);
    } else {
        assert(hs.drop_last() == hs.take(k));
    }
}

fn ordered_step_exec(
    orig: &Vec<Vec<char>>,
    after: &Vec<Vec<char>>,
    restore: bool,
    out: &mut Vec<Vec<char>>,
    idx: &mut usize,
    h: &DiffHunk,
)
    requires
        ordered_step_ok(vecs_view(orig@), vecs_view(after@), restore, (vecs_view(old(out)@), *old(idx) as int), *h),
        h.after_start + h.after_count <= usize::MAX,
    ensures
        (vecs_view(final(out)@), *final(idx) as int) == ordered_step(
            vecs_view(orig@),
            vecs_view(after@),
            restore,
            (vecs_view(old(out)@), *old(idx) as int),
            *h,
        ),
{
    let rel = if restore {
        restore_related_exec(h, orig, after)
    } else {
        doc_related_exec(h, orig, after)
    };
    if !rel {
        copy_original_lines(orig, out, idx, h.before_start, h.before_count);
        return;
    }
    copy_original_lines(orig, out, idx, h.before_start, 0);
    let ghost s1 = vecs_view(out@);
    let nb = count_blank_lines(orig, h.before_start, h.before_count);
    let md = opens_inner_exec(after, h);
    if nb > 0 && !md {
        push_empties(out, nb);
    }
    let ghost s2 = vecs_view(out@);
    preserve_non_doc_lines(orig, out, h.before_start, h.before_count);
    *idx = *idx + h.before_count;
    push_added_lines(out, after, h.after_start, h.after_count);
    let ghost s4 = vecs_view(out@);
    if nb > 0 && md {
        push_empties(out, nb);
    }
    proof {
        let ov = vecs_view(orig@);
        let av = vecs_view(after@);
        let bs = h.before_start as int;
        let bc = h.before_count as int;
        let before_blanks = if nb > 0 && !md {
            empties(nb as nat)
        } else {
            Seq::empty()
        };
        let after_blanks = if nb > 0 && md {
            empties(nb as nat)
        } else {
            Seq::empty()
        };
        assert(s2 == s1 + before_blanks);
        assert(vecs_view(out@) == s4 + after_blanks);
        assert(vecs_view(out@) == s1 + before_blanks + keep_scan(ov, bs, bs + bc).0 + added_lines(
            av,
            h.after_start as int,
            h.after_start + h.after_count,
        ) + after_blanks);
    }
}

/// Applies the relevant hunks (migration or restore) to the original, the
/// hunks that add module-level documentation first, each group in order of
/// position.
fn order_hunks(hunks: &[DiffHunk], after: &Vec<Vec<char>>) -> (r: Vec<DiffHunk>)
    requires
        forall|i: int| 0 <= i < hunks@.len() ==> split_in_range(#[trigger] hunks@[i], vecs_view(after@)),
        after_ends_ok(split_all(hunks@, vecs_view(after@))),
    ensures
        r@ == ordered_hunks(hunks@, vecs_view(after@)),
        after_ends_ok(r@),
{
    let ghost av = vecs_view(after@);
    let split = split_all_exec(hunks, after);
    let module_hunks = sort_hunks_by_start(&filter_level_exec(&split, after, true));
    let item_hunks = sort_hunks_by_start(&filter_level_exec(&split, after, false));
    let mut ordered = module_hunks;
    let mut j: usize = 0;
    let ghost m0 = ordered@;
    while j < item_hunks.len()
        invariant
            j <= item_hunks.len(),
            ordered@ == m0 + item_hunks@.take(j as int),
        decreases item_hunks.len() - j,
    {
        ordered.push(item_hunks[j]);
        j = j + 1;
        assert(item_hunks@.take(j as int) == item_hunks@.take(j - 1).push(item_hunks@[j - 1]));
    }
    assert(item_hunks@.take(item_hunks.len() as int) == item_hunks@);
    assert(ordered@ == ordered_hunks(hunks@, av));
    proof {
        lemma_ordered_after_in_range(hunks@, av);
    }
    ordered
}

fn apply_in_order(orig: &Vec<Vec<char>>, after: &Vec<Vec<char>>, ordered: &Vec<DiffHunk>, restore: bool) -> (r: Vec<Vec<char>>)
    requires
        ordered_fold_ok(vecs_view(orig@), vecs_view(after@), restore, ordered@),
        after_ends_ok(ordered@),
    ensures
        vecs_view(r@) == copy_upto(
            vecs_view(orig@),
            ordered_fold(vecs_view(orig@), vecs_view(after@), restore, ordered@),
            orig@.len() as int,
        ).0,
{
    let ghost ov = vecs_view(orig@);
    let ghost av = vecs_view(after@);
    let mut out: Vec<Vec<char>> = Vec::new();
    let mut idx: usize = 0;
    let mut k: usize = 0;
    assert(ordered@.take(0) == Seq::<DiffHunk>::empty());
    while k < ordered.len()
        invariant
            k <= ordered.len(),
            ov == vecs_view(orig@),
            av == vecs_view(after@),
            ordered_fold_ok(ov, av, restore, ordered@),
            after_ends_ok(ordered@),
            (vecs_view(out@), idx as int) == ordered_fold(ov, av, restore, ordered@.take(k as int)),
        decreases ordered.len() - k,
    {
        proof {
            lemma_ordered_fold_ok_prefix(ov, av, restore, ordered@, k as int);
            assert(ordered@.take(k + 1).drop_last() == ordered@.take(k as int));
            assert(ordered@[k as int].after_start + ordered@[k as int].after_count <= usize::MAX);
        }
        ordered_step_exec(orig, after, restore, &mut out, &mut idx, &ordered[k]);
        k = k + 1;
    }
    assert(ordered@.take(ordered.len() as int) == ordered@);
    copy_original_lines(orig, &mut out, &mut idx, orig.len(), 0);
    out
}

/// Applies the relevant hunks (migration or restore) to the original, the
/// hunks that add module-level documentation first, each group in order of
/// position.
pub(crate) fn apply_hunks(original: &str, hunks: &[DiffHunk], formatted_after: &str, restore: bool) -> (r: Vec<char>)
    requires
        ordered_apply_ok(lines(original@), lines(formatted_after@), restore, hunks@),
    ensures
        r@ == join(ordered_apply_lines(lines(original@), lines(formatted_after@), restore, hunks@), newline()),
{
    let orig = lines_of(original);
    let after = lines_of(formatted_after);
    let ordered = order_hunks(hunks, &after);
    let out = apply_in_order(&orig, &after, &ordered, restore);
    join_lines(&out)
}

/// Applies only the documentation-related hunks to the original text.
pub fn apply_diff(original: &str, hunks: &[DiffHunk], formatted_after: &str) -> (r: String)
    requires
        ordered_apply_ok(lines(original@), lines(formatted_after@), false, hunks@),
    ensures
        r@ == ordered_apply_diff(original@, hunks@, formatted_after@),
{
    let v = apply_hunks(original, hunks, formatted_after, false);
    string_of(&v)
}

/// Applies the restore-related hunks and turns doc attributes that hold doc
/// comments back into the comments.
pub fn apply_diff_restore(original: &str, hunks: &[DiffHunk], formatted_after: &str) -> (r: String)
    requires
        ordered_apply_ok(lines(original@), lines(formatted_after@), true, hunks@),
    ensures
        r@ == ordered_apply_diff_restore(original@, hunks@, formatted_after@),
{
    let v = apply_hunks(original, hunks, formatted_after, true);
    let s = strip_all_doc_attr_bookends(&v);
    string_of(&s)
}


pub open spec fn after_ends_ok(s: Seq<DiffHunk>) -> bool {
    forall|i: int| 0 <= i < s.len() ==> #[trigger] s[i].after_start + s[i].after_count <= usize::MAX
}

proof fn lemma_filter_after_ok(s: Seq<DiffHunk>, after: Seq<Seq<char>>, want: bool)
    requires
        after_ends_ok(s),
    ensures
        after_ends_ok(filter_level(s, after, want)),
    decreases s.len(),
{
    if s.len() > 0 {
        assert(after_ends_ok(s.drop_last())) by {
            assert forall|i: int| 0 <= i < s.drop_last().len() implies #[trigger] s.drop_last()[i].after_start
                + s.drop_last()[i].after_count <= usize::MAX by {
                assert(s.drop_last()[i] == s[i]);
            }
        }
        lemma_filter_after_ok(s.drop_last(), after, want);
        assert(s.last() == s[s.len() - 1]);
    }
}

proof fn lemma_insert_after_ok(x: DiffHunk, s: Seq<DiffHunk>)
    requires
        after_ends_ok(s),
        x.after_start + x.after_count <= usize::MAX,
    ensures
        after_ends_ok(insert_by_start(x, s)),
    decreases s.len(),
{
    if s.len() > 0 && s.last().before_start > x.before_start {
        assert(after_ends_ok(s.drop_last())) by {
            assert forall|i: int| 0 <= i < s.drop_last().len() implies #[trigger] s.drop_last()[i].after_start
                + s.drop_last()[i].after_count <= usize::MAX by {
                assert(s.drop_last()[i] == s[i]);
            }
        }
        lemma_insert_after_ok(x, s.drop_last());
        assert(s.last() == s[s.len() - 1]);
    }
}

proof fn lemma_sort_after_ok(s: Seq<DiffHunk>)
    requires
        after_ends_ok(s),
    ensures
        after_ends_ok(sort_by_start(s)),
    decreases s.len(),
{
    if s.len() > 0 {
        assert(after_ends_ok(s.drop_last())) by {
            assert forall|i: int| 0 <= i < s.drop_last().len() implies #[trigger] s.drop_last()[i].after_start
                + s.drop_last()[i].after_count <= usize::MAX by {
                assert(s.drop_last()[i] == s[i]);
            }
        }
        lemma_sort_after_ok(s.drop_last());
        assert(s.last() == s[s.len() - 1]);
        lemma_insert_after_ok(s.last(), sort_by_start(s.drop_last()));
    }
}

proof fn lemma_ordered_after_in_range(hs: Seq<DiffHunk>, after: Seq<Seq<char>>)
    requires
        after_ends_ok(split_all(hs, after)),
    ensures
        after_ends_ok(ordered_hunks(hs, after)),
{
    let split = split_all(hs, after);
    lemma_filter_after_ok(split, after, true);
    lemma_filter_after_ok(split, after, false);
    lemma_sort_after_ok(filter_level(split, after, true));
    lemma_sort_after_ok(filter_level(split, after, false));
}

/// None of the hunks is relevant to the application.
pub open spec fn none_relevant(
    hs: Seq<DiffHunk>,
    orig: Seq<Seq<char>>,
    after: Seq<Seq<char>>,
    restore: bool,
) -> bool {
    forall|i: int| 0 <= i < hs.len() ==> !relevant(#[trigger] hs[i], orig, after, apply_mode(restore))
}

proof fn lemma_filter_none_relevant(
    hs: Seq<DiffHunk>,
    after: Seq<Seq<char>>,
    want: bool,
    orig: Seq<Seq<char>>,
    restore: bool,
)
    requires
        none_relevant(hs, orig, after, restore),
    ensures
        none_relevant(filter_level(hs, after, want), orig, after, restore),
    decreases hs.len(),
{
    if hs.len() > 0 {
        assert(none_relevant(hs.drop_last(), orig, after, restore)) by {
            assert forall|i: int| 0 <= i < hs.drop_last().len() implies !relevant(
                #[trigger] hs.drop_last()[i],
                orig,
                after,
                apply_mode(restore),
            ) by {
                assert(hs.drop_last()[i] == hs[i]);
            }
        }
        lemma_filter_none_relevant(hs.drop_last(), after, want, orig, restore);
        assert(!relevant(hs[hs.len() - 1], orig, after, apply_mode(restore)));
    }
}

proof fn lemma_insert_none_relevant(
    x: DiffHunk,
    s: Seq<DiffHunk>,
    orig: Seq<Seq<char>>,
    after: Seq<Seq<char>>,
    restore: bool,
)
    requires
        none_relevant(s, orig, after, restore),
        !relevant(x, orig, after, apply_mode(restore)),
    ensures
        none_relevant(insert_by_start(x, s), orig, after, restore),
    decreases s.len(),
{
    if s.len() > 0 && s.last().before_start > x.before_start {
        assert(none_relevant(s.drop_last(), orig, after, restore)) by {
            assert forall|i: int| 0 <= i < s.drop_last().len() implies !relevant(
                #[trigger] s.drop_last()[i],
                orig,
                after,
                apply_mode(restore),
            ) by {
                assert(s.drop_last()[i] == s[i]);
            }
        }
        lemma_insert_none_relevant(x, s.drop_last(), orig, after, restore);
        assert(!relevant(s[s.len() - 1], orig, after, apply_mode(restore)));
    }
}

proof fn lemma_sort_none_relevant(
    hs: Seq<DiffHunk>,
    orig: Seq<Seq<char>>,
    after: Seq<Seq<char>>,
    restore: bool,
)
    requires
        none_relevant(hs, orig, after, restore),
    ensures
        none_relevant(sort_by_start(hs), orig, after, restore),
    decreases hs.len(),
{
    if hs.len() > 0 {
        assert(none_relevant(hs.drop_last(), orig, after, restore)) by {
            assert forall|i: int| 0 <= i < hs.drop_last().len() implies !relevant(
                #[trigger] hs.drop_last()[i],
                orig,
                after,
                apply_mode(restore),
            ) by {
                assert(hs.drop_last()[i] == hs[i]);
            }
        }
        lemma_sort_none_relevant(hs.drop_last(), orig, after, restore);
        assert(!relevant(hs[hs.len() - 1], orig, after, apply_mode(restore)));
        lemma_insert_none_relevant(hs.last(), sort_by_start(hs.drop_last()), orig, after, restore);
    }
}

/// Folding over hunks none of which is relevant only copies a prefix of
/// the original.
proof fn lemma_fold_copies_prefix(
    orig: Seq<Seq<char>>,
    after: Seq<Seq<char>>,
    restore: bool,
    hs: Seq<DiffHunk>,
)
    requires
        none_relevant(hs, orig, after, restore),
    ensures
        0 <= ordered_fold(orig, after, restore, hs).1 <= orig.len(),
        ordered_fold(orig, after, restore, hs).0 == orig.take(
            ordered_fold(orig, after, restore, hs).1,
        ),
    decreases hs.len(),
{
    if hs.len() == 0 {
        assert(orig.take(0) =~= Seq::<Seq<char>>::empty());
    } else {
        assert(none_relevant(hs.drop_last(), orig, after, restore)) by {
            assert forall|i: int| 0 <= i < hs.drop_last().len() implies !relevant(
                #[trigger] hs.drop_last()[i],
                orig,
                after,
                apply_mode(restore),
            ) by {
                assert(hs.drop_last()[i] == hs[i]);
            }
        }
        lemma_fold_copies_prefix(orig, after, restore, hs.drop_last());
        let st = ordered_fold(orig, after, restore, hs.drop_last());
        let h = hs.last();
        assert(!relevant(hs[hs.len() - 1], orig, after, apply_mode(restore)));
        let end = h.before_start + h.before_count;
        let hi = if end < orig.len() {
            end
        } else {
            orig.len() as int
        };
        if 0 <= st.1 < hi {
            assert(orig.take(st.1) + orig.subrange(st.1, hi) =~= orig.take(hi));
        } else {
            assert(st.0 + Seq::<Seq<char>>::empty() =~= st.0);
        }
    }
}

/// When the application takes up no relevant hunk (no hunk of the split
/// diff touches documentation in a migration, or restores any in a
/// restore), every original line is kept once and in order, and nothing
/// else is added.
pub proof fn lemma_unrelated_hunks_keep_original(
    orig: Seq<Seq<char>>,
    after: Seq<Seq<char>>,
    restore: bool,
    hs: Seq<DiffHunk>,
)
    requires
        none_relevant(split_all(hs, after), orig, after, restore),
    ensures
        ordered_apply_lines(orig, after, restore, hs) == orig,
{
    let split = split_all(hs, after);
    lemma_filter_none_relevant(split, after, true, orig, restore);
    lemma_filter_none_relevant(split, after, false, orig, restore);
    lemma_sort_none_relevant(filter_level(split, after, true), orig, after, restore);
    lemma_sort_none_relevant(filter_level(split, after, false), orig, after, restore);
    let a = sort_by_start(filter_level(split, after, true));
    let b = sort_by_start(filter_level(split, after, false));
    assert(none_relevant(a + b, orig, after, restore)) by {
        assert forall|i: int| 0 <= i < (a + b).len() implies !relevant(
            #[trigger] (a + b)[i],
            orig,
            after,
            apply_mode(restore),
        ) by {
            if i < a.len() {
                assert((a + b)[i] == a[i]);
            } else {
                assert((a + b)[i] == b[i - a.len()]);
            }
        }
    }
    lemma_fold_copies_prefix(orig, after, restore, a + b);
    let st = ordered_fold(orig, after, restore, a + b);
    if 0 <= st.1 < orig.len() {
        assert(orig.take(st.1) + orig.subrange(st.1, orig.len() as int) =~= orig);
    } else {
        assert(orig.take(st.1) =~= orig);
        assert(st.0 + Seq::<Seq<char>>::empty() =~= st.0);
    }
}

/// A migration whose split diff holds no documentation hunk gives the
/// original back, its lines joined by `\n`; a restore with no restoring
/// hunk gives the original back with only doc-attribute bookends unwrapped.
pub proof fn lemma_unrelated_changes_give_original(
    original: Seq<char>,
    hs: Seq<DiffHunk>,
    after: Seq<char>,
    restore: bool,
)
    requires
        none_relevant(split_all(hs, lines(after)), lines(original), lines(after), restore),
    ensures
        !restore ==> ordered_apply_diff(original, hs, after) == join(lines(original), newline()),
        restore ==> ordered_apply_diff_restore(original, hs, after) == strip_all_doc_attrs(
            join(lines(original), newline()),
        ),
{
    lemma_unrelated_hunks_keep_original(lines(original), lines(after), restore, hs);
}

/// `apply_diff` of a migration: when no hunk of the split diff is
/// documentation-related (`is_doc_related_hunk`), the original comes back
/// unchanged apart from line endings (its lines joined by `\n`).
pub proof fn lemma_apply_diff_without_doc_hunks(original: Seq<char>, hs: Seq<DiffHunk>, after: Seq<char>)
    requires
        forall|i: int|
            0 <= i < split_all(hs, lines(after)).len() ==> !doc_related(
                #[trigger] split_all(hs, lines(after))[i],
                lines(original),
                lines(after),
            ),
    ensures
        ordered_apply_diff(original, hs, after) == join(lines(original), newline()),
{
    assert(none_relevant(split_all(hs, lines(after)), lines(original), lines(after), false));
    lemma_unrelated_changes_give_original(original, hs, after, false);
}

/// `apply_diff_restore`: when no hunk of the split diff is restore-related
/// (`is_restore_related_hunk`), every original line is kept once and in
/// order, and only doc-attribute bookends are rewritten.
pub proof fn lemma_apply_diff_restore_without_restore_hunks(
    original: Seq<char>,
    hs: Seq<DiffHunk>,
    after: Seq<char>,
)
    requires
        forall|i: int|
            0 <= i < split_all(hs, lines(after)).len() ==> !restore_related(
                #[trigger] split_all(hs, lines(after))[i],
                lines(original),
                lines(after),
            ),
    ensures
        ordered_apply_diff_restore(original, hs, after) == strip_all_doc_attrs(
            join(lines(original), newline()),
        ),
{
    assert(none_relevant(split_all(hs, lines(after)), lines(original), lines(after), true));
    lemma_unrelated_changes_give_original(original, hs, after, true);
}

/// How often the line `l` occurs in `s`.
pub open spec fn count_of(s: Seq<Seq<char>>, l: Seq<char>) -> nat
    decreases s.len(),
{
    if s.len() == 0 {
        0
    } else {
        count_of(s.drop_last(), l) + if s.last() == l {
            1nat
        } else {
            0nat
        }
    }
}

proof fn lemma_count_concat(a: Seq<Seq<char>>, b: Seq<Seq<char>>, l: Seq<char>)
    ensures
        count_of(a + b, l) == count_of(a, l) + count_of(b, l),
    decreases b.len(),
{
    if b.len() > 0 {
        lemma_count_concat(a, b.drop_last(), l);
        assert((a + b).drop_last() =~= a + b.drop_last());
        assert((a + b).last() == b.last());
    } else {
        assert(a + b =~= a);
    }
}

/// The hunks, in the order given, lie within the first `n` lines of the
/// original, each ending no later than the next begins.
pub open spec fn in_order_within(hs: Seq<DiffHunk>, n: int) -> bool {
    &&& forall|i: int| 0 <= i < hs.len() ==> #[trigger] hs[i].before_start + hs[i].before_count <= n
    &&& forall|i: int, j: int|
        0 <= i < j < hs.len() ==> #[trigger] hs[i].before_start + hs[i].before_count
            <= #[trigger] hs[j].before_start
}

/// Where the fold over hunks has copied the original up to.
pub open spec fn fold_end(hs: Seq<DiffHunk>) -> int {
    if hs.len() == 0 {
        0
    } else {
        hs.last().before_start + hs.last().before_count
    }
}

/// A line whose copies the migration neither loses nor duplicates: not
/// blank, left out when added (`should_skip_from_transformed`), and not
/// beginning with `# ` after its indentation.
pub open spec fn preserved_line(l: Seq<char>) -> bool {
    &&& !is_blank(l)
    &&& skip_from_transformed(l)
    &&& !has_prefix(trim_start(l), "# "@)
}

proof fn lemma_trim_start_head(s: Seq<char>)
    ensures
        trim_start(s).len() > 0 ==> !crate::text::is_ws(trim_start(s)[0]),
    decreases s.len(),
{
    if s.len() > 0 && crate::text::is_ws(s[0]) {
        lemma_trim_start_head(s.drop_first());
    }
}

proof fn lemma_no_spaces_push(s: Seq<char>, c: char)
    ensures
        no_spaces(s.push(c)) == if c == ' ' {
            no_spaces(s)
        } else {
            no_spaces(s).push(c)
        },
{
    assert(s.push(c).drop_last() =~= s);
}

/// The text of the first two characters, spaces removed.
proof fn lemma_no_spaces_pair(t: Seq<char>)
    requires
        t.len() >= 2,
    ensures
        no_spaces(t.take(2)) == no_spaces(seq![t[0]]) + no_spaces(seq![t[1]]),
        no_spaces(seq![t[0]]) == if t[0] == ' ' {
            Seq::<char>::empty()
        } else {
            seq![t[0]]
        },
        no_spaces(seq![t[1]]) == if t[1] == ' ' {
            Seq::<char>::empty()
        } else {
            seq![t[1]]
        },
{
    let e = Seq::<char>::empty();
    assert(no_spaces(e) == e);
    lemma_no_spaces_push(e, t[0]);
    lemma_no_spaces_push(e, t[1]);
    assert(e.push(t[0]) =~= seq![t[0]]);
    assert(e.push(t[1]) =~= seq![t[1]]);
    assert(t.take(2) =~= seq![t[0]] + seq![t[1]]);
    crate::text::lemma_no_spaces_concat(seq![t[0]], seq![t[1]]);
}

/// A preserved line is one the migration keeps when it is removed.
#[verifier::spinoff_prover]
proof fn lemma_preserved_kept(l: Seq<char>)
    requires
        preserved_line(l),
    ensures
        kept_on_migrate(l),
{
    let t = trim_start(l);
    let n = no_spaces(t);
    reveal_strlit("#[");
    reveal_strlit("# ");
    if has_prefix(n, "#["@) {
        lemma_trim_start_head(l);
        if t.len() < 2 {
            assert(n.len() <= t.len()) by {
                lemma_no_spaces_len(t);
            }
        } else {
            assert(t[0] != ' ');
            lemma_no_spaces_pair(t);
            assert(t =~= t.take(2) + t.skip(2));
            crate::text::lemma_no_spaces_concat(t.take(2), t.skip(2));
            let p = no_spaces(t.take(2));
            assert(n == p + no_spaces(t.skip(2)));
            assert(n.take(2) == "#["@);
            assert(n[0] == n.take(2)[0] && n[1] == n.take(2)[1]);
            assert(n[0] == '#' && n[1] == '[');
            assert(p[0] == t[0]);
            assert(t[0] == '#');
            if t[1] == ' ' {
                assert(t.take(2) =~= "# "@);
            } else {
                assert(p =~= t.take(2));
                assert(p[1] == n[1]);
                assert(t.take(2) =~= "#["@);
            }
        }
    }
}

proof fn lemma_no_spaces_len(s: Seq<char>)
    ensures
        no_spaces(s).len() <= s.len(),
    decreases s.len(),
{
    if s.len() > 0 {
        lemma_no_spaces_len(s.drop_last());
    }
}

proof fn lemma_count_push(s: Seq<Seq<char>>, x: Seq<char>, l: Seq<char>)
    ensures
        count_of(s.push(x), l) == count_of(s, l) + if x == l {
            1nat
        } else {
            0nat
        },
{
    assert(s.push(x).drop_last() =~= s);
}

proof fn lemma_count_take_split(s: Seq<Seq<char>>, p: int, q: int, l: Seq<char>)
    requires
        0 <= p <= q <= s.len(),
    ensures
        count_of(s.take(q), l) == count_of(s.take(p), l) + count_of(s.subrange(p, q), l),
{
    assert(s.take(q) =~= s.take(p) + s.subrange(p, q));
    lemma_count_concat(s.take(p), s.subrange(p, q), l);
}

proof fn lemma_keep_scan_count(ls: Seq<Seq<char>>, lo: int, hi: int, l: Seq<char>)
    requires
        0 <= lo <= hi <= ls.len(),
        kept_on_migrate(l),
        !is_blank(l),
    ensures
        count_of(keep_scan(ls, lo, hi).0, l) == count_of(ls.subrange(lo, hi), l),
    decreases hi - lo,
{
    if hi <= lo {
        assert(ls.subrange(lo, hi) =~= Seq::<Seq<char>>::empty());
    } else {
        lemma_keep_scan_count(ls, lo, hi - 1, l);
        let prev = keep_scan(ls, lo, hi - 1);
        let line = ls[hi - 1];
        assert(ls.subrange(lo, hi) =~= ls.subrange(lo, hi - 1).push(line));
        lemma_count_push(ls.subrange(lo, hi - 1), line, l);
        lemma_count_push(prev.0, line, l);
    }
}

proof fn lemma_added_count(ls: Seq<Seq<char>>, lo: int, hi: int, l: Seq<char>)
    requires
        skip_from_transformed(l),
    ensures
        count_of(added_lines(ls, lo, hi), l) == 0,
    decreases hi - lo,
{
    if hi > lo {
        lemma_added_count(ls, lo, hi - 1, l);
        let prev = added_lines(ls, lo, hi - 1);
        if 0 <= hi - 1 < ls.len() && !skip_from_transformed(ls[hi - 1]) {
            lemma_count_push(prev, ls[hi - 1], l);
        }
    }
}

proof fn lemma_empties_count(n: nat, l: Seq<char>)
    requires
        !is_blank(l),
    ensures
        count_of(empties(n), l) == 0,
    decreases n,
{
    let e = Seq::<char>::empty();
    assert(crate::text::trim_start(e) == e);
    assert(crate::text::trim_end(e) == e);
    assert(is_blank(e));
    if n > 0 {
        lemma_empties_count((n - 1) as nat, l);
        assert(empties(n) =~= empties((n - 1) as nat).push(e));
        lemma_count_push(empties((n - 1) as nat), e, l);
    } else {
        assert(empties(n) =~= Seq::<Seq<char>>::empty());
    }
}

/// Copying the original up to `end` from `p` (the hunks' order keeps `p`
/// at or before `end`, within the original).
proof fn lemma_copy_upto_count(
    orig: Seq<Seq<char>>,
    st: (Seq<Seq<char>>, int),
    end: int,
    l: Seq<char>,
)
    requires
        0 <= st.1 <= end <= orig.len(),
        count_of(st.0, l) == count_of(orig.take(st.1), l),
    ensures
        copy_upto(orig, st, end).1 == end,
        count_of(copy_upto(orig, st, end).0, l) == count_of(orig.take(end), l),
{
    let p = st.1;
    lemma_count_take_split(orig, p, end, l);
    if p < end {
        lemma_count_concat(st.0, orig.subrange(p, end), l);
    } else {
        assert(st.0 + Seq::<Seq<char>>::empty() =~= st.0);
        assert(orig.subrange(p, end) =~= Seq::<Seq<char>>::empty());
    }
}

#[verifier::spinoff_prover]
proof fn lemma_fold_counts(
    orig: Seq<Seq<char>>,
    after: Seq<Seq<char>>,
    restore: bool,
    hs: Seq<DiffHunk>,
    l: Seq<char>,
)
    requires
        preserved_line(l),
        in_order_within(hs, orig.len() as int),
    ensures
        ordered_fold(orig, after, restore, hs).1 == fold_end(hs),
        count_of(ordered_fold(orig, after, restore, hs).0, l) == count_of(
            orig.take(fold_end(hs)),
            l,
        ),
    decreases hs.len(),
{
    if hs.len() == 0 {
        assert(orig.take(0) =~= Seq::<Seq<char>>::empty());
    } else {
        let prev = hs.drop_last();
        assert(in_order_within(prev, orig.len() as int)) by {
            assert forall|i: int, j: int| 0 <= i < j < prev.len() implies #[trigger] prev[i].before_start
                + prev[i].before_count <= #[trigger] prev[j].before_start by {
                assert(prev[i] == hs[i] && prev[j] == hs[j]);
            }
            assert forall|i: int| 0 <= i < prev.len() implies #[trigger] prev[i].before_start
                + prev[i].before_count <= orig.len() by {
                assert(prev[i] == hs[i]);
            }
        }
        lemma_fold_counts(orig, after, restore, prev, l);
        let st = ordered_fold(orig, after, restore, prev);
        let h = hs.last();
        let k = hs.len() - 1;
        assert(h == hs[k]);
        assert(h.before_start + h.before_count <= orig.len());
        let bs = h.before_start as int;
        let bc = h.before_count as int;
        if prev.len() > 0 {
            assert(prev.last() == hs[k - 1]);
            assert(hs[k - 1].before_start + hs[k - 1].before_count <= hs[k].before_start);
        }
        assert(st.1 <= bs);
        lemma_preserved_kept(l);
        if !relevant(h, orig, after, apply_mode(restore)) {
            lemma_copy_upto_count(orig, st, bs + bc, l);
        } else {
            lemma_copy_upto_count(orig, st, bs, l);
            let c = copy_upto(orig, st, bs);
            let nb = blank_scan(orig, bs, bs + bc).0;
            let md = opens_inner(after, h);
            let bb = if nb > 0 && !md {
                empties(nb)
            } else {
                Seq::empty()
            };
            let ab = if nb > 0 && md {
                empties(nb)
            } else {
                Seq::empty()
            };
            let keep = keep_scan(orig, bs, bs + bc).0;
            let add = added_lines(after, h.after_start as int, h.after_start + h.after_count);
            lemma_empties_count(nb, l);
            assert(count_of(Seq::<Seq<char>>::empty(), l) == 0);
            assert(count_of(bb, l) == 0);
            assert(count_of(ab, l) == 0);
            lemma_keep_scan_count(orig, bs, bs + bc, l);
            lemma_added_count(after, h.after_start as int, h.after_start + h.after_count, l);
            lemma_count_concat(c.0, bb, l);
            lemma_count_concat(c.0 + bb, keep, l);
            lemma_count_concat(c.0 + bb + keep, add, l);
            lemma_count_concat(c.0 + bb + keep + add, ab, l);
            lemma_count_take_split(orig, bs, bs + bc, l);
        }
    }
}

/// A migration (or restore) neither loses nor duplicates a non-doc
/// attribute or plain comment line (`should_skip_from_transformed`, not
/// blank, not starting with `# `): when the hunks it takes up lie, in the
/// order it takes them up, within the original, each ending before the next
/// begins, such a line occurs in the resulting lines exactly as often as in
/// the original.
pub proof fn lemma_apply_keeps_preserved_lines(
    orig: Seq<Seq<char>>,
    after: Seq<Seq<char>>,
    restore: bool,
    hs: Seq<DiffHunk>,
    l: Seq<char>,
)
    requires
        preserved_line(l),
        in_order_within(ordered_hunks(hs, after), orig.len() as int),
    ensures
        count_of(ordered_apply_lines(orig, after, restore, hs), l) == count_of(orig, l),
{
    let oh = ordered_hunks(hs, after);
    lemma_fold_counts(orig, after, restore, oh, l);
    let st = ordered_fold(orig, after, restore, oh);
    if oh.len() > 0 {
        assert(oh.last() == oh[oh.len() - 1]);
    }
    lemma_copy_upto_count(orig, st, orig.len() as int, l);
    assert(orig.take(orig.len() as int) =~= orig);
}

proof fn lemma_order_drop_last(hs: Seq<DiffHunk>, n: int)
    requires
        hs.len() > 0,
        in_order_within(hs, n),
    ensures
        in_order_within(hs.drop_last(), n),
{
    let p = hs.drop_last();
    assert forall|i: int, j: int| 0 <= i < j < p.len() implies #[trigger] p[i].before_start
        + p[i].before_count <= #[trigger] p[j].before_start by {
        assert(p[i] == hs[i] && p[j] == hs[j]);
    }
    assert forall|i: int| 0 <= i < p.len() implies #[trigger] p[i].before_start + p[i].before_count
        <= n by {
        assert(p[i] == hs[i]);
    }
}

proof fn lemma_order_concat(a: Seq<DiffHunk>, b: Seq<DiffHunk>, n: int)
    requires
        in_order_within(a, n),
        in_order_within(b, n),
        forall|i: int, j: int|
            0 <= i < a.len() && 0 <= j < b.len() ==> #[trigger] a[i].before_start + a[i].before_count
                <= #[trigger] b[j].before_start,
    ensures
        in_order_within(a + b, n),
{
    let c = a + b;
    assert forall|i: int, j: int| 0 <= i < j < c.len() implies #[trigger] c[i].before_start
        + c[i].before_count <= #[trigger] c[j].before_start by {
        if j < a.len() {
            assert(c[i] == a[i] && c[j] == a[j]);
        } else if i < a.len() {
            assert(c[i] == a[i] && c[j] == b[j - a.len()]);
        } else {
            assert(c[i] == b[i - a.len()] && c[j] == b[j - a.len()]);
        }
    }
    assert forall|i: int| 0 <= i < c.len() implies #[trigger] c[i].before_start + c[i].before_count
        <= n by {
        if i < a.len() {
            assert(c[i] == a[i]);
        } else {
            assert(c[i] == b[i - a.len()]);
        }
    }
}

/// The pieces of a split hunk lie in order within the hunk.
proof fn lemma_split_hunk_shape(h: DiffHunk, after: Seq<Seq<char>>)
    requires
        h.before_start + h.before_count <= usize::MAX,
        h.after_start + h.after_count <= usize::MAX,
    ensures
        in_order_within(split_hunk(h, after), h.before_start + h.before_count),
        forall|k: int|
            0 <= k < split_hunk(h, after).len() ==> h.before_start <= #[trigger] split_hunk(
                h,
                after,
            )[k].before_start,
{
    let s = split_hunk(h, after);
    if !(h.after_count == 0 || h.before_count == 0) {
        match super::hunk::split_point(after, h.after_start as int, h.after_start + h.after_count) {
            None => {},
            Some(p) => {
                super::hunk::lemma_split_point_range(
                    after,
                    h.after_start as int,
                    h.after_start + h.after_count,
                );
                assert(s.len() == 2);
            },
        }
    }
}

proof fn lemma_split_all_order(hs: Seq<DiffHunk>, after: Seq<Seq<char>>, n: int)
    requires
        n <= usize::MAX,
        in_order_within(hs, n),
        forall|i: int| 0 <= i < hs.len() ==> #[trigger] hs[i].after_start + hs[i].after_count <= usize::MAX,
    ensures
        in_order_within(split_all(hs, after), n),
        forall|k: int|
            0 <= k < split_all(hs, after).len() ==> #[trigger] split_all(hs, after)[k].before_start
                + split_all(hs, after)[k].before_count <= fold_end(hs),
    decreases hs.len(),
{
    if hs.len() > 0 {
        let prev = hs.drop_last();
        let h = hs.last();
        let k0 = hs.len() - 1;
        assert(h == hs[k0]);
        lemma_order_drop_last(hs, n);
        assert forall|i: int| 0 <= i < prev.len() implies #[trigger] prev[i].after_start
            + prev[i].after_count <= usize::MAX by {
            assert(prev[i] == hs[i]);
        }
        lemma_split_all_order(prev, after, n);
        lemma_split_hunk_shape(h, after);
        let a = split_all(prev, after);
        let b = split_hunk(h, after);
        if prev.len() > 0 {
            assert(prev.last() == hs[k0 - 1]);
        }
        assert(fold_end(prev) <= h.before_start);
        assert forall|i: int, j: int| 0 <= i < a.len() && 0 <= j < b.len() implies #[trigger] a[i].before_start
            + a[i].before_count <= #[trigger] b[j].before_start by {}
        assert(in_order_within(b, n)) by {
            assert forall|i: int| 0 <= i < b.len() implies #[trigger] b[i].before_start
                + b[i].before_count <= n by {}
        }
        lemma_order_concat(a, b, n);
        assert(split_all(hs, after) == a + b);
        assert forall|k: int| 0 <= k < (a + b).len() implies #[trigger] (a + b)[k].before_start
            + (a + b)[k].before_count <= fold_end(hs) by {
            if k < a.len() {
                assert((a + b)[k] == a[k]);
            } else {
                assert((a + b)[k] == b[k - a.len()]);
            }
        }
    }
}

proof fn lemma_filter_bound(s: Seq<DiffHunk>, after: Seq<Seq<char>>, want: bool, bound: int)
    requires
        forall|j: int| 0 <= j < s.len() ==> #[trigger] s[j].before_start + s[j].before_count <= bound,
    ensures
        forall|k: int|
            0 <= k < filter_level(s, after, want).len() ==> #[trigger] filter_level(
                s,
                after,
                want,
            )[k].before_start + filter_level(s, after, want)[k].before_count <= bound,
    decreases s.len(),
{
    if s.len() > 0 {
        let p = s.drop_last();
        assert forall|j: int| 0 <= j < p.len() implies #[trigger] p[j].before_start
            + p[j].before_count <= bound by {
            assert(p[j] == s[j]);
        }
        lemma_filter_bound(p, after, want, bound);
        assert(s.last() == s[s.len() - 1]);
        let f = filter_level(p, after, want);
        if module_level(s.last(), after) == want {
            let g = f.push(s.last());
            assert(filter_level(s, after, want) == g);
            assert forall|k: int| 0 <= k < g.len() implies #[trigger] g[k].before_start
                + g[k].before_count <= bound by {
                if k < f.len() {
                    assert(g[k] == f[k]);
                }
            }
        }
    }
}

proof fn lemma_filter_order(s: Seq<DiffHunk>, after: Seq<Seq<char>>, want: bool, n: int)
    requires
        in_order_within(s, n),
    ensures
        in_order_within(filter_level(s, after, want), n),
    decreases s.len(),
{
    if s.len() > 0 {
        let p = s.drop_last();
        let last = s.last();
        let k0 = s.len() - 1;
        assert(last == s[k0]);
        lemma_order_drop_last(s, n);
        lemma_filter_order(p, after, want, n);
        assert forall|j: int| 0 <= j < p.len() implies #[trigger] p[j].before_start
            + p[j].before_count <= last.before_start by {
            assert(p[j] == s[j]);
        }
        lemma_filter_bound(p, after, want, last.before_start as int);
        let f = filter_level(p, after, want);
        if module_level(last, after) == want {
            lemma_order_concat(f, seq![last], n);
            assert(f.push(last) == f + seq![last]);
        }
    }
}

/// Sorting hunks that are already in order leaves them as they are.
proof fn lemma_sort_in_order(s: Seq<DiffHunk>, n: int)
    requires
        in_order_within(s, n),
    ensures
        sort_by_start(s) == s,
    decreases s.len(),
{
    if s.len() > 0 {
        lemma_order_drop_last(s, n);
        lemma_sort_in_order(s.drop_last(), n);
        let k0 = s.len() - 1;
        if s.len() > 1 {
            assert(s.drop_last().last() == s[k0 - 1]);
            assert(s[k0 - 1].before_start + s[k0 - 1].before_count <= s[k0].before_start);
        }
        assert(s.drop_last().push(s.last()) =~= s);
    }
}

/// A migration (or restore) of the line diff of two texts neither loses
/// nor duplicates a non-doc attribute or plain comment line
/// (`preserved_line`): when the diff's hunks lie in order within the
/// original (as `compute_line_diff` gives them) and, once split, every
/// module-level hunk ends before every item-level one begins, such a line
/// occurs in the resulting lines exactly as often as in the original.
pub proof fn lemma_diff_keeps_preserved_lines(
    orig: Seq<Seq<char>>,
    after: Seq<Seq<char>>,
    restore: bool,
    hs: Seq<DiffHunk>,
    l: Seq<char>,
)
    requires
        preserved_line(l),
        orig.len() <= usize::MAX,
        after.len() <= usize::MAX,
        super::hunks_ordered_within(hs, orig.len() as int, after.len() as int),
        forall|i: int, j: int|
            0 <= i < filter_level(split_all(hs, after), after, true).len() && 0 <= j
                < filter_level(split_all(hs, after), after, false).len() ==> #[trigger] filter_level(
                split_all(hs, after),
                after,
                true,
            )[i].before_start + filter_level(split_all(hs, after), after, true)[i].before_count
                <= #[trigger] filter_level(split_all(hs, after), after, false)[j].before_start,
    ensures
        count_of(ordered_apply_lines(orig, after, restore, hs), l) == count_of(orig, l),
{
    let n = orig.len() as int;
    assert(in_order_within(hs, n)) by {
        assert forall|i: int, j: int| 0 <= i < j < hs.len() implies #[trigger] hs[i].before_start
            + hs[i].before_count <= #[trigger] hs[j].before_start by {}
    }
    assert forall|i: int| 0 <= i < hs.len() implies #[trigger] hs[i].after_start
        + hs[i].after_count <= usize::MAX by {
        assert(hs[i].before_start + hs[i].before_count <= orig.len() && hs[i].after_start
            + hs[i].after_count <= after.len());
    }
    lemma_split_all_order(hs, after, n);
    let split = split_all(hs, after);
    lemma_filter_order(split, after, true, n);
    lemma_filter_order(split, after, false, n);
    let ft = filter_level(split, after, true);
    let ff = filter_level(split, after, false);
    lemma_sort_in_order(ft, n);
    lemma_sort_in_order(ff, n);
    lemma_order_concat(ft, ff, n);
    assert(ordered_hunks(hs, after) == ft + ff);
    lemma_apply_keeps_preserved_lines(orig, after, restore, hs, l);
}

} // verus!
