//! Line-level diff computation and application.
pub mod apply;
pub mod hunk;

use vstd::prelude::*;

use crate::text::{
    copy_chars, find_first, find_last, find_chars, has_prefix, is_blank, is_blank_chars, join,
    join_lines, lines, lines_of, no_spaces, no_spaces_chars, rfind_chars, starts_with_chars,
    string_of, trim, trim_chars, trim_start, trim_start_chars, vecs_view, newline, contains,
    contains_chars,
};
use hunk::{
    doc_related, doc_related_exec, restore_related, restore_related_exec, split_hunk,
    split_hunk_exec, split_in_range, lit, DiffHunk,
};

verus! {

/// Which hunks a line-diff application applies, and what it keeps of the
/// lines they remove.
#[derive(Clone, Copy, PartialEq, Eq, Structural)]
pub enum ApplyMode {
    /// Every hunk; removed non-doc attributes and plain comments are kept.
    Every,
    /// The documentation hunks of a migration; same keeping rule.
    Migrate,
    /// The hunks of a restore; removed plain comments are kept.
    Restore,
}

/// The hunks of the line diff that `imara-diff` computes between two texts
/// with the Myers algorithm and its line post-processing, as
/// `(before_start, before_count, after_start, after_count)`.
pub uninterp spec fn imara_line_hunks(before: Seq<char>, after: Seq<char>) -> Seq<
    (usize, usize, usize, usize),
>;

pub open spec fn hunk_tuple(h: DiffHunk) -> (usize, usize, usize, usize) {
    (h.before_start, h.before_count, h.after_start, h.after_count)
}

pub open spec fn hunks_view(hs: Seq<DiffHunk>) -> Seq<(usize, usize, usize, usize)> {
    hs.map_values(|h: DiffHunk| hunk_tuple(h))
}

/// Hunks that stay inside texts of `nb` and `na` lines, in increasing order
/// with at least one unchanged line between two of them.
pub open spec fn hunks_ordered_within(hs: Seq<DiffHunk>, nb: int, na: int) -> bool {
    &&& forall|i: int|
        0 <= i < hs.len() ==> #[trigger] hs[i].before_start + hs[i].before_count <= nb
            && hs[i].after_start + hs[i].after_count <= na
    &&& forall|i: int, j: int|
        0 <= i < j < hs.len() ==> #[trigger] hs[i].before_start + hs[i].before_count
            < #[trigger] hs[j].before_start && hs[i].after_start + hs[i].after_count
            < hs[j].after_start
}

/// Where the unchanged stretch before hunk `i` (after the last hunk when
/// `i` is their number) starts and ends, on the first (`before`) or second
/// side.
pub open spec fn gap_start(hs: Seq<DiffHunk>, i: int, before: bool) -> int {
    if i <= 0 {
        0
    } else if before {
        hs[i - 1].before_start + hs[i - 1].before_count
    } else {
        hs[i - 1].after_start + hs[i - 1].after_count
    }
}

pub open spec fn gap_end(hs: Seq<DiffHunk>, i: int, before: bool, n: int) -> int {
    if i >= hs.len() {
        n
    } else if before {
        hs[i].before_start as int
    } else {
        hs[i].after_start as int
    }
}

/// The unchanged stretch before hunk `i` reads the same on both sides.
pub open spec fn gap_same(hs: Seq<DiffHunk>, a: Seq<Seq<char>>, b: Seq<Seq<char>>, i: int) -> bool {
    a.subrange(gap_start(hs, i, true), gap_end(hs, i, true, a.len() as int)) == b.subrange(
        gap_start(hs, i, false),
        gap_end(hs, i, false, b.len() as int),
    )
}

/// The hunks form an edit script from the lines `a` to the lines `b`: each
/// changes at least one line, they lie in order within both texts, and the
/// lines around and between them are the same on both sides, so replacing
/// each hunk's lines of `a` by its lines of `b` turns `a` into `b`.
pub open spec fn edit_script(hs: Seq<DiffHunk>, a: Seq<Seq<char>>, b: Seq<Seq<char>>) -> bool {
    &&& hunks_ordered_within(hs, a.len() as int, b.len() as int)
    &&& forall|i: int| 0 <= i < hs.len() ==> #[trigger] hs[i].before_count > 0 || hs[i].after_count > 0
    &&& forall|i: int| 0 <= i <= hs.len() ==> #[trigger] gap_same(hs, a, b, i)
}

/// `imara_diff::InternedInput::new`, `imara_diff::Diff::compute` (Myers),
/// `imara_diff::Diff::postprocess_lines` and `imara_diff::Diff::hunks`, run
/// in that order on the two texts.  The crate splits a text into lines at
/// each `\n`, so neither side has more lines than characters; it panics on
/// an input of `i32::MAX` tokens or more.  The hunk iterator yields hunks
/// within the two token sequences, each ending before the next begins on
/// both sides, each changing at least one token, and with the tokens
/// between them matched one to one. A token is a line with its line break,
/// so there are as many tokens as `str::lines` yields lines, and two equal
/// tokens are equal lines: the hunks form an edit script over the lines.
/// `Diff::compute_with` first strips the common prefix and suffix of the
/// two token sequences, so equal texts mark nothing and give no hunk.
#[verifier::external_body]
fn imara_line_diff(before: &str, after: &str) -> (r: Vec<DiffHunk>)
    requires
        before@.len() < 0x7fff_ffff,
        after@.len() < 0x7fff_ffff,
    ensures
        hunks_view(r@) == imara_line_hunks(before@, after@),
        hunks_ordered_within(r@, before@.len() as int, after@.len() as int),
        hunks_ordered_within(r@, lines(before@).len() as int, lines(after@).len() as int),
        edit_script(r@, lines(before@), lines(after@)),
        before@ == after@ ==> r@.len() == 0,
{
    let input = imara_diff::InternedInput::new(before, after);
    let mut diff = imara_diff::Diff::compute(imara_diff::Algorithm::Myers, &input);
    diff.postprocess_lines(&input);
    diff.hunks().map(
        |h| DiffHunk {
            before_start: h.before.start as usize,
            before_count: h.before.len(),
            after_start: h.after.start as usize,
            after_count: h.after.len(),
        },
    ).collect()
}

/// Computes the line-level diff between two texts: an edit script over
/// their lines (see `edit_script`), empty for equal texts.
pub fn compute_line_diff(before: &str, after: &str) -> (r: Vec<DiffHunk>)
    requires
        before@.len() < 0x7fff_ffff,
        after@.len() < 0x7fff_ffff,
    ensures
        hunks_view(r@) == imara_line_hunks(before@, after@),
        hunks_ordered_within(r@, before@.len() as int, after@.len() as int),
        hunks_ordered_within(r@, lines(before@).len() as int, lines(after@).len() as int),
        edit_script(r@, lines(before@), lines(after@)),
        before@ == after@ ==> r@.len() == 0,
{
    imara_line_diff(before, after)
}

/// The lines of `ls` with an index in `[a, b)`.
pub open spec fn line_range(ls: Seq<Seq<char>>, a: int, b: int) -> Seq<Seq<char>> {
    let hi = if b < ls.len() {
        b
    } else {
        ls.len() as int
    };
    if 0 <= a < hi {
        ls.subrange(a, hi)
    } else {
        Seq::empty()
    }
}

/// `n` empty lines.
pub open spec fn empties(n: nat) -> Seq<Seq<char>> {
    Seq::new(n, |i: int| Seq::<char>::empty())
}

/// The number of blank lines of `ls` with an index in `[lo, hi)`.
pub open spec fn blank_count(ls: Seq<Seq<char>>, lo: int, hi: int) -> nat
    decreases hi - lo,
{
    if hi <= lo {
        0
    } else {
        blank_count(ls, lo, hi - 1) + if 0 <= hi - 1 < ls.len() && is_blank(ls[hi - 1]) {
            1nat
        } else {
            0nat
        }
    }
}

/// A comment that is not a doc comment (given the line without its indentation).
pub open spec fn is_plain_comment(t: Seq<char>) -> bool {
    has_prefix(t, "//"@) && !has_prefix(t, "///"@) && !has_prefix(t, "//!"@)
}

/// A removed line that a migration keeps: a non-doc outer or inner
/// attribute, or a plain comment.
pub open spec fn kept_on_migrate(line: Seq<char>) -> bool {
    let t = trim_start(line);
    let n = no_spaces(t);
    ||| (has_prefix(t, "#["@) && !has_prefix(n, "#[doc"@) && !contains(n, "omnidoc"@))
    ||| (has_prefix(n, "#!["@) && !has_prefix(n, "#![doc"@))
    ||| is_plain_comment(t)
}

/// A removed line that a restore keeps: a plain comment.
pub open spec fn kept_on_restore(line: Seq<char>) -> bool {
    is_plain_comment(trim_start(line))
}

pub open spec fn kept_by(mode: ApplyMode, line: Seq<char>) -> bool {
    if mode == ApplyMode::Restore {
        kept_on_restore(line)
    } else {
        kept_on_migrate(line)
    }
}

/// The lines of `ls` with an index in `[lo, hi)` that the operation keeps.
pub open spec fn kept_lines(ls: Seq<Seq<char>>, lo: int, hi: int, mode: ApplyMode) -> Seq<Seq<char>>
    decreases hi - lo,
{
    if hi <= lo {
        Seq::empty()
    } else {
        let prev = kept_lines(ls, lo, hi - 1, mode);
        if 0 <= hi - 1 < ls.len() && kept_by(mode, ls[hi - 1]) {
            prev.push(ls[hi - 1])
        } else {
            prev
        }
    }
}

/// The first added line of the hunk opens module-level documentation.
pub open spec fn starts_module_doc(after: Seq<Seq<char>>, h: DiffHunk, mode: ApplyMode) -> bool {
    &&& h.after_count > 0
    &&& h.after_start < after.len()
    &&& if mode == ApplyMode::Restore {
        has_prefix(trim(after[h.after_start as int]), "//!"@)
    } else {
        has_prefix(no_spaces(after[h.after_start as int]), "#!"@)
    }
}

/// The mode of a migration or a restore.
pub open spec fn apply_mode(restore: bool) -> ApplyMode {
    if restore {
        ApplyMode::Restore
    } else {
        ApplyMode::Migrate
    }
}

pub open spec fn relevant(h: DiffHunk, orig: Seq<Seq<char>>, after: Seq<Seq<char>>, mode: ApplyMode) -> bool {
    match mode {
        ApplyMode::Every => true,
        ApplyMode::Migrate => doc_related(h, orig, after),
        ApplyMode::Restore => restore_related(h, orig, after),
    }
}

pub open spec fn max_int(a: int, b: int) -> int {
    if a < b {
        b
    } else {
        a
    }
}

/// One hunk of a line-diff application: the output lines so far and the
/// index of the next line of the original to copy.
pub open spec fn plain_step(
    orig: Seq<Seq<char>>,
    after: Seq<Seq<char>>,
    mode: ApplyMode,
    st: (Seq<Seq<char>>, int),
    h: DiffHunk,
) -> (Seq<Seq<char>>, int) {
    let bs = h.before_start as int;
    let bc = h.before_count as int;
    if !relevant(h, orig, after, mode) {
        (st.0 + line_range(orig, st.1, bs + bc), max_int(st.1, bs + bc))
    } else {
        let nb = blank_count(orig, bs, bs + bc);
        let md = starts_module_doc(after, h, mode);
        let before_blanks = if nb > 0 && !md {
            empties(nb)
        } else {
            Seq::empty()
        };
        let after_blanks = if nb > 0 && md {
            empties(nb)
        } else {
            Seq::empty()
        };
        (
            st.0 + line_range(orig, st.1, bs) + before_blanks + kept_lines(orig, bs, bs + bc, mode)
                + line_range(after, h.after_start as int, h.after_start + h.after_count) + after_blanks,
            max_int(st.1, bs) + bc,
        )
    }
}

/// The step runs without an arithmetic overflow.
pub open spec fn plain_step_ok(
    orig: Seq<Seq<char>>,
    after: Seq<Seq<char>>,
    mode: ApplyMode,
    st: (Seq<Seq<char>>, int),
    h: DiffHunk,
) -> bool {
    &&& h.after_start + h.after_count <= usize::MAX
    &&& if !relevant(h, orig, after, mode) {
        h.before_start + h.before_count <= usize::MAX
    } else {
        h.before_start + h.before_count <= usize::MAX + 1 && max_int(st.1, h.before_start as int)
            + h.before_count <= usize::MAX
    }
}

pub open spec fn plain_fold(
    orig: Seq<Seq<char>>,
    after: Seq<Seq<char>>,
    mode: ApplyMode,
    hs: Seq<DiffHunk>,
) -> (Seq<Seq<char>>, int)
    decreases hs.len(),
{
    if hs.len() == 0 {
        (Seq::empty(), 0)
    } else {
        plain_step(orig, after, mode, plain_fold(orig, after, mode, hs.drop_last()), hs.last())
    }
}

pub open spec fn plain_fold_ok(
    orig: Seq<Seq<char>>,
    after: Seq<Seq<char>>,
    mode: ApplyMode,
    hs: Seq<DiffHunk>,
) -> bool
    decreases hs.len(),
{
    if hs.len() == 0 {
        true
    } else {
        plain_fold_ok(orig, after, mode, hs.drop_last()) && plain_step_ok(
            orig,
            after,
            mode,
            plain_fold(orig, after, mode, hs.drop_last()),
            hs.last(),
        )
    }
}

/// Each hunk replaced by its halves (see `split_hunk`).
pub open spec fn split_all(hs: Seq<DiffHunk>, after: Seq<Seq<char>>) -> Seq<DiffHunk>
    decreases hs.len(),
{
    if hs.len() == 0 {
        Seq::empty()
    } else {
        split_all(hs.drop_last(), after) + split_hunk(hs.last(), after)
    }
}

/// The lines that result from applying the relevant hunks to the original.
pub open spec fn plain_apply_lines(
    orig: Seq<Seq<char>>,
    after: Seq<Seq<char>>,
    mode: ApplyMode,
    hs: Seq<DiffHunk>,
) -> Seq<Seq<char>> {
    let st = plain_fold(orig, after, mode, split_all(hs, after));
    st.0 + line_range(orig, st.1, orig.len() as int)
}

/// The inputs on which the application runs without an arithmetic overflow.
pub open spec fn plain_apply_ok(
    orig: Seq<Seq<char>>,
    after: Seq<Seq<char>>,
    mode: ApplyMode,
    hs: Seq<DiffHunk>,
) -> bool {
    &&& forall|i: int| 0 <= i < hs.len() ==> split_in_range(#[trigger] hs[i], after)
    &&& plain_fold_ok(orig, after, mode, split_all(hs, after))
}

/// `#[doc = "//! text"]` or `#[doc = "/// text"]` on a line, turned back
/// into the comment, indentation kept; `None` when `pat` does not open such
/// an attribute on the line.
pub open spec fn unwrap_doc_attr(line: Seq<char>, pat: Seq<char>, bare: Seq<char>) -> Option<
    Seq<char>,
> {
    let t = trim(line);
    match find_first(t, pat) {
        Some(start) => match find_last(t, "\"]"@) {
            Some(end) => {
                let cs = start + 9;
                if cs < end {
                    let content = t.subrange(cs, end);
                    let indent = line.take(line.len() - trim_start(line).len());
                    if content == bare + seq![' '] {
                        Some(indent + bare)
                    } else {
                        Some(indent + content)
                    }
                } else {
                    None
                }
            },
            None => None,
        },
        None => None,
    }
}

/// A line with a doc attribute that holds a doc comment turned back into
/// the comment.
pub open spec fn strip_doc_attr_line(line: Seq<char>) -> Seq<char> {
    match unwrap_doc_attr(line, "#[doc = \"//!"@, "//!"@) {
        Some(r) => r,
        None => match unwrap_doc_attr(line, "#[doc = \"///"@, "///"@) {
            Some(r) => r,
            None => line,
        },
    }
}

/// `strip_doc_attr_line` on each line, the lines joined with `\n`.
pub open spec fn strip_all_doc_attrs(code: Seq<char>) -> Seq<char> {
    join(lines(code).map_values(|l: Seq<char>| strip_doc_attr_line(l)), newline())
}

/// The result of applying every hunk (`apply_diff`).
pub open spec fn plain_apply_diff(original: Seq<char>, hs: Seq<DiffHunk>, after: Seq<char>) -> Seq<
    char,
> {
    join(plain_apply_lines(lines(original), lines(after), ApplyMode::Every, hs), newline())
}

/// The result of applying the documentation hunks of a migration.
pub open spec fn doc_apply_diff(original: Seq<char>, hs: Seq<DiffHunk>, after: Seq<char>) -> Seq<
    char,
> {
    join(plain_apply_lines(lines(original), lines(after), ApplyMode::Migrate, hs), newline())
}

/// The restore result (`apply_diff_restore`).
pub open spec fn plain_apply_diff_restore(
    original: Seq<char>,
    hs: Seq<DiffHunk>,
    after: Seq<char>,
) -> Seq<char> {
    strip_all_doc_attrs(
        join(plain_apply_lines(lines(original), lines(after), ApplyMode::Restore, hs), newline()),
    )
}

fn unwrap_doc_attr_exec(line: &Vec<char>, pat: &Vec<char>, bare: &Vec<char>) -> (r: Option<
    Vec<char>,
>)
    requires
        pat@.len() >= 9,
    ensures
        r matches Some(v) ==> unwrap_doc_attr(line@, pat@, bare@) == Some(v@),
        r is None ==> unwrap_doc_attr(line@, pat@, bare@) is None,
{
    let t = trim_chars(line);
    let start = match find_chars(&t, pat) {
        Some(s) => s,
        None => return None,
    };
    let end = match rfind_chars(&t, &lit("\"]")) {
        Some(e) => e,
        None => return None,
    };
    proof {
        crate::text::lemma_find_first_bounds(t@, pat@);
        crate::text::lemma_find_last_bounds(t@, "\"]"@);
    }
    assert(t@.len() == t.len());
    let cs = start + 9;
    if cs >= end {
        return None;
    }
    let content = copy_chars(&t, cs, end);
    let ts = trim_start_chars(line);
    proof {
        crate::text::lemma_trim_start_len(line@);
    }
    let indent = copy_chars(line, 0, line.len() - ts.len());
    let mut r = indent;
    let mut short = copy_chars(bare, 0, bare.len());
    short.push(' ');
    assert(bare@.subrange(0, bare@.len() as int) == bare@);
    let is_short = content.len() == short.len() && starts_with_chars(&content, &short);
    proof {
        assert(short@ == bare@ + seq![' ']);
        if content@.len() == short@.len() {
            assert(content@.take(short@.len() as int) == content@);
        }
        assert(is_short == (content@ == bare@ + seq![' ']));
    }
    let tail = if is_short {
        copy_chars(bare, 0, bare.len())
    } else {
        content
    };
    let ghost r0 = r@;
    let mut k: usize = 0;
    while k < tail.len()
        invariant
            k <= tail.len(),
            r@ == r0 + tail@.take(k as int),
        decreases tail.len() - k,
    {
        r.push(tail[k]);
        k = k + 1;
        assert(tail@.take(k as int) == tail@.take(k - 1).push(tail@[k - 1]));
    }
    assert(tail@.take(tail.len() as int) == tail@);
    Some(r)
}

/// `strip_doc_attr_line` on one line.
fn strip_doc_attr_bookends(line: &Vec<char>) -> (r: Vec<char>)
    ensures
        r@ == strip_doc_attr_line(line@),
{
    proof {
        reveal_strlit("#[doc = \"//!");
        reveal_strlit("#[doc = \"///");
    }
    match unwrap_doc_attr_exec(line, &lit("#[doc = \"//!"), &lit("//!")) {
        Some(r) => r,
        None => match unwrap_doc_attr_exec(line, &lit("#[doc = \"///"), &lit("///")) {
            Some(r) => r,
            None => copy_chars(line, 0, line.len()),
        },
    }
}

/// Turns each doc attribute that holds a doc comment back into the comment.
fn strip_all_doc_attr_bookends(code: &Vec<char>) -> (r: Vec<char>)
    ensures
        r@ == strip_all_doc_attrs(code@),
{
    let s = string_of(code);
    let ls = lines_of(s.as_str());
    let mut out: Vec<Vec<char>> = Vec::new();
    let mut i: usize = 0;
    let ghost f = |l: Seq<char>| strip_doc_attr_line(l);
    while i < ls.len()
        invariant
            i <= ls.len(),
            vecs_view(out@) == vecs_view(ls@).take(i as int).map_values(f),
            f == (|l: Seq<char>| strip_doc_attr_line(l)),
        decreases ls.len() - i,
    {
        let l = strip_doc_attr_bookends(&ls[i]);
        let ghost before = out@;
        out.push(l);
        assert(vecs_view(out@) == vecs_view(before).push(l@));
        assert(vecs_view(ls@).take(i + 1) == vecs_view(ls@).take(i as int).push(ls@[i as int]@));
        i = i + 1;
    }
    assert(vecs_view(ls@).take(ls.len() as int) == vecs_view(ls@));
    join_lines(&out)
}


/// Copies the lines of `ls` with an index in `[a, b)` to the end of `out`.
pub(crate) fn push_range(out: &mut Vec<Vec<char>>, ls: &Vec<Vec<char>>, a: usize, b: usize)
    ensures
        vecs_view(final(out)@) == vecs_view(old(out)@) + line_range(
            vecs_view(ls@),
            a as int,
            b as int,
        ),
{
    let ghost v = vecs_view(ls@);
    let hi = if b < ls.len() {
        b
    } else {
        ls.len()
    };
    if a >= hi {
        assert(vecs_view(out@) == vecs_view(out@) + Seq::<Seq<char>>::empty());
        return;
    }
    let ghost start = vecs_view(out@);
    let mut k = a;
    while k < hi
        invariant
            a <= k <= hi <= ls.len(),
            v == vecs_view(ls@),
            vecs_view(out@) == start + v.subrange(a as int, k as int),
        decreases hi - k,
    {
        let line = copy_chars(&ls[k], 0, ls[k].len());
        assert(ls@[k as int]@.subrange(0, ls@[k as int]@.len() as int) == ls@[k as int]@);
        let ghost before = vecs_view(out@);
        out.push(line);
        assert(vecs_view(out@) == before.push(line@));
        assert(v.subrange(a as int, k + 1) == v.subrange(a as int, k as int).push(v[k as int]));
        k = k + 1;
    }
}

/// Appends `n` empty lines to `out`.
pub(crate) fn push_empties(out: &mut Vec<Vec<char>>, n: usize)
    ensures
        vecs_view(final(out)@) == vecs_view(old(out)@) + empties(n as nat),
{
    let ghost start = vecs_view(out@);
    let mut k: usize = 0;
    while k < n
        invariant
            k <= n,
            vecs_view(out@) == start + empties(k as nat),
        decreases n - k,
    {
        let ghost before = vecs_view(out@);
        out.push(Vec::new());
        assert(vecs_view(out@) == before.push(Seq::<char>::empty()));
        assert(empties((k + 1) as nat) == empties(k as nat).push(Seq::<char>::empty()));
        k = k + 1;
    }
}

proof fn lemma_blank_count_beyond(ls: Seq<Seq<char>>, lo: int, hi: int)
    requires
        0 <= lo,
    ensures
        hi >= ls.len() ==> blank_count(ls, lo, hi) == blank_count(ls, lo, max_int(lo, ls.len() as int)),
        hi >= ls.len() ==> kept_lines(ls, lo, hi, ApplyMode::Restore) == kept_lines(
            ls,
            lo,
            max_int(lo, ls.len() as int),
            ApplyMode::Restore,
        ),
        hi >= ls.len() ==> kept_lines(ls, lo, hi, ApplyMode::Migrate) == kept_lines(
            ls,
            lo,
            max_int(lo, ls.len() as int),
            ApplyMode::Migrate,
        ),
        hi >= ls.len() ==> kept_lines(ls, lo, hi, ApplyMode::Every) == kept_lines(
            ls,
            lo,
            max_int(lo, ls.len() as int),
            ApplyMode::Every,
        ),
    decreases hi - lo,
{
    if hi > lo && hi > ls.len() {
        lemma_blank_count_beyond(ls, lo, hi - 1);
    }
}

/// `blank_count(ls, bs, bs + bc)`.
pub(crate) fn blank_count_exec(ls: &Vec<Vec<char>>, bs: usize, bc: usize) -> (n: usize)
    ensures
        n == blank_count(vecs_view(ls@), bs as int, bs + bc),
        n <= bc,
{
    let ghost v = vecs_view(ls@);
    let hi = if bs >= ls.len() {
        bs
    } else if bc < ls.len() - bs {
        bs + bc
    } else {
        ls.len()
    };
    let mut k = bs;
    let mut n: usize = 0;
    while k < hi
        invariant
            bs <= k <= hi,
            hi <= bs + bc,
            hi <= ls.len() || hi == bs,
            v == vecs_view(ls@),
            n == blank_count(v, bs as int, k as int),
            n <= k - bs,
        decreases hi - k,
    {
        if is_blank_chars(&ls[k]) {
            n = n + 1;
        }
        k = k + 1;
    }
    proof {
        lemma_blank_count_beyond(v, bs as int, bs + bc);
    }
    n
}

/// Appends `kept_lines(ls, bs, bs + bc, restore)` to `out`.
pub(crate) fn push_kept_lines(
    out: &mut Vec<Vec<char>>,
    ls: &Vec<Vec<char>>,
    bs: usize,
    bc: usize,
    mode: ApplyMode,
)
    ensures
        vecs_view(final(out)@) == vecs_view(old(out)@) + kept_lines(
            vecs_view(ls@),
            bs as int,
            bs + bc,
            mode,
        ),
{
    let ghost v = vecs_view(ls@);
    let ghost start = vecs_view(out@);
    let hi = if bs >= ls.len() {
        bs
    } else if bc < ls.len() - bs {
        bs + bc
    } else {
        ls.len()
    };
    let mut k = bs;
    while k < hi
        invariant
            bs <= k <= hi,
            hi <= bs + bc,
            hi <= ls.len() || hi == bs,
            v == vecs_view(ls@),
            vecs_view(out@) == start + kept_lines(v, bs as int, k as int, mode),
        decreases hi - k,
    {
        let keep = if mode == ApplyMode::Restore {
            kept_on_restore_exec(&ls[k])
        } else {
            kept_on_migrate_exec(&ls[k])
        };
        if keep {
            let line = copy_chars(&ls[k], 0, ls[k].len());
            assert(ls@[k as int]@.subrange(0, ls@[k as int]@.len() as int) == ls@[k as int]@);
            let ghost before = vecs_view(out@);
            out.push(line);
            assert(vecs_view(out@) == before.push(line@));
        }
        k = k + 1;
    }
    proof {
        lemma_blank_count_beyond(v, bs as int, bs + bc);
    }
}

pub(crate) fn is_plain_comment_exec(t: &Vec<char>) -> (b: bool)
    ensures
        b == is_plain_comment(t@),
{
    starts_with_chars(t, &lit("//")) && !starts_with_chars(t, &lit("///")) && !starts_with_chars(
        t,
        &lit("//!"),
    )
}

pub(crate) fn kept_on_migrate_exec(line: &Vec<char>) -> (b: bool)
    ensures
        b == kept_on_migrate(line@),
{
    let t = trim_start_chars(line);
    let n = no_spaces_chars(&t);
    (starts_with_chars(&t, &lit("#[")) && !starts_with_chars(&n, &lit("#[doc")) && !contains_chars(
        &n,
        &lit("omnidoc"),
    )) || (starts_with_chars(&n, &lit("#![")) && !starts_with_chars(&n, &lit("#![doc")))
        || is_plain_comment_exec(&t)
}

fn kept_on_restore_exec(line: &Vec<char>) -> (b: bool)
    ensures
        b == kept_on_restore(line@),
{
    let t = trim_start_chars(line);
    is_plain_comment_exec(&t)
}

pub(crate) fn starts_module_doc_exec(after: &Vec<Vec<char>>, h: &DiffHunk, mode: ApplyMode) -> (b:
    bool)
    ensures
        b == starts_module_doc(vecs_view(after@), *h, mode),
{
    if h.after_count == 0 || h.after_start >= after.len() {
        return false;
    }
    let l = &after[h.after_start];
    if mode == ApplyMode::Restore {
        let t = trim_chars(l);
        starts_with_chars(&t, &lit("//!"))
    } else {
        let n = no_spaces_chars(l);
        starts_with_chars(&n, &lit("#!"))
    }
}

/// Replaces each hunk by its halves.
pub(crate) fn split_all_exec(hunks: &[DiffHunk], after: &Vec<Vec<char>>) -> (r: Vec<DiffHunk>)
    requires
        forall|i: int| 0 <= i < hunks@.len() ==> split_in_range(#[trigger] hunks@[i], vecs_view(after@)),
    ensures
        r@ == split_all(hunks@, vecs_view(after@)),
{
    let ghost v = vecs_view(after@);
    let mut r: Vec<DiffHunk> = Vec::new();
    let mut i: usize = 0;
    while i < hunks.len()
        invariant
            i <= hunks.len(),
            v == vecs_view(after@),
            forall|j: int| 0 <= j < hunks@.len() ==> split_in_range(#[trigger] hunks@[j], v),
            r@ == split_all(hunks@.take(i as int), v),
        decreases hunks.len() - i,
    {
        let parts = split_hunk_exec(&hunks[i], after);
        let mut k: usize = 0;
        let ghost r0 = r@;
        while k < parts.len()
            invariant
                k <= parts.len(),
                r@ == r0 + parts@.take(k as int),
            decreases parts.len() - k,
        {
            r.push(parts[k]);
            k = k + 1;
            assert(parts@.take(k as int) == parts@.take(k - 1).push(parts@[k - 1]));
        }
        assert(parts@.take(parts.len() as int) == parts@);
        assert(hunks@.take(i + 1).drop_last() == hunks@.take(i as int));
        i = i + 1;
    }
    assert(hunks@.take(hunks.len() as int) == hunks@);
    r
}

proof fn lemma_plain_fold_ok_prefix(
    orig: Seq<Seq<char>>,
    after: Seq<Seq<char>>,
    mode: ApplyMode,
    hs: Seq<DiffHunk>,
    k: int,
)
    requires
        plain_fold_ok(orig, after, mode, hs),
        0 <= k < hs.len(),
    ensures
        plain_fold_ok(orig, after, mode, hs.take(k + 1)),
        plain_step_ok(orig, after, mode, plain_fold(orig, after, mode, hs.take(k)), hs[k]),
    decreases hs.len(),
{
    if k + 1 < hs.len() {
        assert(hs.drop_last().take(k + 1) == hs.take(k + 1));
        assert(hs.drop_last().take(k) == hs.take(k));
        lemma_plain_fold_ok_prefix(orig, after, mode, hs.drop_last(), k);
    } else {
        assert(hs.take(k + 1) == hs);
        assert(hs.drop_last() == hs.take(k));
    }
}

/// One hunk of `plain_fold`, applied to `out` and the copy position `idx`.
fn plain_step_exec(
    orig: &Vec<Vec<char>>,
    after: &Vec<Vec<char>>,
    mode: ApplyMode,
    out: &mut Vec<Vec<char>>,
    idx: usize,
    h: &DiffHunk,
) -> (r: usize)
    requires
        plain_step_ok(vecs_view(orig@), vecs_view(after@), mode, (vecs_view(old(out)@), idx as int), *h),
    ensures
        (vecs_view(final(out)@), r as int) == plain_step(
            vecs_view(orig@),
            vecs_view(after@),
            mode,
            (vecs_view(old(out)@), idx as int),
            *h,
        ),
{
    let ghost ov = vecs_view(orig@);
    let ghost av = vecs_view(after@);
    let ghost st0 = vecs_view(out@);
    let rel = match mode {
        ApplyMode::Every => true,
        ApplyMode::Migrate => doc_related_exec(h, orig, after),
        ApplyMode::Restore => restore_related_exec(h, orig, after),
    };
    if !rel {
        let end = h.before_start + h.before_count;
        push_range(out, orig, idx, end);
        return if idx < end {
            end
        } else {
            idx
        };
    }
    push_range(out, orig, idx, h.before_start);
    let ghost s1 = vecs_view(out@);
    let i1 = if idx < h.before_start {
        h.before_start
    } else {
        idx
    };
    let nb = blank_count_exec(orig, h.before_start, h.before_count);
    let md = starts_module_doc_exec(after, h, mode);
    if nb > 0 && !md {
        push_empties(out, nb);
    }
    let ghost s2 = vecs_view(out@);
    push_kept_lines(out, orig, h.before_start, h.before_count, mode);
    let ghost s3 = vecs_view(out@);
    let aend = h.after_start + h.after_count;
    push_range(out, after, h.after_start, aend);
    let ghost s4 = vecs_view(out@);
    if nb > 0 && md {
        push_empties(out, nb);
    }
    proof {
        let bs = h.before_start as int;
        let bc = h.before_count as int;
        let before_blanks = if nb > 0 && !md {
            empties(nb as nat)
        } else {
            Seq::empty()
        };
        let after_blanks = if nb > 0 && md {
            empties(nb as nat)
        } else {
            Seq::empty()
        };
        assert(s2 == s1 + before_blanks);
        assert(vecs_view(out@) == s4 + after_blanks);
        assert(vecs_view(out@) == st0 + line_range(ov, idx as int, bs) + before_blanks
            + kept_lines(ov, bs, bs + bc, mode) + line_range(
            av,
            h.after_start as int,
            h.after_start + h.after_count,
        ) + after_blanks);
    }
    i1 + h.before_count
}

/// The line-diff application shared by `apply_diff` and `apply_diff_restore`.
fn plain_apply(original: &str, hunks: &[DiffHunk], formatted_after: &str, mode: ApplyMode) -> (r: Vec<
    char,
>)
    requires
        plain_apply_ok(lines(original@), lines(formatted_after@), mode, hunks@),
    ensures
        r@ == join(plain_apply_lines(lines(original@), lines(formatted_after@), mode, hunks@), newline()),
{
    let orig = lines_of(original);
    let after = lines_of(formatted_after);
    let ghost ov = vecs_view(orig@);
    let ghost av = vecs_view(after@);
    let split = split_all_exec(hunks, &after);
    let mut out: Vec<Vec<char>> = Vec::new();
    let mut idx: usize = 0;
    let mut k: usize = 0;
    assert(split@.take(0) == Seq::<DiffHunk>::empty());
    while k < split.len()
        invariant
            k <= split.len(),
            ov == vecs_view(orig@),
            av == vecs_view(after@),
            plain_fold_ok(ov, av, mode, split@),
            (vecs_view(out@), idx as int) == plain_fold(ov, av, mode, split@.take(k as int)),
        decreases split.len() - k,
    {
        proof {
            lemma_plain_fold_ok_prefix(ov, av, mode, split@, k as int);
            assert(split@.take(k + 1).drop_last() == split@.take(k as int));
        }
        idx = plain_step_exec(&orig, &after, mode, &mut out, idx, &split[k]);
        k = k + 1;
    }
    assert(split@.take(split.len() as int) == split@);
    push_range(&mut out, &orig, idx, orig.len());
    join_lines(&out)
}

/// Applies every hunk to the original text: removed lines go except the
/// non-doc attributes and plain comments among them, added lines come in,
/// and removed blank lines are kept before the change (after it when the
/// change opens module documentation).
pub fn apply_diff(original: &str, hunks: &[DiffHunk], formatted_after: &str) -> (r: String)
    requires
        plain_apply_ok(lines(original@), lines(formatted_after@), ApplyMode::Every, hunks@),
    ensures
        r@ == plain_apply_diff(original@, hunks@, formatted_after@),
{
    let v = plain_apply(original, hunks, formatted_after, ApplyMode::Every);
    string_of(&v)
}

/// Applies only the documentation-related hunks to the original text, each
/// the way `apply_diff` applies it.
pub fn apply_doc_diff(original: &str, hunks: &[DiffHunk], formatted_after: &str) -> (r: String)
    requires
        plain_apply_ok(lines(original@), lines(formatted_after@), ApplyMode::Migrate, hunks@),
    ensures
        r@ == doc_apply_diff(original@, hunks@, formatted_after@),
{
    let v = plain_apply(original, hunks, formatted_after, ApplyMode::Migrate);
    string_of(&v)
}

/// Applies the restore-related hunks to the original text, then turns doc
/// attributes that hold doc comments back into the comments.
pub fn apply_diff_restore(original: &str, hunks: &[DiffHunk], formatted_after: &str) -> (r: String)
    requires
        plain_apply_ok(lines(original@), lines(formatted_after@), ApplyMode::Restore, hunks@),
    ensures
        r@ == plain_apply_diff_restore(original@, hunks@, formatted_after@),
{
    let v = plain_apply(original, hunks, formatted_after, ApplyMode::Restore);
    let s = strip_all_doc_attr_bookends(&v);
    string_of(&s)
}

} // verus!
