//! Format-preserving rewriting: both texts are formatted by rustfmt, their
//! line diff is computed, only the documentation-related changes are applied
//! to the formatted original, and lines holding the module documentation
//! macro are reformatted.  rustfmt is an outside program, so the rewrite is a
//! job that asks for each formatting it needs (`ReformatAction`) and is
//! handed back what rustfmt answered (`ReformatEvent`).
pub mod bookend;
pub mod diff;

use vstd::prelude::*;

use crate::text::{chars_of, lines, newline, string_of, with_final_newline};
use bookend::{answers_in_range, bookend_request, bookend_requests, bookended_code, opt_strings_view};
use diff::hunk::{split_hunk, split_in_range, DiffHunk};
use diff::hunk;
use diff::{
    compute_line_diff, doc_apply_diff, hunks_ordered_within, hunks_view, imara_line_hunks, ApplyMode,
    plain_apply_diff_restore, plain_apply_ok, plain_fold, plain_fold_ok, split_all,
};

verus! {

/// The hunks named by `imara_line_hunks`.
pub open spec fn line_diff(before: Seq<char>, after: Seq<char>) -> Seq<DiffHunk> {
    let t = imara_line_hunks(before, after);
    Seq::new(
        t.len(),
        |i: int|
            DiffHunk {
                before_start: t[i].0,
                before_count: t[i].1,
                after_start: t[i].2,
                after_count: t[i].3,
            },
    )
}

/// The formatted original with the documentation changes of the formatted
/// transformed text applied (restore changes when `restore`).
pub open spec fn merged_text(fo: Seq<char>, ft: Seq<char>, restore: bool) -> Seq<char> {
    if restore {
        plain_apply_diff_restore(fo, line_diff(fo, ft), ft)
    } else {
        doc_apply_diff(fo, line_diff(fo, ft), ft)
    }
}

/// The finished rewrite: the merged text with its module documentation
/// lines bookended, ending in a newline.
pub open spec fn finished_text(merged: Seq<char>, answers: Seq<Option<Seq<char>>>) -> Seq<char> {
    with_final_newline(bookended_code(merged, answers))
}

/// The lines of a text whose formatting the rewrite asks for.
pub open spec fn requests_view(code: Seq<char>) -> Seq<Option<Seq<char>>> {
    Seq::new(lines(code).len(), |i: int| bookend_request(lines(code)[i]))
}

/// Where a format-preserving rewrite stands.
pub enum ReformatJob {
    /// Waiting for rustfmt's output for the original text.
    AwaitOriginal { transformed: String, restore: bool },
    /// Waiting for rustfmt's output for the transformed text.
    AwaitTransformed { formatted_original: String, restore: bool },
    /// Waiting for rustfmt's output for each requested line of the merged text.
    AwaitLines { merged: String },
    /// The rewrite is over.
    Done,
}

/// What the rewrite needs next.
pub enum ReformatAction {
    /// Run rustfmt on this text and hand back `ReformatEvent::Formatted`.
    Format(String),
    /// Run rustfmt on each given text, in order, and hand back
    /// `ReformatEvent::FormattedEach` with one answer per entry (`None` where
    /// nothing was asked or rustfmt failed).
    FormatEach(Vec<Option<String>>),
    /// The rewrite is over, with its result or rustfmt's error.
    Finished(Result<String, String>),
}

/// What rustfmt answered.
pub enum ReformatEvent {
    Formatted(Result<String, String>),
    FormattedEach(Vec<Option<String>>),
}

/// The event answers what the job waits for and can be used: a formatted
/// text (and the one the job holds) has fewer than `i32::MAX` characters (the
/// line diff panics beyond), and each line answer unwraps without slicing
/// backwards.
pub open spec fn event_fits(job: ReformatJob, event: ReformatEvent) -> bool {
    match job {
        ReformatJob::AwaitOriginal { .. } => match event {
            ReformatEvent::Formatted(Ok(s)) => s@.len() < 0x7fff_ffff,
            ReformatEvent::Formatted(Err(_)) => true,
            ReformatEvent::FormattedEach(_) => false,
        },
        ReformatJob::AwaitTransformed { formatted_original, .. } => formatted_original@.len()
            < 0x7fff_ffff && match event {
            ReformatEvent::Formatted(Ok(s)) => s@.len() < 0x7fff_ffff,
            ReformatEvent::Formatted(Err(_)) => true,
            ReformatEvent::FormattedEach(_) => false,
        },
        ReformatJob::AwaitLines { merged } => match event {
            ReformatEvent::FormattedEach(fs) => answers_in_range(
                lines(merged@),
                opt_strings_view(fs@),
            ),
            ReformatEvent::Formatted(_) => false,
        },
        ReformatJob::Done => false,
    }
}

pub open spec fn hunk_end(h: DiffHunk) -> int {
    h.before_start + h.before_count
}

/// Hunks that end within `nb` lines, each ending no later than any later
/// one starts.
pub open spec fn chained(s: Seq<DiffHunk>, nb: int) -> bool {
    &&& forall|i: int| 0 <= i < s.len() ==> hunk_end(#[trigger] s[i]) <= nb
    &&& forall|i: int, j: int|
        0 <= i < j < s.len() ==> hunk_end(#[trigger] s[i]) <= #[trigger] s[j].before_start
}

proof fn lemma_split_hunk_chained(h: DiffHunk, after: Seq<Seq<char>>, nb: int)
    requires
        split_in_range(h, after),
        hunk_end(h) <= nb,
    ensures
        chained(split_hunk(h, after), nb),
        forall|i: int|
            0 <= i < split_hunk(h, after).len() ==> #[trigger] split_hunk(h, after)[i].before_start
                >= h.before_start && hunk_end(split_hunk(h, after)[i]) <= hunk_end(h),
{
}

proof fn lemma_split_all_chained(hs: Seq<DiffHunk>, after: Seq<Seq<char>>, nb: int)
    requires
        forall|i: int| 0 <= i < hs.len() ==> split_in_range(#[trigger] hs[i], after),
        forall|i: int| 0 <= i < hs.len() ==> hunk_end(#[trigger] hs[i]) <= nb,
        forall|i: int, j: int|
            0 <= i < j < hs.len() ==> hunk_end(#[trigger] hs[i]) < #[trigger] hs[j].before_start,
    ensures
        chained(split_all(hs, after), nb),
        hs.len() > 0 ==> forall|i: int|
            0 <= i < split_all(hs, after).len() ==> hunk_end(#[trigger] split_all(hs, after)[i])
                <= hunk_end(hs.last()),
    decreases hs.len(),
{
    if hs.len() > 0 {
        let pre = hs.drop_last();
        let h = hs.last();
        assert(forall|i: int| 0 <= i < pre.len() ==> pre[i] == hs[i]);
        lemma_split_all_chained(pre, after, nb);
        lemma_split_hunk_chained(h, after, nb);
        let a = split_all(pre, after);
        let b = split_hunk(h, after);
        let s = split_all(hs, after);
        assert(s == a + b);
        assert forall|i: int, j: int| 0 <= i < j < s.len() implies hunk_end(#[trigger] s[i])
            <= #[trigger] s[j].before_start by {
            if j < a.len() {
                assert(s[i] == a[i] && s[j] == a[j]);
            } else if i >= a.len() {
                assert(s[i] == b[i - a.len()] && s[j] == b[j - a.len()]);
            } else {
                assert(s[i] == a[i] && s[j] == b[j - a.len()]);
                assert(pre.len() > 0);
                assert(pre.last() == hs[hs.len() - 2]);
                assert(hunk_end(hs[hs.len() - 2]) < hs[hs.len() - 1].before_start);
            }
        }
        assert forall|i: int| 0 <= i < s.len() implies hunk_end(#[trigger] s[i]) <= nb
            && hunk_end(s[i]) <= hunk_end(hs.last()) by {
            if i < a.len() {
                assert(s[i] == a[i]);
                if pre.len() > 0 {
                    assert(pre.last() == hs[hs.len() - 2]);
                    assert(hunk_end(hs[hs.len() - 2]) < hs[hs.len() - 1].before_start);
                }
            } else {
                assert(s[i] == b[i - a.len()]);
            }
        }
    }
}

proof fn lemma_chained_fold(
    orig: Seq<Seq<char>>,
    after: Seq<Seq<char>>,
    mode: ApplyMode,
    s: Seq<DiffHunk>,
    nb: int,
    k: int,
)
    requires
        chained(s, nb),
        0 <= k <= s.len(),
        nb < 0x7fff_ffff,
        forall|i: int|
            0 <= i < s.len() ==> #[trigger] s[i].after_start + s[i].after_count <= 0x7fff_ffff,
    ensures
        plain_fold(orig, after, mode, s.take(k)).1 == if k == 0 {
            0
        } else {
            hunk_end(s[k - 1])
        },
        plain_fold_ok(orig, after, mode, s.take(k)),
    decreases k,
{
    if k > 0 {
        lemma_chained_fold(orig, after, mode, s, nb, k - 1);
        assert(s.take(k).drop_last() == s.take(k - 1));
        assert(s.take(k).last() == s[k - 1]);
        if k > 1 {
            assert(hunk_end(s[k - 2]) <= s[k - 1].before_start);
        }
    }
}

proof fn lemma_merge_in_range(fo: Seq<char>, ft: Seq<char>, mode: ApplyMode)
    requires
        fo.len() < 0x7fff_ffff,
        ft.len() < 0x7fff_ffff,
        hunks_ordered_within(line_diff(fo, ft), fo.len() as int, ft.len() as int),
    ensures
        plain_apply_ok(lines(fo), lines(ft), mode, line_diff(fo, ft)),
{
    let hs = line_diff(fo, ft);
    let after = lines(ft);
    let nb = fo.len() as int;
    assert forall|i: int| 0 <= i < hs.len() implies split_in_range(#[trigger] hs[i], after)
        && hs[i].after_start + hs[i].after_count <= ft.len() by {
        assert(hs[i].before_start + hs[i].before_count <= nb);
    }
    lemma_split_all_chained(hs, after, nb);
    let s = split_all(hs, after);
    lemma_split_all_after(hs, after, ft.len() as int);
    lemma_chained_fold(lines(fo), after, mode, s, nb, s.len() as int);
    assert(s.take(s.len() as int) == s);
}

proof fn lemma_split_all_after(hs: Seq<DiffHunk>, after: Seq<Seq<char>>, na: int)
    requires
        na < 0x7fff_ffff,
        forall|i: int|
            0 <= i < hs.len() ==> #[trigger] hs[i].after_start + hs[i].after_count <= na,
        forall|i: int| 0 <= i < hs.len() ==> split_in_range(#[trigger] hs[i], after),
    ensures
        forall|i: int|
            0 <= i < split_all(hs, after).len() ==> #[trigger] split_all(hs, after)[i].after_start
                + split_all(hs, after)[i].after_count <= 0x7fff_ffff,
    decreases hs.len(),
{
    if hs.len() > 0 {
        let pre = hs.drop_last();
        assert(forall|i: int| 0 <= i < pre.len() ==> pre[i] == hs[i]);
        lemma_split_all_after(pre, after, na);
        let a = split_all(pre, after);
        let h = hs.last();
        let b = split_hunk(h, after);
        assert(h.after_start + h.after_count <= na);
        hunk::lemma_split_point_range(after, h.after_start as int, h.after_start + h.after_count);
        assert(split_all(hs, after) == a + b);
        assert forall|i: int| 0 <= i < split_all(hs, after).len() implies #[trigger] split_all(
            hs,
            after,
        )[i].after_start + split_all(hs, after)[i].after_count <= 0x7fff_ffff by {
            if i >= a.len() {
                assert(split_all(hs, after)[i] == b[i - a.len()]);
            } else {
                assert(split_all(hs, after)[i] == a[i]);
            }
        }
    }
}

/// Merges the documentation changes of the formatted transformed text into
/// the formatted original.
fn merge_formatted(fo: &str, ft: &str, restore: bool) -> (r: String)
    requires
        fo@.len() < 0x7fff_ffff,
        ft@.len() < 0x7fff_ffff,
    ensures
        r@ == merged_text(fo@, ft@, restore),
{
    let hunks = compute_line_diff(fo, ft);
    proof {
        assert(hunks@ == line_diff(fo@, ft@)) by {
            assert(hunks_view(hunks@) == imara_line_hunks(fo@, ft@));
            assert forall|i: int| 0 <= i < hunks@.len() implies hunks@[i] == line_diff(
                fo@,
                ft@,
            )[i] by {
                assert(hunks_view(hunks@)[i] == (
                    hunks@[i].before_start,
                    hunks@[i].before_count,
                    hunks@[i].after_start,
                    hunks@[i].after_count,
                ));
            }
        }
        lemma_merge_in_range(
            fo@,
            ft@,
            if restore {
                ApplyMode::Restore
            } else {
                ApplyMode::Migrate
            },
        );
    }
    if restore {
        diff::apply_diff_restore(fo, hunks.as_slice(), ft)
    } else {
        diff::apply_doc_diff(fo, hunks.as_slice(), ft)
    }
}

/// Starts a format-preserving rewrite of `original` into `transformed`
/// (a migration: documentation changes only); the first action asks for
/// rustfmt's output for the original.
pub fn rewrite_preserving_format(original: &str, transformed: &str) -> (r: (
    ReformatJob,
    ReformatAction,
))
    ensures
        r.0 matches ReformatJob::AwaitOriginal { transformed: t, restore } && t@ == transformed@
            && !restore,
        r.1 matches ReformatAction::Format(s) && s@ == original@,
{
    (
        ReformatJob::AwaitOriginal { transformed: string_of(&chars_of(transformed)), restore: false },
        ReformatAction::Format(string_of(&chars_of(original))),
    )
}


/// Starts a format-preserving restore of `original` into `transformed`
/// (restore changes only, doc attributes turned back into doc comments).
pub fn rewrite_preserving_format_restore(original: &str, transformed: &str) -> (r: (
    ReformatJob,
    ReformatAction,
))
    ensures
        r.0 matches ReformatJob::AwaitOriginal { transformed: t, restore } && t@ == transformed@
            && restore,
        r.1 matches ReformatAction::Format(s) && s@ == original@,
{
    (
        ReformatJob::AwaitOriginal { transformed: string_of(&chars_of(transformed)), restore: true },
        ReformatAction::Format(string_of(&chars_of(original))),
    )
}

/// What one step of the rewrite does with what rustfmt answered.
pub open spec fn step_post(
    job: ReformatJob,
    event: ReformatEvent,
    next: ReformatJob,
    action: ReformatAction,
) -> bool {
    match job {
        ReformatJob::AwaitOriginal { transformed, restore } => match event {
            ReformatEvent::Formatted(Err(e)) => next is Done && action == ReformatAction::Finished(
                Err(e),
            ),
            ReformatEvent::Formatted(Ok(fo)) => next == (ReformatJob::AwaitTransformed {
                formatted_original: fo,
                restore,
            }) && (action matches ReformatAction::Format(t) && t@ == transformed@),
            _ => false,
        },
        ReformatJob::AwaitTransformed { formatted_original, restore } => match event {
            ReformatEvent::Formatted(Err(e)) => next is Done && action == ReformatAction::Finished(
                Err(e),
            ),
            ReformatEvent::Formatted(Ok(ft)) => {
                &&& next matches ReformatJob::AwaitLines { merged } && merged@ == merged_text(
                    formatted_original@,
                    ft@,
                    restore,
                )
                &&& action matches ReformatAction::FormatEach(rs) && opt_strings_view(rs@)
                    == requests_view(next->merged@)
            },
            _ => false,
        },
        ReformatJob::AwaitLines { merged } => match event {
            ReformatEvent::FormattedEach(fs) => {
                &&& next is Done
                &&& action matches ReformatAction::Finished(Ok(s)) && s@ == finished_text(
                    merged@,
                    opt_strings_view(fs@),
                )
            },
            _ => false,
        },
        ReformatJob::Done => false,
    }
}

fn finish(merged: &str, answers: &Vec<Option<String>>) -> (r: String)
    requires
        answers_in_range(lines(merged@), opt_strings_view(answers@)),
    ensures
        r@ == finished_text(merged@, opt_strings_view(answers@)),
{
    let b = bookend::reformat_bookended_lines(merged, answers);
    let mut v = chars_of(b.as_str());
    let mut nl: Vec<char> = Vec::new();
    nl.push('\n');
    assert(nl@ == newline());
    if !crate::text::ends_with_chars(&v, &nl) {
        v.push('\n');
    }
    string_of(&v)
}

impl ReformatJob {
    /// Takes rustfmt's answer to the last action and returns where the
    /// rewrite stands and what it needs next.
    pub fn step(self, event: ReformatEvent) -> (r: (ReformatJob, ReformatAction))
        requires
            event_fits(self, event),
        ensures
            step_post(self, event, r.0, r.1),
    {
        match self {
            ReformatJob::AwaitOriginal { transformed, restore } => match event {
                ReformatEvent::Formatted(Err(e)) => (
                    ReformatJob::Done,
                    ReformatAction::Finished(Err(e)),
                ),
                ReformatEvent::Formatted(Ok(fo)) => (
                    ReformatJob::AwaitTransformed { formatted_original: fo, restore },
                    ReformatAction::Format(transformed),
                ),
                ReformatEvent::FormattedEach(_) => (ReformatJob::Done, ReformatAction::Finished(
                    Err(String::new()),
                )),
            },
            ReformatJob::AwaitTransformed { formatted_original, restore } => match event {
                ReformatEvent::Formatted(Err(e)) => (
                    ReformatJob::Done,
                    ReformatAction::Finished(Err(e)),
                ),
                ReformatEvent::Formatted(Ok(ft)) => {
                    let merged = merge_formatted(formatted_original.as_str(), ft.as_str(), restore);
                    let rs = bookend_requests(merged.as_str());
                    proof {
                        assert(opt_strings_view(rs@) == requests_view(merged@)) by {
                            assert forall|i: int| 0 <= i < rs@.len() implies opt_strings_view(
                                rs@,
                            )[i] == requests_view(merged@)[i] by {
                                if rs@[i] is Some {
                                } else {
                                }
                            }
                        }
                    }
                    (ReformatJob::AwaitLines { merged }, ReformatAction::FormatEach(rs))
                },
                ReformatEvent::FormattedEach(_) => (ReformatJob::Done, ReformatAction::Finished(
                    Err(String::new()),
                )),
            },
            ReformatJob::AwaitLines { merged } => match event {
                ReformatEvent::FormattedEach(fs) => {
                    let s = finish(merged.as_str(), &fs);
                    (ReformatJob::Done, ReformatAction::Finished(Ok(s)))
                },
                ReformatEvent::Formatted(_) => (ReformatJob::Done, ReformatAction::Finished(
                    Err(String::new()),
                )),
            },
            ReformatJob::Done => (ReformatJob::Done, ReformatAction::Finished(Err(String::new()))),
        }
    }
}

/// The view of a formatter answer.
pub open spec fn result_view(r: Result<String, String>) -> Result<Seq<char>, Seq<char>> {
    match r {
        Ok(s) => Ok(s@),
        Err(e) => Err(e@),
    }
}

/// What a formatter that answers `fmt` gives for each requested line
/// (`None` where nothing is asked or it fails).
pub open spec fn line_answers(
    fmt: spec_fn(Seq<char>) -> Result<Seq<char>, Seq<char>>,
    requests: Seq<Option<Seq<char>>>,
) -> Seq<Option<Seq<char>>> {
    Seq::new(
        requests.len(),
        |i: int|
            match requests[i] {
                Some(q) => match fmt(q) {
                    Ok(x) => Some(x),
                    Err(_) => None,
                },
                None => None,
            },
    )
}

/// A whole rewrite run as one equation over a formatter `fmt`: if the
/// job that starts on `transformed` is handed `fmt`'s answer at each step
/// (for the original, for the transformed text, then for each bookended
/// line of the merged text), it finishes with `fmt`'s first error, or else
/// with the merged text's bookended lines reformatted and a final newline.
/// For a restore the merged text is `apply_diff_restore` of the formatted
/// original, their line diff (`compute_line_diff` gives `line_diff`) and
/// the formatted transformed text.
pub proof fn lemma_rewrite_run(
    fmt: spec_fn(Seq<char>) -> Result<Seq<char>, Seq<char>>,
    original: Seq<char>,
    transformed: String,
    restore: bool,
    e1: ReformatEvent,
    j2: ReformatJob,
    a2: ReformatAction,
    e2: ReformatEvent,
    j3: ReformatJob,
    a3: ReformatAction,
    e3: ReformatEvent,
    j4: ReformatJob,
    a4: ReformatAction,
)
    requires
        step_post(ReformatJob::AwaitOriginal { transformed, restore }, e1, j2, a2),
        e1 matches ReformatEvent::Formatted(r) && result_view(r) == fmt(original),
        fmt(original) is Ok ==> step_post(j2, e2, j3, a3),
        e2 matches ReformatEvent::Formatted(r) && result_view(r) == fmt(transformed@),
        fmt(original) is Ok && fmt(transformed@) is Ok ==> step_post(j3, e3, j4, a4),
        e3 matches ReformatEvent::FormattedEach(fs) && opt_strings_view(fs@) == line_answers(
            fmt,
            requests_view(merged_text(fmt(original)->Ok_0, fmt(transformed@)->Ok_0, restore)),
        ),
    ensures
        fmt(original) is Err ==> (a2 matches ReformatAction::Finished(Err(e)) && Err::<
            Seq<char>,
            Seq<char>,
        >(e@) == fmt(original)),
        fmt(original) is Ok && fmt(transformed@) is Err ==> (a3 matches ReformatAction::Finished(
            Err(e),
        ) && Err::<Seq<char>, Seq<char>>(e@) == fmt(transformed@)),
        fmt(original) is Ok && fmt(transformed@) is Ok ==> (a4 matches ReformatAction::Finished(
            Ok(s),
        ) && s@ == finished_text(
            merged_text(fmt(original)->Ok_0, fmt(transformed@)->Ok_0, restore),
            line_answers(
                fmt,
                requests_view(merged_text(fmt(original)->Ok_0, fmt(transformed@)->Ok_0, restore)),
            ),
        )),
        restore && fmt(original) is Ok && fmt(transformed@) is Ok ==> ({
            let fo = fmt(original)->Ok_0;
            let ft = fmt(transformed@)->Ok_0;
            let merged = plain_apply_diff_restore(fo, line_diff(fo, ft), ft);
            a4 matches ReformatAction::Finished(Ok(s)) && s@ == with_final_newline(
                bookended_code(merged, line_answers(fmt, requests_view(merged))),
            )
        }),
{
}

} // verus!
