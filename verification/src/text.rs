//! Character-level text model: the line, trim and search operations that
//! the rewriting code is built from, each with its meaning as a spec
//! function over `Seq<char>`.
use vstd::prelude::*;

verus! {

/// Unicode `White_Space`, as tested by `char::is_whitespace`.
pub open spec fn is_ws(c: char) -> bool {
    let u = c as u32;
    ||| 0x09 <= u <= 0x0D
    ||| u == 0x20
    ||| u == 0x85
    ||| u == 0xA0
    ||| u == 0x1680
    ||| 0x2000 <= u <= 0x200A
    ||| u == 0x2028
    ||| u == 0x2029
    ||| u == 0x202F
    ||| u == 0x205F
    ||| u == 0x3000
}

/// The text without its leading whitespace.
pub open spec fn trim_start(s: Seq<char>) -> Seq<char>
    decreases s.len(),
{
    if s.len() > 0 && is_ws(s[0]) {
        trim_start(s.drop_first())
    } else {
        s
    }
}

/// The text without its trailing whitespace.
pub open spec fn trim_end(s: Seq<char>) -> Seq<char>
    decreases s.len(),
{
    if s.len() > 0 && is_ws(s.last()) {
        trim_end(s.drop_last())
    } else {
        s
    }
}

/// The text without leading and trailing whitespace.
pub open spec fn trim(s: Seq<char>) -> Seq<char> {
    trim_end(trim_start(s))
}

/// A line is blank when nothing but whitespace is on it.
pub open spec fn is_blank(s: Seq<char>) -> bool {
    trim(s).len() == 0
}

/// The text with every ASCII space removed.
pub open spec fn no_spaces(s: Seq<char>) -> Seq<char>
    decreases s.len(),
{
    if s.len() == 0 {
        s
    } else if s.last() == ' ' {
        no_spaces(s.drop_last())
    } else {
        no_spaces(s.drop_last()).push(s.last())
    }
}

pub open spec fn has_prefix(s: Seq<char>, p: Seq<char>) -> bool {
    p.len() <= s.len() && s.take(p.len() as int) == p
}

pub open spec fn has_suffix(s: Seq<char>, p: Seq<char>) -> bool {
    p.len() <= s.len() && s.skip(s.len() - p.len()) == p
}

pub open spec fn matches_at(s: Seq<char>, p: Seq<char>, i: int) -> bool {
    0 <= i && i + p.len() <= s.len() && s.subrange(i, i + p.len()) == p
}

/// First position at or after `i` where `p` occurs in `s`.
pub open spec fn find_from(s: Seq<char>, p: Seq<char>, i: int) -> Option<int>
    decreases s.len() + 1 - i,
{
    if i < 0 || i + p.len() > s.len() {
        None
    } else if matches_at(s, p, i) {
        Some(i)
    } else {
        find_from(s, p, i + 1)
    }
}

/// Position of the first occurrence of `p` in `s` (`str::find`).
pub open spec fn find_first(s: Seq<char>, p: Seq<char>) -> Option<int> {
    find_from(s, p, 0)
}

/// Last position at or before `i` where `p` occurs in `s`.
pub open spec fn rfind_from(s: Seq<char>, p: Seq<char>, i: int) -> Option<int>
    decreases i + 1,
{
    if i < 0 {
        None
    } else if matches_at(s, p, i) {
        Some(i)
    } else {
        rfind_from(s, p, i - 1)
    }
}

/// Position of the last occurrence of `p` in `s` (`str::rfind`).
pub open spec fn find_last(s: Seq<char>, p: Seq<char>) -> Option<int> {
    rfind_from(s, p, s.len() - p.len())
}

/// `p` occurs somewhere in `s` (`str::contains`).
pub open spec fn contains(s: Seq<char>, p: Seq<char>) -> bool {
    find_first(s, p) is Some
}

/// Drops one `\r` that ends a line.
pub open spec fn strip_cr(s: Seq<char>) -> Seq<char> {
    if s.len() > 0 && s.last() == '\r' {
        s.drop_last()
    } else {
        s
    }
}

/// Lines of `s` given that the line being read so far is `cur` (see `lines`).
pub open spec fn lines_acc(s: Seq<char>, cur: Seq<char>) -> Seq<Seq<char>>
    decreases s.len(),
{
    if s.len() == 0 {
        if cur.len() == 0 {
            Seq::empty()
        } else {
            seq![cur]
        }
    } else if s[0] == '\n' {
        seq![strip_cr(cur)] + lines_acc(s.drop_first(), Seq::empty())
    } else {
        lines_acc(s.drop_first(), cur.push(s[0]))
    }
}

/// The lines of a text as `str::lines` yields them: split at `\n`, a `\r`
/// before the `\n` dropped, and no empty line after a final `\n`.
pub open spec fn lines(s: Seq<char>) -> Seq<Seq<char>> {
    lines_acc(s, Seq::empty())
}

/// The pieces joined with `sep` between each two of them.
pub open spec fn join(ls: Seq<Seq<char>>, sep: Seq<char>) -> Seq<char>
    decreases ls.len(),
{
    if ls.len() == 0 {
        Seq::empty()
    } else if ls.len() == 1 {
        ls[0]
    } else {
        join(ls.drop_last(), sep) + sep + ls.last()
    }
}

/// The views of a sequence of string slices.
pub open spec fn strs_view(ls: Seq<&str>) -> Seq<Seq<char>> {
    ls.map_values(|l: &str| l@)
}

/// The views of a sequence of character vectors.
pub open spec fn vecs_view(ls: Seq<Vec<char>>) -> Seq<Seq<char>> {
    ls.map_values(|l: Vec<char>| l@)
}

/// The characters of an optional string.
pub open spec fn opt_view(o: Option<String>) -> Option<Seq<char>> {
    match o {
        Some(s) => Some(s@),
        None => None,
    }
}

/// The views of a sequence of strings.
pub open spec fn strings_view(ls: Seq<String>) -> Seq<Seq<char>> {
    ls.map_values(|l: String| l@)
}

/// A text that ends with a newline: itself, or itself with one added.
pub open spec fn with_final_newline(s: Seq<char>) -> Seq<char> {
    if has_suffix(s, newline()) {
        s
    } else {
        s.push('\n')
    }
}

pub open spec fn newline() -> Seq<char> {
    seq!['\n']
}

proof fn lemma_find_from_bounds(s: Seq<char>, p: Seq<char>, i: int)
    ensures
        find_from(s, p, i) matches Some(k) ==> i <= k && k + p.len() <= s.len() && matches_at(s, p, k),
    decreases s.len() + 1 - i,
{
    if i < 0 || i + p.len() > s.len() {
    } else if matches_at(s, p, i) {
    } else {
        lemma_find_from_bounds(s, p, i + 1);
    }
}

/// A found position lies inside the text.
pub proof fn lemma_find_first_bounds(s: Seq<char>, p: Seq<char>)
    ensures
        find_first(s, p) matches Some(k) ==> 0 <= k && k + p.len() <= s.len() && matches_at(s, p, k),
{
    lemma_find_from_bounds(s, p, 0);
}

proof fn lemma_rfind_from_bounds(s: Seq<char>, p: Seq<char>, i: int)
    ensures
        rfind_from(s, p, i) matches Some(k) ==> 0 <= k <= i && k + p.len() <= s.len() && matches_at(s, p, k),
    decreases i + 1,
{
    if i < 0 {
    } else if matches_at(s, p, i) {
    } else {
        lemma_rfind_from_bounds(s, p, i - 1);
    }
}

/// A position found from the end lies inside the text.
pub proof fn lemma_find_last_bounds(s: Seq<char>, p: Seq<char>)
    ensures
        find_last(s, p) matches Some(k) ==> 0 <= k && k + p.len() <= s.len() && matches_at(s, p, k),
{
    lemma_rfind_from_bounds(s, p, s.len() - p.len());
}

/// Trimming never lengthens a text.
pub proof fn lemma_trim_start_len(s: Seq<char>)
    ensures
        trim_start(s).len() <= s.len(),
        trim_start(s) == s.skip(s.len() - trim_start(s).len()),
    decreases s.len(),
{
    if s.len() > 0 && is_ws(s[0]) {
        lemma_trim_start_len(s.drop_first());
        assert(s.drop_first().skip(s.drop_first().len() - trim_start(s).len()) == s.skip(
            s.len() - trim_start(s).len(),
        ));
    } else {
        assert(s.skip(0) == s);
    }
}

#[verifier::external_body]
pub(crate) fn push_char(s: &mut String, c: char)
    ensures
        final(s)@ == old(s)@.push(c),
{
    s.push(c);
}

pub fn is_ws_char(c: char) -> (b: bool)
    ensures
        b == is_ws(c),
{
    let u = c as u32;
    (0x09 <= u && u <= 0x0D) || u == 0x20 || u == 0x85 || u == 0xA0 || u == 0x1680 || (0x2000 <= u
        && u <= 0x200A) || u == 0x2028 || u == 0x2029 || u == 0x202F || u == 0x205F || u == 0x3000
}

/// The characters of a string slice.
pub fn chars_of(s: &str) -> (v: Vec<char>)
    ensures
        v@ == s@,
{
    let mut v: Vec<char> = Vec::new();
    for c in it: s.chars()
        invariant
            v@ == it.seq().take(it.index() as int),
            it.seq() == s@,
    {
        v.push(c);
    }
    v
}

/// A string holding the given characters.
pub fn string_of(v: &Vec<char>) -> (s: String)
    ensures
        s@ == v@,
{
    let mut s = String::new();
    let mut i: usize = 0;
    while i < v.len()
        invariant
            i <= v.len(),
            s@ == v@.take(i as int),
        decreases v.len() - i,
    {
        push_char(&mut s, v[i]);
        i = i + 1;
        assert(v@.take(i as int) == v@.take(i - 1).push(v@[i - 1]));
    }
    assert(v@.take(v.len() as int) == v@);
    s
}

/// Copies a slice of characters.
pub fn copy_chars(v: &Vec<char>, from: usize, to: usize) -> (r: Vec<char>)
    requires
        from <= to <= v.len(),
    ensures
        r@ == v@.subrange(from as int, to as int),
{
    let mut r: Vec<char> = Vec::new();
    let mut i = from;
    while i < to
        invariant
            from <= i <= to <= v.len(),
            r@ == v@.subrange(from as int, i as int),
        decreases to - i,
    {
        r.push(v[i]);
        i = i + 1;
        assert(v@.subrange(from as int, i as int) == v@.subrange(from as int, i - 1).push(
            v@[i - 1],
        ));
    }
    r
}

proof fn lemma_trim_start_skip(s: Seq<char>, i: int)
    requires
        0 <= i < s.len(),
        is_ws(s[i]),
    ensures
        trim_start(s.skip(i)) == trim_start(s.skip(i + 1)),
{
    assert(s.skip(i).drop_first() == s.skip(i + 1));
}

proof fn lemma_trim_end_take(s: Seq<char>, j: int)
    requires
        0 < j <= s.len(),
        is_ws(s[j - 1]),
    ensures
        trim_end(s.take(j)) == trim_end(s.take(j - 1)),
{
    assert(s.take(j).drop_last() == s.take(j - 1));
}

/// Index of the first non-whitespace character (or the length).
pub fn trim_start_index(v: &Vec<char>) -> (i: usize)
    ensures
        i <= v.len(),
        trim_start(v@) == v@.skip(i as int),
{
    let mut i: usize = 0;
    assert(v@.skip(0) == v@);
    while i < v.len() && is_ws_char(v[i])
        invariant
            i <= v.len(),
            trim_start(v@) == trim_start(v@.skip(i as int)),
        decreases v.len() - i,
    {
        proof {
            lemma_trim_start_skip(v@, i as int);
        }
        i = i + 1;
    }
    i
}

/// Index just past the last non-whitespace character of `v[..end]`.
pub fn trim_end_index(v: &Vec<char>, end: usize) -> (j: usize)
    requires
        end <= v.len(),
    ensures
        j <= end,
        trim_end(v@.take(end as int)) == v@.take(j as int),
{
    let mut j: usize = end;
    while j > 0 && is_ws_char(v[j - 1])
        invariant
            j <= end <= v.len(),
            trim_end(v@.take(end as int)) == trim_end(v@.take(j as int)),
        decreases j,
    {
        proof {
            lemma_trim_end_take(v@, j as int);
        }
        j = j - 1;
    }
    assert(v@.take(j as int).len() == 0 || !is_ws(v@.take(j as int).last()));
    j
}

/// `str::trim_start`.
pub fn trim_start_chars(v: &Vec<char>) -> (r: Vec<char>)
    ensures
        r@ == trim_start(v@),
{
    let i = trim_start_index(v);
    let r = copy_chars(v, i, v.len());
    assert(r@ == v@.skip(i as int));
    r
}

/// `str::trim`.
pub fn trim_chars(v: &Vec<char>) -> (r: Vec<char>)
    ensures
        r@ == trim(v@),
{
    let i = trim_start_index(v);
    let t = copy_chars(v, i, v.len());
    assert(t@ == v@.skip(i as int));
    let j = trim_end_index(&t, t.len());
    assert(t@.take(t.len() as int) == t@);
    copy_chars(&t, 0, j)
}

/// `line.trim().is_empty()`.
pub fn is_blank_chars(v: &Vec<char>) -> (b: bool)
    ensures
        b == is_blank(v@),
{
    let t = trim_chars(v);
    t.len() == 0
}

/// `s.replace(' ', "")`.
pub fn no_spaces_chars(v: &Vec<char>) -> (r: Vec<char>)
    ensures
        r@ == no_spaces(v@),
{
    let mut r: Vec<char> = Vec::new();
    let mut i: usize = 0;
    while i < v.len()
        invariant
            i <= v.len(),
            r@ == no_spaces(v@.take(i as int)),
        decreases v.len() - i,
    {
        assert(v@.take(i + 1).drop_last() == v@.take(i as int));
        if v[i] != ' ' {
            r.push(v[i]);
        }
        i = i + 1;
    }
    assert(v@.take(v.len() as int) == v@);
    r
}

/// Whether `p` occurs in `v` at position `i`.
pub fn matches_at_chars(v: &Vec<char>, p: &Vec<char>, i: usize) -> (b: bool)
    ensures
        b == matches_at(v@, p@, i as int),
{
    if i > v.len() || p.len() > v.len() - i {
        return false;
    }
    let mut k: usize = 0;
    while k < p.len()
        invariant
            i + p.len() <= v.len(),
            k <= p.len(),
            forall|m: int| 0 <= m < k ==> v@[i + m] == p@[m],
        decreases p.len() - k,
    {
        if v[i + k] != p[k] {
            assert(v@.subrange(i as int, i + p.len())[k as int] != p@[k as int]);
            return false;
        }
        k = k + 1;
    }
    assert(v@.subrange(i as int, i + p.len()) == p@);
    true
}

/// `s.starts_with(p)`.
pub fn starts_with_chars(v: &Vec<char>, p: &Vec<char>) -> (b: bool)
    ensures
        b == has_prefix(v@, p@),
{
    let b = matches_at_chars(v, p, 0);
    proof {
        if p@.len() <= v@.len() {
            assert(v@.subrange(0, p@.len() as int) == v@.take(p@.len() as int));
        }
    }
    b
}

/// `s.ends_with(p)`.
pub fn ends_with_chars(v: &Vec<char>, p: &Vec<char>) -> (b: bool)
    ensures
        b == has_suffix(v@, p@),
{
    if p.len() > v.len() {
        return false;
    }
    let b = matches_at_chars(v, p, v.len() - p.len());
    proof {
        assert(v@.subrange(v@.len() - p@.len(), v@.len() as int) == v@.skip(
            v@.len() - p@.len(),
        ));
    }
    b
}

/// `str::find`, as a character index.
pub fn find_chars(v: &Vec<char>, p: &Vec<char>) -> (r: Option<usize>)
    ensures
        r matches Some(i) ==> find_first(v@, p@) == Some(i as int),
        r is None ==> find_first(v@, p@) is None,
{
    if p.len() > v.len() {
        return None;
    }
    let last = v.len() - p.len();
    let mut i: usize = 0;
    loop
        invariant
            last + p.len() == v.len(),
            i <= last,
            find_first(v@, p@) == find_from(v@, p@, i as int),
        decreases last - i,
    {
        if matches_at_chars(v, p, i) {
            return Some(i);
        }
        if i == last {
            assert(find_from(v@, p@, i + 1) is None);
            return None;
        }
        i = i + 1;
    }
}

/// `str::rfind`, as a character index.
pub fn rfind_chars(v: &Vec<char>, p: &Vec<char>) -> (r: Option<usize>)
    ensures
        r matches Some(i) ==> find_last(v@, p@) == Some(i as int),
        r is None ==> find_last(v@, p@) is None,
{
    if p.len() > v.len() {
        return None;
    }
    let mut i: usize = v.len() - p.len();
    loop
        invariant
            i + p.len() <= v.len(),
            find_last(v@, p@) == rfind_from(v@, p@, i as int),
        decreases i,
    {
        if matches_at_chars(v, p, i) {
            return Some(i);
        }
        if i == 0 {
            assert(rfind_from(v@, p@, -1) is None);
            return None;
        }
        i = i - 1;
    }
}

/// `str::contains`.
pub fn contains_chars(v: &Vec<char>, p: &Vec<char>) -> (b: bool)
    ensures
        b == contains(v@, p@),
{
    find_chars(v, p).is_some()
}

/// `str::lines`, each line as its characters.
pub fn lines_of(s: &str) -> (ls: Vec<Vec<char>>)
    ensures
        vecs_view(ls@) == lines(s@),
{
    let v = chars_of(s);
    let mut out: Vec<Vec<char>> = Vec::new();
    let mut cur: Vec<char> = Vec::new();
    let mut i: usize = 0;
    assert(v@.skip(0) == v@);
    while i < v.len()
        invariant
            i <= v.len(),
            v@ == s@,
            lines(s@) == vecs_view(out@) + lines_acc(v@.skip(i as int), cur@),
        decreases v.len() - i,
    {
        let c = v[i];
        assert(v@.skip(i as int).drop_first() == v@.skip(i + 1));
        if c == '\n' {
            let mut line = cur;
            if line.len() > 0 && line[line.len() - 1] == '\r' {
                line.pop();
            }
            assert(line@ == strip_cr(cur@));
            let ghost before = out@;
            out.push(line);
            assert(vecs_view(out@) == vecs_view(before).push(line@));
            assert(vecs_view(before) + lines_acc(v@.skip(i as int), cur@) == vecs_view(out@)
                + lines_acc(v@.skip(i + 1), Seq::empty()));
            cur = Vec::new();
        } else {
            cur.push(c);
        }
        i = i + 1;
    }
    if cur.len() > 0 {
        let ghost before = out@;
        out.push(cur);
        assert(vecs_view(out@) == vecs_view(before).push(cur@));
    }
    assert(vecs_view(out@) == lines(s@));
    out
}

/// Joins character sequences with `sep` between each two of them.
pub fn join_sep(ls: &Vec<Vec<char>>, sep: char) -> (r: Vec<char>)
    ensures
        r@ == join(vecs_view(ls@), seq![sep]),
{
    let mut r: Vec<char> = Vec::new();
    let mut i: usize = 0;
    while i < ls.len()
        invariant
            i <= ls.len(),
            r@ == join(vecs_view(ls@.take(i as int)), seq![sep]),
        decreases ls.len() - i,
    {
        let ghost prev = r@;
        if i > 0 {
            r.push(sep);
        }
        let mut k: usize = 0;
        let ghost mid = r@;
        while k < ls[i].len()
            invariant
                i < ls.len(),
                k <= ls[i as int]@.len(),
                r@ == mid + ls[i as int]@.take(k as int),
            decreases ls[i as int]@.len() - k,
        {
            r.push(ls[i][k]);
            k = k + 1;
            assert(ls[i as int]@.take(k as int) == ls[i as int]@.take(k - 1).push(
                ls[i as int]@[k - 1],
            ));
        }
        assert(ls[i as int]@.take(k as int) == ls[i as int]@);
        assert(vecs_view(ls@.take(i + 1)).drop_last() == vecs_view(ls@.take(i as int)));
        assert(vecs_view(ls@.take(i + 1)).last() == ls[i as int]@);
        i = i + 1;
    }
    assert(ls@.take(ls.len() as int) == ls@);
    r
}

/// Joins lines with `\n` between each two of them.
pub fn join_lines(ls: &Vec<Vec<char>>) -> (r: Vec<char>)
    ensures
        r@ == join(vecs_view(ls@), newline()),
{
    join_sep(ls, '\n')
}

/// Appends the characters of `s` to `out`.
pub fn append_chars(out: &mut Vec<char>, s: &Vec<char>)
    ensures
        final(out)@ == old(out)@ + s@,
{
    let ghost r0 = out@;
    let mut k: usize = 0;
    while k < s.len()
        invariant
            k <= s.len(),
            out@ == r0 + s@.take(k as int),
        decreases s.len() - k,
    {
        out.push(s[k]);
        k = k + 1;
        assert(s@.take(k as int) == s@.take(k - 1).push(s@[k - 1]));
    }
    assert(s@.take(s.len() as int) == s@);
}

/// Removing spaces from a concatenation removes them from each part.
pub proof fn lemma_no_spaces_concat(a: Seq<char>, b: Seq<char>)
    ensures
        no_spaces(a + b) == no_spaces(a) + no_spaces(b),
    decreases b.len(),
{
    if b.len() == 0 {
        assert(a + b == a);
        assert(no_spaces(a) + no_spaces(b) == no_spaces(a));
    } else {
        lemma_no_spaces_concat(a, b.drop_last());
        assert((a + b).drop_last() == a + b.drop_last());
        assert((a + b).last() == b.last());
        if b.last() == ' ' {
        } else {
            assert(no_spaces(a) + no_spaces(b.drop_last()).push(b.last()) == (no_spaces(a)
                + no_spaces(b.drop_last())).push(b.last()));
        }
    }
}

/// A text contains what it starts with.
pub proof fn lemma_prefix_contains(s: Seq<char>, p: Seq<char>)
    requires
        has_prefix(s, p),
    ensures
        contains(s, p),
{
    assert(s.subrange(0, p.len() as int) == s.take(p.len() as int));
    assert(matches_at(s, p, 0));
}

/// A text that starts with `p` still does with more after it.
pub proof fn lemma_prefix_extend(s: Seq<char>, p: Seq<char>, rest: Seq<char>)
    requires
        has_prefix(s, p),
    ensures
        has_prefix(s + rest, p),
{
    assert((s + rest).take(p.len() as int) == s.take(p.len() as int));
}

/// A text with its final newline ensured ends with a newline.
pub proof fn lemma_final_newline(s: Seq<char>)
    ensures
        has_suffix(with_final_newline(s), newline()),
{
    if !has_suffix(s, newline()) {
        let t = s.push('\n');
        assert(t.skip(t.len() - 1) =~= newline());
    }
}

proof fn lemma_find_from_found(s: Seq<char>, p: Seq<char>, i: int, k: int)
    requires
        0 <= i <= k,
        matches_at(s, p, k),
    ensures
        find_from(s, p, i) is Some,
    decreases k - i,
{
    if !matches_at(s, p, i) {
        lemma_find_from_found(s, p, i + 1, k);
    }
}

/// What a text's tail contains, the whole text contains.
pub proof fn lemma_contains_after(a: Seq<char>, b: Seq<char>, p: Seq<char>)
    requires
        contains(b, p),
    ensures
        contains(a + b, p),
{
    lemma_find_first_bounds(b, p);
    let k = find_first(b, p)->0;
    assert((a + b).subrange(a.len() + k, a.len() + k + p.len()) == b.subrange(k, k + p.len()));
    lemma_find_from_found(a + b, p, 0, a.len() + k);
}

} // verus!
