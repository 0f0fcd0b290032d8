use vstd::prelude::*;

use crate::error::{ParseError, ParseErrorModel};
use crate::text::{bounds_within, chars_of, line_bounds, lines, spans};

verus! {

/// What a line of a hunk does to the file.
#[derive(Clone, Copy, Debug, PartialEq, Eq, Structural)]
pub enum LineKind {
    /// Present in both versions; marked with ' '.
    Context,
    /// Present in the new version only; marked with '+'.
    Added,
    /// Present in the old version only; marked with '-'.
    Removed,
}

/// A range of lines in one version of a file: its first line and how many.
#[derive(Clone, Copy, Debug, PartialEq, Eq, Structural)]
pub struct LineRange {
    pub start: u64,
    pub count: u64,
}

/// One line of a hunk, without its marker character.
#[derive(Clone, Debug, PartialEq, Eq)]
pub struct DiffLine {
    pub kind: LineKind,
    pub content: String,
}

/// A block of changes: the (start, count) line ranges it covers in the old
/// and the new file, and its lines in order.
#[derive(Clone, Debug, PartialEq, Eq)]
pub struct Hunk {
    pub source_range: LineRange,
    pub target_range: LineRange,
    pub lines: Vec<DiffLine>,
}

/// The changes to one file, hunk by hunk in order of appearance.
#[derive(Clone, Debug, PartialEq, Eq)]
pub struct FileDiff {
    pub filename: String,
    pub hunks: Vec<Hunk>,
}

/// The mathematical value of a `Hunk`.
pub struct HunkModel {
    pub source_range: (nat, nat),
    pub target_range: (nat, nat),
    pub lines: Seq<(LineKind, Seq<char>)>,
}

impl View for DiffLine {
    type V = (LineKind, Seq<char>);

    open spec fn view(&self) -> (LineKind, Seq<char>) {
        (self.kind, self.content@)
    }
}

impl View for Hunk {
    type V = HunkModel;

    open spec fn view(&self) -> HunkModel {
        HunkModel {
            source_range: (self.source_range.start as nat, self.source_range.count as nat),
            target_range: (self.target_range.start as nat, self.target_range.count as nat),
            lines: self.lines@.map_values(|d: DiffLine| d@),
        }
    }
}

/// The models of a sequence of hunks.
pub open spec fn hunks_view(hs: Seq<Hunk>) -> Seq<HunkModel> {
    hs.map_values(|h: Hunk| h@)
}

pub open spec fn is_digit_char(c: char) -> bool {
    '0' <= c && c <= '9'
}

/// The end of the run of decimal digits in `l` that starts at `i`.
pub open spec fn digit_end(l: Seq<char>, i: int) -> int
    decreases l.len() - i,
{
    if 0 <= i < l.len() && is_digit_char(l[i]) {
        digit_end(l, i + 1)
    } else {
        i
    }
}

/// The number that a sequence of decimal digits writes.
pub open spec fn num_value(d: Seq<char>) -> nat
    decreases d.len(),
{
    if d.len() == 0 {
        0
    } else {
        num_value(d.drop_last()) * 10 + ((d.last() as u32) - ('0' as u32)) as nat
    }
}

/// The number written at `i` in `l` and the index just past it; `None` where
/// no digit stands at `i` or the number exceeds `u64::MAX`.
pub open spec fn number_at(l: Seq<char>, i: int) -> Option<(nat, int)> {
    let e = digit_end(l, i);
    if e > i && num_value(l.subrange(i, e)) <= u64::MAX {
        Some((num_value(l.subrange(i, e)), e))
    } else {
        None
    }
}

/// A range `start[,count]` written at `i` in `l`: its start, its count (1
/// where it is left out), and the index just past it.
pub open spec fn range_at(l: Seq<char>, i: int) -> Option<(nat, nat, int)> {
    match number_at(l, i) {
        None => None,
        Some((s, e)) => if e < l.len() && l[e] == ',' {
            match number_at(l, e + 1) {
                None => None,
                Some((c, e2)) => Some((s, c, e2)),
            }
        } else {
            Some((s, 1, e))
        },
    }
}

/// The four numbers of a hunk header `@@ -s[,c] +s[,c] @@...`, if `l` is one.
pub open spec fn header_of(l: Seq<char>) -> Option<(nat, nat, nat, nat)> {
    if l.len() >= 4 && l[0] == '@' && l[1] == '@' && l[2] == ' ' && l[3] == '-' {
        match range_at(l, 4) {
            None => None,
            Some((s1, c1, e1)) => if e1 + 1 < l.len() && l[e1] == ' ' && l[e1 + 1] == '+' {
                match range_at(l, e1 + 2) {
                    None => None,
                    Some((s2, c2, e2)) => if e2 + 2 < l.len() && l[e2] == ' ' && l[e2 + 1] == '@'
                        && l[e2 + 2] == '@' {
                        Some((s1, c1, s2, c2))
                    } else {
                        None
                    },
                }
            } else {
                None
            },
        }
    } else {
        None
    }
}

/// The kind of line that a marker character introduces, if any.
pub open spec fn kind_of(c: char) -> Option<LineKind> {
    if c == ' ' {
        Some(LineKind::Context)
    } else if c == '+' {
        Some(LineKind::Added)
    } else if c == '-' {
        Some(LineKind::Removed)
    } else {
        None
    }
}

/// How many of `ls` are of kind `k`.
pub open spec fn count_kind(ls: Seq<(LineKind, Seq<char>)>, k: LineKind) -> nat
    decreases ls.len(),
{
    if ls.len() == 0 {
        0
    } else {
        count_kind(ls.drop_last(), k) + if ls.last().0 == k {
            1nat
        } else {
            0nat
        }
    }
}

/// The lines of a hunk add up to the counts of its header.
pub open spec fn reconciled(h: HunkModel) -> bool {
    &&& count_kind(h.lines, LineKind::Context) + count_kind(h.lines, LineKind::Removed)
        == h.source_range.1
    &&& count_kind(h.lines, LineKind::Context) + count_kind(h.lines, LineKind::Added)
        == h.target_range.1
}

/// The error for hunk number `index`, if its lines do not add up; the old
/// file's count is checked first.
pub open spec fn hunk_error(index: int, h: HunkModel) -> Option<ParseErrorModel> {
    let ctx = count_kind(h.lines, LineKind::Context);
    if ctx + count_kind(h.lines, LineKind::Removed) != h.source_range.1 {
        Some(
            ParseErrorModel::HunkLineCountMismatch {
                hunk: index,
                expected: h.source_range.1 as int,
                actual: (ctx + count_kind(h.lines, LineKind::Removed)) as int,
            },
        )
    } else if ctx + count_kind(h.lines, LineKind::Added) != h.target_range.1 {
        Some(
            ParseErrorModel::HunkLineCountMismatch {
                hunk: index,
                expected: h.target_range.1 as int,
                actual: (ctx + count_kind(h.lines, LineKind::Added)) as int,
            },
        )
    } else {
        None
    }
}

/// Where a scan of a patch stands: the finished hunks, and the hunk that
/// is still taking lines, if any.
pub struct PatchState {
    pub done: Seq<HunkModel>,
    pub open: Option<HunkModel>,
}

/// The finished hunks once the open one, if any, is checked and closed.
pub open spec fn close(st: PatchState) -> Result<Seq<HunkModel>, ParseErrorModel> {
    match st.open {
        None => Ok(st.done),
        Some(h) => match hunk_error(st.done.len() as int, h) {
            Some(e) => Err(e),
            None => Ok(st.done.push(h)),
        },
    }
}

/// One step of the scan: line `l`, which is line number `n` of the patch.
/// A line starting with "@@" must be a hunk header and opens a new hunk; an
/// empty line or one starting with '\' is passed over; ' ', '+' and '-' add
/// a line to the open hunk; any other first character is an error.
pub open spec fn patch_step(st: PatchState, l: Seq<char>, n: int) -> Result<
    PatchState,
    ParseErrorModel,
> {
    if l.len() >= 2 && l[0] == '@' && l[1] == '@' {
        match header_of(l) {
            None => Err(ParseErrorModel::Malformed { fragment: l, line: n }),
            Some((s1, c1, s2, c2)) => match close(st) {
                Err(e) => Err(e),
                Ok(done) => Ok(
                    PatchState {
                        done,
                        open: Some(
                            HunkModel {
                                source_range: (s1, c1),
                                target_range: (s2, c2),
                                lines: seq![],
                            },
                        ),
                    },
                ),
            },
        }
    } else if l.len() == 0 || l[0] == '\\' {
        Ok(st)
    } else {
        match kind_of(l[0]) {
            None => Err(ParseErrorModel::UnexpectedMarker { marker: l[0], line: n }),
            Some(k) => match st.open {
                None => Err(ParseErrorModel::Malformed { fragment: l, line: n }),
                Some(h) => Ok(
                    PatchState {
                        done: st.done,
                        open: Some(
                            HunkModel {
                                source_range: h.source_range,
                                target_range: h.target_range,
                                lines: h.lines.push((k, l.drop_first())),
                            },
                        ),
                    },
                ),
            },
        }
    }
}

/// The state after scanning the lines `ls`, or the first error among them.
pub open spec fn patch_scan(ls: Seq<Seq<char>>) -> Result<PatchState, ParseErrorModel>
    decreases ls.len(),
{
    if ls.len() == 0 {
        Ok(PatchState { done: seq![], open: None })
    } else {
        match patch_scan(ls.drop_last()) {
            Err(e) => Err(e),
            Ok(st) => patch_step(st, ls.last(), ls.len() as int),
        }
    }
}

/// The hunks of a patch text, or the first error in it.
pub open spec fn patch_hunks(s: Seq<char>) -> Result<Seq<HunkModel>, ParseErrorModel> {
    match patch_scan(lines(s)) {
        Err(e) => Err(e),
        Ok(st) => close(st),
    }
}

/// The number written at `i` in `l`, and the index just past it.
fn number_at_exec(l: &Vec<char>, i: usize) -> (r: Option<(u64, usize)>)
    requires
        i <= l@.len(),
    ensures
        match r {
            Some((v, e)) => number_at(l@, i as int) == Some((v as nat, e as int)) && e <= l@.len(),
            None => number_at(l@, i as int) is None,
        },
{
    let mut j: usize = i;
    let mut v: u64 = 0;
    let mut fits = true;
    assert(l@.subrange(i as int, i as int) =~= Seq::<char>::empty());
    while j < l.len() && '0' <= l[j] && l[j] <= '9'
        invariant
            i <= j <= l@.len(),
            digit_end(l@, i as int) == digit_end(l@, j as int),
            fits ==> v == num_value(l@.subrange(i as int, j as int)),
            !fits ==> num_value(l@.subrange(i as int, j as int)) > u64::MAX,
        decreases l@.len() - j,
    {
        let c = l[j];
        let d = (c as u32 - '0' as u32) as u64;
        assert(l@.subrange(i as int, j + 1).drop_last() =~= l@.subrange(i as int, j as int));
        assert(l@.subrange(i as int, j + 1).last() == c);
        if fits {
            match v.checked_mul(10) {
                Some(m) => match m.checked_add(d) {
                    Some(t) => {
                        v = t;
                    },
                    None => {
                        fits = false;
                    },
                },
                None => {
                    fits = false;
                },
            }
        }
        j = j + 1;
    }
    if j == i || !fits {
        None
    } else {
        Some((v, j))
    }
}

/// The range `start[,count]` written at `i` in `l`, and the index just past it.
fn range_at_exec(l: &Vec<char>, i: usize) -> (r: Option<(u64, u64, usize)>)
    requires
        i <= l@.len(),
    ensures
        match r {
            Some((s, c, e)) => range_at(l@, i as int) == Some((s as nat, c as nat, e as int)) && e
                <= l@.len(),
            None => range_at(l@, i as int) is None,
        },
{
    match number_at_exec(l, i) {
        None => None,
        Some((s, e)) => {
            if e < l.len() && l[e] == ',' {
                match number_at_exec(l, e + 1) {
                    None => None,
                    Some((c, e2)) => Some((s, c, e2)),
                }
            } else {
                Some((s, 1, e))
            }
        },
    }
}

/// The four numbers of the hunk header `l`, if it is one.
fn header_exec(l: &Vec<char>) -> (r: Option<(LineRange, LineRange)>)
    ensures
        match r {
            Some((a, b)) => header_of(l@) == Some(
                (a.start as nat, a.count as nat, b.start as nat, b.count as nat),
            ),
            None => header_of(l@) is None,
        },
{
    if !(l.len() >= 4 && l[0] == '@' && l[1] == '@' && l[2] == ' ' && l[3] == '-') {
        return None;
    }
    let (s1, c1, e1) = match range_at_exec(l, 4) {
        None => {
            return None;
        },
        Some(t) => t,
    };
    if !(l.len() - e1 >= 2 && l[e1] == ' ' && l[e1 + 1] == '+') {
        return None;
    }
    let (s2, c2, e2) = match range_at_exec(l, e1 + 2) {
        None => {
            return None;
        },
        Some(t) => t,
    };
    if !(l.len() - e2 >= 3 && l[e2] == ' ' && l[e2 + 1] == '@' && l[e2 + 2] == '@') {
        return None;
    }
    Some((LineRange { start: s1, count: c1 }, LineRange { start: s2, count: c2 }))
}

/// Once a prefix of the lines fails, the whole scan fails with that error.
proof fn lemma_scan_error_persists(ls: Seq<Seq<char>>, k: int)
    requires
        0 <= k <= ls.len(),
        patch_scan(ls.take(k)) is Err,
    ensures
        patch_scan(ls) == patch_scan(ls.take(k)),
    decreases ls.len() - k,
{
    if k < ls.len() {
        assert(ls.take(k + 1).drop_last() =~= ls.take(k));
        lemma_scan_error_persists(ls, k + 1);
    } else {
        assert(ls.take(k) =~= ls);
    }
}

/// The characters of `cs` from `a` up to `b`.
fn copy_range(cs: &Vec<char>, a: usize, b: usize) -> (r: Vec<char>)
    requires
        a <= b <= cs@.len(),
    ensures
        r@ == cs@.subrange(a as int, b as int),
{
    let mut r: Vec<char> = Vec::new();
    let mut j: usize = a;
    while j < b
        invariant
            a <= j <= b <= cs@.len(),
            r@ == cs@.subrange(a as int, j as int),
        decreases b - j,
    {
        r.push(cs[j]);
        assert(r@ =~= cs@.subrange(a as int, j + 1));
        j = j + 1;
    }
    r
}

/// The mismatch error of hunk number `index`, if its lines do not add up to
/// its header; `ctx`, `add` and `rem` are its counts of each kind of line.
fn check_hunk(h: &Hunk, index: usize, ctx: usize, add: usize, rem: usize) -> (r: Option<
    ParseError,
>)
    requires
        ctx == count_kind(h@.lines, LineKind::Context),
        add == count_kind(h@.lines, LineKind::Added),
        rem == count_kind(h@.lines, LineKind::Removed),
        ctx + add + rem <= usize::MAX,
    ensures
        match r {
            None => hunk_error(index as int, h@) is None,
            Some(e) => hunk_error(index as int, h@) == Some(e@),
        },
{
    let old_lines = (ctx + rem) as u64;
    let new_lines = (ctx + add) as u64;
    if old_lines != h.source_range.count {
        Some(
            ParseError::HunkLineCountMismatch {
                hunk: index,
                expected: h.source_range.count,
                actual: old_lines,
            },
        )
    } else if new_lines != h.target_range.count {
        Some(
            ParseError::HunkLineCountMismatch {
                hunk: index,
                expected: h.target_range.count,
                actual: new_lines,
            },
        )
    } else {
        None
    }
}

/// The scan state that the parser's variables stand for.
pub open spec fn state_of(hunks: Seq<Hunk>, has_open: bool, cur: Hunk) -> PatchState {
    PatchState { done: hunks_view(hunks), open: if has_open { Some(cur@) } else { None } }
}

/// Parses the patch text of one file into its hunks, in order. Every hunk
/// of a successful parse has lines that add up to its header's counts.
pub fn parse_hunks(patch: &str) -> (r: Result<Vec<Hunk>, ParseError>)
    ensures
        result_view(r) == patch_hunks(patch@),
        r is Ok ==> forall|j: int| 0 <= j < r->Ok_0@.len() ==> reconciled(#[trigger] r->Ok_0@[j]@),
        patch@.len() == 0 ==> r is Ok && r->Ok_0@.len() == 0,
{
    proof {
        if patch@.len() == 0 {
            lemma_empty_patch(patch@);
        }
    }
    let cs = chars_of(patch);
    let bs = line_bounds(&cs);
    let ghost ls = lines(patch@);
    let mut hunks: Vec<Hunk> = Vec::new();
    let mut has_open = false;
    let empty_range = LineRange { start: 0, count: 0 };
    let mut cur = Hunk { source_range: empty_range, target_range: empty_range, lines: Vec::new() };
    let mut n_ctx: usize = 0;
    let mut n_add: usize = 0;
    let mut n_rem: usize = 0;
    let mut k: usize = 0;
    assert(ls.take(0) =~= Seq::<Seq<char>>::empty());
    assert(hunks_view(hunks@) =~= Seq::<HunkModel>::empty());
    while k < bs.len()
        invariant
            k <= bs@.len(),
            cs@ == patch@,
            ls == lines(patch@),
            spans(cs@, bs@) == ls,
            bounds_within(bs@, cs@.len() as int),
            patch_scan(ls.take(k as int)) == Ok::<_, ParseErrorModel>(
                state_of(hunks@, has_open, cur),
            ),
            n_ctx == count_kind(cur@.lines, LineKind::Context),
            n_add == count_kind(cur@.lines, LineKind::Added),
            n_rem == count_kind(cur@.lines, LineKind::Removed),
            n_ctx + n_add + n_rem == cur.lines@.len(),
            cur.lines@.len() <= k,
            forall|j: int| 0 <= j < hunks@.len() ==> reconciled(#[trigger] hunks@[j]@),
        decreases bs@.len() - k,
    {
        let (a, b) = bs[k];
        assert(bs@[k as int].0 <= bs@[k as int].1 <= cs@.len());
        let ghost l = ls[k as int];
        let ghost st = state_of(hunks@, has_open, cur);
        assert(l == cs@.subrange(a as int, b as int));
        assert(ls.take(k + 1).drop_last() =~= ls.take(k as int));
        assert(ls.take(k + 1).last() == l);
        let line = copy_range(&cs, a, b);
        let n = line.len();
        if n >= 2 && line[0] == '@' && line[1] == '@' {
            match header_exec(&line) {
                None => {
                    let e = ParseError::Malformed {
                        fragment: patch.substring_char(a, b).to_owned(),
                        line: k + 1,
                    };
                    assert(patch_scan(ls.take(k + 1)) == Err::<PatchState, _>(e@));
                    proof {
                        lemma_scan_error_persists(ls, (k + 1) as int);
                    }
                    return Err(e);
                },
                Some((src, tgt)) => {
                    if has_open {
                        match check_hunk(&cur, hunks.len(), n_ctx, n_add, n_rem) {
                            Some(e) => {
                                assert(patch_scan(ls.take(k + 1)) == Err::<PatchState, _>(e@));
                                proof {
                                    lemma_scan_error_persists(ls, (k + 1) as int);
                                }
                                return Err(e);
                            },
                            None => {},
                        }
                        let ghost old_hunks = hunks@;
                        hunks.push(cur);
                        assert(hunks_view(hunks@) =~= hunks_view(old_hunks).push(st.open->Some_0));
                    }
                    cur = Hunk { source_range: src, target_range: tgt, lines: Vec::new() };
                    n_ctx = 0;
                    n_add = 0;
                    n_rem = 0;
                    assert(cur@.lines =~= Seq::<(LineKind, Seq<char>)>::empty());
                    has_open = true;
                    assert(patch_scan(ls.take(k + 1)) == Ok::<_, ParseErrorModel>(
                        state_of(hunks@, has_open, cur),
                    ));
                },
            }
        } else if n == 0 || line[0] == '\\' {
        } else {
            let c = line[0];
            let kind = if c == ' ' {
                LineKind::Context
            } else if c == '+' {
                LineKind::Added
            } else if c == '-' {
                LineKind::Removed
            } else {
                let e = ParseError::UnexpectedMarker { marker: c, line: k + 1 };
                assert(patch_scan(ls.take(k + 1)) == Err::<PatchState, _>(e@));
                proof {
                    lemma_scan_error_persists(ls, (k + 1) as int);
                }
                return Err(e);
            };
            if !has_open {
                let e = ParseError::Malformed {
                    fragment: patch.substring_char(a, b).to_owned(),
                    line: k + 1,
                };
                assert(patch_scan(ls.take(k + 1)) == Err::<PatchState, _>(e@));
                proof {
                    lemma_scan_error_persists(ls, (k + 1) as int);
                }
                return Err(e);
            }
            let content = patch.substring_char(a + 1, b).to_owned();
            assert(content@ =~= l.drop_first());
            let ghost old_lines = cur@.lines;
            cur.lines.push(DiffLine { kind, content });
            assert(cur@.lines =~= old_lines.push((kind, l.drop_first())));
            assert(cur@.lines.drop_last() =~= old_lines);
            match kind {
                LineKind::Context => {
                    n_ctx = n_ctx + 1;
                },
                LineKind::Added => {
                    n_add = n_add + 1;
                },
                LineKind::Removed => {
                    n_rem = n_rem + 1;
                },
            }
            assert(patch_scan(ls.take(k + 1)) == Ok::<_, ParseErrorModel>(
                state_of(hunks@, has_open, cur),
            ));
        }
        k = k + 1;
    }
    assert(ls.take(k as int) =~= ls);
    if has_open {
        match check_hunk(&cur, hunks.len(), n_ctx, n_add, n_rem) {
            Some(e) => {
                return Err(e);
            },
            None => {},
        }
        let ghost old_hunks = hunks@;
        let ghost last = cur@;
        hunks.push(cur);
        assert(hunks_view(hunks@) =~= hunks_view(old_hunks).push(last));
    }
    Ok(hunks)
}

/// An empty patch has no hunks, and is no error.
pub proof fn lemma_empty_patch(s: Seq<char>)
    requires
        s.len() == 0,
    ensures
        patch_hunks(s) == Ok::<_, ParseErrorModel>(Seq::<HunkModel>::empty()),
{
    assert(lines(s) == seq![s.subrange(0, 0)]);
    let ls = lines(s);
    assert(ls.drop_last() =~= Seq::<Seq<char>>::empty());
    assert(ls.last().len() == 0);
    let st0 = PatchState { done: seq![], open: None };
    assert(patch_scan(ls.drop_last()) == Ok::<_, ParseErrorModel>(st0));
    assert(patch_step(st0, ls.last(), 1) == Ok::<_, ParseErrorModel>(st0));
    assert(patch_scan(ls) == Ok::<_, ParseErrorModel>(
        PatchState { done: seq![], open: None },
    ));
}

/// Parsing is a function of the text alone: two parses of the same patch
/// text give the same hunks, or the same error.
pub proof fn lemma_parse_idempotent(
    s: Seq<char>,
    r1: Result<Vec<Hunk>, ParseError>,
    r2: Result<Vec<Hunk>, ParseError>,
)
    requires
        result_view(r1) == patch_hunks(s),
        result_view(r2) == patch_hunks(s),
    ensures
        result_view(r1) == result_view(r2),
        r1 is Ok <==> r2 is Ok,
        r1 is Ok ==> r1->Ok_0@.len() == r2->Ok_0@.len() && forall|j: int|
            0 <= j < r1->Ok_0@.len() ==> #[trigger] r1->Ok_0@[j]@ == r2->Ok_0@[j]@,
{
    if r1 is Ok {
        let h1 = hunks_view(r1->Ok_0@);
        let h2 = hunks_view(r2->Ok_0@);
        assert(h1 == h2);
        assert(h1.len() == r1->Ok_0@.len());
        assert forall|j: int| 0 <= j < r1->Ok_0@.len() implies #[trigger] r1->Ok_0@[j]@
            == r2->Ok_0@[j]@ by {
            assert(h1[j] == r1->Ok_0@[j]@);
            assert(h2[j] == r2->Ok_0@[j]@);
        }
    }
}

/// The model of a parse result.
pub open spec fn result_view(r: Result<Vec<Hunk>, ParseError>) -> Result<
    Seq<HunkModel>,
    ParseErrorModel,
> {
    match r {
        Ok(hs) => Ok(hunks_view(hs@)),
        Err(e) => Err(e@),
    }
}

/// Turns the patch text of changed files into structured hunks.
pub struct DiffParser;

impl DiffParser {
    pub fn new() -> (r: DiffParser) {
        DiffParser
    }

    /// The changes to the file `filename` that `patch` records.
    pub fn parse_file_diff(&self, filename: &str, patch: &str) -> (r: Result<FileDiff, ParseError>)
        ensures
            match r {
                Ok(fd) => fd.filename@ == filename@ && patch_hunks(patch@) == Ok::<
                    _,
                    ParseErrorModel,
                >(hunks_view(fd.hunks@)),
                Err(e) => patch_hunks(patch@) == Err::<Seq<HunkModel>, _>(e@),
            },
            r is Ok ==> forall|j: int|
                0 <= j < r->Ok_0.hunks@.len() ==> reconciled(#[trigger] r->Ok_0.hunks@[j]@),
            patch@.len() == 0 ==> r is Ok && r->Ok_0.hunks@.len() == 0,
    {
        match parse_hunks(patch) {
            Ok(hunks) => Ok(FileDiff { filename: filename.to_owned(), hunks }),
            Err(e) => Err(e),
        }
    }
}

} // verus!
