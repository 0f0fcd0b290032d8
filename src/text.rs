use vstd::prelude::*;

verus! {

/// The lines of `s` that begin at or after `start`, where the current line
/// began at `start` and the scan has reached `i`: the pieces of text between
/// '\n' characters, in order. A text has one more line than it has '\n'.
pub open spec fn lines_from(s: Seq<char>, start: int, i: int) -> Seq<Seq<char>>
    decreases s.len() - i,
{
    if i < s.len() {
        if s[i] == '\n' {
            seq![s.subrange(start, i)] + lines_from(s, i + 1, i + 1)
        } else {
            lines_from(s, start, i + 1)
        }
    } else {
        seq![s.subrange(start, s.len() as int)]
    }
}

/// The lines of `s`, split on '\n'; the separators are not part of any line.
pub open spec fn lines(s: Seq<char>) -> Seq<Seq<char>> {
    lines_from(s, 0, 0)
}

/// The pieces of `s` that a sequence of (start, end) bounds marks out.
pub open spec fn spans(s: Seq<char>, bs: Seq<(usize, usize)>) -> Seq<Seq<char>> {
    bs.map_values(|b: (usize, usize)| s.subrange(b.0 as int, b.1 as int))
}

/// Bounds that all lie within a text of length `n`.
pub open spec fn bounds_within(bs: Seq<(usize, usize)>, n: int) -> bool {
    forall|k: int| 0 <= k < bs.len() ==> #[trigger] bs[k].0 <= bs[k].1 <= n
}

/// The characters of `s`, in order.
pub fn chars_of(s: &str) -> (r: Vec<char>)
    ensures
        r@ == s@,
{
    let mut r: Vec<char> = Vec::new();
    for c in it: s.chars()
        invariant
            r@ == it.seq().take(it.index()),
    {
        r.push(c);
    }
    assert(r@ =~= s@);
    r
}

/// The (start, end) bounds of each line of `cs`, in order.
pub fn line_bounds(cs: &Vec<char>) -> (r: Vec<(usize, usize)>)
    ensures
        spans(cs@, r@) == lines(cs@),
        bounds_within(r@, cs@.len() as int),
        r@.len() >= 1,
{
    let mut r: Vec<(usize, usize)> = Vec::new();
    let mut start: usize = 0;
    let mut i: usize = 0;
    while i < cs.len()
        invariant
            start <= i <= cs@.len(),
            spans(cs@, r@) + lines_from(cs@, start as int, i as int) == lines(cs@),
            bounds_within(r@, cs@.len() as int),
        decreases cs@.len() - i,
    {
        if cs[i] == '\n' {
            let ghost old_r = r@;
            r.push((start, i));
            assert(spans(cs@, r@) =~= spans(cs@, old_r).push(cs@.subrange(start as int, i as int)));
            assert(spans(cs@, r@) + lines_from(cs@, (i + 1) as int, (i + 1) as int) =~= spans(
                cs@,
                old_r,
            ) + lines_from(cs@, start as int, i as int));
            start = i + 1;
        } else {
            assert(lines_from(cs@, start as int, i as int) == lines_from(
                cs@,
                start as int,
                (i + 1) as int,
            ));
        }
        i = i + 1;
    }
    let ghost old_r = r@;
    r.push((start, i));
    assert(spans(cs@, r@) =~= spans(cs@, old_r) + lines_from(cs@, start as int, i as int));
    r
}

} // verus!
