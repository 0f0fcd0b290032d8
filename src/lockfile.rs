use vstd::prelude::*;

use crate::error::{Field, ParseError, ParseErrorModel};
use crate::text::{bounds_within, chars_of, line_bounds, lines, spans};

verus! {

/// One dependency of a lockfile. `latest_version` and `homepage` are left
/// empty by the parser and filled in later from a package registry.
#[derive(Clone, Debug, PartialEq, Eq)]
pub struct Package {
    pub name: String,
    pub current_version: String,
    pub latest_version: Option<String>,
    pub homepage: Option<String>,
}

/// A line that declares nothing: empty, or a comment starting with '#'.
pub open spec fn is_blank(l: Seq<char>) -> bool {
    l.len() == 0 || l[0] == '#'
}

/// The index of the first "==" in `l` at or after `i`, or -1 if there is none.
pub open spec fn first_sep(l: Seq<char>, i: int) -> int
    decreases l.len() - i,
{
    if 0 <= i && i + 1 < l.len() {
        if l[i] == '=' && l[i + 1] == '=' {
            i
        } else {
            first_sep(l, i + 1)
        }
    } else {
        -1
    }
}

/// The (name, version) entries declared by a sequence of lockfile lines, or
/// the first error among them. Each line that is not blank has the form
/// `name==version`, split at its first "==".
pub open spec fn lock_entries(ls: Seq<Seq<char>>) -> Result<
    Seq<(Seq<char>, Seq<char>)>,
    ParseErrorModel,
>
    decreases ls.len(),
{
    if ls.len() == 0 {
        Ok(seq![])
    } else {
        match lock_entries(ls.drop_last()) {
            Err(e) => Err(e),
            Ok(es) => {
                let l = ls.last();
                let k = first_sep(l, 0);
                if is_blank(l) {
                    Ok(es)
                } else if k < 0 {
                    Err(ParseErrorModel::Malformed { fragment: l, line: ls.len() as int })
                } else if k == 0 {
                    Err(ParseErrorModel::MissingField { field: Field::Name, entry: es.len() as int })
                } else if k + 2 == l.len() {
                    Err(
                        ParseErrorModel::MissingField {
                            field: Field::Version,
                            entry: es.len() as int,
                        },
                    )
                } else {
                    Ok(es.push((l.subrange(0, k), l.subrange(k + 2, l.len() as int))))
                }
            },
        }
    }
}

/// The number of lines that are not blank.
pub open spec fn count_declared(ls: Seq<Seq<char>>) -> nat
    decreases ls.len(),
{
    if ls.len() == 0 {
        0
    } else {
        count_declared(ls.drop_last()) + if is_blank(ls.last()) {
            0nat
        } else {
            1nat
        }
    }
}

/// The (name, version) pairs of a sequence of packages.
pub open spec fn entries_of(ps: Seq<Package>) -> Seq<(Seq<char>, Seq<char>)> {
    ps.map_values(|p: Package| (p.name@, p.current_version@))
}

proof fn lemma_first_sep_range(l: Seq<char>, i: int)
    requires
        0 <= i,
    ensures
        first_sep(l, i) == -1 || (i <= first_sep(l, i) && first_sep(l, i) + 1 < l.len()
            && l[first_sep(l, i)] == '=' && l[first_sep(l, i) + 1] == '='),
    decreases l.len() - i,
{
    if i + 1 < l.len() && !(l[i] == '=' && l[i + 1] == '=') {
        lemma_first_sep_range(l, i + 1);
    }
}

/// Once a prefix of the lines fails, the whole text fails with that error.
proof fn lemma_error_persists(ls: Seq<Seq<char>>, k: int)
    requires
        0 <= k <= ls.len(),
        lock_entries(ls.take(k)) is Err,
    ensures
        lock_entries(ls) == lock_entries(ls.take(k)),
    decreases ls.len() - k,
{
    if k < ls.len() {
        assert(ls.take(k + 1).drop_last() =~= ls.take(k));
        lemma_error_persists(ls, k + 1);
    } else {
        assert(ls.take(k) =~= ls);
    }
}

/// A lockfile that parses yields one entry per declared line, in order of
/// declaration, and every entry has a non-empty name and version.
pub proof fn lemma_entries_shape(ls: Seq<Seq<char>>)
    requires
        lock_entries(ls) is Ok,
    ensures
        lock_entries(ls)->Ok_0.len() == count_declared(ls),
        forall|j: int|
            0 <= j < lock_entries(ls)->Ok_0.len() ==> (#[trigger] lock_entries(ls)->Ok_0[j]).0.len()
                > 0 && lock_entries(ls)->Ok_0[j].1.len() > 0,
    decreases ls.len(),
{
    if ls.len() > 0 {
        lemma_entries_shape(ls.drop_last());
        lemma_first_sep_range(ls.last(), 0);
    }
}

/// The first index `j` in `[a, b)` with `cs[j] == '='` and `cs[j + 1] == '='`,
/// `j + 1 < b`, as an offset from `a`; -1 if there is none.
fn find_sep(cs: &Vec<char>, a: usize, b: usize) -> (r: Option<usize>)
    requires
        a <= b <= cs@.len(),
    ensures
        match r {
            Some(j) => j == first_sep(cs@.subrange(a as int, b as int), 0),
            None => first_sep(cs@.subrange(a as int, b as int), 0) == -1,
        },
{
    let ghost l = cs@.subrange(a as int, b as int);
    let mut j: usize = a;
    while b - j > 1
        invariant
            a <= j <= b,
            b <= cs@.len(),
            l == cs@.subrange(a as int, b as int),
            first_sep(l, 0) == first_sep(l, j - a),
        decreases b - j,
    {
        if cs[j] == '=' && cs[j + 1] == '=' {
            return Some(j - a);
        }
        j = j + 1;
    }
    None
}

/// Parses lockfile text: one `name==version` entry per line, in order of
/// declaration; empty lines and lines starting with '#' are skipped.
/// A line without "==" is `Malformed`; an entry with nothing before or after
/// its first "==" is `MissingField`. The parse is all or nothing.
pub fn parse_lockfile(text: &str) -> (r: Result<Vec<Package>, ParseError>)
    ensures
        match r {
            Ok(ps) => lock_entries(lines(text@)) == Ok::<_, ParseErrorModel>(entries_of(ps@)),
            Err(e) => lock_entries(lines(text@)) == Err::<Seq<(Seq<char>, Seq<char>)>, _>(e@),
        },
        r is Ok ==> r->Ok_0@.len() == count_declared(lines(text@)),
        r is Ok ==> forall|j: int|
            0 <= j < r->Ok_0@.len() ==> (#[trigger] r->Ok_0@[j]).name@.len() > 0
                && r->Ok_0@[j].current_version@.len() > 0 && r->Ok_0@[j].latest_version is None
                && r->Ok_0@[j].homepage is None,
{
    let cs = chars_of(text);
    let bs = line_bounds(&cs);
    let ghost ls = lines(text@);
    let mut ps: Vec<Package> = Vec::new();
    let mut k: usize = 0;
    assert(ls.take(0) =~= Seq::<Seq<char>>::empty());
    assert(entries_of(ps@) =~= Seq::<(Seq<char>, Seq<char>)>::empty());
    while k < bs.len()
        invariant
            k <= bs@.len(),
            cs@ == text@,
            ls == lines(text@),
            spans(cs@, bs@) == ls,
            bounds_within(bs@, cs@.len() as int),
            lock_entries(ls.take(k as int)) == Ok::<_, ParseErrorModel>(entries_of(ps@)),
            forall|j: int|
                0 <= j < ps@.len() ==> (#[trigger] ps@[j]).latest_version is None
                    && ps@[j].homepage is None,
        decreases bs@.len() - k,
    {
        let (a, b) = bs[k];
        assert(bs@[k as int].0 <= bs@[k as int].1 <= cs@.len());
        let ghost l = ls[k as int];
        assert(l == cs@.subrange(a as int, b as int));
        assert(ls.take(k + 1).drop_last() =~= ls.take(k as int));
        assert(ls.take(k + 1).last() == l);
        assert(l.len() == b - a);
        assert(l.len() > 0 ==> l[0] == cs@[a as int]);
        if a == b || cs[a] == '#' {
            k = k + 1;
            continue;
        }
        let sep = find_sep(&cs, a, b);
        proof {
            lemma_first_sep_range(l, 0);
        }
        if sep.is_none() {
            let fragment = text.substring_char(a, b).to_owned();
            assert(fragment@ == l);
            assert(lock_entries(ls.take(k + 1)) is Err);
            proof {
                lemma_error_persists(ls, (k + 1) as int);
            }
            let e = ParseError::Malformed { fragment, line: k + 1 };
            assert(lock_entries(ls.take(k + 1)) == Err::<Seq<(Seq<char>, Seq<char>)>, _>(e@));
            return Err(e);
        }
        let s = sep.unwrap();
        if s == 0 {
            assert(lock_entries(ls.take(k + 1)) is Err);
            proof {
                lemma_error_persists(ls, (k + 1) as int);
            }
            let e = ParseError::MissingField { field: Field::Name, entry: ps.len() };
            assert(lock_entries(ls.take(k + 1)) == Err::<Seq<(Seq<char>, Seq<char>)>, _>(e@));
            return Err(e);
        }
        if a + s + 2 == b {
            assert(lock_entries(ls.take(k + 1)) is Err);
            proof {
                lemma_error_persists(ls, (k + 1) as int);
            }
            let e = ParseError::MissingField { field: Field::Version, entry: ps.len() };
            assert(lock_entries(ls.take(k + 1)) == Err::<Seq<(Seq<char>, Seq<char>)>, _>(e@));
            return Err(e);
        }
        let name = text.substring_char(a, a + s).to_owned();
        let version = text.substring_char(a + s + 2, b).to_owned();
        assert(name@ =~= l.subrange(0, s as int));
        assert(version@ =~= l.subrange(s + 2, l.len() as int));
        let ghost old_ps = ps@;
        ps.push(Package { name, current_version: version, latest_version: None, homepage: None });
        assert(entries_of(ps@) =~= entries_of(old_ps).push((name@, version@)));
        k = k + 1;
    }
    assert(ls.take(k as int) =~= ls);
    proof {
        lemma_entries_shape(ls);
        assert forall|j: int| 0 <= j < ps@.len() implies (#[trigger] ps@[j]).name@.len() > 0
            && ps@[j].current_version@.len() > 0 by {
            assert(entries_of(ps@)[j] == (ps@[j].name@, ps@[j].current_version@));
        }
        assert(entries_of(ps@).len() == ps@.len());
    }
    Ok(ps)
}

} // verus!
