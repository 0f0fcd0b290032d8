use vstd::prelude::*;

use crate::lockfile::Package;
use crate::text::chars_of;

verus! {

/// The address under which GitHub's API serves repositories.
pub const GITHUB_API_REPOS: &'static str = "https://api.github.com/repos";

/// The start of a GitHub repository's web address.
pub const GITHUB_WEB_PREFIX: &'static str = "https://github.com/";

/// The first index at or after `i` where `s` holds '/', or `s.len()`.
pub open spec fn next_slash(s: Seq<char>, i: int) -> int
    decreases s.len() - i,
{
    if 0 <= i < s.len() && s[i] != '/' {
        next_slash(s, i + 1)
    } else {
        i
    }
}

/// The owner and repository named by a GitHub web address
/// `https://github.com/<owner>/<repo>[/...]`, both non-empty.
pub open spec fn owner_repo_of(h: Seq<char>) -> Option<(Seq<char>, Seq<char>)> {
    let p = GITHUB_WEB_PREFIX@;
    if h.len() >= p.len() && h.subrange(0, p.len() as int) == p {
        let i1 = next_slash(h, p.len() as int);
        let i2 = next_slash(h, i1 + 1);
        if i1 < h.len() && i1 > p.len() && i2 > i1 + 1 {
            Some((h.subrange(p.len() as int, i1), h.subrange(i1 + 1, i2)))
        } else {
            None
        }
    } else {
        None
    }
}

/// The address of GitHub's comparison of commit `from` with commit `to` in
/// the repository `owner/repo`, under the API address `base`.
pub open spec fn compare_url_of(
    base: Seq<char>,
    owner: Seq<char>,
    repo: Seq<char>,
    from: Seq<char>,
    to: Seq<char>,
) -> Seq<char> {
    base + "/"@ + owner + "/"@ + repo + "/compare/"@ + from + "..."@ + to
}

/// The first index at or after `i` where `cs` holds '/', or its length.
fn next_slash_exec(cs: &Vec<char>, i: usize) -> (r: usize)
    requires
        i <= cs@.len(),
    ensures
        r == next_slash(cs@, i as int),
        i <= r <= cs@.len(),
{
    let mut j = i;
    while j < cs.len() && cs[j] != '/'
        invariant
            i <= j <= cs@.len(),
            next_slash(cs@, i as int) == next_slash(cs@, j as int),
        decreases cs@.len() - j,
    {
        j = j + 1;
    }
    j
}

/// Whether `cs` starts with `p`.
fn starts_with(cs: &Vec<char>, p: &Vec<char>) -> (r: bool)
    ensures
        r == (cs@.len() >= p@.len() && cs@.subrange(0, p@.len() as int) == p@),
{
    if cs.len() < p.len() {
        return false;
    }
    let mut i: usize = 0;
    while i < p.len()
        invariant
            i <= p@.len() <= cs@.len(),
            cs@.subrange(0, i as int) == p@.subrange(0, i as int),
        decreases p@.len() - i,
    {
        if cs[i] != p[i] {
            assert(cs@.subrange(0, p@.len() as int)[i as int] != p@[i as int]);
            return false;
        }
        assert(cs@.subrange(0, i + 1) =~= p@.subrange(0, i + 1));
        i = i + 1;
    }
    assert(p@.subrange(0, i as int) =~= p@);
    true
}

/// The owner and repository of a GitHub web address.
pub fn owner_repo(homepage: &str) -> (r: Option<(String, String)>)
    ensures
        match r {
            Some((o, n)) => owner_repo_of(homepage@) == Some((o@, n@)),
            None => owner_repo_of(homepage@) is None,
        },
{
    let cs = chars_of(homepage);
    let prefix = chars_of(GITHUB_WEB_PREFIX);
    if !starts_with(&cs, &prefix) {
        return None;
    }
    let p = prefix.len();
    let i1 = next_slash_exec(&cs, p);
    if !(i1 < cs.len() && i1 > p) {
        return None;
    }
    let i2 = next_slash_exec(&cs, i1 + 1);
    if !(i2 > i1 + 1) {
        return None;
    }
    let owner = homepage.substring_char(p, i1).to_owned();
    let repo = homepage.substring_char(i1 + 1, i2).to_owned();
    Some((owner, repo))
}

/// The index of the first of `candidates` that is a GitHub repository's web
/// address, if any.
pub fn pick_repository_url(candidates: &Vec<String>) -> (r: Option<usize>)
    ensures
        match r {
            Some(i) => i < candidates@.len() && owner_repo_of(candidates@[i as int]@) is Some
                && forall|j: int|
                0 <= j < i ==> owner_repo_of(#[trigger] candidates@[j]@) is None,
            None => forall|j: int|
                0 <= j < candidates@.len() ==> owner_repo_of(#[trigger] candidates@[j]@) is None,
        },
{
    let mut i: usize = 0;
    while i < candidates.len()
        invariant
            i <= candidates@.len(),
            forall|j: int| 0 <= j < i ==> owner_repo_of(#[trigger] candidates@[j]@) is None,
        decreases candidates@.len() - i,
    {
        if owner_repo(candidates[i].as_str()).is_some() {
            return Some(i);
        }
        i = i + 1;
    }
    None
}

/// The comparison address of commit `from` with commit `to`.
pub fn compare_url(base: &str, owner: &str, repo: &str, from: &str, to: &str) -> (r: String)
    ensures
        r@ == compare_url_of(base@, owner@, repo@, from@, to@),
{
    let mut r = base.to_owned();
    r.append("/");
    r.append(owner);
    r.append("/");
    r.append(repo);
    r.append("/compare/");
    r.append(from);
    r.append("...");
    r.append(to);
    r
}

impl Package {
    /// The owner and repository of the package's GitHub homepage, if it has one.
    pub fn extract_owner_repo(&self) -> (r: Option<(String, String)>)
        ensures
            match self.homepage {
                None => r is None,
                Some(h) => match r {
                    Some((o, n)) => owner_repo_of(h@) == Some((o@, n@)),
                    None => owner_repo_of(h@) is None,
                },
            },
    {
        match &self.homepage {
            None => None,
            Some(h) => owner_repo(h.as_str()),
        }
    }
}

} // verus!
