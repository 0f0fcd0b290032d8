use vstd::prelude::*;

use crate::lockfile::Package;

verus! {

/// A release tag of a source repository and the commit it points to.
#[derive(Clone, Debug, PartialEq, Eq)]
pub struct Tag {
    pub name: String,
    pub commit_sha: String,
}

/// Which of the two versions had no tag.
#[derive(Clone, Copy, Debug, PartialEq, Eq, Structural)]
pub enum WhichTag {
    Latest,
    Current,
}

/// Why no comparison is made for a package.
#[derive(Clone, Copy, Debug, PartialEq, Eq, Structural)]
pub enum SkipReason {
    NoLatestVersion,
    AlreadyLatest,
    TagNotFound { which: WhichTag },
}

/// What to do for one package: nothing, or compare two commits.
#[derive(Clone, Debug, PartialEq, Eq)]
pub enum Decision {
    Skip(SkipReason),
    Compare { from: String, to: String },
}

/// The mathematical value of a `Decision`.
pub enum DecisionModel {
    Skip(SkipReason),
    Compare { from: Seq<char>, to: Seq<char> },
}

impl View for Decision {
    type V = DecisionModel;

    open spec fn view(&self) -> DecisionModel {
        match self {
            Decision::Skip(r) => DecisionModel::Skip(*r),
            Decision::Compare { from, to } => DecisionModel::Compare { from: from@, to: to@ },
        }
    }
}

/// The index of the first tag at or after `i` named `name`, if any.
pub open spec fn find_tag_from(tags: Seq<Tag>, name: Seq<char>, i: int) -> Option<int>
    decreases tags.len() - i,
{
    if 0 <= i < tags.len() {
        if tags[i].name@ == name {
            Some(i)
        } else {
            find_tag_from(tags, name, i + 1)
        }
    } else {
        None
    }
}

/// The decision for a package pinned at `current`, whose latest release is
/// `latest`, given the repository's tags. The latest version's tag is looked
/// for first; of several tags with one name the first counts.
pub open spec fn decision_for(
    current: Seq<char>,
    latest: Option<Seq<char>>,
    tags: Seq<Tag>,
) -> DecisionModel {
    match latest {
        None => DecisionModel::Skip(SkipReason::NoLatestVersion),
        Some(l) => if l == current {
            DecisionModel::Skip(SkipReason::AlreadyLatest)
        } else {
            match find_tag_from(tags, l, 0) {
                None => DecisionModel::Skip(SkipReason::TagNotFound { which: WhichTag::Latest }),
                Some(li) => match find_tag_from(tags, current, 0) {
                    None => DecisionModel::Skip(
                        SkipReason::TagNotFound { which: WhichTag::Current },
                    ),
                    Some(ci) => DecisionModel::Compare {
                        from: tags[ci].commit_sha@,
                        to: tags[li].commit_sha@,
                    },
                },
            }
        },
    }
}

/// The model of a package's optional latest version.
pub open spec fn latest_of(p: Package) -> Option<Seq<char>> {
    match p.latest_version {
        Some(l) => Some(l@),
        None => None,
    }
}

/// The first tag named `name`.
fn find_tag(tags: &Vec<Tag>, name: &String) -> (r: Option<usize>)
    ensures
        match r {
            Some(j) => find_tag_from(tags@, name@, 0) == Some(j as int) && j < tags@.len(),
            None => find_tag_from(tags@, name@, 0) is None,
        },
{
    let mut i: usize = 0;
    while i < tags.len()
        invariant
            i <= tags@.len(),
            find_tag_from(tags@, name@, 0) == find_tag_from(tags@, name@, i as int),
        decreases tags@.len() - i,
    {
        if tags[i].name == *name {
            return Some(i);
        }
        i = i + 1;
    }
    None
}

/// Decides, one package at a time, whether an upgrade is worth comparing and
/// between which two commits. It keeps no state between packages.
pub struct UpdateOrchestrator;

impl UpdateOrchestrator {
    pub fn new() -> (r: UpdateOrchestrator) {
        UpdateOrchestrator
    }

    /// The decision for `package` given its repository's `tags`: skip it when
    /// its latest version is unknown, is the current one, or has no tag, or
    /// when the current version has none; else compare the current version's
    /// commit with the latest version's.
    pub fn decide(&self, package: &Package, tags: &Vec<Tag>) -> (r: Decision)
        ensures
            r@ == decision_for(package.current_version@, latest_of(*package), tags@),
            (r@ == DecisionModel::Skip(SkipReason::AlreadyLatest)) <==> (
            package.latest_version is Some && package.latest_version->Some_0@
                == package.current_version@),
            package.latest_version is None ==> r@ == DecisionModel::Skip(
                SkipReason::NoLatestVersion,
            ),
    {
        let latest = match &package.latest_version {
            None => {
                return Decision::Skip(SkipReason::NoLatestVersion);
            },
            Some(l) => l,
        };
        if *latest == package.current_version {
            return Decision::Skip(SkipReason::AlreadyLatest);
        }
        let li = match find_tag(tags, latest) {
            None => {
                return Decision::Skip(SkipReason::TagNotFound { which: WhichTag::Latest });
            },
            Some(i) => i,
        };
        let ci = match find_tag(tags, &package.current_version) {
            None => {
                return Decision::Skip(SkipReason::TagNotFound { which: WhichTag::Current });
            },
            Some(i) => i,
        };
        Decision::Compare { from: tags[ci].commit_sha.clone(), to: tags[li].commit_sha.clone() }
    }
}

/// The decision is a function of the package and the tags: two decisions
/// made for the same inputs are the same, and a package is skipped as already
/// up to date exactly when its latest version equals its current one.
pub proof fn lemma_decision_deterministic(
    package: Package,
    tags: Seq<Tag>,
    d1: DecisionModel,
    d2: DecisionModel,
)
    requires
        d1 == decision_for(package.current_version@, latest_of(package), tags),
        d2 == decision_for(package.current_version@, latest_of(package), tags),
    ensures
        d1 == d2,
        (d1 == DecisionModel::Skip(SkipReason::AlreadyLatest)) <==> (
        package.latest_version is Some && package.latest_version->Some_0@
            == package.current_version@),
{
}

} // verus!
