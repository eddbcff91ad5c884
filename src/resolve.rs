//! Version compatibility: which release of a plugin an IDE build can install.

use vstd::prelude::*;
use vstd::string::*;
use std::cmp::Ordering;
use crate::ides::IdeVersion;
use crate::text::push_char;

verus! {

/// The compatibility metadata of one plugin, as the plugin-details endpoint
/// returns it.
#[derive(Debug, PartialEq)]
pub struct PluginDetails {
    pub category: Option<PluginDetailsCategory>,
}

impl PluginDetails {
    /// The plugin's releases; `None` where the endpoint had no data for it.
    pub fn releases(&self) -> (r: Option<&Vec<PluginDetailsIdeaPlugin>>)
        ensures
            match r {
                Some(v) => self.category matches Some(c) && v == &c.idea_plugin,
                None => self.category is None,
            },
    {
        match &self.category {
            Some(c) => Some(&c.idea_plugin),
            None => None,
        }
    }
}

/// The releases of a plugin, most preferred first.
#[derive(Debug, PartialEq)]
pub struct PluginDetailsCategory {
    pub idea_plugin: Vec<PluginDetailsIdeaPlugin>,
}

/// One release of a plugin with its range of compatible IDE builds.
#[derive(Debug, PartialEq)]
pub struct PluginDetailsIdeaPlugin {
    pub version: String,
    pub idea_version: PluginDetailsIdeaVersion,
}

/// The inclusive range of IDE builds a release supports; a missing end is
/// unbounded, and either end may hold the wildcard segment `.*`.
#[derive(Debug, PartialEq)]
pub struct PluginDetailsIdeaVersion {
    pub since_build: Option<String>,
    pub until_build: Option<String>,
}

/// How `version_compare` orders two dotted build numbers: `None` where either
/// of them is not a version it can read.
pub uninterp spec fn build_order(a: Seq<char>, b: Seq<char>) -> Option<Ordering>;

/// Relies on `version_compare::Version::from` to read both build numbers and on
/// its `PartialOrd::partial_cmp` to order them.
#[verifier::external_body]
fn compare_builds(a: &str, b: &str) -> (r: Option<Ordering>)
    ensures
        r == build_order(a@, b@),
{
    let x = version_compare::Version::from(a)?;
    let y = version_compare::Version::from(b)?;
    x.partial_cmp(&y)
}

/// `s` with every wildcard segment `.*` replaced by `.` followed by `fill`.
pub open spec fn widen(s: Seq<char>, fill: Seq<char>) -> Seq<char>
    decreases s.len(),
{
    if s.len() == 0 {
        seq![]
    } else if s.len() >= 2 && s[0] == '.' && s[1] == '*' {
        seq!['.'] + fill + widen(s.subrange(2, s.len() as int), fill)
    } else {
        seq![s[0]] + widen(s.subrange(1, s.len() as int), fill)
    }
}

/// The lowest build that a `since` bound admits.
pub open spec fn lower_bound(since: Seq<char>) -> Seq<char> {
    widen(since, "0"@)
}

/// The highest build that an `until` bound admits.
pub open spec fn upper_bound(until: Seq<char>) -> Seq<char> {
    widen(until, "99999999"@)
}

/// Whether a build is within bounds, given how it compares with the lowest
/// build that the `since` bound admits and with the highest that the `until`
/// bound admits (`None`: no such bound; `Some(None)`: not comparable). A
/// bound that cannot be compared with the build admits nothing.
pub open spec fn within_bounds(since: Option<Option<Ordering>>, until: Option<Option<Ordering>>) -> bool {
    &&& match since {
        None => true,
        Some(Some(o)) => o != Ordering::Less,
        Some(None) => false,
    }
    &&& match until {
        None => true,
        Some(Some(o)) => o != Ordering::Greater,
        Some(None) => false,
    }
}

/// How `build` compares with the lowest build that a `since` bound admits.
pub open spec fn since_order(build: Seq<char>, since: Option<String>) -> Option<Option<Ordering>> {
    match since {
        None => None,
        Some(s) => Some(build_order(build, lower_bound(s@))),
    }
}

/// How `build` compares with the highest build that an `until` bound admits.
pub open spec fn until_order(build: Seq<char>, until: Option<String>) -> Option<Option<Ordering>> {
    match until {
        None => None,
        Some(u) => Some(build_order(build, upper_bound(u@))),
    }
}

/// Whether the release's bounds admit the IDE build `build`.
pub open spec fn admits(build: Seq<char>, rel: PluginDetailsIdeaPlugin) -> bool {
    within_bounds(
        since_order(build, rel.idea_version.since_build),
        until_order(build, rel.idea_version.until_build),
    )
}

/// Whether a build is within bounds, given its comparisons with them.
pub fn bounds_admit(since: Option<Option<Ordering>>, until: Option<Option<Ordering>>) -> (r: bool)
    ensures
        r == within_bounds(since, until),
{
    let low_ok = match since {
        None => true,
        Some(Some(Ordering::Less)) => false,
        Some(Some(_)) => true,
        Some(None) => false,
    };
    let high_ok = match until {
        None => true,
        Some(Some(Ordering::Greater)) => false,
        Some(Some(_)) => true,
        Some(None) => false,
    };
    low_ok && high_ok
}

/// Replaces every wildcard segment `.*` of `s` by `.` followed by `fill`.
pub fn widen_wildcards(s: &str, fill: &str) -> (r: String)
    ensures
        r@ == widen(s@, fill@),
{
    let n = s.unicode_len();
    let mut out = String::new();
    let mut i: usize = 0;
    assert(s@.subrange(0, n as int) =~= s@);
    while i < n
        invariant
            n == s@.len(),
            i <= n,
            out@ + widen(s@.subrange(i as int, n as int), fill@) == widen(s@, fill@),
        decreases n - i,
    {
        let ghost t = s@.subrange(i as int, n as int);
        let c = s.get_char(i);
        if c == '.' && i + 1 < n && s.get_char(i + 1) == '*' {
            assert(t.subrange(2, t.len() as int) =~= s@.subrange(i + 2, n as int));
            push_char(&mut out, '.');
            out.append(fill);
            assert(out@ + widen(s@.subrange(i + 2, n as int), fill@) =~= widen(s@, fill@));
            i += 2;
        } else {
            assert(t.subrange(1, t.len() as int) =~= s@.subrange(i + 1, n as int));
            push_char(&mut out, c);
            assert(out@ + widen(s@.subrange(i + 1, n as int), fill@) =~= widen(s@, fill@));
            i += 1;
        }
    }
    out
}

/// Whether the release's bounds admit the IDE build `build`.
pub fn release_admits(build: &str, rel: &PluginDetailsIdeaPlugin) -> (r: bool)
    ensures
        r == admits(build@, *rel),
{
    let since = match &rel.idea_version.since_build {
        None => None,
        Some(s) => {
            let low = widen_wildcards(s.as_str(), "0");
            Some(compare_builds(build, low.as_str()))
        },
    };
    let until = match &rel.idea_version.until_build {
        None => None,
        Some(u) => {
            let high = widen_wildcards(u.as_str(), "99999999");
            Some(compare_builds(build, high.as_str()))
        },
    };
    bounds_admit(since, until)
}

/// `r` is the position of the first release in `rels` whose bounds admit
/// `build`, or `None` where no release does.
pub open spec fn is_first_admissible(
    build: Seq<char>,
    rels: Seq<PluginDetailsIdeaPlugin>,
    r: Option<usize>,
) -> bool {
    match r {
        Some(i) => i < rels.len() && admits(build, rels[i as int]) && forall|j: int|
            0 <= j < i ==> !admits(build, #[trigger] rels[j]),
        None => forall|j: int| 0 <= j < rels.len() ==> !admits(build, #[trigger] rels[j]),
    }
}

/// The position of the first release, in the order given, whose bounds admit
/// the IDE's build number; `None` where no release does. The releases are not
/// reordered: the caller supplies them most preferred first.
pub fn supported_version(ide: &IdeVersion, versions: &Vec<PluginDetailsIdeaPlugin>) -> (r: Option<
    usize,
>)
    ensures
        is_first_admissible(ide.build_number@, versions@, r),
{
    let mut i: usize = 0;
    while i < versions.len()
        invariant
            i <= versions@.len(),
            forall|j: int| 0 <= j < i ==> !admits(ide.build_number@, #[trigger] versions@[j]),
        decreases versions@.len() - i,
    {
        if release_admits(ide.build_number.as_str(), &versions[i]) {
            return Some(i);
        }
        i += 1;
    }
    None
}

/// For each IDE release, in order, the position of the release of the plugin
/// that it gets.
pub fn resolve_ides(ides: &Vec<IdeVersion>, versions: &Vec<PluginDetailsIdeaPlugin>) -> (r: Vec<
    Option<usize>,
>)
    ensures
        r@.len() == ides@.len(),
        forall|i: int|
            0 <= i < ides@.len() ==> is_first_admissible(
                #[trigger] ides@[i].build_number@,
                versions@,
                r@[i],
            ),
{
    let mut out: Vec<Option<usize>> = Vec::new();
    let mut i: usize = 0;
    while i < ides.len()
        invariant
            i <= ides@.len(),
            out@.len() == i,
            forall|j: int|
                0 <= j < i ==> is_first_admissible(
                    #[trigger] ides@[j].build_number@,
                    versions@,
                    out@[j],
                ),
        decreases ides@.len() - i,
    {
        out.push(supported_version(&ides[i], versions));
        i += 1;
    }
    out
}

} // verus!
