//! The content-hash resolver: the decisions around the existence probe and the
//! external hashing tool, and the caches consulted before either runs.

use vstd::prelude::*;
use vstd::string::*;
use vstd::utf8::is_ascii_chars;
use base64::Engine;
use crate::db::{PluginDb, PluginDbEntry, PluginVersion, key_views};
use crate::maps::{key_lt, lemma_key_lt_order, search_sorted, KeyedPair};
use crate::text::{
    ends_with, first_index_of, has_prefix, has_suffix, push_char, strip_prefix,
};

verus! {

/// Every artifact's download URL starts with this; the stored path is the rest.
pub const DOWNLOAD_HOST: &'static str = "https://downloads.marketplace.jetbrains.com/";

/// The status a probe answers with when the release has no artifact.
pub const NOT_FOUND: u16 = 404;

/// The keys of plugin releases whose existence probe answered "not found" in
/// this run.
pub struct NotFoundCache {
    keys: Vec<PluginVersion>,
}

impl NotFoundCache {
    /// The keys recorded so far.
    pub closed spec fn keys(&self) -> Set<Seq<char>> {
        key_views(self.keys@).to_set()
    }

    /// The keys are kept in ascending order.
    pub closed spec fn wf(&self) -> bool {
        forall|i: int, j: int|
            0 <= i < j < self.keys@.len() ==> key_lt(
                #[trigger] self.keys@[i].key_view(),
                #[trigger] self.keys@[j].key_view(),
            )
    }

    /// An empty cache.
    pub fn new() -> (r: Self)
        ensures
            r.wf(),
            r.keys() == Set::<Seq<char>>::empty(),
    {
        let r = NotFoundCache { keys: Vec::new() };
        proof {
            assert(key_views(r.keys@).to_set() =~= Set::empty());
        }
        r
    }

    /// Whether `key` was recorded.
    pub fn contains(&self, key: &PluginVersion) -> (r: bool)
        requires
            self.wf(),
        ensures
            r == self.keys().contains(key@),
    {
        match search_sorted(&self.keys, key.as_str()) {
            Ok(i) => {
                proof {
                    assert(key_views(self.keys@)[i as int] == key@);
                }
                true
            },
            Err(_) => {
                proof {
                    lemma_key_lt_order(key@, key@, key@);
                    if key_views(self.keys@).contains(key@) {
                        let j = choose|j: int|
                            0 <= j < key_views(self.keys@).len() && key_views(self.keys@)[j]
                                == key@;
                        assert(self.keys@[j].key_view() == key@);
                    }
                }
                false
            },
        }
    }

    /// Records `key`.
    pub fn record(&mut self, key: PluginVersion)
        requires
            old(self).wf(),
        ensures
            final(self).wf(),
            final(self).keys() == old(self).keys().insert(key@),
    {
        let ghost before = key_views(self.keys@);
        let ghost k = key@;
        match search_sorted(&self.keys, key.as_str()) {
            Ok(i) => {
                proof {
                    assert(before[i as int] == k);
                    assert(before.to_set().insert(k) =~= before.to_set());
                }
            },
            Err(lo) => {
                let ghost old_keys = self.keys@;
                self.keys.insert(lo, key);
                proof {
                    old_keys.insert_ensures(lo as int, self.keys@[lo as int]);
                    assert forall|i: int, j: int|
                        0 <= i < j < self.keys@.len() implies key_lt(
                        #[trigger] self.keys@[i].key_view(),
                        #[trigger] self.keys@[j].key_view(),
                    ) by {
                        if j < lo {
                            assert(self.keys@[i] == old_keys[i] && self.keys@[j] == old_keys[j]);
                        } else if j == lo {
                            assert(self.keys@[i] == old_keys[i]);
                        } else if i < lo {
                            assert(self.keys@[i] == old_keys[i]);
                            assert(self.keys@[(j - 1) + 1] == old_keys[j - 1]);
                        } else if i == lo {
                            assert(self.keys@[(j - 1) + 1] == old_keys[j - 1]);
                        } else {
                            assert(self.keys@[(i - 1) + 1] == old_keys[i - 1]);
                            assert(self.keys@[(j - 1) + 1] == old_keys[j - 1]);
                        }
                    }
                    assert(key_views(self.keys@).to_set() =~= before.to_set().insert(k)) by {
                        assert forall|x: Seq<char>|
                            key_views(self.keys@).to_set().contains(x) <==> before.to_set().insert(
                                k,
                            ).contains(x) by {
                            if key_views(self.keys@).contains(x) {
                                let a = choose|a: int|
                                    0 <= a < key_views(self.keys@).len() && key_views(self.keys@)[a]
                                        == x;
                                if a < lo {
                                    assert(before[a] == x);
                                } else if a > lo {
                                    assert(self.keys@[(a - 1) + 1] == old_keys[a - 1]);
                                    assert(before[a - 1] == x);
                                }
                            }
                            if before.contains(x) {
                                let a = choose|a: int| 0 <= a < before.len() && before[a] == x;
                                if a < lo {
                                    assert(key_views(self.keys@)[a] == x);
                                } else {
                                    assert(self.keys@[a + 1] == old_keys[a]);
                                    assert(key_views(self.keys@)[a + 1] == x);
                                }
                            }
                            if x == k {
                                assert(key_views(self.keys@)[lo as int] == x);
                            }
                        }
                    }
                }
            },
        }
    }
}

/// Where an entry for a plugin release comes from, before any network call.
pub enum EntrySource {
    /// The database already holds this entry.
    Known(PluginDbEntry),
    /// A probe in this run found no artifact.
    KnownMissing,
    /// Neither cache knows the release: the existence probe must run.
    Probe,
}

/// Whether a resolution of `key` has to probe, given the entries table and the
/// not-found cache.
pub open spec fn needs_probe(
    entries: Map<Seq<char>, (Seq<char>, Seq<char>)>,
    missing: Set<Seq<char>>,
    key: Seq<char>,
) -> bool {
    !entries.contains_key(key) && !missing.contains(key)
}

/// The not-found cache after a probe of `key` answered `status`.
pub open spec fn missing_after(missing: Set<Seq<char>>, key: Seq<char>, status: u16) -> Set<
    Seq<char>,
> {
    if status == NOT_FOUND {
        missing.insert(key)
    } else {
        missing
    }
}

/// Consults the database, then the not-found cache; neither is changed.
pub fn lookup_entry(db: &PluginDb, cache: &NotFoundCache, key: &PluginVersion) -> (r: EntrySource)
    requires
        db.wf(),
        cache.wf(),
    ensures
        match r {
            EntrySource::Known(e) => db.entries().contains_key(key@) && db.entries()[key@] == e@,
            EntrySource::KnownMissing => !db.entries().contains_key(key@) && cache.keys().contains(
                key@,
            ),
            EntrySource::Probe => needs_probe(db.entries(), cache.keys(), key@),
        },
{
    match db.get(key) {
        Some(e) => EntrySource::Known(e.clone()),
        None => {
            if cache.contains(key) {
                EntrySource::KnownMissing
            } else {
                EntrySource::Probe
            }
        },
    }
}

/// What the existence probe's answer means.
#[derive(Debug, PartialEq, Eq, Clone, Copy, Structural)]
pub enum ProbeVerdict {
    /// The artifact exists: go on and hash it.
    Available,
    /// The release has no artifact; not an error.
    Missing,
    /// Any other failure status; an error for this release.
    Failed,
}

/// Whether an HTTP status is a success (2xx).
pub open spec fn is_success(status: u16) -> bool {
    200 <= status < 300
}

/// Whether an HTTP status is a success (2xx).
pub fn is_success_status(status: u16) -> (r: bool)
    ensures
        r == is_success(status),
{
    200 <= status && status < 300
}

/// Reads the probe's status for `key`, recording a "not found" in the cache.
pub fn after_probe(cache: &mut NotFoundCache, key: &PluginVersion, status: u16) -> (r: ProbeVerdict)
    requires
        old(cache).wf(),
    ensures
        final(cache).wf(),
        final(cache).keys() == missing_after(old(cache).keys(), key@, status),
        r == if status == NOT_FOUND {
            ProbeVerdict::Missing
        } else if is_success(status) {
            ProbeVerdict::Available
        } else {
            ProbeVerdict::Failed
        },
{
    if status == NOT_FOUND {
        cache.record(key.clone());
        ProbeVerdict::Missing
    } else if is_success_status(status) {
        ProbeVerdict::Available
    } else {
        ProbeVerdict::Failed
    }
}

/// Once a probe of `key` answered "not found", no later resolution of `key`
/// in the same run probes again, whatever was merged meanwhile: the cache
/// only grows during a run.
pub proof fn lemma_not_found_probed_once(
    entries: Map<Seq<char>, (Seq<char>, Seq<char>)>,
    missing: Set<Seq<char>>,
    later_entries: Map<Seq<char>, (Seq<char>, Seq<char>)>,
    later_missing: Set<Seq<char>>,
    key: Seq<char>,
)
    requires
        needs_probe(entries, missing, key),
        missing_after(missing, key, NOT_FOUND).subset_of(later_missing),
    ensures
        !needs_probe(later_entries, later_missing, key),
{
    assert(missing_after(missing, key, NOT_FOUND).contains(key));
}


/// Whether `char::is_alphanumeric` holds of `c` (Unicode's Alphabetic or
/// Numeric property).
pub uninterp spec fn alphanumeric(c: char) -> bool;

/// Relies on `char::is_alphanumeric`.
#[verifier::external_body]
fn is_alphanumeric(c: char) -> (r: bool)
    ensures
        r == alphanumeric(c),
{
    c.is_alphanumeric()
}

/// The serialisation of the URL `s` without its query, as the `url` crate
/// parses and prints it; `None` where it cannot parse `s`.
pub uninterp spec fn url_without_query(s: Seq<char>) -> Option<Seq<char>>;

/// Relies on `reqwest::Url` (the `url` crate): `Url::parse`, then
/// `set_query(None)`, then the serialisation.
#[verifier::external_body]
fn drop_query(url: &str) -> (r: Option<String>)
    ensures
        match r {
            Some(u) => url_without_query(url@) == Some(u@),
            None => url_without_query(url@) is None,
        },
{
    let mut u = reqwest::Url::parse(url).ok()?;
    u.set_query(None);
    Some(String::from(u))
}

/// `s` with every character that is not alphanumeric replaced by `-`.
pub open spec fn dashed(s: Seq<char>) -> Seq<char> {
    s.map_values(|c: char| if alphanumeric(c) { c } else { '-' })
}

/// The name under which the hashing tool stores the artifact.
pub open spec fn store_name(id: Seq<char>, version: Seq<char>) -> Seq<char> {
    dashed(id + "-"@ + version + "-source"@)
}

/// Replaces every character of `s` that is not alphanumeric by `-`.
pub fn dash_non_alphanumeric(s: &str) -> (r: String)
    ensures
        r@ == dashed(s@),
{
    let n = s.unicode_len();
    let mut out = String::new();
    let mut i: usize = 0;
    while i < n
        invariant
            n == s@.len(),
            i <= n,
            out@ == dashed(s@.subrange(0, i as int)),
        decreases n - i,
    {
        let c = s.get_char(i);
        if is_alphanumeric(c) {
            push_char(&mut out, c);
        } else {
            push_char(&mut out, '-');
        }
        proof {
            assert(s@.subrange(0, i + 1) =~= s@.subrange(0, i as int).push(c));
            assert(out@ =~= dashed(s@.subrange(0, i + 1)));
        }
        i += 1;
    }
    proof {
        assert(s@.subrange(0, n as int) =~= s@);
    }
    out
}

/// How to call the external hashing tool for one artifact, and the path that
/// the entry stores.
pub struct PrefetchPlan {
    /// The store name of the artifact.
    pub name: String,
    /// The download URL without its query.
    pub url: String,
    /// Unpack the archive before hashing.
    pub unpack: bool,
    /// Hash the file as an executable.
    pub executable: bool,
    /// The URL below `DOWNLOAD_HOST`.
    pub path: String,
}

/// Why no entry could be made for a plugin release.
#[derive(Debug, PartialEq, Eq, Clone, Copy, Structural)]
pub enum EntryError {
    /// The download URL could not be read as a URL.
    BadUrl,
    /// The download URL lies outside the marketplace's download host.
    ForeignUrl,
    /// The tool's hash is not valid in its base-32 encoding.
    BadHash,
}

/// Plans the hashing of the artifact at `url` for release `version` of plugin
/// `id`: the query is dropped, `.jar` files are hashed as executables and
/// anything else is unpacked first, and the stored path is the URL below
/// `DOWNLOAD_HOST`.
pub fn plan_prefetch(id: &str, version: &str, url: &str) -> (r: Result<PrefetchPlan, EntryError>)
    ensures
        match url_without_query(url@) {
            None => r == Err::<PrefetchPlan, EntryError>(EntryError::BadUrl),
            Some(u) => if has_prefix(u, DOWNLOAD_HOST@) {
                r matches Ok(p) && p.url@ == u && p.name@ == store_name(id@, version@) && p.executable
                    == has_suffix(u, ".jar"@) && p.unpack == !has_suffix(u, ".jar"@) && p.path@
                    == u.subrange(DOWNLOAD_HOST@.len() as int, u.len() as int)
            } else {
                r == Err::<PrefetchPlan, EntryError>(EntryError::ForeignUrl)
            },
        },
{
    let u = match drop_query(url) {
        None => {
            return Err(EntryError::BadUrl);
        },
        Some(u) => u,
    };
    let path = match strip_prefix(u.as_str(), DOWNLOAD_HOST) {
        None => {
            return Err(EntryError::ForeignUrl);
        },
        Some(p) => String::from_str(p),
    };
    let is_jar = ends_with(u.as_str(), ".jar");
    let raw = String::from_str(id).concat("-").concat(version).concat("-source");
    let name = dash_non_alphanumeric(raw.as_str());
    Ok(PrefetchPlan { name, url: u, unpack: !is_jar, executable: is_jar, path })
}

/// The arguments of the hashing tool for a plan.
pub open spec fn prefetch_arg_list(p: PrefetchPlan) -> Seq<Seq<char>> {
    seq!["--print-path"@, "--type"@, "sha256"@, "--name"@, p.name@] + (if p.unpack {
        seq!["--unpack"@]
    } else {
        seq![]
    }) + (if p.executable {
        seq!["--executable"@]
    } else {
        seq![]
    }) + seq![p.url@]
}

/// The views of a list of strings.
pub open spec fn string_views(v: Seq<String>) -> Seq<Seq<char>> {
    v.map_values(|s: String| s@)
}

/// The arguments of the hashing tool for a plan: print the store path, hash
/// with SHA-256 under the plan's name, unpack or mark executable as planned,
/// and the URL last.
pub fn prefetch_args(plan: &PrefetchPlan) -> (r: Vec<String>)
    ensures
        string_views(r@) == prefetch_arg_list(*plan),
{
    let mut args: Vec<String> = Vec::new();
    args.push(String::from_str("--print-path"));
    args.push(String::from_str("--type"));
    args.push(String::from_str("sha256"));
    args.push(String::from_str("--name"));
    args.push(plan.name.clone());
    if plan.unpack {
        args.push(String::from_str("--unpack"));
    }
    if plan.executable {
        args.push(String::from_str("--executable"));
    }
    args.push(plan.url.clone());
    proof {
        assert(string_views(args@) =~= prefetch_arg_list(*plan));
    }
    args
}

/// `s` without leading and trailing whitespace, as `str::trim` gives it.
pub uninterp spec fn trimmed(s: Seq<char>) -> Seq<char>;

/// `t` is a contiguous stretch of `s`.
pub open spec fn is_stretch_of(t: Seq<char>, s: Seq<char>) -> bool {
    exists|i: int, j: int| 0 <= i <= j <= s.len() && t == s.subrange(i, j)
}

/// Relies on `str::trim`, which removes whitespace from both ends only.
#[verifier::external_body]
fn trim(s: &str) -> (r: &str)
    ensures
        r@ == trimmed(s@),
        is_stretch_of(r@, s@),
{
    s.trim()
}

/// The tool's output, trimmed, split at its first line break into the hash and
/// the store path; `None` where it holds no line break.
pub fn parse_prefetch_output(out: &str) -> (r: Option<(String, String)>)
    ensures
        match r {
            Some((hash, path)) => exists|i: int|
                0 <= i < trimmed(out@).len() && trimmed(out@)[i] == '\n' && (forall|j: int|
                    0 <= j < i ==> trimmed(out@)[j] != '\n') && hash@ == trimmed(out@).subrange(0, i)
                    && path@ == trimmed(out@).subrange(i + 1, trimmed(out@).len() as int),
            None => forall|j: int| 0 <= j < trimmed(out@).len() ==> trimmed(out@)[j] != '\n',
        },
{
    let t = trim(out);
    let n = t.unicode_len();
    match first_index_of(t, '\n') {
        None => None,
        Some(i) => {
            let hash = String::from_str(t.substring_char(0, i));
            let path = String::from_str(t.substring_char(i + 1, n));
            Some((hash, path))
        },
    }
}

/// Whether `nix_base32::from_nix_base32` can read a string of `n` ASCII
/// characters without indexing past its buffer.
pub open spec fn nix32_len_ok(n: nat) -> bool {
    n <= usize::MAX / 5 && (n == 0 || (5 * (n - 1)) / 8 < (5 * n) / 8)
}

/// The bytes that `nix_base32::from_nix_base32` reads from `s`; `None` where
/// `s` holds a character outside its alphabet or bits past the last byte.
pub uninterp spec fn nix32_decoded(s: Seq<char>) -> Option<Seq<u8>>;

/// Relies on `nix_base32::from_nix_base32`, whose output has five eighths of
/// the input's length in bytes.
#[verifier::external_body]
fn decode_nix32(s: &str) -> (r: Option<Vec<u8>>)
    requires
        s.is_ascii(),
        nix32_len_ok(s@.len()),
    ensures
        match r {
            Some(b) => nix32_decoded(s@) == Some(b@) && b@.len() == s@.len() * 5 / 8,
            None => nix32_decoded(s@) is None,
        },
{
    nix_base32::from_nix_base32(s)
}

/// The standard, padded base64 text of `b`.
pub uninterp spec fn base64_encoded(b: Seq<u8>) -> Seq<char>;

/// Relies on `base64`'s `BASE64_STANDARD.encode`.
#[verifier::external_body]
fn encode_base64(b: &Vec<u8>) -> (r: String)
    requires
        b@.len() <= usize::MAX / 2,
    ensures
        r@ == base64_encoded(b@),
{
    base64::prelude::BASE64_STANDARD.encode(b)
}

/// The stored form of a hash that the tool printed in its base-32 encoding.
pub open spec fn stored_hash(s: Seq<char>) -> Option<Seq<char>> {
    if !is_ascii_chars(s) || !nix32_len_ok(s.len()) {
        None
    } else {
        match nix32_decoded(s) {
            Some(b) => Some(base64_encoded(b)),
            None => None,
        }
    }
}

/// Re-encodes a base-32 hash from the tool as base64 for storage.
pub fn storage_hash(nix32: &str) -> (r: Option<String>)
    ensures
        match r {
            Some(h) => stored_hash(nix32@) == Some(h@),
            None => stored_hash(nix32@) is None,
        },
{
    let n = nix32.unicode_len();
    if !nix32.is_ascii() {
        return None;
    }
    if n > usize::MAX / 5 {
        return None;
    }
    if n > 0 && !((5 * (n - 1)) / 8 < (5 * n) / 8) {
        return None;
    }
    match decode_nix32(nix32) {
        None => None,
        Some(bytes) => Some(encode_base64(&bytes)),
    }
}

/// The entry for an artifact: the plan's path and the stored hash.
pub fn make_entry(plan: &PrefetchPlan, nix32: &str) -> (r: Result<PluginDbEntry, EntryError>)
    ensures
        match stored_hash(nix32@) {
            Some(h) => r matches Ok(e) && e.path@ == plan.path@ && e.hash@ == h,
            None => r == Err::<PluginDbEntry, EntryError>(EntryError::BadHash),
        },
{
    match storage_hash(nix32) {
        None => Err(EntryError::BadHash),
        Some(hash) => Ok(PluginDbEntry { path: plan.path.clone(), hash }),
    }
}

} // verus!
