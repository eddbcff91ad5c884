//! The crawl's own rules: which plugin ids are queried under which id, the
//! endpoints, and the retry envelope around each plugin's task.

use vstd::prelude::*;
use vstd::string::*;
use vstd::arithmetic::power::pow;
use crate::text::{first_index_of, str_eq};
use crate::db::valid_plugin_id;

verus! {

/// Base delay of the retry envelope, in milliseconds.
pub const BACKOFF_BASE_MS: u64 = 250;

/// How often a failed plugin task is retried.
pub const RETRIES: usize = 3;

/// Time limit of one attempt of a plugin task, in seconds.
pub const TASK_TIMEOUT_SECS: u64 = 1200;

/// Time limit of one HTTP request, in seconds.
pub const REQUEST_TIMEOUT_SECS: u64 = 600;

/// How many plugin tasks run at once.
pub const MAX_CONCURRENT_TASKS: usize = 16;

/// The id under which a plugin's details are queried: `None` for the plugins
/// known to be broken, which are skipped.
pub open spec fn details_key(id: Seq<char>) -> Option<Seq<char>> {
    if id == "23.bytecode-disassembler"@ {
        Some("bytecode-disassembler"@)
    } else if id == "com.valord577.mybatis-navigator"@ || id == "io.github.kings1990.FastRequest"@
        || id == "com.majera.intellij.codereview.gitlab"@ {
        None
    } else {
        Some(id)
    }
}

/// Exceptions for a few plugins: one whose real id trips up the details
/// endpoint is queried under an alias; those with invalid version numbers or
/// invalid file names in their archives are skipped.
pub fn hacks_for_details_key<'a>(pluginkey: &'a str) -> (r: Option<&'a str>)
    ensures
        match r {
            Some(k) => details_key(pluginkey@) == Some(k@),
            None => details_key(pluginkey@) is None,
        },
{
    if str_eq(pluginkey, "23.bytecode-disassembler") {
        Some("bytecode-disassembler")
    } else if str_eq(pluginkey, "com.valord577.mybatis-navigator") || str_eq(
        pluginkey,
        "io.github.kings1990.FastRequest",
    ) || str_eq(pluginkey, "com.majera.intellij.codereview.gitlab") {
        None
    } else {
        Some(pluginkey)
    }
}

/// Whether the releases of plugin `id` can be keyed in the database: an id
/// holding a `/` could give a key that another release's key equals, so such
/// a plugin is not crawled.
pub fn keyable_id(id: &str) -> (r: bool)
    ensures
        r == valid_plugin_id(id@),
{
    first_index_of(id, '/').is_none()
}

/// The details endpoint for a plugin id.
pub fn details_url(id: &str) -> (r: String)
    ensures
        r@ == "https://plugins.jetbrains.com/plugins/list?pluginId="@ + id@,
{
    String::from_str("https://plugins.jetbrains.com/plugins/list?pluginId=").concat(id)
}

/// The download endpoint (probed for existence) for a plugin release.
pub fn download_url(id: &str, version: &str) -> (r: String)
    ensures
        r@ == "https://plugins.jetbrains.com/plugin/download?pluginId="@ + id@ + "&version="@
            + version@,
{
    String::from_str("https://plugins.jetbrains.com/plugin/download?pluginId=").concat(id).concat(
        "&version=",
    ).concat(version)
}

/// The delay before retry `i` (from 0) of an exponential backoff from `base`
/// milliseconds: `base` to the power `i + 1`, saturated at `u64::MAX`.
pub open spec fn backoff_delay(base: u64, i: nat) -> u64 {
    if pow(base as int, i + 1) <= u64::MAX {
        pow(base as int, i + 1) as u64
    } else {
        u64::MAX
    }
}

/// Relies on `tokio_retry2::strategy::ExponentialBackoff::from_millis`, whose
/// iterator starts at `base` milliseconds and multiplies by `base` at each
/// step, saturating at `u64::MAX`; the first `n` delays, in milliseconds.
#[verifier::external_body]
fn backoff_delays(base: u64, n: usize) -> (r: Vec<u64>)
    ensures
        r@.len() == n,
        forall|i: int| 0 <= i < n ==> r@[i] == backoff_delay(base, i as nat),
{
    tokio_retry2::strategy::ExponentialBackoff::from_millis(base).take(n).map(
        |d| d.as_millis() as u64,
    ).collect()
}

/// The retry envelope of a task: after each failed attempt, the delay before
/// the next one, until the retries run out.
pub struct RetryPolicy {
    delays: Vec<u64>,
}

impl RetryPolicy {
    /// The delays, in milliseconds, one per retry.
    pub closed spec fn delays(&self) -> Seq<u64> {
        self.delays@
    }

    /// Exponential backoff from `base_ms`, with `retries` retries.
    pub fn exponential(base_ms: u64, retries: usize) -> (r: Self)
        ensures
            r.delays().len() == retries,
            forall|i: int| 0 <= i < retries ==> r.delays()[i] == backoff_delay(base_ms, i as nat),
    {
        RetryPolicy { delays: backoff_delays(base_ms, retries) }
    }

    /// The envelope of a plugin task.
    pub fn for_plugin_tasks() -> (r: Self)
        ensures
            r.delays().len() == RETRIES,
            forall|i: int|
                0 <= i < RETRIES ==> r.delays()[i] == backoff_delay(BACKOFF_BASE_MS, i as nat),
    {
        RetryPolicy::exponential(BACKOFF_BASE_MS, RETRIES)
    }

    /// After `failures` failed attempts (at least one), the delay before the
    /// next attempt, or `None` where the task has failed for good.
    pub fn after_failure(&self, failures: usize) -> (r: Option<u64>)
        requires
            failures >= 1,
        ensures
            failures <= self.delays().len() ==> r == Some(self.delays()[failures - 1]),
            failures > self.delays().len() ==> r is None,
    {
        if failures <= self.delays.len() {
            Some(self.delays[failures - 1])
        } else {
            None
        }
    }
}

} // verus!
