//! Names and limits of the pipeline, with the defaults used when the
//! deployment configures none.
use vstd::prelude::*;

verus! {

/// Entries the log retains, roughly, before it drops the oldest.
pub const STREAM_MAX_LEN: usize = 10000;

/// How long one group read waits for new entries, in milliseconds.
pub const READ_BLOCK_MS: u64 = 5000;

/// The most entries one group read hands out.
pub const READ_COUNT: usize = 100;

/// The configured value when there is one, else `default`.
pub open spec fn setting_or(configured: Option<String>, default: Seq<char>) -> Seq<char> {
    match configured {
        Some(v) => v@,
        None => default,
    }
}

fn setting(configured: Option<String>, default: &str) -> (r: String)
    ensures
        r@ == setting_or(configured, default@),
{
    match configured {
        Some(v) => v,
        None => default.to_owned(),
    }
}

/// The log stream's name.
pub fn stream_namespace(configured: Option<String>) -> (r: String)
    ensures
        r@ == setting_or(configured, "valpago:transactions"@),
{
    setting(configured, "valpago:transactions")
}

/// The consumer group's name.
pub fn consumer_group(configured: Option<String>) -> (r: String)
    ensures
        r@ == setting_or(configured, "valpago:cg"@),
{
    setting(configured, "valpago:cg")
}

/// This worker's name within the group.
pub fn consumer_name(configured: Option<String>) -> (r: String)
    ensures
        r@ == setting_or(configured, "worker-1"@),
{
    setting(configured, "worker-1")
}

} // verus!
