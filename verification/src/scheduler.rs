//! Scheduling rules: the period of the scrape job, the cron expression of
//! the verification job, and what a scrape of one source records.
use vstd::prelude::*;

use crate::models::RawPlayItem;

verus! {

/// The refusal of a scrape interval of zero seconds.
pub open spec fn zero_interval_message() -> Seq<char> {
    "拉取间隔必须大于 0 秒"@
}

/// The period of the scrape job, in seconds: the job repeats every
/// `interval_secs` seconds, so consecutive scrapes start exactly that far
/// apart.  An interval of zero gives no schedule.
pub fn scrape_period_secs(interval_secs: u64) -> (r: Result<u64, String>)
    ensures
        interval_secs > 0 ==> r == Ok::<u64, String>(interval_secs),
        interval_secs == 0 ==> (r matches Err(m) && m@ == zero_interval_message()),
{
    if interval_secs > 0 {
        Ok(interval_secs)
    } else {
        Err("拉取间隔必须大于 0 秒".to_string())
    }
}

/// Cron expression of the hourly verification job.
pub fn verify_cron_expr() -> (r: String)
    ensures
        r@ == "0 0 * * * *"@,
{
    "0 0 * * * *".to_string()
}

/// The URLs of the scraped entries, in order.
pub fn fresh_urls(items: &Vec<RawPlayItem>) -> (r: Vec<String>)
    ensures
        r@.len() == items@.len(),
        forall|k: int| 0 <= k < r@.len() ==> #[trigger] r@[k] == items@[k].url,
{
    let mut out: Vec<String> = Vec::new();
    let mut k: usize = 0;
    while k < items.len()
        invariant
            k <= items.len(),
            out@.len() == k,
            forall|j: int| 0 <= j < k ==> #[trigger] out@[j] == items@[j].url,
        decreases items.len() - k,
    {
        out.push(items[k].url.clone());
        k += 1;
    }
    out
}

/// What a source records after a scrape: the entry count (as an `i32`) and
/// `ok`, or 0 and `error` when the scrape failed.
pub fn fetch_record(scraped: Option<usize>) -> (r: (i32, &'static str))
    ensures
        match scraped {
            Some(n) => r.0 == n as i32 && r.1@ == "ok"@,
            None => r.0 == 0 && r.1@ == "error"@,
        },
{
    match scraped {
        Some(n) => (n as i32, "ok"),
        None => (0, "error"),
    }
}

} // verus!
