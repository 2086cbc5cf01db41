//! Finalizing a run report: deriving its status from the outcome counts,
//! stamping the end time and ordering the outcome rows. Persisting the
//! finished report is the caller's business.

use vstd::prelude::*;
use vstd::string::StringExecFns;
use crate::structs::{Log, LogResult};

verus! {

/// The derived status token: `"success"` when nothing failed, `"failed"`
/// when nothing succeeded and at least one attempt failed, `"partial"`
/// otherwise.
pub open spec fn status_of(successes: nat, failures: nat) -> Seq<char> {
    if failures == 0 {
        "success"@
    } else if successes == 0 {
        "failed"@
    } else {
        "partial"@
    }
}

/// The status token for the given outcome counts. The status is always
/// derived, never chosen by a caller.
pub fn derive_status(success_count: usize, failed_count: usize) -> (r: &'static str)
    ensures
        r@ == status_of(success_count as nat, failed_count as nat),
{
    if failed_count == 0 {
        "success"
    } else if success_count == 0 {
        "failed"
    } else {
        "partial"
    }
}

/// Closes a run's report: derives status and counts from the outcome
/// lists, stamps the end time, and returns the report together with its
/// rows, successes first. Returns `None` when the run produced no outcome
/// at all, in which case nothing is to be persisted.
pub fn finalize_log(
    log: Log,
    success_directories: Vec<LogResult>,
    failed_directories: Vec<LogResult>,
    endstamp: String,
) -> (r: Option<(Log, Vec<LogResult>)>)
    requires
        success_directories@.len() + failed_directories@.len() <= u16::MAX,
    ensures
        (r is None) == (success_directories@.len() == 0 && failed_directories@.len() == 0),
        (r matches Some(p) ==> {
            &&& p.0.status@ == status_of(
                success_directories@.len() as nat,
                failed_directories@.len() as nat,
            )
            &&& p.0.success_count == success_directories@.len()
            &&& p.0.failed_count == failed_directories@.len()
            &&& p.0.endstamp == endstamp
            &&& p.0.id == log.id
            &&& p.0.startstamp == log.startstamp
            &&& p.0.log_results == log.log_results
            &&& p.1@ == success_directories@ + failed_directories@
        }),
{
    if success_directories.len() == 0 && failed_directories.len() == 0 {
        return None;
    }
    let status = derive_status(success_directories.len(), failed_directories.len());
    let success_count = success_directories.len() as u16;
    let failed_count = failed_directories.len() as u16;

    let mut all_results = success_directories;
    let mut failed = failed_directories;
    all_results.append(&mut failed);

    let finished = Log {
        id: log.id,
        startstamp: log.startstamp,
        endstamp,
        status: String::from_str(status),
        success_count,
        failed_count,
        log_results: log.log_results,
    };
    Some((finished, all_results))
}

/// The rows belonging to one report.
pub open spec fn rows_of(results: Seq<LogResult>, id: u16) -> Seq<LogResult> {
    results.filter(|x: LogResult| x.log_id == Some(id))
}

/// The outcome rows of one report, in stored order.
fn rows_for(results: &Vec<LogResult>, id: u16) -> (r: Vec<LogResult>)
    ensures
        r@ == rows_of(results@, id),
{
    let ghost pred = |x: LogResult| x.log_id == Some(id);
    let mut r: Vec<LogResult> = Vec::new();
    let mut i: usize = 0;
    while i < results.len()
        invariant
            i <= results@.len(),
            r@ == results@.take(i as int).filter(pred),
            pred == (|x: LogResult| x.log_id == Some(id)),
        decreases results@.len() - i,
    {
        proof {
            crate::seqs::lemma_take_filter_step(results@, pred, i as int);
        }
        let matches_id = match results[i].log_id {
            Some(row_id) => row_id == id,
            None => false,
        };
        if matches_id {
            r.push(results[i].clone());
        }
        i = i + 1;
    }
    proof {
        crate::seqs::lemma_take_all(results@);
    }
    r
}

/// Attaches to each persisted report the outcome rows keyed by its id,
/// in stored order; a report without rows keeps none.
pub fn attach_results(logs: Vec<Log>, results: &Vec<LogResult>) -> (r: Vec<Log>)
    requires
        forall|i: int| 0 <= i < logs@.len() ==> (#[trigger] logs@[i]).id is Some,
        forall|i: int| 0 <= i < logs@.len() ==> (#[trigger] logs@[i]).log_results is None,
    ensures
        r@.len() == logs@.len(),
        forall|i: int|
            0 <= i < logs@.len() ==> ({
                let before = logs@[i];
                let after = #[trigger] r@[i];
                let rows = rows_of(results@, before.id->0);
                &&& after.id == before.id
                &&& after.startstamp == before.startstamp
                &&& after.endstamp == before.endstamp
                &&& after.status == before.status
                &&& after.success_count == before.success_count
                &&& after.failed_count == before.failed_count
                &&& (rows.len() > 0 ==> (after.log_results matches Some(v) && v@ == rows))
                &&& (rows.len() == 0 ==> after.log_results is None)
            }),
{
    let mut r: Vec<Log> = Vec::new();
    let mut i: usize = 0;
    while i < logs.len()
        invariant
            i <= logs@.len(),
            r@.len() == i,
            forall|k: int| 0 <= k < logs@.len() ==> (#[trigger] logs@[k]).id is Some,
            forall|k: int|
                0 <= k < i ==> ({
                    let before = logs@[k];
                    let after = #[trigger] r@[k];
                    let rows = rows_of(results@, before.id->0);
                    &&& after.id == before.id
                    &&& after.startstamp == before.startstamp
                    &&& after.endstamp == before.endstamp
                    &&& after.status == before.status
                    &&& after.success_count == before.success_count
                    &&& after.failed_count == before.failed_count
                    &&& (rows.len() > 0 ==> (after.log_results matches Some(v) && v@ == rows))
                    &&& (rows.len() == 0 ==> after.log_results is None)
                }),
        decreases logs@.len() - i,
    {
        let l = &logs[i];
        let id = match l.id {
            Some(id) => id,
            None => 0,
        };
        let rows = rows_for(results, id);
        let log_results = if rows.len() > 0 {
            Some(rows)
        } else {
            None
        };
        r.push(
            Log {
                id: l.id,
                startstamp: l.startstamp.clone(),
                endstamp: l.endstamp.clone(),
                status: l.status.clone(),
                success_count: l.success_count,
                failed_count: l.failed_count,
                log_results,
            },
        );
        i = i + 1;
    }
    r
}

/// One outcome's line in the fallback block.
pub open spec fn result_line(r: LogResult) -> Seq<char> {
    "["@ + r.frequency@ + "] "@ + r.message@ + " | From: "@ + r.source@ + " -> "@ + r.target@
        + "\n"@
}

/// The outcome lines of the fallback block, in order.
pub open spec fn result_lines(rs: Seq<LogResult>) -> Seq<char>
    decreases rs.len(),
{
    if rs.len() == 0 {
        Seq::<char>::empty()
    } else {
        result_lines(rs.drop_last()) + result_line(rs.last())
    }
}

/// The self-describing block appended to the local fallback file when a
/// report cannot be persisted: status, counts, the persistence error, and
/// every outcome row.
pub open spec fn fallback_text(log: Log, results: Seq<LogResult>, error: Seq<char>) -> Seq<char> {
    "=== Cron job failed at "@ + log.endstamp@ + " ===\n"@ + "Status: "@ + log.status@ + "\n"@
        + "Success count: "@ + crate::digits::dec_digits(log.success_count as nat) + "\n"@
        + "Failed count: "@ + crate::digits::dec_digits(log.failed_count as nat) + "\n"@
        + "Error: "@ + error + "\n"@ + result_lines(results)
        + "----------------------------\n"@
}

/// Renders the fallback block for a report whose persistence failed; the
/// caller appends it to the local fallback file.
pub fn fallback_block(log: &Log, results: &Vec<LogResult>, error: &str) -> (r: String)
    ensures
        r@ == fallback_text(*log, results@, error@),
{
    let mut r = String::from_str("=== Cron job failed at ");
    r.append(log.endstamp.as_str());
    r.append(" ===\n");
    r.append("Status: ");
    r.append(log.status.as_str());
    r.append("\n");
    r.append("Success count: ");
    let sc = crate::digits::u16_to_string(log.success_count);
    r.append(sc.as_str());
    r.append("\n");
    r.append("Failed count: ");
    let fc = crate::digits::u16_to_string(log.failed_count);
    r.append(fc.as_str());
    r.append("\n");
    r.append("Error: ");
    r.append(error);
    r.append("\n");
    let ghost header = r@;
    let mut i: usize = 0;
    while i < results.len()
        invariant
            i <= results@.len(),
            r@ == header + result_lines(results@.take(i as int)),
        decreases results@.len() - i,
    {
        let res = &results[i];
        r.append("[");
        r.append(res.frequency.as_str());
        r.append("] ");
        r.append(res.message.as_str());
        r.append(" | From: ");
        r.append(res.source.as_str());
        r.append(" -> ");
        r.append(res.target.as_str());
        r.append("\n");
        i = i + 1;
        proof {
            assert(results@.take(i as int).drop_last() =~= results@.take(i as int - 1));
            assert(r@ =~= header + result_lines(results@.take(i as int)));
        }
    }
    r.append("----------------------------\n");
    proof {
        assert(results@.take(results@.len() as int) =~= results@);
        assert(r@ =~= fallback_text(*log, results@, error@));
    }
    r
}

} // verus!
