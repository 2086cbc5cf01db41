//! The read-side helpers of the job manager: per-frequency statistics,
//! and the search filters over jobs and run reports.

use vstd::prelude::*;
use vstd::string::StrSliceExecFns;
use vstd::string::StringExecFns;
use crate::digits::{dec_digits, u16_to_string};
use crate::seqs::{derefed, lemma_derefed, lemma_take_all, lemma_take_filter_step};
use crate::structs::{Job, Log, Stat};
use crate::strutil::{contains_seq, lower_of, str_contains, to_lowercase, to_uppercase, upper_of};
use crate::ui::Filter;

verus! {

/// The first character uppercased, the rest lowercased.
pub fn capitalise(s: &str) -> (r: String)
    requires
        s@.len() > 0,
    ensures
        r@ == upper_of(s@.take(1)) + lower_of(s@.skip(1)),
{
    let n = s.unicode_len();
    let first = s.substring_char(0, 1);
    let rest = s.substring_char(1, n);
    let mut r = to_uppercase(first);
    let low = to_lowercase(rest);
    r.append(low.as_str());
    proof {
        assert(first@ =~= s@.take(1));
        assert(rest@ =~= s@.skip(1));
    }
    r
}

/// The statistics of one frequency's job list: how many jobs, and how
/// many of them are active and inactive.
pub fn get_stats(name: &str, jobs: &Vec<Job>) -> (s: Stat)
    requires
        jobs@.len() <= u16::MAX,
    ensures
        s.name@ == name@,
        s.count == jobs@.len(),
        s.active_count == jobs@.filter(|j: Job| j.active == 1).len(),
        s.inactive_count == jobs@.filter(|j: Job| j.active != 1).len(),
{
    let ghost act = |j: Job| j.active == 1;
    let ghost inact = |j: Job| j.active != 1;
    let mut active_count: u16 = 0;
    let mut inactive_count: u16 = 0;
    let mut i: usize = 0;
    while i < jobs.len()
        invariant
            i <= jobs@.len(),
            jobs@.len() <= u16::MAX,
            active_count == jobs@.take(i as int).filter(act).len(),
            inactive_count == jobs@.take(i as int).filter(inact).len(),
            active_count + inactive_count == i,
            act == (|j: Job| j.active == 1),
            inact == (|j: Job| j.active != 1),
        decreases jobs@.len() - i,
    {
        proof {
            lemma_take_filter_step(jobs@, act, i as int);
            lemma_take_filter_step(jobs@, inact, i as int);
        }
        if jobs[i].active == 1 {
            active_count = active_count + 1;
        } else {
            inactive_count = inactive_count + 1;
        }
        i = i + 1;
    }
    proof {
        lemma_take_all(jobs@);
    }
    Stat {
        name: String::from_str(name),
        count: jobs.len() as u16,
        active_count,
        inactive_count,
    }
}

/// The search rule on one job: its source, its target (case folded) or
/// its id's decimal text contains the search term.
pub open spec fn job_matches(j: Job, term: Seq<char>) -> bool {
    contains_seq(lower_of(j.source@), term) || contains_seq(lower_of(j.target@), term) || (
    j.id matches Some(id) && contains_seq(dec_digits(id as nat), term))
}

/// The activity rule of the table filter.
pub open spec fn filter_keeps(f: Filter, j: Job) -> bool {
    match f {
        Filter::All => true,
        Filter::Active => j.active == 1,
        Filter::Inactive => j.active == 0,
    }
}

/// The jobs a table shows: all of them while the search field is empty,
/// otherwise those matching the search term and the activity filter.
pub fn get_active_jobs<'a>(search_term: &str, filter: &Filter, jobs: &'a Vec<Job>) -> (r: Vec<
    &'a Job,
>)
    ensures
        search_term@.len() == 0 ==> derefed(r@) == jobs@,
        search_term@.len() > 0 ==> derefed(r@) == jobs@.filter(
            |j: Job| job_matches(j, search_term@) && filter_keeps(*filter, j),
        ),
{
    let ghost pred = |j: Job| job_matches(j, search_term@) && filter_keeps(*filter, j);
    let mut r: Vec<&'a Job> = Vec::new();
    if search_term.is_empty() {
        let mut i: usize = 0;
        while i < jobs.len()
            invariant
                i <= jobs@.len(),
                derefed(r@) == jobs@.take(i as int),
            decreases jobs@.len() - i,
        {
            let ghost prev = r@;
            r.push(&jobs[i]);
            proof {
                lemma_derefed(prev);
                lemma_derefed(r@);
                assert(derefed(r@) =~= jobs@.take(i + 1));
            }
            i = i + 1;
        }
        proof {
            lemma_take_all(jobs@);
        }
        return r;
    }
    let mut i: usize = 0;
    while i < jobs.len()
        invariant
            i <= jobs@.len(),
            derefed(r@) == jobs@.take(i as int).filter(pred),
            pred == (|j: Job| job_matches(j, search_term@) && filter_keeps(*filter, j)),
        decreases jobs@.len() - i,
    {
        proof {
            lemma_take_filter_step(jobs@, pred, i as int);
        }
        proof {
            lemma_derefed(r@);
        }
        let ghost before = derefed(r@);
        let j = &jobs[i];
        let low_source = to_lowercase(j.source.as_str());
        let low_target = to_lowercase(j.target.as_str());
        let id_matches = match j.id {
            Some(id) => {
                let id_text = u16_to_string(id);
                str_contains(id_text.as_str(), search_term)
            },
            None => false,
        };
        let found = str_contains(low_source.as_str(), search_term) || str_contains(
            low_target.as_str(),
            search_term,
        ) || id_matches;
        let keeps = match filter {
            Filter::All => true,
            Filter::Active => j.active == 1,
            Filter::Inactive => j.active == 0,
        };
        if found && keeps {
            let ghost prev = r@;
            r.push(j);
            proof {
                lemma_derefed(prev);
                lemma_derefed(r@);
                assert(derefed(r@) =~= before.push(jobs@[i as int]));
            }
        }
        i = i + 1;
    }
    proof {
        lemma_take_all(jobs@);
    }
    r
}

/// The search rule on one report row: a stamp, the status (case folded),
/// a count or the id contains the search term.
pub open spec fn log_matches(l: Log, term: Seq<char>) -> bool {
    contains_seq(lower_of(l.startstamp@), term) || contains_seq(lower_of(l.endstamp@), term)
        || contains_seq(lower_of(l.status@), term) || contains_seq(
        dec_digits(l.success_count as nat),
        term,
    ) || contains_seq(dec_digits(l.failed_count as nat), term) || (l.id matches Some(id)
        && contains_seq(dec_digits(id as nat), term))
}

/// The reports the journal shows: all of them while the search field is
/// empty, otherwise those matching the search term.
pub fn get_active_logs<'a>(search_term: &str, logs: &'a Vec<Log>) -> (r: Vec<&'a Log>)
    ensures
        search_term@.len() == 0 ==> derefed(r@) == logs@,
        search_term@.len() > 0 ==> derefed(r@) == logs@.filter(
            |l: Log| log_matches(l, search_term@),
        ),
{
    let ghost pred = |l: Log| log_matches(l, search_term@);
    let mut r: Vec<&'a Log> = Vec::new();
    if search_term.is_empty() {
        let mut i: usize = 0;
        while i < logs.len()
            invariant
                i <= logs@.len(),
                derefed(r@) == logs@.take(i as int),
            decreases logs@.len() - i,
        {
            let ghost prev = r@;
            r.push(&logs[i]);
            proof {
                lemma_derefed(prev);
                lemma_derefed(r@);
                assert(derefed(r@) =~= logs@.take(i + 1));
            }
            i = i + 1;
        }
        proof {
            lemma_take_all(logs@);
        }
        return r;
    }
    let mut i: usize = 0;
    while i < logs.len()
        invariant
            i <= logs@.len(),
            derefed(r@) == logs@.take(i as int).filter(pred),
            pred == (|l: Log| log_matches(l, search_term@)),
        decreases logs@.len() - i,
    {
        proof {
            lemma_take_filter_step(logs@, pred, i as int);
        }
        proof {
            lemma_derefed(r@);
        }
        let ghost before = derefed(r@);
        let l = &logs[i];
        let low_start = to_lowercase(l.startstamp.as_str());
        let low_end = to_lowercase(l.endstamp.as_str());
        let low_status = to_lowercase(l.status.as_str());
        let success_text = u16_to_string(l.success_count);
        let failed_text = u16_to_string(l.failed_count);
        let id_matches = match l.id {
            Some(id) => {
                let id_text = u16_to_string(id);
                str_contains(id_text.as_str(), search_term)
            },
            None => false,
        };
        let found = str_contains(low_start.as_str(), search_term) || str_contains(
            low_end.as_str(),
            search_term,
        ) || str_contains(low_status.as_str(), search_term) || str_contains(
            success_text.as_str(),
            search_term,
        ) || str_contains(failed_text.as_str(), search_term) || id_matches;
        if found {
            let ghost prev = r@;
            r.push(l);
            proof {
                lemma_derefed(prev);
                lemma_derefed(r@);
                assert(derefed(r@) =~= before.push(logs@[i as int]));
            }
        }
        i = i + 1;
    }
    proof {
        lemma_take_all(logs@);
    }
    r
}

} // verus!
