//! Selecting the jobs a run should touch: either the subset due at the
//! current day and hour, or the subset named by an explicit
//! frequency/activity filter, grouped by frequency.

use vstd::prelude::*;
use crate::seqs::{lemma_take_all, lemma_take_filter_step};
use crate::structs::Job;
use crate::strutil::str_eq;

verus! {

/// The three closed frequency tokens.
pub open spec fn valid_frequency(f: Seq<char>) -> bool {
    f == "realtime"@ || f == "daily"@ || f == "weekly"@
}

/// When a job is due at the given wall-clock day and hour: an active
/// daily job exactly when the hour matches, an active weekly job exactly
/// when both the day and the hour match, and nothing else.
pub open spec fn due_now(j: Job, day: Seq<char>, hour: u8) -> bool {
    j.active == 1 && ((j.frequency@ == "daily"@ && j.hour == hour) || (j.frequency@ == "weekly"@
        && (j.day matches Some(d) && d@ == day) && j.hour == hour))
}

/// Law: an active daily job is due exactly when the current hour equals
/// its hour; at any other hour it is excluded.
pub proof fn lemma_daily_due_iff(j: Job, day: Seq<char>, hour: u8)
    requires
        j.active == 1,
        j.frequency@ == "daily"@,
    ensures
        due_now(j, day, hour) <==> j.hour == hour,
{
    reveal_strlit("daily");
    reveal_strlit("weekly");
    assert("daily"@.len() == 5 && "weekly"@.len() == 6);
}

/// Law: an active weekly job is due exactly when its day and its hour
/// both match the clock; if either mismatches it is excluded.
pub proof fn lemma_weekly_due_iff(j: Job, day: Seq<char>, hour: u8)
    requires
        j.active == 1,
        j.frequency@ == "weekly"@,
    ensures
        due_now(j, day, hour) <==> ((j.day matches Some(d) && d@ == day) && j.hour == hour),
{
    reveal_strlit("daily");
    reveal_strlit("weekly");
    assert("daily"@.len() == 5 && "weekly"@.len() == 6);
}

/// Law: an inactive job is never due, and a realtime job is never due in
/// a batch run.
pub proof fn lemma_not_due(j: Job, day: Seq<char>, hour: u8)
    requires
        j.active != 1 || j.frequency@ == "realtime"@,
    ensures
        !due_now(j, day, hour),
{
    reveal_strlit("realtime");
    reveal_strlit("daily");
    reveal_strlit("weekly");
    assert("realtime"@.len() == 8 && "daily"@.len() == 5 && "weekly"@.len() == 6);
}

/// When a job is picked by an explicit frequency token (`"all"` or one
/// frequency) plus an optional activity token.
pub open spec fn selected_by_filter(j: Job, freq: Seq<char>, act: Option<Seq<char>>) -> bool {
    let freq_ok = freq == "all"@ || j.frequency@ == freq;
    let act_ok = match act {
        Some(a) => if a == "active"@ {
            j.active == 1
        } else if a == "inactive"@ {
            j.active == 0
        } else {
            true
        },
        None => true,
    };
    freq_ok && act_ok
}

/// The ghost image of the optional CLI filter arguments.
pub open spec fn args_view(args: Option<(String, Option<String>)>) -> Option<
    (Seq<char>, Option<Seq<char>>),
> {
    match args {
        None => None,
        Some((f, a)) => Some(
            (
                f@,
                match a {
                    Some(x) => Some(x@),
                    None => None,
                },
            ),
        ),
    }
}

/// Whether a job belongs to a run: with no filter, exactly the due jobs;
/// with a filter, exactly the jobs it names.
pub open spec fn selected(
    j: Job,
    args: Option<(Seq<char>, Option<Seq<char>>)>,
    day: Seq<char>,
    hour: u8,
) -> bool {
    match args {
        None => due_now(j, day, hour),
        Some((f, a)) => selected_by_filter(j, f, a),
    }
}

/// `selected`, restricted to one frequency group.
pub open spec fn picked(
    j: Job,
    args: Option<(Seq<char>, Option<Seq<char>>)>,
    day: Seq<char>,
    hour: u8,
    freq: Seq<char>,
) -> bool {
    selected(j, args, day, hour) && j.frequency@ == freq
}

/// The jobs of one run, grouped by their frequency.
pub struct JobsByFrequency {
    pub realtime: Vec<Job>,
    pub daily: Vec<Job>,
    pub weekly: Vec<Job>,
}

/// Whether the job is due or filter-selected, as one executable test.
fn is_selected(j: &Job, args: &Option<(String, Option<String>)>, day: &str, hour: u8) -> (r:
    bool)
    ensures
        r == selected(
            *j,
            args_view(*args),
            day@,
            hour,
        ),
{
    match args {
        None => {
            let day_matches = match &j.day {
                Some(d) => str_eq(d.as_str(), day),
                None => false,
            };
            j.active == 1 && ((str_eq(j.frequency.as_str(), "daily") && j.hour == hour) || (
            str_eq(j.frequency.as_str(), "weekly") && day_matches && j.hour == hour))
        },
        Some((f, a)) => {
            let freq_ok = str_eq(f.as_str(), "all") || str_eq(j.frequency.as_str(), f.as_str());
            let act_ok = match a {
                Some(x) => {
                    if str_eq(x.as_str(), "active") {
                        j.active == 1
                    } else if str_eq(x.as_str(), "inactive") {
                        j.active == 0
                    } else {
                        true
                    }
                },
                None => true,
            };
            freq_ok && act_ok
        },
    }
}

/// The jobs the run should touch, grouped by frequency. With `args`
/// `None` this is the due-now subset: active daily jobs whose hour equals
/// `hour`, and active weekly jobs whose day and hour both match. With a
/// filter it is the named subset. Order within each group is kept.
pub fn get_jobs_to_run(
    jobs: &Vec<Job>,
    args: &Option<(String, Option<String>)>,
    day: &String,
    hour: u8,
) -> (r: JobsByFrequency)
    requires
        forall|i: int|
            0 <= i < jobs@.len() ==> valid_frequency(#[trigger] jobs@[i].frequency@),
    ensures
        r.realtime@ == jobs@.filter(
            |j: Job| picked(j, args_view(*args), day@, hour, "realtime"@),
        ),
        r.daily@ == jobs@.filter(|j: Job| picked(j, args_view(*args), day@, hour, "daily"@)),
        r.weekly@ == jobs@.filter(|j: Job| picked(j, args_view(*args), day@, hour, "weekly"@)),
{
    let ghost rt_pred = |j: Job| picked(j, args_view(*args), day@, hour, "realtime"@);
    let ghost da_pred = |j: Job| picked(j, args_view(*args), day@, hour, "daily"@);
    let ghost we_pred = |j: Job| picked(j, args_view(*args), day@, hour, "weekly"@);
    let mut realtime: Vec<Job> = Vec::new();
    let mut daily: Vec<Job> = Vec::new();
    let mut weekly: Vec<Job> = Vec::new();
    let mut i: usize = 0;
    while i < jobs.len()
        invariant
            i <= jobs@.len(),
            forall|k: int|
                0 <= k < jobs@.len() ==> valid_frequency(#[trigger] jobs@[k].frequency@),
            realtime@ == jobs@.take(i as int).filter(rt_pred),
            daily@ == jobs@.take(i as int).filter(da_pred),
            weekly@ == jobs@.take(i as int).filter(we_pred),
            rt_pred == (|j: Job| picked(j, args_view(*args), day@, hour, "realtime"@)),
            da_pred == (|j: Job| picked(j, args_view(*args), day@, hour, "daily"@)),
            we_pred == (|j: Job| picked(j, args_view(*args), day@, hour, "weekly"@)),
        decreases jobs@.len() - i,
    {
        let j = &jobs[i];
        proof {
            lemma_take_filter_step(jobs@, rt_pred, i as int);
            lemma_take_filter_step(jobs@, da_pred, i as int);
            lemma_take_filter_step(jobs@, we_pred, i as int);
            // The three tokens have pairwise different lengths.
            reveal_strlit("realtime");
            reveal_strlit("daily");
            reveal_strlit("weekly");
            assert("realtime"@.len() == 8 && "daily"@.len() == 5 && "weekly"@.len() == 6);
            assert(valid_frequency(jobs@[i as int].frequency@));
        }
        if is_selected(j, args, day.as_str(), hour) {
            if str_eq(j.frequency.as_str(), "realtime") {
                realtime.push(j.clone());
            } else if str_eq(j.frequency.as_str(), "daily") {
                daily.push(j.clone());
            } else {
                weekly.push(j.clone());
            }
        }
        i = i + 1;
    }
    proof {
        lemma_take_all(jobs@);
    }
    JobsByFrequency { realtime, daily, weekly }
}

} // verus!
