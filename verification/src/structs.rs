//! The data records shared by every component: backup jobs, per-frequency
//! statistics, run reports and their per-job outcome rows.

use vstd::prelude::*;
use vstd::string::StrSliceExecFns;
use vstd::string::StringExecFns;
use crate::digits::{dec_digits, dec_digits_padded, u16_to_string, u16_to_string_padded};
use crate::strutil::str_eq;

verus! {

/// The text of the active/inactive marker a table row shows.
pub open spec fn active_marker(active: u8) -> Seq<char> {
    if active == 1 {
        "✅"@
    } else {
        "❌"@
    }
}

/// The marker for one activity flag.
fn marker_of(active: u8) -> (r: String)
    ensures
        r@ == active_marker(active),
{
    if active == 1 {
        String::from_str("✅")
    } else {
        String::from_str("❌")
    }
}

/// One backup job. `frequency` holds one of the tokens `"realtime"`,
/// `"daily"` or `"weekly"`; `hour` and `day` only matter for the periodic
/// frequencies; `active` and `mirror` are stored as 0/1 flags.
#[derive(Debug)]
pub struct Job {
    pub id: Option<u16>,
    pub source: String,
    pub target: String,
    pub frequency: String,
    pub hour: u8,
    pub day: Option<String>,
    pub mirror: u8,
    pub active: u8,
}

impl Job {
    /// A drafted job of the given frequency: no id yet, empty paths,
    /// inactive.
    pub fn new(freq: String) -> (j: Job)
        ensures
            j.id is None,
            j.frequency == freq,
            j.source@ == Seq::<char>::empty(),
            j.target@ == Seq::<char>::empty(),
            j.hour == 0,
            j.day is None,
            j.mirror == 1,
            j.active == 0,
    {
        Job {
            id: None,
            source: String::new(),
            target: String::new(),
            frequency: freq,
            hour: 0,
            day: None,
            mirror: 1,
            active: 0,
        }
    }
}

impl Job {
    /// The cells of this job's table row: id, the two paths, then — for
    /// the periodic frequencies — the two-digit hour and, weekly only,
    /// the day (padded when it is a single byte), and last the activity
    /// marker.
    pub fn get_fields_data(&self) -> (r: Vec<String>)
        requires
            self.id is Some,
            crate::schedule::valid_frequency(self.frequency@),
        ensures
            self.frequency@ == "realtime"@ ==> ({
                &&& r@.len() == 4
                &&& r@[0]@ == dec_digits(self.id->0 as nat)
                &&& r@[1] == self.source
                &&& r@[2] == self.target
                &&& r@[3]@ == active_marker(self.active)
            }),
            self.frequency@ == "daily"@ ==> ({
                &&& r@.len() == 5
                &&& r@[0]@ == dec_digits(self.id->0 as nat)
                &&& r@[1] == self.source
                &&& r@[2] == self.target
                &&& r@[3]@ == dec_digits_padded(self.hour as nat)
                &&& r@[4]@ == active_marker(self.active)
            }),
            self.frequency@ == "weekly"@ ==> ({
                let day = match self.day {
                    Some(d) => d@,
                    None => Seq::<char>::empty(),
                };
                &&& r@.len() == 6
                &&& r@[0]@ == dec_digits(self.id->0 as nat)
                &&& r@[1] == self.source
                &&& r@[2] == self.target
                &&& r@[3]@ == dec_digits_padded(self.hour as nat)
                &&& r@[4]@ == (if vstd::utf8::encode_utf8(day).len() as usize == 1 {
                    seq!['0'] + day
                } else {
                    day
                })
                &&& r@[5]@ == active_marker(self.active)
            }),
    {
        proof {
            reveal_strlit("realtime");
            reveal_strlit("daily");
            reveal_strlit("weekly");
            assert("realtime"@.len() == 8 && "daily"@.len() == 5 && "weekly"@.len() == 6);
        }
        let id = match self.id {
            Some(id) => id,
            None => 0,
        };
        let mut r: Vec<String> = Vec::new();
        r.push(u16_to_string(id));
        r.push(self.source.clone());
        r.push(self.target.clone());
        if str_eq(self.frequency.as_str(), "realtime") {
            r.push(marker_of(self.active));
        } else {
            r.push(u16_to_string_padded(self.hour as u16));
            if str_eq(self.frequency.as_str(), "weekly") {
                let day = match &self.day {
                    Some(d) => d.clone(),
                    None => String::new(),
                };
                if day.as_str().len() == 1 {
                    let mut padded = String::from_str("0");
                    padded.append(day.as_str());
                    proof {
                        reveal_strlit("0");
                        assert(padded@ =~= seq!['0'] + (match self.day {
                            Some(d) => d@,
                            None => Seq::<char>::empty(),
                        }));
                    }
                    r.push(padded);
                } else {
                    r.push(day);
                }
            }
            r.push(marker_of(self.active));
        }
        r
    }
}

impl Clone for Job {
    /// A clone keeps every field.
    fn clone(&self) -> (res: Job)
        ensures
            res == *self,
    {
        Job {
            id: self.id,
            source: self.source.clone(),
            target: self.target.clone(),
            frequency: self.frequency.clone(),
            hour: self.hour,
            day: match &self.day {
                Some(d) => Some(d.clone()),
                None => None,
            },
            mirror: self.mirror,
            active: self.active,
        }
    }
}

/// Aggregate counters for the jobs of one frequency.
#[derive(Debug)]
pub struct Stat {
    pub name: String,
    pub count: u16,
    pub active_count: u16,
    pub inactive_count: u16,
}

impl Stat {
    /// An empty counter set carrying its display name.
    pub fn new(name: &str) -> (s: Stat)
        ensures
            s.name@ == name@,
            s.count == 0,
            s.active_count == 0,
            s.inactive_count == 0,
    {
        Stat { name: String::from_str(name), count: 0, active_count: 0, inactive_count: 0 }
    }
}

/// One run report: stamps, derived status and counts, and (optionally) the
/// outcome rows attached to it.
#[derive(Debug)]
pub struct Log {
    pub id: Option<u16>,
    pub startstamp: String,
    pub endstamp: String,
    pub status: String,
    pub success_count: u16,
    pub failed_count: u16,
    pub log_results: Option<Vec<LogResult>>,
}

impl Log {
    /// A fresh report opened at the given start stamp; status, counts and
    /// the end stamp are filled in when the run is finalized.
    pub fn new(startstamp: String) -> (l: Log)
        ensures
            l.id is None,
            l.startstamp == startstamp,
            l.endstamp@ == Seq::<char>::empty(),
            l.status@ == Seq::<char>::empty(),
            l.success_count == 0,
            l.failed_count == 0,
            l.log_results is None,
    {
        Log {
            id: None,
            startstamp,
            endstamp: String::new(),
            status: String::new(),
            success_count: 0,
            failed_count: 0,
            log_results: None,
        }
    }
}

/// One outcome row of a report: which frequency the attempt belonged to,
/// its message (`"OK"` or an error text) and the job's two paths.
#[derive(Debug)]
pub struct LogResult {
    pub log_id: Option<u16>,
    pub frequency: String,
    pub message: String,
    pub source: String,
    pub target: String,
}

impl LogResult {
    /// An outcome row not yet attached to a report.
    pub fn new(frequency: String, message: String, source: String, target: String) -> (r:
        LogResult)
        ensures
            r.log_id is None,
            r.frequency == frequency,
            r.message == message,
            r.source == source,
            r.target == target,
    {
        LogResult { log_id: None, frequency, message, source, target }
    }
}

impl Log {
    /// The cells of this report's journal row: id, the two stamps, the
    /// status and the two counts.
    pub fn get_fields_data(&self) -> (r: Vec<String>)
        requires
            self.id is Some,
        ensures
            r@.len() == 6,
            r@[0]@ == dec_digits(self.id->0 as nat),
            r@[1] == self.startstamp,
            r@[2] == self.endstamp,
            r@[3] == self.status,
            r@[4]@ == dec_digits(self.success_count as nat),
            r@[5]@ == dec_digits(self.failed_count as nat),
    {
        let id = match self.id {
            Some(id) => id,
            None => 0,
        };
        let mut r: Vec<String> = Vec::new();
        r.push(u16_to_string(id));
        r.push(self.startstamp.clone());
        r.push(self.endstamp.clone());
        r.push(self.status.clone());
        r.push(u16_to_string(self.success_count));
        r.push(u16_to_string(self.failed_count));
        r
    }
}

impl LogResult {
    /// The cells of this outcome's row: frequency, the two paths, and the
    /// message.
    pub fn get_fields_data(&self) -> (r: Vec<String>)
        ensures
            r@.len() == 4,
            r@[0] == self.frequency,
            r@[1] == self.source,
            r@[2] == self.target,
            r@[3] == self.message,
    {
        let mut r: Vec<String> = Vec::new();
        r.push(self.frequency.clone());
        r.push(self.source.clone());
        r.push(self.target.clone());
        r.push(self.message.clone());
        r
    }
}

impl Clone for LogResult {
    /// A clone keeps every field.
    fn clone(&self) -> (res: LogResult)
        ensures
            res == *self,
    {
        LogResult {
            log_id: self.log_id,
            frequency: self.frequency.clone(),
            message: self.message.clone(),
            source: self.source.clone(),
            target: self.target.clone(),
        }
    }
}

/// A copy of an outcome list, row for row.
pub fn clone_results(v: &Vec<LogResult>) -> (r: Vec<LogResult>)
    ensures
        r@ == v@,
{
    let mut r: Vec<LogResult> = Vec::new();
    let mut i: usize = 0;
    while i < v.len()
        invariant
            i <= v@.len(),
            r@ == v@.take(i as int),
        decreases v@.len() - i,
    {
        r.push(v[i].clone());
        i = i + 1;
        proof {
            assert(r@ =~= v@.take(i as int));
        }
    }
    proof {
        assert(v@.take(v@.len() as int) =~= v@);
    }
    r
}

impl Clone for Log {
    /// A clone keeps every field; the outcome rows are copied row for row.
    fn clone(&self) -> (res: Log)
        ensures
            res.id == self.id,
            res.startstamp == self.startstamp,
            res.endstamp == self.endstamp,
            res.status == self.status,
            res.success_count == self.success_count,
            res.failed_count == self.failed_count,
            (match (res.log_results, self.log_results) {
                (Some(a), Some(b)) => a@ == b@,
                (None, None) => true,
                _ => false,
            }),
    {
        let log_results = match &self.log_results {
            Some(v) => Some(clone_results(v)),
            None => None,
        };
        Log {
            id: self.id,
            startstamp: self.startstamp.clone(),
            endstamp: self.endstamp.clone(),
            status: self.status.clone(),
            success_count: self.success_count,
            failed_count: self.failed_count,
            log_results,
        }
    }
}

} // verus!
