//! The watch manager's decision core: which jobs ought to be watched,
//! full-set reconciliation of the watched ids against the desired ids,
//! and the translation of one filesystem event into one sync action.

use vstd::prelude::*;
use vstd::string::StrSliceExecFns;
use vstd::string::StringExecFns;
use crate::seqs::{lemma_take_all, lemma_take_filter_step};
use crate::structs::Job;
use crate::strutil::str_eq;

verus! {

/// No id occurs twice.
pub open spec fn distinct_ids(s: Seq<u16>) -> bool {
    forall|i: int, j: int| 0 <= i < j < s.len() ==> s[i] != s[j]
}

/// Whether one id occurs in a vector of ids.
fn contains_id(v: &Vec<u16>, x: u16) -> (r: bool)
    ensures
        r == v@.contains(x),
{
    let mut i: usize = 0;
    while i < v.len()
        invariant
            i <= v@.len(),
            forall|k: int| 0 <= k < i ==> v@[k] != x,
        decreases v@.len() - i,
    {
        if v[i] == x {
            return true;
        }
        i = i + 1;
    }
    false
}

/// The ids that ought to be watched: one per active realtime job that
/// has been persisted (has an id), in the order the jobs come.
pub open spec fn realtime_watch_ids(jobs: Seq<Job>) -> Seq<u16>
    decreases jobs.len(),
{
    if jobs.len() == 0 {
        Seq::empty()
    } else {
        let rest = realtime_watch_ids(jobs.drop_last());
        let j = jobs.last();
        if j.active == 1 && j.frequency@ == "realtime"@ && j.id is Some {
            rest.push(j.id->0)
        } else {
            rest
        }
    }
}

/// No two persisted jobs share an id.
pub open spec fn distinct_job_ids(jobs: Seq<Job>) -> bool {
    forall|i: int, j: int|
        0 <= i < j < jobs.len() && (#[trigger] jobs[i]).id is Some && (#[trigger] jobs[j]).id
            is Some ==> jobs[i].id != jobs[j].id
}

/// Each id of the desired watch set is the id of some job in the list.
proof fn lemma_watch_ids_from_jobs(jobs: Seq<Job>)
    ensures
        forall|m: int|
            0 <= m < realtime_watch_ids(jobs).len() ==> exists|k: int|
                0 <= k < jobs.len() && (#[trigger] jobs[k]).id == Some(
                    #[trigger] realtime_watch_ids(jobs)[m],
                ),
    decreases jobs.len(),
{
    if jobs.len() > 0 {
        let d = jobs.drop_last();
        lemma_watch_ids_from_jobs(d);
        let ids = realtime_watch_ids(jobs);
        let rest = realtime_watch_ids(d);
        assert forall|m: int| #![trigger ids[m]] 0 <= m < ids.len() implies exists|k: int|
            0 <= k < jobs.len() && (#[trigger] jobs[k]).id == Some(ids[m]) by {
            let j = jobs.last();
            let picked = j.active == 1 && j.frequency@ == "realtime"@ && j.id is Some;
            if picked && m == ids.len() - 1 {
                assert(jobs[jobs.len() - 1].id == Some(ids[m]));
            } else {
                assert(ids[m] == rest[m]);
                let k = choose|k: int| 0 <= k < d.len() && (#[trigger] d[k]).id == Some(rest[m]);
                assert(jobs[k].id == Some(ids[m]));
            }
        }
    }
}

/// With distinct job ids, the desired watch set holds no id twice.
pub proof fn lemma_watch_ids_distinct(jobs: Seq<Job>)
    requires
        distinct_job_ids(jobs),
    ensures
        distinct_ids(realtime_watch_ids(jobs)),
    decreases jobs.len(),
{
    if jobs.len() > 0 {
        let d = jobs.drop_last();
        assert(forall|i: int| 0 <= i < d.len() ==> #[trigger] d[i] == jobs[i]);
        assert(distinct_job_ids(d));
        lemma_watch_ids_distinct(d);
        let j = jobs.last();
        let ids = realtime_watch_ids(jobs);
        let rest = realtime_watch_ids(d);
        if j.active == 1 && j.frequency@ == "realtime"@ && j.id is Some {
            lemma_watch_ids_from_jobs(d);
            assert forall|m: int| 0 <= m < rest.len() implies rest[m] != j.id->0 by {
                let k = choose|k: int| 0 <= k < d.len() && (#[trigger] d[k]).id == Some(rest[m]);
                assert(jobs[k].id == Some(rest[m]));
                assert(jobs[jobs.len() - 1].id == j.id);
            }
            assert forall|a: int, b: int| 0 <= a < b < ids.len() implies ids[a] != ids[b] by {
                if b == ids.len() - 1 {
                    assert(ids[a] == rest[a]);
                } else {
                    assert(ids[a] == rest[a] && ids[b] == rest[b]);
                }
            }
        }
    }
}

/// The ids of the active realtime jobs among `jobs`: the desired watch
/// set, before path validation. With distinct job ids — the repository
/// keys them — the set holds no id twice, as `reconcile` asks.
pub fn desired_watch_ids(jobs: &Vec<Job>) -> (r: Vec<u16>)
    ensures
        r@ == realtime_watch_ids(jobs@),
        distinct_job_ids(jobs@) ==> distinct_ids(r@),
{
    let mut r: Vec<u16> = Vec::new();
    let mut i: usize = 0;
    while i < jobs.len()
        invariant
            i <= jobs@.len(),
            r@ == realtime_watch_ids(jobs@.take(i as int)),
        decreases jobs@.len() - i,
    {
        let j = &jobs[i];
        if j.active == 1 && str_eq(j.frequency.as_str(), "realtime") {
            match j.id {
                Some(id) => r.push(id),
                None => (),
            }
        }
        i = i + 1;
        proof {
            assert(jobs@.take(i as int).drop_last() =~= jobs@.take(i as int - 1));
        }
    }
    proof {
        lemma_take_all(jobs@);
        if distinct_job_ids(jobs@) {
            lemma_watch_ids_distinct(jobs@);
        }
    }
    r
}

/// The watch manager's model: the ids of the jobs currently watched. The
/// OS watch handles and worker threads that realize a watch are owned by
/// the runtime around this core, keyed by these ids.
pub struct WatchManager {
    pub watched: Vec<u16>,
}

impl WatchManager {
    /// The manager never watches one job twice.
    pub open spec fn wf(self) -> bool {
        distinct_ids(self.watched@)
    }

    /// A manager watching nothing.
    pub fn new() -> (m: WatchManager)
        ensures
            m.wf(),
            m.watched@ == Seq::<u16>::empty(),
    {
        WatchManager { watched: Vec::new() }
    }

    /// Full-set reconciliation: afterwards exactly the desired ids are
    /// watched. Returns the ids to tear down (watched but no longer
    /// desired) and the ids to start (desired but not yet watched), each
    /// in its original order.
    pub fn reconcile(&mut self, desired: &Vec<u16>) -> (changes: (Vec<u16>, Vec<u16>))
        requires
            distinct_ids(desired@),
        ensures
            final(self).wf(),
            final(self).watched@ == desired@,
            changes.0@ == old(self).watched@.filter(|id: u16| !desired@.contains(id)),
            changes.1@ == desired@.filter(|id: u16| !old(self).watched@.contains(id)),
    {
        let ghost stop_pred = |id: u16| !desired@.contains(id);
        let ghost start_pred = |id: u16| !old(self).watched@.contains(id);
        let mut to_stop: Vec<u16> = Vec::new();
        let mut to_start: Vec<u16> = Vec::new();
        let mut i: usize = 0;
        while i < self.watched.len()
            invariant
                i <= self.watched@.len(),
                self.watched@ == old(self).watched@,
                to_stop@ == self.watched@.take(i as int).filter(stop_pred),
                stop_pred == (|id: u16| !desired@.contains(id)),
            decreases self.watched@.len() - i,
        {
            proof {
                lemma_take_filter_step(self.watched@, stop_pred, i as int);
            }
            let id = self.watched[i];
            if !contains_id(desired, id) {
                to_stop.push(id);
            }
            i = i + 1;
        }
        let mut k: usize = 0;
        while k < desired.len()
            invariant
                k <= desired@.len(),
                self.watched@ == old(self).watched@,
                to_start@ == desired@.take(k as int).filter(start_pred),
                start_pred == (|id: u16| !old(self).watched@.contains(id)),
            decreases desired@.len() - k,
        {
            proof {
                lemma_take_filter_step(desired@, start_pred, k as int);
            }
            let id = desired[k];
            if !contains_id(&self.watched, id) {
                to_start.push(id);
            }
            k = k + 1;
        }
        proof {
            lemma_take_all(self.watched@);
            lemma_take_all(desired@);
        }
        let new_watched = desired.clone();
        proof {
            assert(new_watched@ =~= desired@);
        }
        self.watched = new_watched;
        (to_stop, to_start)
    }
}

impl WatchManager {
    /// Forgets one id whose OS watch could not be registered, so that
    /// the next reconciliation offers it again; nothing else changes.
    pub fn drop_watch(&mut self, id: u16)
        ensures
            final(self).watched@ == old(self).watched@.filter(|x: u16| x != id),
            old(self).wf() ==> final(self).wf(),
    {
        let ghost pred = |x: u16| x != id;
        let mut kept: Vec<u16> = Vec::new();
        let mut i: usize = 0;
        while i < self.watched.len()
            invariant
                i <= self.watched@.len(),
                self.watched@ == old(self).watched@,
                kept@ == self.watched@.take(i as int).filter(pred),
                pred == (|x: u16| x != id),
            decreases self.watched@.len() - i,
        {
            proof {
                lemma_take_filter_step(self.watched@, pred, i as int);
            }
            let x = self.watched[i];
            if x != id {
                kept.push(x);
            }
            i = i + 1;
        }
        proof {
            lemma_take_all(self.watched@);
            if old(self).wf() {
                crate::seqs::lemma_filter_keeps_distinct(old(self).watched@, pred);
            }
        }
        self.watched = kept;
    }
}

/// The kinds of filesystem change the watcher reacts to, as plain values.
#[derive(Debug, Clone, Copy, PartialEq, Eq, Structural)]
pub enum FsChange {
    CreatedFile,
    CreatedDir,
    DataModified,
    RenamedIn,
    RenamedOut,
    Other,
}

/// What one event asks of the sync engine.
#[derive(Debug, Clone, Copy, PartialEq, Eq, Structural)]
pub enum SyncAction {
    CopyPath,
    DeleteTarget,
    Ignore,
}

/// The translation rule: creations, data modifications and renames into
/// the tree trigger a copy of the changed path; a rename out of the tree
/// deletes the corresponding target path; everything else is ignored.
pub open spec fn action_of(k: FsChange) -> SyncAction {
    match k {
        FsChange::CreatedFile => SyncAction::CopyPath,
        FsChange::CreatedDir => SyncAction::CopyPath,
        FsChange::DataModified => SyncAction::CopyPath,
        FsChange::RenamedIn => SyncAction::CopyPath,
        FsChange::RenamedOut => SyncAction::DeleteTarget,
        FsChange::Other => SyncAction::Ignore,
    }
}

/// Maps one event kind to the single action it triggers.
pub fn classify_event(kind: &FsChange) -> (a: SyncAction)
    ensures
        a == action_of(*kind),
{
    match kind {
        FsChange::CreatedFile => SyncAction::CopyPath,
        FsChange::CreatedDir => SyncAction::CopyPath,
        FsChange::DataModified => SyncAction::CopyPath,
        FsChange::RenamedIn => SyncAction::CopyPath,
        FsChange::RenamedOut => SyncAction::DeleteTarget,
        FsChange::Other => SyncAction::Ignore,
    }
}

/// The target path for an event path under the watched source tree: the
/// source prefix replaced by the target, with no doubled separator.
pub open spec fn translated_path(event_path: Seq<char>, source: Seq<char>, target: Seq<char>) -> Seq<
    char,
> {
    let rel = event_path.skip(source.len() as int);
    if rel.len() == 0 {
        target
    } else if rel[0] == '/' {
        target + rel
    } else {
        target + seq!['/'] + rel
    }
}

/// Scopes one event to the target tree: strips the watched source prefix
/// from the event path and grafts the remainder onto the target path.
pub fn target_sub_path(event_path: &str, source: &str, target: &str) -> (r: String)
    requires
        source@.len() <= event_path@.len(),
        event_path@.take(source@.len() as int) == source@,
    ensures
        r@ == translated_path(event_path@, source@, target@),
{
    let n = event_path.unicode_len();
    let m = source.unicode_len();
    let rel = event_path.substring_char(m, n);
    if rel.unicode_len() == 0 {
        String::from_str(target)
    } else if rel.get_char(0) == '/' {
        let mut r = String::from_str(target);
        r.append(rel);
        r
    } else {
        let mut r = String::from_str(target);
        r.append("/");
        r.append(rel);
        proof {
            reveal_strlit("/");
            assert(r@ =~= target@ + seq!['/'] + event_path@.skip(source@.len() as int));
        }
        r
    }
}

} // verus!
