use vstd::prelude::*;

use crate::progress::{ProgressEvent, FULL_PERCENT};

verus! {

/// Where a job stands. Moves only forward:
/// `Pending -> InProgress -> Completed | Failed`.
#[derive(Debug, Clone, Copy, PartialEq, Eq, Structural)]
pub enum JobState {
    Pending,
    InProgress,
    Completed,
    /// The download tool exited with this code.
    Failed { code: i32 },
}

impl JobState {
    pub open spec fn is_terminal(self) -> bool {
        self is Completed || self is Failed
    }
}

/// What the store knows of one download.
pub struct JobRecord {
    pub id: u64,
    pub title: String,
    pub url: String,
    /// Destination file, once known.
    pub filename: Option<String>,
    pub state: JobState,
    /// Last known progress in tenths of a percent.
    pub percent_tenths: u16,
    pub speed: Option<String>,
    pub eta_secs: Option<u64>,
    /// Time of the last change, as handed in by the caller.
    pub last_updated: u64,
}

fn copy_text(s: &Option<String>) -> (r: Option<String>)
    ensures
        r == *s,
{
    match s {
        Some(t) => Some(t.clone()),
        None => None,
    }
}

impl JobRecord {
    /// An equal record that owns its own strings.
    pub fn copy(&self) -> (r: JobRecord)
        ensures
            r == *self,
    {
        JobRecord {
            id: self.id,
            title: self.title.clone(),
            url: self.url.clone(),
            filename: copy_text(&self.filename),
            state: self.state,
            percent_tenths: self.percent_tenths,
            speed: copy_text(&self.speed),
            eta_secs: self.eta_secs,
            last_updated: self.last_updated,
        }
    }
}

/// A fresh record, as `register` creates it.
pub open spec fn new_record(id: u64, url: String, title: String, now: u64) -> JobRecord {
    JobRecord {
        id,
        title,
        url,
        filename: None,
        state: JobState::Pending,
        percent_tenths: 0,
        speed: None,
        eta_secs: None,
        last_updated: now,
    }
}

/// An update is dropped when the job is over, when it is malformed (a percentage
/// above 100) or when it would move the percentage back.
pub open spec fn update_is_dropped(rec: JobRecord, ev: ProgressEvent) -> bool {
    ||| rec.state.is_terminal()
    ||| (ev.percent_tenths matches Some(p) && (p > FULL_PERCENT || p < rec.percent_tenths))
}

/// The record after a progress update arrives.
pub open spec fn apply_update(rec: JobRecord, ev: ProgressEvent, now: u64) -> JobRecord {
    if update_is_dropped(rec, ev) {
        rec
    } else {
        JobRecord {
            state: JobState::InProgress,
            percent_tenths: match ev.percent_tenths {
                Some(p) => p,
                None => rec.percent_tenths,
            },
            speed: if ev.speed is Some { ev.speed } else { rec.speed },
            eta_secs: if ev.eta_secs is Some { ev.eta_secs } else { rec.eta_secs },
            last_updated: now,
            ..rec
        }
    }
}

/// The record after the job is reported complete.
pub open spec fn apply_complete(rec: JobRecord, now: u64) -> JobRecord {
    if rec.state.is_terminal() {
        rec
    } else {
        JobRecord {
            state: JobState::Completed,
            percent_tenths: FULL_PERCENT,
            eta_secs: None,
            last_updated: now,
            ..rec
        }
    }
}

/// The record after the job is reported failed with exit code `code`.
pub open spec fn apply_fail(rec: JobRecord, code: i32, now: u64) -> JobRecord {
    if rec.state.is_terminal() {
        rec
    } else {
        JobRecord { state: JobState::Failed { code }, eta_secs: None, last_updated: now, ..rec }
    }
}

/// The record after the updates of `evs` arrive in their order.
pub open spec fn apply_updates(rec: JobRecord, evs: Seq<ProgressEvent>, now: u64) -> JobRecord
    decreases evs.len(),
{
    if evs.len() == 0 {
        rec
    } else {
        apply_update(apply_updates(rec, evs.drop_last(), now), evs.last(), now)
    }
}

/// The largest percentage among the updates of `evs` that carry one, and `floor`
/// where it is larger.
pub open spec fn max_percent(floor: u16, evs: Seq<ProgressEvent>) -> u16
    decreases evs.len(),
{
    if evs.len() == 0 {
        floor
    } else {
        let m = max_percent(floor, evs.drop_last());
        match evs.last().percent_tenths {
            Some(p) if p > m => p,
            _ => m,
        }
    }
}

/// Each percentage of `evs` is within 0 to 100.
pub open spec fn percents_in_range(evs: Seq<ProgressEvent>) -> bool {
    forall|i: int|
        0 <= i < evs.len() ==> (#[trigger] evs[i].percent_tenths matches Some(p) ==> p
            <= FULL_PERCENT)
}

/// A record that the store may hold at position `i`.
pub open spec fn record_wf(rec: JobRecord, i: int) -> bool {
    &&& rec.id == i + 1
    &&& rec.percent_tenths <= FULL_PERCENT
    &&& rec.state is Pending ==> rec.percent_tenths == 0
    &&& rec.state is Completed ==> rec.percent_tenths == FULL_PERCENT
}

/// `max_percent` is the largest of `floor` and the percentages of `evs`: none
/// exceeds it, and it is `floor` or one of them. So it does not depend on the
/// order of `evs`.
pub proof fn lemma_max_percent(floor: u16, evs: Seq<ProgressEvent>)
    ensures
        floor <= max_percent(floor, evs),
        forall|i: int|
            0 <= i < evs.len() ==> (#[trigger] evs[i].percent_tenths matches Some(p) ==> p
                <= max_percent(floor, evs)),
        max_percent(floor, evs) == floor || exists|i: int|
            0 <= i < evs.len() && #[trigger] evs[i].percent_tenths == Some(max_percent(floor, evs)),
    decreases evs.len(),
{
    if evs.len() > 0 {
        let init = evs.drop_last();
        lemma_max_percent(floor, init);
        let m = max_percent(floor, init);
        assert forall|i: int| 0 <= i < evs.len() implies (#[trigger] evs[i].percent_tenths
            matches Some(p) ==> p <= max_percent(floor, evs)) by {
            if i < init.len() {
                assert(evs[i] == init[i]);
            }
        }
        if max_percent(floor, evs) != floor {
            if max_percent(floor, evs) == m {
                let j = choose|j: int|
                    0 <= j < init.len() && #[trigger] init[j].percent_tenths == Some(m);
                assert(evs[j] == init[j]);
            } else {
                assert(evs[evs.len() - 1].percent_tenths == Some(max_percent(floor, evs)));
            }
        }
    }
}

/// Whatever the order in which a job that is not finished receives well-formed
/// updates, its percentage afterwards is the largest one among them (or the one
/// it had, if that is larger), and it is not finished.
pub proof fn lemma_percent_is_max(rec: JobRecord, evs: Seq<ProgressEvent>, now: u64)
    requires
        !rec.state.is_terminal(),
        percents_in_range(evs),
    ensures
        apply_updates(rec, evs, now).percent_tenths == max_percent(rec.percent_tenths, evs),
        !apply_updates(rec, evs, now).state.is_terminal(),
    decreases evs.len(),
{
    lemma_max_percent(rec.percent_tenths, evs);
    if evs.len() > 0 {
        let init = evs.drop_last();
        assert(percents_in_range(init)) by {
            assert forall|i: int| 0 <= i < init.len() implies (#[trigger] init[i].percent_tenths
                matches Some(p) ==> p <= FULL_PERCENT) by {
                assert(init[i] == evs[i]);
            }
        }
        lemma_percent_is_max(rec, init, now);
        assert(evs.last() == evs[evs.len() - 1]);
    }
}

/// Once a job is completed or failed, no update, completion or failure changes
/// its record.
pub proof fn lemma_terminal_is_final(
    rec: JobRecord,
    ev: ProgressEvent,
    evs: Seq<ProgressEvent>,
    code: i32,
    now: u64,
)
    requires
        rec.state.is_terminal(),
    ensures
        apply_update(rec, ev, now) == rec,
        apply_updates(rec, evs, now) == rec,
        apply_complete(rec, now) == rec,
        apply_fail(rec, code, now) == rec,
    decreases evs.len(),
{
    if evs.len() > 0 {
        lemma_terminal_is_final(rec, ev, evs.drop_last(), code, now);
    }
}

/// The store of every job registered since the service started, in order of
/// registration. The job at position `i` has the id `i + 1`.
pub struct Aggregator {
    jobs: Vec<JobRecord>,
}

/// A point-in-time copy of every record, in order of registration.
pub type Snapshot = Vec<JobRecord>;

impl View for Aggregator {
    type V = Seq<JobRecord>;

    closed spec fn view(&self) -> Seq<JobRecord> {
        self.jobs@
    }
}

impl Aggregator {
    pub open spec fn wf(&self) -> bool {
        &&& self@.len() < u64::MAX
        &&& forall|i: int| 0 <= i < self@.len() ==> record_wf(#[trigger] self@[i], i)
    }

    /// The position of the job `id` in the store, if it was registered.
    pub open spec fn index_of(&self, id: u64) -> Option<int> {
        if 1 <= id <= self@.len() {
            Some(id - 1)
        } else {
            None
        }
    }

    /// An empty store.
    pub fn new() -> (r: Aggregator)
        ensures
            r.wf(),
            r@ == Seq::<JobRecord>::empty(),
    {
        Aggregator { jobs: Vec::new() }
    }

    /// Creates a `Pending` record for a download of `url` and returns its id, which
    /// no earlier job has.
    pub fn register(&mut self, url: String, title_hint: String, now: u64) -> (id: u64)
        requires
            old(self).wf(),
            old(self)@.len() + 1 < u64::MAX,
        ensures
            final(self).wf(),
            id == old(self)@.len() + 1,
            final(self)@ == old(self)@.push(new_record(id, url, title_hint, now)),
            forall|i: int| 0 <= i < old(self)@.len() ==> #[trigger] old(self)@[i].id != id,
    {
        let id = self.jobs.len() as u64 + 1;
        let rec = JobRecord {
            id,
            title: title_hint,
            url,
            filename: None,
            state: JobState::Pending,
            percent_tenths: 0,
            speed: None,
            eta_secs: None,
            last_updated: now,
        };
        self.jobs.push(rec);
        proof {
            assert forall|i: int| 0 <= i < self@.len() implies record_wf(#[trigger] self@[i], i) by {
                if i < old(self)@.len() {
                    assert(self@[i] == old(self)@[i]);
                }
            }
        }
        id
    }
    /// Applies a progress update to the job `id`. Updates for unknown or finished
    /// jobs, malformed ones and those that would move the percentage back are
    /// dropped.
    pub fn update(&mut self, id: u64, event: ProgressEvent, now: u64)
        requires
            old(self).wf(),
        ensures
            final(self).wf(),
            match old(self).index_of(id) {
                Some(i) => final(self)@ == old(self)@.update(i, apply_update(old(self)@[i], event, now)),
                None => final(self)@ == old(self)@,
            },
    {
        if id == 0 || id > self.jobs.len() as u64 {
            return;
        }
        let idx = (id - 1) as usize;
        let ghost before = self@;
        let dropped = match self.jobs[idx].state {
            JobState::Completed | JobState::Failed { .. } => true,
            _ => match event.percent_tenths {
                Some(p) => p > FULL_PERCENT || p < self.jobs[idx].percent_tenths,
                None => false,
            },
        };
        if dropped {
            return;
        }
        let rec = &mut self.jobs[idx];
        rec.state = JobState::InProgress;
        if let Some(p) = event.percent_tenths {
            rec.percent_tenths = p;
        }
        if event.speed.is_some() {
            rec.speed = event.speed;
        }
        if event.eta_secs.is_some() {
            rec.eta_secs = event.eta_secs;
        }
        rec.last_updated = now;
        proof {
            assert(self@[idx as int] == apply_update(before[idx as int], event, now));
            assert forall|i: int| 0 <= i < self@.len() implies record_wf(#[trigger] self@[i], i) by {
                if i != idx {
                    assert(self@[i] == before[i]);
                }
            }
            assert(self@ =~= before.update(idx as int, apply_update(before[idx as int], event, now)));
        }
    }

    /// Marks the job `id` complete at 100%. Unknown and finished jobs are left
    /// as they are.
    pub fn complete(&mut self, id: u64, now: u64)
        requires
            old(self).wf(),
        ensures
            final(self).wf(),
            match old(self).index_of(id) {
                Some(i) => final(self)@ == old(self)@.update(i, apply_complete(old(self)@[i], now)),
                None => final(self)@ == old(self)@,
            },
    {
        if id == 0 || id > self.jobs.len() as u64 {
            return;
        }
        let idx = (id - 1) as usize;
        let ghost before = self@;
        match self.jobs[idx].state {
            JobState::Completed | JobState::Failed { .. } => {
                return;
            },
            _ => {},
        }
        let rec = &mut self.jobs[idx];
        rec.state = JobState::Completed;
        rec.percent_tenths = FULL_PERCENT;
        rec.eta_secs = None;
        rec.last_updated = now;
        proof {
            assert forall|i: int| 0 <= i < self@.len() implies record_wf(#[trigger] self@[i], i) by {
                if i != idx {
                    assert(self@[i] == before[i]);
                }
            }
            assert(self@ =~= before.update(idx as int, apply_complete(before[idx as int], now)));
        }
    }

    /// Marks the job `id` failed with the exit code `code`. Unknown and finished
    /// jobs are left as they are.
    pub fn fail(&mut self, id: u64, code: i32, now: u64)
        requires
            old(self).wf(),
        ensures
            final(self).wf(),
            match old(self).index_of(id) {
                Some(i) => final(self)@ == old(self)@.update(i, apply_fail(old(self)@[i], code, now)),
                None => final(self)@ == old(self)@,
            },
    {
        if id == 0 || id > self.jobs.len() as u64 {
            return;
        }
        let idx = (id - 1) as usize;
        let ghost before = self@;
        match self.jobs[idx].state {
            JobState::Completed | JobState::Failed { .. } => {
                return;
            },
            _ => {},
        }
        let rec = &mut self.jobs[idx];
        rec.state = JobState::Failed { code };
        rec.eta_secs = None;
        rec.last_updated = now;
        proof {
            assert forall|i: int| 0 <= i < self@.len() implies record_wf(#[trigger] self@[i], i) by {
                if i != idx {
                    assert(self@[i] == before[i]);
                }
            }
            assert(self@ =~= before.update(idx as int, apply_fail(before[idx as int], code, now)));
        }
    }
    /// A copy of every record, in order of registration. The copy shares nothing
    /// with the store.
    pub fn query(&self) -> (snapshot: Snapshot)
        ensures
            snapshot@ == self@,
    {
        let mut snapshot: Vec<JobRecord> = Vec::new();
        let mut i: usize = 0;
        while i < self.jobs.len()
            invariant
                i <= self@.len(),
                snapshot@ == self@.subrange(0, i as int),
            decreases self@.len() - i,
        {
            snapshot.push(self.jobs[i].copy());
            i += 1;
            assert(snapshot@ =~= self@.subrange(0, i as int));
        }
        assert(self@.subrange(0, self@.len() as int) =~= self@);
        snapshot
    }
}

/// No two jobs of a well-formed store share an id, however many were
/// registered.
pub proof fn lemma_ids_are_unique(agg: Aggregator)
    requires
        agg.wf(),
    ensures
        forall|i: int, j: int|
            0 <= i < j < agg@.len() ==> #[trigger] agg@[i].id != #[trigger] agg@[j].id,
{
    assert forall|i: int, j: int| 0 <= i < j < agg@.len() implies #[trigger] agg@[i].id
        != #[trigger] agg@[j].id by {
        assert(record_wf(agg@[i], i));
        assert(record_wf(agg@[j], j));
    }
}

/// A message to the store, from a worker or a client.
pub enum Message {
    Register { url: String, title_hint: String },
    Update { job_id: u64, event: ProgressEvent },
    Complete { job_id: u64 },
    Fail { job_id: u64, code: i32 },
    Query,
}

/// The store's answer to a message.
pub enum Reply {
    /// The id of a newly registered job.
    Registered(u64),
    /// The store holds as many jobs as it can; the job was not registered.
    Full,
    /// A notification was handled; it has no answer.
    Done,
    Snapshot(Snapshot),
}

/// The records after the message `msg` arrives at time `now`.
pub open spec fn after_message(jobs: Seq<JobRecord>, msg: Message, now: u64) -> Seq<JobRecord> {
    let pos = |id: u64| (id - 1) as int;
    let known = |id: u64| 1 <= id <= jobs.len();
    match msg {
        Message::Register { url, title_hint } => if jobs.len() + 1 < u64::MAX {
            jobs.push(new_record((jobs.len() + 1) as u64, url, title_hint, now))
        } else {
            jobs
        },
        Message::Update { job_id, event } => if known(job_id) {
            jobs.update(pos(job_id), apply_update(jobs[pos(job_id)], event, now))
        } else {
            jobs
        },
        Message::Complete { job_id } => if known(job_id) {
            jobs.update(pos(job_id), apply_complete(jobs[pos(job_id)], now))
        } else {
            jobs
        },
        Message::Fail { job_id, code } => if known(job_id) {
            jobs.update(pos(job_id), apply_fail(jobs[pos(job_id)], code, now))
        } else {
            jobs
        },
        Message::Query => jobs,
    }
}

/// The records after the messages of `msgs` arrive in their order at time `now`.
pub open spec fn after_messages(jobs: Seq<JobRecord>, msgs: Seq<Message>, now: u64) -> Seq<
    JobRecord,
>
    decreases msgs.len(),
{
    if msgs.len() == 0 {
        jobs
    } else {
        after_message(after_messages(jobs, msgs.drop_last(), now), msgs.last(), now)
    }
}

/// Once the job at position `i` is completed or failed, no sequence of messages
/// changes its record; earlier jobs keep their positions.
pub proof fn lemma_finished_job_is_kept(
    jobs: Seq<JobRecord>,
    msgs: Seq<Message>,
    now: u64,
    i: int,
)
    requires
        0 <= i < jobs.len(),
        jobs[i].state.is_terminal(),
    ensures
        i < after_messages(jobs, msgs, now).len(),
        after_messages(jobs, msgs, now)[i] == jobs[i],
    decreases msgs.len(),
{
    if msgs.len() > 0 {
        lemma_finished_job_is_kept(jobs, msgs.drop_last(), now, i);
        let mid = after_messages(jobs, msgs.drop_last(), now);
        let ev = ProgressEvent { percent_tenths: None, speed: None, eta_secs: None };
        lemma_terminal_is_final(mid[i], ev, seq![], 0, now);
        match msgs.last() {
            Message::Update { job_id, event } => {
                lemma_terminal_is_final(mid[i], event, seq![], 0, now);
            },
            Message::Fail { job_id, code } => {
                lemma_terminal_is_final(mid[i], ev, seq![], code, now);
            },
            _ => {},
        }
    }
}

impl Aggregator {
    /// Handles one message at time `now`.
    pub fn handle(&mut self, msg: Message, now: u64) -> (reply: Reply)
        requires
            old(self).wf(),
        ensures
            final(self).wf(),
            final(self)@ == after_message(old(self)@, msg, now),
            match msg {
                Message::Register { .. } => if old(self)@.len() + 1 < u64::MAX {
                    reply == Reply::Registered((old(self)@.len() + 1) as u64)
                } else {
                    reply is Full
                },
                Message::Query => match reply {
                    Reply::Snapshot(snap) => snap@ == old(self)@,
                    _ => false,
                },
                _ => reply is Done,
            },
    {
        match msg {
            Message::Register { url, title_hint } => {
                if self.jobs.len() as u64 >= u64::MAX - 1 {
                    Reply::Full
                } else {
                    Reply::Registered(self.register(url, title_hint, now))
                }
            },
            Message::Update { job_id, event } => {
                self.update(job_id, event, now);
                Reply::Done
            },
            Message::Complete { job_id } => {
                self.complete(job_id, now);
                Reply::Done
            },
            Message::Fail { job_id, code } => {
                self.fail(job_id, code, now);
                Reply::Done
            },
            Message::Query => Reply::Snapshot(self.query()),
        }
    }
}

} // verus!
