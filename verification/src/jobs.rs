//! Download jobs and the registry that keeps their latest state and the
//! channels through which running jobs are told to stop.
use vstd::prelude::*;
use crate::text::str_eq;

verus! {

/// A download the user asked for.
#[derive(Debug)]
pub struct DownloadJob {
    pub id: String,
    pub url: String,
    pub title: String,
    pub format_id: String,
    pub output_dir: String,
    pub thumbnail: Option<String>,
}

/// Where a job stands. While running, `speed_bits` and `eta_bits` are the
/// bit patterns of the `f64` speed (bytes per second) and time left
/// (seconds) that yt-dlp reported.
#[derive(Debug)]
pub enum JobStatus {
    Queued,
    Running { downloaded: u64, total: u64, speed_bits: u64, eta_bits: u64 },
    Done { path: String },
    Error { message: String },
    Cancelled,
}

/// The latest state of a job; times are seconds since the Unix epoch.
#[derive(Debug)]
pub struct JobState {
    pub job: DownloadJob,
    pub status: JobStatus,
    pub started_at: u64,
    pub ended_at: Option<u64>,
}

/// An equal copy of an optional string.
pub(crate) fn copy_opt_string(o: &Option<String>) -> (r: Option<String>)
    ensures
        r == *o,
{
    match o {
        Some(s) => Some(s.clone()),
        None => None,
    }
}

impl DownloadJob {
    /// An equal copy.
    pub fn duplicate(&self) -> (r: Self)
        ensures
            r == *self,
    {
        DownloadJob {
            id: self.id.clone(),
            url: self.url.clone(),
            title: self.title.clone(),
            format_id: self.format_id.clone(),
            output_dir: self.output_dir.clone(),
            thumbnail: copy_opt_string(&self.thumbnail),
        }
    }
}

impl JobStatus {
    /// An equal copy.
    pub fn duplicate(&self) -> (r: Self)
        ensures
            r == *self,
    {
        match self {
            JobStatus::Queued => JobStatus::Queued,
            JobStatus::Running { downloaded, total, speed_bits, eta_bits } => JobStatus::Running {
                downloaded: *downloaded,
                total: *total,
                speed_bits: *speed_bits,
                eta_bits: *eta_bits,
            },
            JobStatus::Done { path } => JobStatus::Done { path: path.clone() },
            JobStatus::Error { message } => JobStatus::Error { message: message.clone() },
            JobStatus::Cancelled => JobStatus::Cancelled,
        }
    }

    /// The job is still waiting or downloading.
    pub open spec fn active(self) -> bool {
        self is Queued || self is Running
    }

    /// Waiting and downloading jobs are active; done, failed and cancelled
    /// ones are not.
    pub proof fn lemma_active(self)
        ensures
            self.active() <==> (self is Queued || self is Running),
            self is Done || self is Error || self is Cancelled ==> !self.active(),
    {
    }

    /// Whether the job is still waiting or downloading.
    pub fn is_active(&self) -> (r: bool)
        ensures
            r == self.active(),
    {
        match self {
            JobStatus::Queued => true,
            JobStatus::Running { .. } => true,
            _ => false,
        }
    }
}

impl JobState {
    /// An equal copy.
    pub fn duplicate(&self) -> (r: Self)
        ensures
            r == *self,
    {
        JobState {
            job: self.job.duplicate(),
            status: self.status.duplicate(),
            started_at: self.started_at,
            ended_at: self.ended_at,
        }
    }
}

#[verifier::external_type_specification]
#[verifier::external_body]
pub struct ExSystemTime(std::time::SystemTime);

/// Calls `std::time::SystemTime::now`; the clock's reading is not claimed.
#[verifier::external_body]
fn system_now() -> std::time::SystemTime {
    std::time::SystemTime::now()
}

/// Calls `SystemTime::duration_since` with `UNIX_EPOCH`: the time since the
/// epoch, `None` for a time before it. Nothing more is claimed.
#[verifier::external_body]
fn since_epoch(t: std::time::SystemTime) -> Option<std::time::Duration> {
    t.duration_since(std::time::UNIX_EPOCH).ok()
}

/// Calls `Duration::as_secs`: the whole seconds of a span. The span is
/// opaque here, so nothing is claimed of the number.
#[verifier::external_body]
fn whole_secs(d: std::time::Duration) -> u64 {
    d.as_secs()
}

/// The seconds to report for a clock reading that lies `since` whole
/// seconds after the Unix epoch (`None` for a reading before it): those
/// seconds, or 0.
pub fn secs_or_zero(since: Option<u64>) -> (r: u64)
    ensures
        r == match since {
            Some(s) => s,
            None => 0,
        },
{
    match since {
        Some(s) => s,
        None => 0,
    }
}

/// Seconds since the Unix epoch by the system clock, or 0 when the clock is
/// set before the epoch (see `secs_or_zero`). The clock's reading is not
/// specified.
pub fn now_secs() -> u64 {
    let since = match since_epoch(system_now()) {
        Some(d) => Some(whole_secs(d)),
        None => None,
    };
    secs_or_zero(since)
}

/// The id of the job a state belongs to.
pub open spec fn state_id(s: JobState) -> Seq<char> {
    s.job.id@
}

/// No two states in `s` belong to the same job.
pub open spec fn distinct_jobs(s: Seq<JobState>) -> bool {
    forall|i: int, j: int| 0 <= i < j < s.len() ==> state_id(s[i]) != state_id(s[j])
}

/// Some state in `s` belongs to job `id`.
pub open spec fn has_job(s: Seq<JobState>, id: Seq<char>) -> bool {
    exists|i: int| 0 <= i < s.len() && state_id(#[trigger] s[i]) == id
}

/// The position in `s` of the state of job `id`.
pub open spec fn job_index(s: Seq<JobState>, id: Seq<char>) -> int {
    choose|i: int| 0 <= i < s.len() && state_id(#[trigger] s[i]) == id
}

/// The state of job `id` in `s`, if there is one.
pub open spec fn lookup(s: Seq<JobState>, id: Seq<char>) -> Option<JobState> {
    if has_job(s, id) {
        Some(s[job_index(s, id)])
    } else {
        None
    }
}

/// `s` with `st` as the state of its job: replaced in place, or added last.
pub open spec fn upserted(s: Seq<JobState>, st: JobState) -> Seq<JobState> {
    if has_job(s, state_id(st)) {
        s.update(job_index(s, state_id(st)), st)
    } else {
        s.push(st)
    }
}

/// In a list without repeated jobs, the state at position `i` is the state
/// found for its job.
pub proof fn lemma_lookup_at(s: Seq<JobState>, i: int)
    requires
        distinct_jobs(s),
        0 <= i < s.len(),
    ensures
        has_job(s, state_id(s[i])),
        job_index(s, state_id(s[i])) == i,
        lookup(s, state_id(s[i])) == Some(s[i]),
{
    let id = state_id(s[i]);
    assert(has_job(s, id));
    let k = job_index(s, id);
    if k != i {
        assert(state_id(s[k]) == state_id(s[i]));
    }
}

/// Reading back a write: after recording `st`, its job's state is `st`;
/// every other job keeps its state; and no job occurs twice.
pub proof fn lemma_upsert_lookup(s: Seq<JobState>, st: JobState, other: Seq<char>)
    requires
        distinct_jobs(s),
    ensures
        distinct_jobs(upserted(s, st)),
        lookup(upserted(s, st), state_id(st)) == Some(st),
        other != state_id(st) ==> lookup(upserted(s, st), other) == lookup(s, other),
{
    let id = state_id(st);
    let u = upserted(s, st);
    let p = if has_job(s, id) { job_index(s, id) } else { s.len() as int };
    assert(distinct_jobs(u)) by {
        assert forall|a: int, b: int| 0 <= a < b < u.len() implies state_id(u[a]) != state_id(u[b]) by {
            if a == p {
                assert(state_id(s[b]) != state_id(s[p]));
            } else if b == p {
                if p < s.len() {
                    assert(state_id(s[a]) != state_id(s[p]));
                } else {
                    assert(u[a] == s[a]);
                    if state_id(s[a]) == id {
                        assert(has_job(s, id));
                    }
                }
            } else {
                assert(u[a] == s[a] && u[b] == s[b]);
            }
        }
    }
    assert(u[p] == st);
    lemma_lookup_at(u, p);
    if other != id {
        if has_job(s, other) {
            let k = job_index(s, other);
            assert(k != p);
            assert(u[k] == s[k]);
            lemma_lookup_at(u, k);
        } else {
            if has_job(u, other) {
                let k = job_index(u, other);
                assert(k != p);
                assert(u[k] == s[k]);
                assert(has_job(s, other));
            }
        }
    }
}

/// The last write wins: recording two states of one job leaves the list as
/// recording only the second would.
pub proof fn lemma_upsert_last_wins(s: Seq<JobState>, first: JobState, second: JobState)
    requires
        distinct_jobs(s),
        state_id(first) == state_id(second),
    ensures
        upserted(upserted(s, first), second) == upserted(s, second),
{
    let id = state_id(first);
    let u = upserted(s, first);
    lemma_upsert_lookup(s, first, id);
    let p = if has_job(s, id) { job_index(s, id) } else { s.len() as int };
    assert(u[p] == first);
    lemma_lookup_at(u, p);
    assert(upserted(u, second) =~= upserted(s, second));
}

/// Clearing the history keeps exactly the jobs still waiting or running,
/// with their states, and clearing twice is clearing once.
pub proof fn lemma_clear_finished(s: Seq<JobState>, id: Seq<char>)
    requires
        distinct_jobs(s),
    ensures
        distinct_jobs(s.filter(state_active())),
        forall|i: int| 0 <= i < s.filter(state_active()).len() ==> (
            #[trigger] s.filter(state_active())[i]).status.active(),
        lookup(s.filter(state_active()), id) == match lookup(s, id) {
            Some(st) => if st.status.active() {
                Some(st)
            } else {
                None
            },
            None => None,
        },
        s.filter(state_active()).filter(state_active()) == s.filter(state_active()),
    decreases s.len(),
{
    broadcast use vstd::seq_lib::group_filter_ensures;
    let f = s.filter(state_active());
    assert forall|i: int| 0 <= i < f.len() implies (#[trigger] f[i]).status.active() by {
        s.lemma_filter_pred(state_active(), i);
    }
    if s.len() == 0 {
        reveal(Seq::filter);
        assert(f =~= s);
        assert(f.filter(state_active()) =~= f);
        return;
    }
    let t = s.drop_last();
    let x = s.last();
    assert(distinct_jobs(t)) by {
        assert forall|a: int, b: int| 0 <= a < b < t.len() implies state_id(t[a]) != state_id(t[b]) by {
            assert(t[a] == s[a] && t[b] == s[b]);
        }
    }
    lemma_clear_finished(t, id);
    lemma_clear_finished(t, state_id(x));
    let g = t.filter(state_active());
    assert(s =~= t.push(x));
    t.lemma_filter_push(x, state_active());
    lemma_lookup_at(s, s.len() - 1);
    assert(!has_job(t, state_id(x))) by {
        if has_job(t, state_id(x)) {
            let k = job_index(t, state_id(x));
            assert(t[k] == s[k]);
        }
    }
    assert(lookup(g, state_id(x)) is None);
    assert(!has_job(g, state_id(x)));
    if x.status.active() {
        assert(f =~= g.push(x));
        assert(distinct_jobs(f)) by {
            assert forall|a: int, b: int| 0 <= a < b < f.len() implies state_id(f[a]) != state_id(f[b]) by {
                if b == g.len() {
                    assert(f[a] == g[a]);
                    if state_id(g[a]) == state_id(x) {
                        assert(has_job(g, state_id(x)));
                    }
                } else {
                    assert(f[a] == g[a] && f[b] == g[b]);
                }
            }
        }
        g.lemma_filter_push(x, state_active());
        assert(f.filter(state_active()) =~= f);
        lemma_lookup_at(f, g.len() as int);
        if id != state_id(x) {
            if has_job(t, id) {
                let k = job_index(t, id);
                assert(s[k] == t[k]);
                lemma_lookup_at(s, k);
            } else if has_job(s, id) {
                let k = job_index(s, id);
                assert(k != s.len() - 1);
                assert(t[k] == s[k]);
            }
            if has_job(g, id) {
                let k = job_index(g, id);
                assert(f[k] == g[k]);
                lemma_lookup_at(f, k);
                lemma_lookup_at(g, k);
            } else if has_job(f, id) {
                let k = job_index(f, id);
                assert(k != g.len());
                assert(g[k] == f[k]);
            }
        }
    } else {
        assert(f =~= g);
        if id != state_id(x) {
            if has_job(t, id) {
                let k = job_index(t, id);
                assert(s[k] == t[k]);
                lemma_lookup_at(s, k);
            } else if has_job(s, id) {
                let k = job_index(s, id);
                assert(k != s.len() - 1);
                assert(t[k] == s[k]);
            }
        }
    }
}

/// No id occurs twice in `s`.
pub open spec fn distinct_ids(s: Seq<Seq<char>>) -> bool {
    forall|i: int, j: int| 0 <= i < j < s.len() ==> s[i] != s[j]
}

/// The ids in the cancel table.
pub open spec fn cancel_ids(c: Seq<(String, tokio::sync::oneshot::Sender<()>)>) -> Seq<Seq<char>> {
    c.map_values(|p: (String, tokio::sync::oneshot::Sender<()>)| p.0@)
}

/// The position in the cancel table `c` of the entry of job `id`.
pub open spec fn sender_index(c: Seq<(String, tokio::sync::oneshot::Sender<()>)>, id: Seq<char>) -> int {
    choose|i: int| 0 <= i < c.len() && c[i].0@ == id
}

/// The stop channels of the cancel table `c`, by job id.
pub open spec fn senders(c: Seq<(String, tokio::sync::oneshot::Sender<()>)>) -> Map<Seq<char>, tokio::sync::oneshot::Sender<()>> {
    Map::new(|k: Seq<char>| cancel_ids(c).contains(k), |k: Seq<char>| c[sender_index(c, k)].1)
}

/// In a cancel table without repeated ids, the entry at position `i` holds
/// the stop channel kept for its job.
pub proof fn lemma_sender_at(c: Seq<(String, tokio::sync::oneshot::Sender<()>)>, i: int)
    requires
        distinct_ids(cancel_ids(c)),
        0 <= i < c.len(),
    ensures
        sender_index(c, c[i].0@) == i,
        senders(c).dom().contains(c[i].0@),
        senders(c)[c[i].0@] == c[i].1,
{
    let id = c[i].0@;
    assert(cancel_ids(c)[i] == id);
    assert(cancel_ids(c).contains(id));
    let k = sender_index(c, id);
    if k != i {
        assert(cancel_ids(c)[k] == c[k].0@);
    }
}

/// An id that the cancel table `c` holds sits at some position of it.
proof fn lemma_sender_of(c: Seq<(String, tokio::sync::oneshot::Sender<()>)>, id: Seq<char>) -> (i: int)
    requires
        cancel_ids(c).contains(id),
    ensures
        0 <= i < c.len(),
        c[i].0@ == id,
{
    let j = choose|j: int| 0 <= j < cancel_ids(c).len() && cancel_ids(c)[j] == id;
    assert(cancel_ids(c)[j] == c[j].0@);
    j
}

/// `state.status` is still waiting or downloading.
pub open spec fn state_active() -> spec_fn(JobState) -> bool {
    |s: JobState| s.status.active()
}

#[verifier::external_type_specification]
#[verifier::external_body]
#[verifier::reject_recursive_types(T)]
pub struct ExOneshotSender<T>(tokio::sync::oneshot::Sender<T>);

/// Calls `tokio::sync::oneshot::Sender::send` with `()`, waking the task
/// that waits on the matching receiver. Whether that task still listened is
/// not reported, as the registry does not use it.
#[verifier::external_body]
fn send_stop(tx: tokio::sync::oneshot::Sender<()>) {
    let _ = tx.send(());
}

/// The latest state of every job, and a stop channel for each running one.
pub struct JobRegistry {
    jobs: Vec<JobState>,
    cancel: Vec<(String, tokio::sync::oneshot::Sender<()>)>,
}

impl JobRegistry {
    #[verifier::type_invariant]
    spec fn well_formed(&self) -> bool {
        distinct_jobs(self.jobs@) && distinct_ids(cancel_ids(self.cancel@))
    }

    /// The job states, one per job, in the order the jobs were first seen.
    pub closed spec fn states(&self) -> Seq<JobState> {
        self.jobs@
    }

    /// The ids of the jobs that can be told to stop.
    pub closed spec fn stoppable(&self) -> Set<Seq<char>> {
        cancel_ids(self.cancel@).to_set()
    }

    /// The stop channel kept for each job that can be told to stop.
    pub closed spec fn cancel_map(&self) -> Map<Seq<char>, tokio::sync::oneshot::Sender<()>> {
        senders(self.cancel@)
    }

    /// The jobs that can be told to stop are those with a stop channel kept.
    pub proof fn lemma_stoppable_are_kept(&self)
        ensures
            self.stoppable() == self.cancel_map().dom(),
    {
        assert(self.stoppable() =~= self.cancel_map().dom());
    }

    /// An empty registry.
    pub fn new() -> (r: Self)
        ensures
            r.states() == Seq::<JobState>::empty(),
            distinct_jobs(r.states()),
            r.stoppable() == Set::<Seq<char>>::empty(),
            r.cancel_map() == Map::<Seq<char>, tokio::sync::oneshot::Sender<()>>::empty(),
    {
        let r = JobRegistry { jobs: Vec::new(), cancel: Vec::new() };
        assert(cancel_ids(r.cancel@) =~= Seq::<Seq<char>>::empty());
        assert(r.stoppable() =~= Set::<Seq<char>>::empty());
        assert(r.cancel_map() =~= Map::<Seq<char>, tokio::sync::oneshot::Sender<()>>::empty());
        r
    }

    /// Copies of all job states.
    pub fn list(&self) -> (r: Vec<JobState>)
        ensures
            r@ == self.states(),
            distinct_jobs(r@),
    {
        proof {
            use_type_invariant(self);
        }
        let mut r: Vec<JobState> = Vec::new();
        let n = self.jobs.len();
        let mut i: usize = 0;
        while i < n
            invariant
                n == self.jobs@.len(),
                i <= n,
                r@ == self.jobs@.take(i as int),
            decreases n - i,
        {
            r.push(self.jobs[i].duplicate());
            assert(r@ =~= self.jobs@.take(i + 1));
            i += 1;
        }
        assert(self.jobs@.take(n as int) =~= self.jobs@);
        r
    }

    /// Where the state of job `id` is kept, if anywhere.
    fn position(&self, id: &str) -> (r: Option<usize>)
        ensures
            r is Some <==> has_job(self.jobs@, id@),
            r matches Some(i) ==> i < self.jobs@.len() && state_id(self.jobs@[i as int]) == id@,
    {
        let n = self.jobs.len();
        let mut i: usize = 0;
        while i < n
            invariant
                n == self.jobs@.len(),
                i <= n,
                forall|j: int| 0 <= j < i ==> state_id(#[trigger] self.jobs@[j]) != id@,
            decreases n - i,
        {
            if str_eq(self.jobs[i].job.id.as_str(), id) {
                return Some(i);
            }
            i += 1;
        }
        None
    }

    /// Records `state` as the latest state of its job: it replaces the job's
    /// earlier state, or joins the end of the list for a new job.
    pub fn upsert(&mut self, state: JobState)
        ensures
            final(self).states() == upserted(old(self).states(), state),
            final(self).stoppable() == old(self).stoppable(),
            final(self).cancel_map() == old(self).cancel_map(),
            distinct_jobs(final(self).states()),
    {
        proof {
            use_type_invariant(&*self);
        }
        let ghost old_jobs = self.jobs@;
        match self.position(state.job.id.as_str()) {
            Some(i) => {
                let ghost k = job_index(old_jobs, state_id(state));
                assert(k == i as int) by {
                    if k != i as int {
                        assert(state_id(old_jobs[k]) == state_id(old_jobs[i as int]));
                    }
                }
                let mut jobs = Vec::new();
                std::mem::swap(&mut jobs, &mut self.jobs);
                jobs.set(i, state);
                assert(distinct_jobs(jobs@)) by {
                    assert forall|a: int, b: int| 0 <= a < b < jobs@.len() implies state_id(jobs@[a]) != state_id(jobs@[b]) by {
                        if a == i as int {
                            assert(state_id(old_jobs[b]) != state_id(old_jobs[a]));
                        } else if b == i as int {
                            assert(state_id(old_jobs[b]) != state_id(old_jobs[a]));
                        } else {
                            assert(jobs@[a] == old_jobs[a] && jobs@[b] == old_jobs[b]);
                        }
                    }
                }
                self.jobs = jobs;
            },
            None => {
                let mut jobs = Vec::new();
                std::mem::swap(&mut jobs, &mut self.jobs);
                jobs.push(state);
                assert(distinct_jobs(jobs@)) by {
                    assert forall|a: int, b: int| 0 <= a < b < jobs@.len() implies state_id(jobs@[a]) != state_id(jobs@[b]) by {
                        if b == old_jobs.len() {
                            assert(jobs@[a] == old_jobs[a]);
                        } else {
                            assert(jobs@[a] == old_jobs[a] && jobs@[b] == old_jobs[b]);
                        }
                    }
                }
                self.jobs = jobs;
            },
        }
    }

    /// Where the stop channel of job `id` is kept, if anywhere.
    fn cancel_position(&self, id: &str) -> (r: Option<usize>)
        ensures
            r is Some <==> cancel_ids(self.cancel@).contains(id@),
            r matches Some(i) ==> i < self.cancel@.len() && self.cancel@[i as int].0@ == id@,
    {
        let n = self.cancel.len();
        let mut i: usize = 0;
        while i < n
            invariant
                n == self.cancel@.len(),
                i <= n,
                forall|j: int| 0 <= j < i ==> (#[trigger] self.cancel@[j]).0@ != id@,
            decreases n - i,
        {
            if str_eq(self.cancel[i].0.as_str(), id) {
                assert(cancel_ids(self.cancel@)[i as int] == id@);
                return Some(i);
            }
            i += 1;
        }
        assert forall|j: int| 0 <= j < cancel_ids(self.cancel@).len() implies cancel_ids(self.cancel@)[j] != id@ by {
            assert(cancel_ids(self.cancel@)[j] == self.cancel@[j].0@);
        }
        None
    }

    /// Keeps `tx` as the stop channel of job `id`, in place of any earlier one.
    pub fn register_cancel(&mut self, id: &str, tx: tokio::sync::oneshot::Sender<()>)
        ensures
            final(self).stoppable() == old(self).stoppable().insert(id@),
            final(self).cancel_map() == old(self).cancel_map().insert(id@, tx),
            final(self).states() == old(self).states(),
            distinct_jobs(final(self).states()),
    {
        proof {
            use_type_invariant(&*self);
        }
        let ghost old_ids = cancel_ids(self.cancel@);
        let ghost old_c = self.cancel@;
        let pos = self.cancel_position(id);
        let mut cancel = Vec::new();
        std::mem::swap(&mut cancel, &mut self.cancel);
        match pos {
            Some(i) => {
                cancel.set(i, (id.to_owned(), tx));
                assert(cancel_ids(cancel@) =~= old_ids);
                assert(old_ids.contains(id@)) by {
                    assert(old_ids[i as int] == id@);
                }
                assert(old_ids.to_set().insert(id@) =~= old_ids.to_set());
                proof {
                    let ghost m = senders(cancel@);
                    let ghost want = senders(old_c).insert(id@, tx);
                    lemma_sender_at(cancel@, i as int);
                    assert(m.dom() =~= want.dom());
                    assert forall|k: Seq<char>| m.dom().contains(k) implies m[k] == want[k] by {
                        if k != id@ {
                            let j = lemma_sender_of(old_c, k);
                            assert(j != i);
                            assert(cancel@[j] == old_c[j]);
                            lemma_sender_at(old_c, j);
                            lemma_sender_at(cancel@, j);
                        }
                    }
                    assert(m =~= want);
                }
            },
            None => {
                cancel.push((id.to_owned(), tx));
                assert(cancel_ids(cancel@) =~= old_ids.push(id@));
                assert(distinct_ids(cancel_ids(cancel@))) by {
                    assert forall|a: int, b: int| 0 <= a < b < cancel_ids(cancel@).len() implies cancel_ids(cancel@)[a] != cancel_ids(cancel@)[b] by {
                        if b == old_ids.len() {
                            assert(cancel_ids(cancel@)[a] == old_ids[a]);
                        } else {
                            assert(cancel_ids(cancel@)[a] == old_ids[a]);
                            assert(cancel_ids(cancel@)[b] == old_ids[b]);
                        }
                    }
                }
                proof {
                    old_ids.lemma_push_to_set_commute(id@);
                    let ghost m = senders(cancel@);
                    let ghost want = senders(old_c).insert(id@, tx);
                    lemma_sender_at(cancel@, old_c.len() as int);
                    assert(m.dom() =~= want.dom());
                    assert forall|k: Seq<char>| m.dom().contains(k) implies m[k] == want[k] by {
                        if k != id@ {
                            let j = lemma_sender_of(old_c, k);
                            assert(cancel@[j] == old_c[j]);
                            lemma_sender_at(old_c, j);
                            lemma_sender_at(cancel@, j);
                        }
                    }
                    assert(m =~= want);
                }
            },
        }
        self.cancel = cancel;
    }

    /// Takes the stop channel of job `id` out of the table, if there is one.
    fn take_cancel(&mut self, id: &str) -> (r: Option<tokio::sync::oneshot::Sender<()>>)
        ensures
            r is Some <==> old(self).stoppable().contains(id@),
            r matches Some(tx) ==> tx == old(self).cancel_map()[id@],
            final(self).stoppable() == old(self).stoppable().remove(id@),
            final(self).cancel_map() == old(self).cancel_map().remove(id@),
            final(self).states() == old(self).states(),
            distinct_jobs(final(self).states()),
    {
        proof {
            use_type_invariant(&*self);
        }
        let ghost old_ids = cancel_ids(self.cancel@);
        let ghost old_c = self.cancel@;
        match self.cancel_position(id) {
            Some(i) => {
                let mut cancel = Vec::new();
                std::mem::swap(&mut cancel, &mut self.cancel);
                let (_, tx) = cancel.remove(i);
                let ghost new_ids = cancel_ids(cancel@);
                assert(new_ids =~= old_ids.remove(i as int));
                assert(distinct_ids(new_ids)) by {
                    assert forall|a: int, b: int| 0 <= a < b < new_ids.len() implies new_ids[a] != new_ids[b] by {
                        let a2 = if a < i { a } else { a + 1 };
                        let b2 = if b < i { b } else { b + 1 };
                        assert(new_ids[a] == old_ids[a2]);
                        assert(new_ids[b] == old_ids[b2]);
                    }
                }
                assert(old_ids[i as int] == id@);
                assert(new_ids.to_set() =~= old_ids.to_set().remove(id@)) by {
                    assert forall|x: Seq<char>| new_ids.to_set().contains(x) <==> old_ids.to_set().remove(id@).contains(x) by {
                        if new_ids.contains(x) {
                            let a = choose|a: int| 0 <= a < new_ids.len() && new_ids[a] == x;
                            let a2 = if a < i { a } else { a + 1 };
                            assert(new_ids[a] == old_ids[a2]);
                            assert(a2 != i);
                        }
                        if old_ids.contains(x) && x != id@ {
                            let a = choose|a: int| 0 <= a < old_ids.len() && old_ids[a] == x;
                            assert(a != i);
                            let a1 = if a < i { a } else { a - 1 };
                            assert(new_ids[a1] == x);
                        }
                    }
                }
                assert(old_ids.contains(id@));
                proof {
                    lemma_sender_at(old_c, i as int);
                    let ghost m = senders(cancel@);
                    let ghost want = senders(old_c).remove(id@);
                    assert(m.dom() =~= want.dom()) by {
                        assert forall|x: Seq<char>| m.dom().contains(x) <==> want.dom().contains(x) by {
                            assert(new_ids.to_set().contains(x) <==> new_ids.contains(x));
                            assert(old_ids.to_set().contains(x) <==> old_ids.contains(x));
                        }
                    }
                    assert forall|k: Seq<char>| m.dom().contains(k) implies m[k] == want[k] by {
                        let j = lemma_sender_of(old_c, k);
                        assert(j != i);
                        let j1 = if j < i { j } else { j - 1 };
                        assert(cancel@[j1] == old_c[j]);
                        lemma_sender_at(old_c, j);
                        lemma_sender_at(cancel@, j1);
                    }
                    assert(m =~= want);
                }
                self.cancel = cancel;
                Some(tx)
            },
            None => {
                assert(old_ids.to_set().remove(id@) =~= old_ids.to_set());
                assert(senders(old_c).remove(id@) =~= senders(old_c));
                None
            },
        }
    }

    /// Tells job `id` to stop, if it can be told: its stop channel is used
    /// and removed. Returns whether there was one.
    pub fn cancel(&mut self, id: &str) -> (r: bool)
        ensures
            r == old(self).stoppable().contains(id@),
            final(self).stoppable() == old(self).stoppable().remove(id@),
            final(self).cancel_map() == old(self).cancel_map().remove(id@),
            final(self).states() == old(self).states(),
            distinct_jobs(final(self).states()),
    {
        match self.take_cancel(id) {
            Some(tx) => {
                send_stop(tx);
                true
            },
            None => false,
        }
    }

    /// Forgets the stop channel of job `id` without using it.
    pub fn drop_cancel(&mut self, id: &str)
        ensures
            final(self).stoppable() == old(self).stoppable().remove(id@),
            final(self).cancel_map() == old(self).cancel_map().remove(id@),
            final(self).states() == old(self).states(),
            distinct_jobs(final(self).states()),
    {
        let _ = self.take_cancel(id);
    }

    /// Forgets every job that is done, failed or cancelled; waiting and
    /// running jobs stay, in their order.
    pub fn clear_finished(&mut self)
        ensures
            final(self).states() == old(self).states().filter(state_active()),
            final(self).stoppable() == old(self).stoppable(),
            final(self).cancel_map() == old(self).cancel_map(),
            distinct_jobs(final(self).states()),
    {
        proof {
            use_type_invariant(&*self);
        }
        let ghost orig = self.jobs@;
        let mut input = Vec::new();
        std::mem::swap(&mut input, &mut self.jobs);
        let n = input.len();
        let mut out: Vec<JobState> = Vec::new();
        let mut i: usize = 0;
        assert(orig.skip(0) =~= orig);
        assert(orig.take(0) =~= Seq::<JobState>::empty());
        reveal(Seq::filter);
        while i < n
            invariant
                n == orig.len(),
                i <= n,
                distinct_jobs(orig),
                input@ == orig.skip(i as int),
                out@ == orig.take(i as int).filter(state_active()),
                distinct_jobs(out@),
                forall|j: int| 0 <= j < out@.len() ==> exists|k: int| 0 <= k < i && #[trigger] out@[j] == orig[k],
            decreases n - i,
        {
            let x = input.remove(0);
            assert(x == orig[i as int]);
            assert(input@ =~= orig.skip(i + 1));
            assert(orig.take(i + 1) =~= orig.take(i as int).push(x));
            proof {
                orig.take(i as int).lemma_filter_push(x, state_active());
            }
            let ghost before = out@;
            if x.status.is_active() {
                out.push(x);
                assert forall|a: int, b: int| 0 <= a < b < out@.len() implies state_id(out@[a]) != state_id(out@[b]) by {
                    if b == before.len() {
                        let k = choose|k: int| 0 <= k < i && #[trigger] before[a] == orig[k];
                        assert(out@[a] == before[a]);
                    } else {
                        assert(out@[a] == before[a] && out@[b] == before[b]);
                    }
                }
                assert forall|j: int| 0 <= j < out@.len() implies exists|k: int| 0 <= k < i + 1 && #[trigger] out@[j] == orig[k] by {
                    if j < before.len() {
                        let k = choose|k: int| 0 <= k < i && #[trigger] before[j] == orig[k];
                        assert(out@[j] == orig[k]);
                    } else {
                        assert(out@[j] == orig[i as int]);
                    }
                }
            } else {
                assert forall|j: int| 0 <= j < out@.len() implies exists|k: int| 0 <= k < i + 1 && #[trigger] out@[j] == orig[k] by {
                    let k = choose|k: int| 0 <= k < i && #[trigger] before[j] == orig[k];
                }
            }
            i += 1;
        }
        assert(orig.take(n as int) =~= orig);
        self.jobs = out;
    }
}

} // verus!
