//! The worker side of the engine: the job queue with its claim and
//! complete operations, and the decisions that turn a subprocess
//! outcome into a build status. Subprocesses themselves run outside
//! the library; their exit code and captured output come back as
//! plain values.

use vstd::prelude::*;

use crate::domain::{BuildStatus, IntegrityError};

verus! {

use vstd::string::StrSliceExecFns;
use vstd::string::StringExecFns;
use vstd::string::StringSliceAdditionalSpecFns;

/// A unit of work: building one bot, or playing one match.
#[derive(Clone, Copy, PartialEq, Eq, Structural, Debug)]
pub enum Job {
    Build(i64),
    Match(i64),
}

/// The id is in the list.
pub open spec fn id_queued(ids: Seq<i64>, id: i64) -> bool {
    exists|i: int| #![trigger ids[i]] 0 <= i < ids.len() && ids[i] == id
}

/// The job is in the list.
pub open spec fn job_running(jobs: Seq<Job>, job: Job) -> bool {
    exists|i: int| #![trigger jobs[i]] 0 <= i < jobs.len() && jobs[i] == job
}

/// No id repeats.
pub open spec fn ids_unique(ids: Seq<i64>) -> bool {
    forall|i: int, j: int| #![trigger ids[i], ids[j]] 0 <= i < j < ids.len() ==> ids[i] != ids[j]
}

/// No job repeats.
pub open spec fn jobs_unique(jobs: Seq<Job>) -> bool {
    forall|i: int, j: int|
        #![trigger jobs[i], jobs[j]]
        0 <= i < j < jobs.len() ==> jobs[i] != jobs[j]
}

/// The queue the worker slots pull from. Builds and matches wait in
/// order; `running` holds what some slot is executing right now, and
/// never more than `capacity` entries.
pub struct JobQueue {
    pub pending_builds: Vec<i64>,
    pub pending_matches: Vec<i64>,
    pub running: Vec<Job>,
    pub capacity: usize,
}

/// The queue invariant: no duplicates anywhere, nothing both pending
/// and running, and the running set within capacity — so a job has
/// at most one executor, and the pool never exceeds its slots.
pub open spec fn queue_wf(q: JobQueue) -> bool {
    &&& ids_unique(q.pending_builds@)
    &&& ids_unique(q.pending_matches@)
    &&& jobs_unique(q.running@)
    &&& q.running@.len() <= q.capacity
    &&& q.capacity >= 1
    &&& (forall|i: int|
        0 <= i < q.pending_builds@.len() ==> !job_running(
            q.running@,
            Job::Build(#[trigger] q.pending_builds@[i]),
        ))
    &&& (forall|i: int|
        0 <= i < q.pending_matches@.len() ==> !job_running(
            q.running@,
            Job::Match(#[trigger] q.pending_matches@[i]),
        ))
}

impl JobQueue {
    /// An empty queue for a pool of `capacity` slots.
    pub fn new(capacity: usize) -> (q: JobQueue)
        requires
            capacity >= 1,
        ensures
            queue_wf(q),
            q.pending_builds@.len() == 0,
            q.pending_matches@.len() == 0,
            q.running@.len() == 0,
            q.capacity == capacity,
    {
        JobQueue {
            pending_builds: Vec::new(),
            pending_matches: Vec::new(),
            running: Vec::new(),
            capacity,
        }
    }

    /// Queues a build unless that bot's build is already queued or
    /// running; says whether it was added.
    #[verifier::loop_isolation(false)]
    pub fn enqueue_build(&mut self, bot_id: i64) -> (added: bool)
        requires
            queue_wf(*old(self)),
        ensures
            queue_wf(*final(self)),
            added <==> !(id_queued(old(self).pending_builds@, bot_id) || job_running(
                old(self).running@,
                Job::Build(bot_id),
            )),
            added ==> final(self).pending_builds@ == old(self).pending_builds@.push(bot_id),
            !added ==> *final(self) == *old(self),
            final(self).pending_matches@ == old(self).pending_matches@,
            final(self).running@ == old(self).running@,
            final(self).capacity == old(self).capacity,
    {
        let n = self.pending_builds.len();
        let mut i: usize = 0;
        while i < n
            invariant
                *self == *old(self),
                n == self.pending_builds@.len(),
                i <= n,
                forall|k: int|
                    #![trigger self.pending_builds@[k]]
                    0 <= k < i ==> self.pending_builds@[k] != bot_id,
            decreases n - i,
        {
            if self.pending_builds[i] == bot_id {
                return false;
            }
            i += 1;
        }
        let m = self.running.len();
        let mut j: usize = 0;
        while j < m
            invariant
                *self == *old(self),
                m == self.running@.len(),
                j <= m,
                forall|k: int|
                    #![trigger self.running@[k]]
                    0 <= k < j ==> self.running@[k] != Job::Build(bot_id),
            decreases m - j,
        {
            let is_this = matches!(self.running[j], Job::Build(b) if b == bot_id);
            if is_this {
                return false;
            }
            j += 1;
        }
        self.pending_builds.push(bot_id);
        proof {
            assert(self.pending_builds@[self.pending_builds@.len() - 1] == bot_id);
        }
        true
    }

    /// Queues a match unless it is already queued or running; says
    /// whether it was added.
    #[verifier::loop_isolation(false)]
    pub fn enqueue_match(&mut self, match_id: i64) -> (added: bool)
        requires
            queue_wf(*old(self)),
        ensures
            queue_wf(*final(self)),
            added <==> !(id_queued(old(self).pending_matches@, match_id) || job_running(
                old(self).running@,
                Job::Match(match_id),
            )),
            added ==> final(self).pending_matches@ == old(self).pending_matches@.push(match_id),
            !added ==> *final(self) == *old(self),
            final(self).pending_builds@ == old(self).pending_builds@,
            final(self).running@ == old(self).running@,
            final(self).capacity == old(self).capacity,
    {
        let n = self.pending_matches.len();
        let mut i: usize = 0;
        while i < n
            invariant
                *self == *old(self),
                n == self.pending_matches@.len(),
                i <= n,
                forall|k: int|
                    #![trigger self.pending_matches@[k]]
                    0 <= k < i ==> self.pending_matches@[k] != match_id,
            decreases n - i,
        {
            if self.pending_matches[i] == match_id {
                return false;
            }
            i += 1;
        }
        let m = self.running.len();
        let mut j: usize = 0;
        while j < m
            invariant
                *self == *old(self),
                m == self.running@.len(),
                j <= m,
                forall|k: int|
                    #![trigger self.running@[k]]
                    0 <= k < j ==> self.running@[k] != Job::Match(match_id),
            decreases m - j,
        {
            let is_this = matches!(self.running[j], Job::Match(b) if b == match_id);
            if is_this {
                return false;
            }
            j += 1;
        }
        self.pending_matches.push(match_id);
        proof {
            assert(self.pending_matches@[self.pending_matches@.len() - 1] == match_id);
        }
        true
    }

    /// Claims one pending job for a free slot, build jobs first: a
    /// match cannot run before its participants are built. Nothing is
    /// claimed when every slot is busy or nothing waits; a claimed
    /// job moves from pending to running in this one step, which is
    /// the single point of mutual exclusion.
    pub fn claim(&mut self) -> (r: Option<Job>)
        requires
            queue_wf(*old(self)),
        ensures
            queue_wf(*final(self)),
            r is None <==> (old(self).running@.len() == old(self).capacity || (old(
                self,
            ).pending_builds@.len() == 0 && old(self).pending_matches@.len() == 0)),
            r is None ==> *final(self) == *old(self),
            (old(self).running@.len() < old(self).capacity && old(self).pending_builds@.len()
                > 0) ==> {
                &&& r == Some(Job::Build(old(self).pending_builds@[0]))
                &&& final(self).pending_builds@ == old(self).pending_builds@.skip(1)
                &&& final(self).pending_matches@ == old(self).pending_matches@
                &&& final(self).running@ == old(self).running@.push(
                    Job::Build(old(self).pending_builds@[0]),
                )
            },
            (old(self).running@.len() < old(self).capacity && old(self).pending_builds@.len() == 0
                && old(self).pending_matches@.len() > 0) ==> {
                &&& r == Some(Job::Match(old(self).pending_matches@[0]))
                &&& final(self).pending_matches@ == old(self).pending_matches@.skip(1)
                &&& final(self).pending_builds@ == old(self).pending_builds@
                &&& final(self).running@ == old(self).running@.push(
                    Job::Match(old(self).pending_matches@[0]),
                )
            },
            final(self).capacity == old(self).capacity,
            (r matches Some(job) ==> !job_running(old(self).running@, job)),
    {
        if self.running.len() == self.capacity {
            return None;
        }
        if self.pending_builds.len() > 0 {
            let bot_id = self.pending_builds.remove(0);
            let job = Job::Build(bot_id);
            self.running.push(job);
            proof {
                lemma_push_fresh_keeps_unique(old(self).running@, job);
                assert(self.running@[self.running@.len() - 1] == job);
                assert forall|i: int|
                    0 <= i < self.pending_builds@.len() implies !job_running(
                    self.running@,
                    Job::Build(#[trigger] self.pending_builds@[i]),
                ) by {
                    assert(self.pending_builds@[i] == old(self).pending_builds@[i + 1]);
                    assert(old(self).pending_builds@[0] != old(self).pending_builds@[i + 1]);
                    lemma_not_running_after_push(
                        old(self).running@,
                        job,
                        Job::Build(self.pending_builds@[i]),
                    );
                }
                assert forall|i: int|
                    0 <= i < self.pending_matches@.len() implies !job_running(
                    self.running@,
                    Job::Match(#[trigger] self.pending_matches@[i]),
                ) by {
                    lemma_not_running_after_push(
                        old(self).running@,
                        job,
                        Job::Match(self.pending_matches@[i]),
                    );
                }
            }
            return Some(job);
        }
        if self.pending_matches.len() > 0 {
            let match_id = self.pending_matches.remove(0);
            let job = Job::Match(match_id);
            self.running.push(job);
            proof {
                lemma_push_fresh_keeps_unique(old(self).running@, job);
                assert(self.running@[self.running@.len() - 1] == job);
                assert forall|i: int|
                    0 <= i < self.pending_matches@.len() implies !job_running(
                    self.running@,
                    Job::Match(#[trigger] self.pending_matches@[i]),
                ) by {
                    assert(self.pending_matches@[i] == old(self).pending_matches@[i + 1]);
                    assert(old(self).pending_matches@[0] != old(self).pending_matches@[i + 1]);
                    lemma_not_running_after_push(
                        old(self).running@,
                        job,
                        Job::Match(self.pending_matches@[i]),
                    );
                }
                assert forall|i: int|
                    0 <= i < self.pending_builds@.len() implies !job_running(
                    self.running@,
                    Job::Build(#[trigger] self.pending_builds@[i]),
                ) by {
                    lemma_not_running_after_push(
                        old(self).running@,
                        job,
                        Job::Build(self.pending_builds@[i]),
                    );
                }
            }
            return Some(job);
        }
        None
    }

    /// Marks a running job done and frees its slot; completing a job
    /// nobody runs is an integrity violation.
    #[verifier::loop_isolation(false)]
    pub fn complete(&mut self, job: Job) -> (r: Result<(), IntegrityError>)
        requires
            queue_wf(*old(self)),
        ensures
            queue_wf(*final(self)),
            r is Ok <==> job_running(old(self).running@, job),
            r is Err ==> r == Err::<(), IntegrityError>(IntegrityError::InvalidTransition)
                && *final(self) == *old(self),
            r is Ok ==> final(self).running@.len() == old(self).running@.len() - 1 && !job_running(
                final(self).running@,
                job,
            ) && (forall|other: Job|
                other != job ==> (job_running(final(self).running@, other) <==> #[trigger] job_running(
                    old(self).running@,
                    other,
                ))),
            final(self).pending_builds@ == old(self).pending_builds@,
            final(self).pending_matches@ == old(self).pending_matches@,
            final(self).capacity == old(self).capacity,
    {
        let n = self.running.len();
        let mut i: usize = 0;
        while i < n
            invariant
                *self == *old(self),
                n == self.running@.len(),
                i <= n,
                forall|k: int| #![trigger self.running@[k]] 0 <= k < i ==> self.running@[k] != job,
            decreases n - i,
        {
            if self.running[i] == job {
                let ghost prev = self.running@;
                self.running.remove(i);
                proof {
                    lemma_remove_running(prev, i as int);
                    assert forall|other: Job| other != job implies (job_running(
                        self.running@,
                        other,
                    ) <==> #[trigger] job_running(prev, other)) by {
                        lemma_remove_membership(prev, i as int, other);
                    }
                    assert(!job_running(self.running@, job)) by {
                        lemma_remove_membership_gone(prev, i as int);
                    }
                    assert forall|q: int|
                        0 <= q < self.pending_builds@.len() implies !job_running(
                        self.running@,
                        Job::Build(#[trigger] self.pending_builds@[q]),
                    ) by {
                        lemma_remove_membership(prev, i as int, Job::Build(self.pending_builds@[q]));
                    }
                    assert forall|q: int|
                        0 <= q < self.pending_matches@.len() implies !job_running(
                        self.running@,
                        Job::Match(#[trigger] self.pending_matches@[q]),
                    ) by {
                        lemma_remove_membership(
                            prev,
                            i as int,
                            Job::Match(self.pending_matches@[q]),
                        );
                    }
                }
                return Ok(());
            }
            i += 1;
        }
        Err(IntegrityError::InvalidTransition)
    }
}

/// Pushing a job that is not yet in a duplicate-free list keeps it
/// duplicate-free.
proof fn lemma_push_fresh_keeps_unique(jobs: Seq<Job>, job: Job)
    requires
        jobs_unique(jobs),
        !job_running(jobs, job),
    ensures
        jobs_unique(jobs.push(job)),
{
    let out = jobs.push(job);
    assert forall|i: int, j: int|
        #![trigger out[i], out[j]]
        0 <= i < j < out.len() implies out[i] != out[j] by {
        if j == jobs.len() {
            assert(out[i] == jobs[i]);
        } else {
            assert(out[i] == jobs[i] && out[j] == jobs[j]);
        }
    }
}

/// A job other than the pushed one runs afterwards only if it ran
/// before.
proof fn lemma_not_running_after_push(jobs: Seq<Job>, pushed: Job, other: Job)
    requires
        !job_running(jobs, other),
        other != pushed,
    ensures
        !job_running(jobs.push(pushed), other),
{
    let out = jobs.push(pushed);
    assert forall|i: int| 0 <= i < out.len() implies #[trigger] out[i] != other by {
        if i < jobs.len() {
            assert(out[i] == jobs[i]);
        }
    }
}

/// Removing one entry of a duplicate-free list keeps it
/// duplicate-free.
proof fn lemma_remove_running(jobs: Seq<Job>, at: int)
    requires
        jobs_unique(jobs),
        0 <= at < jobs.len(),
    ensures
        jobs_unique(jobs.remove(at)),
{
    let rest = jobs.remove(at);
    assert forall|i: int, j: int|
        #![trigger rest[i], rest[j]]
        0 <= i < j < rest.len() implies rest[i] != rest[j] by {
        let oi = if i < at { i } else { i + 1 };
        let oj = if j < at { j } else { j + 1 };
        assert(rest[i] == jobs[oi] && rest[j] == jobs[oj]);
        assert(jobs[oi] != jobs[oj]);
    }
}

/// Removing one entry neither adds nor removes any other job.
proof fn lemma_remove_membership(jobs: Seq<Job>, at: int, other: Job)
    requires
        0 <= at < jobs.len(),
        other != jobs[at],
    ensures
        job_running(jobs.remove(at), other) <==> job_running(jobs, other),
{
    let rest = jobs.remove(at);
    if job_running(jobs, other) {
        let i = choose|i: int| 0 <= i < jobs.len() && jobs[i] == other;
        let r = if i < at { i } else { i - 1 };
        assert(rest[r] == jobs[i]);
    }
    if job_running(rest, other) {
        let i = choose|i: int| 0 <= i < rest.len() && rest[i] == other;
        let o = if i < at { i } else { i + 1 };
        assert(rest[i] == jobs[o]);
    }
}

/// After removing the only copy of a job, it no longer runs.
proof fn lemma_remove_membership_gone(jobs: Seq<Job>, at: int)
    requires
        jobs_unique(jobs),
        0 <= at < jobs.len(),
    ensures
        !job_running(jobs.remove(at), jobs[at]),
{
    let rest = jobs.remove(at);
    assert forall|i: int| 0 <= i < rest.len() implies #[trigger] rest[i] != jobs[at] by {
        let o = if i < at { i } else { i + 1 };
        assert(rest[i] == jobs[o]);
        if o < at {
            assert(jobs[o] != jobs[at]);
        } else {
            assert(jobs[at] != jobs[o]);
        }
    }
}

/// What came back from running a subprocess: it completed with an
/// exit code and captured output, it overran its wall-clock budget
/// and was killed, or it could not be started at all.
pub enum ExecOutcome {
    Completed { exit_code: i64, stdout: String, stderr: String },
    TimedOut,
    SpawnFailed(String),
}

/// How many characters of captured output are retained.
pub const MAX_CAPTURED_CHARS: usize = 10_000;

/// Captured output as persisted: kept whole up to the bound, cut at
/// the bound with a marker beyond it.
pub open spec fn truncated(s: Seq<char>) -> Seq<char> {
    if s.len() <= MAX_CAPTURED_CHARS {
        s
    } else {
        s.subrange(0, MAX_CAPTURED_CHARS as int) + "...[truncated]"@
    }
}

/// Bounds a captured output, marking the cut.
pub fn truncate_output(s: &str) -> (r: String)
    ensures
        r@ == truncated(s@),
{
    let len = s.unicode_len();
    if len <= MAX_CAPTURED_CHARS {
        s.to_owned()
    } else {
        let head = s.substring_char(0, MAX_CAPTURED_CHARS);
        let owned = String::from_str(head);
        owned.concat("...[truncated]")
    }
}

/// The build status a subprocess outcome settles to: exit code zero
/// is a success, anything else a failure carrying the bounded
/// standard error, a timeout or a spawn failure a failure carrying
/// the reason. Both terminal states are final; a failed build is
/// retried only by an explicit new build.
pub fn build_status_of(outcome: &ExecOutcome) -> (r: BuildStatus)
    ensures
        (outcome matches ExecOutcome::Completed { exit_code: 0, .. } ==> r
            == BuildStatus::Success),
        (outcome matches ExecOutcome::Completed { exit_code, stderr, .. } ==> (exit_code != 0
            ==> (r matches BuildStatus::Failure(msg) && msg@ == truncated(stderr@)))),
        (outcome matches ExecOutcome::TimedOut ==> r matches BuildStatus::Failure(msg) && msg@
            == "build timed out"@),
        (outcome matches ExecOutcome::SpawnFailed(e) ==> r matches BuildStatus::Failure(msg)
            && msg@ == e@),
{
    match outcome {
        ExecOutcome::Completed { exit_code, stderr, .. } => {
            if *exit_code == 0 {
                BuildStatus::Success
            } else {
                BuildStatus::Failure(truncate_output(stderr.as_str()))
            }
        },
        ExecOutcome::TimedOut => BuildStatus::Failure(String::from_str("build timed out")),
        ExecOutcome::SpawnFailed(e) => BuildStatus::Failure(e.clone()),
    }
}

/// The decimal digits of a number, most significant first.
pub open spec fn digits_of(n: int) -> Seq<u8>
    decreases n,
{
    if n < 10 {
        seq![(48 + if n >= 0 { n } else { 0 }) as u8]
    } else {
        digits_of(n / 10).push((48 + n % 10) as u8)
    }
}

/// Renders a number in decimal.
pub fn u64_digits(n: u64) -> (r: Vec<u8>)
    ensures
        r@ == digits_of(n as int),
    decreases n,
{
    if n < 10 {
        let mut r: Vec<u8> = Vec::new();
        r.push(48 + n as u8);
        r
    } else {
        let mut r = u64_digits(n / 10);
        r.push(48 + (n % 10) as u8);
        r
    }
}

/// The private working directory of a bot: the configured root, a
/// separator, and the bot id in decimal.
pub fn bot_dir(dir_bots: &str, id: u64) -> (r: Vec<u8>)
    ensures
        r@ == dir_bots.spec_bytes() + seq![47u8] + digits_of(id as int),
{
    let mut r = dir_bots.as_bytes_vec();
    r.push(47);
    let mut digits = u64_digits(id);
    r.append(&mut digits);
    r
}

/// The placeholder a command template marks the working directory
/// with: the five bytes of `{dir}`.
pub open spec fn placeholder() -> Seq<u8> {
    seq![123u8, 100u8, 105u8, 114u8, 125u8]
}

/// The template with every occurrence of the placeholder replaced by
/// the value, scanned left to right.
pub open spec fn substituted(t: Seq<u8>, v: Seq<u8>) -> Seq<u8>
    decreases t.len(),
{
    if t.len() == 0 {
        Seq::empty()
    } else if t.len() >= 5 && t.subrange(0, 5) == placeholder() {
        v + substituted(t.skip(5), v)
    } else {
        seq![t[0]] + substituted(t.skip(1), v)
    }
}

/// Renders a command template: every `{dir}` becomes the bot's
/// working directory.
#[verifier::loop_isolation(false)]
pub fn render_command(template: &str, dir: &Vec<u8>) -> (r: Vec<u8>)
    ensures
        r@ == substituted(template.spec_bytes(), dir@),
{
    let t = template.as_bytes_vec();
    let n = t.len();
    let mut out: Vec<u8> = Vec::new();
    let mut i: usize = 0;
    proof {
        assert(t@.skip(0) =~= t@);
    }
    while i < n
        invariant
            n == t@.len(),
            i <= n,
            substituted(t@, dir@) == out@ + substituted(t@.skip(i as int), dir@),
        decreases n - i,
    {
        let ghost rest = t@.skip(i as int);
        if n - i >= 5 && t[i] == 123 && t[i + 1] == 100 && t[i + 2] == 105 && t[i + 3] == 114 && t[i
            + 4] == 125 {
            proof {
                assert(rest.subrange(0, 5) =~= placeholder());
                assert(rest.skip(5) =~= t@.skip(i + 5));
                assert(substituted(rest, dir@) == dir@ + substituted(t@.skip(i + 5), dir@));
            }
            out.extend_from_slice(dir.as_slice());
            i += 5;
        } else {
            proof {
                if rest.len() >= 5 && rest.subrange(0, 5) == placeholder() {
                    assert(rest.subrange(0, 5)[0] == t@[i as int]);
                    assert(rest.subrange(0, 5)[1] == t@[i + 1]);
                    assert(rest.subrange(0, 5)[2] == t@[i + 2]);
                    assert(rest.subrange(0, 5)[3] == t@[i + 3]);
                    assert(rest.subrange(0, 5)[4] == t@[i + 4]);
                    assert(false);
                }
                assert(rest.skip(1) =~= t@.skip(i + 1));
                assert(substituted(rest, dir@) == seq![t@[i as int]] + substituted(
                    t@.skip(i + 1),
                    dir@,
                ));
            }
            let b = t[i];
            out.push(b);
            i += 1;
        }
    }
    proof {
        assert(t@.skip(n as int) =~= Seq::<u8>::empty());
        assert(substituted(t@.skip(n as int), dir@) =~= Seq::<u8>::empty());
        assert(out@ =~= out@ + substituted(t@.skip(n as int), dir@));
    }
    out
}

} // verus!
