//! The download engine's decision core: plan data, the per-plan runner
//! that drives source fallback and retry, the shared progress ledger, and
//! the per-attempt decisions of the HTTP download path.
//!
//! The engine performs no I/O itself.  A driver performs each probe, each
//! body request and each disk write, and reports what happened; every
//! decision in between — what to try next, when to retry, when to fall to
//! the next source, how the byte counters move — is made here, under
//! contract.
use vstd::prelude::*;

use crate::chars::{chars_of, has_prefix, starts_with_chars, string_of};
use crate::codec::{spec_compress_kind, CompressKind};
use crate::escape::{spec_decode_fixed_point, url_no_escape};

verus! {

/// The transport of one download source.  Local sources sort before HTTP
/// sources.
#[derive(PartialEq, Eq, Structural, Debug, Clone, Copy)]
pub enum DownloadSourceType {
    Local,
    Http,
}

/// One candidate source of a download.
pub struct DownloadSource {
    pub url: String,
    pub source_type: DownloadSourceType,
}

/// One unit of work for the fetcher: an ordered list of candidate
/// sources, a destination, and what to check and do along the way.
pub struct DownloadEntry {
    pub source: Vec<DownloadSource>,
    pub filename: String,
    pub dir: String,
    pub hash: Option<String>,
    pub allow_resume: bool,
    pub extract: bool,
}

impl DownloadEntry {
    /// A plan with one source.
    pub fn new(
        url: String,
        filename: String,
        dir: String,
        hash: Option<String>,
        allow_resume: bool,
        source_type: DownloadSourceType,
    ) -> (r: DownloadEntry)
        ensures
            r.source@.len() == 1,
            r.source@[0].url == url,
            r.source@[0].source_type == source_type,
            r.filename == filename,
            r.dir == dir,
            r.hash == hash,
            r.allow_resume == allow_resume,
            r.extract == false,
    {
        let mut source: Vec<DownloadSource> = Vec::new();
        source.push(DownloadSource { url, source_type });
        DownloadEntry { source, filename, dir, hash, allow_resume, extract: false }
    }
}

/// The result of one completed plan: the plan's index, its filename,
/// whether the existing file already matched (`hit`), and the caller's
/// context string.
pub struct Summary {
    pub filename: String,
    pub hit: bool,
    pub count: usize,
    pub context: Option<String>,
}

/// What a driver reports back to callers while a refresh runs.
pub enum DownloadEvent {
    NewProgressSpinner(String),
    NewProgress(u64, String),
    ProgressInc(u64),
    GlobalProgressInc(u64),
    GlobalProgressSet(u64),
    ProgressDone,
    ChecksumMismatchRetry { filename: String, times: usize },
    CanNotGetSourceNextUrl(String),
    AllDone,
}

/// Why a download failed.
#[derive(Debug)]
pub enum DownloadError {
    NotFound(String),
    HttpStatus(u16, String),
    NetworkIo(String),
    LocalIo(String, String),
    InvalidUrl(String),
    ChecksumMismatch(String, String),
}

/// Specification mirror of `DownloadError`.
pub enum DownloadErrorV {
    NotFound(Seq<char>),
    HttpStatus(u16, Seq<char>),
    NetworkIo(Seq<char>),
    LocalIo(Seq<char>, Seq<char>),
    InvalidUrl(Seq<char>),
    ChecksumMismatch(Seq<char>, Seq<char>),
}

impl View for DownloadError {
    type V = DownloadErrorV;

    open spec fn view(&self) -> DownloadErrorV {
        match self {
            DownloadError::NotFound(u) => DownloadErrorV::NotFound(u@),
            DownloadError::HttpStatus(c, u) => DownloadErrorV::HttpStatus(*c, u@),
            DownloadError::NetworkIo(m) => DownloadErrorV::NetworkIo(m@),
            DownloadError::LocalIo(u, m) => DownloadErrorV::LocalIo(u@, m@),
            DownloadError::InvalidUrl(u) => DownloadErrorV::InvalidUrl(u@),
            DownloadError::ChecksumMismatch(u, d) => DownloadErrorV::ChecksumMismatch(u@, d@),
        }
    }
}

/// The view of one download source.
pub open spec fn src_view(s: DownloadSource) -> (Seq<char>, DownloadSourceType) {
    (s.url@, s.source_type)
}

/// The views of a list of download sources.
pub open spec fn srcs_view(ss: Seq<DownloadSource>) -> Seq<(Seq<char>, DownloadSourceType)> {
    ss.map_values(|s: DownloadSource| src_view(s))
}

/// Whether a source view is local.
pub open spec fn is_local_src(p: (Seq<char>, DownloadSourceType)) -> bool {
    p.1 == DownloadSourceType::Local
}

/// Sort sources so that local ones come before HTTP ones: a stable
/// partition that keeps each group in its given order and keeps exactly
/// the given sources.
pub fn sort_sources(sources: &Vec<DownloadSource>) -> (r: Vec<DownloadSource>)
    ensures
        r@.len() == sources@.len(),
        srcs_view(r@) == srcs_view(sources@).filter(|p: (Seq<char>, DownloadSourceType)|
            is_local_src(p)) + srcs_view(sources@).filter(
            |p: (Seq<char>, DownloadSourceType)| !is_local_src(p),
        ),
        forall|i: int, j: int|
            0 <= i < j < r@.len() && r@[i].source_type == DownloadSourceType::Http ==> r@[
                j
            ].source_type == DownloadSourceType::Http,
{
    let ghost all = srcs_view(sources@);
    let ghost locp = |p: (Seq<char>, DownloadSourceType)| is_local_src(p);
    let ghost httpp = |p: (Seq<char>, DownloadSourceType)| !is_local_src(p);
    let mut locals: Vec<DownloadSource> = Vec::new();
    let mut https: Vec<DownloadSource> = Vec::new();
    let mut i: usize = 0;
    proof {
        assert(all.take(0) =~~= Seq::<(Seq<char>, DownloadSourceType)>::empty());
        reveal_with_fuel(Seq::<_>::filter, 2);
    }
    while i < sources.len()
        invariant
            0 <= i <= sources@.len(),
            all == srcs_view(sources@),
            all.len() == sources@.len(),
            locp == (|p: (Seq<char>, DownloadSourceType)| is_local_src(p)),
            httpp == (|p: (Seq<char>, DownloadSourceType)| !is_local_src(p)),
            locals@.len() + https@.len() == i,
            srcs_view(locals@) == all.take(i as int).filter(locp),
            srcs_view(https@) == all.take(i as int).filter(httpp),
            forall|k: int|
                0 <= k < locals@.len() ==> (#[trigger] locals@[k]).source_type
                    == DownloadSourceType::Local,
            forall|k: int|
                0 <= k < https@.len() ==> (#[trigger] https@[k]).source_type
                    == DownloadSourceType::Http,
        decreases sources@.len() - i,
    {
        proof {
            assert(all.take(i + 1).drop_last() =~~= all.take(i as int));
            assert(all.take(i + 1).last() == all[i as int]);
            reveal(Seq::<_>::filter);
        }
        let s = &sources[i];
        let url = crate::control::copy_string(&s.url);
        match s.source_type {
            DownloadSourceType::Local => {
                let copy = DownloadSource { url, source_type: DownloadSourceType::Local };
                proof {
                    assert(src_view(copy) == all[i as int]);
                    assert(srcs_view(locals@.push(copy)) =~~= srcs_view(locals@).push(
                        all[i as int],
                    ));
                }
                locals.push(copy);
            },
            DownloadSourceType::Http => {
                let copy = DownloadSource { url, source_type: DownloadSourceType::Http };
                proof {
                    assert(src_view(copy) == all[i as int]);
                    assert(srcs_view(https@.push(copy)) =~~= srcs_view(https@).push(
                        all[i as int],
                    ));
                }
                https.push(copy);
            },
        }
        i += 1;
    }
    proof {
        assert(all.take(sources@.len() as int) =~~= all);
    }
    let ghost nl = locals@.len();
    let ghost lpart = srcs_view(locals@);
    let ghost hpart = srcs_view(https@);
    let mut k: usize = 0;
    let hlen: usize = https.len();
    while k < hlen
        invariant
            0 <= k <= hlen,
            hlen == https@.len(),
            hpart == srcs_view(https@),
            hpart.len() == https@.len(),
            locals@.len() == nl + k,
            srcs_view(locals@) == lpart + hpart.take(k as int),
            forall|m: int|
                0 <= m < nl ==> (#[trigger] locals@[m]).source_type == DownloadSourceType::Local,
            forall|m: int|
                nl <= m < locals@.len() ==> (#[trigger] locals@[m]).source_type
                    == DownloadSourceType::Http,
            forall|m: int|
                0 <= m < https@.len() ==> (#[trigger] https@[m]).source_type
                    == DownloadSourceType::Http,
        decreases hlen - k,
    {
        let s = &https[k];
        let url = crate::control::copy_string(&s.url);
        let copy = DownloadSource { url, source_type: DownloadSourceType::Http };
        proof {
            assert(src_view(copy) == hpart[k as int]);
            assert(srcs_view(locals@.push(copy)) =~~= srcs_view(locals@).push(hpart[k as int]));
            assert(lpart + hpart.take(k as int) + seq![hpart[k as int]] =~~= lpart + hpart.take(
                k + 1,
            ));
        }
        locals.push(copy);
        k += 1;
    }
    proof {
        assert(hpart.take(hpart.len() as int) =~~= hpart);
        assert(srcs_view(locals@) == lpart + hpart);
        assert forall|i: int, j: int|
            0 <= i < j < locals@.len() && locals@[i].source_type == DownloadSourceType::Http
            implies locals@[j].source_type == DownloadSourceType::Http by {
            if i < nl {
                assert(locals@[i].source_type == DownloadSourceType::Local);
            }
        }
    }
    locals
}

/// The number of plans run at once: the configured value clamped to
/// 1..=16, or 4 when none is given.
pub fn effective_concurrency(limit: Option<usize>) -> (r: usize)
    ensures
        1 <= r <= 16,
        r == (match limit {
            None => 4usize,
            Some(l) => if l < 1 {
                1usize
            } else if l > 16 {
                16usize
            } else {
                l
            },
        }),
{
    match limit {
        None => 4,
        Some(l) => if l < 1 {
            1
        } else if l > 16 {
            16
        } else {
            l
        },
    }
}

/// The sum of a ledger's per-task counters.
pub open spec fn sum_tasks(s: Seq<u64>) -> int
    decreases s.len(),
{
    if s.len() == 0 {
        0
    } else {
        sum_tasks(s.drop_last()) + s.last()
    }
}

proof fn lemma_sum_nonneg(s: Seq<u64>)
    ensures
        sum_tasks(s) >= 0,
    decreases s.len(),
{
    if s.len() > 0 {
        lemma_sum_nonneg(s.drop_last());
    }
}

proof fn lemma_sum_bounds(s: Seq<u64>, i: int)
    requires
        0 <= i < s.len(),
    ensures
        sum_tasks(s) >= s[i],
    decreases s.len(),
{
    lemma_sum_nonneg(s.drop_last());
    if i == s.len() - 1 {
    } else {
        lemma_sum_bounds(s.drop_last(), i);
        assert(s.drop_last()[i] == s[i]);
    }
}

proof fn lemma_sum_update(s: Seq<u64>, i: int, v: u64)
    requires
        0 <= i < s.len(),
    ensures
        sum_tasks(s.update(i, v)) == sum_tasks(s) - s[i] + v,
    decreases s.len(),
{
    if i == s.len() - 1 {
        assert(s.update(i, v).drop_last() =~= s.drop_last());
        assert(s.update(i, v).last() == v);
    } else {
        assert(s.update(i, v).drop_last() =~= s.drop_last().update(i, v));
        assert(s.update(i, v).last() == s.last());
        lemma_sum_update(s.drop_last(), i, v);
        assert(s.drop_last()[i] == s[i]);
    }
}

/// The shared progress ledger of one refresh: a global byte counter and
/// one counter per plan.
///
/// Global-byte conservation: in a well-formed ledger the global counter
/// always equals the sum of the per-task counters.  Every mutation —
/// crediting transferred bytes, and the explicit rollbacks of the
/// resume-disable and checksum-failure paths — moves both sides together,
/// so the invariant is never broken, only re-based.
pub struct ProgressCounters {
    pub global: u64,
    pub tasks: Vec<u64>,
}

impl ProgressCounters {
    /// Global-byte conservation.
    pub open spec fn wf(&self) -> bool {
        self.global == sum_tasks(self.tasks@)
    }

    /// A fresh ledger for `n` plans, all zero.
    pub fn new(n: usize) -> (r: ProgressCounters)
        ensures
            r.wf(),
            r.global == 0,
            r.tasks@.len() == n,
            forall|i: int| 0 <= i < n ==> r.tasks@[i] == 0,
    {
        let mut tasks: Vec<u64> = Vec::new();
        let mut i: usize = 0;
        while i < n
            invariant
                0 <= i <= n,
                tasks@.len() == i,
                sum_tasks(tasks@) == 0,
                forall|k: int| 0 <= k < i ==> tasks@[k] == 0,
            decreases n - i,
        {
            proof {
                assert(tasks@.push(0u64).drop_last() =~= tasks@);
            }
            tasks.push(0);
            i += 1;
        }
        ProgressCounters { global: 0, tasks }
    }

    /// Credit `n` transferred bytes to one task and to the global counter.
    pub fn inc(&mut self, task: usize, n: u64)
        requires
            old(self).wf(),
            task < old(self).tasks@.len(),
            old(self).global + n <= u64::MAX,
        ensures
            final(self).wf(),
            final(self).global == old(self).global + n,
            final(self).tasks@ == old(self).tasks@.update(
                task as int,
                (old(self).tasks@[task as int] + n) as u64,
            ),
    {
        proof {
            lemma_sum_bounds(self.tasks@, task as int);
            lemma_sum_update(
                self.tasks@,
                task as int,
                (self.tasks@[task as int] + n) as u64,
            );
        }
        let cur = self.tasks[task];
        self.tasks.set(task, cur + n);
        self.global = self.global + n;
    }

    /// Roll one task's accounted bytes back out of the global counter:
    /// the resume-disable and checksum-failure paths.
    pub fn rollback(&mut self, task: usize)
        requires
            old(self).wf(),
            task < old(self).tasks@.len(),
        ensures
            final(self).wf(),
            final(self).global == old(self).global - old(self).tasks@[task as int],
            final(self).tasks@ == old(self).tasks@.update(task as int, 0u64),
    {
        proof {
            lemma_sum_bounds(self.tasks@, task as int);
            lemma_sum_update(self.tasks@, task as int, 0u64);
            lemma_sum_nonneg(self.tasks@.update(task as int, 0u64));
        }
        let cur = self.tasks[task];
        self.tasks.set(task, 0);
        self.global = self.global - cur;
    }

    /// Global-byte conservation, as a statement: a well-formed ledger's
    /// global counter is exactly the sum of what its tasks account.
    pub proof fn lemma_conservation(&self)
        requires
            self.wf(),
        ensures
            self.global == sum_tasks(self.tasks@),
    {
    }
}

/// What one body attempt on one source came to.  The driver performs the
/// transfer and reports; transferred bytes are accounted separately in
/// the ledger.
pub enum AttemptOutcome {
    Success,
    ChecksumMismatch,
    NotFound,
    HttpStatus(u16),
    NetworkIo(String),
    LocalIo(String),
}

/// Specification mirror of `AttemptOutcome`.
pub enum AttemptOutcomeV {
    Success,
    ChecksumMismatch,
    NotFound,
    HttpStatus(u16),
    NetworkIo(Seq<char>),
    LocalIo(Seq<char>),
}

impl View for AttemptOutcome {
    type V = AttemptOutcomeV;

    open spec fn view(&self) -> AttemptOutcomeV {
        match self {
            AttemptOutcome::Success => AttemptOutcomeV::Success,
            AttemptOutcome::ChecksumMismatch => AttemptOutcomeV::ChecksumMismatch,
            AttemptOutcome::NotFound => AttemptOutcomeV::NotFound,
            AttemptOutcome::HttpStatus(c) => AttemptOutcomeV::HttpStatus(*c),
            AttemptOutcome::NetworkIo(m) => AttemptOutcomeV::NetworkIo(m@),
            AttemptOutcome::LocalIo(m) => AttemptOutcomeV::LocalIo(m@),
        }
    }
}

/// The error a terminally failed source reports for its URL.  A
/// successful outcome never fails a source; its arm only keeps the
/// mapping total.
pub open spec fn spec_error_of(
    outcome: AttemptOutcomeV,
    url: Seq<char>,
    dir: Seq<char>,
) -> DownloadErrorV {
    match outcome {
        AttemptOutcomeV::NotFound => DownloadErrorV::NotFound(url),
        AttemptOutcomeV::HttpStatus(c) => DownloadErrorV::HttpStatus(c, url),
        AttemptOutcomeV::NetworkIo(m) => DownloadErrorV::NetworkIo(m),
        AttemptOutcomeV::LocalIo(m) => DownloadErrorV::LocalIo(url, m),
        AttemptOutcomeV::Success => DownloadErrorV::NetworkIo(url),
        AttemptOutcomeV::ChecksumMismatch => DownloadErrorV::ChecksumMismatch(url, dir),
    }
}

/// What the runner decides after an attempt: try the same source again,
/// move to the next source, or finish.
pub enum RunnerStep {
    Retry { times: usize },
    NextSource,
    Done(Result<Summary, DownloadError>),
}

/// The per-plan driver state: which source is current, how many retries
/// it has used, and how many body requests were issued.
///
/// Retry bound: on every source at most `retry_times + 1` body requests
/// are issued, and only a checksum mismatch triggers a retry.  Source
/// fallback: any other failure, and retry exhaustion, move to the next
/// source; the plan fails only from its last source.
pub struct PlanRunner {
    pub entry: DownloadEntry,
    pub count: usize,
    pub retry_times: usize,
    pub context: Option<String>,
    pub src: usize,
    pub times: usize,
    pub src_requests: u64,
    pub body_requests: u64,
    pub done: bool,
    pub failed: bool,
}

impl PlanRunner {
    /// The runner's invariant.
    pub open spec fn wf(&self) -> bool {
        &&& self.entry.source@.len() >= 1
        &&& self.src < self.entry.source@.len()
        &&& self.times <= self.retry_times
        &&& (!self.done ==> self.src_requests == self.times)
        &&& self.src_requests <= self.times + 1
        &&& self.body_requests <= self.src * ((self.retry_times + 1) as int)
            + self.src_requests
        &&& (self.failed ==> self.done)
        &&& (self.failed ==> self.src == self.entry.source@.len() - 1)
    }

    /// A fresh runner for one plan.
    pub fn new(entry: DownloadEntry, count: usize, retry_times: usize, context: Option<String>)
        -> (r: PlanRunner)
        requires
            entry.source@.len() >= 1,
        ensures
            r.wf(),
            r.entry == entry,
            r.count == count,
            r.retry_times == retry_times,
            r.src == 0,
            r.times == 0,
            r.src_requests == 0,
            r.body_requests == 0,
            !r.done,
            !r.failed,
    {
        PlanRunner {
            entry,
            count,
            retry_times,
            context,
            src: 0,
            times: 0,
            src_requests: 0,
            body_requests: 0,
            done: false,
            failed: false,
        }
    }

    /// The current source index.
    pub fn current_source(&self) -> (r: usize)
        ensures
            r == self.src,
    {
        self.src
    }

    /// Cache hit: the destination already matched its expected checksum.
    /// The plan finishes with `hit` set and no body request was or will
    /// be issued for it.
    pub fn cache_hit(&mut self) -> (r: Summary)
        requires
            old(self).wf(),
            !old(self).done,
        ensures
            final(self).wf(),
            final(self).done,
            !final(self).failed,
            final(self).body_requests == old(self).body_requests,
            r.hit == true,
            r.count == old(self).count,
            r.filename@ == old(self).entry.filename@,
    {
        self.done = true;
        let filename = crate::control::copy_string(&self.entry.filename);
        let context = match self.context {
            Some(ref c) => Some(crate::control::copy_string(c)),
            None => None,
        };
        Summary { filename, hit: true, count: self.count, context }
    }

    /// Record one body attempt on the current source and decide what
    /// happens next.
    ///
    /// Success finishes the plan.  A checksum mismatch retries the same
    /// source while retries remain, and otherwise falls through like any
    /// other failure: to the next source when one is left, else the plan
    /// fails with the reported error.
    pub fn on_attempt(&mut self, outcome: &AttemptOutcome) -> (r: RunnerStep)
        requires
            old(self).wf(),
            !old(self).done,
            old(self).body_requests < u64::MAX,
            old(self).src_requests < u64::MAX,
        ensures
            final(self).wf(),
            final(self).entry == old(self).entry,
            final(self).count == old(self).count,
            final(self).retry_times == old(self).retry_times,
            final(self).body_requests == old(self).body_requests + 1,
            // only a checksum mismatch triggers a retry
            (r is Retry) ==> outcome is ChecksumMismatch,
            match outcome {
                AttemptOutcome::Success => {
                    &&& r matches RunnerStep::Done(Ok(s)) && s.hit == false && s.count == old(
                        self,
                    ).count && s.filename@ == old(self).entry.filename@
                    &&& final(self).done && !final(self).failed
                },
                AttemptOutcome::ChecksumMismatch => {
                    if old(self).times < old(self).retry_times {
                        &&& r matches RunnerStep::Retry { times } && times == old(self).times
                        &&& final(self).times == old(self).times + 1
                        &&& final(self).src == old(self).src
                        &&& !final(self).done
                    } else {
                        final(self).spec_fell_through(old(self), outcome, r)
                    }
                },
                _ => final(self).spec_fell_through(old(self), outcome, r),
            },
    {
        self.body_requests = self.body_requests + 1;
        self.src_requests = self.src_requests + 1;
        match outcome {
            AttemptOutcome::Success => {
                self.done = true;
                let filename = crate::control::copy_string(&self.entry.filename);
                let context = match self.context {
                    Some(ref c) => Some(crate::control::copy_string(c)),
                    None => None,
                };
                RunnerStep::Done(
                    Ok(Summary { filename, hit: false, count: self.count, context }),
                )
            },
            AttemptOutcome::ChecksumMismatch => {
                if self.times < self.retry_times {
                    let t = self.times;
                    self.times = self.times + 1;
                    RunnerStep::Retry { times: t }
                } else {
                    self.fall_through(outcome)
                }
            },
            _ => self.fall_through(outcome),
        }
    }

    /// What falling through after a terminal source failure means: the
    /// next source starts fresh, or — from the last source — the plan
    /// fails with that source's error.
    pub open spec fn spec_fell_through(
        &self,
        prev: &PlanRunner,
        outcome: &AttemptOutcome,
        r: RunnerStep,
    ) -> bool {
        if prev.src + 1 < prev.entry.source@.len() {
            &&& r is NextSource
            &&& self.src == prev.src + 1
            &&& self.times == 0
            &&& self.src_requests == 0
            &&& !self.done && !self.failed
        } else {
            &&& r matches RunnerStep::Done(Err(e)) && e@ == spec_error_of(
                outcome@,
                prev.entry.source@[prev.src as int].url@,
                prev.entry.dir@,
            )
            &&& self.done && self.failed
            &&& self.src == prev.src
        }
    }

    fn fall_through(&mut self, outcome: &AttemptOutcome) -> (r: RunnerStep)
        requires
            old(self).entry.source@.len() >= 1,
            old(self).src < old(self).entry.source@.len(),
            old(self).times <= old(self).retry_times,
            old(self).src_requests == old(self).times + 1,
            old(self).body_requests <= old(self).src * ((old(self).retry_times + 1) as int)
                + old(self).src_requests,
            !old(self).done,
            !old(self).failed,
        ensures
            final(self).entry == old(self).entry,
            final(self).count == old(self).count,
            final(self).retry_times == old(self).retry_times,
            final(self).body_requests == old(self).body_requests,
            final(self).spec_fell_through(old(self), outcome, r),
            final(self).entry.source@.len() >= 1,
            final(self).src < final(self).entry.source@.len(),
            final(self).times <= final(self).retry_times,
            !final(self).done ==> final(self).src_requests == final(self).times,
            final(self).src_requests <= final(self).times + 1,
            final(self).body_requests <= final(self).src * ((final(self).retry_times + 1) as int)
                + final(self).src_requests,
            (final(self).failed ==> final(self).done),
            (final(self).failed ==> final(self).src == final(self).entry.source@.len() - 1),
    {
        let n = self.source_len();
        let next = self.src + 1;
        if next < n {
            proof {
                let sv = old(self).src as int;
                let rv = (old(self).retry_times + 1) as int;
                assert((sv + 1) * rv == sv * rv + rv) by (nonlinear_arith);
            }
            self.src = next;
            self.times = 0;
            self.src_requests = 0;
            RunnerStep::NextSource
        } else {
            self.done = true;
            self.failed = true;
            let url = crate::control::copy_string(&self.entry.source[self.src].url);
            let dir = crate::control::copy_string(&self.entry.dir);
            let e = error_of(outcome, url, dir);
            RunnerStep::Done(Err(e))
        }
    }

    fn source_len(&self) -> (r: usize)
        ensures
            r == self.entry.source@.len(),
    {
        self.entry.source.len()
    }

    /// Retry bound, per source: a well-formed runner has issued at most
    /// `retry_times + 1` body requests on its current source.
    pub proof fn lemma_retry_bound_per_source(&self)
        requires
            self.wf(),
        ensures
            self.src_requests <= self.retry_times + 1,
    {
    }

    /// Retry bound, whole plan: with a single source, at most
    /// `retry_times + 1` body requests are ever issued.
    pub proof fn lemma_retry_bound_single_source(&self)
        requires
            self.wf(),
            self.entry.source@.len() == 1,
        ensures
            self.body_requests <= self.retry_times + 1,
    {
        let rv = (self.retry_times + 1) as int;
        assert(self.src as int == 0);
        assert(0int * rv == 0) by (nonlinear_arith);
        assert(self.src as int * rv == 0);
    }

    /// Source fallback: a failed plan was on its last source, so every
    /// source was reached before the plan was given up.
    pub proof fn lemma_fail_means_all_sources_tried(&self)
        requires
            self.wf(),
            self.failed,
        ensures
            self.src == self.entry.source@.len() - 1,
    {
    }
}

/// What the pre-existing-file check decides before an HTTP attempt: a
/// matching file is a cache hit; a mismatching one either rolls its read
/// bytes back out of the ledger and restarts, or keeps the open handle
/// and validator for a ranged continuation; without a file or an
/// expected digest the attempt starts fresh.
pub enum PrecheckAction {
    CacheHit,
    RollbackRestart,
    ResumeValidated,
    Fresh,
}

/// Decide what an existing destination file means.
pub fn precheck_action(
    file_exists: bool,
    has_hash: bool,
    checksum_ok: bool,
    allow_resume: bool,
) -> (r: PrecheckAction)
    ensures
        r == (if file_exists && has_hash && checksum_ok {
            PrecheckAction::CacheHit
        } else if file_exists && has_hash && !allow_resume {
            PrecheckAction::RollbackRestart
        } else if file_exists && has_hash {
            PrecheckAction::ResumeValidated
        } else {
            PrecheckAction::Fresh
        }),
{
    if file_exists && has_hash {
        if checksum_ok {
            PrecheckAction::CacheHit
        } else if !allow_resume {
            PrecheckAction::RollbackRestart
        } else {
            PrecheckAction::ResumeValidated
        }
    } else {
        PrecheckAction::Fresh
    }
}

/// The probe decision before the body request: whether a ranged request
/// goes out and from which offset, what the file size is taken to be, and
/// whether the bytes already accounted must be rolled back because the
/// existing file is no shorter than the remote one.
pub struct ResumePlan {
    pub can_resume: bool,
    pub total_size: u64,
    pub rollback_existing: bool,
    pub file_size: u64,
    pub range_from: Option<u64>,
}

/// Whether an `Accept-Ranges` header allows ranged requests.
pub open spec fn spec_ranges_ok(accept_ranges: Option<&str>) -> bool {
    match accept_ranges {
        Some(v) => v@ != "none"@,
        None => false,
    }
}

/// Decide the resume plan from the probe's headers.
pub fn resume_plan(
    accept_ranges: Option<&str>,
    content_length: Option<u64>,
    allow_resume: bool,
    file_size: u64,
) -> (r: ResumePlan)
    ensures
        r.total_size == (match content_length {
            Some(l) => l,
            None => 0u64,
        }),
        ({
            let hdr = spec_ranges_ok(accept_ranges);
            if hdr && allow_resume && r.total_size <= file_size {
                &&& !r.can_resume
                &&& r.rollback_existing
                &&& r.file_size == 0
                &&& r.range_from == Some(0u64)
            } else if hdr && allow_resume {
                &&& r.can_resume
                &&& !r.rollback_existing
                &&& r.file_size == file_size
                &&& r.range_from == Some(file_size)
            } else {
                &&& r.can_resume == hdr
                &&& !r.rollback_existing
                &&& r.file_size == file_size
                &&& r.range_from is None
            }
        }),
{
    let hdr: bool = match accept_ranges {
        Some(v) => {
            let vc = chars_of(v);
            let none_lit = chars_of("none");
            !crate::chars::slice_eq(vc.as_slice(), none_lit.as_slice())
        },
        None => false,
    };
    let total_size: u64 = match content_length {
        Some(l) => l,
        None => 0,
    };
    if hdr && allow_resume {
        if total_size <= file_size {
            ResumePlan {
                can_resume: false,
                total_size,
                rollback_existing: true,
                file_size: 0,
                range_from: Some(0),
            }
        } else {
            ResumePlan {
                can_resume: true,
                total_size,
                rollback_existing: false,
                file_size,
                range_from: Some(file_size),
            }
        }
    } else {
        ResumePlan {
            can_resume: hdr,
            total_size,
            rollback_existing: false,
            file_size,
            range_from: None,
        }
    }
}

/// How the destination file is opened for the body transfer.
pub enum OpenMode {
    TruncateCreate,
    ReuseHandle,
    CreateSeekEnd,
}

/// Decide how to open the destination: no resume truncates; a kept
/// handle from the pre-check is reused; otherwise open and seek to the
/// end.
pub fn open_mode(allow_resume: bool, can_resume: bool, have_handle: bool) -> (r: OpenMode)
    ensures
        r == (if !allow_resume || !can_resume {
            OpenMode::TruncateCreate
        } else if have_handle {
            OpenMode::ReuseHandle
        } else {
            OpenMode::CreateSeekEnd
        }),
{
    if !allow_resume || !can_resume {
        OpenMode::TruncateCreate
    } else if have_handle {
        OpenMode::ReuseHandle
    } else {
        OpenMode::CreateSeekEnd
    }
}

/// The sink the body is written through.
pub enum SinkKind {
    Xz,
    Gz,
    Plain,
}

/// Decide the sink: with extraction requested and a recognized
/// compression suffix on the URL, the body is decoded on the fly so the
/// file on disk holds plaintext.
pub fn sink_kind(extract: bool, url: &str) -> (r: SinkKind)
    ensures
        r == (if extract && spec_compress_kind(url@) == Some(CompressKind::Xz) {
            SinkKind::Xz
        } else if extract && spec_compress_kind(url@) == Some(CompressKind::Gz) {
            SinkKind::Gz
        } else {
            SinkKind::Plain
        }),
{
    if !extract {
        return SinkKind::Plain;
    }
    let uc = chars_of(url);
    match crate::codec::compress_kind(uc.as_slice()) {
        Some(CompressKind::Xz) => SinkKind::Xz,
        Some(CompressKind::Gz) => SinkKind::Gz,
        _ => SinkKind::Plain,
    }
}

/// Decide what an HTTP status means for the body request: 404 is the
/// defined not-found error, any other status of 400 and above is an
/// opaque terminal error, anything below 400 proceeds.
pub fn status_action(status: u16, url: &str) -> (r: Result<(), DownloadError>)
    ensures
        match r {
            Ok(_) => status < 400,
            Err(e) => status >= 400 && e@ == (if status == 404 {
                DownloadErrorV::NotFound(url@)
            } else {
                DownloadErrorV::HttpStatus(status, url@)
            }),
        },
{
    if status == 404 {
        Err(DownloadError::NotFound(string_of(chars_of(url).as_slice())))
    } else if status >= 400 {
        Err(DownloadError::HttpStatus(status, string_of(chars_of(url).as_slice())))
    } else {
        Ok(())
    }
}

/// Resolve the filesystem path of a `file:` source URL: strip the scheme
/// prefix and percent-decode to a fixed point.
pub fn local_source_path(url: &str) -> (r: Result<String, DownloadError>)
    ensures
        match r {
            Ok(p) => has_prefix(url@, "file:"@) && spec_decode_fixed_point(
                url@.skip(5),
                8,
            ) == Some(p@),
            Err(_) => !has_prefix(url@, "file:"@) || spec_decode_fixed_point(
                url@.skip(5),
                8,
            ) is None,
        },
{
    let uc = chars_of(url);
    let prefix = chars_of("file:");
    proof {
        reveal_strlit("file:");
    }
    if !starts_with_chars(uc.as_slice(), prefix.as_slice()) {
        return Err(DownloadError::InvalidUrl(string_of(uc.as_slice())));
    }
    let mut rest: Vec<char> = Vec::new();
    let mut i: usize = 5;
    let n: usize = uc.len();
    assert(uc@.len() >= 5);
    while i < n
        invariant
            5 <= i <= n,
            n == uc@.len(),
            rest@ == uc@.subrange(5, i as int),
        decreases n - i,
    {
        rest.push(uc[i]);
        assert(rest@ =~= uc@.subrange(5, i + 1));
        i += 1;
    }
    proof {
        assert(rest@ =~= uc@.skip(5));
    }
    let rest_s = string_of(rest.as_slice());
    match url_no_escape(rest_s.as_str()) {
        Some(p) => Ok(p),
        None => Err(DownloadError::InvalidUrl(string_of(uc.as_slice()))),
    }
}

/// Build the error a terminally failed source reports.
fn error_of(outcome: &AttemptOutcome, url: String, dir: String) -> (r: DownloadError)
    ensures
        r@ == spec_error_of(outcome@, url@, dir@),
{
    match outcome {
        AttemptOutcome::NotFound => DownloadError::NotFound(url),
        AttemptOutcome::HttpStatus(c) => DownloadError::HttpStatus(*c, url),
        AttemptOutcome::NetworkIo(m) => DownloadError::NetworkIo(crate::control::copy_string(m)),
        AttemptOutcome::LocalIo(m) => DownloadError::LocalIo(url, crate::control::copy_string(m)),
        AttemptOutcome::Success => DownloadError::NetworkIo(url),
        AttemptOutcome::ChecksumMismatch => DownloadError::ChecksumMismatch(url, dir),
    }
}

} // verus!
