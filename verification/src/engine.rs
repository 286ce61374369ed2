//! The filtering engine's shared state and its generation protocol.
//!
//! A generation is one run of the engine over the streamed log. The state
//! machine here decides, for every delivered batch, whether the batch still
//! belongs to the current generation, whether the log is exhausted, and what
//! to append to the accumulator; the thread, channel and sleep plumbing that
//! drives it lives outside the library and can only feed batches through
//! `process_batch`, so a superseded generation can never touch the
//! accumulator again.

use vstd::prelude::*;
use vstd::string::StrSliceExecFns;
use crate::mask::FilterBy;
use crate::matcher::{conj_views, matching, lemma_matching_pred, query_matches, CommitInfo};

verus! {

/// Whether the engine is still producing matches or has come to rest.
#[derive(Clone, Copy, Debug, PartialEq, Eq, Structural)]
pub enum FilterStatus {
    Filtering,
    Finished,
}

/// What one delivered batch did to the engine.
#[derive(Clone, Copy, Debug, PartialEq, Eq, Structural)]
pub enum BatchOutcome {
    /// The batch belonged to a superseded or stopped generation; nothing changed.
    Superseded,
    /// The log is exhausted: the generation finished normally.
    Finished,
    /// Matches were appended and the cursor advanced; keep going.
    Continue,
}

/// How many commit identifiers one batch of the log is asked for.
pub const SLICE_SIZE: usize = 1200;

/// The engine: the compiled query of the current generation, the matches
/// accumulated so far, and the flags the reading side polls.
pub struct AsyncCommitFilterer {
    /// Compiled query of the current generation.
    pub filter_strings: Vec<Vec<(String, FilterBy)>>,
    /// Matches accumulated by the current generation, in log order.
    pub filtered_commits: Vec<CommitInfo>,
    /// Number of matches accumulated; always the accumulator's length.
    pub filter_count: usize,
    /// Set when the engine reached the end of the log or was stopped.
    pub filter_finished: bool,
    /// True while a generation is expected to produce more matches.
    pub is_pending_local: bool,
    /// Identifier of the current generation; batches tagged with an older one
    /// are refused.
    pub generation: u64,
    /// Position in the log the current generation reads next.
    pub cur_index: usize,
}

/// The first `limit` characters of `m`, or all of `m` if it is shorter.
pub open spec fn truncated(m: Seq<char>, limit: int) -> Seq<char> {
    if m.len() <= limit {
        m
    } else {
        m.take(limit)
    }
}

/// The string cut down to its first `limit` characters.
pub fn limit_str(s: &str, limit: usize) -> (r: String)
    ensures
        r@ == truncated(s@, limit as int),
{
    let n = s.unicode_len();
    if n <= limit {
        let r = s.substring_char(0, n);
        proof {
            assert(s@.subrange(0, n as int) =~= s@);
        }
        r.to_owned()
    } else {
        let r = s.substring_char(0, limit);
        proof {
            assert(s@.subrange(0, limit as int) =~= s@.take(limit as int));
        }
        r.to_owned()
    }
}

impl AsyncCommitFilterer {
    /// The engine's invariant: the counter equals the accumulator's length,
    /// and every accumulated record matches the query the engine currently
    /// carries.
    pub open spec fn wf(self) -> bool {
        &&& self.filter_count == self.filtered_commits@.len()
        &&& forall|i: int|
            0 <= i < self.filtered_commits@.len() ==> query_matches(
                #[trigger] self.filtered_commits@[i],
                conj_views(self.filter_strings@),
            )
    }

    /// The status the reading side sees.
    pub open spec fn spec_status(self) -> FilterStatus {
        if self.filter_finished {
            FilterStatus::Finished
        } else {
            FilterStatus::Filtering
        }
    }

    /// The state a generation leaves when it reaches the end of the log:
    /// come to rest, the accumulated matches kept readable.
    pub open spec fn spec_finished(self) -> AsyncCommitFilterer {
        AsyncCommitFilterer { filter_finished: true, is_pending_local: false, ..self }
    }

    /// `self` is what an explicit stop leaves of `pre`: at rest, the
    /// accumulator and counter destroyed, the rest untouched.
    pub open spec fn is_stopped(self, pre: AsyncCommitFilterer) -> bool {
        &&& self.filter_finished
        &&& !self.is_pending_local
        &&& self.filter_count == 0
        &&& self.filtered_commits@ == Seq::<CommitInfo>::empty()
        &&& self.filter_strings == pre.filter_strings
        &&& self.generation == pre.generation
        &&& self.cur_index == pre.cur_index
    }

    /// A fresh engine: empty query, empty accumulator, nothing running.
    pub fn new() -> (r: AsyncCommitFilterer)
        ensures
            r.filter_strings@ == Seq::<Vec<(String, FilterBy)>>::empty(),
            r.filtered_commits@ == Seq::<CommitInfo>::empty(),
            r.filter_count == 0,
            !r.filter_finished,
            !r.is_pending_local,
            r.generation == 0,
            r.cur_index == 0,
            r.wf(),
    {
        AsyncCommitFilterer {
            filter_strings: Vec::new(),
            filtered_commits: Vec::new(),
            filter_count: 0,
            filter_finished: false,
            is_pending_local: false,
            generation: 0,
            cur_index: 0,
        }
    }

    /// True only while a generation is expected to produce more matches.
    pub fn is_pending(&self) -> (r: bool)
        ensures
            r == (self.is_pending_local && !self.filter_finished),
    {
        self.is_pending_local && !self.filter_finished
    }

    /// Empties the accumulator and the counter together, so that they stay
    /// consistent; everything else is untouched.
    pub fn clear(&mut self)
        ensures
            final(self).filtered_commits@ == Seq::<CommitInfo>::empty(),
            final(self).filter_count == 0,
            final(self).filter_strings == old(self).filter_strings,
            final(self).filter_finished == old(self).filter_finished,
            final(self).is_pending_local == old(self).is_pending_local,
            final(self).generation == old(self).generation,
            final(self).cur_index == old(self).cur_index,
            final(self).wf(),
    {
        self.filtered_commits = Vec::new();
        self.filter_count = 0;
    }

    /// Cancels whatever generation was running and begins a new one: the
    /// accumulator, counter and cursor are reset, the query installed, and
    /// the generation identifier advanced so that batches of the superseded
    /// run are refused from here on.
    pub fn start_filter(&mut self, filter_strings: Vec<Vec<(String, FilterBy)>>)
        requires
            old(self).generation < u64::MAX,
        ensures
            final(self).filter_strings == filter_strings,
            final(self).filtered_commits@ == Seq::<CommitInfo>::empty(),
            final(self).filter_count == 0,
            !final(self).filter_finished,
            final(self).is_pending_local,
            final(self).generation == old(self).generation + 1,
            final(self).cur_index == 0,
            final(self).wf(),
    {
        self.filter_strings = filter_strings;
        self.filtered_commits = Vec::new();
        self.filter_count = 0;
        self.filter_finished = false;
        self.is_pending_local = true;
        self.generation = self.generation + 1;
        self.cur_index = 0;
    }

    /// Signals the active generation to cease, marks the engine finished,
    /// and destroys the accumulator and the counter; safe to call with none
    /// running, and calling it twice leaves exactly the state one call
    /// leaves.
    pub fn stop_filter(&mut self)
        ensures
            final(self).is_stopped(*old(self)),
            final(self).wf(),
    {
        self.filter_finished = true;
        self.is_pending_local = false;
        self.filter_count = 0;
        self.filtered_commits = Vec::new();
    }

    /// The generation identifier a newly started run must tag its batches with.
    pub fn current_generation(&self) -> (r: u64)
        ensures
            r == self.generation,
    {
        self.generation
    }

    /// The log position the current generation reads next.
    pub fn cursor(&self) -> (r: usize)
        ensures
            r == self.cur_index,
    {
        self.cur_index
    }

    /// Number of matches accumulated so far.
    pub fn count(&self) -> (r: usize)
        ensures
            r == self.filter_count,
    {
        self.filter_count
    }

    /// The status the reading side sees.
    pub fn fetch(&self) -> (r: FilterStatus)
        ensures
            r == self.spec_status(),
    {
        if self.filter_finished {
            FilterStatus::Finished
        } else {
            FilterStatus::Filtering
        }
    }

    /// The commits of the batch that match the query, in their incoming order.
    pub fn filter(
        vec_commit_info: Vec<CommitInfo>,
        filter_strings: &Vec<Vec<(String, FilterBy)>>,
    ) -> (r: Vec<CommitInfo>)
        ensures
            r@ == matching(vec_commit_info@, conj_views(filter_strings@)),
    {
        crate::matcher::filter(vec_commit_info, filter_strings)
    }

    /// One step of a generation: a batch of resolved records, tagged with the
    /// generation that fetched it, and whether the log was still loading.
    ///
    /// A batch of a superseded or stopped generation changes nothing. An
    /// empty batch of a log that is done loading finishes the run. Otherwise
    /// the matches of the batch are appended in order, the counter moves with
    /// the accumulator, and the cursor advances by one slice.
    pub fn process_batch(
        &mut self,
        generation: u64,
        batch: Vec<CommitInfo>,
        log_pending: bool,
    ) -> (r: BatchOutcome)
        requires
            old(self).wf(),
            old(self).cur_index <= usize::MAX - SLICE_SIZE,
            old(self).filtered_commits@.len() + batch@.len() <= usize::MAX,
        ensures
            final(self).wf(),
            generation != old(self).generation || old(self).filter_finished ==> *final(self) == *old(
                self,
            ) && r == BatchOutcome::Superseded,
            generation == old(self).generation && !old(self).filter_finished && batch@.len() == 0
                && !log_pending ==> *final(self) == old(self).spec_finished() && r
                == BatchOutcome::Finished,
            generation == old(self).generation && !old(self).filter_finished && (batch@.len() > 0
                || log_pending) ==> {
                &&& final(self).filtered_commits@ == old(self).filtered_commits@ + matching(
                    batch@,
                    conj_views(old(self).filter_strings@),
                )
                &&& final(self).filter_count == final(self).filtered_commits@.len()
                &&& final(self).filter_count >= old(self).filter_count
                &&& final(self).cur_index == old(self).cur_index + SLICE_SIZE
                &&& final(self).filter_strings == old(self).filter_strings
                &&& final(self).filter_finished == old(self).filter_finished
                &&& final(self).is_pending_local == old(self).is_pending_local
                &&& final(self).generation == old(self).generation
                &&& r == BatchOutcome::Continue
            },
    {
        if generation != self.generation || self.filter_finished {
            return BatchOutcome::Superseded;
        }
        if batch.len() == 0 && !log_pending {
            self.filter_finished = true;
            self.is_pending_local = false;
            return BatchOutcome::Finished;
        }
        let ghost q = conj_views(self.filter_strings@);
        let ghost batch_view = batch@;
        let mut found = crate::matcher::filter(batch, &self.filter_strings);
        proof {
            batch_view.lemma_filter_len(|c: CommitInfo| query_matches(c, q));
            lemma_matching_pred(batch_view, q);
        }
        let added = found.len();
        let ghost before = self.filtered_commits@;
        self.filtered_commits.append(&mut found);
        self.filter_count = self.filter_count + added;
        self.cur_index = self.cur_index + SLICE_SIZE;
        proof {
            assert forall|i: int| 0 <= i < self.filtered_commits@.len() implies query_matches(
                #[trigger] self.filtered_commits@[i],
                conj_views(self.filter_strings@),
            ) by {
                if i >= before.len() {
                    assert(self.filtered_commits@[i] == matching(batch_view, q)[i - before.len()]);
                } else {
                    assert(self.filtered_commits@[i] == before[i]);
                }
            }
        }
        BatchOutcome::Continue
    }

    /// A snapshot of one page of the accumulator: the window is clamped to
    /// the accumulated length, so no offset or amount can make it fail, and
    /// each returned record carries its message cut to the display limit.
    pub fn get_filter_items(&self, start: usize, amount: usize, message_length_limit: usize) -> (r:
        Vec<CommitInfo>)
        ensures
            ({
                let base = self.filtered_commits@;
                let lo = if start <= base.len() {
                    start as int
                } else {
                    base.len() as int
                };
                let hi = if lo + amount <= base.len() {
                    lo + amount
                } else {
                    base.len() as int
                };
                &&& r@.len() == hi - lo
                &&& forall|k: int|
                    0 <= k < r@.len() ==> (#[trigger] r@[k]).id@ == base[lo + k].id@ && r@[k].author@
                        == base[lo + k].author@ && r@[k].message@ == truncated(
                        base[lo + k].message@,
                        message_length_limit as int,
                    )
            }),
    {
        let len = self.filtered_commits.len();
        let lo = if start <= len {
            start
        } else {
            len
        };
        let hi = if amount <= len - lo {
            lo + amount
        } else {
            len
        };
        let mut r: Vec<CommitInfo> = Vec::new();
        let mut k: usize = lo;
        while k < hi
            invariant
                lo <= k <= hi <= self.filtered_commits@.len(),
                r@.len() == k - lo,
                forall|j: int|
                    0 <= j < r@.len() ==> (#[trigger] r@[j]).id@ == self.filtered_commits@[lo
                        + j].id@ && r@[j].author@ == self.filtered_commits@[lo + j].author@
                        && r@[j].message@ == truncated(
                        self.filtered_commits@[lo + j].message@,
                        message_length_limit as int,
                    ),
            decreases hi - k,
        {
            let c = &self.filtered_commits[k];
            let shown = CommitInfo {
                id: c.id.clone(),
                author: c.author.clone(),
                message: limit_str(c.message.as_str(), message_length_limit),
            };
            r.push(shown);
            k += 1;
        }
        r
    }
}

/// Stopping an engine twice leaves exactly the state one stop leaves: the
/// second stop changes nothing observable.
pub proof fn lemma_stop_filter_idempotent(
    e0: AsyncCommitFilterer,
    e1: AsyncCommitFilterer,
    e2: AsyncCommitFilterer,
)
    requires
        e1.is_stopped(e0),
        e2.is_stopped(e1),
    ensures
        e2.filter_finished == e1.filter_finished,
        e2.is_pending_local == e1.is_pending_local,
        e2.filter_count == e1.filter_count,
        e2.filtered_commits@ == e1.filtered_commits@,
        e2.filter_strings == e1.filter_strings,
        e2.generation == e1.generation,
        e2.cur_index == e1.cur_index,
{
}

/// Every stop — also one on an engine that never started — leaves status
/// Finished, count 0, an empty accumulator, and a well-formed engine.
pub proof fn lemma_stop_rests(pre: AsyncCommitFilterer, post: AsyncCommitFilterer)
    requires
        post.is_stopped(pre),
    ensures
        post.spec_status() == FilterStatus::Finished,
        post.filter_count == 0,
        post.filtered_commits@ == Seq::<CommitInfo>::empty(),
        post.wf(),
{
}

/// Matches of superseded generations never survive: a well-formed engine's
/// accumulator holds only records that match the query it currently carries,
/// whatever earlier generations ran before it.
pub proof fn lemma_accumulator_matches_current_query(e: AsyncCommitFilterer)
    requires
        e.wf(),
    ensures
        forall|i: int|
            0 <= i < e.filtered_commits@.len() ==> query_matches(
                #[trigger] e.filtered_commits@[i],
                conj_views(e.filter_strings@),
            ),
{
}

} // verus!
