//! The bounded concurrent fetch orchestrator, as a verified state machine.
//!
//! One task exists per input URL.  A task walks `Pending` →
//! `PermitAcquired` → `ResponseReceived` → `Classified` or, on a
//! transport-level failure, to `TransportFailed`.  A permit of the shared
//! concurrency budget is held from acquisition until the terminal
//! transition, and the well-formedness invariant keeps the number of permit
//! holders at or under the ceiling at every instant.  A classified task
//! contributes exactly one report entry pairing its own URL with the
//! outcome it observed; a transport-failed task contributes exactly one
//! diagnostic and no entry.  The caller performs the actual waiting and
//! network I/O and reports each event; every transition, and every claim
//! above, is checked here.

use crate::request::RequestResponse;
use vstd::prelude::*;
use vstd::seq_lib::*;
use vstd::set_lib::*;

verus! {

/// The lifecycle of one fetch task.
pub enum TaskPhase {
    /// Not yet granted a permit.
    Pending,
    /// Holds a permit; the request has not completed.
    PermitAcquired,
    /// Holds a permit; a classifiable response has arrived.
    ResponseReceived,
    /// Terminal: the response was classified into this outcome.
    Classified(RequestResponse),
    /// Terminal: the fetch failed at the transport level with this
    /// diagnostic; no outcome exists.
    TransportFailed(String),
}

impl TaskPhase {
    /// The task holds a permit of the concurrency budget.
    pub open spec fn holds_permit(self) -> bool {
        self is PermitAcquired || self is ResponseReceived
    }

    /// The task has reached a terminal state.
    pub open spec fn is_terminal(self) -> bool {
        self is Classified || self is TransportFailed
    }
}

/// How many tasks of `s` hold a permit.
pub open spec fn count_holding(s: Seq<TaskPhase>) -> nat
    decreases s.len(),
{
    if s.len() == 0 {
        0
    } else {
        count_holding(s.drop_last()) + if s.last().holds_permit() {
            1nat
        } else {
            0nat
        }
    }
}

proof fn lemma_count_holding_push(s: Seq<TaskPhase>, p: TaskPhase)
    ensures
        count_holding(s.push(p)) == count_holding(s) + if p.holds_permit() {
            1nat
        } else {
            0nat
        },
{
    assert(s.push(p).drop_last() =~= s);
}

proof fn lemma_count_holding_update(s: Seq<TaskPhase>, i: int, p: TaskPhase)
    requires
        0 <= i < s.len(),
    ensures
        count_holding(s.update(i, p)) == count_holding(s) - (if s[i].holds_permit() {
            1int
        } else {
            0int
        }) + (if p.holds_permit() {
            1int
        } else {
            0int
        }),
    decreases s.len(),
{
    if i == s.len() - 1 {
        assert(s.update(i, p).drop_last() =~= s.drop_last());
        assert(s.update(i, p).last() == p);
    } else {
        lemma_count_holding_update(s.drop_last(), i, p);
        assert(s.update(i, p).drop_last() =~= s.drop_last().update(i, p));
        assert(s.update(i, p).last() == s.last());
    }
}

proof fn lemma_count_holding_at_least_one(s: Seq<TaskPhase>, i: int)
    requires
        0 <= i < s.len(),
        s[i].holds_permit(),
    ensures
        count_holding(s) >= 1,
    decreases s.len(),
{
    if i < s.len() - 1 {
        lemma_count_holding_at_least_one(s.drop_last(), i);
    }
}

/// The orchestrator's state: one task per URL, the permit ceiling, and the
/// report being assembled.
pub struct Orchestrator {
    /// The deduplicated input URLs, one task each.
    pub urls: Vec<String>,
    /// The concurrency ceiling: how many permits exist.
    pub capacity: usize,
    /// The phase of each task.
    pub phases: Vec<TaskPhase>,
    /// How many tasks currently hold a permit.
    pub in_flight: usize,
    /// The report entries, in completion order.
    pub entries: Vec<(String, RequestResponse)>,
    /// One diagnostic per transport-failed task, in completion order.
    pub diagnostics: Vec<(String, String)>,
    /// The task of each report entry, in entry order.
    pub done_order: Ghost<Seq<int>>,
    /// The task of each diagnostic, in diagnostic order.
    pub failed_order: Ghost<Seq<int>>,
}

impl Orchestrator {
    /// The number of tasks.
    pub open spec fn task_count(self) -> nat {
        self.urls@.len()
    }

    /// Well-formedness: the permit bound holds, and every entry and
    /// diagnostic is correctly paired with exactly one task.
    pub open spec fn wf(self) -> bool {
        &&& self.phases@.len() == self.urls@.len()
        &&& self.capacity >= 1
        &&& self.in_flight as nat == count_holding(self.phases@)
        &&& self.in_flight <= self.capacity
        &&& self.entries@.len() == self.done_order@.len()
        &&& forall|k: int|
            0 <= k < self.done_order@.len() ==> {
                &&& 0 <= #[trigger] self.done_order@[k] < self.phases@.len()
                &&& self.phases@[self.done_order@[k]] == TaskPhase::Classified(
                    self.entries@[k].1,
                )
                &&& self.entries@[k].0 == self.urls@[self.done_order@[k]]
            }
        &&& self.diagnostics@.len() == self.failed_order@.len()
        &&& forall|k: int|
            0 <= k < self.failed_order@.len() ==> {
                &&& 0 <= #[trigger] self.failed_order@[k] < self.phases@.len()
                &&& self.phases@[self.failed_order@[k]] == TaskPhase::TransportFailed(
                    self.diagnostics@[k].1,
                )
                &&& self.diagnostics@[k].0 == self.urls@[self.failed_order@[k]]
            }
        &&& self.done_order@.no_duplicates()
        &&& self.failed_order@.no_duplicates()
        &&& forall|i: int|
            0 <= i < self.phases@.len() && (#[trigger] self.phases@[i]) is Classified
                ==> self.done_order@.contains(i)
        &&& forall|i: int|
            0 <= i < self.phases@.len() && (#[trigger] self.phases@[i]) is TransportFailed
                ==> self.failed_order@.contains(i)
    }

    /// Starts a run: one pending task per URL, no permit held, an empty
    /// report.
    pub fn new(urls: Vec<String>, capacity: usize) -> (r: Orchestrator)
        requires
            capacity >= 1,
        ensures
            r.wf(),
            r.urls == urls,
            r.capacity == capacity,
            r.in_flight == 0,
            r.phases@.len() == urls@.len(),
            forall|i: int| 0 <= i < r.phases@.len() ==> (#[trigger] r.phases@[i]) is Pending,
            r.entries@.len() == 0,
            r.diagnostics@.len() == 0,
    {
        let n = urls.len();
        let mut phases: Vec<TaskPhase> = Vec::new();
        let mut i: usize = 0;
        while i < n
            invariant
                i <= n,
                phases@.len() == i as nat,
                forall|j: int| 0 <= j < i ==> (#[trigger] phases@[j]) is Pending,
                count_holding(phases@) == 0,
            decreases n - i,
        {
            proof {
                lemma_count_holding_push(phases@, TaskPhase::Pending);
            }
            phases.push(TaskPhase::Pending);
            i = i + 1;
        }
        Orchestrator {
            urls,
            capacity,
            phases,
            in_flight: 0,
            entries: Vec::new(),
            diagnostics: Vec::new(),
            done_order: Ghost(Seq::empty()),
            failed_order: Ghost(Seq::empty()),
        }
    }

    /// Grants task `i` a permit if one is free.  A permit is refused only
    /// when every permit is in use.
    pub fn try_acquire_permit(&mut self, i: usize) -> (granted: bool)
        requires
            old(self).wf(),
            i < old(self).phases@.len(),
            old(self).phases@[i as int] is Pending,
        ensures
            final(self).wf(),
            final(self).urls == old(self).urls,
            final(self).capacity == old(self).capacity,
            final(self).entries == old(self).entries,
            final(self).diagnostics == old(self).diagnostics,
            granted ==> final(self).phases@ == old(self).phases@.update(
                i as int,
                TaskPhase::PermitAcquired,
            ) && final(self).in_flight == old(self).in_flight + 1,
            !granted ==> *final(self) == *old(self) && old(self).in_flight == old(self).capacity,
    {
        if self.in_flight < self.capacity {
            proof {
                lemma_count_holding_update(self.phases@, i as int, TaskPhase::PermitAcquired);
            }
            self.phases.set(i, TaskPhase::PermitAcquired);
            self.in_flight = self.in_flight + 1;
            true
        } else {
            false
        }
    }

    /// Records that task `i`'s request completed with a classifiable
    /// response; the task keeps its permit until the terminal transition.
    pub fn mark_response_received(&mut self, i: usize)
        requires
            old(self).wf(),
            i < old(self).phases@.len(),
            old(self).phases@[i as int] is PermitAcquired,
        ensures
            final(self).wf(),
            final(self).urls == old(self).urls,
            final(self).capacity == old(self).capacity,
            final(self).entries == old(self).entries,
            final(self).diagnostics == old(self).diagnostics,
            final(self).in_flight == old(self).in_flight,
            final(self).phases@ == old(self).phases@.update(i as int, TaskPhase::ResponseReceived),
    {
        proof {
            lemma_count_holding_update(self.phases@, i as int, TaskPhase::ResponseReceived);
        }
        self.phases.set(i, TaskPhase::ResponseReceived);
    }

    /// Seals task `i` with its classified outcome: the permit is released
    /// and exactly one report entry is appended, pairing the task's own URL
    /// with the outcome it observed.
    pub fn complete_classified(&mut self, i: usize, outcome: RequestResponse)
        requires
            old(self).wf(),
            i < old(self).phases@.len(),
            old(self).phases@[i as int] is ResponseReceived,
        ensures
            final(self).wf(),
            final(self).urls == old(self).urls,
            final(self).capacity == old(self).capacity,
            final(self).diagnostics == old(self).diagnostics,
            final(self).in_flight == old(self).in_flight - 1,
            final(self).phases@ == old(self).phases@.update(i as int, TaskPhase::Classified(outcome)),
            final(self).entries@ == old(self).entries@.push((old(self).urls@[i as int], outcome)),
    {
        proof {
            lemma_count_holding_update(self.phases@, i as int, TaskPhase::Classified(outcome));
            lemma_count_holding_at_least_one(self.phases@, i as int);
        }
        let url = self.urls[i].clone();
        self.entries.push((url, outcome.clone()));
        self.phases.set(i, TaskPhase::Classified(outcome));
        self.in_flight = self.in_flight - 1;
        proof {
            self.done_order@ = old(self).done_order@.push(i as int);
            assert forall|j: int|
                0 <= j < self.phases@.len() && (#[trigger] self.phases@[j]) is Classified
                    implies self.done_order@.contains(j) by {
                if j == i {
                    assert(self.done_order@[self.done_order@.len() - 1] == j);
                } else {
                    assert(old(self).done_order@.contains(j));
                    let k = choose|k: int|
                        0 <= k < old(self).done_order@.len() && old(self).done_order@[k] == j;
                    assert(self.done_order@[k] == j);
                }
            }
            assert(!old(self).done_order@.contains(i as int));
            assert(self.entries@ =~= old(self).entries@.push(
                (old(self).urls@[i as int], outcome),
            ));
        }
    }

    /// Seals task `i` as failed at the transport level while holding its
    /// permit: the permit is released, no entry is appended, and exactly one
    /// diagnostic pairing the task's URL with the failure is recorded.
    pub fn complete_transport_failed(&mut self, i: usize, message: String)
        requires
            old(self).wf(),
            i < old(self).phases@.len(),
            old(self).phases@[i as int].holds_permit(),
        ensures
            final(self).wf(),
            final(self).urls == old(self).urls,
            final(self).capacity == old(self).capacity,
            final(self).entries == old(self).entries,
            final(self).in_flight == old(self).in_flight - 1,
            final(self).phases@ == old(self).phases@.update(
                i as int,
                TaskPhase::TransportFailed(message),
            ),
            final(self).diagnostics@ == old(self).diagnostics@.push(
                (old(self).urls@[i as int], message),
            ),
    {
        proof {
            lemma_count_holding_update(
                self.phases@,
                i as int,
                TaskPhase::TransportFailed(message),
            );
            lemma_count_holding_at_least_one(self.phases@, i as int);
        }
        let url = self.urls[i].clone();
        self.diagnostics.push((url, message.clone()));
        self.phases.set(i, TaskPhase::TransportFailed(message));
        self.in_flight = self.in_flight - 1;
        proof {
            self.failed_order@ = old(self).failed_order@.push(i as int);
            assert forall|j: int|
                0 <= j < self.phases@.len() && (#[trigger] self.phases@[j]) is TransportFailed
                    implies self.failed_order@.contains(j) by {
                if j == i {
                    assert(self.failed_order@[self.failed_order@.len() - 1] == j);
                } else {
                    assert(old(self).failed_order@.contains(j));
                    let k = choose|k: int|
                        0 <= k < old(self).failed_order@.len() && old(self).failed_order@[k] == j;
                    assert(self.failed_order@[k] == j);
                }
            }
            assert(!old(self).failed_order@.contains(i as int));
            assert(self.diagnostics@ =~= old(self).diagnostics@.push(
                (old(self).urls@[i as int], message),
            ));
        }
    }

    /// Seals task `i` as failed before it ever held a permit (a
    /// permit-acquisition fault, or a task that could not be tracked to
    /// completion): no entry, exactly one diagnostic, no permit movement.
    pub fn abandon_pending(&mut self, i: usize, message: String)
        requires
            old(self).wf(),
            i < old(self).phases@.len(),
            old(self).phases@[i as int] is Pending,
        ensures
            final(self).wf(),
            final(self).urls == old(self).urls,
            final(self).capacity == old(self).capacity,
            final(self).entries == old(self).entries,
            final(self).in_flight == old(self).in_flight,
            final(self).phases@ == old(self).phases@.update(
                i as int,
                TaskPhase::TransportFailed(message),
            ),
            final(self).diagnostics@ == old(self).diagnostics@.push(
                (old(self).urls@[i as int], message),
            ),
    {
        proof {
            lemma_count_holding_update(
                self.phases@,
                i as int,
                TaskPhase::TransportFailed(message),
            );
        }
        let url = self.urls[i].clone();
        self.diagnostics.push((url, message.clone()));
        self.phases.set(i, TaskPhase::TransportFailed(message));
        proof {
            self.failed_order@ = old(self).failed_order@.push(i as int);
            assert forall|j: int|
                0 <= j < self.phases@.len() && (#[trigger] self.phases@[j]) is TransportFailed
                    implies self.failed_order@.contains(j) by {
                if j == i {
                    assert(self.failed_order@[self.failed_order@.len() - 1] == j);
                } else {
                    assert(old(self).failed_order@.contains(j));
                    let k = choose|k: int|
                        0 <= k < old(self).failed_order@.len() && old(self).failed_order@[k] == j;
                    assert(self.failed_order@[k] == j);
                }
            }
            assert(!old(self).failed_order@.contains(i as int));
            assert(self.diagnostics@ =~= old(self).diagnostics@.push(
                (old(self).urls@[i as int], message),
            ));
        }
    }

    /// How many permits are in use right now.
    pub fn permits_in_use(&self) -> (n: usize)
        requires
            self.wf(),
        ensures
            n as nat == count_holding(self.phases@),
            n <= self.capacity,
    {
        self.in_flight
    }

    /// Whether every task has reached a terminal state.
    pub fn is_complete(&self) -> (r: bool)
        ensures
            r == forall|i: int|
                0 <= i < self.phases@.len() ==> (#[trigger] self.phases@[i]).is_terminal(),
    {
        let mut i: usize = 0;
        while i < self.phases.len()
            invariant
                i <= self.phases@.len(),
                forall|j: int| 0 <= j < i ==> (#[trigger] self.phases@[j]).is_terminal(),
            decreases self.phases@.len() - i,
        {
            let terminal = match &self.phases[i] {
                TaskPhase::Classified(_) => true,
                TaskPhase::TransportFailed(_) => true,
                _ => false,
            };
            if !terminal {
                return false;
            }
            i = i + 1;
        }
        true
    }

    /// Seals the run: hands back the report entries and the diagnostics,
    /// once every task has been accounted for.
    pub fn into_report(self) -> (r: (Vec<(String, RequestResponse)>, Vec<(String, String)>))
        requires
            self.wf(),
            forall|i: int|
                0 <= i < self.phases@.len() ==> (#[trigger] self.phases@[i]).is_terminal(),
        ensures
            r.0 == self.entries,
            r.1 == self.diagnostics,
            r.0@.len() + r.1@.len() == self.task_count(),
    {
        proof {
            self.lemma_complete_accounts_for_every_task();
        }
        (self.entries, self.diagnostics)
    }

    /// Bounded concurrency: in a well-formed state, the number of tasks
    /// simultaneously past permit acquisition and before permit release
    /// never exceeds the ceiling.
    pub proof fn lemma_bounded_concurrency(self)
        requires
            self.wf(),
        ensures
            count_holding(self.phases@) <= self.capacity,
    {
    }

    /// A transport-failed task contributes no report entry, and exactly one
    /// diagnostic.
    pub proof fn lemma_transport_failure_isolated(self, i: int)
        requires
            self.wf(),
            0 <= i < self.phases@.len(),
            self.phases@[i] is TransportFailed,
        ensures
            forall|k: int| 0 <= k < self.done_order@.len() ==> #[trigger] self.done_order@[k] != i,
            exists|k: int| 0 <= k < self.failed_order@.len() && #[trigger] self.failed_order@[k] == i,
            forall|k1: int, k2: int|
                0 <= k1 < self.failed_order@.len() && 0 <= k2 < self.failed_order@.len()
                    && #[trigger] self.failed_order@[k1] == i && #[trigger] self.failed_order@[k2]
                    == i ==> k1 == k2,
    {
        assert(self.failed_order@.contains(i));
    }

    /// With pairwise-distinct input URLs, the URL of a transport-failed
    /// task appears in no report entry.
    pub proof fn lemma_transport_failure_no_entry(self, i: int)
        requires
            self.wf(),
            0 <= i < self.phases@.len(),
            self.phases@[i] is TransportFailed,
            forall|a: int, b: int|
                0 <= a < b < self.urls@.len() ==> (#[trigger] self.urls@[a])@ != (
                #[trigger] self.urls@[b])@,
        ensures
            forall|k: int|
                0 <= k < self.entries@.len() ==> (#[trigger] self.entries@[k]).0@ != self.urls@[i]@,
            exists|k: int|
                0 <= k < self.diagnostics@.len() && (#[trigger] self.diagnostics@[k]).0@
                    == self.urls@[i]@,
            forall|k1: int, k2: int|
                0 <= k1 < self.diagnostics@.len() && 0 <= k2 < self.diagnostics@.len() && (
                #[trigger] self.diagnostics@[k1]).0@ == self.urls@[i]@ && (
                #[trigger] self.diagnostics@[k2]).0@ == self.urls@[i]@ ==> k1 == k2,
    {
        assert forall|k: int|
            0 <= k < self.entries@.len() implies (#[trigger] self.entries@[k]).0@
            != self.urls@[i]@ by {
            let j = self.done_order@[k];
            assert(self.phases@[j] is Classified);
            assert(j != i);
            if j < i {
                assert(self.urls@[j]@ != self.urls@[i]@);
            } else {
                assert(self.urls@[i]@ != self.urls@[j]@);
            }
        }
        assert(self.failed_order@.contains(i));
        let kw = choose|kw: int| 0 <= kw < self.failed_order@.len() && self.failed_order@[kw] == i;
        assert(self.diagnostics@[kw].0@ == self.urls@[i]@);
        assert forall|k1: int, k2: int|
            0 <= k1 < self.diagnostics@.len() && 0 <= k2 < self.diagnostics@.len() && (
            #[trigger] self.diagnostics@[k1]).0@ == self.urls@[i]@ && (
            #[trigger] self.diagnostics@[k2]).0@ == self.urls@[i]@ implies k1 == k2 by {
            let j1 = self.failed_order@[k1];
            let j2 = self.failed_order@[k2];
            assert(self.diagnostics@[k1].0@ == self.urls@[j1]@);
            assert(self.diagnostics@[k2].0@ == self.urls@[j2]@);
            if j1 < j2 {
                assert(self.urls@[j1]@ != self.urls@[j2]@);
            } else if j2 < j1 {
                assert(self.urls@[j2]@ != self.urls@[j1]@);
            }
            assert(j1 == j2);
            if k1 != k2 {
                assert(self.failed_order@[k1] != self.failed_order@[k2]);
            }
        }
    }

    /// With pairwise-distinct input URLs, no URL appears twice in the
    /// report.
    pub proof fn lemma_report_urls_distinct(self)
        requires
            self.wf(),
            forall|a: int, b: int|
                0 <= a < b < self.urls@.len() ==> (#[trigger] self.urls@[a])@ != (
                #[trigger] self.urls@[b])@,
        ensures
            forall|k1: int, k2: int|
                0 <= k1 < k2 < self.entries@.len() ==> (#[trigger] self.entries@[k1]).0@ != (
                #[trigger] self.entries@[k2]).0@,
    {
        assert forall|k1: int, k2: int|
            0 <= k1 < k2 < self.entries@.len() implies (#[trigger] self.entries@[k1]).0@ != (
        #[trigger] self.entries@[k2]).0@ by {
            let i1 = self.done_order@[k1];
            let i2 = self.done_order@[k2];
            assert(i1 != i2);
            if i1 < i2 {
                assert(self.urls@[i1]@ != self.urls@[i2]@);
            } else {
                assert(self.urls@[i2]@ != self.urls@[i1]@);
            }
        }
    }

    /// The report never holds more entries than there are URLs, and never
    /// two entries for one task.
    pub proof fn lemma_report_bounded(self)
        requires
            self.wf(),
        ensures
            self.entries@.len() <= self.urls@.len(),
    {
        let n = self.phases@.len() as int;
        self.done_order@.unique_seq_to_set();
        assert(self.done_order@.to_set().subset_of(set_int_range(0, n))) by {
            assert forall|x: int| self.done_order@.to_set().contains(x) implies set_int_range(
                0,
                n,
            ).contains(x) by {
                let k = choose|k: int|
                    0 <= k < self.done_order@.len() && self.done_order@[k] == x;
                assert(0 <= self.done_order@[k] < n);
            }
        }
        lemma_int_range(0, n);
        lemma_len_subset(self.done_order@.to_set(), set_int_range(0, n));
    }

    /// Once every task is terminal, every URL is accounted for: it yielded
    /// either a report entry or a diagnostic, with no third possibility.
    pub proof fn lemma_complete_accounts_for_every_task(self)
        requires
            self.wf(),
            forall|i: int|
                0 <= i < self.phases@.len() ==> (#[trigger] self.phases@[i]).is_terminal(),
        ensures
            self.entries@.len() + self.diagnostics@.len() == self.task_count(),
    {
        let n = self.phases@.len() as int;
        let both = self.done_order@ + self.failed_order@;
        assert(both.no_duplicates()) by {
            assert forall|a: int, b: int|
                0 <= a < both.len() && 0 <= b < both.len() && a != b implies both[a] != both[
            b] by {
                if a < self.done_order@.len() && b < self.done_order@.len() {
                } else if a >= self.done_order@.len() && b >= self.done_order@.len() {
                } else if a < self.done_order@.len() {
                    assert(self.phases@[both[a]] is Classified);
                    assert(self.phases@[both[b]] is TransportFailed);
                } else {
                    assert(self.phases@[both[a]] is TransportFailed);
                    assert(self.phases@[both[b]] is Classified);
                }
            }
        }
        both.unique_seq_to_set();
        assert(both.to_set() =~= set_int_range(0, n)) by {
            assert forall|x: int| set_int_range(0, n).contains(x) implies both.to_set().contains(
                x,
            ) by {
                assert(self.phases@[x].is_terminal());
                if self.phases@[x] is Classified {
                    assert(self.done_order@.contains(x));
                    let k = choose|k: int|
                        0 <= k < self.done_order@.len() && self.done_order@[k] == x;
                    assert(both[k] == x);
                } else {
                    assert(self.failed_order@.contains(x));
                    let k = choose|k: int|
                        0 <= k < self.failed_order@.len() && self.failed_order@[k] == x;
                    assert(both[self.done_order@.len() + k] == x);
                }
            }
            assert forall|x: int| both.to_set().contains(x) implies set_int_range(0, n).contains(
                x,
            ) by {
                let k = choose|k: int| 0 <= k < both.len() && both[k] == x;
            }
        }
        lemma_int_range(0, n);
    }
}

} // verus!
