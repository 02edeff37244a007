//! Browsing and resolving within a time limit.
use crate::dnssd::{
    apply_browse_event, browse_is_quiet, browse_started, drain_browse_events, hosts_after,
    hosts_after_all, instances_after, instances_after_all, instances_all_resolved, is_news,
    next_wait, resolve_stage, BrowseEvent, HostAddresses, Instances, ResolveOutcome,
    BROWSE_QUIET_PERIOD, POLL_INTERVAL,
};
use crate::error::PlumeError;
use crate::table::Table;
use vstd::prelude::*;

verus! {

/// How long to wait for the next answer, in nanoseconds; none once the deadline has come.
pub open spec fn wait_until(now: u128, deadline: u128) -> Option<u128> {
    if now >= deadline {
        None
    } else if deadline - now < POLL_INTERVAL {
        Some((deadline - now) as u128)
    } else {
        Some(POLL_INTERVAL)
    }
}

// ---------------------------------------------------------------------------
// Browsing
// ---------------------------------------------------------------------------

/// What came of waiting.
#[derive(Debug)]
pub enum BrowseAnswer {
    Event(BrowseEvent),
    /// Nothing came. A service that nobody offers never answers.
    Timeout,
    /// Nothing can come any more.
    Disconnected,
}

/// Browsing for services until nothing new comes. Instants are in nanoseconds.
#[derive(Debug)]
pub struct BrowseStage {
    pub instances: Instances,
    pub host_addresses: HostAddresses,
    /// When something new came last.
    pub last_progress: u128,
    pub deadline: u128,
}

impl BrowseStage {
    /// Something was found, and nothing new came for a while.
    pub open spec fn quiet(self, now: u128) -> bool {
        self.instances@.len() > 0 && now - self.last_progress >= BROWSE_QUIET_PERIOD
    }

    /// Starts with nothing found, where the system accepted the request for any of the services.
    pub fn new(accepted: usize, now: u128, deadline: u128) -> (r: Result<BrowseStage, PlumeError>)
        ensures
            match r {
                Ok(s) => accepted > 0 && s.instances@.len() == 0 && s.host_addresses@.len() == 0
                    && s.last_progress == now && s.deadline == deadline,
                Err(PlumeError::Other(m)) => accepted == 0 && m@
                    == "DnsServiceBrowse failed for every service type"@,
                Err(_) => false,
            },
    {
        match browse_started(accepted) {
            Ok(_) => Ok(
                BrowseStage {
                    instances: Table::new(),
                    host_addresses: Table::new(),
                    last_progress: now,
                    deadline,
                },
            ),
            Err(e) => Err(e),
        }
    }

    /// How long to wait for the next answer; none once the deadline has come.
    pub fn wait(&self, now: u128) -> (r: Option<u128>)
        ensures
            r == wait_until(now, self.deadline),
    {
        next_wait(now, self.deadline)
    }

    /// Takes an answer that came by `now`. Returns whether browsing goes on.
    pub fn answered(&mut self, answer: BrowseAnswer, now: u128) -> (r: bool)
        ensures
            final(self).deadline == old(self).deadline,
            match answer {
                BrowseAnswer::Event(event) => {
                    &&& final(self).instances@ == instances_after(old(self).instances@, event)
                    &&& final(self).host_addresses@ == hosts_after(
                        old(self).host_addresses@,
                        event,
                    )
                    &&& final(self).last_progress == if is_news(
                        old(self).instances@,
                        old(self).host_addresses@,
                        event,
                    ) {
                        now
                    } else {
                        old(self).last_progress
                    }
                    &&& r == !final(self).quiet(now)
                },
                BrowseAnswer::Timeout => *final(self) == *old(self) && r == !final(self).quiet(now),
                BrowseAnswer::Disconnected => *final(self) == *old(self) && !r,
            },
    {
        match answer {
            BrowseAnswer::Event(event) => {
                if apply_browse_event(event, &mut self.instances, &mut self.host_addresses) {
                    self.last_progress = now;
                }
            },
            BrowseAnswer::Timeout => {},
            BrowseAnswer::Disconnected => {
                return false;
            },
        }
        let since: u128 = if now >= self.last_progress {
            now - self.last_progress
        } else {
            0
        };
        !browse_is_quiet(self.instances.entries.len() > 0, since)
    }

    /// What is known in the end, with the events that were queued by then.
    pub fn finish(self, queued: Vec<BrowseEvent>) -> (r: (Instances, HostAddresses))
        ensures
            r.0@ == instances_after_all(self.instances@, queued@, queued@.len() as int),
            r.1@ == hosts_after_all(self.host_addresses@, queued@, queued@.len() as int),
    {
        let mut instances: Instances = self.instances;
        let mut host_addresses: HostAddresses = self.host_addresses;
        drain_browse_events(queued, &mut instances, &mut host_addresses);
        (instances, host_addresses)
    }
}

/// Browsing does not go quiet before anything was found, nor just after something new came.
pub proof fn law_browsing_waits_for_findings(stage: BrowseStage, now: u128)
    requires
        stage.instances@.len() == 0 || stage.last_progress == now,
    ensures
        !stage.quiet(now),
{
}

// ---------------------------------------------------------------------------
// Resolving
// ---------------------------------------------------------------------------

/// What came of waiting.
#[derive(Debug)]
pub enum ResolveAnswer {
    /// The request at this index has ended, with or without an outcome.
    Ended(usize, Option<ResolveOutcome>),
    Timeout,
    Disconnected,
}

/// Waiting for the outcomes of requests. Instants are in nanoseconds.
#[derive(Debug)]
pub struct ResolveWait {
    pub outcomes: Vec<(usize, ResolveOutcome)>,
    pub done: usize,
    pub asked: usize,
    pub deadline: u128,
}

/// The index of the first outcome of the request `idx`, at or after `from`, or the number of
/// outcomes.
pub open spec fn outcome_index(outcomes: Seq<(usize, ResolveOutcome)>, idx: usize, from: int) -> int
    decreases outcomes.len() - from,
{
    if from >= outcomes.len() || outcomes[from].0 == idx {
        from
    } else {
        outcome_index(outcomes, idx, from + 1)
    }
}

/// The outcomes with one more: it takes the place of an earlier one of the same request.
pub open spec fn with_outcome(
    outcomes: Seq<(usize, ResolveOutcome)>,
    idx: usize,
    outcome: Option<ResolveOutcome>,
) -> Seq<(usize, ResolveOutcome)> {
    let i = outcome_index(outcomes, idx, 0);
    match outcome {
        Some(o) => if i < outcomes.len() {
            outcomes.update(i, (idx, o))
        } else {
            outcomes.push((idx, o))
        },
        None => outcomes,
    }
}

/// The outcomes after the first `n` answers that came late.
pub open spec fn with_late(
    outcomes: Seq<(usize, ResolveOutcome)>,
    late: Seq<(usize, Option<ResolveOutcome>)>,
    n: int,
) -> Seq<(usize, ResolveOutcome)>
    decreases n,
{
    if n <= 0 {
        outcomes
    } else {
        with_outcome(with_late(outcomes, late, n - 1), late[n - 1].0, late[n - 1].1)
    }
}

fn add_outcome(
    outcomes: &mut Vec<(usize, ResolveOutcome)>,
    idx: usize,
    outcome: Option<ResolveOutcome>,
)
    ensures
        final(outcomes)@ == with_outcome(old(outcomes)@, idx, outcome),
{
    let o: ResolveOutcome = match outcome {
        Some(o) => o,
        None => {
            return;
        },
    };
    let n: usize = outcomes.len();
    let ghost before = outcomes@;
    let mut i: usize = 0;
    while i < n && outcomes[i].0 != idx
        invariant
            outcomes@ == before,
            i <= n == before.len(),
            outcome_index(before, idx, 0) == outcome_index(before, idx, i as int),
        decreases n - i,
    {
        i += 1;
    }
    if i < n {
        let _ = outcomes.remove(i);
        outcomes.insert(i, (idx, o));
        proof {
            assert(outcomes@ =~= before.update(i as int, (idx, o)));
        }
    } else {
        outcomes.push((idx, o));
    }
}

impl ResolveWait {
    pub open spec fn wf(self) -> bool {
        self.done <= self.asked
    }

    pub fn new(asked: usize, deadline: u128) -> (r: ResolveWait)
        ensures
            r.wf(),
            r.outcomes@.len() == 0,
            r.done == 0,
            r.asked == asked,
            r.deadline == deadline,
    {
        ResolveWait { outcomes: Vec::new(), done: 0, asked, deadline }
    }

    /// How long to wait for the next answer; none once every request has ended or the deadline has
    /// come.
    pub fn wait(&self, now: u128) -> (r: Option<u128>)
        ensures
            r == if self.done >= self.asked {
                None
            } else {
                wait_until(now, self.deadline)
            },
    {
        if self.done >= self.asked {
            None
        } else {
            next_wait(now, self.deadline)
        }
    }

    /// Takes an answer. Returns whether more can come.
    pub fn answered(&mut self, answer: ResolveAnswer) -> (r: bool)
        requires
            old(self).wf(),
            old(self).done < old(self).asked,
        ensures
            final(self).wf(),
            final(self).asked == old(self).asked,
            final(self).deadline == old(self).deadline,
            match answer {
                ResolveAnswer::Ended(idx, outcome) => final(self).done == old(self).done + 1
                    && final(self).outcomes@ == with_outcome(old(self).outcomes@, idx, outcome)
                    && r,
                ResolveAnswer::Timeout => *final(self) == *old(self) && r,
                ResolveAnswer::Disconnected => *final(self) == *old(self) && !r,
            },
    {
        match answer {
            ResolveAnswer::Ended(idx, outcome) => {
                self.done += 1;
                add_outcome(&mut self.outcomes, idx, outcome);
                true
            },
            ResolveAnswer::Timeout => true,
            ResolveAnswer::Disconnected => false,
        }
    }

    /// The instances with what the requests for `pending` gave, including the answers that came
    /// late.
    pub fn finish(
        self,
        late: Vec<(usize, Option<ResolveOutcome>)>,
        instances: Instances,
        pending: &Vec<(usize, String)>,
    ) -> (r: Instances)
        ensures
            ({
                let all = with_late(self.outcomes@, late@, late@.len() as int);
                r@ == instances_all_resolved(instances@, pending@, all, all.len() as int)
            }),
    {
        let ghost first = self.outcomes@;
        let ghost answers = late@;
        let mut outcomes: Vec<(usize, ResolveOutcome)> = self.outcomes;
        let mut rest: Vec<(usize, Option<ResolveOutcome>)> = late;
        let ghost mut n: int = 0;
        proof {
            assert(answers.skip(0) =~= answers);
        }
        while rest.len() > 0
            invariant
                0 <= n <= answers.len(),
                rest@ == answers.skip(n),
                outcomes@ == with_late(first, answers, n),
            decreases rest@.len(),
        {
            let (idx, outcome): (usize, Option<ResolveOutcome>) = rest.remove(0);
            proof {
                assert((idx, outcome) == answers[n]);
                assert(rest@ =~= answers.skip(n + 1));
            }
            add_outcome(&mut outcomes, idx, outcome);
            proof {
                n = n + 1;
                assert(outcomes@ == with_late(first, answers, n));
            }
        }
        proof {
            assert(n == answers.len());
        }
        resolve_stage(instances, pending, outcomes)
    }
}

/// The outcome that is kept of a request is the one that came last.
pub proof fn law_last_outcome_is_kept(
    outcomes: Seq<(usize, ResolveOutcome)>,
    idx: usize,
    outcome: ResolveOutcome,
)
    ensures
        ({
            let all = with_outcome(outcomes, idx, Some(outcome));
            let i = outcome_index(all, idx, 0);
            i < all.len() && all[i] == (idx, outcome)
        }),
{
    lemma_outcome_found(outcomes, idx, outcome, 0);
}

proof fn lemma_outcome_found(
    outcomes: Seq<(usize, ResolveOutcome)>,
    idx: usize,
    outcome: ResolveOutcome,
    from: int,
)
    requires
        0 <= from <= outcomes.len(),
        outcome_index(outcomes, idx, 0) == outcome_index(outcomes, idx, from),
    ensures
        ({
            let all = with_outcome(outcomes, idx, Some(outcome));
            let i = outcome_index(all, idx, from);
            i < all.len() && all[i] == (idx, outcome)
        }),
        from <= outcome_index(outcomes, idx, from) <= outcomes.len(),
    decreases outcomes.len() - from,
{
    if from < outcomes.len() && outcomes[from].0 != idx {
        lemma_outcome_found(outcomes, idx, outcome, from + 1);
    }
}

/// Nothing is waited for longer than until the deadline, nor longer than a fifth of a second, and
/// something is waited for as long as there is time.
pub proof fn law_waiting_ends_in_time(now: u128, deadline: u128)
    ensures
        wait_until(now, deadline) is Some <==> now < deadline,
        wait_until(now, deadline) matches Some(w) ==> 0 < w <= 200_000_000 && now + w <= deadline,
        wait_until(now, deadline) matches Some(w) ==> w == 200_000_000 || now + w == deadline,
{
}

/// Browsing goes on for at least a second and a fifth after the last news.
pub proof fn law_news_keep_browsing(stage: BrowseStage, now: u128)
    requires
        now < stage.last_progress + 1_200_000_000,
    ensures
        !stage.quiet(now),
{
}

/// An outcome leaves those of other requests as they are, and one that failed changes nothing.
pub proof fn law_other_outcomes_stay(
    outcomes: Seq<(usize, ResolveOutcome)>,
    idx: usize,
    outcome: Option<ResolveOutcome>,
    i: int,
)
    requires
        0 <= i < outcomes.len(),
        outcomes[i].0 != idx,
    ensures
        i < with_outcome(outcomes, idx, outcome).len(),
        with_outcome(outcomes, idx, outcome)[i] == outcomes[i],
        outcome is None ==> with_outcome(outcomes, idx, outcome) == outcomes,
{
    lemma_outcome_at(outcomes, idx, 0);
}

proof fn lemma_outcome_at(outcomes: Seq<(usize, ResolveOutcome)>, idx: usize, from: int)
    requires
        0 <= from <= outcomes.len(),
    ensures
        from <= outcome_index(outcomes, idx, from) <= outcomes.len(),
        outcome_index(outcomes, idx, from) < outcomes.len() ==> outcomes[outcome_index(
            outcomes,
            idx,
            from,
        )].0 == idx,
    decreases outcomes.len() - from,
{
    if from < outcomes.len() && outcomes[from].0 != idx {
        lemma_outcome_at(outcomes, idx, from + 1);
    }
}

/// Outcomes that come late are taken in one after the other; one that never came changes nothing.
pub proof fn law_late_outcomes_are_taken_in(
    outcomes: Seq<(usize, ResolveOutcome)>,
    late: Seq<(usize, Option<ResolveOutcome>)>,
    n: int,
)
    requires
        0 <= n <= late.len(),
    ensures
        with_late(outcomes, late, n).len() >= outcomes.len(),
        with_late(outcomes, late, n).len() <= outcomes.len() + n,
        (forall|i: int| 0 <= i < n ==> (#[trigger] late[i]).1 is None) ==> with_late(
            outcomes,
            late,
            n,
        ) == outcomes,
        n > 0 && late[n - 1].1 is Some ==> exists|k: int|
            0 <= k < with_late(outcomes, late, n).len() && #[trigger] with_late(
                outcomes,
                late,
                n,
            )[k] == (late[n - 1].0, late[n - 1].1->0),
    decreases n,
{
    if n > 0 {
        law_late_outcomes_are_taken_in(outcomes, late, n - 1);
        let head = with_late(outcomes, late, n - 1);
        let idx = late[n - 1].0;
        let i = outcome_index(head, idx, 0);
        lemma_outcome_place(head, idx, 0);
        if late[n - 1].1 is Some {
            let k = if i < head.len() {
                i
            } else {
                head.len() as int
            };
            assert(with_late(outcomes, late, n)[k] == (idx, late[n - 1].1->0));
        }
    }
}

proof fn lemma_outcome_place(outcomes: Seq<(usize, ResolveOutcome)>, idx: usize, from: int)
    requires
        0 <= from <= outcomes.len(),
    ensures
        from <= outcome_index(outcomes, idx, from) <= outcomes.len(),
    decreases outcomes.len() - from,
{
    if from < outcomes.len() && outcomes[from].0 != idx {
        lemma_outcome_place(outcomes, idx, from + 1);
    }
}

} // verus!
