//! The queue of one origin: what was seen, what is pending, what is being
//! visited, and when the next request may start.

use crate::feedback::{BrowserMode, CrawlFeedback, Page};
use crate::idle::IdleCounter;
use crate::robots::{RobotsError, RobotsFetch, RobotsPolicy};
use std::collections::VecDeque;
use vstd::prelude::*;

verus! {

/// The pause between two requests to an origin whose robots document asks
/// for none, in milliseconds.
pub const COOLDOWN_MILLIS: u64 = 5000;

/// What the worker of an origin has to do next.
#[derive(Debug)]
pub enum Step {
    /// Request this page, no earlier than it says, and visit it.
    Visit(Page),
    /// Nothing is pending: wait for a URL to be pushed.
    Idle,
    /// A visit is in progress: complete it first.
    Busy,
    /// The queue was aborted: the worker ends.
    Closed,
}

/// How the worker goes on after the observer's feedback.
#[derive(Clone, Copy, Debug, PartialEq, Eq, Structural)]
pub enum FollowUp {
    /// Extract the page's links, route them, then finish the visit.
    Follow,
    /// The visit is over: ask for the next step.
    Next,
    /// The crawl is over: the worker ends.
    Stop,
}

/// The delay that a policy mandates, where there is a policy.
pub open spec fn delay_of(policy: Option<RobotsPolicy>) -> Option<u64> {
    match policy {
        Some(p) => p.delay(),
        None => None,
    }
}

/// The pause between two requests in milliseconds, for a mandated delay in
/// seconds: the delay where one is mandated, capped at the largest instant,
/// and the default otherwise.
pub open spec fn cooldown_of(delay: Option<u64>) -> u64 {
    match delay {
        Some(secs) => if secs * 1000 <= u64::MAX {
            (secs * 1000) as u64
        } else {
            u64::MAX
        },
        None => COOLDOWN_MILLIS,
    }
}

/// The instant `pause` after `start`, capped at the largest instant.
pub open spec fn later(start: u64, pause: u64) -> u64 {
    if start + pause <= u64::MAX {
        (start + pause) as u64
    } else {
        u64::MAX
    }
}

/// Whether `policy` lets `url` be requested. Without a policy everything is
/// permitted.
pub open spec fn permitted(policy: Option<RobotsPolicy>, url: Seq<char>) -> bool {
    match policy {
        Some(p) => p.allows(url),
        None => true,
    }
}

/// The number of URLs at the front of `pending` that `policy` denies.
pub open spec fn denied_run(policy: Option<RobotsPolicy>, pending: Seq<Seq<char>>) -> nat
    decreases pending.len(),
{
    if pending.len() > 0 && !permitted(policy, pending[0]) {
        1 + denied_run(policy, pending.skip(1))
    } else {
        0
    }
}

/// The texts of a sequence of strings.
pub open spec fn texts(strings: Seq<String>) -> Seq<Seq<char>> {
    strings.map_values(|s: String| s@)
}

/// The state of one origin's queue.
pub struct QueueState {
    /// The origin that the queue serves.
    pub origin: Seq<char>,
    /// The robots policy of the origin, where it has one.
    pub policy: Option<RobotsPolicy>,
    /// The pause between two requests, in milliseconds.
    pub cooldown: u64,
    /// Every URL that was ever accepted, in the order of acceptance.
    pub seen: Seq<Seq<char>>,
    /// The URLs that wait for their visit, oldest first.
    pub pending: Seq<Seq<char>>,
    /// The URL that is being visited.
    pub current: Option<Seq<char>>,
    /// The instant before which the next request must not start.
    pub ready_at: Option<u64>,
    /// Whether the queue was aborted.
    pub closed: bool,
}

impl QueueState {
    /// The queue of `origin` under `policy` before anything was pushed.
    pub open spec fn fresh(origin: Seq<char>, policy: Option<RobotsPolicy>) -> QueueState {
        QueueState {
            origin,
            policy,
            cooldown: cooldown_of(delay_of(policy)),
            seen: Seq::empty(),
            pending: Seq::empty(),
            current: None,
            ready_at: None,
            closed: false,
        }
    }

    /// The invariant of a queue: the pause is the one its policy mandates;
    /// no URL was accepted twice; what is pending or being visited was
    /// accepted, and is there once.
    pub open spec fn wf(self) -> bool {
        &&& self.cooldown == cooldown_of(delay_of(self.policy))
        &&& self.seen.no_duplicates()
        &&& self.pending.no_duplicates()
        &&& forall|i: int|
            0 <= i < self.pending.len() ==> self.seen.contains(#[trigger] self.pending[i])
        &&& self.current matches Some(url) ==> self.seen.contains(url) && !self.pending.contains(
            url,
        )
    }

    /// The number of URLs that are pending or being visited.
    pub open spec fn work(self) -> nat {
        self.pending.len() + if self.current is Some {
            1nat
        } else {
            0nat
        }
    }

    /// Whether `url` has not been seen on this queue.
    pub open spec fn accepts(self, url: Seq<char>) -> bool {
        !self.seen.contains(url)
    }

    /// The queue after `url` was pushed: unchanged where the URL was seen
    /// before; else the URL is seen, and pending unless the queue is closed.
    pub open spec fn push(self, url: Seq<char>) -> QueueState {
        if self.accepts(url) {
            QueueState {
                seen: self.seen.push(url),
                pending: if self.closed {
                    self.pending
                } else {
                    self.pending.push(url)
                },
                ..self
            }
        } else {
            self
        }
    }

    /// The number of URLs at the front of the queue that the policy denies.
    pub open spec fn denied(self) -> nat {
        denied_run(self.policy, self.pending)
    }

    /// The instant at which a request that is asked for at `now` may start:
    /// `now`, or the end of the running pause if that is later.
    pub open spec fn start_at(self, now: u64) -> u64 {
        match self.ready_at {
            Some(at) => if at > now {
                at
            } else {
                now
            },
            None => now,
        }
    }

    /// The URL that the next step hands out for a visit: the first pending
    /// URL that the policy permits, if the queue is open and no visit is in
    /// progress.
    pub open spec fn due(self) -> Option<Seq<char>> {
        if !self.closed && self.current is None && self.denied() < self.pending.len() {
            Some(self.pending[self.denied() as int])
        } else {
            None
        }
    }

    /// The number of URLs that the next step drops without a visit.
    pub open spec fn dropped(self) -> nat {
        if self.closed || self.current is Some {
            0
        } else {
            self.denied()
        }
    }

    /// The queue after the worker asked for its next step at `now`. A closed
    /// or busy queue is unchanged. Else the denied URLs at the front are
    /// dropped; the first permitted one, if any, becomes the current visit,
    /// and the pause starts with it.
    pub open spec fn next(self, now: u64) -> QueueState {
        if self.closed || self.current is Some {
            self
        } else if self.denied() < self.pending.len() {
            QueueState {
                pending: self.pending.skip(self.denied() as int + 1),
                current: Some(self.pending[self.denied() as int]),
                ready_at: Some(later(self.start_at(now), self.cooldown)),
                ..self
            }
        } else {
            QueueState { pending: Seq::empty(), ..self }
        }
    }

    /// How the worker goes on after `feedback` on the current visit.
    pub open spec fn follow_up(self, feedback: CrawlFeedback) -> FollowUp {
        if self.closed {
            FollowUp::Stop
        } else if self.current is None {
            FollowUp::Next
        } else {
            match feedback {
                CrawlFeedback::Continue => FollowUp::Follow,
                CrawlFeedback::DontFollow => FollowUp::Next,
                CrawlFeedback::Stop => FollowUp::Stop,
            }
        }
    }

    /// Whether `feedback` ends the current visit at once.
    pub open spec fn settles(self, feedback: CrawlFeedback) -> bool {
        !self.closed && self.current is Some && feedback == CrawlFeedback::DontFollow
    }

    /// The queue after `feedback` on the current visit. Without a visit in
    /// progress, and on a closed queue, nothing changes. `Continue` leaves
    /// the visit in progress until its links are routed, `DontFollow` ends
    /// it, and `Stop` closes the queue.
    pub open spec fn complete(self, feedback: CrawlFeedback) -> QueueState {
        if self.closed || self.current is None {
            self
        } else {
            match feedback {
                CrawlFeedback::Continue => self,
                CrawlFeedback::DontFollow => QueueState { current: None, ..self },
                CrawlFeedback::Stop => QueueState { closed: true, ..self },
            }
        }
    }

    /// Whether finishing ends a visit: the queue is open and a visit is in
    /// progress.
    pub open spec fn finishes(self) -> bool {
        !self.closed && self.current is Some
    }

    /// The queue after the current visit was finished.
    pub open spec fn finish(self) -> QueueState {
        if self.finishes() {
            QueueState { current: None, ..self }
        } else {
            self
        }
    }

    /// The queue after it was aborted.
    pub open spec fn abort(self) -> QueueState {
        QueueState { closed: true, ..self }
    }
}

/// The queue of one origin.
pub struct DomainQueue {
    origin: String,
    policy: Option<RobotsPolicy>,
    cooldown: u64,
    visited: Vec<String>,
    queue: VecDeque<String>,
    current: Option<String>,
    ready_at: Option<u64>,
    closed: bool,
}

impl View for DomainQueue {
    type V = QueueState;

    closed spec fn view(&self) -> QueueState {
        QueueState {
            origin: self.origin@,
            policy: self.policy,
            cooldown: self.cooldown,
            seen: texts(self.visited@),
            pending: texts(self.queue@),
            current: match self.current {
                Some(url) => Some(url@),
                None => None,
            },
            ready_at: self.ready_at,
            closed: self.closed,
        }
    }
}

/// The pause between two requests in milliseconds, for a mandated delay in
/// seconds.
pub fn cooldown_millis(delay: Option<u64>) -> (millis: u64)
    ensures
        millis == cooldown_of(delay),
{
    match delay {
        Some(secs) => if secs <= u64::MAX / 1000 {
            secs * 1000
        } else {
            u64::MAX
        },
        None => COOLDOWN_MILLIS,
    }
}

impl DomainQueue {
    /// Whether the queue's invariant holds.
    pub open spec fn wf(&self) -> bool {
        self@.wf()
    }

    /// Creates the queue of `origin` from the outcome of fetching its robots
    /// document, read for `agent`. A document that was retrieved but does
    /// not parse is an error; an unreachable one leaves the origin without
    /// restrictions.
    pub fn new(origin: String, fetched: RobotsFetch, agent: &str) -> (r: Result<
        DomainQueue,
        RobotsError,
    >)
        ensures
            match RobotsPolicy::policy_from(agent@, fetched) {
                Some(policy) => r matches Ok(queue) && queue.wf() && queue@ == QueueState::fresh(
                    origin@,
                    policy,
                ),
                None => r matches Err(e) && e == RobotsError::Malformed,
            },
    {
        let policy = match RobotsPolicy::fetched(agent, fetched) {
            Ok(policy) => policy,
            Err(e) => {
                return Err(e);
            },
        };
        let delay = match &policy {
            Some(p) => p.crawl_delay(),
            None => None,
        };
        let cooldown = cooldown_millis(delay);
        let queue = DomainQueue {
            origin,
            policy,
            cooldown,
            visited: Vec::new(),
            queue: VecDeque::new(),
            current: None,
            ready_at: None,
            closed: false,
        };
        assert(queue@.seen =~= Seq::empty());
        assert(queue@.pending =~= Seq::empty());
        Ok(queue)
    }

    /// The origin that the queue serves.
    pub fn origin(&self) -> (origin: &str)
        ensures
            origin@ == self@.origin,
    {
        self.origin.as_str()
    }

    /// The pause between two requests to the origin, in milliseconds.
    pub fn cooldown(&self) -> (millis: u64)
        ensures
            millis == self@.cooldown,
    {
        self.cooldown
    }

    /// The number of URLs that are pending.
    pub fn pending(&self) -> (n: usize)
        ensures
            n == self@.pending.len(),
    {
        self.queue.len()
    }

    /// Whether a visit is in progress.
    pub fn is_visiting(&self) -> (visiting: bool)
        ensures
            visiting == (self@.current is Some),
    {
        self.current.is_some()
    }

    /// Whether the queue was aborted.
    pub fn is_closed(&self) -> (closed: bool)
        ensures
            closed == self@.closed,
    {
        self.closed
    }

    /// Whether `url` was pushed before.
    pub fn has_seen(&self, url: &str) -> (seen: bool)
        ensures
            seen == self@.seen.contains(url@),
    {
        let owned = url.to_owned();
        self.contains(&owned)
    }

    fn contains(&self, url: &String) -> (seen: bool)
        ensures
            seen == self@.seen.contains(url@),
    {
        let mut i: usize = 0;
        while i < self.visited.len()
            invariant
                i <= self.visited.len(),
                forall|j: int| 0 <= j < i ==> (#[trigger] self.visited@[j])@ != url@,
            decreases self.visited.len() - i,
        {
            if self.visited[i] == *url {
                assert(texts(self.visited@)[i as int] == url@);
                return true;
            }
            i += 1;
        }
        false
    }

    /// Enqueues `url` unless it was seen on this queue before. An accepted
    /// URL is counted in `active`. Returns whether the URL was accepted.
    pub fn push(&mut self, url: String, active: &mut IdleCounter) -> (accepted: bool)
        requires
            old(self).wf(),
            old(active).count() < usize::MAX,
        ensures
            final(self).wf(),
            final(self)@ == old(self)@.push(url@),
            accepted == old(self)@.accepts(url@),
            final(active).count() == old(active).count() + if accepted {
                1nat
            } else {
                0nat
            },
            final(active).has_waiter() == old(active).has_waiter(),
    {
        if self.contains(&url) {
            return false;
        }
        active.increment();
        proof {
            lemma_push_wf(self@, url@);
        }
        self.visited.push(url.clone());
        assert(texts(self.visited@) =~= old(self)@.seen.push(url@));
        if !self.closed {
            self.queue.push_back(url);
            assert(texts(self.queue@) =~= old(self)@.pending.push(url@));
        }
        true
    }

    /// The next step of this origin's worker at the instant `now`. URLs at
    /// the front of the queue that the policy denies are dropped and counted
    /// out of `active`. The first permitted URL becomes the current visit:
    /// its page is requested in `mode`, no earlier than the running pause
    /// allows. Returns the step, and whether the waiter of `active` has to be
    /// woken.
    pub fn next(&mut self, now: u64, mode: BrowserMode, active: &mut IdleCounter) -> (r: (
        Step,
        bool,
    ))
        requires
            old(self).wf(),
            old(active).count() >= old(self)@.work(),
        ensures
            final(self).wf(),
            final(self)@ == old(self)@.next(now),
            final(active).count() == old(active).count() - old(self)@.dropped(),
            final(active).has_waiter() == old(active).has_waiter(),
            r.1 == (old(self)@.dropped() > 0 && final(active).count() == 0 && old(
                active,
            ).has_waiter()),
            match r.0 {
                Step::Visit(page) => {
                    &&& old(self)@.due() == Some(page.spec_url())
                    &&& page.spec_mode() == mode
                    &&& page.spec_wait_until() == old(self)@.start_at(now)
                },
                Step::Idle => !old(self)@.closed && old(self)@.current is None && old(
                    self,
                )@.due() is None,
                Step::Busy => !old(self)@.closed && old(self)@.current is Some,
                Step::Closed => old(self)@.closed,
            },
    {
        if self.closed {
            return (Step::Closed, false);
        }
        if self.current.is_some() {
            return (Step::Busy, false);
        }
        let ghost before = self@;
        let ghost entry = *self;
        let ghost count = active.count();
        let ghost waiter = active.has_waiter();
        let mut wake = false;
        proof {
            assert(before.pending.skip(0) =~= before.pending);
        }
        loop
            invariant
                before == old(self)@,
                before == entry@,
                count == old(active).count(),
                waiter == old(active).has_waiter(),
                before.wf(),
                !before.closed,
                before.current is None,
                self.origin == entry.origin,
                self.policy == entry.policy,
                self.cooldown == entry.cooldown,
                self.visited == entry.visited,
                self.current is None,
                self.ready_at == entry.ready_at,
                !self.closed,
                self.queue@.len() <= before.pending.len(),
                texts(self.queue@) == before.pending.skip(
                    before.pending.len() - self.queue@.len(),
                ),
                before.denied() == (before.pending.len() - self.queue@.len()) + denied_run(
                    self.policy,
                    texts(self.queue@),
                ),
                active.count() + (before.pending.len() - self.queue@.len()) == count,
                active.has_waiter() == waiter,
                count >= before.pending.len(),
                wake == (self.queue@.len() < before.pending.len() && active.count() == 0
                    && waiter),
            decreases self.queue@.len(),
        {
            let ghost rest = texts(self.queue@);
            match self.queue.pop_front() {
                None => {
                    assert(texts(self.queue@) =~= Seq::<Seq<char>>::empty());
                    return (Step::Idle, wake);
                },
                Some(url) => {
                    assert(rest[0] == url@);
                    assert(texts(self.queue@) =~= rest.skip(1));
                    assert(rest.skip(1) =~= before.pending.skip(
                        before.pending.len() - self.queue@.len(),
                    ));
                    let allowed = match &self.policy {
                        Some(p) => p.allow(url.as_str()),
                        None => true,
                    };
                    if allowed {
                        let start = match self.ready_at {
                            Some(at) => if at > now {
                                at
                            } else {
                                now
                            },
                            None => now,
                        };
                        let ready = if start <= u64::MAX - self.cooldown {
                            start + self.cooldown
                        } else {
                            u64::MAX
                        };
                        self.ready_at = Some(ready);
                        self.current = Some(url.clone());
                        proof {
                            lemma_next_wf(before, now);
                        }
                        return (Step::Visit(Page::new_wait_until(url, mode, start)), wake);
                    }
                    wake = active.decrement();
                },
            }
        }
    }

    /// Takes the observer's feedback on the current visit. `DontFollow` ends
    /// the visit and counts it out of `active`; `Continue` leaves it in
    /// progress until `finish`; `Stop` closes the queue without counting.
    /// Returns how the worker goes on, and whether the waiter of `active`
    /// has to be woken.
    pub fn complete(&mut self, feedback: CrawlFeedback, active: &mut IdleCounter) -> (r: (
        FollowUp,
        bool,
    ))
        requires
            old(self).wf(),
            old(active).count() >= old(self)@.work(),
        ensures
            final(self).wf(),
            final(self)@ == old(self)@.complete(feedback),
            r.0 == old(self)@.follow_up(feedback),
            final(active).count() == old(active).count() - if old(self)@.settles(feedback) {
                1nat
            } else {
                0nat
            },
            final(active).has_waiter() == old(active).has_waiter(),
            r.1 == (old(self)@.settles(feedback) && final(active).count() == 0 && old(
                active,
            ).has_waiter()),
    {
        if self.closed {
            return (FollowUp::Stop, false);
        }
        if self.current.is_none() {
            return (FollowUp::Next, false);
        }
        match feedback {
            CrawlFeedback::Continue => (FollowUp::Follow, false),
            CrawlFeedback::DontFollow => {
                self.current = None;
                let wake = active.decrement();
                (FollowUp::Next, wake)
            },
            CrawlFeedback::Stop => {
                self.closed = true;
                (FollowUp::Stop, false)
            },
        }
    }

    /// Ends the current visit, after its links were routed, and counts it
    /// out of `active`. Without a visit in progress, and on a closed queue,
    /// nothing changes. Returns whether the waiter of `active` has to be
    /// woken.
    pub fn finish(&mut self, active: &mut IdleCounter) -> (wake: bool)
        requires
            old(self).wf(),
            old(active).count() >= old(self)@.work(),
        ensures
            final(self).wf(),
            final(self)@ == old(self)@.finish(),
            final(active).count() == old(active).count() - if old(self)@.finishes() {
                1nat
            } else {
                0nat
            },
            final(active).has_waiter() == old(active).has_waiter(),
            wake == (old(self)@.finishes() && final(active).count() == 0 && old(
                active,
            ).has_waiter()),
    {
        if self.closed || self.current.is_none() {
            return false;
        }
        self.current = None;
        active.decrement()
    }

    /// Cancels the worker of this queue: no further visit starts.
    pub fn abort(&mut self)
        ensures
            final(self)@ == old(self)@.abort(),
            old(self).wf() ==> final(self).wf(),
    {
        self.closed = true;
    }
}

/// The denied run at the front of a queue is no longer than the queue; all
/// of it is denied, and the URL behind it is permitted.
pub proof fn lemma_denied_run(policy: Option<RobotsPolicy>, pending: Seq<Seq<char>>)
    ensures
        denied_run(policy, pending) <= pending.len(),
        forall|i: int|
            0 <= i < denied_run(policy, pending) ==> !permitted(policy, #[trigger] pending[i]),
        denied_run(policy, pending) < pending.len() ==> permitted(
            policy,
            pending[denied_run(policy, pending) as int],
        ),
    decreases pending.len(),
{
    if pending.len() > 0 && !permitted(policy, pending[0]) {
        let rest = pending.skip(1);
        lemma_denied_run(policy, rest);
        assert forall|i: int| 0 <= i < denied_run(policy, pending) implies !permitted(
            policy,
            #[trigger] pending[i],
        ) by {
            if i > 0 {
                assert(pending[i] == rest[i - 1]);
            }
        }
        if denied_run(policy, pending) < pending.len() {
            let at = denied_run(policy, rest) as int;
            assert(pending[at + 1] == rest[at]);
        }
    }
}

/// Asking for the next step keeps the invariant of a queue.
pub proof fn lemma_next_wf(queue: QueueState, now: u64)
    requires
        queue.wf(),
    ensures
        queue.next(now).wf(),
{
    let after = queue.next(now);
    lemma_denied_run(queue.policy, queue.pending);
    if !(queue.closed || queue.current is Some) && queue.denied() < queue.pending.len() {
        let k = queue.denied() as int;
        assert forall|i: int| 0 <= i < after.pending.len() implies after.seen.contains(
            #[trigger] after.pending[i],
        ) by {
            assert(after.pending[i] == queue.pending[i + k + 1]);
        }
        assert(queue.seen.contains(queue.pending[k]));
        if after.pending.contains(queue.pending[k]) {
            let at = choose|i: int|
                0 <= i < after.pending.len() && after.pending[i] == queue.pending[k];
            assert(queue.pending[at + k + 1] == queue.pending[k]);
        }
    }
}

/// Pushing keeps the invariant of a queue.
pub proof fn lemma_push_wf(queue: QueueState, url: Seq<char>)
    requires
        queue.wf(),
    ensures
        queue.push(url).wf(),
{
    if queue.accepts(url) {
        let after = queue.push(url);
        assert forall|i: int| 0 <= i < after.pending.len() implies after.seen.contains(
            #[trigger] after.pending[i],
        ) by {
            if i < queue.pending.len() {
                let at = choose|j: int|
                    0 <= j < queue.seen.len() && queue.seen[j] == queue.pending[i];
                assert(after.seen[at] == after.pending[i]);
            } else {
                assert(after.seen[queue.seen.len() as int] == url);
            }
        }
        if let Some(current) = queue.current {
            let at = choose|j: int| 0 <= j < queue.seen.len() && queue.seen[j] == current;
            assert(after.seen[at] == current);
        }
    }
}

} // verus!
