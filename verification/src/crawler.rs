//! The crawl as a whole: one queue per origin, the count of outstanding
//! URLs, and the abort flag.

use crate::feedback::{BrowserMode, CrawlFeedback, CrawlingCallback, Page};
use crate::idle::IdleCounter;
use crate::link::{robots_suffix, Link};
use crate::queue::{DomainQueue, FollowUp, QueueState, Step};
use crate::robots::{RobotsFetch, RobotsPolicy};
use dashmap::DashMap;
use vstd::prelude::*;

verus! {

/// `dashmap::DashMap`: a concurrent hash map. What one holds is named by
/// [`origin_slots`].
#[verifier::external_type_specification]
#[verifier::external_body]
#[verifier::reject_recursive_types(K)]
#[verifier::reject_recursive_types(V)]
#[verifier::reject_recursive_types(S)]
pub struct ExDashMap<K, V, S>(DashMap<K, V, S>);

/// What an origin index holds: for each origin, the slot of its queue.
pub uninterp spec fn origin_slots(index: DashMap<String, usize>) -> Map<Seq<char>, usize>;

/// `DashMap::new`: an index that holds nothing.
#[verifier::external_body]
fn slots_new() -> (index: DashMap<String, usize>)
    ensures
        forall|origin: Seq<char>| !origin_slots(index).contains_key(origin),
{
    DashMap::new()
}

/// `DashMap::get`: the slot stored under `origin`, if there is one. The
/// index is unchanged.
#[verifier::external_body]
fn slots_get(index: &DashMap<String, usize>, origin: &str) -> (slot: Option<usize>)
    ensures
        slot == if origin_slots(*index).contains_key(origin@) {
            Some(origin_slots(*index)[origin@])
        } else {
            None
        },
{
    index.get(origin).map(|entry| *entry.value())
}

/// `DashMap::insert`: stores `slot` under `origin`, in place of what was
/// stored there. Every other entry is unchanged.
#[verifier::external_body]
fn slots_insert(index: &mut DashMap<String, usize>, origin: String, slot: usize)
    ensures
        origin_slots(*final(index)) == origin_slots(*old(index)).insert(origin@, slot),
{
    index.insert(origin, slot);
}

/// The agent that a crawler advertises where none is given.
pub open spec fn default_agent() -> Seq<char> {
    "Crawler"@
}

/// Why a URL could not be routed.
#[derive(Clone, Copy, Debug, PartialEq, Eq, Structural)]
pub enum CrawlError {
    /// No robots document can be located below the URL's origin.
    Origin,
    /// The robots document of the URL's origin is malformed.
    Robots,
}

/// Where a crawl stands.
#[derive(Clone, Copy, Debug, PartialEq, Eq, Structural)]
pub enum Progress {
    /// Nothing is outstanding, or the crawl was aborted.
    Finished,
    /// The seed's origin has no queue yet: open one, then crawl again.
    NeedsQueue,
    /// URLs are outstanding: wait until the count reaches zero.
    Waiting,
}

/// The work that the queues hold together: the URLs that are pending or
/// being visited.
pub open spec fn outstanding(queues: Seq<QueueState>) -> nat
    decreases queues.len(),
{
    if queues.len() == 0 {
        0
    } else {
        outstanding(queues.drop_last()) + queues.last().work()
    }
}

/// Replacing one queue changes the outstanding work by the difference of
/// the two queues' work.
pub proof fn lemma_outstanding_update(queues: Seq<QueueState>, at: int, queue: QueueState)
    requires
        0 <= at < queues.len(),
    ensures
        outstanding(queues.update(at, queue)) + queues[at].work() == outstanding(queues)
            + queue.work(),
    decreases queues.len(),
{
    let after = queues.update(at, queue);
    if at == queues.len() - 1 {
        assert(after.drop_last() =~= queues.drop_last());
    } else {
        lemma_outstanding_update(queues.drop_last(), at, queue);
        assert(after.drop_last() =~= queues.drop_last().update(at, queue));
    }
}

/// A new queue adds its work to the outstanding work.
pub proof fn lemma_outstanding_push(queues: Seq<QueueState>, queue: QueueState)
    ensures
        outstanding(queues.push(queue)) == outstanding(queues) + queue.work(),
{
    assert(queues.push(queue).drop_last() =~= queues);
}

/// No queue holds more than the outstanding work.
pub proof fn lemma_outstanding_bound(queues: Seq<QueueState>, at: int)
    requires
        0 <= at < queues.len(),
    ensures
        queues[at].work() <= outstanding(queues),
    decreases queues.len(),
{
    if at < queues.len() - 1 {
        lemma_outstanding_bound(queues.drop_last(), at);
    }
}

/// Replacing a queue by a well-formed one of the same origin keeps the
/// invariant of a crawl that is not aborted, where the count moves with the
/// queue's work.
pub proof fn lemma_update_wf(state: CrawlState, at: int, queue: QueueState, active: nat)
    requires
        state.wf(),
        !state.aborted,
        0 <= at < state.queues.len(),
        queue.wf(),
        queue.origin == state.queues[at].origin,
        !queue.closed,
        active + state.queues[at].work() == state.active + queue.work(),
    ensures
        (CrawlState { queues: state.queues.update(at, queue), active, ..state }).wf(),
{
    lemma_outstanding_update(state.queues, at, queue);
}

/// The state of a crawl.
pub struct CrawlState {
    /// The queues, in the order in which their origins were first seen.
    pub queues: Seq<QueueState>,
    /// The count of URLs that are queued or being visited.
    pub active: nat,
    /// Whether somebody waits for the count to reach zero.
    pub waiting: bool,
    /// Whether the crawl was aborted.
    pub aborted: bool,
    /// The mode in which pages are retrieved.
    pub mode: BrowserMode,
    /// The agent for which robots documents are read.
    pub agent: Seq<char>,
}

impl CrawlState {
    /// The crawl before any URL was routed.
    pub open spec fn fresh(mode: BrowserMode, agent: Seq<char>) -> CrawlState {
        CrawlState {
            queues: Seq::empty(),
            active: 0,
            waiting: false,
            aborted: false,
            mode,
            agent,
        }
    }

    /// The invariant of a crawl: every queue is well formed; no two queues
    /// serve one origin; the queues are closed exactly when the crawl is
    /// aborted; and, until then, the count is the work that the queues hold.
    /// After an abort the count is zero.
    pub open spec fn wf(self) -> bool {
        &&& forall|i: int| 0 <= i < self.queues.len() ==> (#[trigger] self.queues[i]).wf()
        &&& forall|i: int, j: int|
            0 <= i < j < self.queues.len() ==> (#[trigger] self.queues[i]).origin != (
            #[trigger] self.queues[j]).origin
        &&& forall|i: int|
            0 <= i < self.queues.len() ==> (#[trigger] self.queues[i]).closed == self.aborted
        &&& self.active == if self.aborted {
            0
        } else {
            outstanding(self.queues)
        }
    }

    /// Whether `origin` has a queue.
    pub open spec fn has_queue(self, origin: Seq<char>) -> bool {
        exists|i: int| 0 <= i < self.queues.len() && (#[trigger] self.queues[i]).origin == origin
    }

    /// The slot of the queue of `origin`.
    pub open spec fn slot(self, origin: Seq<char>) -> int {
        choose|i: int| 0 <= i < self.queues.len() && (#[trigger] self.queues[i]).origin == origin
    }

    /// The queue of `origin`.
    pub open spec fn queue(self, origin: Seq<char>) -> QueueState {
        self.queues[self.slot(origin)]
    }

    /// Whether nothing is outstanding.
    pub open spec fn idle(self) -> bool {
        self.active == 0
    }

    /// The crawl after `url` was pushed to the queue of `origin`: the queue
    /// takes the push, and an accepted URL is counted.
    pub open spec fn push(self, origin: Seq<char>, url: Seq<char>) -> CrawlState {
        let at = self.slot(origin);
        CrawlState {
            queues: self.queues.update(at, self.queues[at].push(url)),
            active: self.active + if self.queues[at].accepts(url) {
                1nat
            } else {
                0nat
            },
            ..self
        }
    }

    /// The crawl after the links from `start` on were routed, and the place
    /// where routing stopped. An aborted crawl routes nothing. Else each
    /// link is pushed to the queue of its origin, in order, up to the first
    /// link whose origin has no queue: routing stops in front of it.
    pub open spec fn route(self, links: Seq<Link>, start: int) -> (CrawlState, int)
        decreases links.len() - start,
    {
        if self.aborted || start < 0 || start >= links.len() {
            (self, links.len() as int)
        } else if !self.has_queue(links[start].origin()) {
            (self, start)
        } else {
            self.push(links[start].origin(), links[start].href()).route(links, start + 1)
        }
    }

    /// How opening a queue for `origin` ends, given what was fetched of its
    /// robots document. Nothing is opened after an abort, nor for an origin
    /// that has a queue. An origin below which no robots document can be
    /// located is an error, and so is a malformed document.
    pub open spec fn opens(self, origin: Seq<char>, fetched: RobotsFetch) -> Result<
        bool,
        CrawlError,
    > {
        if self.aborted || self.has_queue(origin) {
            Ok(false)
        } else if Link::parsed(origin + robots_suffix()) is None {
            Err(CrawlError::Origin)
        } else if RobotsPolicy::policy_from(self.agent, fetched) is None {
            Err(CrawlError::Robots)
        } else {
            Ok(true)
        }
    }

    /// The crawl after a queue was opened for `origin`: where one is opened,
    /// it is fresh, under the policy that was fetched, and last.
    pub open spec fn open(self, origin: Seq<char>, fetched: RobotsFetch) -> CrawlState {
        if self.opens(origin, fetched) == Ok::<bool, CrawlError>(true) {
            CrawlState {
                queues: self.queues.push(
                    QueueState::fresh(
                        origin,
                        RobotsPolicy::policy_from(self.agent, fetched).unwrap(),
                    ),
                ),
                ..self
            }
        } else {
            self
        }
    }

    /// Whether the worker of `origin` is at work: the crawl is not aborted
    /// and the origin has a queue.
    pub open spec fn serves(self, origin: Seq<char>) -> bool {
        !self.aborted && self.has_queue(origin)
    }

    /// The crawl after the worker of `origin` asked for its next step at
    /// `now`: its queue takes the step, and what it drops is counted out.
    pub open spec fn next(self, origin: Seq<char>, now: u64) -> CrawlState {
        if self.serves(origin) {
            let at = self.slot(origin);
            CrawlState {
                queues: self.queues.update(at, self.queues[at].next(now)),
                active: (self.active - self.queues[at].dropped()) as nat,
                ..self
            }
        } else {
            self
        }
    }

    /// Whether `feedback` from the worker of `origin` stops the crawl: it is
    /// `Stop` on a visit in progress.
    pub open spec fn stops(self, origin: Seq<char>, feedback: CrawlFeedback) -> bool {
        self.serves(origin) && self.queue(origin).current is Some && feedback
            == CrawlFeedback::Stop
    }

    /// The crawl after `feedback` on the current visit of `origin`: `Stop`
    /// aborts the crawl; any other feedback goes to the queue, and a visit
    /// that it ends is counted out.
    pub open spec fn complete(self, origin: Seq<char>, feedback: CrawlFeedback) -> CrawlState {
        if self.stops(origin, feedback) {
            self.abort()
        } else if self.serves(origin) {
            let at = self.slot(origin);
            CrawlState {
                queues: self.queues.update(at, self.queues[at].complete(feedback)),
                active: (self.active - if self.queues[at].settles(feedback) {
                    1nat
                } else {
                    0nat
                }) as nat,
                ..self
            }
        } else {
            self
        }
    }

    /// How the worker of `origin` goes on after `feedback`.
    pub open spec fn follow_up(self, origin: Seq<char>, feedback: CrawlFeedback) -> FollowUp {
        if self.serves(origin) {
            self.queue(origin).follow_up(feedback)
        } else {
            FollowUp::Stop
        }
    }

    /// The crawl after the current visit of `origin` was finished: the visit
    /// is over and counted out.
    pub open spec fn finish(self, origin: Seq<char>) -> CrawlState {
        if self.serves(origin) {
            let at = self.slot(origin);
            CrawlState {
                queues: self.queues.update(at, self.queues[at].finish()),
                active: (self.active - if self.queues[at].finishes() {
                    1nat
                } else {
                    0nat
                }) as nat,
                ..self
            }
        } else {
            self
        }
    }

    /// The crawl after an abort: every queue is closed, and the count is
    /// zero.
    pub open spec fn abort(self) -> CrawlState {
        CrawlState {
            queues: self.queues.map_values(|q: QueueState| q.abort()),
            active: 0,
            aborted: true,
            ..self
        }
    }

    /// The crawl after one poll of the waiter: the waiter is registered
    /// while URLs are outstanding.
    pub open spec fn wait(self) -> CrawlState {
        CrawlState { waiting: self.waiting || self.active != 0, ..self }
    }

    /// The crawl after `seed` was handed to it: an aborted crawl, and one in
    /// which the seed's origin has no queue, is unchanged; else the seed is
    /// pushed and the waiter polls.
    pub open spec fn crawl(self, seed: Link) -> CrawlState {
        if self.serves(seed.origin()) {
            self.push(seed.origin(), seed.href()).wait()
        } else {
            self
        }
    }

    /// Where the crawl stands after `seed` was handed to it.
    pub open spec fn progress(self, seed: Link) -> Progress {
        if self.aborted {
            Progress::Finished
        } else if !self.has_queue(seed.origin()) {
            Progress::NeedsQueue
        } else if self.push(seed.origin(), seed.href()).idle() {
            Progress::Finished
        } else {
            Progress::Waiting
        }
    }
}

/// A crawl over many origins.
pub struct Crawler {
    active: IdleCounter,
    mode: BrowserMode,
    agent: String,
    queued: DashMap<String, usize>,
    queues: Vec<DomainQueue>,
    aborted: bool,
}

/// The states of a sequence of queues.
pub open spec fn states(queues: Seq<DomainQueue>) -> Seq<QueueState> {
    queues.map_values(|q: DomainQueue| q@)
}

impl View for Crawler {
    type V = CrawlState;

    closed spec fn view(&self) -> CrawlState {
        CrawlState {
            queues: states(self.queues@),
            active: self.active.count(),
            waiting: self.active.has_waiter(),
            aborted: self.aborted,
            mode: self.mode,
            agent: self.agent@,
        }
    }
}

impl Crawler {
    /// Whether the crawler's invariant holds: that of its state, and the
    /// origin index holds exactly the slot of each queue.
    pub closed spec fn wf(&self) -> bool {
        &&& self@.wf()
        &&& forall|i: int|
            0 <= i < self.queues@.len() ==> origin_slots(self.queued).contains_key(
                (#[trigger] self.queues@[i])@.origin,
            ) && origin_slots(self.queued)[self.queues@[i]@.origin] == i
        &&& forall|origin: Seq<char>| #[trigger]
            origin_slots(self.queued).contains_key(origin) ==> origin_slots(self.queued)[origin]
                < self.queues@.len() && self.queues@[origin_slots(
                self.queued,
            )[origin] as int]@.origin == origin
    }

    /// A well-formed crawler has a well-formed state.
    pub proof fn lemma_wf(&self)
        requires
            self.wf(),
        ensures
            self@.wf(),
    {
    }

    /// A crawler that retrieves pages in `mode` and reads robots documents
    /// for `agent`, or for the default agent where none is given.
    pub fn new(mode: BrowserMode, agent: Option<String>) -> (crawler: Crawler)
        ensures
            crawler.wf(),
            crawler@ == CrawlState::fresh(
                mode,
                match agent {
                    Some(name) => name@,
                    None => default_agent(),
                },
            ),
    {
        let agent = match agent {
            Some(name) => name,
            None => "Crawler".to_owned(),
        };
        let crawler = Crawler {
            active: IdleCounter::new(),
            mode,
            agent,
            queued: slots_new(),
            queues: Vec::new(),
            aborted: false,
        };
        assert(crawler@.queues =~= Seq::empty());
        crawler
    }

    /// Whether the crawl was aborted.
    pub fn is_aborted(&self) -> (aborted: bool)
        ensures
            aborted == self@.aborted,
    {
        self.aborted
    }

    /// The count of URLs that are queued or being visited.
    pub fn active(&self) -> (n: usize)
        ensures
            n == self@.active,
    {
        self.active.active()
    }

    /// The number of origins that have a queue.
    pub fn origins(&self) -> (n: usize)
        ensures
            n == self@.queues.len(),
    {
        self.queues.len()
    }

    /// Whether `origin` has a queue.
    pub fn has_queue(&self, origin: &str) -> (found: bool)
        requires
            self.wf(),
        ensures
            found == self@.has_queue(origin@),
    {
        let slot = slots_get(&self.queued, origin);
        proof {
            self.lemma_slot(origin@);
        }
        slot.is_some()
    }

    /// Pushes `link` to the queue in slot `at`, which serves its origin.
    fn push_to(&mut self, at: usize, link: &Link)
        requires
            old(self).wf(),
            !old(self)@.aborted,
            old(self)@.has_queue(link.origin()),
            at == old(self)@.slot(link.origin()),
            old(self)@.active < usize::MAX,
        ensures
            final(self).wf(),
            final(self)@ == old(self)@.push(link.origin(), link.href()),
    {
        proof {
            self.lemma_slot(link.origin());
        }
        let ghost before = *self;
        let url = link.as_str().to_owned();
        let accepted = self.queues[at].push(url, &mut self.active);
        proof {
            let queue = before.queues@[at as int]@.push(link.href());
            assert(states(self.queues@) =~= states(before.queues@).update(at as int, queue));
            lemma_update_wf(before@, at as int, queue, self.active.count());
            assert forall|i: int| 0 <= i < self.queues@.len() implies (
            #[trigger] self.queues@[i])@.origin == before.queues@[i]@.origin by {}
        }
    }

    /// Routes the links from `start` on, each to the queue of its origin,
    /// in order. Routing stops in front of the first link whose origin has
    /// no queue yet, and returns its place: open a queue for it, then route
    /// again from there. Returns the number of links when all are routed.
    /// An aborted crawl routes nothing.
    pub fn route(&mut self, links: &Vec<Link>, start: usize) -> (stop: usize)
        requires
            old(self).wf(),
            start <= links.len(),
            old(self)@.active + (links.len() - start) <= usize::MAX,
        ensures
            final(self).wf(),
            (final(self)@, stop as int) == old(self)@.route(links@, start as int),
            start <= stop <= links.len(),
            stop < links.len() ==> !final(self)@.aborted && !final(self)@.has_queue(
                links@[stop as int].origin(),
            ),
    {
        if self.aborted {
            return links.len();
        }
        let mut at: usize = start;
        while at < links.len()
            invariant
                self.wf(),
                !self@.aborted,
                start <= at <= links.len(),
                self@.active + (links.len() - at) <= usize::MAX,
                self@.route(links@, at as int) == old(self)@.route(links@, start as int),
            decreases links.len() - at,
        {
            let link = &links[at];
            match slots_get(&self.queued, link.origin_str()) {
                None => {
                    proof {
                        self.lemma_slot(link.origin());
                    }
                    return at;
                },
                Some(slot) => {
                    proof {
                        self.lemma_slot(link.origin());
                    }
                    self.push_to(slot, link);
                },
            }
            at += 1;
        }
        links.len()
    }

    /// Opens the queue for the origin of `link`, given what was fetched of
    /// the origin's robots document. Nothing is opened after an abort, nor
    /// where the origin has a queue: the first queue of an origin stays its
    /// only one. Returns whether a queue was opened.
    pub fn open_queue(&mut self, link: &Link, fetched: RobotsFetch) -> (r: Result<
        bool,
        CrawlError,
    >)
        requires
            old(self).wf(),
        ensures
            final(self).wf(),
            r == old(self)@.opens(link.origin(), fetched),
            final(self)@ == old(self)@.open(link.origin(), fetched),
    {
        if self.aborted {
            return Ok(false);
        }
        proof {
            self.lemma_slot(link.origin());
        }
        if slots_get(&self.queued, link.origin_str()).is_some() {
            return Ok(false);
        }
        if link.robots_txt().is_err() {
            return Err(CrawlError::Origin);
        }
        let origin = link.origin_str().to_owned();
        match DomainQueue::new(origin, fetched, self.agent.as_str()) {
            Err(_) => Err(CrawlError::Robots),
            Ok(queue) => {
                let ghost before = *self;
                let slot = self.queues.len();
                slots_insert(&mut self.queued, link.origin_str().to_owned(), slot);
                self.queues.push(queue);
                proof {
                    assert(states(self.queues@) =~= states(before.queues@).push(queue@));
                    lemma_outstanding_push(before@.queues, queue@);
                    assert forall|i: int| 0 <= i < self.queues@.len() implies origin_slots(
                        self.queued,
                    ).contains_key((#[trigger] self.queues@[i])@.origin) && origin_slots(
                        self.queued,
                    )[self.queues@[i]@.origin] == i by {
                        if i < slot {
                            assert(self.queues@[i] == before.queues@[i]);
                            assert(before@.queues[i].origin != link.origin());
                        }
                    }
                    assert forall|i: int, j: int| 0 <= i < j < self@.queues.len() implies (
                    #[trigger] self@.queues[i]).origin != (#[trigger] self@.queues[j]).origin by {
                        if j == slot {
                            assert(before@.queues[i].origin != link.origin());
                        } else {
                            assert(self@.queues[i] == before@.queues[i]);
                            assert(self@.queues[j] == before@.queues[j]);
                        }
                    }
                    assert forall|i: int| 0 <= i < self@.queues.len() implies (
                    #[trigger] self@.queues[i]).wf() && self@.queues[i].closed
                        == self@.aborted by {
                        if i < slot {
                            assert(self@.queues[i] == before@.queues[i]);
                        }
                    }
                }
                Ok(true)
            },
        }
    }

    /// The next step of the worker of `origin` at the instant `now`. After
    /// an abort, and for an origin without a queue, the worker ends. Returns
    /// the step, and whether the waiter has to be woken.
    pub fn next(&mut self, origin: &str, now: u64) -> (r: (Step, bool))
        requires
            old(self).wf(),
        ensures
            final(self).wf(),
            final(self)@ == old(self)@.next(origin@, now),
            r.1 == (old(self)@.waiting && final(self)@.active == 0 && old(self)@.active != 0),
            !old(self)@.serves(origin@) ==> r.0 is Closed,
            old(self)@.serves(origin@) ==> match r.0 {
                Step::Visit(page) => {
                    &&& old(self)@.queue(origin@).due() == Some(page.spec_url())
                    &&& page.spec_mode() == old(self)@.mode
                    &&& page.spec_wait_until() == old(self)@.queue(origin@).start_at(now)
                },
                Step::Idle => old(self)@.queue(origin@).current is None && old(self)@.queue(
                    origin@,
                ).due() is None,
                Step::Busy => old(self)@.queue(origin@).current is Some,
                Step::Closed => false,
            },
    {
        if self.aborted {
            return (Step::Closed, false);
        }
        proof {
            self.lemma_slot(origin@);
        }
        match slots_get(&self.queued, origin) {
            None => (Step::Closed, false),
            Some(at) => {
                let ghost before = *self;
                proof {
                    lemma_outstanding_bound(before@.queues, at as int);
                }
                let r = self.queues[at].next(now, self.mode, &mut self.active);
                proof {
                    let queue = before.queues@[at as int]@.next(now);
                    assert(states(self.queues@) =~= states(before.queues@).update(
                        at as int,
                        queue,
                    ));
                    crate::queue::lemma_denied_run(
                        before@.queues[at as int].policy,
                        before@.queues[at as int].pending,
                    );
                    lemma_update_wf(before@, at as int, queue, self.active.count());
                    assert forall|i: int| 0 <= i < self.queues@.len() implies (
                    #[trigger] self.queues@[i])@.origin == before.queues@[i]@.origin by {}
                }
                r
            },
        }
    }

    /// Takes the observer's feedback on the current visit of `origin`.
    /// `Stop` aborts the whole crawl. Returns how the worker goes on, and
    /// whether the waiter has to be woken.
    pub fn complete(&mut self, origin: &str, feedback: CrawlFeedback) -> (r: (FollowUp, bool))
        requires
            old(self).wf(),
        ensures
            final(self).wf(),
            final(self)@ == old(self)@.complete(origin@, feedback),
            r.0 == old(self)@.follow_up(origin@, feedback),
            r.1 == (old(self)@.waiting && if old(self)@.stops(origin@, feedback) {
                true
            } else {
                final(self)@.active == 0 && old(self)@.active != 0
            }),
    {
        if self.aborted {
            return (FollowUp::Stop, false);
        }
        proof {
            self.lemma_slot(origin@);
        }
        match slots_get(&self.queued, origin) {
            None => (FollowUp::Stop, false),
            Some(at) => {
                let ghost before = *self;
                proof {
                    lemma_outstanding_bound(before@.queues, at as int);
                }
                if self.queues[at].is_visiting() && feedback == CrawlFeedback::Stop {
                    let wake = self.abort();
                    return (FollowUp::Stop, wake);
                }
                let r = self.queues[at].complete(feedback, &mut self.active);
                proof {
                    let queue = before.queues@[at as int]@.complete(feedback);
                    assert(states(self.queues@) =~= states(before.queues@).update(
                        at as int,
                        queue,
                    ));
                    lemma_update_wf(before@, at as int, queue, self.active.count());
                    assert forall|i: int| 0 <= i < self.queues@.len() implies (
                    #[trigger] self.queues@[i])@.origin == before.queues@[i]@.origin by {}
                }
                r
            },
        }
    }

    /// Ends the current visit of `origin`, after its links were routed.
    /// Returns whether the waiter has to be woken.
    pub fn finish(&mut self, origin: &str) -> (wake: bool)
        requires
            old(self).wf(),
        ensures
            final(self).wf(),
            final(self)@ == old(self)@.finish(origin@),
            wake == (old(self)@.waiting && final(self)@.active == 0 && old(self)@.active != 0),
    {
        if self.aborted {
            return false;
        }
        proof {
            self.lemma_slot(origin@);
        }
        match slots_get(&self.queued, origin) {
            None => false,
            Some(at) => {
                let ghost before = *self;
                proof {
                    lemma_outstanding_bound(before@.queues, at as int);
                }
                let wake = self.queues[at].finish(&mut self.active);
                proof {
                    let queue = before.queues@[at as int]@.finish();
                    assert(states(self.queues@) =~= states(before.queues@).update(
                        at as int,
                        queue,
                    ));
                    lemma_update_wf(before@, at as int, queue, self.active.count());
                    assert forall|i: int| 0 <= i < self.queues@.len() implies (
                    #[trigger] self.queues@[i])@.origin == before.queues@[i]@.origin by {}
                }
                wake
            },
        }
    }

    /// Aborts the crawl: the flag is set, every queue is closed, and the
    /// count is reset. Returns whether the waiter has to be woken: one is
    /// registered.
    pub fn abort(&mut self) -> (wake: bool)
        requires
            old(self).wf(),
        ensures
            final(self).wf(),
            final(self)@ == old(self)@.abort(),
            wake == old(self)@.waiting,
    {
        let ghost before = *self;
        self.aborted = true;
        let mut at: usize = 0;
        while at < self.queues.len()
            invariant
                before == *old(self),
                before.wf(),
                at <= self.queues@.len(),
                self.queues@.len() == before.queues@.len(),
                self.active == before.active,
                self.queued == before.queued,
                self.mode == before.mode,
                self.agent == before.agent,
                self.aborted,
                forall|i: int|
                    0 <= i < at ==> (#[trigger] self.queues@[i])@ == before.queues@[i]@.abort(),
                forall|i: int|
                    at <= i < self.queues@.len() ==> (#[trigger] self.queues@[i])
                        == before.queues@[i],
            decreases self.queues@.len() - at,
        {
            self.queues[at].abort();
            at += 1;
        }
        let wake = self.active.force_wake();
        proof {
            assert(states(self.queues@) =~= before@.abort().queues);
            assert forall|i: int| 0 <= i < self@.queues.len() implies (
            #[trigger] self@.queues[i]).wf() && self@.queues[i].closed by {
                assert(before@.queues[i].wf());
            }
            assert forall|i: int, j: int| 0 <= i < j < self@.queues.len() implies (
            #[trigger] self@.queues[i]).origin != (#[trigger] self@.queues[j]).origin by {
                assert(before@.queues[i].origin != before@.queues[j].origin);
            }
            assert forall|i: int| 0 <= i < self.queues@.len() implies (
            #[trigger] self.queues@[i])@.origin == before.queues@[i]@.origin by {}
        }
        wake
    }

    /// One poll of the waiter. Returns whether nothing is outstanding; if
    /// something is, the waiter is registered.
    pub fn wait(&mut self) -> (ready: bool)
        requires
            old(self).wf(),
        ensures
            final(self).wf(),
            final(self)@ == old(self)@.wait(),
            ready == old(self)@.idle(),
    {
        self.active.wait()
    }

    /// Starts, or goes on with, a crawl from `seed`. An aborted crawl is
    /// finished. Where the seed's origin has no queue yet, nothing changes:
    /// open one, then crawl again. Else the seed is routed, and the crawl
    /// is over once nothing is outstanding.
    pub fn crawl(&mut self, seed: &Link) -> (progress: Progress)
        requires
            old(self).wf(),
            old(self)@.active < usize::MAX,
        ensures
            final(self).wf(),
            final(self)@ == old(self)@.crawl(*seed),
            progress == old(self)@.progress(*seed),
    {
        if self.aborted {
            return Progress::Finished;
        }
        proof {
            self.lemma_slot(seed.origin());
        }
        match slots_get(&self.queued, seed.origin_str()) {
            None => Progress::NeedsQueue,
            Some(at) => {
                self.push_to(at, seed);
                if self.wait() {
                    Progress::Finished
                } else {
                    Progress::Waiting
                }
            },
        }
    }

    /// Hands `page`, the current visit of `origin`, to `visitor` and takes
    /// its feedback. After an abort the visitor is not called. Returns the
    /// feedback, if the visitor was called, how the worker goes on, and
    /// whether the waiter has to be woken.
    pub fn visit<V: CrawlingCallback>(&mut self, visitor: &V, origin: &str, page: &Page) -> (r: (
        Option<CrawlFeedback>,
        FollowUp,
        bool,
    ))
        requires
            old(self).wf(),
        ensures
            final(self).wf(),
            (r.0 is None) == old(self)@.aborted,
            match r.0 {
                Some(feedback) => {
                    &&& final(self)@ == old(self)@.complete(origin@, feedback)
                    &&& r.1 == old(self)@.follow_up(origin@, feedback)
                    &&& r.2 == (old(self)@.waiting && if old(self)@.stops(origin@, feedback) {
                        true
                    } else {
                        final(self)@.active == 0 && old(self)@.active != 0
                    })
                },
                None => final(self)@ == old(self)@ && r.1 == FollowUp::Stop && !r.2,
            },
    {
        if self.aborted {
            return (None, FollowUp::Stop, false);
        }
        let feedback = visitor.visit(page);
        let (follow_up, wake) = self.complete(origin, feedback);
        (Some(feedback), follow_up, wake)
    }

    /// The origin index finds the queue of an origin, and only that.
    proof fn lemma_slot(&self, origin: Seq<char>)
        requires
            self.wf(),
        ensures
            self@.has_queue(origin) == origin_slots(self.queued).contains_key(origin),
            self@.has_queue(origin) ==> {
                &&& 0 <= self@.slot(origin) < self.queues@.len()
                &&& self@.slot(origin) == origin_slots(self.queued)[origin]
                &&& self.queues@[self@.slot(origin)]@.origin == origin
                &&& self@.queue(origin) == self.queues@[self@.slot(origin)]@
            },
    {
        let slots = origin_slots(self.queued);
        if slots.contains_key(origin) {
            let at = slots[origin] as int;
            assert(self@.queues[at].origin == origin);
        }
        if self@.has_queue(origin) {
            let at = self@.slot(origin);
            assert(self@.queues[at] == self.queues@[at]@);
            assert(slots.contains_key(self.queues@[at]@.origin));
        }
    }
}

} // verus!
