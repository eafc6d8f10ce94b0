//! What holds of every queue and every crawl, whatever the driver does.

use crate::crawler::{lemma_outstanding_bound, lemma_outstanding_push, lemma_update_wf, outstanding,
    CrawlError, CrawlState, Progress};
use crate::feedback::CrawlFeedback;
use crate::link::Link;
use crate::robots::RobotsFetch;
use crate::queue::{later, lemma_denied_run, lemma_next_wf, lemma_push_wf, permitted, QueueState};
use vstd::prelude::*;

verus! {

/// The queue after all of `urls` were pushed, in order.
pub open spec fn push_all(queue: QueueState, urls: Seq<Seq<char>>) -> QueueState
    decreases urls.len(),
{
    if urls.len() == 0 {
        queue
    } else {
        push_all(queue.push(urls[0]), urls.skip(1))
    }
}

/// Pushing a URL a second time changes nothing: the second push is not
/// accepted, so the URL is counted once and pending at most once.
pub proof fn lemma_push_idempotent(queue: QueueState, url: Seq<char>)
    requires
        queue.wf(),
    ensures
        !queue.push(url).accepts(url),
        queue.push(url).push(url) == queue.push(url),
        queue.push(url).work() <= queue.work() + 1,
        queue.push(url).pending.no_duplicates(),
{
    lemma_push_wf(queue, url);
    if queue.accepts(url) {
        let after = queue.push(url);
        assert(after.seen[queue.seen.len() as int] == url);
    }
}

/// The URL that a queue hands out for a visit is permitted by its policy:
/// a URL that the policy denies is never requested.
pub proof fn lemma_due_is_permitted(queue: QueueState)
    ensures
        queue.due() matches Some(url) ==> permitted(queue.policy, url),
{
    lemma_denied_run(queue.policy, queue.pending);
}

/// Every URL that a step drops is denied by the policy, and each of them
/// leaves the work of the queue: a step lowers the work by what it drops.
pub proof fn lemma_dropped_are_denied(queue: QueueState, now: u64)
    ensures
        queue.dropped() <= queue.pending.len(),
        forall|i: int|
            0 <= i < queue.dropped() ==> !permitted(queue.policy, #[trigger] queue.pending[i]),
        queue.next(now).work() + queue.dropped() == queue.work(),
{
    lemma_denied_run(queue.policy, queue.pending);
}

/// While a visit is in progress the queue hands out no other URL, whatever
/// is pushed meanwhile: the visits of one origin do not overlap.
pub proof fn lemma_one_visit_at_a_time(queue: QueueState, now: u64, urls: Seq<Seq<char>>)
    requires
        queue.due() is Some,
    ensures
        push_all(queue.next(now), urls).current == queue.due(),
        push_all(queue.next(now), urls).due() is None,
{
    lemma_pushes_keep(queue.next(now), urls);
}

/// Pushing changes neither the visit in progress nor the running pause.
pub proof fn lemma_pushes_keep(queue: QueueState, urls: Seq<Seq<char>>)
    ensures
        push_all(queue, urls).current == queue.current,
        push_all(queue, urls).ready_at == queue.ready_at,
        push_all(queue, urls).cooldown == queue.cooldown,
        push_all(queue, urls).policy == queue.policy,
        push_all(queue, urls).origin == queue.origin,
        push_all(queue, urls).closed == queue.closed,
        queue.wf() ==> push_all(queue, urls).wf(),
    decreases urls.len(),
{
    if urls.len() > 0 {
        if queue.wf() {
            lemma_push_wf(queue, urls[0]);
        }
        lemma_pushes_keep(queue.push(urls[0]), urls.skip(1));
    }
}

/// Two consecutive visits of one origin start at least the origin's pause
/// apart. After a visit was handed out at `first_now`, whatever is pushed
/// while it runs, whatever feedback it gets and whatever is pushed before
/// the worker asks again at `second_now`: the second request starts no
/// earlier than the first one's start plus the pause.
pub proof fn lemma_cooldown_between_visits(
    queue: QueueState,
    first_now: u64,
    during: Seq<Seq<char>>,
    feedback: CrawlFeedback,
    after: Seq<Seq<char>>,
    second_now: u64,
)
    requires
        queue.due() is Some,
    ensures
        ({
            let visiting = push_all(queue.next(first_now), during);
            let done = push_all(visiting.complete(feedback).finish(), after);
            done.start_at(second_now) >= later(queue.start_at(first_now), queue.cooldown)
        }),
{
    let visiting = push_all(queue.next(first_now), during);
    lemma_pushes_keep(queue.next(first_now), during);
    lemma_pushes_keep(visiting.complete(feedback).finish(), after);
}

/// The pause of a queue is the delay that its robots policy mandates, and
/// five seconds where the policy mandates none or there is no policy.
pub proof fn lemma_cooldown_is_configured(queue: QueueState)
    requires
        queue.wf(),
    ensures
        queue.cooldown == match queue.policy {
            Some(policy) => match policy.delay() {
                Some(secs) => if secs * 1000 <= u64::MAX {
                    (secs * 1000) as u64
                } else {
                    u64::MAX
                },
                None => 5000,
            },
            None => 5000,
        },
{
}

/// A URL that was handed out for a visit is never pending again: it was
/// seen, and neither a push nor a step of the worker brings a seen URL back
/// into the queue. So no URL is visited twice on one origin.
pub proof fn lemma_visited_once(
    queue: QueueState,
    url: Seq<char>,
    pushed: Seq<char>,
    now: u64,
    feedback: CrawlFeedback,
)
    requires
        queue.wf(),
        queue.seen.contains(url),
        !queue.pending.contains(url),
    ensures
        queue.push(pushed).seen.contains(url) && !queue.push(pushed).pending.contains(url),
        queue.next(now).seen.contains(url) && !queue.next(now).pending.contains(url),
        queue.complete(feedback).seen.contains(url) && !queue.complete(feedback).pending.contains(
            url,
        ),
        queue.finish().seen.contains(url) && !queue.finish().pending.contains(url),
        queue.abort().seen.contains(url) && !queue.abort().pending.contains(url),
{
    let at = choose|i: int| 0 <= i < queue.seen.len() && queue.seen[i] == url;
    let pushing = queue.push(pushed);
    assert(pushing.seen[at] == url);
    if pushing.pending.contains(url) {
        let i = choose|i: int| 0 <= i < pushing.pending.len() && pushing.pending[i] == url;
        if i < queue.pending.len() {
            assert(queue.pending[i] == url);
        }
    }
    let stepped = queue.next(now);
    lemma_denied_run(queue.policy, queue.pending);
    if stepped.pending.contains(url) {
        let i = choose|i: int| 0 <= i < stepped.pending.len() && stepped.pending[i] == url;
        assert(queue.pending[i + queue.denied() + 1] == url);
    }
}

/// A step hands out a URL that was pending, and takes it out of the queue:
/// with [`lemma_visited_once`], each accepted URL is visited at most once.
pub proof fn lemma_due_leaves_queue(queue: QueueState, now: u64)
    requires
        queue.wf(),
        queue.due() is Some,
    ensures
        queue.pending.contains(queue.due().unwrap()),
        queue.next(now).seen.contains(queue.due().unwrap()),
        !queue.next(now).pending.contains(queue.due().unwrap()),
{
    lemma_denied_run(queue.policy, queue.pending);
    lemma_next_wf(queue, now);
    assert(queue.pending[queue.denied() as int] == queue.due().unwrap());
}

/// In a well-formed crawl the queue of an origin is the only one that
/// serves it.
pub proof fn lemma_slot_is_unique(state: CrawlState, at: int)
    requires
        state.wf(),
        0 <= at < state.queues.len(),
    ensures
        state.has_queue(state.queues[at].origin),
        state.slot(state.queues[at].origin) == at,
{
    let origin = state.queues[at].origin;
    let slot = state.slot(origin);
    if slot < at {
        assert(state.queues[slot].origin != state.queues[at].origin);
    } else if at < slot {
        assert(state.queues[at].origin != state.queues[slot].origin);
    }
}

/// Pushing keeps the invariant of a crawl, and the origins of its queues.
pub proof fn lemma_crawl_push_wf(state: CrawlState, origin: Seq<char>, url: Seq<char>)
    requires
        state.wf(),
        state.serves(origin),
    ensures
        state.push(origin, url).wf(),
        state.push(origin, url).aborted == state.aborted,
        state.push(origin, url).queues.len() == state.queues.len(),
        forall|o: Seq<char>| state.push(origin, url).has_queue(o) == state.has_queue(o),
        forall|o: Seq<char>|
            state.has_queue(o) ==> state.push(origin, url).slot(o) == state.slot(o),
{
    let at = state.slot(origin);
    let queue = state.queues[at].push(url);
    let after = state.push(origin, url);
    lemma_push_wf(state.queues[at], url);
    lemma_update_wf(state, at, queue, after.active);
    lemma_same_origins(state, after);
}

/// Two well-formed crawls whose queues serve the same origins, slot by
/// slot, find each origin in the same slot.
pub proof fn lemma_same_origins(state: CrawlState, after: CrawlState)
    requires
        state.wf(),
        after.wf(),
        after.queues.len() == state.queues.len(),
        forall|i: int|
            0 <= i < state.queues.len() ==> (#[trigger] after.queues[i]).origin
                == state.queues[i].origin,
    ensures
        forall|o: Seq<char>| after.has_queue(o) == state.has_queue(o),
        forall|o: Seq<char>| state.has_queue(o) ==> after.slot(o) == state.slot(o),
{
    assert forall|o: Seq<char>| after.has_queue(o) == state.has_queue(o) by {
        if after.has_queue(o) {
            let i = after.slot(o);
            assert(state.queues[i].origin == o);
        }
        if state.has_queue(o) {
            let i = state.slot(o);
            assert(after.queues[i].origin == o);
        }
    }
    assert forall|o: Seq<char>| state.has_queue(o) implies after.slot(o) == state.slot(o) by {
        let i = state.slot(o);
        assert(after.queues[i].origin == o);
        lemma_slot_is_unique(after, i);
    }
}

/// Routing the same URL twice is routing it once: the second push is not
/// accepted, and the count rises by one at most.
pub proof fn lemma_route_twice(state: CrawlState, origin: Seq<char>, url: Seq<char>)
    requires
        state.wf(),
        state.serves(origin),
    ensures
        state.push(origin, url).push(origin, url) == state.push(origin, url),
        state.push(origin, url).active <= state.active + 1,
        state.push(origin, url).queue(origin).pending.no_duplicates(),
{
    let once = state.push(origin, url);
    lemma_crawl_push_wf(state, origin, url);
    lemma_push_idempotent(state.queue(origin), url);
    assert(once.push(origin, url).queues =~= once.queues);
}

/// Routing keeps the invariant of a crawl. It stops in front of the first
/// link whose origin has no queue, and counts at most one URL per link.
pub proof fn lemma_route_wf(state: CrawlState, links: Seq<Link>, start: int)
    requires
        state.wf(),
        0 <= start <= links.len(),
    ensures
        state.route(links, start).0.wf(),
        state.route(links, start).0.aborted == state.aborted,
        start <= state.route(links, start).1 <= links.len(),
        state.route(links, start).1 < links.len() ==> !state.has_queue(
            links[state.route(links, start).1].origin(),
        ),
        state.active <= state.route(links, start).0.active <= state.active + (links.len() - start),
        forall|o: Seq<char>| state.route(links, start).0.has_queue(o) == state.has_queue(o),
    decreases links.len() - start,
{
    if !state.aborted && start < links.len() && state.has_queue(links[start].origin()) {
        let pushed = state.push(links[start].origin(), links[start].href());
        lemma_crawl_push_wf(state, links[start].origin(), links[start].href());
        lemma_route_wf(pushed, links, start + 1);
    }
}

/// Opening a queue keeps the invariant of a crawl. Where the origin has a
/// queue, none is opened: there is never a second queue for an origin.
pub proof fn lemma_open_wf(state: CrawlState, origin: Seq<char>, fetched: RobotsFetch)
    requires
        state.wf(),
    ensures
        state.open(origin, fetched).wf(),
        state.has_queue(origin) ==> state.open(origin, fetched) == state,
        state.opens(origin, fetched) == Ok::<bool, CrawlError>(true)
            ==> state.open(origin, fetched).has_queue(origin),
        state.open(origin, fetched).active == state.active,
{
    let after = state.open(origin, fetched);
    if state.opens(origin, fetched) == Ok::<bool, CrawlError>(true) {
        let queue = after.queues[state.queues.len() as int];
        lemma_outstanding_push(state.queues, queue);
        assert forall|i: int, j: int| 0 <= i < j < after.queues.len() implies (
        #[trigger] after.queues[i]).origin != (#[trigger] after.queues[j]).origin by {
            if j == state.queues.len() {
                assert(state.queues[i].origin != origin);
            } else {
                assert(after.queues[i] == state.queues[i]);
                assert(after.queues[j] == state.queues[j]);
            }
        }
        assert forall|i: int| 0 <= i < after.queues.len() implies (#[trigger] after.queues[i]).wf()
            && after.queues[i].closed == after.aborted by {
            if i < state.queues.len() {
                assert(after.queues[i] == state.queues[i]);
            }
        }
        assert(after.queues[state.queues.len() as int].origin == origin);
    }
}

/// A step of a worker keeps the invariant of a crawl: what the step drops
/// is counted out, so the count stays the work that the queues hold.
pub proof fn lemma_crawl_next_wf(state: CrawlState, origin: Seq<char>, now: u64)
    requires
        state.wf(),
    ensures
        state.next(origin, now).wf(),
        state.next(origin, now).aborted == state.aborted,
{
    if state.serves(origin) {
        let at = state.slot(origin);
        lemma_next_wf(state.queues[at], now);
        lemma_denied_run(state.queues[at].policy, state.queues[at].pending);
        lemma_outstanding_bound(state.queues, at);
        lemma_update_wf(state, at, state.queues[at].next(now), state.next(origin, now).active);
    }
}

/// An abort keeps the invariant of a crawl, and a second abort changes
/// nothing.
pub proof fn lemma_abort_wf(state: CrawlState)
    requires
        state.wf(),
    ensures
        state.abort().wf(),
        state.abort().abort() == state.abort(),
{
    let after = state.abort();
    assert forall|i: int| 0 <= i < after.queues.len() implies (#[trigger] after.queues[i]).wf()
        && after.queues[i].closed by {
        assert(state.queues[i].wf());
    }
    assert forall|i: int, j: int| 0 <= i < j < after.queues.len() implies (
    #[trigger] after.queues[i]).origin != (#[trigger] after.queues[j]).origin by {
        assert(state.queues[i].origin != state.queues[j].origin);
    }
    assert(after.abort().queues =~= after.queues);
}

/// Feedback keeps the invariant of a crawl.
pub proof fn lemma_complete_wf(state: CrawlState, origin: Seq<char>, feedback: CrawlFeedback)
    requires
        state.wf(),
    ensures
        state.complete(origin, feedback).wf(),
        state.aborted ==> state.complete(origin, feedback).aborted,
{
    if state.stops(origin, feedback) {
        lemma_abort_wf(state);
    } else if state.serves(origin) {
        let at = state.slot(origin);
        lemma_outstanding_bound(state.queues, at);
        lemma_update_wf(
            state,
            at,
            state.queues[at].complete(feedback),
            state.complete(origin, feedback).active,
        );
    }
}

/// Finishing a visit keeps the invariant of a crawl.
pub proof fn lemma_finish_wf(state: CrawlState, origin: Seq<char>)
    requires
        state.wf(),
    ensures
        state.finish(origin).wf(),
        state.finish(origin).aborted == state.aborted,
{
    if state.serves(origin) {
        let at = state.slot(origin);
        lemma_outstanding_bound(state.queues, at);
        lemma_update_wf(state, at, state.queues[at].finish(), state.finish(origin).active);
    }
}

/// Handing a seed to the crawl, and a poll of the waiter, keep the
/// invariant of a crawl.
pub proof fn lemma_crawl_wf(state: CrawlState, seed: Link)
    requires
        state.wf(),
    ensures
        state.wait().wf(),
        state.crawl(seed).wf(),
        state.crawl(seed).aborted == state.aborted,
        state.progress(seed) == Progress::Finished ==> state.crawl(seed).idle(),
{
    if state.serves(seed.origin()) {
        lemma_crawl_push_wf(state, seed.origin(), seed.href());
    }
}

/// The origins do not touch each other: what the worker of one origin
/// does, and what is routed to it, leaves the queue of every other origin
/// as it is. Its visits, its pending URLs and its pause are its own. Only
/// an abort reaches every queue.
pub proof fn lemma_origins_are_independent(
    state: CrawlState,
    origin: Seq<char>,
    other: Seq<char>,
    url: Seq<char>,
    now: u64,
    feedback: CrawlFeedback,
    fetched: RobotsFetch,
)
    requires
        state.wf(),
        state.has_queue(origin),
        other != origin,
    ensures
        state.serves(other) ==> state.push(other, url).queue(origin) == state.queue(origin),
        state.next(other, now).queue(origin) == state.queue(origin),
        !state.stops(other, feedback) ==> state.complete(other, feedback).queue(origin)
            == state.queue(origin),
        state.finish(other).queue(origin) == state.queue(origin),
        state.open(other, fetched).queue(origin) == state.queue(origin),
{
    let at = state.slot(origin);
    if state.serves(other) {
        let there = state.slot(other);
        assert(there != at);
        let pushed = state.push(other, url);
        lemma_crawl_push_wf(state, other, url);
        assert(pushed.queues[at] == state.queues[at]);

        let stepped = state.next(other, now);
        lemma_crawl_next_wf(state, other, now);
        assert(stepped.queues[at] == state.queues[at]);
        lemma_slot_is_unique(stepped, at);

        let finished = state.finish(other);
        lemma_finish_wf(state, other);
        assert(finished.queues[at] == state.queues[at]);
        lemma_slot_is_unique(finished, at);

        if !state.stops(other, feedback) {
            let judged = state.complete(other, feedback);
            lemma_complete_wf(state, other, feedback);
            assert(judged.queues[at] == state.queues[at]);
            lemma_slot_is_unique(judged, at);
        }
    }
    let opened = state.open(other, fetched);
    lemma_open_wf(state, other, fetched);
    assert(opened.queues[at] == state.queues[at]);
    lemma_slot_is_unique(opened, at);
}

/// `Stop` on a visit in progress is an abort of the whole crawl.
pub proof fn lemma_stop_aborts(state: CrawlState, origin: Seq<char>)
    requires
        state.serves(origin),
        state.queue(origin).current is Some,
    ensures
        state.complete(origin, CrawlFeedback::Stop) == state.abort(),
        state.complete(origin, CrawlFeedback::Stop).aborted,
{
}

/// After an abort the crawl is over. The flag is set and the count is zero,
/// so the waiter is ready and a crawl from any seed is finished. No worker
/// gets a further step: nothing is routed, no queue is opened, no queue
/// hands out a URL, and no operation resets the flag.
pub proof fn lemma_abort_ends_crawl(
    state: CrawlState,
    seed: Link,
    links: Seq<Link>,
    start: int,
    origin: Seq<char>,
    fetched: RobotsFetch,
    now: u64,
    feedback: CrawlFeedback,
)
    ensures
        state.abort().aborted,
        state.abort().idle(),
        state.abort().progress(seed) == Progress::Finished,
        state.abort().crawl(seed) == state.abort(),
        state.abort().route(links, start).0 == state.abort(),
        state.abort().open(origin, fetched) == state.abort(),
        state.abort().next(origin, now) == state.abort(),
        state.abort().complete(origin, feedback) == state.abort(),
        state.abort().finish(origin) == state.abort(),
        state.abort().wait() == state.abort(),
        forall|i: int|
            0 <= i < state.abort().queues.len() ==> (#[trigger] state.abort().queues[i]).due()
                is None,
{
}

/// While a crawl is not aborted, nothing is outstanding exactly when every
/// queue is drained: nothing is pending and no visit is in progress.
pub proof fn lemma_idle_iff_drained(state: CrawlState)
    requires
        state.wf(),
        !state.aborted,
    ensures
        state.idle() <==> forall|i: int|
            0 <= i < state.queues.len() ==> (#[trigger] state.queues[i]).work() == 0,
{
    lemma_outstanding_zero(state.queues);
}

/// The outstanding work is zero exactly when no queue holds any.
pub proof fn lemma_outstanding_zero(queues: Seq<QueueState>)
    ensures
        outstanding(queues) == 0 <==> forall|i: int|
            0 <= i < queues.len() ==> (#[trigger] queues[i]).work() == 0,
    decreases queues.len(),
{
    if queues.len() > 0 {
        let front = queues.drop_last();
        lemma_outstanding_zero(front);
        if outstanding(queues) == 0 {
            assert forall|i: int| 0 <= i < queues.len() implies (#[trigger] queues[i]).work()
                == 0 by {
                if i < front.len() {
                    assert(queues[i] == front[i]);
                }
            }
        }
        if forall|i: int| 0 <= i < queues.len() ==> (#[trigger] queues[i]).work() == 0 {
            assert forall|i: int| 0 <= i < front.len() implies (#[trigger] front[i]).work()
                == 0 by {
                assert(front[i] == queues[i]);
            }
            assert(queues.last() == queues[queues.len() - 1]);
        }
    }
}

} // verus!
