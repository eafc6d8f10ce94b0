//! A crawl of a finite web comes to an end.
//!
//! The web is given by what it answers: the links on each page, the robots
//! document of each origin, and the observer's feedback on each page. A run
//! takes one turn of one worker after the other. Each turn lowers a measure
//! that cannot fall below zero: the URLs of the web that were not seen yet,
//! plus the URLs that are outstanding.

use crate::crawler::{lemma_outstanding_bound, CrawlError, CrawlState};
use crate::feedback::CrawlFeedback;
use crate::laws::{lemma_crawl_next_wf, lemma_crawl_push_wf, lemma_complete_wf, lemma_finish_wf,
    lemma_idle_iff_drained, lemma_open_wf, lemma_slot_is_unique};
use crate::link::Link;
use crate::queue::{lemma_denied_run, QueueState};
use crate::robots::RobotsFetch;
use vstd::prelude::*;

verus! {

/// What a web answers to a crawl.
pub struct Web {
    /// The links on the page at a URL.
    pub links: spec_fn(Seq<char>) -> Seq<Link>,
    /// The outcome of fetching the robots document of an origin.
    pub robots: spec_fn(Seq<char>) -> RobotsFetch,
    /// The observer's feedback on the page at a URL.
    pub verdict: spec_fn(Seq<char>) -> CrawlFeedback,
}

/// Whether `universe` holds a link to the URL of `link` on its origin.
pub open spec fn holds(universe: Seq<Link>, link: Link) -> bool {
    exists|j: int|
        0 <= j < universe.len() && (#[trigger] universe[j]).origin() == link.origin()
            && universe[j].href() == link.href()
}

/// Whether every link of the web is held by `universe`: the web is finite.
pub open spec fn within(web: Web, universe: Seq<Link>) -> bool {
    forall|url: Seq<char>, i: int|
        0 <= i < (web.links)(url).len() ==> holds(universe, #[trigger] (web.links)(url)[i])
}

/// Whether the observer never asks to stop.
pub open spec fn never_stops(web: Web) -> bool {
    forall|url: Seq<char>| #[trigger] (web.verdict)(url) != CrawlFeedback::Stop
}

/// Whether the URL of `link` was seen on the queue of its origin.
pub open spec fn is_seen(state: CrawlState, link: Link) -> bool {
    state.has_queue(link.origin()) && state.queue(link.origin()).seen.contains(link.href())
}

/// The number of links in `universe` whose URL was not seen yet.
pub open spec fn unseen(state: CrawlState, universe: Seq<Link>) -> nat
    decreases universe.len(),
{
    if universe.len() == 0 {
        0
    } else {
        unseen(state, universe.drop_last()) + if is_seen(state, universe.last()) {
            0nat
        } else {
            1nat
        }
    }
}

/// The measure of what a crawl of `universe` has left to do: the links
/// that were not seen yet, and the URLs that are outstanding.
pub open spec fn measure(state: CrawlState, universe: Seq<Link>) -> nat {
    unseen(state, universe) + state.active
}

/// Whether queue `after` serves the origin of `before` and has seen all
/// that `before` has seen.
pub open spec fn covers(after: QueueState, before: QueueState) -> bool {
    after.origin == before.origin && forall|url: Seq<char>|
        before.seen.contains(url) ==> after.seen.contains(url)
}

/// Whether `after` has every queue of `state`, in its slot, with all that
/// it had seen.
pub open spec fn grows(state: CrawlState, after: CrawlState) -> bool {
    &&& after.queues.len() >= state.queues.len()
    &&& forall|i: int|
        0 <= i < state.queues.len() ==> covers(#[trigger] after.queues[i], state.queues[i])
}

/// Whether the visits in progress are the same in `after` as in `state`,
/// and none is in progress on a queue that `state` does not have.
pub open spec fn keeps_visits(state: CrawlState, after: CrawlState) -> bool {
    &&& after.queues.len() >= state.queues.len()
    &&& forall|i: int|
        0 <= i < state.queues.len() ==> (#[trigger] after.queues[i]).current
            == state.queues[i].current
    &&& forall|i: int|
        state.queues.len() <= i < after.queues.len() ==> (#[trigger] after.queues[i]).current
            is None
}

/// Whether no visit is in progress.
pub open spec fn quiescent(state: CrawlState) -> bool {
    forall|i: int| 0 <= i < state.queues.len() ==> (#[trigger] state.queues[i]).current is None
}

/// What was seen stays seen where a crawl grows, and an origin keeps its
/// slot.
pub proof fn lemma_grows_keeps(state: CrawlState, after: CrawlState, origin: Seq<char>)
    requires
        state.wf(),
        after.wf(),
        grows(state, after),
        state.has_queue(origin),
    ensures
        after.has_queue(origin),
        after.slot(origin) == state.slot(origin),
        covers(after.queue(origin), state.queue(origin)),
{
    let at = state.slot(origin);
    assert(covers(after.queues[at], state.queues[at]));
    lemma_slot_is_unique(after, at);
}

/// Where a crawl grows, no fewer links are seen: the number of unseen
/// links does not rise, and it falls where a link of the universe is newly
/// seen.
pub proof fn lemma_unseen_falls(state: CrawlState, after: CrawlState, universe: Seq<Link>)
    requires
        state.wf(),
        after.wf(),
        grows(state, after),
    ensures
        unseen(after, universe) <= unseen(state, universe),
        (exists|j: int|
            0 <= j < universe.len() && !is_seen(state, #[trigger] universe[j]) && is_seen(
                after,
                universe[j],
            )) ==> unseen(after, universe) + 1 <= unseen(state, universe),
    decreases universe.len(),
{
    if universe.len() > 0 {
        let front = universe.drop_last();
        let last = universe.last();
        lemma_unseen_falls(state, after, front);
        if is_seen(state, last) {
            lemma_grows_keeps(state, after, last.origin());
        }
        if exists|j: int|
            0 <= j < universe.len() && !is_seen(state, #[trigger] universe[j]) && is_seen(
                after,
                universe[j],
            ) {
            let j = choose|j: int|
                0 <= j < universe.len() && !is_seen(state, #[trigger] universe[j]) && is_seen(
                    after,
                    universe[j],
                );
            if j < front.len() {
                assert(front[j] == universe[j]);
            }
        }
    }
}

/// Growth carries on: a crawl that grew from one that grew has grown from
/// the first.
pub proof fn lemma_grows_on(first: CrawlState, second: CrawlState, third: CrawlState)
    requires
        grows(first, second),
        grows(second, third),
    ensures
        grows(first, third),
{
    assert forall|i: int| 0 <= i < first.queues.len() implies covers(
        #[trigger] third.queues[i],
        first.queues[i],
    ) by {
        assert(covers(second.queues[i], first.queues[i]));
        assert(covers(third.queues[i], second.queues[i]));
    }
}

/// Kept visits carry on in the same way.
pub proof fn lemma_keeps_visits_on(first: CrawlState, second: CrawlState, third: CrawlState)
    requires
        keeps_visits(first, second),
        keeps_visits(second, third),
    ensures
        keeps_visits(first, third),
{
    assert forall|i: int| 0 <= i < first.queues.len() implies (#[trigger] third.queues[i]).current
        == first.queues[i].current by {
        assert(second.queues[i].current == first.queues[i].current);
    }
    assert forall|i: int| first.queues.len() <= i < third.queues.len() implies (
    #[trigger] third.queues[i]).current is None by {
        if i < second.queues.len() {
            assert(second.queues[i].current is None);
        }
    }
}

/// The crawl after the driver routed the links from `start` on: each link
/// goes to the queue of its origin, and an origin that has no queue gets
/// one from what the web answers for its robots document. Where no queue
/// can be opened, the links from there on are left out.
pub open spec fn route_all(state: CrawlState, web: Web, links: Seq<Link>, start: int) -> CrawlState
    decreases links.len() - start,
{
    if state.aborted || start < 0 || start >= links.len() {
        state
    } else if state.has_queue(links[start].origin()) {
        route_all(
            state.push(links[start].origin(), links[start].href()),
            web,
            links,
            start + 1,
        )
    } else if state.opens(links[start].origin(), (web.robots)(links[start].origin())) == Ok::<
        bool,
        CrawlError,
    >(true) {
        route_all(
            state.open(links[start].origin(), (web.robots)(links[start].origin())).push(
                links[start].origin(),
                links[start].href(),
            ),
            web,
            links,
            start + 1,
        )
    } else {
        state
    }
}

/// Routing by the driver is what `route` and `open` do in turn: `route`
/// runs up to the first link whose origin has no queue; where a queue can
/// be opened for it, routing goes on from that link, and else it ends.
pub proof fn lemma_route_all_by_route(state: CrawlState, web: Web, links: Seq<Link>, start: int)
    requires
        state.wf(),
        0 <= start <= links.len(),
    ensures
        ({
            let (routed, stop) = state.route(links, start);
            let origin = links[stop].origin();
            route_all(state, web, links, start) == if stop >= links.len() {
                routed
            } else if routed.opens(origin, (web.robots)(origin)) == Ok::<bool, CrawlError>(true) {
                route_all(routed.open(origin, (web.robots)(origin)), web, links, stop)
            } else {
                routed
            }
        }),
    decreases links.len() - start,
{
    if !(state.aborted || start >= links.len()) {
        let link = links[start];
        if state.has_queue(link.origin()) {
            lemma_crawl_push_wf(state, link.origin(), link.href());
            lemma_route_all_by_route(
                state.push(link.origin(), link.href()),
                web,
                links,
                start + 1,
            );
        } else {
            lemma_open_wf(state, link.origin(), (web.robots)(link.origin()));
        }
    }
}

/// The crawl after one turn of the worker of `origin` at `now`. The worker
/// asks for its step. Where it gets a page, the observer gives its
/// feedback; on `Continue` the links of the page are routed and the visit
/// is finished.
pub open spec fn turn(state: CrawlState, web: Web, origin: Seq<char>, now: u64) -> CrawlState {
    let stepped = state.next(origin, now);
    match state.queue(origin).due() {
        None => stepped,
        Some(url) => {
            let judged = stepped.complete(origin, (web.verdict)(url));
            if (web.verdict)(url) == CrawlFeedback::Continue {
                route_all(judged, web, (web.links)(url), 0).finish(origin)
            } else {
                judged
            }
        },
    }
}

/// An origin whose queue has URLs pending.
pub open spec fn busy_origin(state: CrawlState) -> Seq<char> {
    state.queues[choose|i: int|
        0 <= i < state.queues.len() && (#[trigger] state.queues[i]).pending.len() > 0].origin
}

/// The crawl after a run of at most `turns` turns, each taken by a worker
/// that has URLs pending. The run ends when nothing is outstanding.
pub open spec fn run(state: CrawlState, web: Web, now: u64, turns: nat) -> CrawlState
    decreases turns,
{
    if turns == 0 || state.idle() {
        state
    } else {
        run(turn(state, web, busy_origin(state), now), web, now, (turns - 1) as nat)
    }
}

/// A push lets the crawl grow and keeps its visits. Its measure does not
/// rise where the link is one of the universe: what is counted in was
/// unseen.
pub proof fn lemma_push_measure(state: CrawlState, link: Link, universe: Seq<Link>)
    requires
        state.wf(),
        state.serves(link.origin()),
        holds(universe, link),
    ensures
        state.push(link.origin(), link.href()).wf(),
        !state.push(link.origin(), link.href()).aborted,
        grows(state, state.push(link.origin(), link.href())),
        keeps_visits(state, state.push(link.origin(), link.href())),
        measure(state.push(link.origin(), link.href()), universe) <= measure(state, universe),
{
    let origin = link.origin();
    let after = state.push(origin, link.href());
    let at = state.slot(origin);
    lemma_crawl_push_wf(state, origin, link.href());
    assert forall|i: int| 0 <= i < state.queues.len() implies covers(
        #[trigger] after.queues[i],
        state.queues[i],
    ) by {
        if i == at {
            assert forall|url: Seq<char>|
                state.queues[at].seen.contains(url) implies after.queues[at].seen.contains(
                url,
            ) by {
                let k = choose|k: int|
                    0 <= k < state.queues[at].seen.len() && state.queues[at].seen[k] == url;
                assert(after.queues[at].seen[k] == url);
            }
        }
    }
    lemma_unseen_falls(state, after, universe);
    if state.queues[at].accepts(link.href()) {
        let j = choose|j: int|
            0 <= j < universe.len() && (#[trigger] universe[j]).origin() == link.origin()
                && universe[j].href() == link.href();
        assert(after.queues[at].seen[state.queues[at].seen.len() as int] == link.href());
        assert(!is_seen(state, universe[j]));
        assert(is_seen(after, universe[j]));
    }
}

/// Opening a queue lets the crawl grow and keeps its visits, and does not
/// raise its measure.
pub proof fn lemma_open_measure(
    state: CrawlState,
    origin: Seq<char>,
    fetched: RobotsFetch,
    universe: Seq<Link>,
)
    requires
        state.wf(),
    ensures
        state.open(origin, fetched).wf(),
        state.open(origin, fetched).aborted == state.aborted,
        grows(state, state.open(origin, fetched)),
        keeps_visits(state, state.open(origin, fetched)),
        measure(state.open(origin, fetched), universe) <= measure(state, universe),
        state.opens(origin, fetched) == Ok::<bool, CrawlError>(true) ==> state.open(
            origin,
            fetched,
        ).has_queue(origin),
{
    let after = state.open(origin, fetched);
    lemma_open_wf(state, origin, fetched);
    assert forall|i: int| 0 <= i < state.queues.len() implies covers(
        #[trigger] after.queues[i],
        state.queues[i],
    ) by {
        assert(after.queues[i] == state.queues[i]);
    }
    assert forall|i: int| 0 <= i < state.queues.len() implies (#[trigger] after.queues[i]).current
        == state.queues[i].current by {
        assert(after.queues[i] == state.queues[i]);
    }
    lemma_unseen_falls(state, after, universe);
}

/// Routing the links of a page lets the crawl grow and keeps its visits,
/// and does not raise its measure: every URL that is counted in was unseen.
pub proof fn lemma_route_all(
    state: CrawlState,
    web: Web,
    links: Seq<Link>,
    start: int,
    universe: Seq<Link>,
)
    requires
        state.wf(),
        0 <= start <= links.len(),
        forall|i: int| start <= i < links.len() ==> holds(universe, #[trigger] links[i]),
    ensures
        route_all(state, web, links, start).wf(),
        route_all(state, web, links, start).aborted == state.aborted,
        grows(state, route_all(state, web, links, start)),
        keeps_visits(state, route_all(state, web, links, start)),
        measure(route_all(state, web, links, start), universe) <= measure(state, universe),
    decreases links.len() - start,
{
    if !(state.aborted || start >= links.len()) {
        let link = links[start];
        let fetched = (web.robots)(link.origin());
        if state.has_queue(link.origin()) {
            let pushed = state.push(link.origin(), link.href());
            lemma_push_measure(state, link, universe);
            lemma_route_all(pushed, web, links, start + 1, universe);
            let routed = route_all(pushed, web, links, start + 1);
            lemma_grows_on(state, pushed, routed);
            lemma_keeps_visits_on(state, pushed, routed);
        } else if state.opens(link.origin(), fetched) == Ok::<bool, CrawlError>(true) {
            let opened = state.open(link.origin(), fetched);
            lemma_open_measure(state, link.origin(), fetched, universe);
            let pushed = opened.push(link.origin(), link.href());
            lemma_push_measure(opened, link, universe);
            lemma_grows_on(state, opened, pushed);
            lemma_keeps_visits_on(state, opened, pushed);
            lemma_route_all(pushed, web, links, start + 1, universe);
            let routed = route_all(pushed, web, links, start + 1);
            lemma_grows_on(state, pushed, routed);
            lemma_keeps_visits_on(state, pushed, routed);
        }
    }
}

/// One turn of a worker that has URLs pending lowers the measure of the
/// crawl, and leaves it well formed, not aborted, and without a visit in
/// progress.
pub proof fn lemma_turn_lowers_measure(
    state: CrawlState,
    web: Web,
    origin: Seq<char>,
    now: u64,
    universe: Seq<Link>,
)
    requires
        state.wf(),
        !state.aborted,
        quiescent(state),
        within(web, universe),
        never_stops(web),
        state.has_queue(origin),
        state.queue(origin).pending.len() > 0,
    ensures
        turn(state, web, origin, now).wf(),
        !turn(state, web, origin, now).aborted,
        quiescent(turn(state, web, origin, now)),
        measure(turn(state, web, origin, now), universe) < measure(state, universe),
{
    let at = state.slot(origin);
    let queue = state.queues[at];
    let stepped = state.next(origin, now);
    lemma_crawl_next_wf(state, origin, now);
    lemma_denied_run(queue.policy, queue.pending);
    lemma_slot_is_unique(state, at);
    assert(stepped.queues[at] == queue.next(now));
    lemma_slot_is_unique(stepped, at);
    assert forall|i: int| 0 <= i < state.queues.len() implies covers(
        #[trigger] stepped.queues[i],
        state.queues[i],
    ) && (i != at ==> stepped.queues[i].current is None) by {
        assert(state.queues[i].current is None);
    }
    lemma_unseen_falls(state, stepped, universe);
    lemma_outstanding_bound(state.queues, at);
    assert(!queue.closed && queue.current is None);
    assert(stepped.active + queue.dropped() == state.active);
    match queue.due() {
        None => {
            assert(queue.dropped() == queue.pending.len());
        },
        Some(url) => {
            let feedback = (web.verdict)(url);
            let judged = stepped.complete(origin, feedback);
            lemma_complete_wf(stepped, origin, feedback);
            lemma_outstanding_bound(stepped.queues, at);
            assert(stepped.queues[at].current is Some);
            assert(!stepped.stops(origin, feedback));
            assert(judged.queues[at] == stepped.queues[at].complete(feedback));
            lemma_slot_is_unique(judged, at);
            assert forall|i: int| 0 <= i < stepped.queues.len() implies covers(
                #[trigger] judged.queues[i],
                stepped.queues[i],
            ) && (i != at ==> judged.queues[i].current is None) by {
                assert(stepped.queues[i].current is None || i == at);
            }
            lemma_unseen_falls(stepped, judged, universe);
            if feedback == CrawlFeedback::Continue {
                let links = (web.links)(url);
                let routed = route_all(judged, web, links, 0);
                lemma_route_all(judged, web, links, 0, universe);
                assert(covers(routed.queues[at], judged.queues[at]));
                lemma_slot_is_unique(routed, at);
                let finished = routed.finish(origin);
                lemma_finish_wf(routed, origin);
                lemma_outstanding_bound(routed.queues, at);
                assert(routed.queues[at].current == judged.queues[at].current);
                assert(judged.active == stepped.active);
                assert(finished.active + 1 == routed.active);
                assert(finished.queues[at] == routed.queues[at].finish());
                assert forall|i: int| 0 <= i < routed.queues.len() implies covers(
                    #[trigger] finished.queues[i],
                    routed.queues[i],
                ) by {}
                lemma_unseen_falls(routed, finished, universe);
                assert forall|i: int| 0 <= i < finished.queues.len() implies (
                #[trigger] finished.queues[i]).current is None by {
                    if i != at {
                        assert(finished.queues[i] == routed.queues[i]);
                        if i < judged.queues.len() {
                            assert(routed.queues[i].current == judged.queues[i].current);
                        }
                    }
                }
            } else {
                assert(feedback == CrawlFeedback::DontFollow);
                assert(judged.active + 1 == stepped.active);
            }
        },
    }
}

/// While something is outstanding and no visit is in progress, some queue
/// has URLs pending: there is a worker that can take a turn.
pub proof fn lemma_busy_origin(state: CrawlState)
    requires
        state.wf(),
        !state.aborted,
        quiescent(state),
        !state.idle(),
    ensures
        state.has_queue(busy_origin(state)),
        state.queue(busy_origin(state)).pending.len() > 0,
{
    lemma_idle_iff_drained(state);
    let i = choose|i: int| 0 <= i < state.queues.len() && (#[trigger] state.queues[i]).work() != 0;
    assert(state.queues[i].current is None);
    assert(state.queues[i].pending.len() > 0);
    let at = choose|i: int|
        0 <= i < state.queues.len() && (#[trigger] state.queues[i]).pending.len() > 0;
    lemma_slot_is_unique(state, at);
}

/// A crawl of a finite web comes to an end. From any state in which no
/// visit is in progress, under an observer that never asks to stop, a run
/// of as many turns as the measure says ends with nothing outstanding: the
/// waiter is ready. The crawl is then not aborted and well formed, so
/// every queue is drained, and no visit is in progress.
pub proof fn lemma_crawl_converges(
    state: CrawlState,
    web: Web,
    universe: Seq<Link>,
    now: u64,
    turns: nat,
)
    requires
        state.wf(),
        !state.aborted,
        quiescent(state),
        within(web, universe),
        never_stops(web),
        turns >= measure(state, universe),
    ensures
        run(state, web, now, turns).idle(),
        run(state, web, now, turns).wait() == run(state, web, now, turns),
        run(state, web, now, turns).wf(),
        !run(state, web, now, turns).aborted,
        quiescent(run(state, web, now, turns)),
        forall|i: int|
            0 <= i < run(state, web, now, turns).queues.len() ==> (#[trigger] run(
                state,
                web,
                now,
                turns,
            ).queues[i]).pending.len() == 0,
    decreases turns,
{
    if state.idle() {
        lemma_idle_iff_drained(state);
        assert forall|i: int| 0 <= i < state.queues.len() implies (
        #[trigger] state.queues[i]).pending.len() == 0 by {
            assert(state.queues[i].work() == 0);
        }
    } else {
        lemma_busy_origin(state);
        let origin = busy_origin(state);
        lemma_turn_lowers_measure(state, web, origin, now, universe);
        lemma_crawl_converges(
            turn(state, web, origin, now),
            web,
            universe,
            now,
            (turns - 1) as nat,
        );
    }
}

} // verus!
