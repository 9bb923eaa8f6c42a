//! Replay of events through the engines: after a crash, and of a recorded log.
use vstd::prelude::*;

use crate::event::{Event, EventPayload, EventView};
use crate::execution;
use crate::execution::{EngineView, ExecutionEngine, StateVerifier, StateVerifierView};
use crate::metrics;
use crate::metrics::{PipelineMetrics, StageTimer};
use crate::player::ReplayPlayer;
use crate::recovery;
use crate::recovery::{DeduplicatorView, EventDeduplicator};
use crate::snapshot::EngineSnapshot;
use crate::strategy::{Strategy, StrategyContextView, StrategyEngine};
use crate::trading;

verus! {

/// The verifier after an event that left the engine with a hash: where enough events have passed
/// it records the hash, else it only counts the event.
pub open spec fn verifier_step(
    verifier: StateVerifierView,
    seq: u64,
    hash: Seq<u8>,
) -> StateVerifierView {
    if verifier.events_since_verify + 1 >= verifier.interval {
        StateVerifierView {
            events_since_verify: 0,
            last_verified_seq: seq,
            last_hash: hash,
            ..verifier
        }
    } else {
        StateVerifierView {
            events_since_verify: (verifier.events_since_verify + 1) as u64,
            ..verifier
        }
    }
}

/// Counts an event that left the engine in its state and, where enough events have passed,
/// records the hash of that state. Returns the hash that was recorded.
pub fn verify_step(seq: u64, engine: &ExecutionEngine, verifier: &mut StateVerifier) -> (r: Option<
    [u8; 8],
>)
    requires
        engine.wf(),
        old(verifier)@.events_since_verify < u64::MAX,
    ensures
        final(verifier)@ == verifier_step(old(verifier)@, seq, engine@.hash()),
        match r {
            Some(hash) => {
                &&& old(verifier)@.events_since_verify + 1 >= old(verifier)@.interval
                &&& hash@ == engine@.hash()
            },
            None => old(verifier)@.events_since_verify + 1 < old(verifier)@.interval,
        },
{
    if verifier.tick() {
        let hash = engine.state_hash();
        verifier.on_verified(seq, hash);
        Some(hash)
    } else {
        None
    }
}

/// Whether a verifier has counted fewer events than it waits for.
pub open spec fn counting(verifier: StateVerifierView) -> bool {
    verifier.events_since_verify == 0 || verifier.events_since_verify < verifier.interval
}

/// The verifier after events, of which each left the engine with the hash of its state.
pub open spec fn verifier_after(
    verifier: StateVerifierView,
    engine: EngineView,
    events: Seq<EventView>,
) -> StateVerifierView
    decreases events.len(),
{
    if events.len() == 0 {
        verifier
    } else {
        verifier_step(
            verifier_after(verifier, engine, events.drop_last()),
            events.last().seq,
            engine.replayed(events).hash(),
        )
    }
}

/// Whether the next event completes the number that a verifier waits for.
pub open spec fn verifies_next(verifier: StateVerifierView) -> bool {
    verifier.events_since_verify + 1 >= verifier.interval
}

/// How often a verifier records a hash over events.
pub open spec fn verifications(
    verifier: StateVerifierView,
    engine: EngineView,
    events: Seq<EventView>,
) -> nat
    decreases events.len(),
{
    if events.len() == 0 {
        0
    } else {
        let before = events.drop_last();
        verifications(verifier, engine, before) + if verifies_next(
            verifier_after(verifier, engine, before),
        ) {
            1nat
        } else {
            0
        }
    }
}

/// The strategies after events.
pub open spec fn strategies_after<S: Strategy>(
    states: Seq<S::V>,
    ctx: StrategyContextView,
    events: Seq<EventView>,
) -> Seq<S::V>
    decreases events.len(),
{
    if events.len() == 0 {
        states
    } else {
        let before = strategies_after::<S>(states, ctx, events.drop_last());
        let now = StrategyContextView {
            seq: events.last().seq,
            timestamp: events.last().timestamp,
            ..ctx
        };
        before.map_values(|s: S::V| S::reaction(s, events.last(), now).0)
    }
}

/// Whether all strategies can process an event.
pub open spec fn all_admit<S: Strategy>(states: Seq<S::V>, event: EventView) -> bool {
    forall|i: int| 0 <= i < states.len() ==> S::admits(#[trigger] states[i], event)
}

/// What the strategies can look at, apart from the event.
pub open spec fn context_of<S: Strategy>(strategies: StrategyEngine<S>) -> StrategyContextView {
    StrategyContextView {
        books: strategies.books(),
        positions: strategies.positions(),
        seq: 0,
        timestamp: 0,
    }
}

/// What one event does to the engines.
pub open spec fn stepped<S: Strategy>(
    engine: EngineView,
    strategies: StrategyEngine<S>,
    verifier: StateVerifierView,
    event: EventView,
    engine_after: EngineView,
    strategies_next: StrategyEngine<S>,
    verifier_next: StateVerifierView,
) -> bool {
    &&& engine_after == engine.after(event)
    &&& strategies_next.states() == strategies.states().map_values(
        |s: S::V| S::reaction(s, event, strategies.context(event)).0,
    )
    &&& strategies_next.books() == strategies.books()
    &&& strategies_next.positions() == strategies.positions()
    &&& verifier_next == verifier_step(verifier, event.seq, engine.after(event).hash())
}

/// Whether an event can be replayed: no filled quantity goes beyond 64 bits, and all strategies
/// can process it.
pub open spec fn replayable<S: Strategy>(
    engine: EngineView,
    states: Seq<S::V>,
    event: EventView,
) -> bool {
    engine.fill_fits(event) && all_admit::<S>(states, event)
}

/// Whether an event can be replayed.
fn can_replay<S: Strategy>(
    event: &Event,
    engine: &ExecutionEngine,
    strategies: &StrategyEngine<S>,
) -> (r: bool)
    requires
        engine.wf(),
    ensures
        r == replayable::<S>(engine@, strategies.states(), event@),
{
    engine.can_apply(event) && strategies.can_process(event)
}

/// Whether metrics have gained a time for the processing and for the strategies of `n` events, a
/// time for each of `hashes` state hashes, and no time of another stage.
pub open spec fn timed(a: PipelineMetrics, b: PipelineMetrics, n: nat, hashes: nat) -> bool {
    &&& a.event_processing@.gained(b.event_processing@, n)
    &&& a.strategy_compute@.gained(b.strategy_compute@, n)
    &&& a.state_hash@.gained(b.state_hash@, hashes)
    &&& a.feed_recv@ == b.feed_recv@
    &&& a.feed_normalize@ == b.feed_normalize@
    &&& a.ring_enqueue@ == b.ring_enqueue@
    &&& a.risk_check@ == b.risk_check@
    &&& a.order_submit@ == b.order_submit@
    &&& a.order_to_ack@ == b.order_to_ack@
    &&& a.order_to_fill@ == b.order_to_fill@
}

/// Times that are gained one after the other add up.
proof fn lemma_timed_both(
    a: PipelineMetrics,
    b: PipelineMetrics,
    c: PipelineMetrics,
    n: nat,
    hashes: nat,
    m: nat,
    more: nat,
)
    requires
        timed(a, b, n, hashes),
        timed(b, c, m, more),
    ensures
        timed(a, c, n + m, hashes + more),
{
    metrics::lemma_gained_both(
        a.event_processing@,
        b.event_processing@,
        c.event_processing@,
        n,
        m,
    );
    metrics::lemma_gained_both(
        a.strategy_compute@,
        b.strategy_compute@,
        c.strategy_compute@,
        n,
        m,
    );
    metrics::lemma_gained_both(a.state_hash@, b.state_hash@, c.state_hash@, hashes, more);
}

/// Metrics with the same histograms have gained the same times.
proof fn lemma_same_times(
    a: PipelineMetrics,
    b: PipelineMetrics,
    c: PipelineMetrics,
    n: nat,
    hashes: nat,
)
    requires
        timed(a, b, n, hashes),
        b.histograms() == c.histograms(),
    ensures
        timed(a, c, n, hashes),
{
    assert forall|i: int| 0 <= i < 10 implies #[trigger] b.histograms()[i]
        == c.histograms()[i] by {}
    let h = c.histograms();
    assert(h[0] == b.feed_recv@ && h[1] == b.feed_normalize@ && h[2] == b.ring_enqueue@);
    assert(h[3] == b.strategy_compute@ && h[4] == b.risk_check@ && h[5] == b.order_submit@);
    assert(h[6] == b.order_to_ack@ && h[7] == b.order_to_fill@ && h[8] == b.event_processing@);
    assert(h[9] == b.state_hash@);
}

/// Takes one event through the engines.
fn recover_event<S: Strategy>(
    event: &Event,
    engine: &mut ExecutionEngine,
    strategies: &mut StrategyEngine<S>,
    verifier: &mut StateVerifier,
)
    requires
        old(engine).wf(),
        old(strategies).wf(),
        counting(old(verifier)@),
        replayable::<S>(old(engine)@, old(strategies).states(), event@),
    ensures
        final(engine).wf(),
        final(strategies).wf(),
        counting(final(verifier)@),
        stepped(
            old(engine)@,
            *old(strategies),
            old(verifier)@,
            event@,
            final(engine)@,
            *final(strategies),
            final(verifier)@,
        ),
{
    let _ = engine.process_event(event);
    let _ = strategies.process_event(event);
    let _ = verify_step(event.seq, engine, verifier);
}

/// Takes one event through the engines. The times that it takes go to the histograms of the
/// event processing, the strategies and the hashing.
fn replay_event<S: Strategy>(
    event: &Event,
    engine: &mut ExecutionEngine,
    strategies: &mut StrategyEngine<S>,
    verifier: &mut StateVerifier,
    counters: &mut PipelineMetrics,
)
    requires
        old(engine).wf(),
        old(strategies).wf(),
        counting(old(verifier)@),
        replayable::<S>(old(engine)@, old(strategies).states(), event@),
    ensures
        final(engine).wf(),
        final(strategies).wf(),
        counting(final(verifier)@),
        stepped(
            old(engine)@,
            *old(strategies),
            old(verifier)@,
            event@,
            final(engine)@,
            *final(strategies),
            final(verifier)@,
        ),
        final(counters).counters() == (
            metrics::wrapping_sum(old(counters).total_events, 1),
            old(counters).total_orders,
            old(counters).total_fills,
            old(counters).total_rejects,
            old(counters).sequence_gaps,
        ),
        timed(
            *old(counters),
            *final(counters),
            1,
            if verifies_next(old(verifier)@) {
                1
            } else {
                0
            },
        ),
{
    proof {
        metrics::lemma_gained(counters.event_processing@);
        metrics::lemma_gained(counters.strategy_compute@);
        metrics::lemma_gained(counters.state_hash@);
    }
    let timer = StageTimer::start();
    let _ = engine.process_event(event);
    let strategy_timer = StageTimer::start();
    let _ = strategies.process_event(event);
    strategy_timer.stop(&mut counters.strategy_compute);
    timer.stop(&mut counters.event_processing);
    metrics::bump(&mut counters.total_events);
    let hash_timer = StageTimer::start();
    if verify_step(event.seq, engine, verifier).is_some() {
        hash_timer.stop(&mut counters.state_hash);
    }
}

/// The counters of events, orders, fills and rejections after events.
pub open spec fn tally(counts: (u64, u64, u64, u64), events: Seq<EventView>) -> (u64, u64, u64, u64)
    decreases events.len(),
{
    if events.len() == 0 {
        counts
    } else {
        let c = tally(counts, events.drop_last());
        let e = events.last();
        (
            metrics::wrapping_sum(c.0, 1),
            if e.payload is OrderNew {
                metrics::wrapping_sum(c.1, 1)
            } else {
                c.1
            },
            if trading::fill_in(e) is Some {
                metrics::wrapping_sum(c.2, 1)
            } else {
                c.2
            },
            if e.payload is OrderReject {
                metrics::wrapping_sum(c.3, 1)
            } else {
                c.3
            },
        )
    }
}

/// Counts an event by its kind.
fn count_kind(event: &Event, counters: &mut PipelineMetrics)
    ensures
        final(counters).counters() == (
            old(counters).total_events,
            if event@.payload is OrderNew {
                metrics::wrapping_sum(old(counters).total_orders, 1)
            } else {
                old(counters).total_orders
            },
            if trading::fill_in(event@) is Some {
                metrics::wrapping_sum(old(counters).total_fills, 1)
            } else {
                old(counters).total_fills
            },
            if event@.payload is OrderReject {
                metrics::wrapping_sum(old(counters).total_rejects, 1)
            } else {
                old(counters).total_rejects
            },
            old(counters).sequence_gaps,
        ),
        final(counters).histograms() == old(counters).histograms(),
{
    match &event.payload {
        EventPayload::OrderNew(_) => metrics::bump(&mut counters.total_orders),
        EventPayload::OrderFill(_) | EventPayload::OrderPartialFill(_) => metrics::bump(
            &mut counters.total_fills,
        ),
        EventPayload::OrderReject(_) => metrics::bump(&mut counters.total_rejects),
        _ => {},
    }
}

/// Replays what a player has left through both engines, with state verification from time to
/// time. Stops before an event that cannot be replayed, and returns how many were replayed.
pub fn run_replay<S: Strategy>(
    player: &mut ReplayPlayer,
    engine: &mut ExecutionEngine,
    strategies: &mut StrategyEngine<S>,
    verifier: &mut StateVerifier,
    counters: &mut PipelineMetrics,
) -> (r: u64)
    requires
        old(player).wf(),
        old(player).recorded().len() <= u64::MAX,
        old(engine).wf(),
        old(strategies).wf(),
        counting(old(verifier)@),
    ensures
        final(player).wf(),
        final(player).recorded() == old(player).recorded(),
        final(engine).wf(),
        final(strategies).wf(),
        final(player).index() == old(player).index() + r,
        ({
            let all = old(player).recorded().skip(old(player).index() as int);
            let done = all.take(r as int);
            &&& r <= all.len()
            &&& final(engine)@ == old(engine)@.replayed(done)
            &&& final(strategies).states() == strategies_after::<S>(
                old(strategies).states(),
                context_of(*old(strategies)),
                done,
            )
            &&& final(strategies).books() == old(strategies).books()
            &&& final(strategies).positions() == old(strategies).positions()
            &&& final(verifier)@ == verifier_after(old(verifier)@, old(engine)@, done)
            &&& (
                final(counters).total_events,
                final(counters).total_orders,
                final(counters).total_fills,
                final(counters).total_rejects,
            ) == tally(
                (
                    old(counters).total_events,
                    old(counters).total_orders,
                    old(counters).total_fills,
                    old(counters).total_rejects,
                ),
                done,
            )
            &&& final(counters).sequence_gaps == old(counters).sequence_gaps
            &&& timed(
                *old(counters),
                *final(counters),
                r as nat,
                verifications(old(verifier)@, old(engine)@, done),
            )
            &&& r < all.len() ==> !replayable::<S>(
                final(engine)@,
                final(strategies).states(),
                all[r as int],
            )
        }),
{
    let ghost start = player.index() as int;
    let ghost all = player.recorded().skip(start);
    let ghost counts = (
        counters.total_events,
        counters.total_orders,
        counters.total_fills,
        counters.total_rejects,
    );
    let mut processed: u64 = 0;
    assert(all.take(0) =~= Seq::empty());
    proof {
        metrics::lemma_gained(counters.event_processing@);
        metrics::lemma_gained(counters.strategy_compute@);
        metrics::lemma_gained(counters.state_hash@);
    }
    loop
        invariant
            player.wf(),
            player.recorded() == old(player).recorded(),
            player.recorded().len() <= u64::MAX,
            engine.wf(),
            strategies.wf(),
            counting(verifier@),
            start == old(player).index(),
            start <= player.recorded().len(),
            all == player.recorded().skip(start),
            player.index() == start + processed,
            processed <= all.len(),
            counts == (
                old(counters).total_events,
                old(counters).total_orders,
                old(counters).total_fills,
                old(counters).total_rejects,
            ),
            engine@ == old(engine)@.replayed(all.take(processed as int)),
            strategies.states() == strategies_after::<S>(
                old(strategies).states(),
                context_of(*old(strategies)),
                all.take(processed as int),
            ),
            strategies.books() == old(strategies).books(),
            strategies.positions() == old(strategies).positions(),
            verifier@ == verifier_after(
                old(verifier)@,
                old(engine)@,
                all.take(processed as int),
            ),
            (
                counters.total_events,
                counters.total_orders,
                counters.total_fills,
                counters.total_rejects,
            ) == tally(counts, all.take(processed as int)),
            counters.sequence_gaps == old(counters).sequence_gaps,
            timed(
                *old(counters),
                *counters,
                processed as nat,
                verifications(old(verifier)@, old(engine)@, all.take(processed as int)),
            ),
        decreases all.len() - processed,
    {
        match player.peek() {
            None => {
                return processed;
            },
            Some(event) => {
                assert(event@ == all[processed as int]);
                if !can_replay(event, engine, strategies) {
                    return processed;
                }
            },
        }
        proof {
            let next = all.take(processed + 1);
            assert(next.drop_last() =~= all.take(processed as int));
            assert(next.last() == all[processed as int]);
        }
        if let Some(event) = player.next() {
            let ghost before = *counters;
            let ghost hashes = if verifies_next(verifier@) {
                1nat
            } else {
                0
            };
            replay_event(event, engine, strategies, verifier, counters);
            let ghost replayed = *counters;
            count_kind(event, counters);
            proof {
                let done = all.take(processed as int);
                lemma_same_times(before, replayed, *counters, 1, hashes);
                lemma_timed_both(
                    *old(counters),
                    before,
                    *counters,
                    processed as nat,
                    verifications(old(verifier)@, old(engine)@, done),
                    1,
                    hashes,
                );
            }
        }
        processed = processed + 1;
    }
}

/// The events that a deduplicator lets through.
pub open spec fn fresh(dedup: DeduplicatorView, events: Seq<EventView>) -> Seq<EventView>
    decreases events.len(),
{
    if events.len() == 0 {
        Seq::empty()
    } else {
        let before = fresh(dedup, events.drop_last());
        if dedup_after(dedup, events.drop_last()).is_new(events.last().seq) {
            before.push(events.last())
        } else {
            before
        }
    }
}

/// The deduplicator after events.
pub open spec fn dedup_after(dedup: DeduplicatorView, events: Seq<EventView>) -> DeduplicatorView
    decreases events.len(),
{
    if events.len() == 0 {
        dedup
    } else {
        dedup_after(dedup, events.drop_last()).checked(events.last().seq)
    }
}

/// The sequence numbers of events.
pub open spec fn seqs_of(events: Seq<EventView>) -> Seq<u64> {
    events.map_values(|e: EventView| e.seq)
}

/// A deduplicator looks at the sequence numbers of events.
proof fn lemma_dedup_after(dedup: DeduplicatorView, events: Seq<EventView>)
    ensures
        dedup_after(dedup, events) == recovery::after_checks(dedup, seqs_of(events)),
    decreases events.len(),
{
    if events.len() > 0 {
        lemma_dedup_after(dedup, events.drop_last());
        assert(seqs_of(events).drop_last() =~= seqs_of(events.drop_last()));
    }
}

/// Recovery from a snapshot replays no sequence number twice and leaves none out, for as long as
/// the deduplicator need not forget any.
pub proof fn recovery_replays_each_once(snapshot_seq: u64, events: Seq<EventView>)
    requires
        seqs_of(events).to_set().len() <= recovery::MAX_REMEMBERED,
    ensures
        ({
            let start = DeduplicatorView { seen: Set::empty(), max_seen: snapshot_seq };
            let done = fresh(start, events);
            &&& seqs_of(done).no_duplicates()
            &&& seqs_of(done).to_set() == seqs_of(events).to_set()
            &&& forall|i: int| 0 <= i < done.len() ==> events.contains(#[trigger] done[i])
        }),
    decreases events.len(),
{
    let start = DeduplicatorView { seen: Set::empty(), max_seen: snapshot_seq };
    let done = fresh(start, events);
    let seqs = seqs_of(events);
    if events.len() == 0 {
        assert(seqs_of(done).to_set() =~= seqs.to_set());
    } else {
        let before = events.drop_last();
        let last = events.last();
        let early = seqs_of(before);
        assert(seqs =~= early.push(last.seq));
        early.lemma_push_to_set_commute(last.seq);
        vstd::seq_lib::seq_to_set_is_finite(early);
        vstd::seq_lib::seq_to_set_is_finite(seqs);
        vstd::set_lib::lemma_len_subset(early.to_set(), seqs.to_set());
        recovery_replays_each_once(snapshot_seq, before);
        lemma_dedup_after(start, before);
        recovery::each_seq_is_new_once(snapshot_seq, early, last.seq);
        let old_done = fresh(start, before);
        assert forall|i: int| 0 <= i < done.len() implies events.contains(#[trigger] done[i]) by {
            if i < old_done.len() {
                assert(before.contains(old_done[i]));
                let k = before.index_of(old_done[i]);
                assert(events[k] == done[i]);
            } else {
                assert(events[events.len() - 1] == done[i]);
            }
        }
        if early.contains(last.seq) {
            assert(seqs.to_set() =~= early.to_set());
        } else {
            let a = seqs_of(old_done);
            let b = seqs_of(done);
            assert(b =~= a.push(last.seq));
            assert(!a.contains(last.seq)) by {
                assert(a.to_set().contains(last.seq) ==> early.to_set().contains(last.seq));
            }
            a.lemma_push_to_set_commute(last.seq);
        }
    }
}

/// Restores the engine from a snapshot, and lets the verifier know of it.
pub fn restore_snapshot(
    snapshot: &EngineSnapshot,
    engine: &mut ExecutionEngine,
    verifier: &mut StateVerifier,
) -> (r: Result<(), String>)
    requires
        old(engine).wf(),
    ensures
        final(engine).wf(),
        match r {
            Ok(_) => {
                &&& snapshot@.verified()
                &&& EngineView::from_bytes(snapshot@.state_data) == Some(final(engine)@)
                &&& final(verifier)@ == (StateVerifierView {
                    events_since_verify: 0,
                    last_verified_seq: snapshot@.seq,
                    last_hash: snapshot@.state_hash,
                    ..old(verifier)@
                })
            },
            Err(e) => {
                &&& !snapshot@.verified() || EngineView::from_bytes(snapshot@.state_data) is None
                &&& final(engine)@ == old(engine)@
                &&& final(verifier)@ == old(verifier)@
            },
        },
{
    match engine.restore(snapshot) {
        Ok(_) => {
            verifier.on_verified(snapshot.seq, snapshot.state_hash);
            Ok(())
        },
        Err(e) => Err(e),
    }
}

/// Replays the events of a recovery plan through both engines, each sequence number once, with
/// state verification from time to time. Stops before an event that cannot be replayed, and
/// returns how many events of the plan were looked at.
pub fn replay_plan<S: Strategy>(
    events: &Vec<Event>,
    snapshot_seq: u64,
    engine: &mut ExecutionEngine,
    strategies: &mut StrategyEngine<S>,
    verifier: &mut StateVerifier,
    total_events: &mut u64,
) -> (r: usize)
    requires
        old(engine).wf(),
        old(strategies).wf(),
        counting(old(verifier)@),
    ensures
        final(engine).wf(),
        final(strategies).wf(),
        ({
            let dedup = DeduplicatorView { seen: Set::empty(), max_seen: snapshot_seq };
            let seen = events.deep_view().take(r as int);
            let done = fresh(dedup, seen);
            &&& r <= events@.len()
            &&& final(engine)@ == old(engine)@.replayed(done)
            &&& final(strategies).states() == strategies_after::<S>(
                old(strategies).states(),
                context_of(*old(strategies)),
                done,
            )
            &&& final(strategies).books() == old(strategies).books()
            &&& final(strategies).positions() == old(strategies).positions()
            &&& final(verifier)@ == verifier_after(old(verifier)@, old(engine)@, done)
            &&& *final(total_events) == tally((*old(total_events), 0, 0, 0), done).0
            &&& r < events@.len() ==> {
                let next = events.deep_view()[r as int];
                dedup_after(dedup, seen).is_new(next.seq) && !replayable::<S>(
                    final(engine)@,
                    final(strategies).states(),
                    next,
                )
            }
        }),
{
    let ghost views = events.deep_view();
    let ghost start = DeduplicatorView { seen: Set::empty(), max_seen: snapshot_seq };
    let mut dedup = EventDeduplicator::from_seq(snapshot_seq);
    let mut i: usize = 0;
    assert(views.take(0) =~= Seq::empty());
    while i < events.len()
        invariant
            i <= events@.len(),
            views == events.deep_view(),
            start == (DeduplicatorView { seen: Set::empty(), max_seen: snapshot_seq }),
            dedup@ == dedup_after(start, views.take(i as int)),
            engine.wf(),
            strategies.wf(),
            counting(verifier@),
            engine@ == old(engine)@.replayed(fresh(start, views.take(i as int))),
            strategies.states() == strategies_after::<S>(
                old(strategies).states(),
                context_of(*old(strategies)),
                fresh(start, views.take(i as int)),
            ),
            strategies.books() == old(strategies).books(),
            strategies.positions() == old(strategies).positions(),
            verifier@ == verifier_after(
                old(verifier)@,
                old(engine)@,
                fresh(start, views.take(i as int)),
            ),
            *total_events == tally(
                (*old(total_events), 0, 0, 0),
                fresh(start, views.take(i as int)),
            ).0,
        decreases events.len() - i,
    {
        let ghost done = fresh(start, views.take(i as int));
        proof {
            let next = views.take(i + 1);
            assert(next.drop_last() =~= views.take(i as int));
            assert(next.last() == views[i as int]);
            assert(views[i as int] == events@[i as int]@);
        }
        if dedup.check(events[i].seq) {
            if !can_replay(&events[i], engine, strategies) {
                return i;
            }
            proof {
                assert(done.push(views[i as int]).drop_last() =~= done);
            }
            recover_event(&events[i], engine, strategies, verifier);
            metrics::bump(total_events);
        }
        i += 1;
    }
    assert(views.take(i as int) =~= views);
    i
}

/// Two nodes whose engines, strategies and verifiers hold the same, however they keep it, hold
/// the same after the same events: the same orders with the same hash, the same strategies, and
/// the same verified hash.
pub proof fn replay_is_deterministic<S: Strategy>(
    engine: ExecutionEngine,
    strategies: StrategyEngine<S>,
    verifier: StateVerifier,
    other_engine: ExecutionEngine,
    other_strategies: StrategyEngine<S>,
    other_verifier: StateVerifier,
    events: Seq<EventView>,
)
    requires
        engine@ == other_engine@,
        strategies.states() == other_strategies.states(),
        strategies.books() == other_strategies.books(),
        strategies.positions() == other_strategies.positions(),
        verifier@ == other_verifier@,
    ensures
        engine@.replayed(events) == other_engine@.replayed(events),
        engine@.replayed(events).hash() == other_engine@.replayed(events).hash(),
        strategies_after::<S>(strategies.states(), context_of(strategies), events)
            == strategies_after::<S>(
            other_strategies.states(),
            context_of(other_strategies),
            events,
        ),
        verifier_after(verifier@, engine@, events) == verifier_after(
            other_verifier@,
            other_engine@,
            events,
        ),
{
}

/// A verifier that waits for one event at most has the hash of the state after the last event.
pub proof fn eager_verifier_is_current(
    engine: EngineView,
    verifier: StateVerifierView,
    events: Seq<EventView>,
)
    requires
        verifier.interval <= 1,
        events.len() > 0,
    ensures
        verifier_after(verifier, engine, events).last_hash == engine.replayed(events).hash(),
        verifier_after(verifier, engine, events).last_verified_seq == events.last().seq,
{
    lemma_interval(verifier, engine, events.drop_last());
}

/// Verifying does not change how often a verifier verifies.
proof fn lemma_interval(
    verifier: StateVerifierView,
    engine: EngineView,
    events: Seq<EventView>,
)
    ensures
        verifier_after(verifier, engine, events).interval == verifier.interval,
    decreases events.len(),
{
    if events.len() > 0 {
        lemma_interval(verifier, engine, events.drop_last());
    }
}

/// Whatever a verifier last recorded is the hash of the state after the events up to there.
pub proof fn recorded_hash_is_a_state_hash(
    verifier: StateVerifierView,
    engine: EngineView,
    events: Seq<EventView>,
)
    ensures
        ({
            let after = verifier_after(verifier, engine, events);
            ||| after.last_hash == verifier.last_hash && after.last_verified_seq
                == verifier.last_verified_seq
            ||| exists|n: int|
                0 < n <= events.len() && after.last_hash == (#[trigger] engine.replayed(
                    events.take(n),
                )).hash() && after.last_verified_seq == events[n - 1].seq
        }),
    decreases events.len(),
{
    if events.len() > 0 {
        let front = events.drop_last();
        recorded_hash_is_a_state_hash(verifier, engine, front);
        let after = verifier_after(verifier, engine, events);
        let before = verifier_after(verifier, engine, front);
        if before.events_since_verify + 1 >= before.interval {
            assert(events.take(events.len() as int) =~= events);
            assert(after.last_hash == engine.replayed(events.take(events.len() as int)).hash());
        } else if exists|n: int|
            0 < n <= front.len() && before.last_hash == (#[trigger] engine.replayed(
                front.take(n),
            )).hash() && before.last_verified_seq == front[n - 1].seq {
            let n = choose|n: int|
                0 < n <= front.len() && before.last_hash == (#[trigger] engine.replayed(
                    front.take(n),
                )).hash() && before.last_verified_seq == front[n - 1].seq;
            assert(front.take(n) =~= events.take(n));
            assert(after.last_hash == engine.replayed(events.take(n)).hash());
        }
    }
}

/// How many events of a list satisfy a condition.
pub open spec fn how_many(events: Seq<EventView>, p: spec_fn(EventView) -> bool) -> nat
    decreases events.len(),
{
    if events.len() == 0 {
        0
    } else {
        how_many(events.drop_last(), p) + if p(events.last()) {
            1nat
        } else {
            0
        }
    }
}

/// No more events satisfy a condition than there are.
proof fn lemma_how_many(events: Seq<EventView>, p: spec_fn(EventView) -> bool)
    ensures
        how_many(events, p) <= events.len(),
    decreases events.len(),
{
    if events.len() > 0 {
        lemma_how_many(events.drop_last(), p);
    }
}

/// From zero, the counts are those of all events, of new orders, of fills in part or in full, and
/// of rejections.
pub proof fn events_are_tallied(events: Seq<EventView>)
    requires
        events.len() <= u64::MAX,
    ensures
        ({
            let t = tally((0, 0, 0, 0), events);
            &&& t.0 == events.len()
            &&& t.1 == how_many(events, |e: EventView| e.payload is OrderNew)
            &&& t.2 == how_many(
                events,
                |e: EventView| e.payload is OrderFill || e.payload is OrderPartialFill,
            )
            &&& t.3 == how_many(events, |e: EventView| e.payload is OrderReject)
        }),
    decreases events.len(),
{
    if events.len() > 0 {
        let front = events.drop_last();
        events_are_tallied(front);
        lemma_how_many(front, |e: EventView| e.payload is OrderNew);
        lemma_how_many(
            front,
            |e: EventView| e.payload is OrderFill || e.payload is OrderPartialFill,
        );
        lemma_how_many(front, |e: EventView| e.payload is OrderReject);
    }
}

/// A step counts one event more, or, once there are as many as the interval has, records the hash
/// with the event's number and starts over.
pub proof fn steps_verify_at_intervals(v: StateVerifierView, seq: u64, hash: Seq<u8>)
    requires
        v.events_since_verify < u64::MAX,
    ensures
        ({
            let next = verifier_step(v, seq, hash);
            if v.events_since_verify + 1 < v.interval {
                &&& next.events_since_verify == v.events_since_verify + 1
                &&& next.last_verified_seq == v.last_verified_seq
                &&& next.last_hash == v.last_hash
            } else {
                &&& next.events_since_verify == 0
                &&& next.last_verified_seq == seq && next.last_hash == hash
            }
        }),
        verifier_step(v, seq, hash).interval == v.interval,
        verifies_next(v) <==> verifier_step(v, seq, hash).events_since_verify == 0,
{
}

/// Counting from a fresh start, one state hash is recorded for every whole interval of events.
pub proof fn one_hash_per_interval(
    v: StateVerifierView,
    engine: EngineView,
    events: Seq<EventView>,
)
    requires
        v.interval > 0,
        v.events_since_verify == 0,
        events.len() < u64::MAX,
    ensures
        verifications(v, engine, events) * v.interval + verifier_after(
            v,
            engine,
            events,
        ).events_since_verify == events.len(),
        verifier_after(v, engine, events).events_since_verify < v.interval,
        verifier_after(v, engine, events).interval == v.interval,
    decreases events.len(),
{
    if events.len() > 0 {
        let front = events.drop_last();
        one_hash_per_interval(v, engine, front);
        let n = verifications(v, engine, front) as int;
        let k = v.interval as int;
        assert((n + 1) * k == n * k + k) by (nonlinear_arith);
    } else {
        assert(0 * v.interval == 0);
    }
}

} // verus!
