use vstd::prelude::*;
use crate::event::{Event, Value};
use crate::subscriber::Subscriber;

verus! {

/// One of the three callback stages a listener goes through for an event.
#[derive(PartialEq, Eq, Structural, Clone, Copy, Debug)]
pub enum Stage {
    Before,
    OnEvent,
    After,
}

/// The position of one listener call within a topic's dispatch: which queued
/// event, which stage, which listener (in subscription order).
pub struct Slot {
    pub event: nat,
    pub stage: Stage,
    pub listener: nat,
}

/// A record of one listener call made by `publish`.
pub struct Call {
    pub topic: Seq<char>,
    pub slot: Slot,
    /// The event as the listener received it.
    pub payload: Value,
    /// The event as the listener left it.
    pub after: Value,
    /// The failure message the listener returned, if it failed.
    pub failure: Option<Seq<char>>,
}

/// The calls of one stage of event `e` over `m` listeners, in subscription order.
pub open spec fn stage_slots(e: nat, s: Stage, m: nat) -> Seq<Slot> {
    Seq::new(m, |l: int| Slot { event: e, stage: s, listener: l as nat })
}

/// The calls for event `e` over `m` listeners: every `Before`, then every
/// `OnEvent`, then every `After`.
pub open spec fn event_slots(e: nat, m: nat) -> Seq<Slot> {
    stage_slots(e, Stage::Before, m) + stage_slots(e, Stage::OnEvent, m) + stage_slots(
        e,
        Stage::After,
        m,
    )
}

/// The calls for the first `n` queued events of a topic with `m` listeners, in
/// queue order, when no listener fails.
pub open spec fn topic_slots(n: nat, m: nat) -> Seq<Slot>
    decreases n,
{
    if n == 0 {
        Seq::empty()
    } else {
        topic_slots((n - 1) as nat, m) + event_slots((n - 1) as nat, m)
    }
}

/// The payloads held by `es`.
pub open spec fn event_views(es: Seq<Event>) -> Seq<Value> {
    es.map_values(|e: Event| e@)
}

/// Whether the last of `calls` failed.
pub open spec fn ends_in_failure(calls: Seq<Call>) -> bool {
    calls.len() > 0 && calls.last().failure is Some
}

/// Call `k` of `calls`, where it is for the same event as call `k - 1`,
/// receives the event as call `k - 1` left it.
pub open spec fn linked(calls: Seq<Call>, k: int) -> bool {
    calls[k].slot.event == calls[k - 1].slot.event ==> calls[k].payload == calls[k - 1].after
}

/// `calls` follows the order of `topic_slots` for queue `q` of topic `t` and
/// `m` listeners, as far as it goes. The first call for each event hands the
/// listener that event as queued, each later call for it the event as the
/// call before left it, and `After` calls leave the event as they got it.
pub open spec fn dispatch_prefix(calls: Seq<Call>, t: Seq<char>, q: Seq<Value>, m: nat) -> bool {
    let all = topic_slots(q.len(), m);
    &&& calls.len() <= all.len()
    &&& forall|k: int| 0 <= k < calls.len() ==> (#[trigger] calls[k]).topic == t && calls[k].slot == all[k]
    &&& forall|k: int|
        0 <= k < calls.len() && (#[trigger] calls[k]).slot.stage == Stage::Before
            && calls[k].slot.listener == 0 ==> calls[k].payload == q[calls[k].slot.event as int]
    &&& forall|k: int| 0 < k < calls.len() ==> #[trigger] linked(calls, k)
    &&& forall|k: int|
        0 <= k < calls.len() && (#[trigger] calls[k]).slot.stage == Stage::After ==> calls[k].after
            == calls[k].payload
}

/// `calls` is what dispatching queue `q` of topic `t` to `m` listeners does:
/// the full order of `topic_slots`, cut right after the first failing call,
/// with each call handed the event as `dispatch_prefix` says.
pub open spec fn topic_run(calls: Seq<Call>, t: Seq<char>, q: Seq<Value>, m: nat) -> bool {
    &&& dispatch_prefix(calls, t, q, m)
    &&& forall|k: int| 0 <= k < calls.len() - 1 ==> (#[trigger] calls[k]).failure is None
    &&& calls.len() < topic_slots(q.len(), m).len() ==> ends_in_failure(calls)
}

/// Where the dispatch of a topic stands: the queued event, the stage, and the
/// listener (in subscription order) to call next.
#[derive(PartialEq, Eq, Structural, Clone, Copy, Debug)]
pub struct Position {
    pub event: usize,
    pub stage: Stage,
    pub listener: usize,
}

impl Position {
    pub open spec fn slot(self) -> Slot {
        Slot { event: self.event as nat, stage: self.stage, listener: self.listener as nat }
    }
}

/// What the dispatch of a topic does after a listener call.
#[derive(Debug)]
pub enum Step {
    /// Go on with the call at this position.
    Next(Position),
    /// Stop this topic and go on with the next one.
    EndOfTopic,
    /// Stop the whole `publish`, which returns this message.
    Abort(String),
}

/// The call after `s` when no listener fails, with `m` listeners: the next
/// listener of the stage, else the first listener of the next stage, else
/// the first listener of the next event's `Before` stage.
pub open spec fn successor(s: Slot, m: nat) -> Slot {
    if s.listener + 1 < m {
        Slot { event: s.event, stage: s.stage, listener: s.listener + 1 }
    } else {
        match s.stage {
            Stage::Before => Slot { event: s.event, stage: Stage::OnEvent, listener: 0 },
            Stage::OnEvent => Slot { event: s.event, stage: Stage::After, listener: 0 },
            Stage::After => Slot { event: s.event + 1, stage: Stage::Before, listener: 0 },
        }
    }
}

/// Whether `s` is the last call of a topic with `n` events and `m` listeners.
pub open spec fn is_last_slot(s: Slot, n: nat, m: nat) -> bool {
    s.event + 1 == n && s.stage == Stage::After && s.listener + 1 == m
}

/// Decides what follows the listener call at `at`, in a topic with `n_events`
/// queued events and `n_listeners` listeners, from what that call returned:
/// on success the next call in order, or the end of the topic after its last
/// call; on failure the end of the topic, or with `fail_fast` the end of the
/// whole `publish` with the failure message.
pub fn next_step(
    fail_fast: bool,
    at: Position,
    n_events: usize,
    n_listeners: usize,
    res: Result<(), String>,
) -> (s: Step)
    requires
        at.event < n_events,
        at.listener < n_listeners,
    ensures
        match res {
            Ok(_) => if is_last_slot(at.slot(), n_events as nat, n_listeners as nat) {
                s is EndOfTopic
            } else {
                s matches Step::Next(p) && p.slot() == successor(at.slot(), n_listeners as nat)
            },
            Err(msg) => if fail_fast {
                s matches Step::Abort(m) && m@ == msg@
            } else {
                s is EndOfTopic
            },
        },
{
    match res {
        Err(msg) => {
            if fail_fast {
                Step::Abort(msg)
            } else {
                Step::EndOfTopic
            }
        },
        Ok(()) => {
            if at.listener + 1 < n_listeners {
                Step::Next(Position { event: at.event, stage: at.stage, listener: at.listener + 1 })
            } else {
                match at.stage {
                    Stage::Before => Step::Next(
                        Position { event: at.event, stage: Stage::OnEvent, listener: 0 },
                    ),
                    Stage::OnEvent => Step::Next(
                        Position { event: at.event, stage: Stage::After, listener: 0 },
                    ),
                    Stage::After => if at.event + 1 < n_events {
                        Step::Next(Position { event: at.event + 1, stage: Stage::Before, listener: 0 })
                    } else {
                        Step::EndOfTopic
                    },
                }
            }
        },
    }
}

/// The position of the last `t` in `ts`, or -1 where `t` is absent.
pub open spec fn index_of(ts: Seq<Seq<char>>, t: Seq<char>) -> int
    decreases ts.len(),
{
    if ts.len() == 0 {
        -1
    } else if ts.last() == t {
        ts.len() - 1
    } else {
        index_of(ts.drop_last(), t)
    }
}

proof fn lemma_index_of(ts: Seq<Seq<char>>, t: Seq<char>, i: int)
    requires
        ts.no_duplicates(),
        0 <= i < ts.len(),
        ts[i] == t,
    ensures
        index_of(ts, t) == i,
    decreases ts.len(),
{
    if ts.last() != t {
        let d = ts.drop_last();
        assert(d.no_duplicates()) by {
            assert forall|a: int, b: int| 0 <= a < d.len() && 0 <= b < d.len() && a != b implies d[a]
                != d[b] by {
                assert(d[a] == ts[a] && d[b] == ts[b]);
            }
        }
        assert(d[i] == ts[i]);
        lemma_index_of(d, t, i);
    }
}

proof fn lemma_index_of_range(ts: Seq<Seq<char>>, t: Seq<char>)
    ensures
        -1 <= index_of(ts, t) < ts.len(),
        index_of(ts, t) >= 0 ==> ts[index_of(ts, t)] == t,
    decreases ts.len(),
{
    if ts.len() > 0 && ts.last() != t {
        let d = ts.drop_last();
        lemma_index_of_range(d, t);
        if index_of(d, t) >= 0 {
            assert(d[index_of(d, t)] == ts[index_of(d, t)]);
        }
    }
}

proof fn lemma_index_of_push(ts: Seq<Seq<char>>, x: Seq<char>, t: Seq<char>)
    requires
        x != t,
    ensures
        index_of(ts.push(x), t) == index_of(ts, t),
{
    assert(ts.push(x).drop_last() =~= ts);
}

proof fn lemma_index_of_absent(ts: Seq<Seq<char>>, t: Seq<char>)
    requires
        forall|i: int| 0 <= i < ts.len() ==> ts[i] != t,
    ensures
        index_of(ts, t) == -1,
    decreases ts.len(),
{
    if ts.len() > 0 {
        let d = ts.drop_last();
        assert(forall|i: int| 0 <= i < d.len() ==> d[i] == ts[i]);
        lemma_index_of_absent(d, t);
    }
}

struct TopicQueue {
    topic: String,
    events: Vec<Event>,
}

struct TopicListeners<L> {
    topic: String,
    listeners: Vec<L>,
}

fn find_queue(qs: &Vec<TopicQueue>, t: &String) -> (r: Option<usize>)
    ensures
        match r {
            Some(i) => i < qs@.len() && qs@[i as int].topic@ == t@,
            None => forall|i: int| 0 <= i < qs@.len() ==> qs@[i].topic@ != t@,
        },
{
    let mut i: usize = 0;
    while i < qs.len()
        invariant
            i <= qs@.len(),
            forall|k: int| 0 <= k < i ==> qs@[k].topic@ != t@,
        decreases qs@.len() - i,
    {
        if qs[i].topic == *t {
            return Some(i);
        }
        i += 1;
    }
    None
}

fn find_listeners<L>(ls: &Vec<TopicListeners<L>>, t: &String) -> (r: Option<usize>)
    ensures
        match r {
            Some(i) => i < ls@.len() && ls@[i as int].topic@ == t@,
            None => forall|i: int| 0 <= i < ls@.len() ==> ls@[i].topic@ != t@,
        },
{
    let mut i: usize = 0;
    while i < ls.len()
        invariant
            i <= ls@.len(),
            forall|k: int| 0 <= k < i ==> ls@[k].topic@ != t@,
        decreases ls@.len() - i,
    {
        if ls[i].topic == *t {
            return Some(i);
        }
        i += 1;
    }
    None
}

proof fn lemma_slots_event(e: nat, m: nat, k: int)
    requires
        0 <= k < event_slots(e, m).len(),
    ensures
        event_slots(e, m)[k].event == e,
{
    let a = stage_slots(e, Stage::Before, m);
    let b = stage_slots(e, Stage::OnEvent, m);
    let c = stage_slots(e, Stage::After, m);
    if k < m {
        assert(event_slots(e, m)[k] == a[k]);
    } else if k < 2 * m {
        assert(event_slots(e, m)[k] == b[k - m]);
    } else {
        assert(event_slots(e, m)[k] == c[k - 2 * m]);
    }
}

proof fn lemma_slots_no_listeners(n: nat)
    ensures
        topic_slots(n, 0).len() == 0,
    decreases n,
{
    if n > 0 {
        lemma_slots_no_listeners((n - 1) as nat);
    }
}

proof fn lemma_event_slot(e: nat, m: nat, j: int)
    requires
        0 <= j < event_slots(e, m).len(),
    ensures
        event_slots(e, m).len() == 3 * m,
        event_slots(e, m)[j] == (if j < m {
            Slot { event: e, stage: Stage::Before, listener: j as nat }
        } else if j < 2 * m {
            Slot { event: e, stage: Stage::OnEvent, listener: (j - m) as nat }
        } else {
            Slot { event: e, stage: Stage::After, listener: (j - 2 * m) as nat }
        }),
{
    let a = stage_slots(e, Stage::Before, m);
    let b = stage_slots(e, Stage::OnEvent, m);
    let c = stage_slots(e, Stage::After, m);
    if j < m {
        assert(event_slots(e, m)[j] == a[j]);
    } else if j < 2 * m {
        assert(event_slots(e, m)[j] == b[j - m]);
    } else {
        assert(event_slots(e, m)[j] == c[j - 2 * m]);
    }
}

/// Each call of `topic_slots` lies in range, the last one is the only one
/// that `is_last_slot` holds of, and `successor` gives the call after it.
proof fn lemma_slots_succ(n: nat, m: nat, k: int)
    requires
        0 <= k < topic_slots(n, m).len(),
    ensures
        topic_slots(n, m)[k].event < n,
        topic_slots(n, m)[k].listener < m,
        is_last_slot(topic_slots(n, m)[k], n, m) <==> k == topic_slots(n, m).len() - 1,
        k < topic_slots(n, m).len() - 1 ==> topic_slots(n, m)[k + 1] == successor(
            topic_slots(n, m)[k],
            m,
        ),
    decreases n,
{
    let p = topic_slots((n - 1) as nat, m);
    let ev = event_slots((n - 1) as nat, m);
    assert(topic_slots(n, m) == p + ev);
    let all = topic_slots(n, m);
    if k < p.len() {
        lemma_slots_succ((n - 1) as nat, m, k);
        lemma_event_slot((n - 1) as nat, m, 0);
        if k < p.len() - 1 {
            assert(all[k + 1] == p[k + 1]);
        } else {
            assert(all[k + 1] == ev[0]);
        }
    } else {
        let j = k - p.len();
        lemma_event_slot((n - 1) as nat, m, j);
        if j + 1 < 3 * m {
            lemma_event_slot((n - 1) as nat, m, j + 1);
            assert(all[k + 1] == ev[j + 1]);
        }
    }
}

proof fn lemma_slots_first(n: nat, m: nat)
    requires
        n > 0,
        m > 0,
    ensures
        topic_slots(n, m).len() > 0,
        topic_slots(n, m)[0] == (Slot { event: 0, stage: Stage::Before, listener: 0 }),
    decreases n,
{
    let p = topic_slots((n - 1) as nat, m);
    let ev = event_slots((n - 1) as nat, m);
    assert(topic_slots(n, m) == p + ev);
    lemma_event_slot((n - 1) as nat, m, 0);
    if n > 1 {
        lemma_slots_first((n - 1) as nat, m);
    }
}

/// Dispatches every event of `queue`, in order, to the listeners of topic
/// `t`, each step decided by `next_step` from what the call returned. Returns
/// the failure message where that decision is to abort.
fn run_topic<L: Subscriber>(
    listeners: &mut Vec<L>,
    queue: Vec<Event>,
    fail_fast: bool,
    t: Ghost<Seq<char>>,
) -> (r: (Option<String>, Ghost<Seq<Call>>))
    ensures
        final(listeners)@.len() == old(listeners)@.len(),
        topic_run(r.1@, t@, event_views(queue@), old(listeners)@.len()),
        match r.0 {
            None => !(fail_fast && ends_in_failure(r.1@)),
            Some(msg) => fail_fast && ends_in_failure(r.1@) && r.1@.last().failure == Some(msg@),
        },
{
    let ghost m = listeners@.len();
    let ghost q = event_views(queue@);
    let ghost n = q.len();
    let ghost all = topic_slots(n, m);
    let mut events = queue;
    let n_events = events.len();
    let n_listeners = listeners.len();
    if n_events == 0 || n_listeners == 0 {
        proof {
            lemma_slots_no_listeners(n);
        }
        return (None, Ghost(Seq::empty()));
    }
    proof {
        lemma_slots_first(n, m);
    }
    let mut pos = Position { event: 0, stage: Stage::Before, listener: 0 };
    let mut calls: Ghost<Seq<Call>> = Ghost(Seq::empty());
    loop
        invariant
            listeners@.len() == m,
            m == old(listeners)@.len(),
            m == n_listeners,
            events@.len() == n,
            n == n_events,
            n == q.len(),
            q == event_views(queue@),
            all == topic_slots(n, m),
            calls@.len() < all.len(),
            all[calls@.len() as int] == pos.slot(),
            pos.event < n,
            pos.listener < m,
            forall|x: int| pos.event < x < n ==> (#[trigger] events@[x])@ == q[x],
            pos.stage == Stage::Before && pos.listener == 0 ==> events@[pos.event as int]@
                == q[pos.event as int],
            !(pos.stage == Stage::Before && pos.listener == 0) ==> calls@.len() > 0
                && calls@.last().slot.event == pos.event && events@[pos.event as int]@
                == calls@.last().after,
            forall|k: int|
                0 <= k < calls@.len() ==> (#[trigger] calls@[k]).topic == t@ && calls@[k].slot
                    == all[k] && (calls@[k].failure is None),
            dispatch_prefix(calls@, t@, q, m),
        decreases all.len() - calls@.len(),
    {
        let e = pos.event;
        let ghost prev = calls@;
        let ghost before = events@[e as int]@;
        let res = match pos.stage {
            Stage::Before => listeners[pos.listener].on_before(&mut events[e]),
            Stage::OnEvent => listeners[pos.listener].on_event(&mut events[e]),
            Stage::After => listeners[pos.listener].on_after(&events[e]),
        };
        let ghost after = events@[e as int]@;
        let ghost failure = match &res {
            Ok(_) => None,
            Err(msg) => Some(msg@),
        };
        let ghost c = Call { topic: t@, slot: pos.slot(), payload: before, after, failure };
        let ghost joined = prev.push(c);
        proof {
            lemma_slots_succ(n, m, prev.len() as int);
            assert(joined[prev.len() as int] == c);
            assert forall|k: int| 0 <= k < prev.len() implies #[trigger] joined[k] == prev[k] by {}
            if pos.stage == Stage::Before && pos.listener == 0 {
                if prev.len() > 0 {
                    lemma_slots_succ(n, m, prev.len() - 1);
                }
            }
            assert forall|k: int| 0 < k < joined.len() implies #[trigger] linked(joined, k) by {
                if k < prev.len() {
                    assert(linked(prev, k));
                }
            }
            assert(dispatch_prefix(joined, t@, q, m));
        }
        calls = Ghost(joined);
        match next_step(fail_fast, pos, n_events, n_listeners, res) {
            Step::Next(p) => {
                proof {
                    assert(failure is None);
                    assert forall|x: int| p.event < x < n implies (#[trigger] events@[x])@ == q[x] by {}
                }
                pos = p;
            },
            Step::EndOfTopic => {
                return (None, calls);
            },
            Step::Abort(msg) => {
                return (Some(msg), calls);
            },
        }
    }
}

proof fn lemma_slots_events(n: nat, m: nat)
    ensures
        forall|k: int| 0 <= k < topic_slots(n, m).len() ==> (#[trigger] topic_slots(n, m)[k]).event < n,
        forall|k1: int, k2: int|
            0 <= k1 <= k2 < topic_slots(n, m).len() ==> (#[trigger] topic_slots(n, m)[k1]).event
                <= (#[trigger] topic_slots(n, m)[k2]).event,
    decreases n,
{
    if n > 0 {
        let p = topic_slots((n - 1) as nat, m);
        let ev = event_slots((n - 1) as nat, m);
        lemma_slots_events((n - 1) as nat, m);
        assert forall|k: int| 0 <= k < ev.len() implies (#[trigger] ev[k]).event == n - 1 by {
            lemma_slots_event((n - 1) as nat, m, k);
        }
        assert(topic_slots(n, m) == p + ev);
    }
}

proof fn lemma_event_slot_stage(e: nat, m: nat, j: int)
    requires
        0 <= j < event_slots(e, m).len(),
    ensures
        event_slots(e, m)[j].stage == Stage::Before <==> j < m,
{
    let a = stage_slots(e, Stage::Before, m);
    let b = stage_slots(e, Stage::OnEvent, m);
    let c = stage_slots(e, Stage::After, m);
    if j < m {
        assert(event_slots(e, m)[j] == a[j]);
    } else if j < 2 * m {
        assert(event_slots(e, m)[j] == b[j - m]);
    } else {
        assert(event_slots(e, m)[j] == c[j - 2 * m]);
    }
}

proof fn lemma_slots_stage_order(n: nat, m: nat, x: int, k: int)
    requires
        0 <= x <= k < topic_slots(n, m).len(),
        topic_slots(n, m)[x].event == topic_slots(n, m)[k].event,
        topic_slots(n, m)[k].stage == Stage::Before,
    ensures
        topic_slots(n, m)[x].stage == Stage::Before,
    decreases n,
{
    let p = topic_slots((n - 1) as nat, m);
    let ev = event_slots((n - 1) as nat, m);
    assert(topic_slots(n, m) == p + ev);
    lemma_slots_events((n - 1) as nat, m);
    if k < p.len() {
        lemma_slots_stage_order((n - 1) as nat, m, x, k);
    } else {
        lemma_slots_event((n - 1) as nat, m, k - p.len());
        if x < p.len() {
            assert(p[x].event < n - 1);
        } else {
            lemma_event_slot_stage((n - 1) as nat, m, k - p.len());
            lemma_event_slot_stage((n - 1) as nat, m, x - p.len());
        }
    }
}

/// Within a topic, listeners see the queued events in the order they were
/// registered: the event number never goes down from one call to the next,
/// and the first call for each event hands over that event as queued.
pub proof fn lemma_publish_fifo<L: Subscriber>(
    b: EventBus<L>,
    segs: Seq<Seq<Call>>,
    r: Result<(), String>,
    i: int,
    k1: int,
    k2: int,
)
    requires
        b.publish_run(segs, r),
        0 <= i < segs.len(),
        0 <= k1 <= k2 < segs[i].len(),
    ensures
        segs[i][k1].topic == b.pending_topics()[i],
        segs[i][k1].slot.event <= segs[i][k2].slot.event,
        segs[i][k2].slot.event < b.pending_queues()[i].len(),
        segs[i][k1].slot.stage == Stage::Before && segs[i][k1].slot.listener == 0
            ==> segs[i][k1].payload == b.pending_queues()[i][segs[i][k1].slot.event as int],
        0 < k2 && segs[i][k2].slot.event == segs[i][k2 - 1].slot.event ==> segs[i][k2].payload
            == segs[i][k2 - 1].after,
{
    let q = b.pending_queues()[i];
    let m = b.listener_count(b.pending_topics()[i]);
    assert(topic_run(segs[i], b.pending_topics()[i], q, m));
    lemma_slots_events(q.len(), m);
    if 0 < k2 {
        assert(linked(segs[i], k2));
    }
    assert(segs[i][k1].slot == topic_slots(q.len(), m)[k1]);
    assert(segs[i][k2].slot == topic_slots(q.len(), m)[k2]);
}

/// Events of a topic without listeners reach no listener. Where no pending
/// topic has listeners, `publish` makes no call and succeeds.
pub proof fn lemma_publish_unrouted<L: Subscriber>(
    b: EventBus<L>,
    segs: Seq<Seq<Call>>,
    r: Result<(), String>,
)
    requires
        b.publish_run(segs, r),
    ensures
        forall|i: int|
            0 <= i < segs.len() && b.listener_count(b.pending_topics()[i]) == 0 ==> (
            #[trigger] segs[i]).len() == 0,
        (forall|t: Seq<char>| b.pending_topics().contains(t) ==> b.listener_count(t) == 0) ==> (
        r is Ok && forall|i: int| 0 <= i < segs.len() ==> (#[trigger] segs[i]).len() == 0),
{
    assert forall|i: int|
        0 <= i < segs.len() && b.listener_count(b.pending_topics()[i]) == 0 implies (
        #[trigger] segs[i]).len() == 0 by {
        lemma_slots_no_listeners(b.pending_queues()[i].len());
    }
    if forall|t: Seq<char>| b.pending_topics().contains(t) ==> b.listener_count(t) == 0 {
        assert forall|i: int| 0 <= i < segs.len() implies (#[trigger] segs[i]).len() == 0 by {
            assert(b.pending_topics().contains(b.pending_topics()[i]));
            lemma_slots_no_listeners(b.pending_queues()[i].len());
        }
        if segs.len() > 0 {
            assert(segs.last() == segs[segs.len() - 1]);
        }
    }
}

/// With nothing pending, as after `clear`, `publish` makes no listener call
/// and succeeds.
pub proof fn lemma_publish_nothing_pending<L: Subscriber>(
    b: EventBus<L>,
    segs: Seq<Seq<Call>>,
    r: Result<(), String>,
)
    requires
        b.pending_topics().len() == 0,
        b.publish_run(segs, r),
    ensures
        segs.len() == 0,
        r is Ok,
{
}

/// Under fail-fast, a failing listener call is the last call of `publish`,
/// no later topic is taken up, and `publish` returns exactly its message.
pub proof fn lemma_publish_fail_fast<L: Subscriber>(
    b: EventBus<L>,
    segs: Seq<Seq<Call>>,
    r: Result<(), String>,
    i: int,
    k: int,
)
    requires
        b.fail_fast(),
        b.publish_run(segs, r),
        0 <= i < segs.len(),
        0 <= k < segs[i].len(),
        segs[i][k].failure is Some,
    ensures
        i == segs.len() - 1,
        k == segs[i].len() - 1,
        r matches Err(msg) && msg@ == segs[i][k].failure->0,
{
    let t = b.pending_topics()[i];
    assert(topic_run(segs[i], t, b.pending_queues()[i], b.listener_count(t)));
    assert(ends_in_failure(segs[i]));
    if i < segs.len() - 1 {
        assert(!ends_in_failure(segs[i]));
    }
}

/// Under best effort, a failing `on_before` call is the last call for its
/// topic: no listener runs `on_event` or `on_after` for that event, while
/// every other topic is still taken up and `publish` succeeds.
pub proof fn lemma_publish_before_failure<L: Subscriber>(
    b: EventBus<L>,
    segs: Seq<Seq<Call>>,
    r: Result<(), String>,
    i: int,
    k: int,
)
    requires
        !b.fail_fast(),
        b.publish_run(segs, r),
        0 <= i < segs.len(),
        0 <= k < segs[i].len(),
        segs[i][k].slot.stage == Stage::Before,
        segs[i][k].failure is Some,
    ensures
        k == segs[i].len() - 1,
        forall|x: int|
            0 <= x < segs[i].len() && (#[trigger] segs[i][x]).slot.event == segs[i][k].slot.event
                ==> segs[i][x].slot.stage == Stage::Before,
        r is Ok,
        segs.len() == b.pending_topics().len(),
{
    let t = b.pending_topics()[i];
    let q = b.pending_queues()[i];
    let m = b.listener_count(t);
    assert(topic_run(segs[i], t, q, m));
    let e = segs[i][k].slot.event;
    if k < segs[i].len() - 1 {
        assert(segs[i][k].failure is None);
    }
    assert(ends_in_failure(segs[i]));
    assert forall|x: int|
        0 <= x < segs[i].len() && (#[trigger] segs[i][x]).slot.event == e
            implies segs[i][x].slot.stage == Stage::Before by {
        assert(segs[i][x].slot == topic_slots(q.len(), m)[x]);
        assert(segs[i][k].slot == topic_slots(q.len(), m)[k]);
        lemma_slots_stage_order(q.len(), m, x, k);
    }
}

/// The central hub: queues events per topic and dispatches them to the
/// listeners subscribed to that topic.
///
/// A bus holds listeners of one type `L`; listeners of several kinds go in
/// one enum that implements [`Subscriber`] by delegating to each variant.
pub struct EventBus<L> {
    events: Vec<TopicQueue>,
    subscribers: Vec<TopicListeners<L>>,
    fail_on_error: bool,
    dispatched: Ghost<Seq<Seq<Call>>>,
}

impl<L: Subscriber> EventBus<L> {
    /// Topics with pending events, in the order they were first registered.
    pub closed spec fn pending_topics(&self) -> Seq<Seq<char>> {
        self.events@.map_values(|q: TopicQueue| q.topic@)
    }

    /// The pending events of each topic of `pending_topics`, oldest first.
    pub closed spec fn pending_queues(&self) -> Seq<Seq<Value>> {
        self.events@.map_values(|q: TopicQueue| event_views(q.events@))
    }

    /// Topics with listeners, in the order they were first subscribed to.
    pub closed spec fn listener_topics(&self) -> Seq<Seq<char>> {
        self.subscribers@.map_values(|s: TopicListeners<L>| s.topic@)
    }

    /// The listeners of each topic of `listener_topics`, in subscription order.
    pub closed spec fn listener_lists(&self) -> Seq<Seq<L>> {
        self.subscribers@.map_values(|s: TopicListeners<L>| s.listeners@)
    }

    /// Whether a listener failure aborts the whole `publish`.
    pub closed spec fn fail_fast(&self) -> bool {
        self.fail_on_error
    }

    /// The record that the latest `publish` kept of its listener calls, one
    /// sequence per topic that it took up, in the order it took them up. Each
    /// entry is written beside the call it describes, with the event that call
    /// received and left and the result that call returned; that result is
    /// what `next_step` decides from.
    pub closed spec fn dispatched(&self) -> Seq<Seq<Call>> {
        self.dispatched@
    }

    /// Each topic appears at most once among the pending topics and at most
    /// once among the listener topics.
    pub closed spec fn wf(&self) -> bool {
        &&& self.pending_topics().no_duplicates()
        &&& self.listener_topics().no_duplicates()
    }

    /// Every pending topic has one queue and every listener topic one list.
    pub proof fn lemma_lengths(&self)
        ensures
            self.pending_queues().len() == self.pending_topics().len(),
            self.listener_lists().len() == self.listener_topics().len(),
    {
    }

    /// The pending events of topic `t`.
    pub open spec fn queue_of(&self, t: Seq<char>) -> Seq<Value> {
        let i = index_of(self.pending_topics(), t);
        if i >= 0 {
            self.pending_queues()[i]
        } else {
            Seq::empty()
        }
    }

    /// The listeners subscribed to topic `t`, in subscription order.
    pub open spec fn listeners_of(&self, t: Seq<char>) -> Seq<L> {
        let i = index_of(self.listener_topics(), t);
        if i >= 0 {
            self.listener_lists()[i]
        } else {
            Seq::empty()
        }
    }

    /// The number of listeners subscribed to topic `t`.
    pub open spec fn listener_count(&self, t: Seq<char>) -> nat {
        let i = index_of(self.listener_topics(), t);
        if i >= 0 {
            self.listener_lists()[i].len()
        } else {
            0
        }
    }

    /// `segs` and `r` are what `publish` may do from this state: topics are
    /// taken up in order, each dispatched as `topic_run` says to as many
    /// listeners as it has (none for a topic without listeners). A failure
    /// ends only its topic, unless the bus fails fast: then it ends `publish`,
    /// which returns its message.
    pub open spec fn publish_run(&self, segs: Seq<Seq<Call>>, r: Result<(), String>) -> bool {
        let ts = self.pending_topics();
        let qs = self.pending_queues();
        &&& segs.len() <= ts.len()
        &&& forall|i: int|
            0 <= i < segs.len() ==> topic_run(
                #[trigger] segs[i],
                ts[i],
                qs[i],
                self.listener_count(ts[i]),
            )
        &&& forall|i: int|
            0 <= i < segs.len() - 1 && self.fail_fast() ==> !ends_in_failure(#[trigger] segs[i])
        &&& match r {
            Ok(_) => segs.len() == ts.len() && (self.fail_fast() && segs.len() > 0
                ==> !ends_in_failure(segs.last())),
            Err(msg) => self.fail_fast() && segs.len() > 0 && ends_in_failure(segs.last())
                && segs.last().last().failure == Some(msg@),
        }
    }

    /// A bus whose listener failures abort `publish`.
    pub fn new() -> (b: EventBus<L>)
        ensures
            b.wf(),
            b.fail_fast(),
            b.pending_topics() == Seq::<Seq<char>>::empty(),
            b.pending_queues() == Seq::<Seq<Value>>::empty(),
            b.listener_topics() == Seq::<Seq<char>>::empty(),
            b.listener_lists() == Seq::<Seq<L>>::empty(),
            b.pending_queues().len() == b.pending_topics().len(),
            b.listener_lists().len() == b.listener_topics().len(),
    {
        Self::with_fail_on_error(true)
    }

    /// A bus with the given failure policy: with `fail_on_error` a listener
    /// failure aborts `publish`, without it only the rest of that topic's
    /// events are skipped.
    pub fn with_fail_on_error(fail_on_error: bool) -> (b: EventBus<L>)
        ensures
            b.wf(),
            b.fail_fast() == fail_on_error,
            b.pending_topics() == Seq::<Seq<char>>::empty(),
            b.pending_queues() == Seq::<Seq<Value>>::empty(),
            b.listener_topics() == Seq::<Seq<char>>::empty(),
            b.listener_lists() == Seq::<Seq<L>>::empty(),
            b.pending_queues().len() == b.pending_topics().len(),
            b.listener_lists().len() == b.listener_topics().len(),
    {
        let b = EventBus {
            events: Vec::new(),
            subscribers: Vec::new(),
            fail_on_error,
            dispatched: Ghost(Seq::empty()),
        };
        assert(b.pending_topics() =~= Seq::<Seq<char>>::empty());
        assert(b.pending_queues() =~= Seq::<Seq<Value>>::empty());
        assert(b.listener_topics() =~= Seq::<Seq<char>>::empty());
        assert(b.listener_lists() =~= Seq::<Seq<L>>::empty());
        b
    }
    /// Queues `message` under topic `event_name`, after the events already
    /// queued there; a topic seen for the first time goes after all others.
    pub fn register(&mut self, event_name: &str, message: Event) -> (r: &mut Self)
        requires
            old(self).wf(),
        ensures
            r.wf(),
            r.fail_fast() == old(self).fail_fast(),
            r.listener_topics() == old(self).listener_topics(),
            r.listener_lists() == old(self).listener_lists(),
            ({
                let i = index_of(old(self).pending_topics(), event_name@);
                if i >= 0 {
                    &&& r.pending_topics() == old(self).pending_topics()
                    &&& r.pending_queues() == old(self).pending_queues().update(
                        i,
                        old(self).pending_queues()[i].push(message@),
                    )
                } else {
                    &&& r.pending_topics() == old(self).pending_topics().push(event_name@)
                    &&& r.pending_queues() == old(self).pending_queues().push(seq![message@])
                }
            }),
            r.queue_of(event_name@) == old(self).queue_of(event_name@).push(message@),
            forall|t: Seq<char>| t != event_name@ ==> #[trigger] r.queue_of(t) == old(self).queue_of(t),
            r.pending_queues().len() == r.pending_topics().len(),
            r.listener_lists().len() == r.listener_topics().len(),
            r.dispatched() == old(self).dispatched(),
            *final(self) == *final(r),
    {
        let topic = event_name.to_owned();
        let ghost v = message@;
        proof {
            lemma_index_of_range(self.pending_topics(), event_name@);
        }
        match find_queue(&self.events, &topic) {
            Some(i) => {
                proof {
                    lemma_index_of(self.pending_topics(), event_name@, i as int);
                }
                let ghost q0 = self.events@[i as int];
                self.events[i].events.push(message);
                assert(self.pending_topics() =~= old(self).pending_topics());
                assert(self.events@[i as int].events@ =~= q0.events@.push(message));
                assert(event_views(self.events@[i as int].events@) =~= event_views(q0.events@).push(v));
                assert(self.pending_queues() =~= old(self).pending_queues().update(
                    i as int,
                    old(self).pending_queues()[i as int].push(v),
                ));
                assert forall|t: Seq<char>| t != event_name@ implies #[trigger] self.queue_of(t)
                    == old(self).queue_of(t) by {
                    lemma_index_of_range(old(self).pending_topics(), t);
                }
            },
            None => {
                proof {
                    lemma_index_of_absent(self.pending_topics(), event_name@);
                }
                let mut events = Vec::new();
                events.push(message);
                assert(event_views(events@) =~= seq![v]);
                self.events.push(TopicQueue { topic, events });
                assert(self.pending_topics() =~= old(self).pending_topics().push(event_name@));
                assert(self.pending_queues() =~= old(self).pending_queues().push(seq![v]));
                assert forall|t: Seq<char>| t != event_name@ implies #[trigger] self.queue_of(t)
                    == old(self).queue_of(t) by {
                    lemma_index_of_range(old(self).pending_topics(), t);
                    lemma_index_of_push(old(self).pending_topics(), event_name@, t);
                }
            },
        }
        assert(self.listener_topics() =~= old(self).listener_topics());
        assert(self.listener_lists() =~= old(self).listener_lists());
        self
    }

    /// Adds `listener` to topic `event_name`, after the listeners already
    /// there; a topic seen for the first time goes after all others. The same
    /// kind of listener may be added more than once.
    pub fn subscribe_listener(&mut self, event_name: &str, listener: L) -> (r: &mut Self)
        requires
            old(self).wf(),
        ensures
            r.wf(),
            r.fail_fast() == old(self).fail_fast(),
            r.pending_topics() == old(self).pending_topics(),
            r.pending_queues() == old(self).pending_queues(),
            ({
                let i = index_of(old(self).listener_topics(), event_name@);
                if i >= 0 {
                    &&& r.listener_topics() == old(self).listener_topics()
                    &&& r.listener_lists() == old(self).listener_lists().update(
                        i,
                        old(self).listener_lists()[i].push(listener),
                    )
                } else {
                    &&& r.listener_topics() == old(self).listener_topics().push(event_name@)
                    &&& r.listener_lists() == old(self).listener_lists().push(seq![listener])
                }
            }),
            r.listeners_of(event_name@) == old(self).listeners_of(event_name@).push(listener),
            forall|t: Seq<char>| t != event_name@ ==> #[trigger] r.listeners_of(t) == old(self).listeners_of(t),
            r.pending_queues().len() == r.pending_topics().len(),
            r.listener_lists().len() == r.listener_topics().len(),
            r.dispatched() == old(self).dispatched(),
            *final(self) == *final(r),
    {
        let topic = event_name.to_owned();
        let ghost v = listener;
        proof {
            lemma_index_of_range(self.listener_topics(), event_name@);
        }
        match find_listeners(&self.subscribers, &topic) {
            Some(i) => {
                proof {
                    lemma_index_of(self.listener_topics(), event_name@, i as int);
                }
                let ghost s0 = self.subscribers@[i as int];
                self.subscribers[i].listeners.push(listener);
                assert(self.listener_topics() =~= old(self).listener_topics());
                assert(self.subscribers@[i as int].listeners@ =~= s0.listeners@.push(v));
                assert(self.listener_lists() =~= old(self).listener_lists().update(
                    i as int,
                    old(self).listener_lists()[i as int].push(v),
                ));
                assert forall|t: Seq<char>| t != event_name@ implies #[trigger] self.listeners_of(t)
                    == old(self).listeners_of(t) by {
                    lemma_index_of_range(old(self).listener_topics(), t);
                }
            },
            None => {
                proof {
                    lemma_index_of_absent(self.listener_topics(), event_name@);
                }
                let mut listeners = Vec::new();
                listeners.push(listener);
                self.subscribers.push(TopicListeners { topic, listeners });
                assert(self.listener_topics() =~= old(self).listener_topics().push(event_name@));
                assert(self.listener_lists() =~= old(self).listener_lists().push(seq![v]));
                assert forall|t: Seq<char>| t != event_name@ implies #[trigger] self.listeners_of(t)
                    == old(self).listeners_of(t) by {
                    lemma_index_of_range(old(self).listener_topics(), t);
                    lemma_index_of_push(old(self).listener_topics(), event_name@, t);
                }
            },
        }
        assert(self.pending_topics() =~= old(self).pending_topics());
        assert(self.pending_queues() =~= old(self).pending_queues());
        self
    }

    /// Takes every pending event and dispatches it: topic by topic, in the
    /// order of `pending_topics`, and within a topic event by event in queue
    /// order, running `on_before`, then `on_event`, then `on_after` of every
    /// listener in subscription order. Topics without listeners are dropped.
    /// On a failure the rest of that topic's events are skipped; with
    /// fail-fast the whole call stops and returns the failure message.
    pub fn publish(&mut self) -> (r: Result<(), String>)
        requires
            old(self).wf(),
        ensures
            final(self).wf(),
            final(self).fail_fast() == old(self).fail_fast(),
            final(self).pending_topics() == Seq::<Seq<char>>::empty(),
            final(self).pending_queues() == Seq::<Seq<Value>>::empty(),
            final(self).listener_topics() == old(self).listener_topics(),
            final(self).listener_lists().len() == old(self).listener_lists().len(),
            forall|i: int|
                0 <= i < old(self).listener_lists().len() ==> (#[trigger] final(self).listener_lists()[i]).len()
                    == old(self).listener_lists()[i].len(),
            forall|i: int|
                0 <= i < old(self).listener_lists().len() && !old(self).pending_topics().contains(
                    old(self).listener_topics()[i],
                ) ==> (#[trigger] final(self).listener_lists()[i]) == old(self).listener_lists()[i],
            final(self).pending_queues().len() == final(self).pending_topics().len(),
            final(self).listener_lists().len() == final(self).listener_topics().len(),
            old(self).publish_run(final(self).dispatched(), r),
    {
        let mut queues: Vec<TopicQueue> = Vec::new();
        std::mem::swap(&mut queues, &mut self.events);
        let ghost ts = old(self).pending_topics();
        let ghost qs = old(self).pending_queues();
        let ghost lts = old(self).listener_topics();
        let ghost lls = old(self).listener_lists();
        let mut segs: Ghost<Seq<Seq<Call>>> = Ghost(Seq::empty());
        let mut qi: usize = 0;
        while qi < queues.len()
            invariant
                self.events@.len() == 0,
                self.fail_on_error == old(self).fail_on_error,
                self.listener_topics() == lts,
                lts.no_duplicates(),
                self.listener_lists().len() == lls.len(),
                forall|i: int| 0 <= i < lls.len() ==> (#[trigger] self.listener_lists()[i]).len() == lls[i].len(),
                lts == old(self).listener_topics(),
                lls == old(self).listener_lists(),
                ts == old(self).pending_topics(),
                qs == old(self).pending_queues(),
                queues@.len() == ts.len(),
                qi <= ts.len(),
                forall|x: int| qi <= x < ts.len() ==> (#[trigger] queues@[x]).topic@ == ts[x] && event_views(queues@[x].events@) == qs[x],
                segs@.len() == qi,
                forall|i: int|
                    0 <= i < qi ==> topic_run(
                        #[trigger] segs@[i],
                        ts[i],
                        qs[i],
                        old(self).listener_count(ts[i]),
                    ),
                forall|i: int| 0 <= i < qi && self.fail_on_error ==> !ends_in_failure(#[trigger] segs@[i]),
                forall|i: int|
                    0 <= i < lls.len() && (forall|x: int| 0 <= x < qi ==> ts[x] != lts[i]) ==> (
                    #[trigger] self.listener_lists()[i]) == lls[i],
            decreases ts.len() - qi,
        {
            let ghost t = ts[qi as int];
            let ghost q = qs[qi as int];
            let mut evs: Vec<Event> = Vec::new();
            std::mem::swap(&mut evs, &mut queues[qi].events);
            match find_listeners(&self.subscribers, &queues[qi].topic) {
                None => {
                    proof {
                        lemma_index_of_absent(lts, t);
                        lemma_slots_no_listeners(q.len());
                    }
                    segs = Ghost(segs@.push(Seq::empty()));
                },
                Some(j) => {
                    proof {
                        lemma_index_of(lts, t, j as int);
                    }
                    let ghost before = self.subscribers@;
                    let ghost before_lists = self.listener_lists();
                    assert(before_lists[j as int].len() == lls[j as int].len());
                    assert(event_views(evs@) == q);
                    assert(before[j as int].listeners@.len() == lls[j as int].len());
                    assert(old(self).listener_count(t) == lls[j as int].len());
                    let fail_fast = self.fail_on_error;
                    let (res, calls) = run_topic(
                        &mut self.subscribers[j].listeners,
                        evs,
                        fail_fast,
                        Ghost(t),
                    );
                    assert(self.subscribers@[j as int].listeners@.len() == before[j as int].listeners@.len());
                    assert(topic_run(calls@, t, q, old(self).listener_count(t)));
                    proof {
                        assert(self.listener_topics() =~= lts);
                        assert forall|i: int| 0 <= i < lls.len() implies (#[trigger] self.listener_lists()[i]).len() == lls[i].len() by {
                            assert(before_lists[i].len() == lls[i].len());
                            if i != j {
                                assert(self.subscribers@[i] == before[i]);
                            }
                        }
                        assert forall|i: int|
                            0 <= i < lls.len() && (forall|x: int| 0 <= x < qi + 1 ==> ts[x] != lts[i])
                                implies (#[trigger] self.listener_lists()[i]) == lls[i] by {
                            assert(before_lists[i] == lls[i]);
                            assert(ts[qi as int] != lts[i]);
                            assert(self.subscribers@[i] == before[i]);
                        }
                    }
                    segs = Ghost(segs@.push(calls@));
                    match res {
                        Some(msg) => {
                            let ghost ll = self.listener_lists();
                            self.dispatched = segs;
                            assert(self.listener_lists() == ll);
                            assert(self.pending_topics() =~= Seq::<Seq<char>>::empty());
                            assert(self.pending_queues() =~= Seq::<Seq<Value>>::empty());
                            return Err(msg);
                        },
                        None => {},
                    }
                },
            }
            qi += 1;
        }
        self.dispatched = segs;
        assert(self.pending_topics() =~= Seq::<Seq<char>>::empty());
        assert(self.pending_queues() =~= Seq::<Seq<Value>>::empty());
        Ok(())
    }

    /// Discards every pending event without calling any listener.
    pub fn clear(&mut self)
        requires
            old(self).wf(),
        ensures
            final(self).wf(),
            final(self).fail_fast() == old(self).fail_fast(),
            final(self).pending_topics() == Seq::<Seq<char>>::empty(),
            final(self).pending_queues() == Seq::<Seq<Value>>::empty(),
            final(self).listener_topics() == old(self).listener_topics(),
            final(self).listener_lists() == old(self).listener_lists(),
            final(self).pending_queues().len() == final(self).pending_topics().len(),
            final(self).listener_lists().len() == final(self).listener_topics().len(),
            final(self).dispatched() == old(self).dispatched(),
    {
        self.events.clear();
        assert(self.pending_topics() =~= Seq::<Seq<char>>::empty());
        assert(self.pending_queues() =~= Seq::<Seq<Value>>::empty());
        assert(self.listener_topics() =~= old(self).listener_topics());
        assert(self.listener_lists() =~= old(self).listener_lists());
    }
}

} // verus!
