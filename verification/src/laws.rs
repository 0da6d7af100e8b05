//! The pipeline's laws: what whole exchanges with the worker add up to.
//! Each public proof function here states one guarantee of the design —
//! FIFO processing, the retry ceiling, the success short-circuit,
//! per-field reconfiguration, and the drain pass — over the transition
//! relation [`machine_step`] that `Publisher::step` is verified against.
use vstd::prelude::*;
use crate::event::Event;
use crate::event::EventConfigChanged;
use crate::json::json_of;
use crate::publisher::machine_step;
use crate::publisher::post_action;
use crate::publisher::ActionModel;
use crate::publisher::Input;
use crate::publisher::Payload;
use crate::publisher::Phase;
use crate::publisher::PubModel;
use crate::publisher::MAX_TRIES;

verus! {

/// The worker's reaction to a whole sequence of inputs: the state it ends
/// in and the actions it asked for, in order.
pub open spec fn run_model(m: PubModel, inputs: Seq<Input>) -> (PubModel, Seq<ActionModel>)
    decreases inputs.len(),
{
    if inputs.len() == 0 {
        (m, Seq::empty())
    } else {
        let first = machine_step(m, inputs.first());
        let rest = run_model(first.0, inputs.drop_first());
        (rest.0, seq![first.1] + rest.1)
    }
}

/// The bodies the worker posted, in order: one entry per `Post` action.
pub open spec fn post_bodies(acts: Seq<ActionModel>) -> Seq<Seq<char>>
    decreases acts.len(),
{
    if acts.len() == 0 {
        Seq::empty()
    } else {
        let rest = post_bodies(acts.drop_first());
        match acts.first() {
            ActionModel::Post { body, .. } => seq![body] + rest,
            _ => rest,
        }
    }
}

/// The backoff delays the worker requested, in order: one entry per `Sleep`
/// action.
pub open spec fn sleep_delays(acts: Seq<ActionModel>) -> Seq<int>
    decreases acts.len(),
{
    if acts.len() == 0 {
        Seq::empty()
    } else {
        let rest = sleep_delays(acts.drop_first());
        match acts.first() {
            ActionModel::Sleep { millis } => seq![millis] + rest,
            _ => rest,
        }
    }
}

/// The canonical bodies of a sequence of events, in order.
pub open spec fn bodies_of(evs: Seq<Event>) -> Seq<Seq<char>> {
    Seq::new(evs.len(), |i: int| json_of(evs[i]))
}

proof fn lemma_run_model_append(m: PubModel, s1: Seq<Input>, s2: Seq<Input>)
    ensures
        run_model(m, s1 + s2).0 == run_model(run_model(m, s1).0, s2).0,
        run_model(m, s1 + s2).1 == run_model(m, s1).1 + run_model(run_model(m, s1).0, s2).1,
    decreases s1.len(),
{
    if s1.len() == 0 {
        assert(s1 + s2 =~= s2);
        assert(Seq::<ActionModel>::empty() + run_model(m, s2).1 =~= run_model(m, s2).1);
    } else {
        let first = machine_step(m, s1.first());
        assert((s1 + s2).first() == s1.first());
        assert((s1 + s2).drop_first() =~= s1.drop_first() + s2);
        lemma_run_model_append(first.0, s1.drop_first(), s2);
        assert(seq![first.1] + (run_model(first.0, s1.drop_first()).1 + run_model(
            run_model(first.0, s1.drop_first()).0,
            s2,
        ).1) =~= (seq![first.1] + run_model(first.0, s1.drop_first()).1) + run_model(
            run_model(first.0, s1.drop_first()).0,
            s2,
        ).1);
    }
}

proof fn lemma_run_one(m: PubModel, i: Input)
    ensures
        run_model(m, seq![i]).0 == machine_step(m, i).0,
        run_model(m, seq![i]).1 == seq![machine_step(m, i).1],
{
    reveal_with_fuel(run_model, 2);
    assert(seq![i].first() == i);
    assert(seq![i].drop_first() =~= Seq::<Input>::empty());
    assert(seq![machine_step(m, i).1] + Seq::<ActionModel>::empty() =~= seq![
        machine_step(m, i).1,
    ]);
}

proof fn lemma_run_pair(m: PubModel, i1: Input, i2: Input)
    ensures
        run_model(m, seq![i1, i2]).0 == machine_step(machine_step(m, i1).0, i2).0,
        run_model(m, seq![i1, i2]).1 == seq![
            machine_step(m, i1).1,
            machine_step(machine_step(m, i1).0, i2).1,
        ],
{
    assert(seq![i1, i2] =~= seq![i1] + seq![i2]);
    lemma_run_model_append(m, seq![i1], seq![i2]);
    lemma_run_one(m, i1);
    lemma_run_one(machine_step(m, i1).0, i2);
    assert(seq![machine_step(m, i1).1] + seq![machine_step(machine_step(m, i1).0, i2).1] =~= seq![
        machine_step(m, i1).1,
        machine_step(machine_step(m, i1).0, i2).1,
    ]);
}

proof fn lemma_post_bodies_append(a: Seq<ActionModel>, b: Seq<ActionModel>)
    ensures
        post_bodies(a + b) == post_bodies(a) + post_bodies(b),
    decreases a.len(),
{
    if a.len() == 0 {
        assert(a + b =~= b);
        assert(post_bodies(a) + post_bodies(b) =~= post_bodies(b));
    } else {
        assert((a + b).first() == a.first());
        assert((a + b).drop_first() =~= a.drop_first() + b);
        lemma_post_bodies_append(a.drop_first(), b);
        match a.first() {
            ActionModel::Post { body, .. } => {
                assert(seq![body] + (post_bodies(a.drop_first()) + post_bodies(b)) =~= (seq![body]
                    + post_bodies(a.drop_first())) + post_bodies(b));
            },
            _ => {},
        }
    }
}

proof fn lemma_sleep_delays_append(a: Seq<ActionModel>, b: Seq<ActionModel>)
    ensures
        sleep_delays(a + b) == sleep_delays(a) + sleep_delays(b),
    decreases a.len(),
{
    if a.len() == 0 {
        assert(a + b =~= b);
        assert(sleep_delays(a) + sleep_delays(b) =~= sleep_delays(b));
    } else {
        assert((a + b).first() == a.first());
        assert((a + b).drop_first() =~= a.drop_first() + b);
        lemma_sleep_delays_append(a.drop_first(), b);
        match a.first() {
            ActionModel::Sleep { millis } => {
                assert(seq![millis] + (sleep_delays(a.drop_first()) + sleep_delays(b)) =~= (seq![
                    millis,
                ] + sleep_delays(a.drop_first())) + sleep_delays(b));
            },
            _ => {},
        }
    }
}

proof fn lemma_actions_one(a: ActionModel)
    ensures
        post_bodies(seq![a]) == (match a {
            ActionModel::Post { body, .. } => seq![body],
            _ => Seq::<Seq<char>>::empty(),
        }),
        sleep_delays(seq![a]) == (match a {
            ActionModel::Sleep { millis } => seq![millis],
            _ => Seq::<int>::empty(),
        }),
{
    reveal_with_fuel(post_bodies, 2);
    reveal_with_fuel(sleep_delays, 2);
    assert(seq![a].drop_first() =~= Seq::<ActionModel>::empty());
    match a {
        ActionModel::Post { body, .. } => {
            assert(seq![body] + Seq::<Seq<char>>::empty() =~= seq![body]);
        },
        ActionModel::Sleep { millis } => {
            assert(seq![millis] + Seq::<int>::empty() =~= seq![millis]);
        },
        _ => {},
    }
}

/// The inputs that drive one in-flight delivery through `f` more failed
/// attempts, each followed by the end of its backoff sleep, and then a
/// success.
pub open spec fn retry_tail(f: nat) -> Seq<Input>
    decreases f,
{
    if f == 0 {
        seq![Input::PostResult(true)]
    } else {
        seq![Input::PostResult(false), Input::Slept] + retry_tail((f - 1) as nat)
    }
}

/// The inputs that drive one in-flight delivery through `r` more failing
/// rounds and the final failing attempt, after which the event is given up.
pub open spec fn fail_tail(r: nat) -> Seq<Input>
    decreases r,
{
    if r == 0 {
        seq![Input::PostResult(false)]
    } else {
        seq![Input::PostResult(false), Input::Slept] + fail_tail((r - 1) as nat)
    }
}

/// `k` posts of the same event's body.
pub open spec fn repeat_body(e: Event, k: nat) -> Seq<Seq<char>> {
    Seq::new(k, |i: int| json_of(e))
}

/// The linear backoff schedule: `k` delays starting at attempt index `a`,
/// 100 ms times the attempt index each.
pub open spec fn backoff_delays(a: int, k: nat) -> Seq<int> {
    Seq::new(k, |i: int| 100 * (a + i))
}

#[verifier::rlimit(100)]
proof fn lemma_retry_rounds(m: PubModel, e: Event, a: u64, f: nat)
    requires
        m.phase == (Phase::InFlight { event: e, attempt: a }),
        a + f <= MAX_TRIES,
    ensures
        run_model(m, retry_tail(f)).0 == (PubModel { phase: Phase::Idle, ..m }),
        post_bodies(run_model(m, retry_tail(f)).1) == repeat_body(e, f),
        sleep_delays(run_model(m, retry_tail(f)).1) == backoff_delays(a as int, f),
    decreases f,
{
    if f == 0 {
        lemma_run_one(m, Input::PostResult(true));
        lemma_actions_one(ActionModel::Receive);
        assert(post_bodies(run_model(m, retry_tail(0)).1) =~= repeat_body(e, 0));
        assert(sleep_delays(run_model(m, retry_tail(0)).1) =~= backoff_delays(a as int, 0));
    } else {
        let s1 = seq![Input::PostResult(false), Input::Slept];
        let sleep_act = ActionModel::Sleep { millis: 100 * a };
        let m1 = machine_step(m, Input::PostResult(false)).0;
        let post_act = machine_step(m1, Input::Slept).1;
        let m2 = machine_step(m1, Input::Slept).0;
        lemma_run_pair(m, Input::PostResult(false), Input::Slept);
        assert(m2 == (PubModel { phase: Phase::InFlight { event: e, attempt: (a + 1) as u64 }, ..m }));
        lemma_run_model_append(m, s1, retry_tail((f - 1) as nat));
        lemma_retry_rounds(m2, e, (a + 1) as u64, (f - 1) as nat);
        assert(run_model(m, retry_tail(f)).0 == (PubModel { phase: Phase::Idle, ..m2 }));
        assert((PubModel { phase: Phase::Idle, ..m2 }) =~= (PubModel { phase: Phase::Idle, ..m }));
        let acts1 = run_model(m, s1).1;
        let rest = run_model(m2, retry_tail((f - 1) as nat)).1;
        assert(acts1 =~= seq![sleep_act] + seq![post_act]);
        lemma_post_bodies_append(seq![sleep_act], seq![post_act]);
        lemma_sleep_delays_append(seq![sleep_act], seq![post_act]);
        lemma_actions_one(sleep_act);
        lemma_actions_one(post_act);
        lemma_post_bodies_append(acts1, rest);
        lemma_sleep_delays_append(acts1, rest);
        assert(post_bodies(acts1) =~= seq![json_of(e)]);
        assert(sleep_delays(acts1) =~= seq![100 * (a as int)]);
        assert(post_bodies(run_model(m, retry_tail(f)).1) =~= seq![json_of(e)] + repeat_body(
            e,
            (f - 1) as nat,
        ));
        assert(seq![json_of(e)] + repeat_body(e, (f - 1) as nat) =~= repeat_body(e, f));
        assert(sleep_delays(run_model(m, retry_tail(f)).1) =~= seq![100 * (a as int)]
            + backoff_delays(a + 1, (f - 1) as nat));
        assert(seq![100 * (a as int)] + backoff_delays(a + 1, (f - 1) as nat) =~= backoff_delays(
            a as int,
            f,
        ));
    }
}

#[verifier::rlimit(100)]
proof fn lemma_fail_rounds(m: PubModel, e: Event, a: u64, r: nat)
    requires
        m.phase == (Phase::InFlight { event: e, attempt: a }),
        a + r == MAX_TRIES,
    ensures
        run_model(m, fail_tail(r)).0 == (PubModel {
            phase: Phase::Idle,
            backlog: m.backlog.push(e),
            ..m
        }),
        post_bodies(run_model(m, fail_tail(r)).1) == repeat_body(e, r),
        sleep_delays(run_model(m, fail_tail(r)).1) == backoff_delays(a as int, r),
    decreases r,
{
    if r == 0 {
        lemma_run_one(m, Input::PostResult(false));
        lemma_actions_one(ActionModel::Receive);
        assert(post_bodies(run_model(m, fail_tail(0)).1) =~= repeat_body(e, 0));
        assert(sleep_delays(run_model(m, fail_tail(0)).1) =~= backoff_delays(a as int, 0));
    } else {
        let s1 = seq![Input::PostResult(false), Input::Slept];
        let sleep_act = ActionModel::Sleep { millis: 100 * a };
        let m1 = machine_step(m, Input::PostResult(false)).0;
        let post_act = machine_step(m1, Input::Slept).1;
        let m2 = machine_step(m1, Input::Slept).0;
        lemma_run_pair(m, Input::PostResult(false), Input::Slept);
        assert(m2 == (PubModel { phase: Phase::InFlight { event: e, attempt: (a + 1) as u64 }, ..m }));
        lemma_run_model_append(m, s1, fail_tail((r - 1) as nat));
        lemma_fail_rounds(m2, e, (a + 1) as u64, (r - 1) as nat);
        assert((PubModel { phase: Phase::Idle, backlog: m2.backlog.push(e), ..m2 }) =~= (PubModel {
            phase: Phase::Idle,
            backlog: m.backlog.push(e),
            ..m
        }));
        let acts1 = run_model(m, s1).1;
        let rest = run_model(m2, fail_tail((r - 1) as nat)).1;
        assert(acts1 =~= seq![sleep_act] + seq![post_act]);
        lemma_post_bodies_append(seq![sleep_act], seq![post_act]);
        lemma_sleep_delays_append(seq![sleep_act], seq![post_act]);
        lemma_actions_one(sleep_act);
        lemma_actions_one(post_act);
        lemma_post_bodies_append(acts1, rest);
        lemma_sleep_delays_append(acts1, rest);
        assert(post_bodies(acts1) =~= seq![json_of(e)]);
        assert(sleep_delays(acts1) =~= seq![100 * (a as int)]);
        assert(post_bodies(run_model(m, fail_tail(r)).1) =~= seq![json_of(e)] + repeat_body(
            e,
            (r - 1) as nat,
        ));
        assert(seq![json_of(e)] + repeat_body(e, (r - 1) as nat) =~= repeat_body(e, r));
        assert(sleep_delays(run_model(m, fail_tail(r)).1) =~= seq![100 * (a as int)]
            + backoff_delays(a + 1, (r - 1) as nat));
        assert(seq![100 * (a as int)] + backoff_delays(a + 1, (r - 1) as nat) =~= backoff_delays(
            a as int,
            r,
        ));
    }
}

/// Whether an event takes the delivery path: everything except
/// reconfiguration, which is applied in place and never posted.
pub open spec fn deliverable(e: Event) -> bool {
    !(e is ConfigChanged)
}

/// How many delivery attempts an event receives when its delivery fails `f`
/// times: one more than the failures, capped at the ceiling of six.
pub open spec fn attempts_of(f: nat) -> nat {
    if f <= MAX_TRIES {
        f + 1
    } else {
        (MAX_TRIES + 1) as nat
    }
}

/// The inputs that carry one event from hand-off to completion when its
/// delivery fails `f` times (six or more failures exhaust the retries).
pub open spec fn event_inputs(e: Event, f: nat) -> Seq<Input> {
    seq![Input::Payload(Payload::Event(e))] + (if f <= MAX_TRIES {
        retry_tail(f)
    } else {
        fail_tail(MAX_TRIES as nat)
    })
}

#[verifier::rlimit(100)]
proof fn lemma_deliver_event(m: PubModel, e: Event, f: nat)
    requires
        m.phase is Idle,
        deliverable(e),
    ensures
        run_model(m, event_inputs(e, f)).0 == (PubModel {
            backlog: if f > MAX_TRIES {
                m.backlog.push(e)
            } else {
                m.backlog
            },
            phase: Phase::Idle,
            ..m
        }),
        post_bodies(run_model(m, event_inputs(e, f)).1) == repeat_body(e, attempts_of(f)),
        sleep_delays(run_model(m, event_inputs(e, f)).1) == backoff_delays(
            0,
            if f <= MAX_TRIES {
                f
            } else {
                MAX_TRIES as nat
            },
        ),
{
    let hand_off = Input::Payload(Payload::Event(e));
    let m1 = machine_step(m, hand_off).0;
    let act1 = machine_step(m, hand_off).1;
    assert(m1 == (PubModel { phase: Phase::InFlight { event: e, attempt: 0 }, ..m }));
    assert(act1 == post_action(m, e));
    lemma_run_one(m, hand_off);
    lemma_actions_one(act1);
    let tail = if f <= MAX_TRIES {
        retry_tail(f)
    } else {
        fail_tail(MAX_TRIES as nat)
    };
    lemma_run_model_append(m, seq![hand_off], tail);
    if f <= MAX_TRIES {
        lemma_retry_rounds(m1, e, 0, f);
        assert((PubModel { phase: Phase::Idle, ..m1 }) =~= (PubModel {
            backlog: m.backlog,
            phase: Phase::Idle,
            ..m
        }));
        lemma_post_bodies_append(seq![act1], run_model(m1, tail).1);
        lemma_sleep_delays_append(seq![act1], run_model(m1, tail).1);
        assert(seq![json_of(e)] + repeat_body(e, f) =~= repeat_body(e, attempts_of(f)));
        assert(Seq::<int>::empty() + backoff_delays(0, f) =~= backoff_delays(0, f));
    } else {
        lemma_fail_rounds(m1, e, 0, MAX_TRIES as nat);
        assert((PubModel { phase: Phase::Idle, backlog: m1.backlog.push(e), ..m1 }) =~= (PubModel {
            backlog: m.backlog.push(e),
            phase: Phase::Idle,
            ..m
        }));
        lemma_post_bodies_append(seq![act1], run_model(m1, tail).1);
        lemma_sleep_delays_append(seq![act1], run_model(m1, tail).1);
        assert(seq![json_of(e)] + repeat_body(e, MAX_TRIES as nat) =~= repeat_body(
            e,
            attempts_of(f),
        ));
        assert(Seq::<int>::empty() + backoff_delays(0, MAX_TRIES as nat) =~= backoff_delays(
            0,
            MAX_TRIES as nat,
        ));
    }
}

/// The inputs that carry a whole sequence of events in turn, the i-th one
/// failing `fails[i]` times.
pub open spec fn events_inputs(evs: Seq<Event>, fails: Seq<nat>) -> Seq<Input>
    decreases evs.len(),
{
    if evs.len() == 0 {
        Seq::empty()
    } else {
        event_inputs(evs.first(), fails.first()) + events_inputs(
            evs.drop_first(),
            fails.drop_first(),
        )
    }
}

/// Every body the worker is expected to post while processing `evs`: each
/// event's body repeated once per attempt, events in hand-off order.
pub open spec fn expected_bodies(evs: Seq<Event>, fails: Seq<nat>) -> Seq<Seq<char>>
    decreases evs.len(),
{
    if evs.len() == 0 {
        Seq::empty()
    } else {
        repeat_body(evs.first(), attempts_of(fails.first())) + expected_bodies(
            evs.drop_first(),
            fails.drop_first(),
        )
    }
}

/// The events that exhaust their retries, in hand-off order.
pub open spec fn failed_events(evs: Seq<Event>, fails: Seq<nat>) -> Seq<Event>
    decreases evs.len(),
{
    if evs.len() == 0 {
        Seq::empty()
    } else {
        (if fails.first() > MAX_TRIES {
            seq![evs.first()]
        } else {
            Seq::empty()
        }) + failed_events(evs.drop_first(), fails.drop_first())
    }
}

#[verifier::rlimit(100)]
proof fn lemma_process_events(m: PubModel, evs: Seq<Event>, fails: Seq<nat>)
    requires
        m.phase is Idle,
        evs.len() == fails.len(),
        forall|i: int| 0 <= i < evs.len() ==> deliverable(#[trigger] evs[i]),
    ensures
        run_model(m, events_inputs(evs, fails)).0 == (PubModel {
            backlog: m.backlog + failed_events(evs, fails),
            phase: Phase::Idle,
            ..m
        }),
        post_bodies(run_model(m, events_inputs(evs, fails)).1) == expected_bodies(evs, fails),
    decreases evs.len(),
{
    if evs.len() == 0 {
        assert(m.backlog + failed_events(evs, fails) =~= m.backlog);
        assert((PubModel { backlog: m.backlog, phase: Phase::Idle, ..m }) =~= m);
        assert(post_bodies(run_model(m, events_inputs(evs, fails)).1) =~= expected_bodies(
            evs,
            fails,
        ));
    } else {
        let e = evs.first();
        let f = fails.first();
        assert(deliverable(evs[0]));
        lemma_deliver_event(m, e, f);
        let m1 = run_model(m, event_inputs(e, f)).0;
        let rest_inputs = events_inputs(evs.drop_first(), fails.drop_first());
        lemma_run_model_append(m, event_inputs(e, f), rest_inputs);
        assert(forall|i: int|
            0 <= i < evs.drop_first().len() ==> deliverable(#[trigger] evs.drop_first()[i]))
            by {
            assert(forall|i: int|
                0 <= i < evs.drop_first().len() ==> evs.drop_first()[i] == evs[i + 1]);
        }
        lemma_process_events(m1, evs.drop_first(), fails.drop_first());
        lemma_post_bodies_append(
            run_model(m, event_inputs(e, f)).1,
            run_model(m1, rest_inputs).1,
        );
        if f > MAX_TRIES {
            assert(m.backlog.push(e) =~= m.backlog + seq![e]);
            assert((m.backlog + seq![e]) + failed_events(evs.drop_first(), fails.drop_first()) =~=
            m.backlog + (seq![e] + failed_events(evs.drop_first(), fails.drop_first())));
        } else {
            assert(m.backlog + failed_events(evs.drop_first(), fails.drop_first()) =~= m.backlog + (
            Seq::<Event>::empty() + failed_events(evs.drop_first(), fails.drop_first())));
        }
        assert((PubModel {
            backlog: m1.backlog + failed_events(evs.drop_first(), fails.drop_first()),
            phase: Phase::Idle,
            ..m1
        }) =~= (PubModel { backlog: m.backlog + failed_events(evs, fails), phase: Phase::Idle, ..m }));
    }
}

/// One post outcome per backlog entry still to be drained.
pub open spec fn drain_inputs(results: Seq<bool>) -> Seq<Input>
    decreases results.len(),
{
    if results.len() == 0 {
        Seq::empty()
    } else {
        seq![Input::PostResult(results.first())] + drain_inputs(results.drop_first())
    }
}

#[verifier::rlimit(100)]
proof fn lemma_drain_rounds(m: PubModel, next: usize, results: Seq<bool>)
    requires
        m.phase == (Phase::Draining { next }),
        (next as int) < m.backlog.len(),
        m.backlog.len() <= usize::MAX,
        results.len() == m.backlog.len() - next,
    ensures
        run_model(m, drain_inputs(results)).0 == (PubModel { phase: Phase::Terminated, ..m }),
        post_bodies(run_model(m, drain_inputs(results)).1) == bodies_of(
            m.backlog.subrange(next + 1, m.backlog.len() as int),
        ),
    decreases results.len(),
{
    let i1 = Input::PostResult(results.first());
    let act1 = machine_step(m, i1).1;
    let m1 = machine_step(m, i1).0;
    lemma_run_one(m, i1);
    lemma_actions_one(act1);
    assert(drain_inputs(results) =~= seq![i1] + drain_inputs(results.drop_first()));
    lemma_run_model_append(m, seq![i1], drain_inputs(results.drop_first()));
    if results.len() == 1 {
        assert(next + 1 == m.backlog.len());
        assert(m1 == (PubModel { phase: Phase::Terminated, ..m }));
        assert(run_model(m1, drain_inputs(results.drop_first())).0 == m1);
        assert(post_bodies(run_model(m, drain_inputs(results)).1) =~= bodies_of(
            m.backlog.subrange(next + 1, m.backlog.len() as int),
        ));
    } else {
        assert(next + 1 < m.backlog.len());
        assert(m1 == (PubModel { phase: Phase::Draining { next: (next + 1) as usize }, ..m }));
        assert(act1 == post_action(m, m.backlog[next + 1]));
        lemma_drain_rounds(m1, (next + 1) as usize, results.drop_first());
        lemma_post_bodies_append(seq![act1], run_model(m1, drain_inputs(results.drop_first())).1);
        assert((PubModel { phase: Phase::Terminated, ..m1 }) =~= (PubModel {
            phase: Phase::Terminated,
            ..m
        }));
        assert(seq![json_of(m.backlog[next + 1])] + bodies_of(
            m.backlog.subrange(next + 2, m.backlog.len() as int),
        ) =~= bodies_of(m.backlog.subrange(next + 1, m.backlog.len() as int)));
    }
}

/// DRAIN SEMANTICS. When the shutdown sentinel arrives with events in the
/// backlog, every backlog entry is posted exactly once, in its original
/// insertion order, whatever each outcome is, and the worker then
/// terminates. With an empty backlog the worker terminates at once.
#[verifier::rlimit(100)]
pub proof fn lemma_drain_semantics(m: PubModel, results: Seq<bool>)
    requires
        m.phase is Idle,
        results.len() == m.backlog.len(),
        m.backlog.len() <= usize::MAX,
    ensures
        run_model(m, seq![Input::Payload(Payload::Stop)] + drain_inputs(results)).0 == (PubModel {
            phase: Phase::Terminated,
            ..m
        }),
        post_bodies(run_model(m, seq![Input::Payload(Payload::Stop)] + drain_inputs(results)).1)
            == bodies_of(m.backlog),
{
    let stop = Input::Payload(Payload::Stop);
    let m1 = machine_step(m, stop).0;
    let act1 = machine_step(m, stop).1;
    lemma_run_one(m, stop);
    lemma_actions_one(act1);
    lemma_run_model_append(m, seq![stop], drain_inputs(results));
    if m.backlog.len() == 0 {
        assert(m1 == (PubModel { phase: Phase::Terminated, ..m }));
        assert(drain_inputs(results) =~= Seq::<Input>::empty());
        assert(run_model(m1, drain_inputs(results)).0 == m1);
        assert(post_bodies(
            run_model(m, seq![stop] + drain_inputs(results)).1,
        ) =~= bodies_of(m.backlog));
    } else {
        assert(m1 == (PubModel { phase: Phase::Draining { next: 0 }, ..m }));
        assert(act1 == post_action(m, m.backlog[0]));
        lemma_drain_rounds(m1, 0, results);
        lemma_post_bodies_append(seq![act1], run_model(m1, drain_inputs(results)).1);
        assert((PubModel { phase: Phase::Terminated, ..m1 }) =~= (PubModel {
            phase: Phase::Terminated,
            ..m
        }));
        assert(seq![json_of(m.backlog[0])] + bodies_of(
            m.backlog.subrange(1, m.backlog.len() as int),
        ) =~= bodies_of(m.backlog));
    }
}

/// FIFO PROCESSING. For any events handed over before the shutdown
/// sentinel, the worker attempts them in exactly the order they were sent —
/// each event's attempts consecutive, no event skipped or reordered — and
/// the sentinel is processed only after every one of them has been
/// attempted: the drain posts (one per event that exhausted its retries, in
/// order) and termination come after all of the events' own attempts.
#[verifier::rlimit(100)]
pub proof fn lemma_fifo_order(m: PubModel, evs: Seq<Event>, fails: Seq<nat>, results: Seq<bool>)
    requires
        m.phase is Idle,
        m.backlog == Seq::<Event>::empty(),
        evs.len() == fails.len(),
        forall|i: int| 0 <= i < evs.len() ==> deliverable(#[trigger] evs[i]),
        results.len() == failed_events(evs, fails).len(),
        failed_events(evs, fails).len() <= usize::MAX,
    ensures
        run_model(
            m,
            events_inputs(evs, fails) + (seq![Input::Payload(Payload::Stop)] + drain_inputs(
                results,
            )),
        ).0.phase is Terminated,
        post_bodies(
            run_model(
                m,
                events_inputs(evs, fails) + (seq![Input::Payload(Payload::Stop)] + drain_inputs(
                    results,
                )),
            ).1,
        ) == expected_bodies(evs, fails) + bodies_of(failed_events(evs, fails)),
{
    lemma_process_events(m, evs, fails);
    let m1 = run_model(m, events_inputs(evs, fails)).0;
    assert(m1.backlog =~= failed_events(evs, fails));
    let stop_script = seq![Input::Payload(Payload::Stop)] + drain_inputs(results);
    lemma_run_model_append(m, events_inputs(evs, fails), stop_script);
    lemma_drain_semantics(m1, results);
    lemma_post_bodies_append(
        run_model(m, events_inputs(evs, fails)).1,
        run_model(m1, stop_script).1,
    );
    assert(bodies_of(m1.backlog) =~= bodies_of(failed_events(evs, fails)));
}

/// RETRY BOUND. An event whose delivery always fails is attempted exactly
/// six times — the initial attempt and five retries — with backoff delays
/// of 0, 100, 200, 300 and 400 ms before the five retries, and then appears
/// in the backlog exactly once; the worker returns to waiting.
pub proof fn lemma_retry_bound(m: PubModel, e: Event)
    requires
        m.phase is Idle,
        deliverable(e),
    ensures
        run_model(m, event_inputs(e, 6)).0 == (PubModel {
            backlog: m.backlog.push(e),
            phase: Phase::Idle,
            ..m
        }),
        post_bodies(run_model(m, event_inputs(e, 6)).1) == repeat_body(e, 6),
        post_bodies(run_model(m, event_inputs(e, 6)).1).len() == 6,
        sleep_delays(run_model(m, event_inputs(e, 6)).1) == seq![0int, 100int, 200int, 300int, 400int],
{
    lemma_deliver_event(m, e, 6);
    assert(backoff_delays(0, MAX_TRIES as nat) =~= seq![0int, 100int, 200int, 300int, 400int]);
}

/// SUCCESS SHORT-CIRCUIT. An event delivered successfully on its first
/// attempt is posted exactly once, never retried (no backoff sleep is
/// requested), and never enters the backlog.
pub proof fn lemma_success_short_circuit(m: PubModel, e: Event)
    requires
        m.phase is Idle,
        deliverable(e),
    ensures
        run_model(m, event_inputs(e, 0)).0 == (PubModel {
            backlog: m.backlog,
            phase: Phase::Idle,
            ..m
        }),
        post_bodies(run_model(m, event_inputs(e, 0)).1) == seq![json_of(e)],
        sleep_delays(run_model(m, event_inputs(e, 0)).1) == Seq::<int>::empty(),
{
    lemma_deliver_event(m, e, 0);
    assert(repeat_body(e, attempts_of(0)) =~= seq![json_of(e)]);
    assert(backoff_delays(0, 0) =~= Seq::<int>::empty());
}

/// RECONFIGURATION, PER FIELD. A configuration event replaces the endpoint
/// URL unconditionally; the signing key is replaced only when the new
/// secret is usable (non-empty) and is otherwise retained — a failed key
/// update does not roll the URL change back. Nothing is posted, the
/// backlog and phase are untouched, and the worker goes back to waiting.
pub proof fn lemma_reconfiguration_per_field(m: PubModel, c: EventConfigChanged)
    requires
        m.phase is Idle,
    ensures
        machine_step(m, Input::Payload(Payload::Event(Event::ConfigChanged(c)))).0.url == c.url@,
        machine_step(m, Input::Payload(Payload::Event(Event::ConfigChanged(c)))).0.key == (if c.secret@.len() > 0 {
            c.secret@
        } else {
            m.key
        }),
        machine_step(m, Input::Payload(Payload::Event(Event::ConfigChanged(c)))).0.backlog
            == m.backlog,
        machine_step(m, Input::Payload(Payload::Event(Event::ConfigChanged(c)))).0.phase
            == m.phase,
        machine_step(m, Input::Payload(Payload::Event(Event::ConfigChanged(c)))).1
            == ActionModel::Receive,
{
}

} // verus!
