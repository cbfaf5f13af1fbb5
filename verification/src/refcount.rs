//! The daemon's reference-count state machine.  Each event (a hold opened or
//! closed, the idle grace period elapsed) yields the actions the daemon must
//! perform: toggle `SleepDisabled`, start or stop watching the lid, arm or
//! cancel the grace timer, or exit.
use vstd::prelude::*;

verus! {

#[derive(Debug, Clone, Copy, PartialEq, Eq)]
pub enum Action {
    SetSleepDisabled(bool),
    StartLidWatch,
    StopLidWatch,
    StartGraceTimer,
    CancelGraceTimer,
    Exit,
}

#[derive(Debug)]
pub struct RefcountState {
    count: u32,
    in_grace: bool,
}

/// The state as a pair: open holds, and whether the idle grace period runs.
pub struct RefcountModel {
    pub count: u32,
    pub in_grace: bool,
}

impl View for RefcountState {
    type V = RefcountModel;

    closed spec fn view(&self) -> RefcountModel {
        RefcountModel { count: self.count, in_grace: self.in_grace }
    }
}

// ---------------------------------------------------------------------------
// The transitions, stated over the model
// ---------------------------------------------------------------------------

pub open spec fn idle_step(s: RefcountModel) -> (RefcountModel, Seq<Action>) {
    (RefcountModel { count: s.count, in_grace: true }, seq![Action::StartGraceTimer])
}

pub open spec fn open_step(s: RefcountModel) -> (RefcountModel, Seq<Action>) {
    if s.count == 0 {
        (
            RefcountModel { count: 1, in_grace: false },
            (if s.in_grace {
                seq![Action::CancelGraceTimer]
            } else {
                seq![]
            }) + seq![Action::SetSleepDisabled(true), Action::StartLidWatch],
        )
    } else {
        (RefcountModel { count: (s.count + 1) as u32, in_grace: s.in_grace }, seq![])
    }
}

pub open spec fn close_step(s: RefcountModel) -> (RefcountModel, Seq<Action>) {
    if s.count == 0 {
        (s, seq![])
    } else if s.count == 1 {
        (
            RefcountModel { count: 0, in_grace: true },
            seq![Action::SetSleepDisabled(false), Action::StopLidWatch, Action::StartGraceTimer],
        )
    } else {
        (RefcountModel { count: (s.count - 1) as u32, in_grace: s.in_grace }, seq![])
    }
}

pub open spec fn grace_step(s: RefcountModel) -> (RefcountModel, Seq<Action>) {
    if s.count == 0 && s.in_grace {
        (RefcountModel { count: 0, in_grace: false }, seq![Action::Exit])
    } else {
        (s, seq![])
    }
}

impl Default for RefcountState {
    fn default() -> (s: Self)
        ensures
            s@ == (RefcountModel { count: 0, in_grace: false }),
    {
        RefcountState { count: 0, in_grace: false }
    }
}

impl RefcountState {
    pub fn new() -> (s: Self)
        ensures
            s@ == (RefcountModel { count: 0, in_grace: false }),
    {
        RefcountState { count: 0, in_grace: false }
    }

    pub fn count(&self) -> (c: u32)
        ensures
            c == self@.count,
    {
        self.count
    }

    /// Arms the idle-exit clock for a freshly-started daemon that begins at
    /// refcount 0 (e.g. socket-activated by a `Query` connection or
    /// relaunched by launchd after a crash, without ever receiving a
    /// `Hold`). Only meaningful when called immediately after `new()`, i.e.
    /// at count 0: it puts the state into the same "in grace" condition
    /// `on_hold_close` reaches when the last hold releases, so the daemon
    /// still self-exits after the grace period if no `Hold` ever arrives.
    pub fn begin_idle(&mut self) -> (actions: Vec<Action>)
        ensures
            (final(self)@, actions@) == idle_step(old(self)@),
    {
        self.in_grace = true;
        let mut actions = Vec::new();
        actions.push(Action::StartGraceTimer);
        assert(actions@ =~= seq![Action::StartGraceTimer]);
        actions
    }

    pub fn on_hold_open(&mut self) -> (actions: Vec<Action>)
        requires
            old(self)@.count < u32::MAX,
        ensures
            (final(self)@, actions@) == open_step(old(self)@),
    {
        self.count = self.count + 1;
        let mut actions = Vec::new();
        if self.count != 1 {
            assert(actions@ =~= Seq::<Action>::empty());
            return actions;
        }
        let ghost was_in_grace = self.in_grace;
        if self.in_grace {
            self.in_grace = false;
            actions.push(Action::CancelGraceTimer);
        }
        actions.push(Action::SetSleepDisabled(true));
        actions.push(Action::StartLidWatch);
        assert(actions@ =~= (if was_in_grace {
            seq![Action::CancelGraceTimer]
        } else {
            seq![]
        }) + seq![Action::SetSleepDisabled(true), Action::StartLidWatch]);
        actions
    }

    pub fn on_hold_close(&mut self) -> (actions: Vec<Action>)
        ensures
            (final(self)@, actions@) == close_step(old(self)@),
    {
        let mut actions = Vec::new();
        if self.count == 0 {
            assert(actions@ =~= Seq::<Action>::empty());
            return actions;
        }
        self.count = self.count - 1;
        if self.count != 0 {
            assert(actions@ =~= Seq::<Action>::empty());
            return actions;
        }
        self.in_grace = true;
        actions.push(Action::SetSleepDisabled(false));
        actions.push(Action::StopLidWatch);
        actions.push(Action::StartGraceTimer);
        assert(actions@ =~= seq![
            Action::SetSleepDisabled(false),
            Action::StopLidWatch,
            Action::StartGraceTimer,
        ]);
        actions
    }

    pub fn on_grace_elapsed(&mut self) -> (actions: Vec<Action>)
        ensures
            (final(self)@, actions@) == grace_step(old(self)@),
    {
        let mut actions = Vec::new();
        if self.count == 0 && self.in_grace {
            self.in_grace = false;
            actions.push(Action::Exit);
            assert(actions@ =~= seq![Action::Exit]);
        } else {
            assert(actions@ =~= Seq::<Action>::empty());
        }
        actions
    }
}

// ---------------------------------------------------------------------------
// Laws
// ---------------------------------------------------------------------------

/// The grace period only runs while no hold is open.
pub open spec fn consistent(s: RefcountModel) -> bool {
    s.in_grace ==> s.count == 0
}

/// What the daemon's effects look like once it has carried out every action.
pub struct Effects {
    pub sleep_disabled: bool,
    pub lid_watch: bool,
    pub grace_armed: bool,
}

/// The effects a state calls for: `SleepDisabled` and the lid watch on
/// exactly while a hold is open, the grace timer armed exactly in grace.
pub open spec fn effects_of(s: RefcountModel) -> Effects {
    Effects { sleep_disabled: s.count > 0, lid_watch: s.count > 0, grace_armed: s.in_grace }
}

pub open spec fn apply_action(e: Effects, a: Action) -> Effects {
    match a {
        Action::SetSleepDisabled(v) => Effects { sleep_disabled: v, ..e },
        Action::StartLidWatch => Effects { lid_watch: true, ..e },
        Action::StopLidWatch => Effects { lid_watch: false, ..e },
        Action::StartGraceTimer => Effects { grace_armed: true, ..e },
        Action::CancelGraceTimer => Effects { grace_armed: false, ..e },
        Action::Exit => e,
    }
}

pub open spec fn apply_actions(e: Effects, acts: Seq<Action>) -> Effects
    decreases acts.len(),
{
    if acts.len() == 0 {
        e
    } else {
        apply_actions(apply_action(e, acts[0]), acts.drop_first())
    }
}

pub open spec fn has_exit(acts: Seq<Action>) -> bool {
    exists|i: int| 0 <= i < acts.len() && acts[i] == Action::Exit
}

/// A fresh state is consistent and calls for no effect.
pub proof fn law_new_is_quiet()
    ensures
        consistent(RefcountModel { count: 0, in_grace: false }),
        effects_of(RefcountModel { count: 0, in_grace: false }) == (Effects {
            sleep_disabled: false,
            lid_watch: false,
            grace_armed: false,
        }),
{
}

/// Opening a hold keeps the state consistent, and carrying out its actions
/// turns the effects of the old state into those of the new one; it never
/// exits.
pub proof fn law_open_keeps_effects(s: RefcountModel)
    requires
        consistent(s),
        s.count < u32::MAX,
    ensures
        consistent(open_step(s).0),
        apply_actions(effects_of(s), open_step(s).1) == effects_of(open_step(s).0),
        !has_exit(open_step(s).1),
        open_step(s).0.count == s.count + 1,
{
    reveal_with_fuel(apply_actions, 4);
    let acts = open_step(s).1;
    if s.count == 0 {
        if s.in_grace {
            assert(acts =~= seq![
                Action::CancelGraceTimer,
                Action::SetSleepDisabled(true),
                Action::StartLidWatch,
            ]);
            assert(acts.drop_first() =~= seq![Action::SetSleepDisabled(true), Action::StartLidWatch]);
            assert(acts.drop_first().drop_first() =~= seq![Action::StartLidWatch]);
            assert(acts.drop_first().drop_first().drop_first() =~= Seq::<Action>::empty());
        } else {
            assert(acts =~= seq![Action::SetSleepDisabled(true), Action::StartLidWatch]);
            assert(acts.drop_first() =~= seq![Action::StartLidWatch]);
            assert(acts.drop_first().drop_first() =~= Seq::<Action>::empty());
        }
    }
}

/// Closing a hold keeps the state consistent, carrying out its actions
/// yields the effects of the new state, and it never exits; closing with no
/// hold open changes nothing.
pub proof fn law_close_keeps_effects(s: RefcountModel)
    requires
        consistent(s),
    ensures
        consistent(close_step(s).0),
        apply_actions(effects_of(s), close_step(s).1) == effects_of(close_step(s).0),
        !has_exit(close_step(s).1),
        close_step(s).0.count == if s.count == 0 {
            0
        } else {
            s.count - 1
        },
{
    reveal_with_fuel(apply_actions, 4);
    let acts = close_step(s).1;
    if s.count == 1 {
        assert(acts.drop_first() =~= seq![Action::StopLidWatch, Action::StartGraceTimer]);
        assert(acts.drop_first().drop_first() =~= seq![Action::StartGraceTimer]);
        assert(acts.drop_first().drop_first().drop_first() =~= Seq::<Action>::empty());
    }
}

/// When the grace timer fires (so it is no longer armed), carrying out the
/// actions yields the effects of the new state; the daemon exits exactly
/// when no hold is open and the grace period was still running.
pub proof fn law_grace_keeps_effects(s: RefcountModel)
    requires
        consistent(s),
    ensures
        consistent(grace_step(s).0),
        apply_actions(Effects { grace_armed: false, ..effects_of(s) }, grace_step(s).1)
            == effects_of(grace_step(s).0),
        has_exit(grace_step(s).1) <==> (s.count == 0 && s.in_grace),
        grace_step(s).0.count == s.count,
{
    reveal_with_fuel(apply_actions, 4);
    let acts = grace_step(s).1;
    if s.count == 0 && s.in_grace {
        assert(acts[0] == Action::Exit);
        assert(acts.drop_first() =~= Seq::<Action>::empty());
    }
}

/// Arming the idle clock at count 0 keeps the state consistent and its
/// action arms the timer.
pub proof fn law_idle_keeps_effects(s: RefcountModel)
    requires
        s.count == 0,
    ensures
        consistent(idle_step(s).0),
        apply_actions(effects_of(s), idle_step(s).1) == effects_of(idle_step(s).0),
        !has_exit(idle_step(s).1),
{
    reveal_with_fuel(apply_actions, 4);
    let acts = idle_step(s).1;
    assert(acts.drop_first() =~= Seq::<Action>::empty());
}

/// A hold opened and then closed leaves the count where it was.
pub proof fn law_open_close_restores_count(s: RefcountModel)
    requires
        s.count < u32::MAX,
    ensures
        close_step(open_step(s).0).0.count == s.count,
{
}

// ---------------------------------------------------------------------------
// Laws over sequences of calls
// ---------------------------------------------------------------------------

/// One call on the state machine.
pub enum RefcountCall {
    BeginIdle,
    HoldOpen,
    HoldClose,
    GraceElapsed,
}

pub open spec fn call_step(s: RefcountModel, c: RefcountCall) -> (RefcountModel, Seq<Action>) {
    match c {
        RefcountCall::BeginIdle => idle_step(s),
        RefcountCall::HoldOpen => open_step(s),
        RefcountCall::HoldClose => close_step(s),
        RefcountCall::GraceElapsed => grace_step(s),
    }
}

/// The state after the calls, and all the actions they returned, in order.
pub open spec fn run_calls(s: RefcountModel, calls: Seq<RefcountCall>) -> (RefcountModel, Seq<Action>)
    decreases calls.len(),
{
    if calls.len() == 0 {
        (s, seq![])
    } else {
        let (s1, a1) = run_calls(s, calls.drop_last());
        let (s2, a2) = call_step(s1, calls.last());
        (s2, a1 + a2)
    }
}

/// The calls respect `on_hold_open`'s precondition: a hold is opened only
/// below `u32::MAX` open holds.
pub open spec fn calls_fit(s: RefcountModel, calls: Seq<RefcountCall>) -> bool
    decreases calls.len(),
{
    calls.len() == 0 || (calls_fit(s, calls.drop_last()) && (calls.last() is HoldOpen ==> run_calls(
        s,
        calls.drop_last(),
    ).0.count < u32::MAX))
}

/// Carries out the actions on (`SleepDisabled`, lid watch), starting from
/// the given values: `None` as soon as an action sets `SleepDisabled` to the
/// value it already has, starts a running lid watch or stops a stopped one.
pub open spec fn replay(acts: Seq<Action>, sleep: bool, lid: bool) -> Option<(bool, bool)>
    decreases acts.len(),
{
    if acts.len() == 0 {
        Some((sleep, lid))
    } else {
        let rest = acts.drop_first();
        match acts[0] {
            Action::SetSleepDisabled(v) => if v != sleep {
                replay(rest, v, lid)
            } else {
                None
            },
            Action::StartLidWatch => if !lid {
                replay(rest, sleep, true)
            } else {
                None
            },
            Action::StopLidWatch => if lid {
                replay(rest, sleep, false)
            } else {
                None
            },
            _ => replay(rest, sleep, lid),
        }
    }
}

proof fn lemma_replay_append(a: Seq<Action>, b: Seq<Action>, sleep: bool, lid: bool)
    ensures
        replay(a + b, sleep, lid) == match replay(a, sleep, lid) {
            Some((s2, l2)) => replay(b, s2, l2),
            None => None,
        },
    decreases a.len(),
{
    if a.len() == 0 {
        assert(a + b =~= b);
    } else {
        assert((a + b).drop_first() =~= a.drop_first() + b);
        assert((a + b)[0] == a[0]);
        match a[0] {
            Action::SetSleepDisabled(v) => lemma_replay_append(a.drop_first(), b, v, lid),
            Action::StartLidWatch => lemma_replay_append(a.drop_first(), b, sleep, true),
            Action::StopLidWatch => lemma_replay_append(a.drop_first(), b, sleep, false),
            _ => lemma_replay_append(a.drop_first(), b, sleep, lid),
        }
    }
}

proof fn lemma_step_replays(s: RefcountModel, c: RefcountCall)
    requires
        c is HoldOpen ==> s.count < u32::MAX,
    ensures
        replay(call_step(s, c).1, s.count > 0, s.count > 0) == Some(
            (call_step(s, c).0.count > 0, call_step(s, c).0.count > 0),
        ),
        has_exit(call_step(s, c).1) ==> s.count == 0 && call_step(s, c).0.count == 0,
{
    reveal_with_fuel(replay, 4);
    let acts = call_step(s, c).1;
    match c {
        RefcountCall::HoldOpen => {
            if s.count == 0 {
                if s.in_grace {
                    assert(acts.drop_first() =~= seq![Action::SetSleepDisabled(true), Action::StartLidWatch]);
                    assert(acts.drop_first().drop_first() =~= seq![Action::StartLidWatch]);
                    assert(acts.drop_first().drop_first().drop_first() =~= Seq::<Action>::empty());
                } else {
                    assert(acts =~= seq![Action::SetSleepDisabled(true), Action::StartLidWatch]);
                    assert(acts.drop_first() =~= seq![Action::StartLidWatch]);
                    assert(acts.drop_first().drop_first() =~= Seq::<Action>::empty());
                }
            }
        },
        RefcountCall::HoldClose => {
            if s.count == 1 {
                assert(acts.drop_first() =~= seq![Action::StopLidWatch, Action::StartGraceTimer]);
                assert(acts.drop_first().drop_first() =~= seq![Action::StartGraceTimer]);
                assert(acts.drop_first().drop_first().drop_first() =~= Seq::<Action>::empty());
            }
        },
        RefcountCall::GraceElapsed => {
            if s.count == 0 && s.in_grace {
                assert(acts.drop_first() =~= Seq::<Action>::empty());
            }
        },
        RefcountCall::BeginIdle => {
            assert(acts.drop_first() =~= Seq::<Action>::empty());
        },
    }
}

/// Over any sequence of calls from a fresh state, `SleepDisabled` is set
/// alternately to true and false, starting with true, and the lid watch is
/// started and stopped alternately, starting with a start; after every
/// call the last value set (false if none) and whether the watch runs both
/// say whether a hold is open; and no call returns `Exit` while a hold is
/// open.
pub proof fn law_calls_alternate(calls: Seq<RefcountCall>)
    requires
        calls_fit(RefcountModel { count: 0, in_grace: false }, calls),
    ensures
        ({
            let (s, acts) = run_calls(RefcountModel { count: 0, in_grace: false }, calls);
            replay(acts, false, false) == Some((s.count > 0, s.count > 0))
        }),
        forall|i: int|
            0 <= i < calls.len() && #[trigger] has_exit(
                call_step(
                    run_calls(RefcountModel { count: 0, in_grace: false }, calls.take(i)).0,
                    calls[i],
                ).1,
            ) ==> run_calls(RefcountModel { count: 0, in_grace: false }, calls.take(i)).0.count == 0
                && run_calls(RefcountModel { count: 0, in_grace: false }, calls.take(i + 1)).0.count
                == 0,
    decreases calls.len(),
{
    let s0 = RefcountModel { count: 0, in_grace: false };
    if calls.len() > 0 {
        let prev = calls.drop_last();
        law_calls_alternate(prev);
        let (s1, a1) = run_calls(s0, prev);
        lemma_step_replays(s1, calls.last());
        lemma_replay_append(a1, call_step(s1, calls.last()).1, false, false);
        assert forall|i: int|
            0 <= i < calls.len() && #[trigger] has_exit(
                call_step(run_calls(s0, calls.take(i)).0, calls[i]).1,
            ) implies run_calls(s0, calls.take(i)).0.count == 0 && run_calls(
                s0,
                calls.take(i + 1),
            ).0.count == 0 by {
            assert(calls.take(i + 1).drop_last() =~= calls.take(i));
            if i < calls.len() - 1 {
                assert(prev.take(i) =~= calls.take(i));
                assert(prev.take(i + 1) =~= calls.take(i + 1));
                assert(prev[i] == calls[i]);
                assert(has_exit(call_step(run_calls(s0, prev.take(i)).0, prev[i]).1));
            } else {
                assert(calls.take(i) =~= prev);
                assert(calls.take(i + 1) =~= calls);
                lemma_calls_fit_prefix(s0, calls, i);
                lemma_step_replays(run_calls(s0, calls.take(i)).0, calls[i]);
            }
        }
    }
}

proof fn lemma_calls_fit_prefix(s: RefcountModel, calls: Seq<RefcountCall>, i: int)
    requires
        calls_fit(s, calls),
        0 <= i < calls.len(),
    ensures
        calls[i] is HoldOpen ==> run_calls(s, calls.take(i)).0.count < u32::MAX,
    decreases calls.len(),
{
    if i == calls.len() - 1 {
        assert(calls.take(i) =~= calls.drop_last());
    } else {
        lemma_calls_fit_prefix(s, calls.drop_last(), i);
        assert(calls.drop_last().take(i) =~= calls.take(i));
    }
}

} // verus!
