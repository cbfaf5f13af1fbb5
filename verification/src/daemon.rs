//! The decisions of the `espresso __daemon` coordinator.  The daemon's
//! threads only report events (a hold connection opened or closed, a grace
//! timer fired, a status query); the coordinator alone owns the
//! `RefcountState` and the list of active sessions, and answers each event
//! with the effects the daemon must carry out.
//!
//! Grace timers carry a generation: cancelling a timer bumps the current
//! generation, so a timer that fires later is recognized as stale.
use vstd::prelude::*;
use crate::ipc::{session_models, SessionInfo, SessionModel, StatusInfo, StatusModel};
use crate::refcount::{close_step, grace_step, idle_step, open_step, Action, RefcountModel, RefcountState};

verus! {

/// A hold connection being served: its connection id, the client's pid and
/// command line, and when (in daemon clock nanoseconds) it opened.
pub struct ActiveSession {
    pub id: u64,
    pub pid: u32,
    pub command: String,
    pub started_nanos: u64,
}

#[derive(Debug)]
pub enum DaemonEvent {
    HoldOpened { id: u64, pid: u32, command: String },
    HoldClosed { id: u64 },
    GraceElapsed { generation: u64 },
    Query,
}

#[derive(Debug, PartialEq, Eq)]
pub enum DaemonEffect {
    SetSleepDisabled(bool),
    /// Start watching the lid (stopping any watch still running).
    StartLidWatch,
    StopLidWatch,
    /// Start a grace timer that reports `GraceElapsed { generation }`.
    StartGraceTimer { generation: u64 },
    Reply(StatusInfo),
    Exit,
}

pub struct Coordinator {
    state: RefcountState,
    grace_gen: u64,
    sessions: Vec<ActiveSession>,
    pid: u32,
    version: String,
    clock: u64,
}

// ---------------------------------------------------------------------------
// Models
// ---------------------------------------------------------------------------

pub struct SessionEntry {
    pub id: u64,
    pub pid: u32,
    pub command: Seq<char>,
    pub started: u64,
}

pub struct CoordinatorModel {
    pub refcount: RefcountModel,
    pub grace_gen: u64,
    pub sessions: Seq<SessionEntry>,
    pub pid: u32,
    pub version: Seq<char>,
    pub clock: u64,
}

pub enum EventModel {
    HoldOpened { id: u64, pid: u32, command: Seq<char> },
    HoldClosed { id: u64 },
    GraceElapsed { generation: u64 },
    Query,
}

pub enum EffectModel {
    SetSleepDisabled(bool),
    StartLidWatch,
    StopLidWatch,
    StartGraceTimer { generation: u64 },
    Reply(StatusModel),
    Exit,
}

impl View for ActiveSession {
    type V = SessionEntry;

    open spec fn view(&self) -> SessionEntry {
        SessionEntry { id: self.id, pid: self.pid, command: self.command@, started: self.started_nanos }
    }
}

pub open spec fn entries(v: Seq<ActiveSession>) -> Seq<SessionEntry> {
    v.map_values(|s: ActiveSession| s@)
}

impl View for Coordinator {
    type V = CoordinatorModel;

    closed spec fn view(&self) -> CoordinatorModel {
        CoordinatorModel {
            refcount: self.state@,
            grace_gen: self.grace_gen,
            sessions: entries(self.sessions@),
            pid: self.pid,
            version: self.version@,
            clock: self.clock,
        }
    }
}

impl View for DaemonEvent {
    type V = EventModel;

    open spec fn view(&self) -> EventModel {
        match self {
            DaemonEvent::HoldOpened { id, pid, command } => EventModel::HoldOpened {
                id: *id,
                pid: *pid,
                command: command@,
            },
            DaemonEvent::HoldClosed { id } => EventModel::HoldClosed { id: *id },
            DaemonEvent::GraceElapsed { generation } => EventModel::GraceElapsed {
                generation: *generation,
            },
            DaemonEvent::Query => EventModel::Query,
        }
    }
}

impl View for DaemonEffect {
    type V = EffectModel;

    open spec fn view(&self) -> EffectModel {
        match self {
            DaemonEffect::SetSleepDisabled(v) => EffectModel::SetSleepDisabled(*v),
            DaemonEffect::StartLidWatch => EffectModel::StartLidWatch,
            DaemonEffect::StopLidWatch => EffectModel::StopLidWatch,
            DaemonEffect::StartGraceTimer { generation } => EffectModel::StartGraceTimer {
                generation: *generation,
            },
            DaemonEffect::Reply(s) => EffectModel::Reply(s@),
            DaemonEffect::Exit => EffectModel::Exit,
        }
    }
}

pub open spec fn effect_models(v: Seq<DaemonEffect>) -> Seq<EffectModel> {
    v.map_values(|e: DaemonEffect| e@)
}

// ---------------------------------------------------------------------------
// The decisions, stated over the models
// ---------------------------------------------------------------------------

/// The effects of the state machine's actions, numbering each new grace
/// timer; a cancelled timer is forgotten by moving to a new generation.
pub open spec fn effects_for(acts: Seq<Action>, gen: u64) -> (u64, Seq<EffectModel>)
    decreases acts.len(),
{
    if acts.len() == 0 {
        (gen, seq![])
    } else {
        let (g, before) = effects_for(acts.drop_last(), gen);
        match acts.last() {
            Action::SetSleepDisabled(v) => (g, before.push(EffectModel::SetSleepDisabled(v))),
            Action::StartLidWatch => (g, before.push(EffectModel::StartLidWatch)),
            Action::StopLidWatch => (g, before.push(EffectModel::StopLidWatch)),
            Action::StartGraceTimer => (
                (g + 1) as u64,
                before.push(EffectModel::StartGraceTimer { generation: (g + 1) as u64 }),
            ),
            Action::CancelGraceTimer => ((g + 1) as u64, before),
            Action::Exit => (g, before.push(EffectModel::Exit)),
        }
    }
}

/// The first session with the given id left out.
pub open spec fn without_id(ss: Seq<SessionEntry>, id: u64) -> Seq<SessionEntry>
    decreases ss.len(),
{
    if ss.len() == 0 {
        ss
    } else if ss[0].id == id {
        ss.drop_first()
    } else {
        seq![ss[0]] + without_id(ss.drop_first(), id)
    }
}

pub open spec fn status_of(ss: Seq<SessionEntry>, now: u64) -> Seq<SessionModel> {
    ss.map_values(
        |s: SessionEntry|
            SessionModel {
                pid: s.pid,
                command: s.command,
                uptime_secs: ((now - s.started) / 1_000_000_000) as u64,
            },
    )
}

pub open spec fn with_refcount(m: CoordinatorModel, r: RefcountModel, gen: u64, now: u64) -> CoordinatorModel {
    CoordinatorModel { refcount: r, grace_gen: gen, clock: now, ..m }
}

pub open spec fn step_spec(m: CoordinatorModel, e: EventModel, now: u64) -> (CoordinatorModel, Seq<EffectModel>) {
    match e {
        EventModel::HoldOpened { id, pid, command } => {
            let (r, acts) = open_step(m.refcount);
            let (g, effs) = effects_for(acts, m.grace_gen);
            (
                CoordinatorModel {
                    sessions: m.sessions.push(SessionEntry { id, pid, command, started: now }),
                    ..with_refcount(m, r, g, now)
                },
                effs,
            )
        },
        EventModel::HoldClosed { id } => {
            let (r, acts) = close_step(m.refcount);
            let (g, effs) = effects_for(acts, m.grace_gen);
            (
                CoordinatorModel {
                    sessions: without_id(m.sessions, id),
                    ..with_refcount(m, r, g, now)
                },
                effs,
            )
        },
        EventModel::GraceElapsed { generation } => if generation == m.grace_gen {
            let (r, acts) = grace_step(m.refcount);
            let (g, effs) = effects_for(acts, m.grace_gen);
            (with_refcount(m, r, g, now), effs)
        } else {
            (CoordinatorModel { clock: now, ..m }, seq![])
        },
        EventModel::Query => (
            CoordinatorModel { clock: now, ..m },
            seq![
                EffectModel::Reply(
                    StatusModel { sessions: status_of(m.sessions, now), pid: m.pid, version: m.version },
                ),
            ],
        ),
    }
}

// ---------------------------------------------------------------------------
// Executable
// ---------------------------------------------------------------------------

fn effects_of_actions(acts: &Vec<Action>, gen: &mut u64) -> (effs: Vec<DaemonEffect>)
    requires
        *old(gen) as nat + acts.len() <= u64::MAX,
    ensures
        (*final(gen), effect_models(effs@)) == effects_for(acts@, *old(gen)),
{
    let mut effs: Vec<DaemonEffect> = Vec::new();
    let mut i: usize = 0;
    while i < acts.len()
        invariant
            i <= acts.len(),
            *gen as nat + (acts.len() - i) <= u64::MAX,
            (*gen, effect_models(effs@)) == effects_for(acts@.take(i as int), *old(gen)),
        decreases acts.len() - i,
    {
        let ghost before = effect_models(effs@);
        let ghost g0 = *gen;
        proof {
            assert(acts@.take(i + 1).drop_last() =~= acts@.take(i as int));
            assert(acts@.take(i + 1).last() == acts@[i as int]);
        }
        match acts[i] {
            Action::SetSleepDisabled(v) => effs.push(DaemonEffect::SetSleepDisabled(v)),
            Action::StartLidWatch => effs.push(DaemonEffect::StartLidWatch),
            Action::StopLidWatch => effs.push(DaemonEffect::StopLidWatch),
            Action::StartGraceTimer => {
                *gen = *gen + 1;
                effs.push(DaemonEffect::StartGraceTimer { generation: *gen });
            },
            Action::CancelGraceTimer => {
                // Any timer still in flight now carries a stale generation.
                *gen = *gen + 1;
            },
            Action::Exit => effs.push(DaemonEffect::Exit),
        }
        assert(effect_models(effs@) =~= match acts@[i as int] {
            Action::CancelGraceTimer => before,
            Action::SetSleepDisabled(v) => before.push(EffectModel::SetSleepDisabled(v)),
            Action::StartLidWatch => before.push(EffectModel::StartLidWatch),
            Action::StopLidWatch => before.push(EffectModel::StopLidWatch),
            Action::StartGraceTimer => before.push(
                EffectModel::StartGraceTimer { generation: (g0 + 1) as u64 },
            ),
            Action::Exit => before.push(EffectModel::Exit),
        });
        i = i + 1;
    }
    assert(acts@.take(i as int) =~= acts@);
    effs
}

fn copy_text(s: &String) -> (r: String)
    ensures
        r@ == s@,
{
    s.clone()
}

impl Coordinator {
    pub open spec fn started_model(pid: u32, version: Seq<char>) -> CoordinatorModel {
        CoordinatorModel {
            refcount: RefcountModel { count: 0, in_grace: true },
            grace_gen: 1,
            sessions: seq![],
            pid,
            version,
            clock: 0,
        }
    }

    /// A coordinator for a freshly started daemon (clock at 0): the idle
    /// clock is armed at once, so a daemon that never receives a hold still
    /// exits after the grace period.
    pub fn start(pid: u32, version: String) -> (r: (Coordinator, Vec<DaemonEffect>))
        ensures
            r.0@ == Coordinator::started_model(pid, version@),
            effect_models(r.1@) == seq![EffectModel::StartGraceTimer { generation: 1 }],
    {
        let mut state = RefcountState::new();
        let acts = state.begin_idle();
        let mut gen: u64 = 0;
        let effs = effects_of_actions(&acts, &mut gen);
        proof {
            reveal_with_fuel(effects_for, 2);
            let a = idle_step(RefcountModel { count: 0, in_grace: false }).1;
            assert(a.drop_last() =~= Seq::<Action>::empty());
            assert(effect_models(effs@) =~= seq![EffectModel::StartGraceTimer { generation: 1 }]);
        }
        let c = Coordinator { state, grace_gen: gen, sessions: Vec::new(), pid, version, clock: 0 };
        assert(entries(c.sessions@) =~= Seq::<SessionEntry>::empty());
        (c, effs)
    }

    /// The number of open holds.
    pub fn hold_count(&self) -> (c: u32)
        ensures
            c == self@.refcount.count,
    {
        self.state.count()
    }

    /// The current grace-timer generation.
    pub fn generation(&self) -> (g: u64)
        ensures
            g == self@.grace_gen,
    {
        self.grace_gen
    }

    /// The daemon clock as of the last event.
    pub fn clock(&self) -> (t: u64)
        ensures
            t == self@.clock,
    {
        self.clock
    }

    fn status(&self, now: u64) -> (s: StatusInfo)
        requires
            forall|i: int| 0 <= i < self@.sessions.len() ==> #[trigger] self@.sessions[i].started <= now,
        ensures
            s@ == (StatusModel {
                sessions: status_of(self@.sessions, now),
                pid: self@.pid,
                version: self@.version,
            }),
    {
        let mut list: Vec<SessionInfo> = Vec::new();
        let mut i: usize = 0;
        let ghost es = self@.sessions;
        while i < self.sessions.len()
            invariant
                i <= self.sessions.len(),
                es == entries(self.sessions@),
                forall|k: int| 0 <= k < es.len() ==> #[trigger] es[k].started <= now,
                session_models(list@) == status_of(es.take(i as int), now),
            decreases self.sessions.len() - i,
        {
            let s = &self.sessions[i];
            assert(es[i as int].started == s.started_nanos);
            let info = SessionInfo {
                pid: s.pid,
                command: copy_text(&s.command),
                uptime_secs: (now - s.started_nanos) / 1_000_000_000,
            };
            let ghost before = session_models(list@);
            list.push(info);
            assert(session_models(list@) =~= before.push(info@));
            assert(status_of(es.take(i + 1), now) =~= status_of(es.take(i as int), now).push(info@));
            i = i + 1;
        }
        assert(es.take(i as int) =~= es);
        StatusInfo { sessions: list, pid: self.pid, version: copy_text(&self.version) }
    }

    fn remove_session(&mut self, id: u64)
        ensures
            entries(final(self).sessions@) == without_id(entries(old(self).sessions@), id),
            final(self).state == old(self).state,
            final(self).grace_gen == old(self).grace_gen,
            final(self).pid == old(self).pid,
            final(self).version == old(self).version,
            final(self).clock == old(self).clock,
    {
        let mut i: usize = 0;
        let ghost es = entries(self.sessions@);
        assert(es.skip(0) =~= es);
        assert(es.take(0) + without_id(es, id) =~= without_id(es, id));
        while i < self.sessions.len()
            invariant
                i <= self.sessions.len(),
                es == entries(self.sessions@),
                self.sessions == old(self).sessions,
                self.state == old(self).state,
                self.grace_gen == old(self).grace_gen,
                self.pid == old(self).pid,
                self.version == old(self).version,
                self.clock == old(self).clock,
                without_id(es, id) == es.take(i as int) + without_id(es.skip(i as int), id),
                forall|k: int| 0 <= k < i ==> #[trigger] es[k].id != id,
            decreases self.sessions.len() - i,
        {
            let ghost rest = es.skip(i as int);
            assert(rest[0] == es[i as int]);
            assert(rest.drop_first() =~= es.skip(i + 1));
            if self.sessions[i].id == id {
                let _ = self.sessions.remove(i);
                assert(entries(self.sessions@) =~= es.take(i as int) + es.skip(i + 1));
                return;
            }
            assert(es.take(i + 1) =~= es.take(i as int) + seq![es[i as int]]);
            assert(without_id(es, id) =~= es.take(i + 1) + without_id(es.skip(i + 1), id));
            i = i + 1;
        }
        assert(es.skip(i as int) =~= Seq::<SessionEntry>::empty());
        assert(es.take(i as int) =~= es);
    }

    /// Answers one event at daemon clock `now` (nanoseconds since the daemon
    /// started, never going back).
    pub fn step(&mut self, event: DaemonEvent, now: u64) -> (effects: Vec<DaemonEffect>)
        requires
            now >= old(self)@.clock,
            old(self)@.grace_gen < u64::MAX - 2,
            forall|i: int| 0 <= i < old(self)@.sessions.len() ==> #[trigger] old(self)@.sessions[i].started
                <= old(self)@.clock,
            event matches DaemonEvent::HoldOpened { .. } ==> old(self)@.refcount.count < u32::MAX,
        ensures
            (final(self)@, effect_models(effects@)) == step_spec(old(self)@, event@, now),
    {
        let ghost m = self@;
        let ghost e = event@;
        let effects = match event {
            DaemonEvent::HoldOpened { id, pid, command } => {
                let acts = self.state.on_hold_open();
                assert(acts@.len() <= 3);
                let effs = effects_of_actions(&acts, &mut self.grace_gen);
                let ghost before = entries(self.sessions@);
                let s = ActiveSession { id, pid, command, started_nanos: now };
                self.sessions.push(s);
                assert(entries(self.sessions@) =~= before.push(s@));
                effs
            },
            DaemonEvent::HoldClosed { id } => {
                let acts = self.state.on_hold_close();
                assert(acts@.len() <= 3);
                let effs = effects_of_actions(&acts, &mut self.grace_gen);
                self.remove_session(id);
                effs
            },
            DaemonEvent::GraceElapsed { generation } => {
                if generation == self.grace_gen {
                    let acts = self.state.on_grace_elapsed();
                    assert(acts@.len() <= 1);
                    effects_of_actions(&acts, &mut self.grace_gen)
                } else {
                    // A stale timer from a hold that re-opened and cancelled it.
                    Vec::new()
                }
            },
            DaemonEvent::Query => {
                let info = self.status(now);
                let mut v = Vec::new();
                v.push(DaemonEffect::Reply(info));
                v
            },
        };
        self.clock = now;
        proof {
            match e {
                EventModel::GraceElapsed { generation } => {
                    if generation != m.grace_gen {
                        assert(effect_models(effects@) =~= Seq::<EffectModel>::empty());
                    }
                },
                EventModel::Query => {
                    assert(effect_models(effects@) =~= seq![
                        EffectModel::Reply(
                            StatusModel {
                                sessions: status_of(m.sessions, now),
                                pid: m.pid,
                                version: m.version,
                            },
                        ),
                    ]);
                },
                _ => {},
            }
        }
        effects
    }
}

// ---------------------------------------------------------------------------
// Laws
// ---------------------------------------------------------------------------

/// The coordinator's invariant: one session per open hold, with distinct
/// ids, recorded oldest first, none in the future.
pub open spec fn sessions_track(m: CoordinatorModel) -> bool {
    &&& m.sessions.len() == m.refcount.count
    &&& forall|i: int, j: int| 0 <= i < j < m.sessions.len() ==> m.sessions[i].id != m.sessions[j].id
    &&& forall|i: int, j: int| 0 <= i <= j < m.sessions.len() ==> m.sessions[i].started <= m.sessions[j].started
    &&& forall|i: int| 0 <= i < m.sessions.len() ==> #[trigger] m.sessions[i].started <= m.clock
    &&& (m.refcount.in_grace ==> m.refcount.count == 0)
}

pub open spec fn has_id(ss: Seq<SessionEntry>, id: u64) -> bool {
    exists|i: int| 0 <= i < ss.len() && ss[i].id == id
}

/// The events a well-behaved daemon feeds: a hold opens under a fresh id
/// and closes under the id of an open hold.
pub open spec fn event_fits(m: CoordinatorModel, e: EventModel) -> bool {
    match e {
        EventModel::HoldOpened { id, .. } => !has_id(m.sessions, id) && m.refcount.count < u32::MAX,
        EventModel::HoldClosed { id } => has_id(m.sessions, id),
        _ => true,
    }
}

proof fn lemma_without_id(ss: Seq<SessionEntry>, id: u64, k: int)
    requires
        0 <= k < ss.len(),
        ss[k].id == id,
        forall|i: int| 0 <= i < k ==> ss[i].id != id,
    ensures
        without_id(ss, id) == ss.take(k) + ss.skip(k + 1),
    decreases k,
{
    if k == 0 {
        assert(ss.take(0) + ss.skip(1) =~= ss.drop_first());
    } else {
        lemma_without_id(ss.drop_first(), id, k - 1);
        assert(seq![ss[0]] + (ss.drop_first().take(k - 1) + ss.drop_first().skip(k)) =~= ss.take(k)
            + ss.skip(k + 1));
    }
}

proof fn lemma_first_with_id(ss: Seq<SessionEntry>, id: u64) -> (k: int)
    requires
        has_id(ss, id),
    ensures
        0 <= k < ss.len(),
        ss[k].id == id,
        forall|i: int| 0 <= i < k ==> ss[i].id != id,
    decreases ss.len(),
{
    if ss[0].id == id {
        0
    } else {
        let j = choose|j: int| 0 <= j < ss.len() && ss[j].id == id;
        assert(ss.drop_first()[j - 1].id == id);
        let k = lemma_first_with_id(ss.drop_first(), id);
        assert forall|i: int| 0 <= i < k + 1 implies ss[i].id != id by {
            if i > 0 {
                assert(ss[i] == ss.drop_first()[i - 1]);
            }
        }
        k + 1
    }
}

/// A freshly started coordinator keeps the invariant: no session, no hold,
/// the idle clock running.
pub proof fn law_start_tracks(pid: u32, version: Seq<char>)
    ensures
        sessions_track(Coordinator::started_model(pid, version)),
{
}

/// Holds opened and closed as the daemon does it keep one session per open
/// hold, with distinct ids, oldest first; a status query and a grace timer
/// keep the invariant too.
pub proof fn law_sessions_track_holds(m: CoordinatorModel, e: EventModel, now: u64)
    requires
        sessions_track(m),
        event_fits(m, e),
        now >= m.clock,
    ensures
        sessions_track(step_spec(m, e, now).0),
{
    crate::refcount::law_close_keeps_effects(m.refcount);
    crate::refcount::law_grace_keeps_effects(m.refcount);
    match e {
        EventModel::HoldOpened { .. } => {
            crate::refcount::law_open_keeps_effects(m.refcount);
        },
        EventModel::HoldClosed { id } => {
            let k = lemma_first_with_id(m.sessions, id);
            lemma_without_id(m.sessions, id, k);
            let ns = step_spec(m, e, now).0.sessions;
            assert(ns.len() == m.sessions.len() - 1);
            assert forall|i: int| 0 <= i < ns.len() implies #[trigger] ns[i] == if i < k {
                m.sessions[i]
            } else {
                m.sessions[i + 1]
            } by {}
        },
        _ => {},
    }
}

/// A status query changes nothing: not the hold count, not the grace timer,
/// not the sessions; its only effect is the reply, which lists the open
/// sessions oldest first.
pub proof fn law_query_is_passive(m: CoordinatorModel, now: u64)
    requires
        sessions_track(m),
        now >= m.clock,
    ensures
        ({
            let (m2, effs) = step_spec(m, EventModel::Query, now);
            &&& m2.refcount == m.refcount
            &&& m2.grace_gen == m.grace_gen
            &&& m2.sessions == m.sessions
            &&& effs.len() == 1
            &&& effs[0] matches EffectModel::Reply(s) && s.sessions.len() == m.refcount.count
                && forall|i: int, j: int|
                0 <= i <= j < s.sessions.len() ==> s.sessions[i].uptime_secs >= s.sessions[j].uptime_secs
        }),
{
    let ss = status_of(m.sessions, now);
    assert forall|i: int, j: int| 0 <= i <= j < ss.len() implies ss[i].uptime_secs
        >= ss[j].uptime_secs by {
        let a = now - m.sessions[i].started;
        let b = now - m.sessions[j].started;
        assert(m.sessions[j].started <= m.clock);
        assert(0 <= b <= a);
        assert(b / 1_000_000_000 <= a / 1_000_000_000) by (nonlinear_arith)
            requires
                0 <= b <= a,
        ;
    }
}

/// A grace timer from an older generation is ignored.
pub proof fn law_stale_timer_ignored(m: CoordinatorModel, generation: u64, now: u64)
    requires
        generation != m.grace_gen,
    ensures
        step_spec(m, EventModel::GraceElapsed { generation }, now).1.len() == 0,
        step_spec(m, EventModel::GraceElapsed { generation }, now).0.refcount == m.refcount,
        step_spec(m, EventModel::GraceElapsed { generation }, now).0.sessions == m.sessions,
{
}

/// A hold opened during the grace period cancels it: the pending timer's
/// generation becomes stale, so when it fires nothing happens.
pub proof fn law_hold_cancels_grace(m: CoordinatorModel, id: u64, pid: u32, command: Seq<char>, now: u64)
    requires
        m.refcount.count == 0,
        m.refcount.in_grace,
        m.grace_gen < u64::MAX,
    ensures
        ({
            let m2 = step_spec(m, EventModel::HoldOpened { id, pid, command }, now).0;
            &&& m2.grace_gen != m.grace_gen
            &&& step_spec(m2, EventModel::GraceElapsed { generation: m.grace_gen }, now).1.len() == 0
        }),
{
    reveal_with_fuel(effects_for, 4);
    let acts = open_step(m.refcount).1;
    assert(acts =~= seq![
        Action::CancelGraceTimer,
        Action::SetSleepDisabled(true),
        Action::StartLidWatch,
    ]);
    assert(acts.drop_last() =~= seq![Action::CancelGraceTimer, Action::SetSleepDisabled(true)]);
    assert(acts.drop_last().drop_last() =~= seq![Action::CancelGraceTimer]);
    assert(acts.drop_last().drop_last().drop_last() =~= Seq::<Action>::empty());
}

// ---------------------------------------------------------------------------
// Laws over sequences of events
// ---------------------------------------------------------------------------

/// The coordinator after the events (each with its clock reading), and all
/// the effects it answered with, in order.
pub open spec fn run_events(m: CoordinatorModel, evs: Seq<(EventModel, u64)>) -> (CoordinatorModel, Seq<EffectModel>)
    decreases evs.len(),
{
    if evs.len() == 0 {
        (m, seq![])
    } else {
        let (m1, e1) = run_events(m, evs.drop_last());
        let (m2, e2) = step_spec(m1, evs.last().0, evs.last().1);
        (m2, e1 + e2)
    }
}

/// The events are fed as the daemon feeds them: each fits the coordinator
/// it reaches, the clock never goes back, and the generations stay below
/// the end of `u64`.
pub open spec fn events_fit(m: CoordinatorModel, evs: Seq<(EventModel, u64)>) -> bool
    decreases evs.len(),
{
    evs.len() == 0 || ({
        let m1 = run_events(m, evs.drop_last()).0;
        &&& events_fit(m, evs.drop_last())
        &&& event_fits(m1, evs.last().0)
        &&& evs.last().1 >= m1.clock
        &&& m1.grace_gen < u64::MAX - 2
    })
}

/// Carries out the effects on (`SleepDisabled`, lid watch): `None` as soon
/// as an effect sets `SleepDisabled` to the value it already has, starts a
/// running lid watch, stops a stopped one, or exits with `SleepDisabled`
/// still set.
pub open spec fn replay_effects(effs: Seq<EffectModel>, sleep: bool, lid: bool) -> Option<(bool, bool)>
    decreases effs.len(),
{
    if effs.len() == 0 {
        Some((sleep, lid))
    } else {
        let rest = effs.drop_first();
        match effs[0] {
            EffectModel::SetSleepDisabled(v) => if v != sleep {
                replay_effects(rest, v, lid)
            } else {
                None
            },
            EffectModel::StartLidWatch => if !lid {
                replay_effects(rest, sleep, true)
            } else {
                None
            },
            EffectModel::StopLidWatch => if lid {
                replay_effects(rest, sleep, false)
            } else {
                None
            },
            EffectModel::Exit => if !sleep {
                replay_effects(rest, sleep, lid)
            } else {
                None
            },
            _ => replay_effects(rest, sleep, lid),
        }
    }
}

/// The generations of the grace timers the effects start, in order.
pub open spec fn timer_gens(effs: Seq<EffectModel>) -> Seq<u64>
    decreases effs.len(),
{
    if effs.len() == 0 {
        seq![]
    } else {
        (match effs[0] {
            EffectModel::StartGraceTimer { generation } => seq![generation],
            _ => seq![],
        }) + timer_gens(effs.drop_first())
    }
}

proof fn lemma_replay_effects_append(a: Seq<EffectModel>, b: Seq<EffectModel>, sleep: bool, lid: bool)
    ensures
        replay_effects(a + b, sleep, lid) == match replay_effects(a, sleep, lid) {
            Some((s2, l2)) => replay_effects(b, s2, l2),
            None => None,
        },
    decreases a.len(),
{
    if a.len() == 0 {
        assert(a + b =~= b);
    } else {
        assert((a + b).drop_first() =~= a.drop_first() + b);
        assert((a + b)[0] == a[0]);
        match a[0] {
            EffectModel::SetSleepDisabled(v) => lemma_replay_effects_append(a.drop_first(), b, v, lid),
            EffectModel::StartLidWatch => lemma_replay_effects_append(a.drop_first(), b, sleep, true),
            EffectModel::StopLidWatch => lemma_replay_effects_append(a.drop_first(), b, sleep, false),
            _ => lemma_replay_effects_append(a.drop_first(), b, sleep, lid),
        }
    }
}

proof fn lemma_timer_gens_append(a: Seq<EffectModel>, b: Seq<EffectModel>)
    ensures
        timer_gens(a + b) == timer_gens(a) + timer_gens(b),
    decreases a.len(),
{
    if a.len() == 0 {
        assert(a + b =~= b);
        assert(timer_gens(a) + timer_gens(b) =~= timer_gens(b));
    } else {
        assert((a + b).drop_first() =~= a.drop_first() + b);
        assert((a + b)[0] == a[0]);
        lemma_timer_gens_append(a.drop_first(), b);
        let h = match a[0] {
            EffectModel::StartGraceTimer { generation } => seq![generation],
            _ => Seq::<u64>::empty(),
        };
        assert(h + (timer_gens(a.drop_first()) + timer_gens(b)) =~= (h + timer_gens(a.drop_first()))
            + timer_gens(b));
    }
}

/// What holds of the effects of a run, given the coordinator it reached.
pub open spec fn run_keeps(m: CoordinatorModel, effs: Seq<EffectModel>) -> bool {
    let gs = timer_gens(effs);
    &&& sessions_track(m)
    &&& replay_effects(effs, false, false) == Some((m.refcount.count > 0, m.refcount.count > 0))
    &&& forall|i: int, j: int| 0 <= i < j < gs.len() ==> gs[i] < gs[j]
    &&& forall|i: int| 0 <= i < gs.len() ==> gs[i] <= m.grace_gen
    &&& (m.refcount.in_grace ==> gs.len() > 0 && gs.last() == m.grace_gen)
}

proof fn lemma_step_effects(m: CoordinatorModel, e: EventModel, now: u64)
    requires
        sessions_track(m),
        event_fits(m, e),
        now >= m.clock,
        m.grace_gen < u64::MAX - 2,
    ensures
        ({
            let (m2, effs) = step_spec(m, e, now);
            let gs = timer_gens(effs);
            &&& replay_effects(effs, m.refcount.count > 0, m.refcount.count > 0) == Some(
                (m2.refcount.count > 0, m2.refcount.count > 0),
            )
            &&& m2.grace_gen >= m.grace_gen
            &&& gs.len() <= 1
            &&& (gs.len() == 1 ==> gs[0] == m2.grace_gen && m2.grace_gen > m.grace_gen)
            &&& (m2.refcount.in_grace ==> gs.len() == 1 || (m.refcount.in_grace && m2.grace_gen
                == m.grace_gen && gs.len() == 0))
        }),
{
    reveal_with_fuel(effects_for, 4);
    reveal_with_fuel(replay_effects, 4);
    reveal_with_fuel(timer_gens, 4);
    let g = m.grace_gen;
    let r = m.refcount;
    match e {
        EventModel::HoldOpened { .. } => {
            let acts = open_step(r).1;
            if r.count == 0 {
                if r.in_grace {
                    assert(acts =~= seq![
                        Action::CancelGraceTimer,
                        Action::SetSleepDisabled(true),
                        Action::StartLidWatch,
                    ]);
                    assert(acts.drop_last() =~= seq![Action::CancelGraceTimer, Action::SetSleepDisabled(true)]);
                    assert(acts.drop_last().drop_last() =~= seq![Action::CancelGraceTimer]);
                    assert(acts.drop_last().drop_last().drop_last() =~= Seq::<Action>::empty());
                    let effs = effects_for(acts, g).1;
                    assert(effs =~= seq![EffectModel::SetSleepDisabled(true), EffectModel::StartLidWatch]);
                    assert(effs.drop_first() =~= seq![EffectModel::StartLidWatch]);
                    assert(effs.drop_first().drop_first() =~= Seq::<EffectModel>::empty());
                } else {
                    assert(acts =~= seq![Action::SetSleepDisabled(true), Action::StartLidWatch]);
                    assert(acts.drop_last() =~= seq![Action::SetSleepDisabled(true)]);
                    assert(acts.drop_last().drop_last() =~= Seq::<Action>::empty());
                    let effs = effects_for(acts, g).1;
                    assert(effs =~= seq![EffectModel::SetSleepDisabled(true), EffectModel::StartLidWatch]);
                    assert(effs.drop_first() =~= seq![EffectModel::StartLidWatch]);
                    assert(effs.drop_first().drop_first() =~= Seq::<EffectModel>::empty());
                }
            }
        },
        EventModel::HoldClosed { .. } => {
            let acts = close_step(r).1;
            if r.count == 1 {
                assert(acts.drop_last() =~= seq![Action::SetSleepDisabled(false), Action::StopLidWatch]);
                assert(acts.drop_last().drop_last() =~= seq![Action::SetSleepDisabled(false)]);
                assert(acts.drop_last().drop_last().drop_last() =~= Seq::<Action>::empty());
                let effs = effects_for(acts, g).1;
                assert(effs =~= seq![
                    EffectModel::SetSleepDisabled(false),
                    EffectModel::StopLidWatch,
                    EffectModel::StartGraceTimer { generation: (g + 1) as u64 },
                ]);
                assert(effs.drop_first() =~= seq![
                    EffectModel::StopLidWatch,
                    EffectModel::StartGraceTimer { generation: (g + 1) as u64 },
                ]);
                assert(effs.drop_first().drop_first() =~= seq![
                    EffectModel::StartGraceTimer { generation: (g + 1) as u64 },
                ]);
                assert(effs.drop_first().drop_first().drop_first() =~= Seq::<EffectModel>::empty());
                assert(timer_gens(effs) =~= seq![(g + 1) as u64]);
            }
        },
        EventModel::GraceElapsed { generation } => {
            if generation == g && r.count == 0 && r.in_grace {
                let acts = grace_step(r).1;
                assert(acts.drop_last() =~= Seq::<Action>::empty());
                let effs = effects_for(acts, g).1;
                assert(effs =~= seq![EffectModel::Exit]);
                assert(effs.drop_first() =~= Seq::<EffectModel>::empty());
            }
        },
        EventModel::Query => {
            let effs = step_spec(m, e, now).1;
            assert(effs.drop_first() =~= Seq::<EffectModel>::empty());
        },
    }
}

/// Over any run of the coordinator from its start, fed as the daemon feeds
/// it: the invariant of `sessions_track` holds; `SleepDisabled` is set
/// alternately to true and false, starting with true, and the lid watch is
/// started and stopped alternately, starting with a start; both say
/// whether a hold is open; the daemon never exits with `SleepDisabled` set;
/// each grace timer gets a generation above all earlier ones; and a timer
/// that is not the latest one started, or that fires outside the grace
/// period, has no effect.
pub proof fn law_events_keep_effects(pid: u32, version: Seq<char>, evs: Seq<(EventModel, u64)>)
    requires
        events_fit(Coordinator::started_model(pid, version), evs),
    ensures
        ({
            let (m, effs) = run_events(Coordinator::started_model(pid, version), evs);
            let all = seq![EffectModel::StartGraceTimer { generation: 1 }] + effs;
            &&& run_keeps(m, all)
            &&& forall|generation: u64, now: u64|
                !(m.refcount.in_grace && generation == timer_gens(all).last()) ==> (#[trigger] step_spec(
                    m,
                    EventModel::GraceElapsed { generation },
                    now,
                )).1.len() == 0
        }),
    decreases evs.len(),
{
    let m0 = Coordinator::started_model(pid, version);
    let first = seq![EffectModel::StartGraceTimer { generation: 1 }];
    if evs.len() == 0 {
        reveal_with_fuel(replay_effects, 2);
        reveal_with_fuel(timer_gens, 2);
        assert(first + Seq::<EffectModel>::empty() =~= first);
        assert(first.drop_first() =~= Seq::<EffectModel>::empty());
        assert(timer_gens(first) =~= seq![1u64]);
    } else {
        law_events_keep_effects(pid, version, evs.drop_last());
        let (m1, e1) = run_events(m0, evs.drop_last());
        let (ev, now) = evs.last();
        let (m2, e2) = step_spec(m1, ev, now);
        law_sessions_track_holds(m1, ev, now);
        lemma_step_effects(m1, ev, now);
        assert(first + (e1 + e2) =~= (first + e1) + e2);
        lemma_replay_effects_append(first + e1, e2, false, false);
        lemma_timer_gens_append(first + e1, e2);
        let g1 = timer_gens(first + e1);
        let g2 = timer_gens(e2);
        let gs = g1 + g2;
        assert forall|i: int, j: int| 0 <= i < j < gs.len() implies gs[i] < gs[j] by {
            if j >= g1.len() {
                assert(gs[j] == g2[j - g1.len()]);
                if i < g1.len() {
                    assert(gs[i] == g1[i]);
                }
            } else {
                assert(gs[i] == g1[i] && gs[j] == g1[j]);
            }
        }
        assert forall|i: int| 0 <= i < gs.len() implies gs[i] <= m2.grace_gen by {
            if i >= g1.len() {
                assert(gs[i] == g2[i - g1.len()]);
            } else {
                assert(gs[i] == g1[i]);
            }
        }
        if m2.refcount.in_grace {
            if g2.len() == 1 {
                assert(gs.last() == g2[0]);
            } else {
                assert(gs =~= g1);
            }
        }
    }
    let (m, effs) = run_events(m0, evs);
    let all = first + effs;
    assert forall|generation: u64, now: u64|
        !(m.refcount.in_grace && generation == timer_gens(all).last()) implies (#[trigger] step_spec(
            m,
            EventModel::GraceElapsed { generation },
            now,
        )).1.len() == 0 by {
        if generation == m.grace_gen && m.refcount.count == 0 && m.refcount.in_grace {
            assert(timer_gens(all).last() == m.grace_gen);
        }
        if generation == m.grace_gen && !(m.refcount.count == 0 && m.refcount.in_grace) {
            reveal_with_fuel(effects_for, 2);
            assert(grace_step(m.refcount).1 =~= Seq::<Action>::empty());
        }
    }
}

/// Event `i` of the stream is answered by one step from where the earlier
/// events left the coordinator, its effects following theirs; a query
/// changes no count, timer or session; a stale `GraceElapsed` does nothing.
pub open spec fn stream_step(m0: CoordinatorModel, evs: Seq<(EventModel, u64)>, i: int) -> bool {
    let (before, earlier) = run_events(m0, evs.take(i));
    let (after, effs) = step_spec(before, evs[i].0, evs[i].1);
    &&& run_events(m0, evs.take(i + 1)) == (after, earlier + effs)
    &&& (evs[i].0 is Query ==> after.refcount == before.refcount && after.grace_gen == before.grace_gen
        && after.sessions == before.sessions)
    &&& (evs[i].0 matches EventModel::GraceElapsed { generation } && generation != before.grace_gen
        ==> effs.len() == 0 && after.refcount == before.refcount)
}

/// The coordinator's law over a whole stream of events. It starts from a
/// fresh `RefcountState` that has armed its idle clock, with that timer as
/// its first effect. Each event, in order, is answered by one step, and its
/// effects follow those of the earlier events. A query changes neither the
/// hold count nor the grace timer. A `GraceElapsed` of a generation other
/// than the current one has no effect and changes no count. And over the
/// whole stream everything `law_events_keep_effects` states holds.
pub proof fn law_event_stream(pid: u32, version: Seq<char>, evs: Seq<(EventModel, u64)>)
    requires
        events_fit(Coordinator::started_model(pid, version), evs),
    ensures
        Coordinator::started_model(pid, version).refcount == idle_step(
            RefcountModel { count: 0, in_grace: false },
        ).0,
        effects_for(idle_step(RefcountModel { count: 0, in_grace: false }).1, 0)
            == (1u64, seq![EffectModel::StartGraceTimer { generation: 1 }]),
        forall|i: int|
            0 <= i < evs.len() ==> #[trigger] stream_step(
                Coordinator::started_model(pid, version),
                evs,
                i,
            ),
        ({
            let (m, effs) = run_events(Coordinator::started_model(pid, version), evs);
            let all = seq![EffectModel::StartGraceTimer { generation: 1 }] + effs;
            &&& run_keeps(m, all)
            &&& forall|generation: u64, now: u64|
                !(m.refcount.in_grace && generation == timer_gens(all).last()) ==> (#[trigger] step_spec(
                    m,
                    EventModel::GraceElapsed { generation },
                    now,
                )).1.len() == 0
        }),
{
    law_events_keep_effects(pid, version, evs);
    reveal_with_fuel(effects_for, 2);
    let acts = idle_step(RefcountModel { count: 0, in_grace: false }).1;
    assert(acts.drop_last() =~= Seq::<Action>::empty());
    let m0 = Coordinator::started_model(pid, version);
    assert forall|i: int| 0 <= i < evs.len() implies #[trigger] stream_step(m0, evs, i) by {
        assert(evs.take(i + 1).drop_last() =~= evs.take(i));
        assert(evs.take(i + 1).last() == evs[i]);
    }
}

// ---------------------------------------------------------------------------
// Lid watch
// ---------------------------------------------------------------------------

/// The lid watch's memory between two readings of the lid sensor: whether
/// the lid was closed at the last reading.
#[derive(Debug)]
pub struct LidWatch {
    pub was_closed: bool,
}

/// One reading of the lid sensor: what the watch remembers next, and
/// whether the display must be put to sleep now (the lid has just closed).
pub open spec fn lid_step(was_closed: bool, closed: bool) -> (bool, bool) {
    (closed, closed && !was_closed)
}

impl LidWatch {
    /// A watch that has not seen the lid closed yet.
    pub fn new() -> (w: LidWatch)
        ensures
            !w.was_closed,
    {
        LidWatch { was_closed: false }
    }

    /// Takes one reading of the lid sensor; returns whether the display
    /// must be put to sleep now.
    pub fn observe(&mut self, closed: bool) -> (sleep_display: bool)
        ensures
            (final(self).was_closed, sleep_display) == lid_step(old(self).was_closed, closed),
    {
        let r = closed && !self.was_closed;
        self.was_closed = closed;
        r
    }
}

/// The display is put to sleep once per closing of the lid: a second
/// reading of a closed lid does nothing, and after the lid was seen open a
/// closing puts the display to sleep again.
pub proof fn law_display_sleeps_once_per_close(was_closed: bool)
    ensures
        !lid_step(lid_step(was_closed, true).0, true).1,
        lid_step(lid_step(was_closed, false).0, true).1,
        lid_step(was_closed, true).1 == !was_closed,
{
}

} // verus!
