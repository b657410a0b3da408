//! Decisions of the PWM output thread.
//!
//! The thread receives batches of channel updates from the control loop. A batch
//! starts with an arm command, carries the pulse width of each channel and ends
//! with a completion marker; only complete batches reach the outputs. When the
//! robot is disarmed, or no batch has completed for too long, every output is
//! held at the stop pulse and the output stage is disabled.

use vstd::prelude::*;
use std::collections::HashMap;
use crate::robot_state::Armed;

verus! {

broadcast use vstd::std_specs::hash::group_hash_axioms;

/// Number of output channels of the PWM controller.
pub const PWM_CHANNELS: usize = 16;

/// Pulse width, in microseconds, that stops a thruster.
pub const STOP_PULSE_MICROS: u64 = 1500;

/// A message from the control loop to the output thread.
#[derive(Clone, Copy, Debug, PartialEq, Eq, Structural)]
pub enum PwmEvent {
    /// The robot's armed state; arming starts a new batch.
    Arm(Armed),
    /// The pulse width (microseconds) of one channel, within a batch.
    UpdateChannel(u8, u64),
    /// End of a batch.
    BatchComplete,
    /// The thread should stop.
    Shutdown,
}

/// The state of the output thread, as a mathematical value.
pub struct PwmModel {
    pub armed: Armed,
    pub batch_started: bool,
    pub pending: Map<u8, u64>,
    pub active: Map<u8, u64>,
    pub shutdown: bool,
}

/// The state of the output thread.
pub struct PwmOutputState {
    armed: Armed,
    batch_started: bool,
    next_channel_pwms: HashMap<u8, u64>,
    channel_pwms: HashMap<u8, u64>,
    do_shutdown: bool,
}

impl View for PwmOutputState {
    type V = PwmModel;

    closed spec fn view(&self) -> PwmModel {
        PwmModel {
            armed: self.armed,
            batch_started: self.batch_started,
            pending: self.next_channel_pwms@,
            active: self.channel_pwms@,
            shutdown: self.do_shutdown,
        }
    }
}

/// The state when the thread starts: disarmed, no batch, nothing to output.
pub open spec fn initial_model() -> PwmModel {
    PwmModel {
        armed: Armed::Disarmed,
        batch_started: false,
        pending: Map::empty(),
        active: Map::empty(),
        shutdown: false,
    }
}

/// How one event changes the state. Once the thread is shut down it reads no
/// more events.
pub open spec fn step(m: PwmModel, ev: PwmEvent) -> PwmModel {
    if m.shutdown {
        m
    } else {
        match ev {
        PwmEvent::Arm(Armed::Armed) => PwmModel { batch_started: true, pending: Map::empty(), ..m },
        PwmEvent::Arm(Armed::Disarmed) => PwmModel {
            batch_started: false,
            armed: Armed::Disarmed,
            ..m
        },
        PwmEvent::UpdateChannel(channel, pwm) => if m.batch_started {
            PwmModel { pending: m.pending.insert(channel, pwm), ..m }
        } else {
            m
        },
        PwmEvent::BatchComplete => if m.batch_started {
            PwmModel {
                batch_started: false,
                armed: Armed::Armed,
                active: m.pending,
                pending: Map::empty(),
                ..m
            }
        } else {
            m
        },
        PwmEvent::Shutdown => PwmModel { armed: Armed::Disarmed, shutdown: true, ..m },
        }
    }
}

/// Whether an event completes a batch (the thread then restarts its inactivity
/// timer).
pub open spec fn completes_batch(m: PwmModel, ev: PwmEvent) -> bool {
    ev is BatchComplete && m.batch_started && !m.shutdown
}

/// The state after the periodic output decision: inactivity disarms, and a
/// disarmed robot outputs nothing.
pub open spec fn tick_model(m: PwmModel, inactive: bool) -> PwmModel {
    let armed = if inactive {
        Armed::Disarmed
    } else {
        m.armed
    };
    PwmModel {
        armed,
        active: if armed == Armed::Armed {
            m.active
        } else {
            Map::empty()
        },
        ..m
    }
}

/// The pulse width of each output channel for a set of active channels: the
/// channel's own pulse where it has one, the stop pulse elsewhere. Channels
/// beyond the controller's sixteen are ignored.
pub open spec fn channel_pulses(active: Map<u8, u64>) -> Seq<u64> {
    Seq::new(
        PWM_CHANNELS as nat,
        |c: int|
            if active.contains_key(c as u8) {
                active[c as u8]
            } else {
                STOP_PULSE_MICROS
            },
    )
}

/// What the thread does on one period.
#[derive(Clone, Copy, Debug, PartialEq, Eq)]
pub struct PwmTick {
    /// The batch timer ran out and the robot was disarmed for it.
    pub disarmed_for_inactivity: bool,
    /// Whether the output stage is enabled.
    pub output_enabled: bool,
    /// The pulse width of each channel, in microseconds.
    pub pwms: [u64; 16],
}

impl PwmOutputState {
    /// The state when the thread starts.
    pub fn new() -> (s: PwmOutputState)
        ensures
            s@ == initial_model(),
    {
        PwmOutputState {
            armed: Armed::Disarmed,
            batch_started: false,
            next_channel_pwms: HashMap::new(),
            channel_pwms: HashMap::new(),
            do_shutdown: false,
        }
    }

    /// Whether the thread was told to stop.
    pub fn is_shutdown(&self) -> (b: bool)
        ensures
            b == self@.shutdown,
    {
        self.do_shutdown
    }

    /// Whether the robot is armed.
    pub fn armed(&self) -> (a: Armed)
        ensures
            a == self@.armed,
    {
        self.armed
    }

    /// Applies one event; returns whether it completed a batch.
    pub fn handle_event(&mut self, event: PwmEvent) -> (completed: bool)
        ensures
            final(self)@ == step(old(self)@, event),
            completed == completes_batch(old(self)@, event),
    {
        if self.do_shutdown {
            return false;
        }
        match event {
            PwmEvent::Arm(Armed::Armed) => {
                self.batch_started = true;
                self.next_channel_pwms.clear();
                false
            },
            PwmEvent::Arm(Armed::Disarmed) => {
                self.batch_started = false;
                self.armed = Armed::Disarmed;
                false
            },
            PwmEvent::UpdateChannel(channel, pwm) => {
                if self.batch_started {
                    self.next_channel_pwms.insert(channel, pwm);
                }
                false
            },
            PwmEvent::BatchComplete => {
                if self.batch_started {
                    self.batch_started = false;
                    self.armed = Armed::Armed;
                    std::mem::swap(&mut self.channel_pwms, &mut self.next_channel_pwms);
                    self.next_channel_pwms.clear();
                    true
                } else {
                    false
                }
            },
            PwmEvent::Shutdown => {
                self.armed = Armed::Disarmed;
                self.do_shutdown = true;
                false
            },
        }
    }

    /// The periodic output decision: `inactive` tells whether the last complete
    /// batch is older than the inactivity limit.
    pub fn tick(&mut self, inactive: bool) -> (t: PwmTick)
        ensures
            final(self)@ == tick_model(old(self)@, inactive),
            t.disarmed_for_inactivity == inactive,
            t.output_enabled == (final(self)@.armed == Armed::Armed),
            t.pwms@ == channel_pulses(final(self)@.active),
    {
        if inactive {
            self.armed = Armed::Disarmed;
        }
        let output_enabled = match self.armed {
            Armed::Armed => true,
            Armed::Disarmed => {
                self.channel_pwms.clear();
                false
            },
        };
        let mut pwms = [STOP_PULSE_MICROS; 16];
        let mut c: u8 = 0;
        while c < 16
            invariant
                c <= 16,
                forall|k: int|
                    0 <= k < 16 ==> #[trigger] pwms@[k] == if k < c && self.channel_pwms@.contains_key(
                        k as u8,
                    ) {
                        self.channel_pwms@[k as u8]
                    } else {
                        STOP_PULSE_MICROS
                    },
            decreases 16 - c,
        {
            match self.channel_pwms.get(&c) {
                Some(pwm) => {
                    pwms[c as usize] = *pwm;
                },
                None => {},
            }
            c = c + 1;
        }
        assert(pwms@ =~= channel_pulses(self.channel_pwms@));
        PwmTick { disarmed_for_inactivity: inactive, output_enabled, pwms }
    }
}


// ---------------------------------------------------------------------------
// Laws of the output thread
// ---------------------------------------------------------------------------

/// The state after a sequence of events, applied in order.
pub open spec fn run(m: PwmModel, events: Seq<PwmEvent>) -> PwmModel
    decreases events.len(),
{
    if events.len() == 0 {
        m
    } else {
        step(run(m, events.drop_last()), events.last())
    }
}

/// The channel updates of a batch as events.
pub open spec fn update_events(updates: Seq<(u8, u64)>) -> Seq<PwmEvent> {
    updates.map_values(|u: (u8, u64)| PwmEvent::UpdateChannel(u.0, u.1))
}

/// The pulse widths a sequence of updates sets, later updates of a channel
/// replacing earlier ones.
pub open spec fn updates_map(updates: Seq<(u8, u64)>) -> Map<u8, u64>
    decreases updates.len(),
{
    if updates.len() == 0 {
        Map::empty()
    } else {
        updates_map(updates.drop_last()).insert(updates.last().0, updates.last().1)
    }
}

/// A stopped output: every channel at the stop pulse.
pub open spec fn all_stopped(pulses: Seq<u64>) -> bool {
    pulses.len() == PWM_CHANNELS && forall|c: int|
        0 <= c < PWM_CHANNELS ==> #[trigger] pulses[c] == STOP_PULSE_MICROS
}

/// A disarmed robot drives nothing: whenever the periodic decision leaves the
/// robot disarmed, the output stage is off and every channel is at the stop
/// pulse.
pub proof fn law_disarmed_outputs_stop(m: PwmModel, inactive: bool)
    requires
        tick_model(m, inactive).armed == Armed::Disarmed,
    ensures
        all_stopped(channel_pulses(tick_model(m, inactive).active)),
{
}

/// When no batch has completed for too long, the robot is disarmed and every
/// channel stops, whatever state it was in.
pub proof fn law_inactivity_stops_outputs(m: PwmModel)
    ensures
        tick_model(m, true).armed == Armed::Disarmed,
        all_stopped(channel_pulses(tick_model(m, true).active)),
{
}

/// While the robot is armed and active, the periodic decision changes nothing.
pub proof fn law_active_tick_keeps_state(m: PwmModel)
    requires
        m.armed == Armed::Armed,
    ensures
        tick_model(m, false) == m,
{
}

/// Channel updates that arrive outside a batch are ignored.
pub proof fn law_update_outside_batch_ignored(m: PwmModel, channel: u8, pwm: u64)
    requires
        !m.batch_started,
    ensures
        step(m, PwmEvent::UpdateChannel(channel, pwm)) == m,
{
}

/// A shutdown of the running thread disarms the robot, so the following output
/// decision stops every channel.
pub proof fn law_shutdown_stops_outputs(m: PwmModel, inactive: bool)
    requires
        !m.shutdown,
    ensures
        step(m, PwmEvent::Shutdown).shutdown,
        all_stopped(channel_pulses(tick_model(step(m, PwmEvent::Shutdown), inactive).active)),
{
}

/// Once the thread is shut down, no sequence of events changes its state.
pub proof fn law_shutdown_is_final(m: PwmModel, events: Seq<PwmEvent>)
    requires
        m.shutdown,
    ensures
        run(m, events) == m,
    decreases events.len(),
{
    if events.len() > 0 {
        law_shutdown_is_final(m, events.drop_last());
    }
}

proof fn lemma_run_updates(m: PwmModel, updates: Seq<(u8, u64)>)
    requires
        m.batch_started,
        !m.shutdown,
    ensures
        run(m, update_events(updates)) == (PwmModel {
            pending: m.pending.union_prefer_right(updates_map(updates)),
            ..m
        }),
    decreases updates.len(),
{
    if updates.len() == 0 {
        assert(update_events(updates) =~= Seq::<PwmEvent>::empty());
        assert(m.pending.union_prefer_right(Map::empty()) =~= m.pending);
    } else {
        let init = updates.drop_last();
        lemma_run_updates(m, init);
        assert(update_events(updates).drop_last() =~= update_events(init));
        let u = updates.last();
        assert(update_events(updates).last() == PwmEvent::UpdateChannel(u.0, u.1));
        assert(m.pending.union_prefer_right(updates_map(init)).insert(u.0, u.1)
            =~= m.pending.union_prefer_right(updates_map(updates)));
    }
}

proof fn lemma_run_append(m: PwmModel, a: Seq<PwmEvent>, b: Seq<PwmEvent>)
    ensures
        run(m, a + b) == run(run(m, a), b),
    decreases b.len(),
{
    if b.len() == 0 {
        assert(a + b =~= a);
    } else {
        lemma_run_append(m, a, b.drop_last());
        assert((a + b).drop_last() =~= a + b.drop_last());
        assert((a + b).last() == b.last());
    }
}

/// A complete batch (arm, channel updates, completion) arms the robot and makes
/// the batch's pulse widths, and only those, the active outputs, whatever the
/// state of the running thread before.
pub proof fn law_complete_batch_takes_effect(m: PwmModel, updates: Seq<(u8, u64)>)
    requires
        !m.shutdown,
    ensures
        ({
            let events = seq![PwmEvent::Arm(Armed::Armed)] + update_events(updates) + seq![
                PwmEvent::BatchComplete,
            ];
            let after = run(m, events);
            &&& after.armed == Armed::Armed
            &&& !after.batch_started
            &&& after.active == updates_map(updates)
            &&& after.pending == Map::<u8, u64>::empty()
        }),
{
    let arm = seq![PwmEvent::Arm(Armed::Armed)];
    let done = seq![PwmEvent::BatchComplete];
    let ups = update_events(updates);
    lemma_run_append(m, arm + ups, done);
    lemma_run_append(m, arm, ups);
    assert(arm.drop_last() =~= Seq::<PwmEvent>::empty());
    assert(run(m, arm.drop_last()) == m);
    assert(arm.last() == PwmEvent::Arm(Armed::Armed));
    let armed = run(m, arm);
    assert(armed == step(m, PwmEvent::Arm(Armed::Armed)));
    lemma_run_updates(armed, updates);
    assert(Map::<u8, u64>::empty().union_prefer_right(updates_map(updates)) =~= updates_map(
        updates,
    ));
    assert(done.drop_last() =~= Seq::<PwmEvent>::empty());
    let mid = run(armed, ups);
    assert(run(mid, done.drop_last()) == mid);
    assert(done.last() == PwmEvent::BatchComplete);
    assert(run(mid, done) == step(mid, PwmEvent::BatchComplete));
}

/// Disarming abandons the batch in progress: a completion marker after it
/// changes nothing.
pub proof fn law_disarm_abandons_batch(m: PwmModel)
    ensures
        step(step(m, PwmEvent::Arm(Armed::Disarmed)), PwmEvent::BatchComplete) == step(
            m,
            PwmEvent::Arm(Armed::Disarmed),
        ),
{
}


// ---------------------------------------------------------------------------
// The control loop's side: one batch per frame
// ---------------------------------------------------------------------------

/// A pulse width assigned by the control loop: robot, channel, microseconds.
pub type ChannelSignal = (u64, u8, u64);

/// Keeps the signals of `robot`.
pub open spec fn of_robot(robot: u64) -> spec_fn(ChannelSignal) -> bool {
    |s: ChannelSignal| s.0 == robot
}

/// The channel update a signal carries.
pub open spec fn signal_update() -> spec_fn(ChannelSignal) -> (u8, u64) {
    |s: ChannelSignal| (s.1, s.2)
}

/// The channel updates that belong to `robot`, in order.
pub open spec fn robot_updates(robot: u64, signals: Seq<ChannelSignal>) -> Seq<(u8, u64)> {
    signals.filter(of_robot(robot)).map_values(signal_update())
}

/// The batch the control loop sends each frame: the robot's armed state, the
/// pulse width of each of the robot's channels, and the completion marker.
pub open spec fn spec_batch_events(armed: Armed, robot: u64, signals: Seq<ChannelSignal>) -> Seq<
    PwmEvent,
> {
    seq![PwmEvent::Arm(armed)] + update_events(robot_updates(robot, signals)) + seq![
        PwmEvent::BatchComplete,
    ]
}

/// The batch the control loop sends for `robot` this frame.
pub fn batch_events(armed: Armed, robot: u64, signals: &Vec<ChannelSignal>) -> (events: Vec<
    PwmEvent,
>)
    ensures
        events@ == spec_batch_events(armed, robot, signals@),
{
    let ghost keep = of_robot(robot);
    let mut events: Vec<PwmEvent> = Vec::new();
    events.push(PwmEvent::Arm(armed));
    let mut i: usize = 0;
    while i < signals.len()
        invariant
            i <= signals@.len(),
            keep == of_robot(robot),
            events@ == seq![PwmEvent::Arm(armed)] + update_events(
                signals@.take(i as int).filter(keep).map_values(signal_update()),
            ),
        decreases signals@.len() - i,
    {
        let (r, channel, micros) = signals[i];
        let ghost before = events@;
        proof {
            assert(signals@.take(i + 1) =~= signals@.take(i as int).push(signals@[i as int]));
            signals@.take(i as int).lemma_filter_push(signals@[i as int], keep);
        }
        if r == robot {
            events.push(PwmEvent::UpdateChannel(channel, micros));
            proof {
                let f = signals@.take(i as int).filter(keep);
                let g = signal_update();
                assert(f.push(signals@[i as int]).map_values(g) =~= f.map_values(g).push(
                    (channel, micros),
                ));
                assert(update_events(f.map_values(g).push((channel, micros))) =~= update_events(
                    f.map_values(g),
                ).push(PwmEvent::UpdateChannel(channel, micros)));
                assert(events@ =~= seq![PwmEvent::Arm(armed)] + update_events(
                    f.push(signals@[i as int]).map_values(g),
                ));
            }
        }
        i = i + 1;
    }
    events.push(PwmEvent::BatchComplete);
    proof {
        assert(signals@.take(i as int) =~= signals@);
        assert(events@ =~= spec_batch_events(armed, robot, signals@));
    }
    events
}

/// A frame of the armed control loop makes exactly the robot's own pulse widths
/// active (later values for a channel replacing earlier ones), whatever the
/// running output thread's state before.
pub proof fn law_armed_frame_drives_robot_channels(
    m: PwmModel,
    robot: u64,
    signals: Seq<ChannelSignal>,
)
    requires
        !m.shutdown,
    ensures
        run(m, spec_batch_events(Armed::Armed, robot, signals)).active == updates_map(
            robot_updates(robot, signals),
        ),
        run(m, spec_batch_events(Armed::Armed, robot, signals)).armed == Armed::Armed,
{
    law_complete_batch_takes_effect(m, robot_updates(robot, signals));
}

proof fn lemma_run_ignored_updates(m: PwmModel, updates: Seq<(u8, u64)>)
    requires
        !m.batch_started,
    ensures
        run(m, update_events(updates)) == m,
    decreases updates.len(),
{
    if updates.len() > 0 {
        lemma_run_ignored_updates(m, updates.drop_last());
        assert(update_events(updates).drop_last() =~= update_events(updates.drop_last()));
    } else {
        assert(update_events(updates) =~= Seq::<PwmEvent>::empty());
    }
}

/// A frame of the disarmed control loop leaves the running thread's robot
/// disarmed and changes no output: whatever pulse widths it carries are ignored.
pub proof fn law_disarmed_frame_changes_no_output(
    m: PwmModel,
    robot: u64,
    signals: Seq<ChannelSignal>,
)
    requires
        !m.shutdown,
    ensures
        run(m, spec_batch_events(Armed::Disarmed, robot, signals)).armed == Armed::Disarmed,
        run(m, spec_batch_events(Armed::Disarmed, robot, signals)).active == m.active,
{
    let arm = seq![PwmEvent::Arm(Armed::Disarmed)];
    let done = seq![PwmEvent::BatchComplete];
    let ups = update_events(robot_updates(robot, signals));
    lemma_run_append(m, arm + ups, done);
    lemma_run_append(m, arm, ups);
    assert(arm.drop_last() =~= Seq::<PwmEvent>::empty());
    assert(run(m, arm.drop_last()) == m);
    assert(arm.last() == PwmEvent::Arm(Armed::Disarmed));
    let disarmed = run(m, arm);
    lemma_run_ignored_updates(disarmed, robot_updates(robot, signals));
    assert(done.drop_last() =~= Seq::<PwmEvent>::empty());
    assert(run(disarmed, done.drop_last()) == disarmed);
    assert(done.last() == PwmEvent::BatchComplete);
}

} // verus!
