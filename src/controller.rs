use vstd::prelude::*;

verus! {

/// The key went up.
pub const RELEASED: i32 = 0;

/// The key went down.
pub const PRESSED: i32 = 1;

/// The key is held and the keyboard repeats it.
pub const AUTOREPEAT: i32 = 2;

/// The microphone state owned by the controller.
#[derive(Clone, Copy, Debug, PartialEq, Eq, Structural)]
pub enum MuteState {
    Muted,
    Unmuted,
}

/// A request for the mute collaborator.
#[derive(Clone, Copy, Debug, PartialEq, Eq, Structural)]
pub enum MuteCommand {
    Mute,
    Unmute,
}

impl MuteCommand {
    /// The desired mute flag that the collaborator is invoked with.
    pub fn is_mute(self) -> (r: bool)
        ensures
            r == (self == MuteCommand::Mute),
    {
        match self {
            MuteCommand::Mute => true,
            MuteCommand::Unmute => false,
        }
    }
}

/// A key report: the key's code and its tri-state value
/// (0 released, 1 pressed, 2 autorepeat).
#[derive(Clone, Copy, Debug, PartialEq, Eq, Structural)]
pub struct KeyEvent {
    pub code: u16,
    pub value: i32,
}

/// A raw input report of any category, as a device delivers it.
#[derive(Clone, Copy, Debug, PartialEq, Eq, Structural)]
pub struct RawEvent {
    pub kind: u16,
    pub code: u16,
    pub value: i32,
}

/// The side effect that one key report asks for.
pub open spec fn key_effect(target: u16, ev: KeyEvent) -> Option<MuteCommand> {
    if ev.code != target {
        None
    } else if ev.value == PRESSED {
        Some(MuteCommand::Unmute)
    } else if ev.value == RELEASED {
        Some(MuteCommand::Mute)
    } else {
        None
    }
}

/// The state after one key report.
pub open spec fn next_state(s: MuteState, target: u16, ev: KeyEvent) -> MuteState {
    match key_effect(target, ev) {
        Some(MuteCommand::Unmute) => MuteState::Unmuted,
        Some(MuteCommand::Mute) => MuteState::Muted,
        None => s,
    }
}

/// The state after a sequence of key reports, starting from `s`.
pub open spec fn state_after(s: MuteState, target: u16, evs: Seq<KeyEvent>) -> MuteState
    decreases evs.len(),
{
    if evs.len() == 0 {
        s
    } else {
        next_state(state_after(s, target, evs.drop_last()), target, evs.last())
    }
}

/// The side effect of one report as a sequence of zero or one commands.
pub open spec fn option_seq(c: Option<MuteCommand>) -> Seq<MuteCommand> {
    match c {
        Some(m) => seq![m],
        None => Seq::empty(),
    }
}

/// The side effects, in order, that a sequence of key reports asks for.
pub open spec fn effects_of(target: u16, evs: Seq<KeyEvent>) -> Seq<MuteCommand>
    decreases evs.len(),
{
    if evs.len() == 0 {
        Seq::empty()
    } else {
        effects_of(target, evs.drop_last()) + option_seq(key_effect(target, evs.last()))
    }
}

/// The key reports among raw reports of any category, in order.
pub open spec fn key_events_of(raws: Seq<RawEvent>) -> Seq<KeyEvent>
    decreases raws.len(),
{
    if raws.len() == 0 {
        Seq::empty()
    } else {
        let rest = key_events_of(raws.drop_last());
        let r = raws.last();
        if r.kind == EV_KEY {
            rest.push(KeyEvent { code: r.code, value: r.value })
        } else {
            rest
        }
    }
}

/// Splitting a report sequence splits its side effects the same way.
pub proof fn lemma_effects_concat(target: u16, a: Seq<KeyEvent>, b: Seq<KeyEvent>)
    ensures
        effects_of(target, a + b) == effects_of(target, a) + effects_of(target, b),
    decreases b.len(),
{
    if b.len() == 0 {
        assert(a + b == a);
        assert(effects_of(target, a) + Seq::empty() == effects_of(target, a));
    } else {
        assert((a + b).drop_last() == a + b.drop_last());
        assert((a + b).last() == b.last());
        lemma_effects_concat(target, a, b.drop_last());
        let x = option_seq(key_effect(target, b.last()));
        assert(effects_of(target, a) + effects_of(target, b.drop_last()) + x
            == effects_of(target, a) + (effects_of(target, b.drop_last()) + x));
    }
}

/// Running a concatenation is running its parts one after the other.
pub proof fn lemma_state_concat(s: MuteState, target: u16, a: Seq<KeyEvent>, b: Seq<KeyEvent>)
    ensures
        state_after(s, target, a + b) == state_after(state_after(s, target, a), target, b),
    decreases b.len(),
{
    if b.len() == 0 {
        assert(a + b == a);
    } else {
        assert((a + b).drop_last() == a + b.drop_last());
        assert((a + b).last() == b.last());
        lemma_state_concat(s, target, a, b.drop_last());
    }
}

/// Reports that ask for no side effect (autorepeats, other keys) leave the
/// state alone and produce no side effect, however many there are.
pub proof fn lemma_quiet_reports(s: MuteState, target: u16, evs: Seq<KeyEvent>)
    requires
        forall|i: int| 0 <= i < evs.len() ==> key_effect(target, #[trigger] evs[i]) is None,
    ensures
        effects_of(target, evs) == Seq::<MuteCommand>::empty(),
        state_after(s, target, evs) == s,
    decreases evs.len(),
{
    if evs.len() > 0 {
        let init = evs.drop_last();
        assert forall|i: int| 0 <= i < init.len() implies key_effect(target, #[trigger] init[i]) is None by {
            assert(init[i] == evs[i]);
        }
        lemma_quiet_reports(s, target, init);
        assert(key_effect(target, evs[evs.len() - 1]) is None);
        assert(Seq::<MuteCommand>::empty() + Seq::<MuteCommand>::empty() == Seq::<MuteCommand>::empty());
    }
}

/// A press of the target key followed later by its release, with only
/// autorepeats and other keys in between, ends muted after exactly one
/// unmute and then one mute.
pub proof fn law_press_then_release(
    s: MuteState,
    target: u16,
    press: KeyEvent,
    between: Seq<KeyEvent>,
    release: KeyEvent,
)
    requires
        press.code == target,
        press.value == PRESSED,
        release.code == target,
        release.value == RELEASED,
        forall|i: int| 0 <= i < between.len() ==> key_effect(target, #[trigger] between[i]) is None,
    ensures
        effects_of(target, seq![press] + between + seq![release])
            == seq![MuteCommand::Unmute, MuteCommand::Mute],
        state_after(s, target, seq![press] + between + seq![release]) == MuteState::Muted,
{
    let p = seq![press];
    let r = seq![release];
    lemma_quiet_reports(MuteState::Unmuted, target, between);
    lemma_effects_concat(target, p, between);
    lemma_effects_concat(target, p + between, r);
    lemma_state_concat(s, target, p, between);
    lemma_state_concat(s, target, p + between, r);
    assert(p.drop_last() == Seq::<KeyEvent>::empty());
    assert(r.drop_last() == Seq::<KeyEvent>::empty());
    assert(p.last() == press);
    assert(effects_of(target, Seq::<KeyEvent>::empty()) == Seq::<MuteCommand>::empty());
    assert(key_effect(target, press) == Some(MuteCommand::Unmute));
    assert(key_effect(target, release) == Some(MuteCommand::Mute));
    assert(effects_of(target, p) == effects_of(target, p.drop_last()) + option_seq(key_effect(target, press)));
    assert(r.last() == release);
    assert(Seq::<MuteCommand>::empty() + seq![MuteCommand::Unmute] =~= seq![MuteCommand::Unmute]);
    assert(Seq::<MuteCommand>::empty() + seq![MuteCommand::Mute] =~= seq![MuteCommand::Mute]);
    assert(effects_of(target, p) == seq![MuteCommand::Unmute]);
    assert(effects_of(target, r) == seq![MuteCommand::Mute]);
    assert(seq![MuteCommand::Unmute] + Seq::<MuteCommand>::empty() =~= seq![MuteCommand::Unmute]);
    assert(seq![MuteCommand::Unmute] + seq![MuteCommand::Mute] =~= seq![MuteCommand::Unmute, MuteCommand::Mute]);
    assert(state_after(s, target, p) == MuteState::Unmuted);
    assert(state_after(MuteState::Unmuted, target, r) == MuteState::Muted);
}

/// An autorepeat report never produces a side effect nor changes the state.
pub proof fn law_autorepeat_is_inert(s: MuteState, target: u16, ev: KeyEvent)
    requires
        ev.value == AUTOREPEAT,
    ensures
        key_effect(target, ev) is None,
        next_state(s, target, ev) == s,
{
}

/// A report for any key other than the target never produces a side effect
/// nor changes the state, whatever its value.
pub proof fn law_other_keys_are_inert(s: MuteState, target: u16, ev: KeyEvent)
    requires
        ev.code != target,
    ensures
        key_effect(target, ev) is None,
        next_state(s, target, ev) == s,
{
}

/// A release of the target key mutes at once, whatever came before it and
/// from whichever device: presses are not counted per device.
pub proof fn law_release_mutes_at_once(
    s: MuteState,
    target: u16,
    before: Seq<KeyEvent>,
    release: KeyEvent,
)
    requires
        release.code == target,
        release.value == RELEASED,
    ensures
        state_after(s, target, before.push(release)) == MuteState::Muted,
        key_effect(target, release) == Some(MuteCommand::Mute),
{
    assert(before.push(release).drop_last() == before);
}

/// The category number of key reports in the kernel's input protocol.
pub const EV_KEY: u16 = 1;

/// Relies on evdev's `EventType::KEY`, the newtype over the kernel's `EV_KEY` (1).
#[verifier::external_body]
fn is_key_kind(kind: u16) -> (r: bool)
    ensures
        r == (kind == EV_KEY),
{
    evdev::EventType(kind) == evdev::EventType::KEY
}

pub struct ControllerView {
    pub target: u16,
    pub state: MuteState,
}

/// The push-to-talk state machine shared by all device listeners.
pub struct Controller {
    target: u16,
    state: MuteState,
}

impl View for Controller {
    type V = ControllerView;

    closed spec fn view(&self) -> ControllerView {
        ControllerView { target: self.target, state: self.state }
    }
}

impl Controller {
    /// A controller for `target`, starting muted.
    pub fn new(target: u16) -> (r: Controller)
        ensures
            r@ == (ControllerView { target, state: MuteState::Muted }),
    {
        Controller { target, state: MuteState::Muted }
    }

    pub fn target(&self) -> (r: u16)
        ensures
            r == self@.target,
    {
        self.target
    }

    pub fn state(&self) -> (r: MuteState)
        ensures
            r == self@.state,
    {
        self.state
    }

    /// Applies one key report; returns the side effect to perform, if any.
    pub fn handle_key(&mut self, ev: KeyEvent) -> (r: Option<MuteCommand>)
        ensures
            r == key_effect(old(self)@.target, ev),
            final(self)@ == (ControllerView {
                target: old(self)@.target,
                state: next_state(old(self)@.state, old(self)@.target, ev),
            }),
    {
        if ev.code != self.target {
            None
        } else if ev.value == PRESSED {
            self.state = MuteState::Unmuted;
            Some(MuteCommand::Unmute)
        } else if ev.value == RELEASED {
            self.state = MuteState::Muted;
            Some(MuteCommand::Mute)
        } else {
            None
        }
    }

    /// Applies a batch of raw reports from one device in order: reports of
    /// other categories are discarded, key reports go through `handle_key`.
    /// Returns the side effects to perform, in order.
    pub fn handle_batch(&mut self, events: &Vec<RawEvent>) -> (r: Vec<MuteCommand>)
        ensures
            r@ == effects_of(old(self)@.target, key_events_of(events@)),
            final(self)@ == (ControllerView {
                target: old(self)@.target,
                state: state_after(old(self)@.state, old(self)@.target, key_events_of(events@)),
            }),
    {
        let mut out: Vec<MuteCommand> = Vec::new();
        let mut i: usize = 0;
        while i < events.len()
            invariant
                i <= events@.len(),
                self@.target == old(self)@.target,
                out@ == effects_of(self@.target, key_events_of(events@.subrange(0, i as int))),
                self@.state == state_after(
                    old(self)@.state,
                    self@.target,
                    key_events_of(events@.subrange(0, i as int)),
                ),
            decreases events@.len() - i,
        {
            let raw = events[i];
            proof {
                let pre = events@.subrange(0, i as int);
                let post = events@.subrange(0, i + 1);
                assert(post.drop_last() == pre);
                assert(post.last() == raw);
            }
            if is_key_kind(raw.kind) {
                let ev = KeyEvent { code: raw.code, value: raw.value };
                let eff = self.handle_key(ev);
                proof {
                    let ks = key_events_of(events@.subrange(0, i as int));
                    assert(ks.push(ev).drop_last() == ks);
                }
                match eff {
                    Some(c) => out.push(c),
                    None => {},
                }
            }
            i = i + 1;
        }
        assert(events@.subrange(0, events@.len() as int) == events@);
        out
    }
}

} // verus!
