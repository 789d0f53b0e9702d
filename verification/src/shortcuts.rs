//! Account-table shortcuts and the auto-type key chord.
//!
//! The window toolkit delivers input events and the operating system delivers
//! keyboard messages; the application turns each into the plain values below
//! and this module decides what happens to them.

use vstd::prelude::*;

verus! {

/// The modifier keys held with a key press.
#[derive(Clone, Copy, Debug, PartialEq, Eq, Structural)]
pub struct Modifiers {
    pub alt: bool,
    pub ctrl: bool,
    pub shift: bool,
    pub mac_cmd: bool,
    pub command: bool,
}

impl Modifiers {
    /// No modifier held.
    pub fn none() -> (r: Modifiers)
        ensures
            r.is_none_spec(),
    {
        Modifiers { alt: false, ctrl: false, shift: false, mac_cmd: false, command: false }
    }

    /// Alt alone.
    pub fn alt() -> (r: Modifiers)
        ensures
            r == (Modifiers { alt: true, ctrl: false, shift: false, mac_cmd: false, command: false }),
    {
        Modifiers { alt: true, ctrl: false, shift: false, mac_cmd: false, command: false }
    }

    /// Ctrl alone.
    pub fn ctrl() -> (r: Modifiers)
        ensures
            r == (Modifiers { alt: false, ctrl: true, shift: false, mac_cmd: false, command: false }),
    {
        Modifiers { alt: false, ctrl: true, shift: false, mac_cmd: false, command: false }
    }

    /// Shift alone.
    pub fn shift() -> (r: Modifiers)
        ensures
            r == (Modifiers { alt: false, ctrl: false, shift: true, mac_cmd: false, command: false }),
    {
        Modifiers { alt: false, ctrl: false, shift: true, mac_cmd: false, command: false }
    }

    /// The modifiers of both.
    pub fn plus(self, rhs: Modifiers) -> (r: Modifiers)
        ensures
            r.alt == (self.alt || rhs.alt),
            r.ctrl == (self.ctrl || rhs.ctrl),
            r.shift == (self.shift || rhs.shift),
            r.mac_cmd == (self.mac_cmd || rhs.mac_cmd),
            r.command == (self.command || rhs.command),
    {
        Modifiers {
            alt: self.alt || rhs.alt,
            ctrl: self.ctrl || rhs.ctrl,
            shift: self.shift || rhs.shift,
            mac_cmd: self.mac_cmd || rhs.mac_cmd,
            command: self.command || rhs.command,
        }
    }

    pub open spec fn is_none_spec(self) -> bool {
        !self.alt && !self.ctrl && !self.shift && !self.mac_cmd && !self.command
    }

    /// Whether no modifier is held.
    pub fn is_none(&self) -> (b: bool)
        ensures
            b == self.is_none_spec(),
    {
        !self.alt && !self.ctrl && !self.shift && !self.mac_cmd && !self.command
    }
}

/// What the account table does with the input of one frame.
#[derive(Clone, Copy, Debug, PartialEq, Eq, Structural)]
pub struct TableActions {
    pub copy: bool,
    pub delete: bool,
}

impl Default for TableActions {
    fn default() -> (r: Self)
        ensures
            !r.copy && !r.delete,
    {
        TableActions { copy: false, delete: false }
    }
}

/// An input event as the account table sees it.
#[derive(Clone, Copy, Debug, PartialEq, Eq, Structural)]
pub enum EventKind {
    /// The copy command (Ctrl+C arrives as this, not as a key press).
    Copy,
    /// A key event; `delete` tells whether the key is Delete.
    Key { delete: bool, pressed: bool, repeat: bool, modifiers: Modifiers },
    /// Anything else.
    Other,
}

/// An input event with the position it had in the frame's event list, so the
/// caller can find it again.
#[derive(Clone, Copy, Debug, PartialEq, Eq, Structural)]
pub struct InputEvent {
    pub id: usize,
    pub kind: EventKind,
}

/// The events that the focused table takes: the copy command and a press of
/// Delete with no modifier held.
pub open spec fn taken_by_table(kind: EventKind) -> bool {
    match kind {
        EventKind::Copy => true,
        EventKind::Key { delete, pressed, repeat, modifiers } => delete && pressed
            && modifiers.is_none_spec(),
        EventKind::Other => false,
    }
}

/// A fresh (not repeated) press of Delete with no modifier held.
pub open spec fn deletes(kind: EventKind) -> bool {
    match kind {
        EventKind::Key { delete, pressed, repeat, modifiers } => delete && pressed && !repeat
            && modifiers.is_none_spec(),
        _ => false,
    }
}

/// The events that the focused table leaves to the other widgets, in order.
pub open spec fn left_by_table(s: Seq<InputEvent>) -> Seq<InputEvent>
    decreases s.len(),
{
    if s.len() == 0 {
        s
    } else if taken_by_table(s.last().kind) {
        left_by_table(s.drop_last())
    } else {
        left_by_table(s.drop_last()).push(s.last())
    }
}

/// Takes the table's events out of the frame's events when the table has the
/// focus, and says what they ask for. Without the focus nothing is taken, so
/// text fields keep their own copy and delete.
pub fn take_table_actions(events: &mut Vec<InputEvent>, table_has_focus: bool) -> (r: TableActions)
    ensures
        !table_has_focus ==> final(events)@ == old(events)@ && !r.copy && !r.delete,
        table_has_focus ==> final(events)@ == left_by_table(old(events)@),
        table_has_focus ==> (r.copy <==> exists|i: int|
            0 <= i < old(events)@.len() && (#[trigger] old(events)@[i]).kind is Copy),
        table_has_focus ==> (r.delete <==> exists|i: int|
            0 <= i < old(events)@.len() && deletes((#[trigger] old(events)@[i]).kind)),
{
    if !table_has_focus {
        return TableActions::default();
    }
    let mut actions = TableActions { copy: false, delete: false };
    let mut kept: Vec<InputEvent> = Vec::new();
    let n = events.len();
    let mut i: usize = 0;
    while i < n
        invariant
            n == events@.len(),
            events@ == old(events)@,
            i <= n,
            kept@ == left_by_table(events@.take(i as int)),
            actions.copy <==> exists|j: int| 0 <= j < i && (#[trigger] events@[j]).kind is Copy,
            actions.delete <==> exists|j: int| 0 <= j < i && deletes((#[trigger] events@[j]).kind),
        decreases n - i,
    {
        let e = events[i];
        let ghost prefix = events@.take((i + 1) as int);
        assert(prefix.drop_last() =~= events@.take(i as int));
        assert(prefix.last() == e);
        match e.kind {
            EventKind::Copy => {
                actions.copy = true;
            },
            EventKind::Key { delete, pressed, repeat, modifiers } => {
                if delete && pressed && modifiers.is_none() {
                    if !repeat {
                        actions.delete = true;
                    }
                } else {
                    kept.push(e);
                }
            },
            EventKind::Other => {
                kept.push(e);
            },
        }
        i = i + 1;
    }
    assert(events@.take(n as int) =~= events@);
    *events = kept;
    actions
}

/// What to do with one press or release of V.
#[derive(Clone, Copy, Debug, PartialEq, Eq, Structural)]
pub struct ChordAction {
    /// Swallow the key message, so no other handler sees it.
    pub consume: bool,
    /// Start auto-typing.
    pub trigger: bool,
}

impl Default for ChordAction {
    fn default() -> (r: Self)
        ensures
            !r.consume && !r.trigger,
    {
        ChordAction { consume: false, trigger: false }
    }
}

/// The auto-type chord, Ctrl+Shift+V: a fresh press of V with Ctrl and Shift
/// held, and neither Alt nor the Command key.
pub open spec fn is_chord(repeat: bool, modifiers: Modifiers) -> bool {
    !repeat && modifiers.ctrl && modifiers.shift && !modifiers.alt && !modifiers.mac_cmd
}

/// One step of the chord latch: from whether a chord is being held, and a
/// press or release of V, to whether one is held afterwards and the action.
pub open spec fn chord_step(captured: bool, pressed: bool, repeat: bool, modifiers: Modifiers) -> (
    bool,
    ChordAction,
) {
    if !pressed {
        (false, ChordAction { consume: captured, trigger: false })
    } else if captured && repeat {
        (true, ChordAction { consume: true, trigger: false })
    } else if is_chord(repeat, modifiers) {
        (true, ChordAction { consume: true, trigger: true })
    } else {
        (false, ChordAction { consume: false, trigger: false })
    }
}

/// The latch that recognises the auto-type chord among the presses of V.
#[derive(Debug)]
pub struct AutoTypeChord {
    captured: bool,
}

impl Default for AutoTypeChord {
    fn default() -> (r: Self)
        ensures
            !r.is_captured(),
    {
        AutoTypeChord { captured: false }
    }
}

impl AutoTypeChord {
    /// Whether a chord has been recognised and its key is still down.
    pub closed spec fn is_captured(&self) -> bool {
        self.captured
    }

    /// Handles a press (`pressed`) or release of V. A recognised chord is
    /// swallowed with its repeats and its release; a fresh press also clears a
    /// latch whose release went to another window.
    pub fn on_v_key(&mut self, pressed: bool, repeat: bool, modifiers: Modifiers) -> (r: ChordAction)
        ensures
            (final(self).is_captured(), r) == chord_step(old(self).is_captured(), pressed, repeat, modifiers),
    {
        if !pressed {
            let consume = self.captured;
            self.captured = false;
            return ChordAction { consume, trigger: false };
        }
        if self.captured && repeat {
            return ChordAction { consume: true, trigger: false };
        }
        self.captured = false;
        if !repeat && modifiers.ctrl && modifiers.shift && !modifiers.alt && !modifiers.mac_cmd {
            self.captured = true;
            return ChordAction { consume: true, trigger: true };
        }
        ChordAction { consume: false, trigger: false }
    }
}

/// The latch state and actions after a run of V events, each
/// `(pressed, repeat, modifiers)`.
pub open spec fn chord_run(captured: bool, events: Seq<(bool, bool, Modifiers)>) -> (bool, Seq<ChordAction>)
    decreases events.len(),
{
    if events.len() == 0 {
        (captured, Seq::empty())
    } else {
        let (c, actions) = chord_run(captured, events.drop_last());
        let e = events.last();
        let (c2, a) = chord_step(c, e.0, e.1, e.2);
        (c2, actions.push(a))
    }
}

/// Only the chord itself starts auto-typing: a repeat, a release, or a press
/// with other modifiers never does.
pub proof fn lemma_trigger_only_on_chord(captured: bool, pressed: bool, repeat: bool, modifiers: Modifiers)
    ensures
        chord_step(captured, pressed, repeat, modifiers).1.trigger <==> (pressed && is_chord(repeat, modifiers)),
{
}

/// Once a chord is recognised, any number of repeats of the held key, whatever
/// the modifiers are by then, are swallowed and start nothing; the release
/// that ends them is swallowed too and rearms the latch.
pub proof fn lemma_held_chord_triggers_once(repeats: Seq<Modifiers>, release: Modifiers)
    ensures
        ({
            let events = repeats.map_values(|m: Modifiers| (true, true, m)).push((false, false, release));
            let (c, actions) = chord_run(true, events);
            &&& !c
            &&& actions.len() == repeats.len() + 1
            &&& forall|i: int| 0 <= i < actions.len() ==> (#[trigger] actions[i]) == (ChordAction { consume: true, trigger: false })
        }),
{
    let held = repeats.map_values(|m: Modifiers| (true, true, m));
    lemma_repeats_stay_captured(repeats);
    let events = held.push((false, false, release));
    assert(events.drop_last() =~= held);
}

proof fn lemma_repeats_stay_captured(repeats: Seq<Modifiers>)
    ensures
        ({
            let (c, actions) = chord_run(true, repeats.map_values(|m: Modifiers| (true, true, m)));
            &&& c
            &&& actions.len() == repeats.len()
            &&& forall|i: int| 0 <= i < actions.len() ==> (#[trigger] actions[i]) == (ChordAction { consume: true, trigger: false })
        }),
    decreases repeats.len(),
{
    if repeats.len() > 0 {
        lemma_repeats_stay_captured(repeats.drop_last());
        assert(repeats.map_values(|m: Modifiers| (true, true, m)).drop_last() =~= repeats.drop_last().map_values(
            |m: Modifiers| (true, true, m),
        ));
    } else {
        assert(repeats.map_values(|m: Modifiers| (true, true, m)) =~= Seq::<(bool, bool, Modifiers)>::empty());
    }
}

/// Without a recognised chord, a press of V that is not the chord (an
/// ordinary paste among them) and its release pass through untouched.
pub proof fn lemma_other_presses_pass_through(repeat: bool, modifiers: Modifiers, release: Modifiers)
    requires
        !is_chord(repeat, modifiers),
    ensures
        chord_step(false, true, repeat, modifiers) == (false, ChordAction { consume: false, trigger: false }),
        chord_step(false, false, false, release) == (false, ChordAction { consume: false, trigger: false }),
{
}

/// A fresh press always starts from a clear latch: if it is the chord it
/// triggers, whether or not the previous chord's release was seen.
pub proof fn lemma_fresh_press_rearms(captured: bool, modifiers: Modifiers)
    ensures
        chord_step(captured, true, false, modifiers) == chord_step(false, true, false, modifiers),
{
}

/// Out of focus the hook passes no modifiers on, so no press of V is the
/// chord there: no auto-type request starts while another window has the
/// focus.
pub proof fn lemma_no_chord_without_modifiers(captured: bool, pressed: bool, repeat: bool)
    ensures
        !chord_step(
            captured,
            pressed,
            repeat,
            Modifiers { alt: false, ctrl: false, shift: false, mac_cmd: false, command: false },
        ).1.trigger,
{
}

/// The part of the application's keyboard hook that decides: the chord latch
/// and whether an auto-type request is waiting.
#[derive(Debug)]
pub struct AutoTypeHook {
    chord: AutoTypeChord,
    requested: bool,
}

/// Whether a keyboard message's flags describe a key press: bit 31 (the
/// transition state) is clear.
pub open spec fn flags_pressed(flags: u32) -> bool {
    flags & 0x8000_0000u32 == 0
}

/// Whether a keyboard message's flags describe a repeat: bit 30 (the previous
/// key state) is set.
pub open spec fn flags_repeat(flags: u32) -> bool {
    flags & 0x4000_0000u32 != 0
}

impl AutoTypeHook {
    pub closed spec fn is_captured(&self) -> bool {
        self.chord.is_captured()
    }

    /// Whether an auto-type request is waiting.
    pub closed spec fn is_requested(&self) -> bool {
        self.requested
    }

    /// A hook with a clear latch and no request.
    pub fn new() -> (r: Self)
        ensures
            !r.is_captured(),
            !r.is_requested(),
    {
        AutoTypeHook { chord: AutoTypeChord::default(), requested: false }
    }

    /// Handles one keyboard message: `removed` tells whether it is being taken
    /// from the queue (not merely peeked at), `is_v` whether it is for the V
    /// key, `flags` its low 32 flag bits, `focused` whether the application's
    /// window has the focus, and `modifiers` the modifiers that were held with
    /// it. Returns whether the message is swallowed. Out of focus no chord is
    /// recognised and a waiting request is dropped, but a chord captured
    /// before the focus left is still swallowed to its release.
    pub fn handle_key_message(&mut self, removed: bool, is_v: bool, flags: u32, focused: bool, modifiers: Modifiers) -> (consumed: bool)
        ensures
            !(removed && is_v) ==> !consumed && final(self).is_captured() == old(self).is_captured()
                && final(self).is_requested() == old(self).is_requested(),
            removed && is_v ==> ({
                let m = if focused { modifiers } else { Modifiers { alt: false, ctrl: false, shift: false, mac_cmd: false, command: false } };
                let (c, a) = chord_step(old(self).is_captured(), flags_pressed(flags), flags_repeat(flags), m);
                &&& final(self).is_captured() == c
                &&& consumed == a.consume
                &&& final(self).is_requested() == (a.trigger || (focused && old(self).is_requested()))
            }),
    {
        if !removed || !is_v {
            return false;
        }
        if !focused {
            self.requested = false;
        }
        let m = if focused { modifiers } else { Modifiers::none() };
        let pressed = flags & 0x8000_0000u32 == 0;
        let repeat = flags & 0x4000_0000u32 != 0;
        let action = self.chord.on_v_key(pressed, repeat, m);
        if action.trigger {
            self.requested = true;
        }
        action.consume
    }

    /// Whether an auto-type request is waiting.
    pub fn has_request(&self) -> (b: bool)
        ensures
            b == self.is_requested(),
    {
        self.requested
    }

    /// Takes the waiting request: true when one was waiting and the window
    /// still has the focus. No request waits afterwards.
    pub fn take_requested(&mut self, focused: bool) -> (r: bool)
        ensures
            r == (old(self).is_requested() && focused),
            !final(self).is_requested(),
            final(self).is_captured() == old(self).is_captured(),
    {
        let requested = self.requested;
        self.requested = false;
        requested && focused
    }
}

} // verus!
