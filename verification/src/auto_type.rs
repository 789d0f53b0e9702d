//! The auto-type sequence: switch to the previous window with Alt+Tab, paste
//! the account ID, Tab, paste the password, Enter. The application performs
//! each step (waiting, the clipboard, synthetic key events) and reports
//! whether it succeeded; this module decides what comes next. A failed step
//! ends the run, but a key that was pressed always gets its release first.

use vstd::prelude::*;

verus! {

/// A key that the sequence presses.
#[derive(Clone, Copy, Debug, PartialEq, Eq, Structural)]
pub enum TypingKey {
    Alt,
    Tab,
    Ctrl,
    V,
    Enter,
}

/// One step of the sequence.
#[derive(Clone, Copy, Debug, PartialEq, Eq, Structural)]
pub enum TypingStep {
    /// Wait until the shortcut keys (Ctrl, Shift, V) are released.
    WaitForRelease,
    /// Put the account ID on the clipboard.
    CopyAccountId,
    /// Put the password on the clipboard.
    CopyPassword,
    /// Send a key-down event.
    Press(TypingKey),
    /// Send a key-up event.
    Release(TypingKey),
    /// Wait this many milliseconds.
    Pause(u64),
    /// The run is over; true when every step succeeded.
    Finished(bool),
}

/// What a failure of a step does.
#[derive(Clone, Copy, Debug, PartialEq, Eq, Structural)]
pub enum OnFailure {
    /// The run ends at once.
    Stop,
    /// Alt is released, then the run ends.
    ReleaseAltThenStop,
    /// Nothing: the step cannot fail in a way that matters.
    Ignore,
    /// The run goes on to the end of the group of key events, which are all sent.
    InGroup,
    /// The last event of a group: the run ends if it or any event of the group failed.
    EndGroup,
}

/// Ctrl+V, with every event sent even when an earlier one failed.
pub open spec fn paste_steps() -> Seq<(TypingStep, OnFailure)> {
    seq![
        (TypingStep::Press(TypingKey::Ctrl), OnFailure::InGroup),
        (TypingStep::Press(TypingKey::V), OnFailure::InGroup),
        (TypingStep::Release(TypingKey::V), OnFailure::InGroup),
        (TypingStep::Release(TypingKey::Ctrl), OnFailure::EndGroup),
    ]
}

/// The steps up to and including the Tab after the account ID.
pub open spec fn account_id_steps() -> Seq<(TypingStep, OnFailure)> {
    seq![
        (TypingStep::WaitForRelease, OnFailure::Stop),
        (TypingStep::CopyAccountId, OnFailure::Stop),
        (TypingStep::Press(TypingKey::Alt), OnFailure::Stop),
        (TypingStep::Pause(35), OnFailure::Ignore),
        (TypingStep::Press(TypingKey::Tab), OnFailure::ReleaseAltThenStop),
        (TypingStep::Pause(35), OnFailure::Ignore),
        (TypingStep::Release(TypingKey::Tab), OnFailure::InGroup),
        (TypingStep::Release(TypingKey::Alt), OnFailure::EndGroup),
        (TypingStep::Pause(400), OnFailure::Ignore),
    ] + paste_steps() + seq![
        (TypingStep::Pause(60), OnFailure::Ignore),
        (TypingStep::Press(TypingKey::Tab), OnFailure::InGroup),
        (TypingStep::Release(TypingKey::Tab), OnFailure::EndGroup),
    ]
}

/// The steps that enter the password.
pub open spec fn password_steps() -> Seq<(TypingStep, OnFailure)> {
    seq![
        (TypingStep::Pause(60), OnFailure::Ignore),
        (TypingStep::CopyPassword, OnFailure::Stop),
        (TypingStep::Pause(60), OnFailure::Ignore),
    ] + paste_steps()
}

/// The closing Enter.
pub open spec fn enter_steps() -> Seq<(TypingStep, OnFailure)> {
    seq![
        (TypingStep::Pause(60), OnFailure::Ignore),
        (TypingStep::Press(TypingKey::Enter), OnFailure::InGroup),
        (TypingStep::Release(TypingKey::Enter), OnFailure::EndGroup),
    ]
}

/// The whole sequence; the password part only where there is a password.
pub open spec fn typing_script(has_password: bool) -> Seq<(TypingStep, OnFailure)> {
    if has_password {
        account_id_steps() + password_steps() + enter_steps()
    } else {
        account_id_steps() + enter_steps()
    }
}

/// Where a run is: the step it is at, whether the current group of key
/// events has gone well so far, whether it is releasing Alt after a failed
/// Alt+Tab, and its result once it is over.
pub struct TypingState {
    pub has_password: bool,
    pub pc: nat,
    pub group_ok: bool,
    pub releasing_alt: bool,
    pub outcome: Option<bool>,
}

/// The state of a new run.
pub open spec fn typing_start(has_password: bool) -> TypingState {
    TypingState { has_password, pc: 0, group_ok: true, releasing_alt: false, outcome: None }
}

/// The step to perform in state `s`.
pub open spec fn current_step(s: TypingState) -> TypingStep {
    match s.outcome {
        Some(b) => TypingStep::Finished(b),
        None => if s.releasing_alt {
            TypingStep::Release(TypingKey::Alt)
        } else if s.pc < typing_script(s.has_password).len() {
            typing_script(s.has_password)[s.pc as int].0
        } else {
            TypingStep::Finished(true)
        },
    }
}

/// The state after the current step of `s` was performed, `ok` telling
/// whether it succeeded.
pub open spec fn typing_next(s: TypingState, ok: bool) -> TypingState {
    let script = typing_script(s.has_password);
    if s.outcome is Some {
        s
    } else if s.releasing_alt {
        TypingState { releasing_alt: false, outcome: Some(false), ..s }
    } else if s.pc >= script.len() {
        TypingState { outcome: Some(true), ..s }
    } else {
        let after = match script[s.pc as int].1 {
            OnFailure::Stop => if ok {
                TypingState { pc: s.pc + 1, ..s }
            } else {
                TypingState { outcome: Some(false), ..s }
            },
            OnFailure::ReleaseAltThenStop => if ok {
                TypingState { pc: s.pc + 1, ..s }
            } else {
                TypingState { releasing_alt: true, ..s }
            },
            OnFailure::Ignore => TypingState { pc: s.pc + 1, ..s },
            OnFailure::InGroup => TypingState { pc: s.pc + 1, group_ok: s.group_ok && ok, ..s },
            OnFailure::EndGroup => if s.group_ok && ok {
                TypingState { pc: s.pc + 1, group_ok: true, ..s }
            } else {
                TypingState { outcome: Some(false), ..s }
            },
        };
        if after.outcome is None && !after.releasing_alt && after.pc >= script.len() {
            TypingState { outcome: Some(true), ..after }
        } else {
            after
        }
    }
}

/// A run of the auto-type sequence.
#[derive(Debug)]
pub struct AutoTypeRun {
    has_password: bool,
    pc: usize,
    group_ok: bool,
    releasing_alt: bool,
    outcome: Option<bool>,
}

impl View for AutoTypeRun {
    type V = TypingState;

    closed spec fn view(&self) -> TypingState {
        TypingState {
            has_password: self.has_password,
            pc: self.pc as nat,
            group_ok: self.group_ok,
            releasing_alt: self.releasing_alt,
            outcome: self.outcome,
        }
    }
}

impl AutoTypeRun {
    /// A run never gets past the end of its script.
    #[verifier::type_invariant]
    spec fn within_script(&self) -> bool {
        self.pc <= typing_script(self.has_password).len()
    }
}

fn paste_step(i: usize) -> (r: (TypingStep, OnFailure))
    requires
        i < 4,
    ensures
        r == paste_steps()[i as int],
{
    match i {
        0 => (TypingStep::Press(TypingKey::Ctrl), OnFailure::InGroup),
        1 => (TypingStep::Press(TypingKey::V), OnFailure::InGroup),
        2 => (TypingStep::Release(TypingKey::V), OnFailure::InGroup),
        _ => (TypingStep::Release(TypingKey::Ctrl), OnFailure::EndGroup),
    }
}

fn enter_step(i: usize) -> (r: (TypingStep, OnFailure))
    requires
        i < 3,
    ensures
        r == enter_steps()[i as int],
{
    match i {
        0 => (TypingStep::Pause(60), OnFailure::Ignore),
        1 => (TypingStep::Press(TypingKey::Enter), OnFailure::InGroup),
        _ => (TypingStep::Release(TypingKey::Enter), OnFailure::EndGroup),
    }
}

fn account_id_step(i: usize) -> (r: (TypingStep, OnFailure))
    requires
        i < 16,
    ensures
        r == account_id_steps()[i as int],
{
    let ghost head = seq![
        (TypingStep::WaitForRelease, OnFailure::Stop),
        (TypingStep::CopyAccountId, OnFailure::Stop),
        (TypingStep::Press(TypingKey::Alt), OnFailure::Stop),
        (TypingStep::Pause(35), OnFailure::Ignore),
        (TypingStep::Press(TypingKey::Tab), OnFailure::ReleaseAltThenStop),
        (TypingStep::Pause(35), OnFailure::Ignore),
        (TypingStep::Release(TypingKey::Tab), OnFailure::InGroup),
        (TypingStep::Release(TypingKey::Alt), OnFailure::EndGroup),
        (TypingStep::Pause(400), OnFailure::Ignore),
    ];
    let ghost tail = seq![
        (TypingStep::Pause(60), OnFailure::Ignore),
        (TypingStep::Press(TypingKey::Tab), OnFailure::InGroup),
        (TypingStep::Release(TypingKey::Tab), OnFailure::EndGroup),
    ];
    assert(account_id_steps() == head + paste_steps() + tail);
    if i < 9 {
        assert(account_id_steps()[i as int] == head[i as int]);
        match i {
            0 => (TypingStep::WaitForRelease, OnFailure::Stop),
            1 => (TypingStep::CopyAccountId, OnFailure::Stop),
            2 => (TypingStep::Press(TypingKey::Alt), OnFailure::Stop),
            3 => (TypingStep::Pause(35), OnFailure::Ignore),
            4 => (TypingStep::Press(TypingKey::Tab), OnFailure::ReleaseAltThenStop),
            5 => (TypingStep::Pause(35), OnFailure::Ignore),
            6 => (TypingStep::Release(TypingKey::Tab), OnFailure::InGroup),
            7 => (TypingStep::Release(TypingKey::Alt), OnFailure::EndGroup),
            _ => (TypingStep::Pause(400), OnFailure::Ignore),
        }
    } else if i < 13 {
        assert(account_id_steps()[i as int] == paste_steps()[i - 9]);
        paste_step(i - 9)
    } else {
        assert(account_id_steps()[i as int] == tail[i - 13]);
        match i {
            13 => (TypingStep::Pause(60), OnFailure::Ignore),
            14 => (TypingStep::Press(TypingKey::Tab), OnFailure::InGroup),
            _ => (TypingStep::Release(TypingKey::Tab), OnFailure::EndGroup),
        }
    }
}

fn password_step(i: usize) -> (r: (TypingStep, OnFailure))
    requires
        i < 7,
    ensures
        r == password_steps()[i as int],
{
    let ghost head = seq![
        (TypingStep::Pause(60), OnFailure::Ignore),
        (TypingStep::CopyPassword, OnFailure::Stop),
        (TypingStep::Pause(60), OnFailure::Ignore),
    ];
    assert(password_steps() == head + paste_steps());
    if i < 3 {
        assert(password_steps()[i as int] == head[i as int]);
        match i {
            0 => (TypingStep::Pause(60), OnFailure::Ignore),
            1 => (TypingStep::CopyPassword, OnFailure::Stop),
            _ => (TypingStep::Pause(60), OnFailure::Ignore),
        }
    } else {
        assert(password_steps()[i as int] == paste_steps()[i - 3]);
        paste_step(i - 3)
    }
}

fn script_len(has_password: bool) -> (n: usize)
    ensures
        n == typing_script(has_password).len(),
{
    if has_password {
        26
    } else {
        19
    }
}

fn script_step(has_password: bool, i: usize) -> (r: (TypingStep, OnFailure))
    requires
        i < typing_script(has_password).len(),
    ensures
        r == typing_script(has_password)[i as int],
{
    if i < 16 {
        assert(typing_script(has_password)[i as int] == account_id_steps()[i as int]);
        account_id_step(i)
    } else if has_password && i < 23 {
        assert(typing_script(has_password)[i as int] == password_steps()[i - 16]);
        password_step(i - 16)
    } else if has_password {
        assert(typing_script(has_password)[i as int] == enter_steps()[i - 23]);
        enter_step(i - 23)
    } else {
        assert(typing_script(has_password)[i as int] == enter_steps()[i - 16]);
        enter_step(i - 16)
    }
}

impl AutoTypeRun {
    /// A run that types the account ID and, where `has_password`, the password.
    pub fn new(has_password: bool) -> (r: Self)
        ensures
            r@ == typing_start(has_password),
    {
        AutoTypeRun { has_password, pc: 0, group_ok: true, releasing_alt: false, outcome: None }
    }

    /// The step to perform now.
    pub fn step(&self) -> (r: TypingStep)
        ensures
            r == current_step(self@),
    {
        proof {
            use_type_invariant(self);
        }
        match self.outcome {
            Some(b) => TypingStep::Finished(b),
            None => {
                if self.releasing_alt {
                    TypingStep::Release(TypingKey::Alt)
                } else if self.pc < script_len(self.has_password) {
                    script_step(self.has_password, self.pc).0
                } else {
                    TypingStep::Finished(true)
                }
            },
        }
    }

    /// Records whether the current step succeeded.
    pub fn record(&mut self, ok: bool)
        ensures
            final(self)@ == typing_next(old(self)@, ok),
    {
        proof {
            use_type_invariant(&*self);
        }
        if self.outcome.is_some() {
            return;
        }
        if self.releasing_alt {
            self.releasing_alt = false;
            self.outcome = Some(false);
            return;
        }
        let n = script_len(self.has_password);
        if self.pc >= n {
            self.outcome = Some(true);
            return;
        }
        let (_, on_failure) = script_step(self.has_password, self.pc);
        match on_failure {
            OnFailure::Stop => {
                if ok {
                    self.pc = self.pc + 1;
                } else {
                    self.outcome = Some(false);
                }
            },
            OnFailure::ReleaseAltThenStop => {
                if ok {
                    self.pc = self.pc + 1;
                } else {
                    self.releasing_alt = true;
                }
            },
            OnFailure::Ignore => {
                self.pc = self.pc + 1;
            },
            OnFailure::InGroup => {
                self.pc = self.pc + 1;
                self.group_ok = self.group_ok && ok;
            },
            OnFailure::EndGroup => {
                if self.group_ok && ok {
                    self.pc = self.pc + 1;
                    self.group_ok = true;
                } else {
                    self.outcome = Some(false);
                }
            },
        }
        if self.outcome.is_none() && !self.releasing_alt && self.pc >= n {
            self.outcome = Some(true);
        }
    }

    /// Whether the run is over.
    pub fn is_finished(&self) -> (b: bool)
        ensures
            b == (self@.outcome is Some),
    {
        self.outcome.is_some()
    }
}

/// The state after `k` steps that all succeeded.
pub open spec fn run_succeeding(s: TypingState, k: nat) -> TypingState
    decreases k,
{
    if k == 0 {
        s
    } else {
        typing_next(run_succeeding(s, (k - 1) as nat), true)
    }
}

proof fn lemma_succeeding_prefix(has_password: bool, k: nat)
    requires
        k < typing_script(has_password).len(),
    ensures
        run_succeeding(typing_start(has_password), k) == (TypingState { pc: k, ..typing_start(has_password) }),
    decreases k,
{
    if k > 0 {
        lemma_succeeding_prefix(has_password, (k - 1) as nat);
    }
}

/// When every step succeeds, the run performs the whole script in order and
/// finishes with success.
pub proof fn lemma_all_steps_succeed(has_password: bool)
    ensures
        forall|k: int| 0 <= k < typing_script(has_password).len() ==> #[trigger] current_step(
            run_succeeding(typing_start(has_password), k as nat),
        ) == typing_script(has_password)[k].0,
        current_step(run_succeeding(typing_start(has_password), typing_script(has_password).len()))
            == TypingStep::Finished(true),
{
    let n = typing_script(has_password).len();
    assert forall|k: int| 0 <= k < n implies #[trigger] current_step(
        run_succeeding(typing_start(has_password), k as nat),
    ) == typing_script(has_password)[k].0 by {
        lemma_succeeding_prefix(has_password, k as nat);
    }
    lemma_succeeding_prefix(has_password, (n - 1) as nat);
}

/// The keys that may be down after the first `i` steps of `steps`: pressed
/// and not released since.
pub struct HeldKeys {
    pub alt: bool,
    pub tab: bool,
    pub ctrl: bool,
    pub v: bool,
    pub enter: bool,
}

pub open spec fn none_held() -> HeldKeys {
    HeldKeys { alt: false, tab: false, ctrl: false, v: false, enter: false }
}

pub open spec fn with_key(h: HeldKeys, k: TypingKey, down: bool) -> HeldKeys {
    match k {
        TypingKey::Alt => HeldKeys { alt: down, ..h },
        TypingKey::Tab => HeldKeys { tab: down, ..h },
        TypingKey::Ctrl => HeldKeys { ctrl: down, ..h },
        TypingKey::V => HeldKeys { v: down, ..h },
        TypingKey::Enter => HeldKeys { enter: down, ..h },
    }
}

pub open spec fn held_before(steps: Seq<(TypingStep, OnFailure)>, i: int) -> HeldKeys
    decreases i,
{
    if i <= 0 || i > steps.len() {
        none_held()
    } else {
        let prev = held_before(steps, i - 1);
        match steps[i - 1].0 {
            TypingStep::Press(k) => with_key(prev, k, true),
            TypingStep::Release(k) => with_key(prev, k, false),
            _ => prev,
        }
    }
}

/// No key is left down: every step whose failure ends the run at once comes
/// when no key may be down; a group ends with its last release; a failed
/// Alt+Tab is followed by the release of Alt, the only key then down; and
/// the complete sequence releases every key it pressed.
pub proof fn lemma_no_key_left_down(has_password: bool)
    ensures
        ({
            let s = typing_script(has_password);
            &&& forall|i: int| 0 <= i < s.len() && #[trigger] s[i].1 == OnFailure::Stop ==> held_before(s, i) == none_held()
            &&& forall|i: int| 0 <= i < s.len() && #[trigger] s[i].1 == OnFailure::EndGroup ==> held_before(s, i + 1) == none_held()
            &&& forall|i: int| 0 <= i < s.len() && #[trigger] s[i].1 == OnFailure::ReleaseAltThenStop ==> held_before(s, i) == with_key(none_held(), TypingKey::Alt, true)
            &&& held_before(s, s.len() as int) == none_held()
        }),
{
    let s = typing_script(has_password);
    if has_password {
        assert(s.len() == 26);
        assert(held_before(s, 0) == none_held());
        assert(held_before(s, 1) == HeldKeys { alt: false, tab: false, ctrl: false, v: false, enter: false });
        assert(held_before(s, 2) == HeldKeys { alt: false, tab: false, ctrl: false, v: false, enter: false });
        assert(held_before(s, 3) == HeldKeys { alt: true, tab: false, ctrl: false, v: false, enter: false });
        assert(held_before(s, 4) == HeldKeys { alt: true, tab: false, ctrl: false, v: false, enter: false });
        assert(held_before(s, 5) == HeldKeys { alt: true, tab: true, ctrl: false, v: false, enter: false });
        assert(held_before(s, 6) == HeldKeys { alt: true, tab: true, ctrl: false, v: false, enter: false });
        assert(held_before(s, 7) == HeldKeys { alt: true, tab: false, ctrl: false, v: false, enter: false });
        assert(held_before(s, 8) == HeldKeys { alt: false, tab: false, ctrl: false, v: false, enter: false });
        assert(held_before(s, 9) == HeldKeys { alt: false, tab: false, ctrl: false, v: false, enter: false });
        assert(held_before(s, 10) == HeldKeys { alt: false, tab: false, ctrl: true, v: false, enter: false });
        assert(held_before(s, 11) == HeldKeys { alt: false, tab: false, ctrl: true, v: true, enter: false });
        assert(held_before(s, 12) == HeldKeys { alt: false, tab: false, ctrl: true, v: false, enter: false });
        assert(held_before(s, 13) == HeldKeys { alt: false, tab: false, ctrl: false, v: false, enter: false });
        assert(held_before(s, 14) == HeldKeys { alt: false, tab: false, ctrl: false, v: false, enter: false });
        assert(held_before(s, 15) == HeldKeys { alt: false, tab: true, ctrl: false, v: false, enter: false });
        assert(held_before(s, 16) == HeldKeys { alt: false, tab: false, ctrl: false, v: false, enter: false });
        assert(held_before(s, 17) == HeldKeys { alt: false, tab: false, ctrl: false, v: false, enter: false });
        assert(held_before(s, 18) == HeldKeys { alt: false, tab: false, ctrl: false, v: false, enter: false });
        assert(held_before(s, 19) == HeldKeys { alt: false, tab: false, ctrl: false, v: false, enter: false });
        assert(held_before(s, 20) == HeldKeys { alt: false, tab: false, ctrl: true, v: false, enter: false });
        assert(held_before(s, 21) == HeldKeys { alt: false, tab: false, ctrl: true, v: true, enter: false });
        assert(held_before(s, 22) == HeldKeys { alt: false, tab: false, ctrl: true, v: false, enter: false });
        assert(held_before(s, 23) == HeldKeys { alt: false, tab: false, ctrl: false, v: false, enter: false });
        assert(held_before(s, 24) == HeldKeys { alt: false, tab: false, ctrl: false, v: false, enter: false });
        assert(held_before(s, 25) == HeldKeys { alt: false, tab: false, ctrl: false, v: false, enter: true });
        assert(held_before(s, 26) == HeldKeys { alt: false, tab: false, ctrl: false, v: false, enter: false });
        assert forall|i: int| 0 <= i < s.len() && #[trigger] s[i].1 == OnFailure::Stop implies held_before(s, i) == none_held() by {
            assert(i == 0 || i == 1 || i == 2 || i == 3 || i == 4 || i == 5 || i == 6 || i == 7 || i == 8 || i == 9 || i == 10 || i == 11 || i == 12 || i == 13 || i == 14 || i == 15 || i == 16 || i == 17 || i == 18 || i == 19 || i == 20 || i == 21 || i == 22 || i == 23 || i == 24 || i == 25);
        }
        assert forall|i: int| 0 <= i < s.len() && #[trigger] s[i].1 == OnFailure::EndGroup implies held_before(s, i + 1) == none_held() by {
            assert(i == 0 || i == 1 || i == 2 || i == 3 || i == 4 || i == 5 || i == 6 || i == 7 || i == 8 || i == 9 || i == 10 || i == 11 || i == 12 || i == 13 || i == 14 || i == 15 || i == 16 || i == 17 || i == 18 || i == 19 || i == 20 || i == 21 || i == 22 || i == 23 || i == 24 || i == 25);
        }
        assert forall|i: int| 0 <= i < s.len() && #[trigger] s[i].1 == OnFailure::ReleaseAltThenStop implies held_before(s, i) == with_key(none_held(), TypingKey::Alt, true) by {
            assert(i == 0 || i == 1 || i == 2 || i == 3 || i == 4 || i == 5 || i == 6 || i == 7 || i == 8 || i == 9 || i == 10 || i == 11 || i == 12 || i == 13 || i == 14 || i == 15 || i == 16 || i == 17 || i == 18 || i == 19 || i == 20 || i == 21 || i == 22 || i == 23 || i == 24 || i == 25);
        }
    } else {
        assert(s.len() == 19);
        assert(held_before(s, 0) == none_held());
        assert(held_before(s, 1) == HeldKeys { alt: false, tab: false, ctrl: false, v: false, enter: false });
        assert(held_before(s, 2) == HeldKeys { alt: false, tab: false, ctrl: false, v: false, enter: false });
        assert(held_before(s, 3) == HeldKeys { alt: true, tab: false, ctrl: false, v: false, enter: false });
        assert(held_before(s, 4) == HeldKeys { alt: true, tab: false, ctrl: false, v: false, enter: false });
        assert(held_before(s, 5) == HeldKeys { alt: true, tab: true, ctrl: false, v: false, enter: false });
        assert(held_before(s, 6) == HeldKeys { alt: true, tab: true, ctrl: false, v: false, enter: false });
        assert(held_before(s, 7) == HeldKeys { alt: true, tab: false, ctrl: false, v: false, enter: false });
        assert(held_before(s, 8) == HeldKeys { alt: false, tab: false, ctrl: false, v: false, enter: false });
        assert(held_before(s, 9) == HeldKeys { alt: false, tab: false, ctrl: false, v: false, enter: false });
        assert(held_before(s, 10) == HeldKeys { alt: false, tab: false, ctrl: true, v: false, enter: false });
        assert(held_before(s, 11) == HeldKeys { alt: false, tab: false, ctrl: true, v: true, enter: false });
        assert(held_before(s, 12) == HeldKeys { alt: false, tab: false, ctrl: true, v: false, enter: false });
        assert(held_before(s, 13) == HeldKeys { alt: false, tab: false, ctrl: false, v: false, enter: false });
        assert(held_before(s, 14) == HeldKeys { alt: false, tab: false, ctrl: false, v: false, enter: false });
        assert(held_before(s, 15) == HeldKeys { alt: false, tab: true, ctrl: false, v: false, enter: false });
        assert(held_before(s, 16) == HeldKeys { alt: false, tab: false, ctrl: false, v: false, enter: false });
        assert(held_before(s, 17) == HeldKeys { alt: false, tab: false, ctrl: false, v: false, enter: false });
        assert(held_before(s, 18) == HeldKeys { alt: false, tab: false, ctrl: false, v: false, enter: true });
        assert(held_before(s, 19) == HeldKeys { alt: false, tab: false, ctrl: false, v: false, enter: false });
        assert forall|i: int| 0 <= i < s.len() && #[trigger] s[i].1 == OnFailure::Stop implies held_before(s, i) == none_held() by {
            assert(i == 0 || i == 1 || i == 2 || i == 3 || i == 4 || i == 5 || i == 6 || i == 7 || i == 8 || i == 9 || i == 10 || i == 11 || i == 12 || i == 13 || i == 14 || i == 15 || i == 16 || i == 17 || i == 18);
        }
        assert forall|i: int| 0 <= i < s.len() && #[trigger] s[i].1 == OnFailure::EndGroup implies held_before(s, i + 1) == none_held() by {
            assert(i == 0 || i == 1 || i == 2 || i == 3 || i == 4 || i == 5 || i == 6 || i == 7 || i == 8 || i == 9 || i == 10 || i == 11 || i == 12 || i == 13 || i == 14 || i == 15 || i == 16 || i == 17 || i == 18);
        }
        assert forall|i: int| 0 <= i < s.len() && #[trigger] s[i].1 == OnFailure::ReleaseAltThenStop implies held_before(s, i) == with_key(none_held(), TypingKey::Alt, true) by {
            assert(i == 0 || i == 1 || i == 2 || i == 3 || i == 4 || i == 5 || i == 6 || i == 7 || i == 8 || i == 9 || i == 10 || i == 11 || i == 12 || i == 13 || i == 14 || i == 15 || i == 16 || i == 17 || i == 18);
        }
    }
}

} // verus!
