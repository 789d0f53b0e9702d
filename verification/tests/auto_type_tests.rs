use leagueaccounts::auto_type::TypingKey::{Alt, Ctrl, Enter, Tab, V};
use leagueaccounts::auto_type::TypingStep::{
    CopyAccountId, CopyPassword, Pause, Press, Release, WaitForRelease,
};
use leagueaccounts::auto_type::{AutoTypeRun, TypingKey, TypingStep};

/// Runs the sequence, answering each step with `outcome`, and returns the
/// steps performed and the result.
fn run(has_password: bool, outcome: impl Fn(usize, TypingStep) -> bool) -> (Vec<TypingStep>, bool) {
    let mut run = AutoTypeRun::new(has_password);
    let mut steps = Vec::new();
    loop {
        let step = run.step();
        if let TypingStep::Finished(success) = step {
            assert!(run.is_finished());
            return (steps, success);
        }
        let ok = outcome(steps.len(), step);
        steps.push(step);
        run.record(ok);
        assert!(steps.len() < 100);
    }
}

fn keys_left_down(steps: &[TypingStep], outcomes: &[bool]) -> Vec<TypingKey> {
    let mut down: Vec<TypingKey> = Vec::new();
    for (step, ok) in steps.iter().zip(outcomes) {
        match step {
            TypingStep::Press(key) if *ok => down.push(*key),
            TypingStep::Release(key) => down.retain(|k| k != key),
            _ => {}
        }
    }
    down
}

#[test]
fn successful_run_types_id_tab_password_enter() {
    let (steps, success) = run(true, |_, _| true);
    assert!(success);
    assert_eq!(
        steps,
        vec![
            WaitForRelease, CopyAccountId, Press(Alt), Pause(35), Press(Tab), Pause(35), Release(Tab),
            Release(Alt), Pause(400), Press(Ctrl), Press(V), Release(V), Release(Ctrl), Pause(60),
            Press(Tab), Release(Tab), Pause(60), CopyPassword, Pause(60), Press(Ctrl), Press(V),
            Release(V), Release(Ctrl), Pause(60), Press(Enter), Release(Enter),
        ]
    );
}

#[test]
fn without_a_password_only_the_id_is_typed() {
    let (steps, success) = run(false, |_, _| true);
    assert!(success);
    assert_eq!(steps.len(), 19);
    assert!(!steps.contains(&TypingStep::CopyPassword));
    assert_eq!(steps[18], TypingStep::Release(TypingKey::Enter));
}

#[test]
fn held_shortcut_stops_before_any_input() {
    let (steps, success) = run(true, |_, step| step != TypingStep::WaitForRelease);
    assert!(!success);
    assert_eq!(steps, vec![TypingStep::WaitForRelease]);
}

#[test]
fn failed_tab_press_releases_alt() {
    let (steps, success) = run(true, |i, _| i != 4);
    assert!(!success);
    assert_eq!(steps.len(), 6);
    assert_eq!(steps[4], TypingStep::Press(TypingKey::Tab));
    assert_eq!(steps[5], TypingStep::Release(TypingKey::Alt));
}

#[test]
fn failed_paste_still_releases_ctrl_and_v() {
    // The V press of the first paste fails.
    let (steps, success) = run(true, |i, _| i != 10);
    assert!(!success);
    assert_eq!(steps.len(), 13);
    assert_eq!(steps[11], TypingStep::Release(TypingKey::V));
    assert_eq!(steps[12], TypingStep::Release(TypingKey::Ctrl));
}

#[test]
fn no_failure_leaves_a_key_down() {
    for has_password in [false, true] {
        let total = if has_password { 26 } else { 19 };
        for failing in 0..total {
            let outcome = |i: usize, _| i != failing;
            let (steps, success) = run(has_password, outcome);
            assert!(!success || steps.len() == total);
            let outcomes: Vec<bool> = (0..steps.len()).map(|i| i != failing).collect();
            assert!(keys_left_down(&steps, &outcomes).is_empty(), "step {failing} failing left a key down");
        }
    }
}
