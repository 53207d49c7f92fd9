use kaloston::conversation::{parse_command, step, system_prompt, Action, Command, LoopState};

#[test]
fn commands_ignore_case() {
    assert_eq!(parse_command("BYE"), Command::Quit);
    assert_eq!(parse_command("Exit"), Command::Quit);
    assert_eq!(parse_command("aDd"), Command::Add);
    assert_eq!(parse_command("add a link"), Command::Ask);
    assert_eq!(parse_command("who benefits from competition?"), Command::Ask);
    assert_eq!(parse_command(""), Command::Ask);
}

#[test]
fn loop_runs_after_start_whatever_was_loaded() {
    assert_eq!(step(LoopState::Idle, None, false), (LoopState::Running, Action::LoadSession));
}

#[test]
fn loop_dispatches_lines() {
    assert_eq!(step(LoopState::Running, Some("add"), true), (LoopState::Running, Action::Ingest));
    assert_eq!(step(LoopState::Running, Some("hello"), true), (LoopState::Running, Action::Answer));
    assert_eq!(step(LoopState::Running, Some("bye"), true), (LoopState::Terminating, Action::SaveSession));
    assert_eq!(step(LoopState::Running, None, true), (LoopState::Terminating, Action::SaveSession));
    assert_eq!(step(LoopState::Terminating, None, true), (LoopState::Terminating, Action::Exit));
}

#[test]
fn no_session_skips_save_with_warning() {
    assert_eq!(step(LoopState::Running, Some("EXIT"), false), (LoopState::Terminating, Action::WarnNoSession));
}

#[test]
fn fresh_session_uses_fixed_system_prompt() {
    let p = system_prompt();
    assert!(p.starts_with("**Instruction:**"));
    assert!(p.contains("Answer in English."));
    assert!(p.ends_with("'What would it look like if we organized together?'"));
}
