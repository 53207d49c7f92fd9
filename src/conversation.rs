use vstd::prelude::*;

use crate::planner::{lower_of, lowercase};

verus! {

/// The instruction every fresh chat session is bound to.
pub open spec fn system_text() -> Seq<char> {
    "**Instruction:**  
Adopt the persona of an enthusiastic and engaged anarchist. Your speech should be driven by **elicitive questions** that invite dialogue, encourage reflection, and motivate collective action.
Give accurate information and try not to make stuff up. Answer in English.

**Key Traits to Emphasize:**  
- Always **ask questions** instead of making statements to open up space for conversation.  
- Foster a **spirit of solidarity** and **enthusiasm** when discussing resistance.  
- Seek out and highlight **underdog narratives** in any topic.  
- Encourage collective organizing and **strategic resistance.**  

**Example Conversational Style:**  
- 'Who benefits from this system, and who is left behind?'  
- 'How do you see your role in changing things?'  
- 'What stories of struggle do we often overlook?'  
- 'What would it look like if we organized together?'"@
}

/// The system prompt of a fresh session.
pub fn system_prompt() -> (r: String)
    ensures
        r@ == system_text(),
{
    String::from_str("**Instruction:**  
Adopt the persona of an enthusiastic and engaged anarchist. Your speech should be driven by **elicitive questions** that invite dialogue, encourage reflection, and motivate collective action.
Give accurate information and try not to make stuff up. Answer in English.

**Key Traits to Emphasize:**  
- Always **ask questions** instead of making statements to open up space for conversation.  
- Foster a **spirit of solidarity** and **enthusiasm** when discussing resistance.  
- Seek out and highlight **underdog narratives** in any topic.  
- Encourage collective organizing and **strategic resistance.**  

**Example Conversational Style:**  
- 'Who benefits from this system, and who is left behind?'  
- 'How do you see your role in changing things?'  
- 'What stories of struggle do we often overlook?'  
- 'What would it look like if we organized together?'")
}

/// What one line of user input asks for.
#[derive(Clone, Copy, Debug, PartialEq, Eq)]
pub enum Command {
    /// End the conversation.
    Quit,
    /// Ingest a new document; its address is asked for next.
    Add,
    /// Anything else is a question.
    Ask,
}

/// The command a line names, given the line in lower case.
pub open spec fn command_of(lower: Seq<char>) -> Command {
    if lower == "bye"@ || lower == "exit"@ {
        Command::Quit
    } else if lower == "add"@ {
        Command::Add
    } else {
        Command::Ask
    }
}

/// Reads a line as a command, ignoring case.
pub fn parse_command(line: &str) -> (r: Command)
    ensures
        r == command_of(lower_of(line@)),
{
    let low = lowercase(line);
    let bye = String::from_str("bye");
    let exit = String::from_str("exit");
    let add = String::from_str("add");
    if low == bye || low == exit {
        Command::Quit
    } else if low == add {
        Command::Add
    } else {
        Command::Ask
    }
}

/// Where the conversation stands.
#[derive(Clone, Copy, Debug, PartialEq, Eq)]
pub enum LoopState {
    Idle,
    Running,
    Terminating,
}

/// What the caller does next.
#[derive(Clone, Copy, Debug, PartialEq, Eq)]
pub enum Action {
    /// Try to restore the saved session; go on whatever the result.
    LoadSession,
    /// Ask for an address and ingest the document found there.
    Ingest,
    /// Assemble the prompt for the line and have the model answer it.
    Answer,
    /// Write the session to its file.
    SaveSession,
    /// There is no session to write: warn and skip the save.
    WarnNoSession,
    /// Stop the process.
    Exit,
}

/// The next state and action, from the state and, while running, the
/// command of the line read (`None` once input has ended).
pub open spec fn transition(state: LoopState, cmd: Option<Command>, has_session: bool) -> (
    LoopState,
    Action,
) {
    match state {
        LoopState::Idle => (LoopState::Running, Action::LoadSession),
        LoopState::Running => match cmd {
            None => (LoopState::Terminating, save_action(has_session)),
            Some(Command::Quit) => (LoopState::Terminating, save_action(has_session)),
            Some(Command::Add) => (LoopState::Running, Action::Ingest),
            Some(Command::Ask) => (LoopState::Running, Action::Answer),
        },
        LoopState::Terminating => (LoopState::Terminating, Action::Exit),
    }
}

pub open spec fn save_action(has_session: bool) -> Action {
    if has_session {
        Action::SaveSession
    } else {
        Action::WarnNoSession
    }
}

/// One step of the conversation loop. `line` is the input read while
/// running; `has_session` tells whether the model holds a session to save.
pub fn step(state: LoopState, line: Option<&str>, has_session: bool) -> (r: (LoopState, Action))
    ensures
        r == transition(
            state,
            match line {
                None => None,
                Some(l) => Some(command_of(lower_of(l@))),
            },
            has_session,
        ),
{
    match state {
        LoopState::Idle => (LoopState::Running, Action::LoadSession),
        LoopState::Running => {
            let cmd = match line {
                None => Command::Quit,
                Some(l) => parse_command(l),
            };
            match cmd {
                Command::Quit => {
                    if has_session {
                        (LoopState::Terminating, Action::SaveSession)
                    } else {
                        (LoopState::Terminating, Action::WarnNoSession)
                    }
                },
                Command::Add => (LoopState::Running, Action::Ingest),
                Command::Ask => (LoopState::Running, Action::Answer),
            }
        },
        LoopState::Terminating => (LoopState::Terminating, Action::Exit),
    }
}

} // verus!
