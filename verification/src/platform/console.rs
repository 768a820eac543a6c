//! Console modes, capabilities and signals.

use vstd::prelude::*;

verus! {

/// The console mode flag that turns on VT sequence processing for output.
pub const ENABLE_VIRTUAL_TERMINAL_PROCESSING: u32 = 0x0004;

/// A console output mode with VT processing turned on; the other flags stay.
pub fn enable_vt_output(mode: u32) -> (r: u32)
    ensures
        r == mode | ENABLE_VIRTUAL_TERMINAL_PROCESSING,
        r & ENABLE_VIRTUAL_TERMINAL_PROCESSING == ENABLE_VIRTUAL_TERMINAL_PROCESSING,
        r & !ENABLE_VIRTUAL_TERMINAL_PROCESSING == mode & !ENABLE_VIRTUAL_TERMINAL_PROCESSING,
{
    let r = mode | ENABLE_VIRTUAL_TERMINAL_PROCESSING;
    assert((mode | 4u32) & 4u32 == 4u32) by (bit_vector);
    assert((mode | 4u32) & !4u32 == mode & !4u32) by (bit_vector);
    r
}

/// A failure to read or set a console mode.
#[derive(Debug)]
pub struct ConsoleError {
    message: String,
}

impl View for ConsoleError {
    type V = Seq<char>;

    closed spec fn view(&self) -> Seq<char> {
        self.message@
    }
}

impl ConsoleError {
    pub fn new(message: String) -> (e: Self)
        ensures
            e@ == message@,
    {
        ConsoleError { message }
    }

    /// The message, as it is shown to the user.
    pub fn describe(&self) -> (s: String)
        ensures
            s@ == self@,
    {
        self.message.clone()
    }
}

/// The console while the session runs. On consoles without modes to change, entering
/// always succeeds.
#[derive(Debug)]
pub struct ConsoleGuard {
    active: bool,
}

impl ConsoleGuard {
    pub fn enter() -> (r: Result<Self, ConsoleError>)
        ensures
            r is Ok && r->Ok_0.is_active_spec(),
    {
        Ok(ConsoleGuard { active: true })
    }

    pub closed spec fn is_active_spec(&self) -> bool {
        self.active
    }

    pub fn is_active(&self) -> (b: bool)
        ensures
            b == self.is_active_spec(),
    {
        self.active
    }
}

/// How keyboard input reaches the client.
#[derive(Debug, Clone, Copy, PartialEq, Eq, Structural)]
pub enum InputCapability {
    Console,
    StdinPipe,
    Unknown,
}

/// How output leaves the client.
#[derive(Debug, Clone, Copy, PartialEq, Eq, Structural)]
pub enum OutputCapability {
    VirtualTerminal,
    Plain,
}

/// Input from a terminal is a console; anything else is a pipe.
pub fn input_capability_for(is_terminal: bool) -> (c: InputCapability)
    ensures
        c == if is_terminal {
            InputCapability::Console
        } else {
            InputCapability::StdinPipe
        },
{
    if is_terminal {
        InputCapability::Console
    } else {
        InputCapability::StdinPipe
    }
}

/// Output to a terminal understands VT sequences; anything else is plain.
pub fn output_capability_for(is_terminal: bool) -> (c: OutputCapability)
    ensures
        c == if is_terminal {
            OutputCapability::VirtualTerminal
        } else {
            OutputCapability::Plain
        },
{
    if is_terminal {
        OutputCapability::VirtualTerminal
    } else {
        OutputCapability::Plain
    }
}

/// Why the client is asked to stop.
#[derive(Debug, Clone, Copy, PartialEq, Eq, Structural)]
pub enum ShutdownSignal {
    CtrlC,
    CtrlBreak,
    Close,
}

} // verus!
