use crate::error::{Failure, KeymapError, KeymapResult};
use crate::events::{is_quit_chord, quit_chord};
use crate::flat::{Flat, KeymapDaemon};
use crate::keycode::KeyCode;
use crate::keys::{Action, Chord, KeyAction, KeyBinding, KeySequence, KeySpec};
use crate::machine::{done_view, name_view, Engine, KeymapStateMachine};
use vstd::prelude::*;

verus! {

/// What the loop that owns the keymap is to do after a key, as a value of
/// mathematics.
pub enum Order {
    Quit,
    Idle,
    Shell(Seq<char>),
    Send(Chord),
    Report(Failure),
}

/// What the loop that owns the keymap is to do after it has handed a key to
/// the keymap.
#[derive(Debug, PartialEq, Eq)]
pub enum Command {
    /// End the loop.
    Quit,
    /// Nothing.
    Idle,
    /// Hand the command line to the shell.
    Shell(String),
    /// Send the chord on as if it had been typed.
    Send(KeySpec),
    /// Tell of the error, and go on.
    Report(KeymapError),
}

impl View for Command {
    type V = Order;

    open spec fn view(&self) -> Order {
        match self {
            Command::Quit => Order::Quit,
            Command::Idle => Order::Idle,
            Command::Shell(cmd) => Order::Shell(cmd@),
            Command::Send(key) => Order::Send(key@),
            Command::Report(e) => Order::Report(e@),
        }
    }
}

/// What is to be done for an action that leaves the mode alone. A chord
/// without a key is not sent.
pub open spec fn order_of(action: Action) -> Order {
    match action {
        Action::ShellCmd(cmd) => Order::Shell(cmd),
        Action::SendKey(key) => if key.code == KeyCode::Null {
            Order::Idle
        } else {
            Order::Send(key)
        },
        _ => Order::Idle,
    }
}

impl Flat {
    /// What one turn of the loop does to the flat keymap, and what the loop is
    /// to do then. The chord that ends the daemon is not handed to the
    /// keymap. Every other chord is; an action that changes the mode is
    /// carried out on the keymap, and reported where there is no such mode;
    /// every other action is left to the loop.
    pub open spec fn dispatch(self, key: Chord) -> (Flat, Order) {
        if key == quit_chord() {
            (self, Order::Quit)
        } else {
            let (next, action) = self.step(key);
            match action {
                None => (next, Order::Idle),
                Some(Action::ModeChange(mode)) => match next.switch_mode(mode).1 {
                    Ok(()) => (next.switch_mode(mode).0, Order::Idle),
                    Err(e) => (next, Order::Report(e)),
                },
                Some(a) => (next, order_of(a)),
            }
        }
    }
}

impl Engine {
    /// What one turn of the loop does to the matcher, and what the loop is to
    /// do then. The chord that ends the daemon is not handed to the matcher.
    /// Every other chord is. Where it is not found, the matcher is reset, so
    /// that it does not stay in the middle of a sequence, and the error is
    /// reported. An action that changes the mode is carried out on the
    /// matcher, and reported where there is no such mode; every other action
    /// is left to the loop.
    pub open spec fn dispatch(self, key: Chord) -> (Engine, Order) {
        if key == quit_chord() {
            (self, Order::Quit)
        } else {
            let (next, answer) = self.step(key);
            match answer {
                Err(Failure::KeyNotFound(entered, missing)) => (
                    next.reset().0,
                    Order::Report(Failure::KeyNotFound(entered, missing)),
                ),
                Err(e) => (next, Order::Report(e)),
                Ok(None) => (next, Order::Idle),
                Ok(Some(Action::ModeChange(mode))) => match next.switch_mode(mode).1 {
                    Ok(()) => (next.switch_mode(mode).0, Order::Idle),
                    Err(e) => (next, Order::Report(e)),
                },
                Ok(Some(a)) => (next, order_of(a)),
            }
        }
    }
}

/// What is to be done for an action that leaves the mode alone.
fn command_of(action: KeyAction) -> (command: Command)
    requires
        !(action@ is ModeChange),
    ensures
        command@ == order_of(action@),
{
    match action {
        KeyAction::ShellCmd(cmd) => Command::Shell(cmd),
        KeyAction::SendKey(key) => {
            if key.1 == KeyCode::Null {
                Command::Idle
            } else {
                Command::Send(key)
            }
        },
        _ => Command::Idle,
    }
}

impl KeymapDaemon {
    /// One turn of the loop that owns the keymap: takes the chord that was
    /// captured, and says what the loop is to do.
    pub fn dispatch(&mut self, key: KeySpec) -> (command: Command)
        ensures
            (final(self)@, command@) == old(self)@.dispatch(key@),
    {
        if is_quit_chord(&key) {
            return Command::Quit;
        }
        match self.make_input(key) {
            None => Command::Idle,
            Some(KeyAction::ModeChange(mode)) => {
                match self.switch_mode(mode) {
                    Ok(()) => Command::Idle,
                    Err(e) => Command::Report(e),
                }
            },
            Some(action) => command_of(action),
        }
    }
}

impl KeymapStateMachine {
    /// One turn of the loop that owns the matcher: takes the chord that was
    /// captured, and says what the loop is to do.
    pub fn dispatch(&mut self, key: KeySpec) -> (command: Command)
        ensures
            final(self)@.wf(),
            (final(self)@, command@) == old(self)@.dispatch(key@),
    {
        if is_quit_chord(&key) {
            proof {
                use_type_invariant(&*self);
            }
            return Command::Quit;
        }
        match self.make_input(key) {
            Err(KeymapError::KeyNotFound(entered, missing)) => {
                let _ = self.reset();
                Command::Report(KeymapError::KeyNotFound(entered, missing))
            },
            Err(e) => Command::Report(e),
            Ok(None) => Command::Idle,
            Ok(Some(KeyAction::ModeChange(mode))) => {
                match self.switch_mode(mode.as_str()) {
                    Ok(()) => Command::Idle,
                    Err(e) => Command::Report(e),
                }
            },
            Ok(Some(action)) => command_of(action),
        }
    }
}

/// What a keymap daemon offers to the program around it.
pub trait Daemon {
    /// Binds a key sequence to an action in a mode. A binding that cannot be
    /// made is dropped.
    fn register(&mut self, binding: KeyBinding, mode: Option<String>);

    /// Unbinds a key sequence in a mode.
    fn unregister(&mut self, sequences: KeySequence, mode: Option<String>) -> (r: KeymapResult<()>);

    /// Throws away the chords entered so far.
    fn reset(&mut self);

    /// Goes over to another mode.
    fn mode_change(&mut self, mode: String) -> (r: KeymapResult<()>);
}

impl Daemon for KeymapStateMachine {
    fn register(&mut self, binding: KeyBinding, mode: Option<String>)
        ensures
            final(self)@ == old(self)@.register(
                binding.sequences@,
                binding.action@,
                name_view(mode),
            ).0,
    {
        let _ = KeymapStateMachine::register(self, binding, mode);
    }

    fn unregister(&mut self, sequences: KeySequence, mode: Option<String>) -> (r: KeymapResult<()>)
        ensures
            (final(self)@, done_view(r)) == old(self)@.unregister(sequences@, name_view(mode)),
    {
        KeymapStateMachine::unregister(self, sequences, mode)
    }

    fn reset(&mut self)
        ensures
            final(self)@ == old(self)@.reset().0,
    {
        let _ = KeymapStateMachine::reset(self);
    }

    fn mode_change(&mut self, mode: String) -> (r: KeymapResult<()>)
        ensures
            (final(self)@, done_view(r)) == old(self)@.switch_mode(mode@),
    {
        KeymapStateMachine::switch_mode(self, mode.as_str())
    }
}

} // verus!
