//! The keys of the interactive view and what each of them does to the state.

use vstd::prelude::*;
use crate::model::{Cursor, Model};
use crate::state::AppState;

verus! {

/// A key press, as far as the view tells keys apart.
#[derive(Debug, Clone, Copy, PartialEq, Eq, Structural)]
pub enum Key {
    Char(char),
    Esc,
    Enter,
    Up,
    Down,
    Other,
}

/// What a key asks for.
#[derive(Debug, Clone, Copy, PartialEq, Eq, Structural)]
pub enum Command {
    Quit,
    Next,
    Previous,
    Toggle,
    SelectAll,
    DeselectAll,
    Info,
    Ignore,
}

/// What is left to do outside the state once a command has been handled.
#[derive(Debug, Clone, PartialEq, Eq)]
pub enum Effect {
    /// Nothing but to draw the next frame.
    Continue,
    /// Leave the view.
    Quit,
    /// Fetch the details of the container with this id and open the info
    /// overlay on them.
    Inspect(String),
}

/// The command that each key is bound to.
pub open spec fn command_of(key: Key) -> Command {
    match key {
        Key::Esc => Command::Quit,
        Key::Up => Command::Previous,
        Key::Down => Command::Next,
        Key::Enter => Command::Toggle,
        Key::Other => Command::Ignore,
        Key::Char(c) => if c == 'q' {
            Command::Quit
        } else if c == 'k' {
            Command::Previous
        } else if c == 'j' {
            Command::Next
        } else if c == ' ' {
            Command::Toggle
        } else if c == 'a' {
            Command::SelectAll
        } else if c == 'n' {
            Command::DeselectAll
        } else if c == 'i' {
            Command::Info
        } else {
            Command::Ignore
        },
    }
}

impl Model {
    /// The state after `command`. The info key closes an open overlay; to
    /// open it takes the details of the focused container, which come later
    /// and from outside, so the state stays as it is.
    pub open spec fn after(self, command: Command) -> Model {
        match command {
            Command::Quit => self,
            Command::Next => self.next(),
            Command::Previous => self.previous(),
            Command::Toggle => self.toggle_selected(),
            Command::SelectAll => self.select_all(),
            Command::DeselectAll => self.deselect_all(),
            Command::Info => if self.show_info {
                self.close_info()
            } else {
                self
            },
            Command::Ignore => self,
        }
    }

    /// What `command` leaves to do: to quit, to fetch the details of the
    /// focused container where the info key is pressed on a container while
    /// the overlay is closed, or nothing.
    pub open spec fn inspects(self, command: Command) -> Option<Seq<char>> {
        match (command, self.focus) {
            (Command::Info, Cursor::Row(i)) => if !self.show_info && i < self.containers.len() {
                Some(self.containers[i as int].id)
            } else {
                None
            },
            _ => None,
        }
    }
}

/// The command that `key` is bound to.
pub fn command_for(key: Key) -> (command: Command)
    ensures
        command == command_of(key),
{
    match key {
        Key::Esc => Command::Quit,
        Key::Up => Command::Previous,
        Key::Down => Command::Next,
        Key::Enter => Command::Toggle,
        Key::Other => Command::Ignore,
        Key::Char(c) => {
            if c == 'q' {
                Command::Quit
            } else if c == 'k' {
                Command::Previous
            } else if c == 'j' {
                Command::Next
            } else if c == ' ' {
                Command::Toggle
            } else if c == 'a' {
                Command::SelectAll
            } else if c == 'n' {
                Command::DeselectAll
            } else if c == 'i' {
                Command::Info
            } else {
                Command::Ignore
            }
        },
    }
}

impl AppState {
    /// Carries out `command` on the state and says what is left to do.
    pub fn handle(&mut self, command: Command) -> (effect: Effect)
        requires
            old(self).wf(),
        ensures
            final(self).wf(),
            final(self)@ == old(self)@.after(command),
            match effect {
                Effect::Quit => command == Command::Quit,
                Effect::Inspect(id) => old(self)@.inspects(command) == Some(id@),
                Effect::Continue => command != Command::Quit && old(self)@.inspects(command) is None,
            },
    {
        proof {
            self.lemma_wf_model();
        }
        match command {
            Command::Quit => Effect::Quit,
            Command::Next => {
                self.next();
                Effect::Continue
            },
            Command::Previous => {
                self.previous();
                Effect::Continue
            },
            Command::Toggle => {
                self.toggle_selected();
                Effect::Continue
            },
            Command::SelectAll => {
                self.select_all();
                Effect::Continue
            },
            Command::DeselectAll => {
                self.deselect_all();
                Effect::Continue
            },
            Command::Info => {
                if self.show_info() {
                    self.close_info();
                    Effect::Continue
                } else {
                    match self.focused_id() {
                        Some(id) => Effect::Inspect(id),
                        None => Effect::Continue,
                    }
                }
            },
            Command::Ignore => Effect::Continue,
        }
    }
}

} // verus!
