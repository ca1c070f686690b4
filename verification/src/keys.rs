//! The keyboard: which keys mean what, and what they do.

use vstd::prelude::*;

use crate::actions::Action;
use crate::picker::OmaBeam;
use crate::picker::Page;
use crate::request::CaptureAction;
use crate::text;

verus! {

/// What a key asks for.
#[derive(Debug, Clone, Copy, PartialEq, Eq, Structural)]
pub enum Command {
    Confirm,
    Cancel,
    CopyShot,
    SaveShot,
    ShareFile,
    LiveShare,
    MoveLeft,
    MoveRight,
    MoveUp,
    MoveDown,
    NextPage,
    PrevPage,
    ToggleHelp,
}

/// The keys that move the selection, as letters or arrows.
pub open spec fn move_of(key: Seq<char>) -> Option<Command> {
    if key == "h"@ || key == "left"@ {
        Some(Command::MoveLeft)
    } else if key == "l"@ || key == "right"@ {
        Some(Command::MoveRight)
    } else if key == "k"@ || key == "up"@ {
        Some(Command::MoveUp)
    } else if key == "j"@ || key == "down"@ {
        Some(Command::MoveDown)
    } else {
        None
    }
}

/// What a key means in the picker.
pub open spec fn picker_key(key: Seq<char>) -> Option<Command> {
    if key == "escape"@ {
        Some(Command::Cancel)
    } else if key == "enter"@ {
        Some(Command::Confirm)
    } else if key == "c"@ {
        Some(Command::CopyShot)
    } else if key == "s"@ {
        Some(Command::SaveShot)
    } else if key == "f"@ {
        Some(Command::ShareFile)
    } else if key == "v"@ {
        Some(Command::LiveShare)
    } else if key == "ctrl-tab"@ {
        Some(Command::NextPage)
    } else if key == "ctrl-shift-tab"@ {
        Some(Command::PrevPage)
    } else if key == "shift-/"@ {
        Some(Command::ToggleHelp)
    } else {
        move_of(key)
    }
}

/// What a key means where a link is sent. Letters and arrows belong to the PIN
/// while it is typed.
pub open spec fn send_key(key: Seq<char>, typing: bool) -> Option<Command> {
    if key == "escape"@ {
        Some(Command::Cancel)
    } else if key == "enter"@ {
        Some(Command::Confirm)
    } else if typing {
        None
    } else if key == "c"@ {
        Some(Command::CopyShot)
    } else {
        move_of(key)
    }
}

fn find_move(key: &str) -> (r: Option<Command>)
    ensures
        r == move_of(key@),
{
    if text::same(key, "h") || text::same(key, "left") {
        Some(Command::MoveLeft)
    } else if text::same(key, "l") || text::same(key, "right") {
        Some(Command::MoveRight)
    } else if text::same(key, "k") || text::same(key, "up") {
        Some(Command::MoveUp)
    } else if text::same(key, "j") || text::same(key, "down") {
        Some(Command::MoveDown)
    } else {
        None
    }
}

pub fn picker_command(key: &str) -> (r: Option<Command>)
    ensures
        r == picker_key(key@),
{
    if text::same(key, "escape") {
        Some(Command::Cancel)
    } else if text::same(key, "enter") {
        Some(Command::Confirm)
    } else if text::same(key, "c") {
        Some(Command::CopyShot)
    } else if text::same(key, "s") {
        Some(Command::SaveShot)
    } else if text::same(key, "f") {
        Some(Command::ShareFile)
    } else if text::same(key, "v") {
        Some(Command::LiveShare)
    } else if text::same(key, "ctrl-tab") {
        Some(Command::NextPage)
    } else if text::same(key, "ctrl-shift-tab") {
        Some(Command::PrevPage)
    } else if text::same(key, "shift-/") {
        Some(Command::ToggleHelp)
    } else {
        find_move(key)
    }
}

pub fn send_command(key: &str, typing: bool) -> (r: Option<Command>)
    ensures
        r == send_key(key@, typing),
{
    if text::same(key, "escape") {
        Some(Command::Cancel)
    } else if text::same(key, "enter") {
        Some(Command::Confirm)
    } else if typing {
        None
    } else if text::same(key, "c") {
        Some(Command::CopyShot)
    } else {
        find_move(key)
    }
}

/// What came of a command.
#[derive(Debug, PartialEq, Eq)]
pub enum Performed {
    /// Something is to be done outside the picker, perhaps.
    Act(Action),
    Quit,
    /// The command is for the control that has the focus.
    Passed,
    /// The selection moved; the list scrolls to a place, perhaps.
    Moved(Option<usize>),
    /// Only what is shown changed.
    Shown,
    /// Nothing is done while the picker works.
    Ignored,
}

/// The step of a move.
pub open spec fn step_of(command: Command) -> Option<(i32, i32)> {
    match command {
        Command::MoveLeft => Some(((-1) as i32, 0)),
        Command::MoveRight => Some((1, 0)),
        Command::MoveUp => Some((0, (-1) as i32)),
        Command::MoveDown => Some((0, 1)),
        _ => None,
    }
}

impl OmaBeam {
    /// What a command does.
    pub open spec fn performs(
        self,
        command: Command,
        focused: bool,
        after: OmaBeam,
        r: Performed,
    ) -> bool {
        match command {
            Command::Confirm => if !focused {
                after == self && r == Performed::Passed
            } else {
                r is Act && if self.demo || self.busy || !self.confirmable() {
                    after == self && r->Act_0 == Action::Nothing
                } else if self.picker {
                    self.emits(after, r->Act_0)
                } else if self.screenshot_mode {
                    self.captures(CaptureAction::Copy, after, r->Act_0)
                } else {
                    self.shares(after, r->Act_0)
                }
            },
            Command::Cancel => after == self && r == if self.busy {
                Performed::Ignored
            } else {
                Performed::Quit
            },
            Command::CopyShot => r is Act && self.captures(CaptureAction::Copy, after, r->Act_0),
            Command::SaveShot => r is Act && self.captures(CaptureAction::Save, after, r->Act_0),
            Command::ShareFile => r is Act && self.captures(CaptureAction::Share, after, r->Act_0),
            Command::LiveShare => r is Act && self.shares(after, r->Act_0),
            Command::NextPage | Command::PrevPage => if self.busy {
                after == self && r == Performed::Ignored
            } else {
                let delta: int = if command == Command::NextPage {
                    1
                } else {
                    -1
                };
                &&& r == Performed::Shown
                &&& after.status@.len() == 0
                &&& after == (OmaBeam {
                    status: after.status,
                    ..crate::actions::turned(
                        self,
                        Page::at((self.page.place() + delta) % self.kinds()),
                    )
                })
            },
            Command::ToggleHelp => r == Performed::Shown && after == (OmaBeam {
                show_help: !self.show_help,
                ..self
            }),
            _ => match step_of(command) {
                Some((dx, dy)) => if self.busy {
                    after == self && r == Performed::Ignored
                } else {
                    r is Moved && self.moves(dx, dy, after, r->Moved_0)
                },
                None => false,
            },
        }
    }

    fn shift(&mut self, dx: i32, dy: i32) -> (r: Performed)
        ensures
            if old(self).busy {
                *final(self) == *old(self) && r == Performed::Ignored
            } else {
                r is Moved && old(self).moves(dx, dy, *final(self), r->Moved_0)
            },
    {
        if self.busy {
            Performed::Ignored
        } else {
            Performed::Moved(self.move_selection(dx, dy))
        }
    }

    fn turn(&mut self, delta: i32) -> (r: Performed)
        requires
            delta == 1 || delta == -1,
        ensures
            if old(self).busy {
                *final(self) == *old(self) && r == Performed::Ignored
            } else {
                &&& r == Performed::Shown
                &&& final(self).status@.len() == 0
                &&& *final(self) == (OmaBeam {
                    status: final(self).status,
                    ..crate::actions::turned(
                        *old(self),
                        Page::at((old(self).page.place() + delta) % old(self).kinds()),
                    )
                })
            },
    {
        if self.busy {
            Performed::Ignored
        } else {
            self.cycle_page(delta);
            Performed::Shown
        }
    }

    /// Performs a command. `focused` tells whether the picker itself has the
    /// focus, not one of its controls.
    pub fn perform(&mut self, command: Command, focused: bool) -> (r: Performed)
        ensures
            old(self).performs(command, focused, *final(self), r),
    {
        match command {
            Command::Confirm => if focused {
                Performed::Act(self.confirm())
            } else {
                Performed::Passed
            },
            Command::Cancel => if self.busy {
                Performed::Ignored
            } else {
                Performed::Quit
            },
            Command::CopyShot => Performed::Act(self.run_capture(CaptureAction::Copy)),
            Command::SaveShot => Performed::Act(self.run_capture(CaptureAction::Save)),
            Command::ShareFile => Performed::Act(self.run_capture(CaptureAction::Share)),
            Command::LiveShare => Performed::Act(self.start_live()),
            Command::MoveLeft => self.shift(-1, 0),
            Command::MoveRight => self.shift(1, 0),
            Command::MoveUp => self.shift(0, -1),
            Command::MoveDown => self.shift(0, 1),
            Command::NextPage => self.turn(1),
            Command::PrevPage => self.turn(-1),
            Command::ToggleHelp => {
                self.show_help = !self.show_help;
                Performed::Shown
            },
        }
    }
}

/// Nothing leaves the picker but by the command for it: a live share by the one
/// for sharing or by confirming, a screenshot by the command that says what
/// becomes of it or by confirming in that mode, and a selection for the portal
/// only by confirming.
pub proof fn commands_do_what_they_are_for(
    picker: OmaBeam,
    command: Command,
    focused: bool,
    after: OmaBeam,
    r: Performed,
)
    requires
        picker.performs(command, focused, after, r),
    ensures
        match r {
            Performed::Act(Action::Share(_)) => {
                &&& command == Command::LiveShare || (command == Command::Confirm && focused
                    && !picker.picker && !picker.screenshot_mode)
                &&& !picker.demo && !picker.busy && !picker.picker
            },
            Performed::Act(Action::Capture(_, action)) => {
                &&& match command {
                    Command::CopyShot => action == CaptureAction::Copy,
                    Command::SaveShot => action == CaptureAction::Save,
                    Command::ShareFile => action == CaptureAction::Share,
                    Command::Confirm => action == CaptureAction::Copy && picker.screenshot_mode
                        && focused,
                    _ => false,
                }
                &&& !picker.demo && !picker.busy && !picker.picker
            },
            Performed::Act(Action::Emit(_)) => command == Command::Confirm && focused
                && picker.picker && !picker.demo && !picker.busy,
            Performed::Quit => command == Command::Cancel && !picker.busy,
            _ => true,
        },
{
}

/// Opposite keys take opposite steps, one place along one axis.
pub proof fn keys_step_one_place_their_way()
    ensures
        picker_key("left"@) matches Some(left) && step_of(left) == Some(((-1) as i32, 0i32)),
        picker_key("right"@) matches Some(right) && step_of(right) == Some((1i32, 0i32)),
        picker_key("up"@) matches Some(up) && step_of(up) == Some((0i32, (-1) as i32)),
        picker_key("down"@) matches Some(down) && step_of(down) == Some((0i32, 1i32)),
        picker_key("h"@) == picker_key("left"@),
        picker_key("l"@) == picker_key("right"@),
        picker_key("k"@) == picker_key("up"@),
        picker_key("j"@) == picker_key("down"@),
{
    reveal_strlit("left");
    reveal_strlit("right");
    reveal_strlit("up");
    reveal_strlit("down");
    reveal_strlit("h");
    reveal_strlit("j");
    reveal_strlit("k");
    reveal_strlit("l");
    reveal_strlit("escape");
    reveal_strlit("enter");
    reveal_strlit("c");
    reveal_strlit("s");
    reveal_strlit("f");
    reveal_strlit("v");
    reveal_strlit("ctrl-tab");
    reveal_strlit("ctrl-shift-tab");
    reveal_strlit("shift-/");
    assert("left"@[0] != "right"@[0]);
    assert("up"@[0] != "k"@[0]);
    assert("down"@[0] == 'd');
    assert("left"@.len() == 4 && "right"@.len() == 5 && "l"@.len() == 1);
    assert("h"@[0] == 'h' && "j"@[0] == 'j' && "k"@[0] == 'k' && "l"@[0] == 'l');
    assert("c"@[0] == 'c' && "s"@[0] == 's' && "f"@[0] == 'f' && "v"@[0] == 'v');
    assert("escape"@[0] == 'e' && "enter"@[0] == 'e');
}

} // verus!
