//! Menu, chat and mouse-capture modes of the game window.
use vstd::prelude::*;

use crate::ui::chat::ChatState;

verus! {

/// What the window's cursor must do after a mode change.
#[derive(Clone, Copy, Debug, PartialEq, Eq, Structural)]
pub enum CursorCommand {
    /// Nothing to do.
    Keep,
    /// Lock and hide the cursor, then report with `finish_grab`.
    Grab,
    /// Release and show the cursor.
    Release,
}

/// Result of pressing escape.
#[derive(Clone, Copy, Debug, PartialEq, Eq, Structural)]
pub enum EscapeOutcome {
    /// The chat was open and is now closed.
    ClosedChat,
    /// The world is to be saved, and the menu is open; the cursor follows the command.
    OpenedMenu(CursorCommand),
}

/// Whether the mouse drives the camera, whether the start menu shows, and whether a shot waits.
#[derive(Clone, Copy, Debug, PartialEq, Eq, Structural)]
pub struct UiModeState {
    pub mouse_captured: bool,
    pub menu_open: bool,
    pub primary_fire_requested: bool,
}

/// The mode after asking for capture (`captured`) or release, and the cursor command.
pub open spec fn capture_result(s: UiModeState, captured: bool, has_window: bool) -> (UiModeState, CursorCommand) {
    if s.mouse_captured == captured {
        (UiModeState { mouse_captured: s.mouse_captured, menu_open: !captured, primary_fire_requested: false }, CursorCommand::Keep)
    } else if !has_window {
        (UiModeState { mouse_captured: captured, menu_open: !captured, primary_fire_requested: false }, CursorCommand::Keep)
    } else if captured {
        (UiModeState { mouse_captured: s.mouse_captured, menu_open: s.menu_open, primary_fire_requested: false }, CursorCommand::Grab)
    } else {
        (UiModeState { mouse_captured: false, menu_open: true, primary_fire_requested: false }, CursorCommand::Release)
    }
}

impl UiModeState {
    /// A fresh run: the menu shows and the mouse is free.
    pub fn new() -> (s: Self)
        ensures
            s == (UiModeState { mouse_captured: false, menu_open: true, primary_fire_requested: false }),
    {
        UiModeState { mouse_captured: false, menu_open: true, primary_fire_requested: false }
    }

    /// Asks for mouse capture (gameplay) or release (menu). Without a window the change is
    /// immediate; with one, a capture waits for the cursor grab (`finish_grab`).
    pub fn set_mouse_captured(&mut self, captured: bool, has_window: bool) -> (c: CursorCommand)
        ensures
            (*final(self), c) == capture_result(*old(self), captured, has_window),
    {
        self.primary_fire_requested = false;
        if self.mouse_captured == captured {
            self.menu_open = !captured;
            return CursorCommand::Keep;
        }
        if !has_window {
            self.mouse_captured = captured;
            self.menu_open = !captured;
            return CursorCommand::Keep;
        }
        if captured {
            CursorCommand::Grab
        } else {
            self.mouse_captured = false;
            self.menu_open = true;
            CursorCommand::Release
        }
    }

    /// After a cursor grab: gameplay either way; the mouse is captured only if the grab held.
    pub fn finish_grab(&mut self, grabbed: bool)
        ensures
            final(self).mouse_captured == grabbed,
            !final(self).menu_open,
            final(self).primary_fire_requested == old(self).primary_fire_requested,
    {
        self.mouse_captured = grabbed;
        self.menu_open = false;
    }

    /// Closes the chat and shows the menu with the mouse released.
    pub fn open_menu(&mut self, chat: &mut ChatState, has_window: bool) -> (c: CursorCommand)
        requires
            old(chat).wf(),
        ensures
            final(chat).wf(),
            !final(chat).spec_open(),
            final(chat).spec_input().len() == 0,
            final(chat).spec_lines() == old(chat).spec_lines(),
            (*final(self), c) == capture_result(*old(self), false, has_window),
    {
        chat.close();
        self.set_mouse_captured(false, has_window)
    }

    /// Escape drops a pending shot, then closes an open chat, or else saves and opens the menu.
    pub fn handle_escape_action(&mut self, chat: &mut ChatState, has_window: bool) -> (o: EscapeOutcome)
        requires
            old(chat).wf(),
        ensures
            final(chat).wf(),
            !final(chat).spec_open(),
            final(chat).spec_input().len() == 0,
            final(chat).spec_lines() == old(chat).spec_lines(),
            old(chat).spec_open() ==> o == EscapeOutcome::ClosedChat && *final(self) == (UiModeState {
                primary_fire_requested: false,
                ..*old(self)
            }),
            !old(chat).spec_open() ==> ({
                let (s, c) = capture_result(*old(self), false, has_window);
                o == EscapeOutcome::OpenedMenu(c) && *final(self) == s
            }),
    {
        self.primary_fire_requested = false;
        if chat.is_open() {
            chat.close();
            return EscapeOutcome::ClosedChat;
        }
        let c = self.open_menu(chat, has_window);
        EscapeOutcome::OpenedMenu(c)
    }

    /// Toggles mouse capture, unless the chat is open.
    pub fn handle_capture_toggle(&mut self, chat: &ChatState, has_window: bool) -> (c: CursorCommand)
        ensures
            chat.spec_open() ==> c == CursorCommand::Keep && *final(self) == *old(self),
            !chat.spec_open() ==> (*final(self), c) == capture_result(*old(self), !old(self).mouse_captured, has_window),
    {
        if chat.is_open() {
            return CursorCommand::Keep;
        }
        self.set_mouse_captured(!self.mouse_captured, has_window)
    }

    /// A press of the primary mouse button asks for a shot while playing with the mouse captured.
    pub fn register_button_press(&mut self, button: u32, chat: &ChatState)
        ensures
            final(self).mouse_captured == old(self).mouse_captured,
            final(self).menu_open == old(self).menu_open,
            final(self).primary_fire_requested == (old(self).primary_fire_requested || (old(self).mouse_captured
                && !old(self).menu_open && !chat.spec_open() && button == 0)),
    {
        if self.mouse_captured && !self.menu_open && !chat.is_open() && button == 0 {
            self.primary_fire_requested = true;
        }
    }

    /// A click of the primary mouse button: ignored while the chat is open; otherwise it first
    /// captures the mouse if it is free, then asks for a shot if the game is played with the mouse
    /// captured. When the answer is `Grab`, the caller reports the grab with `finish_grab` and then
    /// passes the press on with `register_button_press`.
    pub fn primary_click(&mut self, chat: &ChatState, has_window: bool) -> (c: CursorCommand)
        ensures
            chat.spec_open() ==> *final(self) == *old(self) && c == CursorCommand::Keep,
            !chat.spec_open() ==> {
                let (s1, c1) = if old(self).mouse_captured {
                    (*old(self), CursorCommand::Keep)
                } else {
                    capture_result(*old(self), true, has_window)
                };
                &&& c == c1
                &&& final(self).mouse_captured == s1.mouse_captured
                &&& final(self).menu_open == s1.menu_open
                &&& final(self).primary_fire_requested == (s1.primary_fire_requested || (s1.mouse_captured && !s1.menu_open))
            },
    {
        if chat.is_open() {
            return CursorCommand::Keep;
        }
        let c = if !self.mouse_captured {
            self.set_mouse_captured(true, has_window)
        } else {
            CursorCommand::Keep
        };
        if self.mouse_captured && !self.menu_open {
            self.primary_fire_requested = true;
        }
        c
    }
}

} // verus!
