//! The start menu: four buttons and the world name shown above them.
use vstd::prelude::*;

use crate::ui::text::{displayable_in, sanitize_with};

verus! {

/// Number of buttons of the start menu.
pub const MENU_BUTTON_COUNT: usize = 4;

#[derive(Clone, Copy, Debug, PartialEq, Eq, Structural)]
pub enum MenuCommand {
    PlaySelectedWorld,
    SelectPreviousWorld,
    SelectNextWorld,
    CreateWorld,
    SaveWorld,
    Quit,
}

/// Which start-menu button is highlighted.
#[derive(Debug)]
pub struct StartMenuState {
    selected_button: usize,
}

impl StartMenuState {
    /// The highlighted button is one of the four.
    pub closed spec fn wf(&self) -> bool {
        self.selected_button < 4
    }

    pub closed spec fn selected(&self) -> usize {
        self.selected_button
    }

    pub fn new() -> (m: Self)
        ensures
            m.wf(),
            m.selected() == 0,
    {
        StartMenuState { selected_button: 0 }
    }

    /// Highlights the button above, staying on the first.
    pub fn move_selection_up(&mut self)
        requires
            old(self).wf(),
        ensures
            final(self).wf(),
            final(self).selected() == if old(self).selected() == 0 { 0 } else { (old(self).selected() - 1) as usize },
    {
        self.selected_button = self.selected_button.saturating_sub(1);
    }

    /// Highlights the button below, staying on the last.
    pub fn move_selection_down(&mut self)
        requires
            old(self).wf(),
        ensures
            final(self).wf(),
            final(self).selected() == if old(self).selected() + 1 > 3 { 3 } else { (old(self).selected() + 1) as usize },
    {
        let next = self.selected_button + 1;
        self.selected_button = if next > MENU_BUTTON_COUNT - 1 { MENU_BUTTON_COUNT - 1 } else { next };
    }

    /// The command of the highlighted button: play, new world, save world, quit.
    pub fn activate_selected(&self) -> (c: MenuCommand)
        ensures
            c == (if self.selected() == 0 {
                MenuCommand::PlaySelectedWorld
            } else if self.selected() == 1 {
                MenuCommand::CreateWorld
            } else if self.selected() == 2 {
                MenuCommand::SaveWorld
            } else {
                MenuCommand::Quit
            }),
    {
        match self.selected_button {
            0 => MenuCommand::PlaySelectedWorld,
            1 => MenuCommand::CreateWorld,
            2 => MenuCommand::SaveWorld,
            _ => MenuCommand::Quit,
        }
    }

    pub fn selected_button(&self) -> (i: usize)
        ensures
            i == self.selected(),
    {
        self.selected_button
    }
}

/// The world name as the menu's font shows it; "WORLD" when the name is empty.
pub fn sanitize_menu_text(text: &str) -> (s: String)
    ensures
        s@ == if text@.len() == 0 { "WORLD"@ } else { displayable_in(text@, true) },
{
    sanitize_with(text, "WORLD", true)
}

} // verus!
