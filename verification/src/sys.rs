//! The events of the simulation's own window and the view they select.

use crate::ui::window::Key;
use vstd::prelude::*;

verus! {

/// How far the backdrop's colour moves from one frame to the next.
pub const ANIM_SPEED: u8 = 3;

/// The colour behind everything, which may drift from blue to red and back.
#[derive(Copy, Clone, Debug, PartialEq, Eq, Structural)]
pub struct Backdrop {
    pub clear_color_index: u8,
    pub clear_color_direction: i8,
}

impl Default for Backdrop {
    fn default() -> (backdrop: Self)
        ensures
            backdrop == (Backdrop { clear_color_index: 0, clear_color_direction: 1 }),
    {
        Backdrop { clear_color_index: 0, clear_color_direction: 1 }
    }
}

impl Backdrop {
    /// The backdrop of the next frame: the colour moves on by `ANIM_SPEED`
    /// in its direction, or stays and turns round where it would leave the
    /// range.
    pub open spec fn next(self) -> Backdrop {
        if self.clear_color_direction > 0 {
            if self.clear_color_index + ANIM_SPEED <= u8::MAX {
                Backdrop {
                    clear_color_index: (self.clear_color_index + ANIM_SPEED) as u8,
                    clear_color_direction: self.clear_color_direction,
                }
            } else {
                Backdrop { clear_color_index: self.clear_color_index, clear_color_direction: -1i8 }
            }
        } else if self.clear_color_index >= ANIM_SPEED {
            Backdrop {
                clear_color_index: (self.clear_color_index - ANIM_SPEED) as u8,
                clear_color_direction: self.clear_color_direction,
            }
        } else {
            Backdrop { clear_color_index: self.clear_color_index, clear_color_direction: 1i8 }
        }
    }

    /// The colour to clear this frame with, as red, green and blue. Where
    /// `flashy` is set, the backdrop moves on for the next frame.
    pub fn clear(&mut self, flashy: bool) -> (color: (u8, u8, u8))
        ensures
            color == (
                old(self).clear_color_index,
                64u8,
                (255 - old(self).clear_color_index) as u8,
            ),
            *final(self) == if flashy {
                old(self).next()
            } else {
                *old(self)
            },
    {
        let i = self.clear_color_index;
        let clear_color = (i, 64, 255 - i);

        if flashy {
            self.clear_color_index = if self.clear_color_direction > 0 {
                if self.clear_color_index <= u8::MAX - ANIM_SPEED {
                    self.clear_color_index + ANIM_SPEED
                } else {
                    self.clear_color_direction = -1;
                    self.clear_color_index
                }
            } else if self.clear_color_index >= ANIM_SPEED {
                self.clear_color_index - ANIM_SPEED
            } else {
                self.clear_color_direction = 1;
                self.clear_color_index
            };
        }
        clear_color
    }
}

/// What the simulation window shows.
#[derive(Copy, Clone, Debug, PartialEq, Eq, Structural)]
pub enum WindowStateView {
    HeatMap,
    MaterialMap,
}

/// The part of the window that is drawn to, and what is drawn there.
#[derive(Copy, Clone, Debug)]
pub struct WindowState {
    /// Left, top, width and height.
    pub viewport: (i32, i32, u32, u32),
    pub view: WindowStateView,
}

impl Default for WindowState {
    fn default() -> (state: Self)
        ensures
            state == (WindowState {
                viewport: (0i32, 0i32, 800u32, 600u32),
                view: WindowStateView::HeatMap,
            }),
    {
        Self { viewport: (0, 0, 800, 600), view: WindowStateView::HeatMap }
    }
}

/// A choice that the user made with the keyboard.
#[derive(Copy, Clone, Debug, PartialEq, Eq, Structural)]
pub enum UserInput {
    ViewHeatMap,
    ViewMaterialMap,
}

impl UserInput {
    /// The view that this choice selects.
    pub open spec fn selects(self) -> WindowStateView {
        match self {
            UserInput::ViewHeatMap => WindowStateView::HeatMap,
            UserInput::ViewMaterialMap => WindowStateView::MaterialMap,
        }
    }

    /// Switches the window to the view that was chosen.
    pub fn apply(self, window: &mut WindowState)
        ensures
            final(window).view == self.selects(),
            final(window).viewport == old(window).viewport,
    {
        match self {
            UserInput::ViewHeatMap => window.view = WindowStateView::HeatMap,
            UserInput::ViewMaterialMap => window.view = WindowStateView::MaterialMap,
        }
    }
}

/// What the user did to the simulation window.
#[derive(Copy, Clone, Debug, PartialEq, Eq, Structural)]
pub enum Event {
    Quit,
    Input(UserInput),
}

impl Event {
    /// The event that a key stands for, if it stands for one.
    pub open spec fn of_key(key: Key) -> Option<Event> {
        match key {
            Key::Escape => Some(Event::Quit),
            Key::Num1 => Some(Event::Input(UserInput::ViewMaterialMap)),
            Key::Num2 => Some(Event::Input(UserInput::ViewHeatMap)),
            _ => None,
        }
    }

    /// The event that pressing `key` raises, if it raises one.
    pub fn from_key(key: Key) -> (event: Option<Event>)
        ensures
            event == Event::of_key(key),
    {
        match key {
            Key::Escape => Some(Event::Quit),
            Key::Num1 => Some(Event::Input(UserInput::ViewMaterialMap)),
            Key::Num2 => Some(Event::Input(UserInput::ViewHeatMap)),
            _ => None,
        }
    }

    /// Whether the user asked to leave.
    pub fn is_quit(&self) -> (b: bool)
        ensures
            b == (*self == Event::Quit),
    {
        match self {
            Event::Quit => true,
            _ => false,
        }
    }
}

} // verus!
