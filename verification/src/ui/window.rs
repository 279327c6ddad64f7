use vstd::prelude::*;

verus! {

/// The fonts that the window can draw with.
#[derive(PartialEq, Eq, Hash, Debug, Copy, Clone, Structural)]
pub enum FontType {
    Roboto,
}

/// Which side of a label sits at the x coordinate it is drawn at.
#[derive(PartialEq, Eq, Debug, Copy, Clone, Structural)]
pub enum HorizontalOffset {
    Left,
    Center,
    Right,
}

impl HorizontalOffset {
    /// How far the left edge of a label of the given width lies from the
    /// point it is drawn at.
    pub open spec fn shift(self, width: u32) -> int {
        match self {
            HorizontalOffset::Left => 0,
            HorizontalOffset::Center => width as int / 2,
            HorizontalOffset::Right => width as int,
        }
    }

    /// The x coordinate of the left edge of a label of the given width that
    /// is drawn at `x`.
    pub fn calculate(self, x: i32, width: u32) -> (left: i32)
        requires
            i32::MIN <= x - self.shift(width),
        ensures
            left == x - self.shift(width),
    {
        let left: i64 = match self {
            HorizontalOffset::Left => x as i64,
            HorizontalOffset::Center => x as i64 - (width as i64 / 2),
            HorizontalOffset::Right => x as i64 - width as i64,
        };
        left as i32
    }
}

/// Which side of a label sits at the y coordinate it is drawn at.
#[derive(PartialEq, Eq, Debug, Copy, Clone, Structural)]
pub enum VerticalOffset {
    Top,
    Center,
    Bottom,
}

impl VerticalOffset {
    /// How far the top edge of a label of the given height lies from the
    /// point it is drawn at.
    pub open spec fn shift(self, height: u32) -> int {
        match self {
            VerticalOffset::Top => 0,
            VerticalOffset::Center => height as int / 2,
            VerticalOffset::Bottom => height as int,
        }
    }

    /// The y coordinate of the top edge of a label of the given height that
    /// is drawn at `y`.
    pub fn calculate(self, y: i32, height: u32) -> (top: i32)
        requires
            i32::MIN <= y - self.shift(height),
        ensures
            top == y - self.shift(height),
    {
        let top: i64 = match self {
            VerticalOffset::Top => y as i64,
            VerticalOffset::Center => y as i64 - (height as i64 / 2),
            VerticalOffset::Bottom => y as i64 - height as i64,
        };
        top as i32
    }
}

/// A colour, as red, green and blue.
#[derive(Copy, Clone, Debug, Hash, Eq, PartialEq, Structural)]
pub struct Color {
    pub r: u8,
    pub g: u8,
    pub b: u8,
}

impl Color {
    pub fn blue() -> (color: Color)
        ensures
            color == (Color { r: 0, g: 0, b: 255 }),
    {
        Color { r: 0, g: 0, b: 255 }
    }

    pub fn white() -> (color: Color)
        ensures
            color == (Color { r: 255, g: 255, b: 255 }),
    {
        Color { r: 255, g: 255, b: 255 }
    }

    pub fn dark_gray() -> (color: Color)
        ensures
            color == (Color { r: 50, g: 50, b: 50 }),
    {
        Color { r: 50, g: 50, b: 50 }
    }

    pub fn black() -> (color: Color)
        ensures
            color == (Color { r: 0, g: 0, b: 0 }),
    {
        Color { r: 0, g: 0, b: 0 }
    }
}

/// The keys that mean something to one of the windows.
#[derive(PartialEq, Eq, Hash, Debug, Copy, Clone, Structural)]
pub enum Key {
    Escape,
    Tab,
    Return,
    KpEnter,
    Backspace,
    Num1,
    Num2,
    /// Any other key.
    Other,
}

/// What the user did to the window.
#[derive(Clone, Debug)]
pub enum Event {
    CloseRequested,
    MouseMove { x: i32, y: i32 },
    Click { x: i32, y: i32 },
    Tab,
    Enter,
    Backspace,
    TextInput { text: String },
}

impl Event {
    /// The event that a key stands for, if it stands for one.
    pub open spec fn of_key(key: Key) -> Option<Event> {
        match key {
            Key::Escape => Some(Event::CloseRequested),
            Key::Tab => Some(Event::Tab),
            Key::Return => Some(Event::Enter),
            Key::KpEnter => Some(Event::Enter),
            Key::Backspace => Some(Event::Backspace),
            _ => None,
        }
    }

    /// The event that pressing `key` raises, if it raises one.
    pub fn from_key(key: Key) -> (event: Option<Event>)
        ensures
            event == Event::of_key(key),
    {
        match key {
            Key::Escape => Some(Event::CloseRequested),
            Key::Tab => Some(Event::Tab),
            Key::Return => Some(Event::Enter),
            Key::KpEnter => Some(Event::Enter),
            Key::Backspace => Some(Event::Backspace),
            _ => None,
        }
    }
}

/// Where the mouse was seen last.
#[derive(Debug, Clone, Copy)]
pub struct Pointer {
    pub last_mouse_position: Option<(i32, i32)>,
}

impl Default for Pointer {
    fn default() -> (pointer: Self)
        ensures
            pointer.last_mouse_position is None,
    {
        Pointer { last_mouse_position: None }
    }
}

impl Pointer {
    /// The distance between two coordinates.
    pub open spec fn gap(a: int, b: int) -> int {
        if a <= b {
            b - a
        } else {
            a - b
        }
    }

    /// Remembers where the mouse is.
    pub fn set_last_mouse_position(&mut self, position: (i32, i32))
        ensures
            final(self).last_mouse_position == Some(position),
    {
        self.last_mouse_position = Some(position);
    }

    /// Whether the mouse was last seen less than `distance` away from
    /// `point` on either axis. A mouse that was never seen is near nothing.
    pub fn mouse_near(&self, point: (i32, i32), distance: u32) -> (near: bool)
        ensures
            near == match self.last_mouse_position {
                Some(seen) => Pointer::gap(point.0 as int, seen.0 as int) < distance
                    && Pointer::gap(point.1 as int, seen.1 as int) < distance,
                None => false,
            },
    {
        match self.last_mouse_position {
            Some((mx, my)) => {
                let dx: i64 = if point.0 >= mx {
                    point.0 as i64 - mx as i64
                } else {
                    mx as i64 - point.0 as i64
                };
                let dy: i64 = if point.1 >= my {
                    point.1 as i64 - my as i64
                } else {
                    my as i64 - point.1 as i64
                };
                dx < distance as i64 && dy < distance as i64
            },
            None => false,
        }
    }
}

} // verus!
