//! The state behind the client's screens: text fields, the login form, and
//! the events and layout rules of its window.

pub mod login;
pub mod text_input;
pub mod window;

pub use login::{Contains, Login};
pub use text_input::TextInput;
pub use window::{Color, Event, FontType, HorizontalOffset, Key, Pointer, VerticalOffset};
