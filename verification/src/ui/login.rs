use super::text_input::{far_side, rect_holds, TextInput};
use crate::net;
use vstd::prelude::*;

verus! {

/// Left, top, width and height of the button that sends the form.
pub const LOGIN_BUTTON: (i32, i32, u32, u32) = (90, 100, 100, 30);

/// What a click on the login form has done.
pub struct Clicked {
    /// The field that got the keyboard, if the click hit one.
    pub focused: Option<usize>,
    /// The request to send, if the click hit the button.
    pub request: Option<net::Login>,
}

/// The field `input` with or without the keyboard.
pub open spec fn with_focus(input: TextInput, focus: bool) -> TextInput {
    TextInput { has_focus: focus, ..input }
}

/// The login form: a field for the user's name and one for the password.
pub struct Login {
    pub inputs: [TextInput; 2],
}

impl Default for Login {
    fn default() -> (login: Self)
        ensures
            login.inputs@[0].name@ == "Username"@,
            login.inputs@[0].rect == (10i32, 10i32, 200u32, 20u32),
            !login.inputs@[0].is_password,
            login.inputs@[1].name@ == "Password"@,
            login.inputs@[1].rect == (10i32, 60i32, 200u32, 20u32),
            login.inputs@[1].is_password,
            forall|i: int|
                0 <= i < 2 ==> (#[trigger] login.inputs@[i]).value@ == Seq::<char>::empty()
                    && !login.inputs@[i].has_focus,
    {
        Self {
            inputs: [TextInput::text("Username", (10, 10)), TextInput::password("Password", (10, 60))],
        }
    }
}

impl Login {
    /// The field for the user's name.
    pub fn username(&self) -> (input: &TextInput)
        ensures
            *input == self.inputs@[0],
    {
        &self.inputs[0]
    }

    /// The field for the password, to be changed in place.
    pub fn password_mut(&mut self) -> (input: &mut TextInput)
        ensures
            *input == old(self).inputs@[1],
            final(self).inputs@ =~= old(self).inputs@.update(1, *final(input)),
    {
        &mut self.inputs[1]
    }

    /// The first field that has the keyboard.
    pub open spec fn first_focused(&self) -> Option<usize> {
        if self.inputs@[0].has_focus {
            Some(0usize)
        } else if self.inputs@[1].has_focus {
            Some(1usize)
        } else {
            None
        }
    }

    /// The first field that a click at `position` hits.
    pub open spec fn first_clicked(&self, position: (i32, i32)) -> Option<usize> {
        if rect_holds(self.inputs@[0].rect, position) {
            Some(0usize)
        } else if rect_holds(self.inputs@[1].rect, position) {
            Some(1usize)
        } else {
            None
        }
    }

    /// Takes the keyboard from every field, and tells how many had it.
    pub fn blur_all(&mut self) -> (lost: usize)
        ensures
            final(self).inputs@[0] == with_focus(old(self).inputs@[0], false),
            final(self).inputs@[1] == with_focus(old(self).inputs@[1], false),
            lost == (if old(self).inputs@[0].has_focus {
                1int
            } else {
                0int
            }) + (if old(self).inputs@[1].has_focus {
                1int
            } else {
                0int
            }),
    {
        let mut lost: usize = 0;
        if self.inputs[0].has_focus {
            self.inputs[0].on_blur();
            lost += 1;
        }
        if self.inputs[1].has_focus {
            self.inputs[1].on_blur();
            lost += 1;
        }
        lost
    }

    /// A click at `position`: the first field that it hits gets the
    /// keyboard, and every other field loses it. A click that hits no field
    /// changes nothing.
    pub fn layout_click(&mut self, position: (i32, i32)) -> (focused: Option<usize>)
        ensures
            focused == old(self).first_clicked(position),
            focused is None ==> final(self).inputs@ =~= old(self).inputs@,
            focused is Some ==> final(self).inputs@[0] == with_focus(
                old(self).inputs@[0],
                focused == Some(0usize),
            ) && final(self).inputs@[1] == with_focus(
                old(self).inputs@[1],
                focused == Some(1usize),
            ),
    {
        let clicked_input = if self.inputs[0].is_clicked(position) {
            Some(0usize)
        } else if self.inputs[1].is_clicked(position) {
            Some(1usize)
        } else {
            None
        };
        if let Some(clicked_input) = clicked_input {
            self.blur_all();
            self.inputs[clicked_input].on_focus();
        }
        clicked_input
    }

    /// A click at `position`: the fields react as in `layout_click`, and
    /// where the click hits the button, every field loses the keyboard and
    /// the request is made of the name and of the password, which is taken
    /// out of its field.
    pub fn click(&mut self, position: (i32, i32)) -> (clicked: Clicked)
        ensures
            clicked.focused == old(self).first_clicked(position),
            clicked.request is Some <==> rect_holds(LOGIN_BUTTON, position),
            clicked.request matches Some(request) ==> {
                &&& request.username@ == old(self).inputs@[0].value@
                &&& request.password@ == old(self).inputs@[1].value@
                &&& final(self).inputs@[0] == with_focus(old(self).inputs@[0], false)
                &&& !final(self).inputs@[1].has_focus
                &&& final(self).inputs@[1].value@ == Seq::<char>::empty()
                &&& final(self).inputs@[1].rect == old(self).inputs@[1].rect
                &&& final(self).inputs@[1].name == old(self).inputs@[1].name
                &&& final(self).inputs@[1].is_password == old(self).inputs@[1].is_password
            },
            clicked.request is None && clicked.focused is None ==> final(self).inputs@
                =~= old(self).inputs@,
            clicked.request is None && clicked.focused is Some ==> final(self).inputs@[0]
                == with_focus(old(self).inputs@[0], clicked.focused == Some(0usize)) && final(self).inputs@[1] == with_focus(old(self).inputs@[1], clicked.focused == Some(1usize)),
    {
        let focused = self.layout_click(position);
        if LOGIN_BUTTON.contains(position) {
            let request = self.enter_pressed();
            Clicked { focused, request: Some(request) }
        } else {
            Clicked { focused, request: None }
        }
    }

    /// The return key: every field loses the keyboard, and the request is
    /// made of the name and of the password, which is taken out of its
    /// field.
    pub fn enter_pressed(&mut self) -> (request: net::Login)
        ensures
            request.username@ == old(self).inputs@[0].value@,
            request.password@ == old(self).inputs@[1].value@,
            final(self).inputs@[0] == with_focus(old(self).inputs@[0], false),
            final(self).inputs@[1].value@ == Seq::<char>::empty(),
            !final(self).inputs@[1].has_focus,
            final(self).inputs@[1].rect == old(self).inputs@[1].rect,
            final(self).inputs@[1].name == old(self).inputs@[1].name,
            final(self).inputs@[1].is_password == old(self).inputs@[1].is_password,
    {
        self.blur_all();
        let username = self.username().clone_value();
        let password = self.password_mut().take_value();
        net::Login { username, password }
    }

    /// What was typed goes to the first field that has the keyboard.
    pub fn text_input(&mut self, text: &str)
        ensures
            old(self).first_focused() is None ==> final(self).inputs@ =~= old(self).inputs@,
            old(self).first_focused() matches Some(i) ==> {
                &&& final(self).inputs@[i as int].value@ == old(self).inputs@[i as int].value@
                    + text@
                &&& final(self).inputs@[i as int].rect == old(self).inputs@[i as int].rect
                &&& final(self).inputs@[i as int].name == old(self).inputs@[i as int].name
                &&& final(self).inputs@[i as int].has_focus
                &&& final(self).inputs@[i as int].is_password == old(self).inputs@[i as int].is_password
                &&& final(self).inputs@[1 - i as int] == old(self).inputs@[1 - i as int]
            },
    {
        if self.inputs[0].has_focus {
            self.inputs[0].append(text);
        } else if self.inputs[1].has_focus {
            self.inputs[1].append(text);
        }
    }

    /// The backspace key: every field that has the keyboard loses its last
    /// character.
    pub fn backspace_pressed(&mut self)
        ensures
            forall|i: int|
                0 <= i < 2 ==> {
                    &&& (#[trigger] final(self).inputs@[i]).value@ == if old(self).inputs@[i].has_focus && old(self).inputs@[i].value@.len() > 0 {
                        old(self).inputs@[i].value@.drop_last()
                    } else {
                        old(self).inputs@[i].value@
                    }
                    &&& final(self).inputs@[i].rect == old(self).inputs@[i].rect
                    &&& final(self).inputs@[i].name == old(self).inputs@[i].name
                    &&& final(self).inputs@[i].has_focus == old(self).inputs@[i].has_focus
                    &&& final(self).inputs@[i].is_password == old(self).inputs@[i].is_password
                },
    {
        if self.inputs[0].has_focus {
            self.inputs[0].backspace();
        }
        if self.inputs[1].has_focus {
            self.inputs[1].backspace();
        }
    }

    /// The field that the tabulator key moves the keyboard to: the one
    /// after the first that has it, or the first where none has.
    pub open spec fn tab_target(&self) -> usize {
        match self.first_focused() {
            Some(i) => ((i + 1) % 2) as usize,
            None => 0,
        }
    }

    /// The tabulator key: the first field that has the keyboard loses it,
    /// and the field after it gets it; where no field has it, the first
    /// gets it. The result is the field that got it.
    pub fn tab_pressed(&mut self) -> (next: usize)
        ensures
            next == old(self).tab_target(),
            forall|i: int|
                0 <= i < 2 ==> #[trigger] final(self).inputs@[i] == with_focus(
                    old(self).inputs@[i],
                    i == next || (old(self).inputs@[i].has_focus && Some(i as usize) != old(self).first_focused()),
                ),
    {
        let (current_index, next_index): (Option<usize>, usize) = if self.inputs[0].has_focus {
            (Some(0), 1)
        } else if self.inputs[1].has_focus {
            (Some(1), 0)
        } else {
            (None, 0)
        };

        if let Some(current_index) = current_index {
            self.inputs[current_index].on_blur();
        }
        self.inputs[next_index].on_focus();
        next_index
    }
}

/// A shape that can tell whether it holds a point.
pub trait Contains: Sized {
    /// What `contains` answers.
    spec fn holds(self, point: (i32, i32)) -> bool;

    fn contains(self, point: (i32, i32)) -> (b: bool)
        ensures
            b == self.holds(point),
    ;
}

/// A rectangle given as left, top, width and height; its right and bottom
/// borders count as inside.
impl Contains for (i32, i32, u32, u32) {
    open spec fn holds(self, point: (i32, i32)) -> bool {
        rect_holds(self, point)
    }

    fn contains(self, point: (i32, i32)) -> (b: bool) {
        let (self_x, self_y, self_w, self_h) = self;
        let (x, y) = point;
        self_x <= x && far_side(self_x, self_w) >= x && self_y <= y && far_side(self_y, self_h)
            >= y
    }
}

} // verus!
