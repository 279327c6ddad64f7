use vstd::prelude::*;
use vstd::string::StringExecFns;

verus! {

/// Width of a new text field, label included.
pub const INPUT_WIDTH: u32 = 200;

/// Height of a new text field.
pub const INPUT_HEIGHT: u32 = 20;

/// A labelled one-line text field.
pub struct TextInput {
    /// Left, top, width and height.
    pub rect: (i32, i32, u32, u32),
    pub name: String,
    pub value: String,
    pub is_password: bool,
    pub has_focus: bool,
}

/// The rectangle from `source.0` to `source.1`, borders included, holds
/// `needle`.
pub open spec fn spec_between(source: ((i32, i32), (i32, i32)), needle: (i32, i32)) -> bool {
    &&& source.0.0 <= needle.0 <= source.1.0
    &&& source.0.1 <= needle.1 <= source.1.1
}

/// The rectangle `rect`, given as left, top, width and height, holds
/// `point`; its right and bottom borders count as inside.
pub open spec fn rect_holds(rect: (i32, i32, u32, u32), point: (i32, i32)) -> bool {
    &&& rect.0 <= point.0 <= rect.0 + rect.2
    &&& rect.1 <= point.1 <= rect.1 + rect.3
}

/// Whether the rectangle from `source.0` to `source.1` holds `needle`.
pub fn between(source: ((i32, i32), (i32, i32)), needle: (i32, i32)) -> (b: bool)
    ensures
        b == spec_between(source, needle),
{
    (source.0).0 <= needle.0 && (source.1).0 >= needle.0 && (source.0).1 <= needle.1 && (
    source.1).1 >= needle.1
}

/// The end of a side that starts at `start` and is `length` long, or the
/// largest coordinate there is where the side reaches beyond it.
pub(crate) fn far_side(start: i32, length: u32) -> (end: i32)
    ensures
        end == if start + length <= i32::MAX {
            start + length
        } else {
            i32::MAX as int
        },
{
    let end: i64 = start as i64 + length as i64;
    if end <= i32::MAX as i64 {
        end as i32
    } else {
        i32::MAX
    }
}

/// Removes the last character of `text` and returns it.
///
/// Calls `String::pop`, which takes the last character off the string and
/// hands it back, and leaves an empty string as it is.
#[verifier::external_body]
fn pop_char(text: &mut String) -> (last: Option<char>)
    ensures
        old(text)@.len() == 0 ==> last is None && final(text)@ == old(text)@,
        old(text)@.len() > 0 ==> last == Some(old(text)@.last()) && final(text)@ == old(
            text,
        )@.drop_last(),
{
    text.pop()
}

impl TextInput {
    /// What the field shows: the value, or one star for each of its
    /// characters where the field holds a password.
    pub open spec fn shown(&self) -> Seq<char> {
        if self.is_password {
            Seq::new(self.value@.len(), |i: int| '*')
        } else {
            self.value@
        }
    }

    /// The text to draw for the value of the field.
    pub fn display_value(&self) -> (text: String)
        ensures
            text@ == self.shown(),
    {
        if self.is_password {
            let mut stars = String::new();
            let value = self.value.as_str();
            for c in it: value.chars()
                invariant
                    it.seq().len() == self.value@.len(),
                    stars@ == Seq::new(it.index() as nat, |i: int| '*'),
            {
                proof {
                    reveal_strlit("*");
                }
                stars.append("*");
                assert(stars@ =~= Seq::new((it.index() + 1) as nat, |i: int| '*'));
            }
            stars
        } else {
            self.value.clone()
        }
    }

    /// Puts what was typed at the end of the value.
    pub fn append(&mut self, text: &str)
        ensures
            final(self).value@ == old(self).value@ + text@,
            final(self).rect == old(self).rect,
            final(self).name == old(self).name,
            final(self).is_password == old(self).is_password,
            final(self).has_focus == old(self).has_focus,
    {
        self.value.append(text);
    }

    /// An empty field for plain text with the given label and position.
    pub fn text(name: &str, position: (i32, i32)) -> (input: Self)
        ensures
            input.rect == (position.0, position.1, INPUT_WIDTH, INPUT_HEIGHT),
            input.name@ == name@,
            input.value@ == Seq::<char>::empty(),
            !input.is_password,
            !input.has_focus,
    {
        Self {
            rect: (position.0, position.1, INPUT_WIDTH, INPUT_HEIGHT),
            name: name.to_owned(),
            value: String::new(),
            is_password: false,
            has_focus: false,
        }
    }

    /// An empty field for a password with the given label and position.
    pub fn password(name: &str, position: (i32, i32)) -> (input: Self)
        ensures
            input.rect == (position.0, position.1, INPUT_WIDTH, INPUT_HEIGHT),
            input.name@ == name@,
            input.value@ == Seq::<char>::empty(),
            input.is_password,
            !input.has_focus,
    {
        Self {
            rect: (position.0, position.1, INPUT_WIDTH, INPUT_HEIGHT),
            name: name.to_owned(),
            value: String::new(),
            is_password: true,
            has_focus: false,
        }
    }

    /// Whether a click at `click_position` hits the field.
    pub fn is_clicked(&self, click_position: (i32, i32)) -> (b: bool)
        ensures
            b == rect_holds(self.rect, click_position),
    {
        let top_left = (self.rect.0, self.rect.1);
        let bottom_right = (far_side(self.rect.0, self.rect.2), far_side(self.rect.1, self.rect.3));

        between((top_left, bottom_right), click_position)
    }

    /// A copy of what was typed.
    pub fn clone_value(&self) -> (value: String)
        ensures
            value@ == self.value@,
    {
        self.value.clone()
    }

    /// What was typed. The field is left empty.
    pub fn take_value(&mut self) -> (value: String)
        ensures
            value@ == old(self).value@,
            final(self).value@ == Seq::<char>::empty(),
            final(self).rect == old(self).rect,
            final(self).name == old(self).name,
            final(self).is_password == old(self).is_password,
            final(self).has_focus == old(self).has_focus,
    {
        let mut value = String::new();
        std::mem::swap(&mut self.value, &mut value);
        value
    }

    /// The field loses the keyboard.
    pub fn on_blur(&mut self)
        ensures
            !final(self).has_focus,
            final(self).rect == old(self).rect,
            final(self).name == old(self).name,
            final(self).value == old(self).value,
            final(self).is_password == old(self).is_password,
    {
        self.has_focus = false;
    }

    /// The field gets the keyboard.
    pub fn on_focus(&mut self)
        ensures
            final(self).has_focus,
            final(self).rect == old(self).rect,
            final(self).name == old(self).name,
            final(self).value == old(self).value,
            final(self).is_password == old(self).is_password,
    {
        self.has_focus = true;
    }

    /// Deletes the last character that was typed, if there is one.
    pub fn backspace(&mut self)
        ensures
            final(self).value@ == if old(self).value@.len() > 0 {
                old(self).value@.drop_last()
            } else {
                old(self).value@
            },
            final(self).rect == old(self).rect,
            final(self).name == old(self).name,
            final(self).is_password == old(self).is_password,
            final(self).has_focus == old(self).has_focus,
    {
        pop_char(&mut self.value);
    }
}

} // verus!
