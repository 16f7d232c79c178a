//! Ready-made widgets: a text block, a menu selector, and a text box.
//!
//! These are ordinary implementations of [`SerpentElement`]; hosts add
//! their own widget kinds by implementing the same trait.

use vstd::prelude::*;
use crate::{Color, ColorText, ColorTextView, ElementType, InputType, SerpentElement, SerpentWriter};

verus! {

/// Relies on String::push: appends one character at the end.
#[verifier::external_body]
fn push_char(s: &mut String, c: char)
    ensures
        final(s)@ == old(s)@.push(c),
{
    s.push(c);
}

/// Displays a fixed block of text.  Lazy class; it reacts to nothing.
pub struct Text {
    pub content: String,
}

impl Text {
    /// A text block showing `content`.
    pub fn new(content: String) -> (r: Self)
        ensures
            r.content == content,
    {
        Text { content }
    }
}

impl SerpentElement for Text {
    open spec fn type_spec(&self) -> ElementType {
        ElementType::Lazy
    }

    open spec fn focused_post(&self, post: Self) -> bool {
        post == *self
    }

    open spec fn unfocused_post(&self, post: Self) -> bool {
        post == *self
    }

    open spec fn action_post(&self, action: u32, post: Self) -> bool {
        post == *self
    }

    open spec fn live_key_post(&self, input: InputType, post: Self) -> bool {
        post == *self
    }

    open spec fn show_spec(&self) -> Seq<ColorTextView> {
        seq![
            ColorTextView {
                location: (0nat, 0nat),
                text: self.content@,
                foreground: Color::Default,
                background: Color::Default,
            },
        ]
    }

    fn show(&self) -> (output: SerpentWriter)
        ensures
            output@ == self.show_spec(),
    {
        let mut output = SerpentWriter::new();
        output.print(ColorText::simple(self.content.clone()));
        proof {
            assert(output@ =~= self.show_spec());
        }
        output
    }

    fn get_type(&self) -> (t: ElementType)
        ensures
            t == self.type_spec(),
    {
        ElementType::Lazy
    }

    fn focused(&mut self)
        ensures
            *final(self) == *old(self),
    {
    }

    fn unfocused(&mut self)
        ensures
            *final(self) == *old(self),
    {
    }

    fn action(&mut self, action: u32)
        ensures
            *final(self) == *old(self),
    {
    }

    fn live_key(&mut self, input: InputType)
        ensures
            *final(self) == *old(self),
    {
    }
}

/// Lets the user pick one entry from a list.  Lazy class: it reacts to
/// discrete actions, which it records for the host to interpret.
pub struct MenuSelector {
    pub options: Vec<String>,
    pub selected: usize,
    pub highlighted: bool,
    pub last_action: Option<u32>,
}

impl MenuSelector {
    /// A selector over `options`, with the first entry selected.
    pub fn new(options: Vec<String>) -> (r: Self)
        ensures
            r.options == options,
            r.selected == 0,
            r.highlighted == false,
            r.last_action is None,
    {
        MenuSelector { options, selected: 0, highlighted: false, last_action: None }
    }

    /// What one option row renders as: row `i`, with the selected row
    /// drawn in inverted colors while the selector is highlighted.
    pub open spec fn row_spec(&self, i: int) -> ColorTextView {
        ColorTextView {
            location: (0nat, i as nat),
            text: self.options@[i]@,
            foreground: if i == self.selected && self.highlighted {
                Color::Black
            } else {
                Color::Default
            },
            background: if i == self.selected && self.highlighted {
                Color::White
            } else {
                Color::Default
            },
        }
    }
}

impl SerpentElement for MenuSelector {
    open spec fn type_spec(&self) -> ElementType {
        ElementType::Lazy
    }

    open spec fn focused_post(&self, post: Self) -> bool {
        post == (MenuSelector { highlighted: true, ..*self })
    }

    open spec fn unfocused_post(&self, post: Self) -> bool {
        post == (MenuSelector { highlighted: false, ..*self })
    }

    open spec fn action_post(&self, action: u32, post: Self) -> bool {
        post == (MenuSelector { last_action: Option::Some(action), ..*self })
    }

    open spec fn live_key_post(&self, input: InputType, post: Self) -> bool {
        post == *self
    }

    open spec fn show_spec(&self) -> Seq<ColorTextView> {
        Seq::new(self.options@.len(), |i: int| self.row_spec(i))
    }

    fn show(&self) -> (output: SerpentWriter)
        ensures
            output@ == self.show_spec(),
    {
        let mut output = SerpentWriter::new();
        let n = self.options.len();
        proof {
            assert(output@ =~= self.show_spec().take(0));
        }
        for i in 0..n
            invariant
                n == self.options@.len(),
                output@ == self.show_spec().take(i as int),
        {
            let highlight = self.highlighted && i == self.selected;
            let fragment = ColorText::new(
                self.options[i].clone(),
                if highlight {
                    Color::Black
                } else {
                    Color::Default
                },
                if highlight {
                    Color::White
                } else {
                    Color::Default
                },
                (0, i),
            );
            output.print(fragment);
            proof {
                assert(output@ =~= self.show_spec().take(i + 1));
            }
        }
        proof {
            assert(self.show_spec().take(n as int) =~= self.show_spec());
        }
        output
    }

    fn get_type(&self) -> (t: ElementType)
        ensures
            t == self.type_spec(),
    {
        ElementType::Lazy
    }

    fn focused(&mut self)
        ensures
            *final(self) == (MenuSelector { highlighted: true, ..*old(self) }),
    {
        self.highlighted = true;
    }

    fn unfocused(&mut self)
        ensures
            *final(self) == (MenuSelector { highlighted: false, ..*old(self) }),
    {
        self.highlighted = false;
    }

    fn action(&mut self, action: u32)
        ensures
            *final(self) == (MenuSelector { last_action: Option::Some(action), ..*old(self) }),
    {
        self.last_action = Some(action);
    }

    fn live_key(&mut self, input: InputType)
        ensures
            *final(self) == *old(self),
    {
    }
}

/// A free-text input field.  Live class: once live-focused it consumes
/// every raw key; printable ASCII keys append to its content.
pub struct TextBox {
    pub content: String,
}

/// Whether `key` is a printable ASCII key code.
pub open spec fn printable_key(key: i32) -> bool {
    32 <= key <= 126
}

impl TextBox {
    /// An empty text box.
    pub fn new() -> (r: Self)
        ensures
            r.content@ == Seq::<char>::empty(),
    {
        TextBox { content: String::new() }
    }
}

impl SerpentElement for TextBox {
    open spec fn type_spec(&self) -> ElementType {
        ElementType::Live
    }

    open spec fn focused_post(&self, post: Self) -> bool {
        post == *self
    }

    open spec fn unfocused_post(&self, post: Self) -> bool {
        post == *self
    }

    open spec fn action_post(&self, action: u32, post: Self) -> bool {
        post == *self
    }

    open spec fn live_key_post(&self, input: InputType, post: Self) -> bool {
        match input {
            InputType::Key(k) => if printable_key(k) {
                post.content@ == self.content@.push(k as char)
            } else {
                post == *self
            },
            InputType::Mouse { x, y, event } => post == *self,
        }
    }

    open spec fn show_spec(&self) -> Seq<ColorTextView> {
        seq![
            ColorTextView {
                location: (0nat, 0nat),
                text: self.content@,
                foreground: Color::Default,
                background: Color::Default,
            },
        ]
    }

    fn show(&self) -> (output: SerpentWriter)
        ensures
            output@ == self.show_spec(),
    {
        let mut output = SerpentWriter::new();
        output.print(ColorText::simple(self.content.clone()));
        proof {
            assert(output@ =~= self.show_spec());
        }
        output
    }

    fn get_type(&self) -> (t: ElementType)
        ensures
            t == self.type_spec(),
    {
        ElementType::Live
    }

    fn focused(&mut self)
        ensures
            *final(self) == *old(self),
    {
    }

    fn unfocused(&mut self)
        ensures
            *final(self) == *old(self),
    {
    }

    fn action(&mut self, action: u32)
        ensures
            *final(self) == *old(self),
    {
    }

    fn live_key(&mut self, input: InputType)
        ensures
            input matches InputType::Key(k) ==> {
                &&& printable_key(k) ==> final(self).content@ == old(self).content@.push(
                    k as char,
                )
                &&& !printable_key(k) ==> *final(self) == *old(self)
            },
            input matches InputType::Mouse { x, y, event } ==> *final(self) == *old(self),
    {
        match input {
            InputType::Key(k) => {
                if 32 <= k && k <= 126 {
                    let c: char = (k as u8) as char;
                    proof {
                        assert(c == k as char);
                    }
                    push_char(&mut self.content, c);
                }
            },
            InputType::Mouse { x: _, y: _, event: _ } => (),
        }
    }
}

} // verus!
