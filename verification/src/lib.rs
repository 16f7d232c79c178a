//! A terminal-UI composition layer.
//!
//! A screen is described as a tree of rectangular regions ("partitions"),
//! each optionally hosting one interactive widget ("element").  Keyboard
//! input is resolved against a global binding table and the active page's
//! local bindings into application-defined action identifiers, and routed
//! to the focused element.  The terminal itself is an external collaborator:
//! this crate only decides what to paint and which actions an input event
//! triggers.

pub mod bindings;
pub mod elements;
pub mod error;
pub mod internal;

use vstd::prelude::*;

use crate::bindings::{append_resolved, bind_pair, resolve_pairs, unbind_pair};
use crate::error::SerpentError;
use crate::internal::{actions_delivered, focus_idx, same_layout, Page, PartitionHandle};

verus! {

/// Symbolic color; resolution to a terminal-native color id is the
/// terminal driver's concern.
#[derive(Clone, Copy, Debug, PartialEq, Eq, Structural)]
pub enum Color {
    Default,
    Black,
    White,
    Red,
    Green,
    Blue,
    Cyan,
    Magenta,
    Yellow,
}

/// Mathematical model of a [`ColorText`] fragment: a position, the text as
/// a sequence of characters, and the two symbolic colors.
pub ghost struct ColorTextView {
    pub location: (nat, nat),
    pub text: Seq<char>,
    pub foreground: Color,
    pub background: Color,
}

/// One positioned, colored text fragment, produced by an element's render
/// call.  The location is relative to the partition the element lives in.
pub struct ColorText {
    pub location: (usize, usize),
    pub text: String,
    pub foreground: Color,
    pub background: Color,
}

impl View for ColorText {
    type V = ColorTextView;

    open spec fn view(&self) -> ColorTextView {
        ColorTextView {
            location: (self.location.0 as nat, self.location.1 as nat),
            text: self.text@,
            foreground: self.foreground,
            background: self.background,
        }
    }
}

impl ColorText {
    /// Builds a fragment from its four parts.
    pub fn new(text: String, foreground: Color, background: Color, location: (usize, usize)) -> (r: Self)
        ensures
            r.location == location,
            r.text == text,
            r.foreground == foreground,
            r.background == background,
    {
        ColorText { location, text, foreground, background }
    }

    /// Builds a fragment at the origin with default colors.
    pub fn simple(text: String) -> (r: Self)
        ensures
            r.location == (0usize, 0usize),
            r.text == text,
            r.foreground == Color::Default,
            r.background == Color::Default,
    {
        ColorText {
            location: (0, 0),
            text: text,
            foreground: Color::Default,
            background: Color::Default,
        }
    }
}

/// A render buffer: the ordered sequence of fragments accumulated during
/// one render pass.  Append-only; the compositor consumes it by value.
pub struct SerpentWriter {
    messages: Vec<ColorText>,
}

impl View for SerpentWriter {
    type V = Seq<ColorTextView>;

    closed spec fn view(&self) -> Seq<ColorTextView> {
        self.messages@.map_values(|m: ColorText| m@)
    }
}

impl SerpentWriter {
    /// An empty buffer.
    pub fn new() -> (r: Self)
        ensures
            r@ == Seq::<ColorTextView>::empty(),
    {
        let r = SerpentWriter { messages: Vec::new() };
        proof {
            assert(r@ =~= Seq::<ColorTextView>::empty());
        }
        r
    }

    /// Appends one fragment to the buffer.
    pub fn print(&mut self, message: ColorText)
        ensures
            final(self)@ == old(self)@.push(message@),
    {
        self.messages.push(message);
        proof {
            assert(self@ =~= old(self)@.push(message@));
        }
    }

    /// The fragments in order, for a compositor to paint.
    pub fn messages(&self) -> (r: &Vec<ColorText>)
        ensures
            r@.map_values(|m: ColorText| m@) == self@,
    {
        &self.messages
    }
}

/// Distinguishes a keypress from a mouse event.
#[derive(Clone, Copy, Debug, PartialEq, Eq, Structural)]
pub enum InputType {
    Key(i32),
    Mouse { x: i32, y: i32, event: u32 },
}

/// One input event, together with the action identifiers it resolved to.
#[derive(Clone, Debug)]
pub struct SerpentEvent {
    pub input: InputType,
    pub actions: Vec<u32>,
}

/// How an element takes part in focus and input routing.  `Lazy` elements
/// react to discrete actions; `Live` elements consume every raw key while
/// they hold live focus.
#[derive(Clone, Copy, Debug, PartialEq, Eq, Structural)]
pub enum ElementType {
    Lazy,
    Live,
}

/// The capability contract every widget satisfies.  The set of widgets is
/// open: hosts define their own element types by implementing this trait.
///
/// Each lifecycle method carries a transition relation (`focused_post`
/// and friends): the implementor states how the call changes the
/// element, and the layer above promises that very relation between the
/// element's old and new value whenever it fires the hook.  A page
/// operation therefore cannot skip a hook: its contract would demand a
/// transition that never happened.
pub trait SerpentElement: Sized {
    /// The element's class; fixed for the lifetime of the instance.
    spec fn type_spec(&self) -> ElementType;

    /// The fragments the element currently renders, relative to its
    /// partition's origin.
    spec fn show_spec(&self) -> Seq<ColorTextView>;

    /// How a `focused()` call changes the element: relates the value
    /// before the call to the value after it.
    spec fn focused_post(&self, post: Self) -> bool;

    /// How an `unfocused()` call changes the element.
    spec fn unfocused_post(&self, post: Self) -> bool;

    /// How delivery of the discrete action `action` changes the element.
    spec fn action_post(&self, action: u32, post: Self) -> bool;

    /// How delivery of the raw input `input` changes the element.
    spec fn live_key_post(&self, input: InputType, post: Self) -> bool;

    /// Renders into a fresh buffer; never touches the terminal.
    fn show(&self) -> (output: SerpentWriter)
        ensures
            output@ == self.show_spec(),
    ;

    /// Reports the element's class.
    fn get_type(&self) -> (t: ElementType)
        ensures
            t == self.type_spec(),
    ;

    /// Focus lifecycle hook: the element gained focus.
    fn focused(&mut self)
        ensures
            final(self).type_spec() == old(self).type_spec(),
            old(self).focused_post(*final(self)),
    ;

    /// Focus lifecycle hook: the element lost focus.
    fn unfocused(&mut self)
        ensures
            final(self).type_spec() == old(self).type_spec(),
            old(self).unfocused_post(*final(self)),
    ;

    /// A discrete action resolved while this element held lazy focus.
    fn action(&mut self, action: u32)
        ensures
            final(self).type_spec() == old(self).type_spec(),
            old(self).action_post(action, *final(self)),
    ;

    /// A raw key arrived while this element held live focus.
    fn live_key(&mut self, input: InputType)
        ensures
            final(self).type_spec() == old(self).type_spec(),
            old(self).live_key_post(input, *final(self)),
    ;
}

/// Relies on termsize::get: the terminal's current dimensions, read as
/// (columns, rows).  `None` when they cannot be determined (e.g. the
/// process has no terminal).  The dimensions come from the machine, so
/// beyond the u16 range of the source nothing is promised of them.
#[verifier::external_body]
fn query_terminal_size() -> (r: Option<(usize, usize)>)
    ensures
        r matches Some(s) ==> s.0 <= u16::MAX && s.1 <= u16::MAX,
{
    termsize::get().map(|s| (s.cols as usize, s.rows as usize))
}

/// The session: owns every page, the global key bindings, and the
/// action-identifier allocator.  Pages are addressed by stable integer
/// index, in creation order.
pub struct UI<E> {
    pub pages: Vec<Page<E>>,
    pub action_counter: u32,
    pub actions: Vec<(i32, u32)>,
}

impl<E: SerpentElement> UI<E> {
    /// The session's invariant: every page well-formed, global bindings
    /// duplicate-free.
    pub open spec fn wf(&self) -> bool {
        &&& forall|i: int| 0 <= i < self.pages@.len() ==> (#[trigger] self.pages@[i]).wf()
        &&& self.actions@.no_duplicates()
    }

    /// A fresh session: no pages, no bindings, no actions allocated.
    /// Acquiring the terminal is the host's business, outside this
    /// library.
    pub fn new() -> (r: Self)
        ensures
            r.wf(),
            r.pages@.len() == 0,
            r.action_counter == 0,
            r.actions@ == Seq::<(i32, u32)>::empty(),
    {
        UI { pages: Vec::new(), action_counter: 0, actions: Vec::new() }
    }

    /// Creates a page sized to the given terminal dimensions and hands
    /// back its index together with a handle to its base partition.
    pub fn new_page_with_size(&mut self, size: (usize, usize)) -> (r: (usize, PartitionHandle))
        requires
            old(self).wf(),
            1 <= size.0,
            1 <= size.1,
        ensures
            final(self).wf(),
            r.0 == old(self).pages@.len(),
            r.1.id == 0,
            final(self).pages@.len() == old(self).pages@.len() + 1,
            forall|j: int|
                0 <= j < old(self).pages@.len() ==> final(self).pages@[j] == old(self).pages@[j],
            final(self).pages@[r.0 as int].wf(),
            final(self).pages@[r.0 as int].size == size,
            final(self).pages@[r.0 as int].partitions@.len() == 1,
            final(self).pages@[r.0 as int].partitions@[0].partition.id == 0,
            final(self).pages@[r.0 as int].partitions@[0].partition.element is None,
            final(self).pages@[r.0 as int].partitions@[0].offset == (0usize, 0usize),
            final(self).pages@[r.0 as int].partitions@[0].size == size,
            final(self).pages@[r.0 as int].actions@ == Seq::<(i32, u32)>::empty(),
            final(self).pages@[r.0 as int].lazy_focus is None,
            final(self).pages@[r.0 as int].live_focus is None,
            final(self).pages@[r.0 as int].next_partition_id == 1,
            final(self).actions == old(self).actions,
            final(self).action_counter == old(self).action_counter,
    {
        let page = Page::new(size);
        let idx = self.pages.len();
        self.pages.push(page);
        (idx, PartitionHandle { id: 0 })
    }

    /// Creates a page sized to the current terminal; fails with
    /// `TerminalSizeError` when the terminal's dimensions cannot be
    /// determined (or are degenerate), leaving the session unchanged.
    /// The returned index is stable for the session's lifetime.
    pub fn new_page(&mut self) -> (r: Result<(usize, PartitionHandle), SerpentError>)
        requires
            old(self).wf(),
        ensures
            final(self).wf(),
            r matches Err(e) ==> e == SerpentError::TerminalSizeError && *final(self) == *old(
                self,
            ),
            r matches Ok(p) ==> {
                &&& p.0 == old(self).pages@.len()
                &&& p.1.id == 0
                &&& final(self).pages@.len() == old(self).pages@.len() + 1
                &&& forall|j: int|
                    0 <= j < old(self).pages@.len() ==> final(self).pages@[j] == old(
                        self,
                    ).pages@[j]
                &&& final(self).pages@[p.0 as int].wf()
                &&& 1 <= final(self).pages@[p.0 as int].size.0
                &&& 1 <= final(self).pages@[p.0 as int].size.1
                &&& final(self).pages@[p.0 as int].partitions@.len() == 1
                &&& final(self).pages@[p.0 as int].partitions@[0].partition.id == 0
                &&& final(self).pages@[p.0 as int].partitions@[0].partition.element is None
                &&& final(self).pages@[p.0 as int].partitions@[0].offset == (0usize, 0usize)
                &&& final(self).pages@[p.0 as int].partitions@[0].size
                    == final(self).pages@[p.0 as int].size
                &&& final(self).pages@[p.0 as int].actions@ == Seq::<(i32, u32)>::empty()
                &&& final(self).pages@[p.0 as int].lazy_focus is None
                &&& final(self).pages@[p.0 as int].live_focus is None
                &&& final(self).pages@[p.0 as int].next_partition_id == 1
                &&& final(self).actions == old(self).actions
                &&& final(self).action_counter == old(self).action_counter
            },
    {
        match query_terminal_size() {
            Option::None => Err(SerpentError::TerminalSizeError),
            Option::Some(size) => {
                if size.0 == 0 || size.1 == 0 {
                    Err(SerpentError::TerminalSizeError)
                } else {
                    Ok(self.new_page_with_size(size))
                }
            },
        }
    }

    /// Allocates and returns a fresh action identifier; identifiers are
    /// handed out in increasing order and never reused within a session.
    pub fn new_action(&mut self) -> (r: u32)
        requires
            old(self).action_counter < u32::MAX,
        ensures
            r == old(self).action_counter,
            final(self).action_counter == old(self).action_counter + 1,
            final(self).pages == old(self).pages,
            final(self).actions == old(self).actions,
    {
        self.action_counter += 1;
        self.action_counter - 1
    }

    /// Adds `action` to the set the session binds to `key` for every
    /// page; reports whether the pair was newly added.
    pub fn bind_global(&mut self, key: i32, action: u32) -> (added: bool)
        requires
            old(self).wf(),
        ensures
            final(self).wf(),
            final(self).actions@.to_set() == old(self).actions@.to_set().insert((key, action)),
            added == !old(self).actions@.to_set().contains((key, action)),
            final(self).pages == old(self).pages,
            final(self).action_counter == old(self).action_counter,
    {
        bind_pair(&mut self.actions, key, action)
    }

    /// Removes `action` from the set the session binds to `key`;
    /// reports whether the pair had been present.
    pub fn unbind_global(&mut self, key: i32, action: u32) -> (present: bool)
        requires
            old(self).wf(),
        ensures
            final(self).wf(),
            final(self).actions@.to_set() == old(self).actions@.to_set().remove((key, action)),
            present == old(self).actions@.to_set().contains((key, action)),
            final(self).pages == old(self).pages,
            final(self).action_counter == old(self).action_counter,
    {
        unbind_pair(&mut self.actions, key, action)
    }

    /// Adds `action` to the set page `page` binds to `key`; reports
    /// whether the pair was newly added.
    pub fn bind_local(&mut self, key: i32, action: u32, page: usize) -> (added: bool)
        requires
            old(self).wf(),
            page < old(self).pages@.len(),
        ensures
            final(self).wf(),
            final(self).pages@.len() == old(self).pages@.len(),
            forall|j: int|
                0 <= j < old(self).pages@.len() && j != page ==> final(self).pages@[j] == old(
                    self,
                ).pages@[j],
            final(self).pages@[page as int].actions@.to_set() == old(
                self,
            ).pages@[page as int].actions@.to_set().insert((key, action)),
            added == !old(self).pages@[page as int].actions@.to_set().contains((key, action)),
            final(self).pages@[page as int].partitions == old(
                self,
            ).pages@[page as int].partitions,
            final(self).pages@[page as int].size == old(self).pages@[page as int].size,
            final(self).pages@[page as int].lazy_focus == old(
                self,
            ).pages@[page as int].lazy_focus,
            final(self).pages@[page as int].live_focus == old(
                self,
            ).pages@[page as int].live_focus,
            final(self).pages@[page as int].next_partition_id == old(
                self,
            ).pages@[page as int].next_partition_id,
            final(self).actions == old(self).actions,
            final(self).action_counter == old(self).action_counter,
    {
        let mut pg = self.pages.remove(page);
        let added = pg.bind_local(key, action);
        self.pages.insert(page, pg);
        added
    }

    /// Removes `action` from the set page `page` binds to `key`;
    /// reports whether the pair had been present.
    pub fn unbind_local(&mut self, key: i32, action: u32, page: usize) -> (present: bool)
        requires
            old(self).wf(),
            page < old(self).pages@.len(),
        ensures
            final(self).wf(),
            final(self).pages@.len() == old(self).pages@.len(),
            forall|j: int|
                0 <= j < old(self).pages@.len() && j != page ==> final(self).pages@[j] == old(
                    self,
                ).pages@[j],
            final(self).pages@[page as int].actions@.to_set() == old(
                self,
            ).pages@[page as int].actions@.to_set().remove((key, action)),
            present == old(self).pages@[page as int].actions@.to_set().contains((key, action)),
            final(self).pages@[page as int].partitions == old(
                self,
            ).pages@[page as int].partitions,
            final(self).pages@[page as int].size == old(self).pages@[page as int].size,
            final(self).pages@[page as int].lazy_focus == old(
                self,
            ).pages@[page as int].lazy_focus,
            final(self).pages@[page as int].live_focus == old(
                self,
            ).pages@[page as int].live_focus,
            final(self).pages@[page as int].next_partition_id == old(
                self,
            ).pages@[page as int].next_partition_id,
            final(self).actions == old(self).actions,
            final(self).action_counter == old(self).action_counter,
    {
        let mut pg = self.pages.remove(page);
        let present = pg.unbind_local(key, action);
        self.pages.insert(page, pg);
        present
    }

    /// Routes one input event against page `page`.
    ///
    /// For a key event: when the page has live focus, the raw key goes
    /// to that element alone and no actions are triggered; otherwise the
    /// key resolves to the union of the global bindings and the page's
    /// local bindings, each resulting action is handed to the
    /// lazy-focused element (if any), and the whole resolved set is
    /// returned so the host can also react at session level.  Mouse
    /// events trigger no actions here; the host reads them from the
    /// event itself.
    pub fn dispatch(&mut self, input: InputType, page: usize) -> (r: Vec<u32>)
        requires
            old(self).wf(),
            page < old(self).pages@.len(),
        ensures
            final(self).wf(),
            final(self).actions == old(self).actions,
            final(self).action_counter == old(self).action_counter,
            final(self).pages@.len() == old(self).pages@.len(),
            forall|j: int|
                0 <= j < old(self).pages@.len() && j != page ==> final(self).pages@[j] == old(
                    self,
                ).pages@[j],
            final(self).pages@[page as int].lazy_focus == old(
                self,
            ).pages@[page as int].lazy_focus,
            final(self).pages@[page as int].live_focus == old(
                self,
            ).pages@[page as int].live_focus,
            final(self).pages@[page as int].actions == old(self).pages@[page as int].actions,
            final(self).pages@[page as int].size == old(self).pages@[page as int].size,
            final(self).pages@[page as int].next_partition_id == old(
                self,
            ).pages@[page as int].next_partition_id,
            same_layout(
                old(self).pages@[page as int].partitions@,
                final(self).pages@[page as int].partitions@,
            ),
            input matches InputType::Mouse { x, y, event } ==> r@ == Seq::<u32>::empty()
                && *final(self) == *old(self),
            input matches InputType::Key(k) ==> {
                &&& old(self).pages@[page as int].live_focus is Some ==> r@ == Seq::<
                    u32,
                >::empty() && (forall|j: int|
                    0 <= j < old(self).pages@[page as int].partitions@.len() && j != focus_idx(
                        old(self).pages@[page as int].live_focus,
                    ) ==> final(self).pages@[page as int].partitions@[j] == old(
                        self,
                    ).pages@[page as int].partitions@[j])
                &&& old(self).pages@[page as int].live_focus is Some ==> ({
                    let li = focus_idx(old(self).pages@[page as int].live_focus);
                    old(
                        self,
                    ).pages@[page as int].partitions@[li].partition.element.unwrap().live_key_post(
                        input,
                        final(self).pages@[page as int].partitions@[li].partition.element.unwrap(),
                    )
                })
                &&& old(self).pages@[page as int].live_focus is None ==> (forall|j: int|
                    0 <= j < old(self).pages@[page as int].partitions@.len() && j != focus_idx(
                        old(self).pages@[page as int].lazy_focus,
                    ) ==> final(self).pages@[page as int].partitions@[j] == old(
                        self,
                    ).pages@[page as int].partitions@[j])
                &&& old(self).pages@[page as int].live_focus is None && old(
                    self,
                ).pages@[page as int].lazy_focus is Some ==> ({
                    let lj = focus_idx(old(self).pages@[page as int].lazy_focus);
                    actions_delivered(
                        old(self).pages@[page as int].partitions@[lj].partition.element.unwrap(),
                        r@,
                        final(self).pages@[page as int].partitions@[lj].partition.element.unwrap(),
                    )
                })
                &&& old(self).pages@[page as int].live_focus is None ==> {
                    &&& r@.no_duplicates()
                    &&& forall|a: u32|
                        r@.contains(a) <==> old(self).actions@.to_set().contains((k, a)) || old(
                            self,
                        ).pages@[page as int].actions@.to_set().contains((k, a))
                }
            },
    {
        match input {
            InputType::Key(k) => {
                let mut pg = self.pages.remove(page);
                let mut result: Vec<u32> = Vec::new();
                let live = match pg.live_focus {
                    Option::Some(_) => true,
                    Option::None => false,
                };
                if live {
                    pg.deliver_raw(input);
                } else {
                    result = resolve_pairs(&self.actions, k);
                    append_resolved(&mut result, &pg.actions, k);
                    pg.deliver_actions(&result);
                }
                self.pages.insert(page, pg);
                result
            },
            InputType::Mouse { x: _, y: _, event: _ } => Vec::new(),
        }
    }
}

} // verus!
