use serpent::elements::{MenuSelector, Text, TextBox};
use serpent::error::SerpentError;
use serpent::internal::Orientation;
use serpent::{InputType, UI};

const Q: i32 = 'q' as i32;

#[test]
fn new_action_allocates_fresh_ids() {
    let mut ui: UI<Text> = UI::new();
    assert_eq!(ui.new_action(), 0);
    assert_eq!(ui.new_action(), 1);
    assert_eq!(ui.new_action(), 2);
}

#[test]
fn bind_global_reports_newly_added() {
    let mut ui: UI<Text> = UI::new();
    let a = ui.new_action();
    assert!(ui.bind_global(Q, a));
    assert!(!ui.bind_global(Q, a));
    let b = ui.new_action();
    assert!(ui.bind_global(Q, b));
}

#[test]
fn unbind_global_reports_presence() {
    let mut ui: UI<Text> = UI::new();
    let a = ui.new_action();
    assert!(!ui.unbind_global(Q, a));
    ui.bind_global(Q, a);
    assert!(ui.unbind_global(Q, a));
    assert!(!ui.unbind_global(Q, a));
}

#[test]
fn bind_unbind_local_round_trip() {
    // Binding then unbinding a pair restores what resolve returns.
    let mut ui: UI<Text> = UI::new();
    let (page, _) = ui.new_page_with_size((80, 24));
    let keep = ui.new_action();
    let transient = ui.new_action();
    ui.bind_local(Q, keep, page);
    let mut before = ui.pages[page].resolve(Q);
    before.sort();
    assert!(ui.bind_local(Q, transient, page));
    assert!(ui.unbind_local(Q, transient, page));
    let mut after = ui.pages[page].resolve(Q);
    after.sort();
    assert_eq!(before, after);
    assert_eq!(after, vec![keep]);
}

#[test]
fn resolve_unknown_key_is_empty() {
    let mut ui: UI<Text> = UI::new();
    let (page, _) = ui.new_page_with_size((80, 24));
    assert!(ui.pages[page].resolve(Q).is_empty());
}

#[test]
fn dispatch_unions_global_and_local() {
    // A global and a page-local binding for the same key both fire:
    // union, not override.
    let mut ui: UI<Text> = UI::new();
    let (page, _) = ui.new_page_with_size((80, 24));
    let quit = ui.new_action();
    let save = ui.new_action();
    ui.bind_global(Q, quit);
    ui.bind_local(Q, save, page);
    let mut acts = ui.dispatch(InputType::Key(Q), page);
    acts.sort();
    let mut expected = vec![quit, save];
    expected.sort();
    assert_eq!(acts, expected);
}

#[test]
fn dispatch_does_not_duplicate_shared_binding() {
    let mut ui: UI<Text> = UI::new();
    let (page, _) = ui.new_page_with_size((80, 24));
    let act = ui.new_action();
    ui.bind_global(Q, act);
    ui.bind_local(Q, act, page);
    let acts = ui.dispatch(InputType::Key(Q), page);
    assert_eq!(acts, vec![act]);
}

#[test]
fn dispatch_unbound_key_yields_nothing() {
    let mut ui: UI<Text> = UI::new();
    let (page, _) = ui.new_page_with_size((80, 24));
    assert!(ui.dispatch(InputType::Key(Q), page).is_empty());
}

#[test]
fn dispatch_delivers_actions_to_lazy_focus() {
    let mut ui: UI<MenuSelector> = UI::new();
    let (page, base) = ui.new_page_with_size((80, 24));
    let act = ui.new_action();
    ui.bind_global(Q, act);
    ui.pages[page]
        .attach(base, MenuSelector::new(vec![String::from("a")]))
        .unwrap();
    ui.pages[page].focus_default(0).unwrap();
    let acts = ui.dispatch(InputType::Key(Q), page);
    assert_eq!(acts, vec![act]);
    let sel = ui.pages[page].partitions[0].partition.element.as_ref().unwrap();
    assert_eq!(sel.last_action, Some(act));
}

#[test]
fn dispatch_live_focus_consumes_raw_key() {
    // With live focus set, a raw key goes to the element alone and
    // produces no action ids, even though a global binding exists.
    let mut ui: UI<TextBox> = UI::new();
    let (page, base) = ui.new_page_with_size((80, 24));
    let quit = ui.new_action();
    ui.bind_global(Q, quit);
    ui.pages[page].attach(base, TextBox::new()).unwrap();
    ui.pages[page].focus_live(0).unwrap();
    let acts = ui.dispatch(InputType::Key(Q), page);
    assert!(acts.is_empty());
    let tb = ui.pages[page].partitions[0].partition.element.as_ref().unwrap();
    assert_eq!(tb.content, "q");
}

#[test]
fn dispatch_after_clear_live_focus_resolves_again() {
    let mut ui: UI<TextBox> = UI::new();
    let (page, base) = ui.new_page_with_size((80, 24));
    let quit = ui.new_action();
    ui.bind_global(Q, quit);
    ui.pages[page].attach(base, TextBox::new()).unwrap();
    ui.pages[page].focus_live(0).unwrap();
    assert!(ui.dispatch(InputType::Key(Q), page).is_empty());
    ui.pages[page].clear_live_focus();
    assert_eq!(ui.dispatch(InputType::Key(Q), page), vec![quit]);
    // The text box received exactly the one key that arrived while it
    // held live focus.
    let tb = ui.pages[page].partitions[0].partition.element.as_ref().unwrap();
    assert_eq!(tb.content, "q");
}

#[test]
fn dispatch_mouse_triggers_no_actions() {
    let mut ui: UI<Text> = UI::new();
    let (page, _) = ui.new_page_with_size((80, 24));
    let act = ui.new_action();
    ui.bind_global(Q, act);
    let acts = ui.dispatch(InputType::Mouse { x: 3, y: 4, event: 1 }, page);
    assert!(acts.is_empty());
}

#[test]
fn text_box_ignores_unprintable_keys() {
    let mut ui: UI<TextBox> = UI::new();
    let (page, base) = ui.new_page_with_size((80, 24));
    ui.pages[page].attach(base, TextBox::new()).unwrap();
    ui.pages[page].focus_live(0).unwrap();
    ui.dispatch(InputType::Key(27), page); // escape: not printable
    ui.dispatch(InputType::Key(Q), page);
    ui.dispatch(InputType::Key('!' as i32), page);
    let tb = ui.pages[page].partitions[0].partition.element.as_ref().unwrap();
    assert_eq!(tb.content, "q!");
}

#[test]
fn new_page_with_size_indexes_in_creation_order() {
    let mut ui: UI<Text> = UI::new();
    let (p0, h0) = ui.new_page_with_size((80, 24));
    let (p1, _) = ui.new_page_with_size((40, 12));
    assert_eq!(p0, 0);
    assert_eq!(p1, 1);
    assert_eq!(ui.pages.len(), 2);
    assert_eq!(ui.pages[0].size, (80, 24));
    assert_eq!(ui.pages[1].size, (40, 12));
    assert_eq!(h0.get_size(&ui.pages[0]).unwrap(), (80, 24));
}

#[test]
fn new_page_reads_terminal_or_reports_error() {
    // Under a test harness there may be no terminal; either outcome is
    // consistent with the contract.
    let mut ui: UI<Text> = UI::new();
    match ui.new_page() {
        Ok((idx, handle)) => {
            assert_eq!(idx, 0);
            assert!(handle.get_size(&ui.pages[0]).is_ok());
        },
        Err(e) => {
            assert_eq!(e, SerpentError::TerminalSizeError);
            assert!(ui.pages.is_empty());
        },
    }
}

#[test]
fn split_through_session_page() {
    let mut ui: UI<Text> = UI::new();
    let (page, base) = ui.new_page_with_size((80, 24));
    let (a, b) = ui.pages[page]
        .split(base, 1, 2, Orientation::Horizontal)
        .unwrap();
    assert_eq!(a.get_size(&ui.pages[page]).unwrap(), (40, 24));
    assert_eq!(b.get_size(&ui.pages[page]).unwrap(), (40, 24));
}

#[test]
fn error_messages_are_distinct_and_nonempty() {
    let errors = [
        SerpentError::MultipleMenus,
        SerpentError::SplitOutOfBounds,
        SerpentError::SplitTooSmall,
        SerpentError::TerminalSizeError,
        SerpentError::InvalidPartitionIndex,
        SerpentError::NoElementInPartition,
        SerpentError::FocusTypeIncorrect,
        SerpentError::StalePartitionHandle,
    ];
    for (i, e) in errors.iter().enumerate() {
        assert!(!e.message().is_empty());
        for other in errors.iter().skip(i + 1) {
            assert_ne!(e.message(), other.message());
        }
    }
}
