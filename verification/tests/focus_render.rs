use serpent::elements::{MenuSelector, Text, TextBox};
use serpent::error::SerpentError;
use serpent::internal::{Orientation, Page};
use serpent::{Color, ColorText, SerpentElement, SerpentWriter};

#[test]
fn focus_default_scenario() {
    // A page split in two: a Lazy text element on the left child, the
    // right child empty.
    let mut page: Page<Text> = Page::new((80, 24));
    let base = page.handle_at(0).unwrap();
    let (left, _right) = page.split(base, 1, 2, Orientation::Horizontal).unwrap();
    assert_eq!(page.partitions[0].size, (40, 24));
    assert_eq!(page.partitions[1].size, (40, 24));
    page.attach(left, Text::new(String::from("hello"))).unwrap();
    assert_eq!(page.focus_default(0), Ok(()));
    assert_eq!(page.lazy_focus, Some(0));
    assert_eq!(page.focus_default(1), Err(SerpentError::NoElementInPartition));
    assert_eq!(page.lazy_focus, Some(0));
    assert_eq!(page.focus_default(2), Err(SerpentError::InvalidPartitionIndex));
}

#[test]
fn focus_default_on_live_element_rejected() {
    // Lazy focus on a Live-class element fails and leaves the prior
    // focus state unchanged.
    let mut page: Page<TextBox> = Page::new((80, 24));
    let base = page.handle_at(0).unwrap();
    page.attach(base, TextBox::new()).unwrap();
    let r = page.focus_default(0);
    assert_eq!(r, Err(SerpentError::FocusTypeIncorrect));
    assert_eq!(page.lazy_focus, None);
    assert_eq!(page.live_focus, None);
}

#[test]
fn focus_live_on_lazy_element_rejected() {
    let mut page: Page<Text> = Page::new((80, 24));
    let base = page.handle_at(0).unwrap();
    page.attach(base, Text::new(String::from("x"))).unwrap();
    assert_eq!(page.focus_live(0), Err(SerpentError::FocusTypeIncorrect));
    assert_eq!(page.live_focus, None);
}

#[test]
fn focus_hooks_fire_once_per_transition() {
    let mut page: Page<MenuSelector> = Page::new((80, 24));
    let base = page.handle_at(0).unwrap();
    let (left, right) = page.split(base, 1, 2, Orientation::Horizontal).unwrap();
    page.attach(left, MenuSelector::new(vec![String::from("a")])).unwrap();
    page.attach(right, MenuSelector::new(vec![String::from("b")])).unwrap();
    page.focus_default(0).unwrap();
    assert!(page.partitions[0].partition.element.as_ref().unwrap().highlighted);
    // Refocusing the same partition is a no-op.
    page.focus_default(0).unwrap();
    assert!(page.partitions[0].partition.element.as_ref().unwrap().highlighted);
    // Moving focus unfocuses the old target and focuses the new one.
    page.focus_default(1).unwrap();
    assert!(!page.partitions[0].partition.element.as_ref().unwrap().highlighted);
    assert!(page.partitions[1].partition.element.as_ref().unwrap().highlighted);
    assert_eq!(page.lazy_focus, Some(1));
}

#[test]
fn live_focus_overlays_and_releases() {
    let mut page: Page<TextBox> = Page::new((80, 24));
    let base = page.handle_at(0).unwrap();
    page.attach(base, TextBox::new()).unwrap();
    page.focus_live(0).unwrap();
    assert_eq!(page.live_focus, Some(0));
    page.clear_live_focus();
    assert_eq!(page.live_focus, None);
}

#[test]
fn attach_returns_previous_element() {
    let mut page: Page<Text> = Page::new((80, 24));
    let base = page.handle_at(0).unwrap();
    let first = page.attach(base, Text::new(String::from("one"))).unwrap();
    assert!(first.is_none());
    let second = page.attach(base, Text::new(String::from("two"))).unwrap();
    assert_eq!(second.unwrap().content, "one");
    let shown = page.partitions[0].partition.element.as_ref().unwrap();
    assert_eq!(shown.content, "two");
}

#[test]
fn attach_stale_handle_rejected() {
    let mut page: Page<Text> = Page::new((80, 24));
    let base = page.handle_at(0).unwrap();
    page.split(base, 1, 2, Orientation::Vertical).unwrap();
    let r = page.attach(base, Text::new(String::from("late")));
    assert!(matches!(r, Err(SerpentError::StalePartitionHandle)));
}

#[test]
fn attach_clears_focus_on_that_partition() {
    let mut page: Page<MenuSelector> = Page::new((80, 24));
    let base = page.handle_at(0).unwrap();
    page.attach(base, MenuSelector::new(vec![String::from("a")])).unwrap();
    page.focus_default(0).unwrap();
    assert_eq!(page.lazy_focus, Some(0));
    page.attach(base, MenuSelector::new(vec![String::from("b")])).unwrap();
    assert_eq!(page.lazy_focus, None);
}

#[test]
fn split_moves_focus_with_its_partition() {
    let mut page: Page<Text> = Page::new((80, 24));
    let base = page.handle_at(0).unwrap();
    let (left, right) = page.split(base, 1, 2, Orientation::Horizontal).unwrap();
    page.attach(right, Text::new(String::from("keep"))).unwrap();
    page.focus_default(1).unwrap();
    // Splitting the left sibling shifts the focused partition from
    // position 1 to position 2; the focus reference follows it.
    page.split(left, 1, 2, Orientation::Vertical).unwrap();
    assert_eq!(page.lazy_focus, Some(2));
    assert_eq!(
        page.partitions[2].partition.element.as_ref().unwrap().content,
        "keep"
    );
}

#[test]
fn writer_records_fragments_in_order() {
    let mut w = SerpentWriter::new();
    assert_eq!(w.messages().len(), 0);
    w.print(ColorText::simple(String::from("first")));
    w.print(ColorText::new(
        String::from("second"),
        Color::Red,
        Color::Black,
        (3, 4),
    ));
    let msgs = w.messages();
    assert_eq!(msgs.len(), 2);
    assert_eq!(msgs[0].text, "first");
    assert_eq!(msgs[0].location, (0, 0));
    assert_eq!(msgs[1].text, "second");
    assert_eq!(msgs[1].location, (3, 4));
    assert_eq!(msgs[1].foreground, Color::Red);
    assert_eq!(msgs[1].background, Color::Black);
}

#[test]
fn print_translates_and_clips() {
    let mut source = SerpentWriter::new();
    // Fits: 2 + 3 <= 10 and row 1 < 5.
    source.print(ColorText::new(String::from("abc"), Color::Default, Color::Default, (2, 1)));
    // Too wide: 8 + 3 > 10.
    source.print(ColorText::new(String::from("xyz"), Color::Default, Color::Default, (8, 1)));
    // Row out of range: 5 >= 5.
    source.print(ColorText::new(String::from("q"), Color::Default, Color::Default, (0, 5)));
    let mut output = SerpentWriter::new();
    Page::<Text>::print(&mut output, &source, (10, 5), (3, 2));
    let msgs = output.messages();
    assert_eq!(msgs.len(), 1);
    assert_eq!(msgs[0].text, "abc");
    assert_eq!(msgs[0].location, (5, 3));
}

#[test]
fn page_show_composites_at_partition_offsets() {
    let mut page: Page<Text> = Page::new((80, 24));
    let base = page.handle_at(0).unwrap();
    let (left, right) = page.split(base, 1, 2, Orientation::Horizontal).unwrap();
    page.attach(left, Text::new(String::from("L"))).unwrap();
    page.attach(right, Text::new(String::from("R"))).unwrap();
    let mut canvas = SerpentWriter::new();
    page.show(&mut canvas);
    let msgs = canvas.messages();
    assert_eq!(msgs.len(), 2);
    assert_eq!(msgs[0].text, "L");
    assert_eq!(msgs[0].location, (0, 0));
    assert_eq!(msgs[1].text, "R");
    assert_eq!(msgs[1].location, (40, 0));
}

#[test]
fn page_show_clips_overlong_text() {
    // A 3-cell-wide partition cannot show "toolong": the fragment is
    // clipped, not painted over the neighbor.
    let mut page: Page<Text> = Page::new((3, 2));
    let base = page.handle_at(0).unwrap();
    page.attach(base, Text::new(String::from("toolong"))).unwrap();
    let mut canvas = SerpentWriter::new();
    page.show(&mut canvas);
    assert_eq!(canvas.messages().len(), 0);
}

#[test]
fn partition_show_renders_element() {
    let mut page: Page<Text> = Page::new((10, 2));
    let base = page.handle_at(0).unwrap();
    page.attach(base, Text::new(String::from("hi"))).unwrap();
    let buf = page.partitions[0].partition.show();
    assert_eq!(buf.messages().len(), 1);
    assert_eq!(buf.messages()[0].text, "hi");
    let empty: Page<Text> = Page::new((10, 2));
    assert_eq!(empty.partitions[0].partition.show().messages().len(), 0);
}

#[test]
fn menu_selector_renders_rows_and_highlight() {
    let mut sel = MenuSelector::new(vec![String::from("one"), String::from("two")]);
    let plain = sel.show();
    assert_eq!(plain.messages().len(), 2);
    assert_eq!(plain.messages()[0].location, (0, 0));
    assert_eq!(plain.messages()[1].location, (0, 1));
    assert_eq!(plain.messages()[0].foreground, Color::Default);
    sel.highlighted = true;
    let lit = sel.show();
    assert_eq!(lit.messages()[0].foreground, Color::Black);
    assert_eq!(lit.messages()[0].background, Color::White);
    assert_eq!(lit.messages()[1].foreground, Color::Default);
}
