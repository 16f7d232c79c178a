use serpent::elements::Text;
use serpent::error::SerpentError;
use serpent::internal::{Orientation, Page, PartitionHandle};

fn base_page(w: usize, h: usize) -> (Page<Text>, PartitionHandle) {
    let page: Page<Text> = Page::new((w, h));
    let handle = page.handle_at(0).unwrap();
    (page, handle)
}

#[test]
fn split_even_horizontal() {
    let (mut page, base) = base_page(80, 24);
    let (a, b) = page.split(base, 1, 2, Orientation::Horizontal).unwrap();
    assert_eq!(page.partitions.len(), 2);
    assert_eq!(page.partitions[0].size, (40, 24));
    assert_eq!(page.partitions[1].size, (40, 24));
    assert_eq!(page.partitions[0].offset, (0, 0));
    assert_eq!(page.partitions[1].offset, (40, 0));
    assert_eq!(a.get_size(&page).unwrap(), (40, 24));
    assert_eq!(b.get_size(&page).unwrap(), (40, 24));
}

#[test]
fn split_uneven_rounds_down_first() {
    // floor-then-remainder: the first child gets floor(extent * num / den).
    let (mut page, base) = base_page(81, 24);
    page.split(base, 1, 2, Orientation::Horizontal).unwrap();
    assert_eq!(page.partitions[0].size, (40, 24));
    assert_eq!(page.partitions[1].size, (41, 24));
}

#[test]
fn split_vertical_divides_height() {
    let (mut page, base) = base_page(80, 24);
    page.split(base, 1, 3, Orientation::Vertical).unwrap();
    assert_eq!(page.partitions[0].size, (80, 8));
    assert_eq!(page.partitions[1].size, (80, 16));
    assert_eq!(page.partitions[1].offset, (0, 8));
}

#[test]
fn split_children_sum_to_parent() {
    // For every valid ratio on an axis of at least 2 cells the split
    // succeeds and the children tile the parent exactly.
    for num in 1..10u32 {
        let (mut page, base) = base_page(7, 3);
        let r = page.split(base, num, 10, Orientation::Horizontal);
        let (a, b) = r.unwrap();
        let sa = a.get_size(&page).unwrap();
        let sb = b.get_size(&page).unwrap();
        assert_eq!(sa.0 + sb.0, 7);
        assert!(sa.0 >= 1 && sb.0 >= 1);
        assert_eq!(sa.1, 3);
        assert_eq!(sb.1, 3);
    }
}

#[test]
fn split_tiny_ratio_still_leaves_one_cell() {
    let (mut page, base) = base_page(2, 24);
    page.split(base, 1, 1000, Orientation::Horizontal).unwrap();
    assert_eq!(page.partitions[0].size, (1, 24));
    assert_eq!(page.partitions[1].size, (1, 24));
}

#[test]
fn split_ratio_zero_out_of_bounds() {
    let (mut page, base) = base_page(80, 24);
    let r = page.split(base, 0, 2, Orientation::Horizontal);
    assert!(matches!(r, Err(SerpentError::SplitOutOfBounds)));
    assert_eq!(page.partitions.len(), 1);
}

#[test]
fn split_ratio_one_out_of_bounds() {
    let (mut page, base) = base_page(80, 24);
    let r = page.split(base, 2, 2, Orientation::Horizontal);
    assert!(matches!(r, Err(SerpentError::SplitOutOfBounds)));
}

#[test]
fn split_ratio_above_one_out_of_bounds() {
    let (mut page, base) = base_page(80, 24);
    let r = page.split(base, 3, 2, Orientation::Vertical);
    assert!(matches!(r, Err(SerpentError::SplitOutOfBounds)));
}

#[test]
fn split_ratio_zero_denominator_out_of_bounds() {
    let (mut page, base) = base_page(80, 24);
    let r = page.split(base, 1, 0, Orientation::Horizontal);
    assert!(matches!(r, Err(SerpentError::SplitOutOfBounds)));
}

#[test]
fn split_single_column_too_small() {
    // A one-cell-wide partition cannot be divided side by side: rounding
    // would give a zero-width child.
    let (mut page, base) = base_page(1, 5);
    let r = page.split(base, 1, 2, Orientation::Horizontal);
    assert!(matches!(r, Err(SerpentError::SplitTooSmall)));
    assert_eq!(page.partitions.len(), 1);
    assert_eq!(page.partitions[0].size, (1, 5));
}

#[test]
fn split_single_row_too_small() {
    let (mut page, base) = base_page(5, 1);
    let r = page.split(base, 1, 2, Orientation::Vertical);
    assert!(matches!(r, Err(SerpentError::SplitTooSmall)));
}

#[test]
fn split_stale_handle_detected() {
    let (mut page, base) = base_page(80, 24);
    page.split(base, 1, 2, Orientation::Horizontal).unwrap();
    // The base partition was replaced by the two children; its handle
    // must now fail rather than split the wrong region.
    let r = page.split(base, 1, 2, Orientation::Horizontal);
    assert!(matches!(r, Err(SerpentError::StalePartitionHandle)));
    assert!(matches!(base.get_size(&page), Err(SerpentError::StalePartitionHandle)));
}

#[test]
fn split_sibling_handles_survive() {
    let (mut page, base) = base_page(80, 24);
    let (a, b) = page.split(base, 1, 2, Orientation::Horizontal).unwrap();
    let (_a1, _a2) = page.split(a, 1, 2, Orientation::Vertical).unwrap();
    // b still names its partition after the sibling was re-split.
    assert_eq!(b.get_size(&page).unwrap(), (40, 24));
}

#[test]
fn split_many_tiles_the_axis() {
    // Ratios apply left-to-right against the remaining extent:
    // 80 -> 20 (1/4 of 80), then 20 (1/3 of 60), then the remaining 40.
    let (mut page, base) = base_page(80, 24);
    let handles = page
        .split_many(base, &vec![(1, 4), (1, 3)], Orientation::Horizontal)
        .unwrap();
    assert_eq!(handles.len(), 3);
    assert_eq!(page.partitions.len(), 3);
    assert_eq!(page.partitions[0].size, (20, 24));
    assert_eq!(page.partitions[1].size, (20, 24));
    assert_eq!(page.partitions[2].size, (40, 24));
    assert_eq!(page.partitions[0].offset, (0, 0));
    assert_eq!(page.partitions[1].offset, (20, 0));
    assert_eq!(page.partitions[2].offset, (40, 0));
    assert_eq!(handles[0].get_size(&page).unwrap(), (20, 24));
    assert_eq!(handles[2].get_size(&page).unwrap(), (40, 24));
}

#[test]
fn split_many_empty_ratio_list_is_identity() {
    let (mut page, base) = base_page(80, 24);
    let handles = page
        .split_many(base, &Vec::new(), Orientation::Vertical)
        .unwrap();
    assert_eq!(handles.len(), 1);
    assert_eq!(page.partitions.len(), 1);
    assert_eq!(handles[0].get_size(&page).unwrap(), (80, 24));
}

#[test]
fn split_many_invalid_ratio_rejected_up_front() {
    let (mut page, base) = base_page(80, 24);
    let r = page.split_many(base, &vec![(1, 2), (2, 2)], Orientation::Horizontal);
    assert!(matches!(r, Err(SerpentError::SplitOutOfBounds)));
    // Validation precedes any split: the page is untouched.
    assert_eq!(page.partitions.len(), 1);
}

#[test]
fn split_many_infeasible_chain_leaves_page_unchanged() {
    // 4 -> 2 -> 1: the third step has only one cell left to divide, so
    // the whole chain is refused before any split happens.
    let (mut page, base) = base_page(4, 10);
    let r = page.split_many(
        base,
        &vec![(1, 2), (1, 2), (1, 2)],
        Orientation::Horizontal,
    );
    assert!(matches!(r, Err(SerpentError::SplitTooSmall)));
    assert_eq!(page.partitions.len(), 1);
    assert_eq!(page.partitions[0].size, (4, 10));
}

#[test]
fn split_many_stale_handle_rejected() {
    let (mut page, base) = base_page(80, 24);
    page.split(base, 1, 2, Orientation::Horizontal).unwrap();
    let r = page.split_many(base, &vec![(1, 2)], Orientation::Horizontal);
    assert!(matches!(r, Err(SerpentError::StalePartitionHandle)));
}

#[test]
fn handle_at_out_of_range() {
    let (page, _) = base_page(80, 24);
    assert!(matches!(page.handle_at(1), Err(SerpentError::InvalidPartitionIndex)));
}

#[test]
fn partition_get_size_reads_owner() {
    let (mut page, base) = base_page(60, 20);
    assert_eq!(page.partitions[0].partition.get_size(&page), (60, 20));
    page.split(base, 1, 4, Orientation::Horizontal).unwrap();
    assert_eq!(page.partitions[0].partition.get_size(&page), (15, 20));
    assert_eq!(page.partitions[1].partition.get_size(&page), (45, 20));
}
