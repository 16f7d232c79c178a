//! Pages and partitions: the layout engine.
//!
//! A [`Page`] covers one screen with an ordered list of partitions
//! (list order is z-order).  Partitions never outlive their page and are
//! addressed in two ways: by their current position in the list (used by
//! the focus operations) and by a stable [`PartitionHandle`] (used by
//! split and attach).  Splitting replaces a slot by two children, so a
//! handle to the replaced partition becomes detectably stale rather than
//! silently pointing at the wrong region.

use vstd::prelude::*;
use crate::bindings::{bind_pair, resolve_pairs, unbind_pair};
use crate::error::SerpentError;
use crate::{ColorTextView, ElementType, SerpentElement, SerpentWriter};

verus! {

/// The direction of a split: `Horizontal` places the two children side
/// by side (dividing the width); `Vertical` stacks them (dividing the
/// height).
#[derive(Clone, Copy, Debug, PartialEq, Eq, Structural)]
pub enum Orientation {
    Horizontal,
    Vertical,
}

/// A stable reference to one partition of a page.  Handles survive
/// operations on other partitions; a handle to a partition that was
/// re-split is stale, and every operation reports that instead of
/// touching the wrong region.
#[derive(Clone, Copy, Debug, PartialEq, Eq, Structural)]
pub struct PartitionHandle {
    pub id: u128,
}

/// One partition of a page's area: a stable identifier plus the element
/// it hosts, if any.  Offset and size live in the containing page's
/// [`PartitionInfo`], because a split resizes regions without moving
/// the partition object itself.
pub struct Partition<E> {
    pub id: u128,
    pub element: Option<E>,
}

impl<E> Partition<E> {
    /// A fresh partition with the given identifier and no element;
    /// created by `Page::new` or by a split.
    pub fn new(id: u128) -> (r: Self)
        ensures
            r.id == id,
            r.element is None,
    {
        Partition { id, element: None }
    }
}

impl<E: SerpentElement> Partition<E> {
    /// What this partition renders: its element's fragments, or nothing.
    pub open spec fn show_spec(&self) -> Seq<ColorTextView> {
        match self.element {
            Option::Some(e) => e.show_spec(),
            Option::None => Seq::empty(),
        }
    }

    /// Renders the hosted element into a fresh buffer.
    pub fn show(&self) -> (output: SerpentWriter)
        ensures
            output@ == self.show_spec(),
    {
        match &self.element {
            Option::Some(e) => e.show(),
            Option::None => SerpentWriter::new(),
        }
    }
}

/// One entry of a page's partition list: the partition together with the
/// offset and size of the rectangle it currently owns.
pub struct PartitionInfo<E> {
    pub partition: Partition<E>,
    pub offset: (usize, usize),
    pub size: (usize, usize),
}

impl<E> PartitionInfo<E> {
    /// Whether this entry's rectangle is non-degenerate and lies within
    /// a page of size `page_size`.
    pub open spec fn fits(&self, page_size: (usize, usize)) -> bool {
        &&& 1 <= self.size.0
        &&& 1 <= self.size.1
        &&& self.offset.0 + self.size.0 <= page_size.0
        &&& self.offset.1 + self.size.1 <= page_size.1
    }

    /// Packs a partition with its offset and size.
    pub fn new(partition: Partition<E>, offset: (usize, usize), size: (usize, usize)) -> (r: Self)
        ensures
            r.partition == partition,
            r.offset == offset,
            r.size == size,
    {
        PartitionInfo { partition, offset, size }
    }
}

/// Whether a fragment lies entirely inside a region of size `size`.
/// Fragments that exceed the region are clipped (dropped), never painted
/// over a neighboring partition.
pub open spec fn frag_fits(m: ColorTextView, size: (usize, usize)) -> bool {
    &&& m.location.0 + m.text.len() <= size.0
    &&& m.location.1 < size.1
}

/// The fragment moved from partition-relative to page-relative
/// coordinates.
pub open spec fn frag_translate(m: ColorTextView, offset: (usize, usize)) -> ColorTextView {
    ColorTextView {
        location: ((m.location.0 + offset.0) as nat, (m.location.1 + offset.1) as nat),
        text: m.text,
        foreground: m.foreground,
        background: m.background,
    }
}

/// The fragments of one render pass that survive clipping to `size`,
/// translated by `offset`, in their original order.
pub open spec fn clip_fragments(
    s: Seq<ColorTextView>,
    size: (usize, usize),
    offset: (usize, usize),
) -> Seq<ColorTextView>
    decreases s.len(),
{
    if s.len() == 0 {
        Seq::empty()
    } else {
        let rest = clip_fragments(s.drop_last(), size, offset);
        if frag_fits(s.last(), size) {
            rest.push(frag_translate(s.last(), offset))
        } else {
            rest
        }
    }
}

/// One screen: an ordered list of partitions (list order is z-order),
/// the page-local key bindings, and the page's focus state.
pub struct Page<E> {
    pub partitions: Vec<PartitionInfo<E>>,
    pub actions: Vec<(i32, u32)>,
    pub size: (usize, usize),
    pub lazy_focus: Option<usize>,
    pub live_focus: Option<usize>,
    pub next_partition_id: u128,
}

impl<E: SerpentElement> Page<E> {
    /// Whether focus reference `f` points at a partition hosting an
    /// element of class `class`.
    pub open spec fn focus_ok(&self, f: Option<usize>, class: ElementType) -> bool {
        match f {
            Option::None => true,
            Option::Some(i) => i < self.partitions@.len()
                && (self.partitions@[i as int].partition.element matches Option::Some(e)
                && e.type_spec() == class),
        }
    }

    /// The page's invariant: positive page size, every partition
    /// non-degenerate and inside the page, identifiers unique and below
    /// the allocation counter, bindings duplicate-free, and each focus
    /// reference pointing at an element of the right class.  The counter
    /// stays below twice the list length plus one — a split consumes two
    /// identifiers while growing the list by one — so it can never reach
    /// the top of its 128-bit range.
    pub open spec fn wf(&self) -> bool {
        &&& 1 <= self.size.0
        &&& 1 <= self.size.1
        &&& forall|i: int|
            0 <= i < self.partitions@.len() ==> (#[trigger] self.partitions@[i]).fits(self.size)
        &&& forall|i: int|
            0 <= i < self.partitions@.len() ==> (#[trigger] self.partitions@[i]).partition.id
                < self.next_partition_id
        &&& self.next_partition_id <= 2 * self.partitions@.len() + 1
        &&& forall|i: int, j: int|
            0 <= i < self.partitions@.len() && 0 <= j < self.partitions@.len() && i != j ==> (
            #[trigger] self.partitions@[i]).partition.id != (
            #[trigger] self.partitions@[j]).partition.id
        &&& self.actions@.no_duplicates()
        &&& self.focus_ok(self.lazy_focus, ElementType::Lazy)
        &&& self.focus_ok(self.live_focus, ElementType::Live)
    }

    /// Whether some partition of this page carries identifier `id`.
    pub open spec fn has_part(&self, id: u128) -> bool {
        exists|i: int|
            0 <= i < self.partitions@.len() && (#[trigger] self.partitions@[i]).partition.id == id
    }

    /// The position of the partition carrying `id`; meaningful only when
    /// `has_part(id)` holds (identifiers are unique under `wf`).
    pub open spec fn index_of_id(&self, id: u128) -> int {
        choose|i: int|
            0 <= i < self.partitions@.len() && (#[trigger] self.partitions@[i]).partition.id == id
    }

    /// A new page covering a terminal of size `size`: one base partition
    /// at the origin owning the whole area, no bindings, no focus.
    pub fn new(size: (usize, usize)) -> (r: Self)
        requires
            1 <= size.0,
            1 <= size.1,
        ensures
            r.wf(),
            r.size == size,
            r.partitions@.len() == 1,
            r.partitions@[0].partition.id == 0,
            r.partitions@[0].partition.element is None,
            r.partitions@[0].offset == (0usize, 0usize),
            r.partitions@[0].size == size,
            r.actions@ == Seq::<(i32, u32)>::empty(),
            r.lazy_focus is None,
            r.live_focus is None,
            r.next_partition_id == 1,
    {
        let base = PartitionInfo::new(Partition::new(0), (0, 0), size);
        let mut partitions: Vec<PartitionInfo<E>> = Vec::new();
        partitions.push(base);
        Page {
            partitions,
            actions: Vec::new(),
            size,
            lazy_focus: None,
            live_focus: None,
            next_partition_id: 1,
        }
    }

    /// The handle of the partition currently at list position `index`;
    /// `InvalidPartitionIndex` if the position does not exist.
    pub fn handle_at(&self, index: usize) -> (r: Result<PartitionHandle, SerpentError>)
        ensures
            r matches Ok(h) ==> index < self.partitions@.len() && h.id
                == self.partitions@[index as int].partition.id,
            r matches Err(e) ==> e == SerpentError::InvalidPartitionIndex && index
                >= self.partitions@.len(),
    {
        if index < self.partitions.len() {
            Ok(PartitionHandle { id: self.partitions[index].partition.id })
        } else {
            Err(SerpentError::InvalidPartitionIndex)
        }
    }

    /// Adds `action` to the set this page binds to `key`; reports
    /// whether the pair was newly added.
    pub fn bind_local(&mut self, key: i32, action: u32) -> (added: bool)
        requires
            old(self).wf(),
        ensures
            final(self).wf(),
            final(self).actions@.to_set() == old(self).actions@.to_set().insert((key, action)),
            added == !old(self).actions@.to_set().contains((key, action)),
            final(self).partitions == old(self).partitions,
            final(self).size == old(self).size,
            final(self).lazy_focus == old(self).lazy_focus,
            final(self).live_focus == old(self).live_focus,
            final(self).next_partition_id == old(self).next_partition_id,
    {
        bind_pair(&mut self.actions, key, action)
    }

    /// Removes `action` from the set this page binds to `key`; reports
    /// whether the pair had been present.
    pub fn unbind_local(&mut self, key: i32, action: u32) -> (present: bool)
        requires
            old(self).wf(),
        ensures
            final(self).wf(),
            final(self).actions@.to_set() == old(self).actions@.to_set().remove((key, action)),
            present == old(self).actions@.to_set().contains((key, action)),
            final(self).partitions == old(self).partitions,
            final(self).size == old(self).size,
            final(self).lazy_focus == old(self).lazy_focus,
            final(self).live_focus == old(self).live_focus,
            final(self).next_partition_id == old(self).next_partition_id,
    {
        unbind_pair(&mut self.actions, key, action)
    }

    /// The actions this page's local bindings associate with `key`
    /// (duplicate-free, empty if none).  Global bindings are the
    /// session's business, not consulted here.
    pub fn resolve(&self, key: i32) -> (r: Vec<u32>)
        requires
            self.wf(),
        ensures
            r@.no_duplicates(),
            forall|a: u32| r@.contains(a) <==> self.actions@.to_set().contains((key, a)),
    {
        resolve_pairs(&self.actions, key)
    }

    /// What rendering the first `n` partitions paints: each partition's
    /// fragments clipped to its committed size and translated by its
    /// offset, in list order (later entries paint over earlier ones).
    pub open spec fn render_upto(&self, n: int) -> Seq<ColorTextView>
        decreases n,
    {
        if n <= 0 {
            Seq::empty()
        } else {
            self.render_upto(n - 1) + clip_fragments(
                self.partitions@[n - 1].partition.show_spec(),
                self.partitions@[n - 1].size,
                self.partitions@[n - 1].offset,
            )
        }
    }

    /// What rendering the whole page paints.
    pub open spec fn render_spec(&self) -> Seq<ColorTextView> {
        self.render_upto(self.partitions@.len() as int)
    }

    /// Renders every partition in list order, appending the surviving
    /// fragments to `output` in page coordinates.
    pub fn show(&self, output: &mut SerpentWriter)
        requires
            self.wf(),
        ensures
            final(output)@ == old(output)@ + self.render_spec(),
    {
        let n = self.partitions.len();
        proof {
            assert(output@ =~= old(output)@ + self.render_upto(0));
        }
        for i in 0..n
            invariant
                n == self.partitions@.len(),
                self.wf(),
                output@ == old(output)@ + self.render_upto(i as int),
        {
            let info = &self.partitions[i];
            let buf = info.partition.show();
            Page::<E>::print(output, &buf, info.size, info.offset);
            proof {
                assert(output@ =~= old(output)@ + self.render_upto(i + 1));
            }
        }
    }

    /// Composites one render buffer into `output`: every fragment of
    /// `source` that lies inside a region of size `size` is translated
    /// by `offset` and appended; the rest are clipped.
    pub fn print(
        output: &mut SerpentWriter,
        source: &SerpentWriter,
        size: (usize, usize),
        offset: (usize, usize),
    )
        requires
            offset.0 + size.0 <= usize::MAX,
            offset.1 + size.1 <= usize::MAX,
        ensures
            final(output)@ == old(output)@ + clip_fragments(source@, size, offset),
    {
        let msgs = source.messages();
        let n = msgs.len();
        proof {
            assert(source@.take(0) =~= Seq::<ColorTextView>::empty());
            assert(output@ =~= old(output)@ + clip_fragments(source@.take(0), size, offset));
        }
        for i in 0..n
            invariant
                n == msgs@.len(),
                msgs@.map_values(|m: crate::ColorText| m@) == source@,
                offset.0 + size.0 <= usize::MAX,
                offset.1 + size.1 <= usize::MAX,
                output@ == old(output)@ + clip_fragments(source@.take(i as int), size, offset),
        {
            let m = &msgs[i];
            proof {
                assert(m@ == source@[i as int]);
            }
            let fits = m.location.1 < size.1 && m.location.0 <= size.0
                && m.text.as_str().unicode_len() <= size.0 - m.location.0;
            proof {
                assert(fits == frag_fits(source@[i as int], size));
            }
            if fits {
                let moved = crate::ColorText::new(
                    m.text.clone(),
                    m.foreground,
                    m.background,
                    (offset.0 + m.location.0, offset.1 + m.location.1),
                );
                proof {
                    assert(moved@ == frag_translate(source@[i as int], offset));
                }
                output.print(moved);
            }
            proof {
                assert(source@.take(i + 1).drop_last() =~= source@.take(i as int));
                assert(source@.take(i + 1).last() == source@[i as int]);
                assert(output@ =~= old(output)@ + clip_fragments(
                    source@.take(i + 1),
                    size,
                    offset,
                ));
            }
        }
        proof {
            assert(source@.take(n as int) =~= source@);
        }
    }
}

/// The position a focus reference points at, or -1 for none.
pub open spec fn focus_idx(f: Option<usize>) -> int {
    match f {
        Option::None => -1,
        Option::Some(i) => i as int,
    }
}

/// How a focus reference moves when slot `i` is replaced by two slots:
/// earlier positions keep their place, the replaced position loses its
/// focus (the partition is gone), later positions shift by one.
pub open spec fn adjust_focus(f: Option<usize>, i: int) -> Option<usize> {
    match f {
        Option::None => Option::None,
        Option::Some(j) => if (j as int) < i {
            Option::Some(j)
        } else if j as int == i {
            Option::None
        } else {
            Option::Some((j + 1) as usize)
        },
    }
}

/// Whether `post` keeps the layout of `pre`: same number of partitions,
/// and each keeps its rectangle, its identifier, and its element's
/// presence and class.  Element contents are free to change (hooks ran).
pub open spec fn same_layout<E: SerpentElement>(
    pre: Seq<PartitionInfo<E>>,
    post: Seq<PartitionInfo<E>>,
) -> bool {
    &&& post.len() == pre.len()
    &&& forall|j: int|
        0 <= j < pre.len() ==> {
            &&& (#[trigger] post[j]).offset == pre[j].offset
            &&& post[j].size == pre[j].size
            &&& post[j].partition.id == pre[j].partition.id
            &&& (post[j].partition.element is Some) == (pre[j].partition.element is Some)
            &&& (pre[j].partition.element is Some ==> post[j].partition.element.unwrap().type_spec()
                == pre[j].partition.element.unwrap().type_spec())
        }
}

/// Whether a split ratio, given as the fraction `num / den`, lies in the
/// open interval (0, 1).
pub open spec fn ratio_valid(num: u32, den: u32) -> bool {
    0 < num < den
}

/// The extent of the rectangle in the axis a split divides.
pub open spec fn axis_extent<E>(info: PartitionInfo<E>, orientation: Orientation) -> int {
    match orientation {
        Orientation::Horizontal => info.size.0 as int,
        Orientation::Vertical => info.size.1 as int,
    }
}

/// The extent of the rectangle across the axis a split divides.
pub open spec fn cross_extent<E>(info: PartitionInfo<E>, orientation: Orientation) -> int {
    match orientation {
        Orientation::Horizontal => info.size.1 as int,
        Orientation::Vertical => info.size.0 as int,
    }
}

/// The rectangle's offset along the axis a split divides.
pub open spec fn axis_offset<E>(info: PartitionInfo<E>, orientation: Orientation) -> int {
    match orientation {
        Orientation::Horizontal => info.offset.0 as int,
        Orientation::Vertical => info.offset.1 as int,
    }
}

/// The rectangle's offset across the axis a split divides.
pub open spec fn cross_offset<E>(info: PartitionInfo<E>, orientation: Orientation) -> int {
    match orientation {
        Orientation::Horizontal => info.offset.1 as int,
        Orientation::Vertical => info.offset.0 as int,
    }
}

/// The first child's extent in the split axis: `floor(extent * num / den)`,
/// clamped into `[1, extent - 1]` so that neither child rounds to
/// nothing.  The second child receives the remainder.
pub open spec fn split_first_extent(extent: int, num: int, den: int) -> int {
    let f = extent * num / den;
    if f < 1 {
        1
    } else if f > extent - 1 {
        extent - 1
    } else {
        f
    }
}

/// Whether every ratio of the list lies in the open interval (0, 1).
pub open spec fn ratios_all_valid(ratios: Seq<(u32, u32)>) -> bool {
    forall|q: int| 0 <= q < ratios.len() ==> ratio_valid((#[trigger] ratios[q]).0, ratios[q].1)
}

/// Whether a chain of binary splits at `ratios`, each taken against the
/// remaining extent, can be carried out starting from `extent`: every
/// step needs at least 2 cells left to divide.
pub open spec fn chain_ok(extent: int, ratios: Seq<(u32, u32)>) -> bool
    decreases ratios.len(),
{
    ratios.len() == 0 || (extent >= 2 && chain_ok(
        extent - split_first_extent(extent, ratios.first().0 as int, ratios.first().1 as int),
        ratios.drop_first(),
    ))
}

/// The extents an N-way split assigns along its axis: each ratio takes
/// its share of the remaining (not the original) extent, left to right,
/// and the last entry is what remains.
pub open spec fn chain_extents(extent: int, ratios: Seq<(u32, u32)>) -> Seq<int>
    decreases ratios.len(),
{
    if ratios.len() == 0 {
        seq![extent]
    } else {
        let first = split_first_extent(extent, ratios.first().0 as int, ratios.first().1 as int);
        seq![first] + chain_extents(extent - first, ratios.drop_first())
    }
}

/// The sum of a sequence of integers.
pub open spec fn int_seq_sum(s: Seq<int>) -> int
    decreases s.len(),
{
    if s.len() == 0 {
        0
    } else {
        s.first() + int_seq_sum(s.drop_first())
    }
}

/// Law: an N-way split tiles its axis.  Whenever the chain of splits
/// can be carried out, it assigns one extent per child, each at least
/// one cell, and together they sum exactly to the starting extent.
pub proof fn lemma_chain_extents_sum(extent: int, ratios: Seq<(u32, u32)>)
    requires
        chain_ok(extent, ratios),
        extent >= 1,
    ensures
        chain_extents(extent, ratios).len() == ratios.len() + 1,
        int_seq_sum(chain_extents(extent, ratios)) == extent,
        forall|q: int|
            0 <= q < chain_extents(extent, ratios).len() ==> chain_extents(extent, ratios)[q] >= 1,
    decreases ratios.len(),
{
    let exts = chain_extents(extent, ratios);
    if ratios.len() == 0 {
        assert(exts =~= seq![extent]);
        assert(exts.drop_first() =~= Seq::<int>::empty());
        assert(int_seq_sum(Seq::<int>::empty()) == 0);
        assert(int_seq_sum(exts) == exts.first() + int_seq_sum(exts.drop_first()));
    } else {
        let first = split_first_extent(extent, ratios.first().0 as int, ratios.first().1 as int);
        let rest = chain_extents(extent - first, ratios.drop_first());
        lemma_chain_extents_sum(extent - first, ratios.drop_first());
        assert(exts.first() == first);
        assert(exts.drop_first() =~= rest);
        assert forall|q: int| 0 <= q < exts.len() implies exts[q] >= 1 by {
            if q > 0 {
                assert(exts[q] == rest[q - 1]);
            }
        }
    }
}

/// The two child entries a successful split puts in place of `info`,
/// carrying the fresh identifiers `id_a` and `id_b` and no elements.
pub open spec fn split_children<E>(
    info: PartitionInfo<E>,
    num: int,
    den: int,
    orientation: Orientation,
    id_a: u128,
    id_b: u128,
) -> (PartitionInfo<E>, PartitionInfo<E>) {
    match orientation {
        Orientation::Horizontal => {
            let first = split_first_extent(info.size.0 as int, num, den);
            (
                PartitionInfo {
                    partition: Partition { id: id_a, element: Option::None },
                    offset: info.offset,
                    size: (first as usize, info.size.1),
                },
                PartitionInfo {
                    partition: Partition { id: id_b, element: Option::None },
                    offset: ((info.offset.0 + first) as usize, info.offset.1),
                    size: ((info.size.0 - first) as usize, info.size.1),
                },
            )
        },
        Orientation::Vertical => {
            let first = split_first_extent(info.size.1 as int, num, den);
            (
                PartitionInfo {
                    partition: Partition { id: id_a, element: Option::None },
                    offset: info.offset,
                    size: (info.size.0, first as usize),
                },
                PartitionInfo {
                    partition: Partition { id: id_b, element: Option::None },
                    offset: (info.offset.0, (info.offset.1 + first) as usize),
                    size: (info.size.0, (info.size.1 - first) as usize),
                },
            )
        },
    }
}

/// Whether `post` is a state the element `e` can reach by receiving
/// each action of `acts` once, in order, through its `action` hook.
pub open spec fn actions_delivered<E: SerpentElement>(e: E, acts: Seq<u32>, post: E) -> bool
    decreases acts.len(),
{
    if acts.len() <= 0 {
        post == e
    } else {
        exists|mid: E|
            e.action_post(acts.first(), mid) && actions_delivered(mid, acts.drop_first(), post)
    }
}

/// Extends a delivery chain by one action at its end.
proof fn lemma_actions_delivered_snoc<E: SerpentElement>(
    e: E,
    acts: Seq<u32>,
    mid: E,
    action: u32,
    post: E,
)
    requires
        actions_delivered(e, acts, mid),
        mid.action_post(action, post),
    ensures
        actions_delivered(e, acts.push(action), post),
    decreases acts.len(),
{
    let grown = acts.push(action);
    if acts.len() == 0 {
        assert(grown.first() == action);
        assert(grown.drop_first() =~= Seq::<u32>::empty());
        assert(e.action_post(action, post));
        assert(actions_delivered(post, grown.drop_first(), post));
    } else {
        let m = choose|m: E|
            e.action_post(acts.first(), m) && actions_delivered(m, acts.drop_first(), mid);
        lemma_actions_delivered_snoc(m, acts.drop_first(), mid, action, post);
        assert(grown.first() == acts.first());
        assert(grown.drop_first() =~= acts.drop_first().push(action));
        assert(e.action_post(grown.first(), m) && actions_delivered(m, grown.drop_first(), post));
    }
}

/// How a focus reference moves when slot `i` is replaced by a chain of
/// `k + 1` children: earlier positions keep their place, the replaced
/// position loses its focus unless no split happened, later positions
/// shift by `k`.
pub open spec fn adjust_focus_many(f: Option<usize>, i: int, k: int) -> Option<usize> {
    match f {
        Option::None => Option::None,
        Option::Some(j) => if (j as int) < i {
            Option::Some(j)
        } else if j as int == i {
            if k == 0 {
                Option::Some(j)
            } else {
                Option::None
            }
        } else {
            Option::Some((j + k) as usize)
        },
    }
}

/// The first child's share of `extent` cells at ratio `num / den`:
/// `floor(extent * num / den)`, clamped into `[1, extent - 1]`.
fn first_extent(extent: usize, num: u32, den: u32) -> (r: usize)
    requires
        2 <= extent,
        0 < num < den,
    ensures
        r == split_first_extent(extent as int, num as int, den as int),
        1 <= r < extent,
{
    proof {
        assert((extent as int) * (num as int) <= u128::MAX) by (nonlinear_arith)
            requires
                0 <= extent <= u64::MAX,
                0 <= num <= u32::MAX,
        ;
    }
    let mut f: u128 = (extent as u128) * (num as u128) / (den as u128);
    if f < 1 {
        f = 1;
    }
    if f > (extent - 1) as u128 {
        f = (extent - 1) as u128;
    }
    f as usize
}

/// The position of the partition carrying `id`, scanning in list order.
fn find_index<E>(partitions: &Vec<PartitionInfo<E>>, id: u128) -> (r: Option<usize>)
    ensures
        r matches Some(i) ==> i < partitions@.len() && partitions@[i as int].partition.id == id,
        r is None ==> forall|j: int|
            0 <= j < partitions@.len() ==> (#[trigger] partitions@[j]).partition.id != id,
{
    let n = partitions.len();
    for i in 0..n
        invariant
            n == partitions@.len(),
            forall|j: int| 0 <= j < i ==> (#[trigger] partitions@[j]).partition.id != id,
    {
        if partitions[i].partition.id == id {
            return Some(i);
        }
    }
    None
}

impl<E: SerpentElement> Page<E> {
    /// Under `wf`, a position that carries `id` is the position
    /// `index_of_id` denotes.
    proof fn lemma_found_index(&self, id: u128, i: int)
        requires
            self.wf(),
            0 <= i < self.partitions@.len(),
            self.partitions@[i].partition.id == id,
        ensures
            self.has_part(id),
            self.index_of_id(id) == i,
    {
        assert(self.has_part(id));
        let k = self.index_of_id(id);
        assert(0 <= k < self.partitions@.len() && self.partitions@[k].partition.id == id);
        if k != i {
            assert(self.partitions@[k].partition.id != self.partitions@[i].partition.id);
        }
    }

    /// Runs the focus-gained or focus-lost hook on the element at
    /// position `i`, leaving everything else in place.
    fn fire_hook(partitions: &mut Vec<PartitionInfo<E>>, i: usize, gained: bool)
        requires
            i < old(partitions)@.len(),
            old(partitions)@[i as int].partition.element is Some,
        ensures
            final(partitions)@.len() == old(partitions)@.len(),
            forall|j: int|
                0 <= j < final(partitions)@.len() && j != i ==> final(partitions)@[j] == old(
                    partitions,
                )@[j],
            final(partitions)@[i as int].offset == old(partitions)@[i as int].offset,
            final(partitions)@[i as int].size == old(partitions)@[i as int].size,
            final(partitions)@[i as int].partition.id == old(
                partitions,
            )@[i as int].partition.id,
            final(partitions)@[i as int].partition.element is Some,
            final(partitions)@[i as int].partition.element.unwrap().type_spec() == old(
                partitions,
            )@[i as int].partition.element.unwrap().type_spec(),
            gained ==> old(partitions)@[i as int].partition.element.unwrap().focused_post(
                final(partitions)@[i as int].partition.element.unwrap(),
            ),
            !gained ==> old(partitions)@[i as int].partition.element.unwrap().unfocused_post(
                final(partitions)@[i as int].partition.element.unwrap(),
            ),
    {
        let mut info = partitions.remove(i);
        let mut taken: Option<E> = None;
        core::mem::swap(&mut info.partition.element, &mut taken);
        let mut el = match taken {
            Option::Some(e) => e,
            Option::None => vstd::pervasive::unreached(),
        };
        if gained {
            el.focused();
        } else {
            el.unfocused();
        }
        info.partition.element = Some(el);
        partitions.insert(i, info);
        proof {
            assert(final(partitions)@ =~= old(partitions)@.remove(i as int).insert(
                i as int,
                final(partitions)@[i as int],
            ));
        }
    }

    /// Delivers one discrete action to the element at position `i`.
    fn fire_action(partitions: &mut Vec<PartitionInfo<E>>, i: usize, action: u32)
        requires
            i < old(partitions)@.len(),
            old(partitions)@[i as int].partition.element is Some,
        ensures
            final(partitions)@.len() == old(partitions)@.len(),
            forall|j: int|
                0 <= j < final(partitions)@.len() && j != i ==> final(partitions)@[j] == old(
                    partitions,
                )@[j],
            final(partitions)@[i as int].offset == old(partitions)@[i as int].offset,
            final(partitions)@[i as int].size == old(partitions)@[i as int].size,
            final(partitions)@[i as int].partition.id == old(
                partitions,
            )@[i as int].partition.id,
            final(partitions)@[i as int].partition.element is Some,
            final(partitions)@[i as int].partition.element.unwrap().type_spec() == old(
                partitions,
            )@[i as int].partition.element.unwrap().type_spec(),
            old(partitions)@[i as int].partition.element.unwrap().action_post(
                action,
                final(partitions)@[i as int].partition.element.unwrap(),
            ),
    {
        let mut info = partitions.remove(i);
        let mut taken: Option<E> = None;
        core::mem::swap(&mut info.partition.element, &mut taken);
        let mut el = match taken {
            Option::Some(e) => e,
            Option::None => vstd::pervasive::unreached(),
        };
        el.action(action);
        info.partition.element = Some(el);
        partitions.insert(i, info);
        proof {
            assert(final(partitions)@ =~= old(partitions)@.remove(i as int).insert(
                i as int,
                final(partitions)@[i as int],
            ));
        }
    }

    /// Delivers one raw input to the element at position `i`.
    fn fire_raw(partitions: &mut Vec<PartitionInfo<E>>, i: usize, input: crate::InputType)
        requires
            i < old(partitions)@.len(),
            old(partitions)@[i as int].partition.element is Some,
        ensures
            final(partitions)@.len() == old(partitions)@.len(),
            forall|j: int|
                0 <= j < final(partitions)@.len() && j != i ==> final(partitions)@[j] == old(
                    partitions,
                )@[j],
            final(partitions)@[i as int].offset == old(partitions)@[i as int].offset,
            final(partitions)@[i as int].size == old(partitions)@[i as int].size,
            final(partitions)@[i as int].partition.id == old(
                partitions,
            )@[i as int].partition.id,
            final(partitions)@[i as int].partition.element is Some,
            final(partitions)@[i as int].partition.element.unwrap().type_spec() == old(
                partitions,
            )@[i as int].partition.element.unwrap().type_spec(),
            old(partitions)@[i as int].partition.element.unwrap().live_key_post(
                input,
                final(partitions)@[i as int].partition.element.unwrap(),
            ),
    {
        let mut info = partitions.remove(i);
        let mut taken: Option<E> = None;
        core::mem::swap(&mut info.partition.element, &mut taken);
        let mut el = match taken {
            Option::Some(e) => e,
            Option::None => vstd::pervasive::unreached(),
        };
        el.live_key(input);
        info.partition.element = Some(el);
        partitions.insert(i, info);
        proof {
            assert(final(partitions)@ =~= old(partitions)@.remove(i as int).insert(
                i as int,
                final(partitions)@[i as int],
            ));
        }
    }

    /// Hands every action in `acts` to the lazy-focused element, in
    /// order; with no lazy focus the page is untouched.
    pub(crate) fn deliver_actions(&mut self, acts: &Vec<u32>)
        requires
            old(self).wf(),
        ensures
            final(self).wf(),
            final(self).lazy_focus == old(self).lazy_focus,
            final(self).live_focus == old(self).live_focus,
            final(self).actions == old(self).actions,
            final(self).size == old(self).size,
            final(self).next_partition_id == old(self).next_partition_id,
            same_layout(old(self).partitions@, final(self).partitions@),
            forall|j: int|
                0 <= j < old(self).partitions@.len() && j != focus_idx(old(self).lazy_focus)
                    ==> final(self).partitions@[j] == old(self).partitions@[j],
            old(self).lazy_focus is None ==> *final(self) == *old(self),
            old(self).lazy_focus is Some ==> {
                let p = focus_idx(old(self).lazy_focus);
                actions_delivered(
                    old(self).partitions@[p].partition.element.unwrap(),
                    acts@,
                    final(self).partitions@[p].partition.element.unwrap(),
                )
            },
    {
        match self.lazy_focus {
            Option::None => (),
            Option::Some(p) => {
                let n = acts.len();
                proof {
                    assert(acts@.take(0) =~= Seq::<u32>::empty());
                }
                for i in 0..n
                    invariant
                        n == acts@.len(),
                        self.wf(),
                        self.lazy_focus == old(self).lazy_focus,
                        self.lazy_focus == Option::<usize>::Some(p),
                        self.live_focus == old(self).live_focus,
                        self.actions == old(self).actions,
                        self.size == old(self).size,
                        self.next_partition_id == old(self).next_partition_id,
                        same_layout(old(self).partitions@, self.partitions@),
                        forall|j: int|
                            0 <= j < old(self).partitions@.len() && j != p ==> self.partitions@[j]
                                == old(self).partitions@[j],
                        actions_delivered(
                            old(self).partitions@[p as int].partition.element.unwrap(),
                            acts@.take(i as int),
                            self.partitions@[p as int].partition.element.unwrap(),
                        ),
                {
                    let ghost mid = self.partitions@;
                    Self::fire_action(&mut self.partitions, p, acts[i]);
                    proof {
                        assert forall|j: int|
                            0 <= j < old(self).partitions@.len() && j != p implies self.partitions@[j]
                            == old(self).partitions@[j] by {
                            assert(self.partitions@[j] == mid[j]);
                        }
                        lemma_actions_delivered_snoc(
                            old(self).partitions@[p as int].partition.element.unwrap(),
                            acts@.take(i as int),
                            mid[p as int].partition.element.unwrap(),
                            acts@[i as int],
                            self.partitions@[p as int].partition.element.unwrap(),
                        );
                        assert(acts@.take(i as int).push(acts@[i as int]) =~= acts@.take(i + 1));
                    }
                }
                proof {
                    assert(acts@.take(n as int) =~= acts@);
                }
            },
        }
    }

    /// Hands one raw input to the live-focused element.
    pub(crate) fn deliver_raw(&mut self, input: crate::InputType)
        requires
            old(self).wf(),
            old(self).live_focus is Some,
        ensures
            final(self).wf(),
            final(self).lazy_focus == old(self).lazy_focus,
            final(self).live_focus == old(self).live_focus,
            final(self).actions == old(self).actions,
            final(self).size == old(self).size,
            final(self).next_partition_id == old(self).next_partition_id,
            same_layout(old(self).partitions@, final(self).partitions@),
            forall|j: int|
                0 <= j < old(self).partitions@.len() && j != focus_idx(old(self).live_focus)
                    ==> final(self).partitions@[j] == old(self).partitions@[j],
            ({
                let p = focus_idx(old(self).live_focus);
                old(self).partitions@[p].partition.element.unwrap().live_key_post(
                    input,
                    final(self).partitions@[p].partition.element.unwrap(),
                )
            }),
    {
        match self.live_focus {
            Option::Some(p) => Self::fire_raw(&mut self.partitions, p, input),
            Option::None => vstd::pervasive::unreached(),
        }
    }

    /// Sets default (lazy) focus on the partition at `partition_index`.
    ///
    /// Fails with `InvalidPartitionIndex` when the position does not
    /// exist, `NoElementInPartition` when it hosts no element, and
    /// `FocusTypeIncorrect` when the element is not of class `Lazy`; on
    /// any failure the page is left unchanged.  On success the previous
    /// lazy-focus element (if different) receives `unfocused`, the new
    /// one receives `focused`, and the reference moves; focusing the
    /// already-focused partition fires no hooks.
    pub fn focus_default(&mut self, partition_index: usize) -> (r: Result<(), SerpentError>)
        requires
            old(self).wf(),
        ensures
            final(self).wf(),
            r == (if partition_index >= old(self).partitions@.len() {
                Result::<(), SerpentError>::Err(SerpentError::InvalidPartitionIndex)
            } else if old(self).partitions@[partition_index as int].partition.element is None {
                Result::<(), SerpentError>::Err(SerpentError::NoElementInPartition)
            } else if old(
                self,
            ).partitions@[partition_index as int].partition.element.unwrap().type_spec()
                != ElementType::Lazy {
                Result::<(), SerpentError>::Err(SerpentError::FocusTypeIncorrect)
            } else {
                Result::<(), SerpentError>::Ok(())
            }),
            r is Err ==> *final(self) == *old(self),
            r is Ok ==> {
                &&& final(self).lazy_focus == Option::Some(partition_index)
                &&& final(self).live_focus == old(self).live_focus
                &&& final(self).actions == old(self).actions
                &&& final(self).size == old(self).size
                &&& final(self).next_partition_id == old(self).next_partition_id
                &&& same_layout(old(self).partitions@, final(self).partitions@)
                &&& forall|j: int|
                    0 <= j < old(self).partitions@.len() && j != partition_index && j != focus_idx(
                        old(self).lazy_focus,
                    ) ==> final(self).partitions@[j] == old(self).partitions@[j]
            },
            r is Ok && old(self).lazy_focus != Option::Some(partition_index) ==> {
                let prev = focus_idx(old(self).lazy_focus);
                &&& old(
                    self,
                ).partitions@[partition_index as int].partition.element.unwrap().focused_post(
                    final(self).partitions@[partition_index as int].partition.element.unwrap(),
                )
                &&& prev >= 0 ==> old(self).partitions@[prev].partition.element.unwrap().unfocused_post(
                    final(self).partitions@[prev].partition.element.unwrap(),
                )
            },
            old(self).lazy_focus == Option::Some(partition_index) ==> *final(self) == *old(self),
    {
        if partition_index >= self.partitions.len() {
            return Err(SerpentError::InvalidPartitionIndex);
        }
        let class: Option<ElementType> = match &self.partitions[partition_index].partition.element {
            Option::Some(e) => Some(e.get_type()),
            Option::None => None,
        };
        match class {
            Option::None => Err(SerpentError::NoElementInPartition),
            Option::Some(t) => {
                if t != ElementType::Lazy {
                    Err(SerpentError::FocusTypeIncorrect)
                } else {
                    let redundant = match self.lazy_focus {
                        Option::Some(p) => p == partition_index,
                        Option::None => false,
                    };
                    if !redundant {
                        match self.lazy_focus {
                            Option::Some(p) => Self::fire_hook(&mut self.partitions, p, false),
                            Option::None => (),
                        }
                        Self::fire_hook(&mut self.partitions, partition_index, true);
                        self.lazy_focus = Some(partition_index);
                    }
                    Ok(())
                }
            },
        }
    }

    /// Sets live focus on the partition at `partition_index`; the
    /// element must be of class `Live`.  Lazy focus is preserved but
    /// inactive for routing while live focus is set; releasing is
    /// explicit, via [`Page::clear_live_focus`].  Failure kinds and hook
    /// discipline mirror [`Page::focus_default`].
    pub fn focus_live(&mut self, partition_index: usize) -> (r: Result<(), SerpentError>)
        requires
            old(self).wf(),
        ensures
            final(self).wf(),
            r == (if partition_index >= old(self).partitions@.len() {
                Result::<(), SerpentError>::Err(SerpentError::InvalidPartitionIndex)
            } else if old(self).partitions@[partition_index as int].partition.element is None {
                Result::<(), SerpentError>::Err(SerpentError::NoElementInPartition)
            } else if old(
                self,
            ).partitions@[partition_index as int].partition.element.unwrap().type_spec()
                != ElementType::Live {
                Result::<(), SerpentError>::Err(SerpentError::FocusTypeIncorrect)
            } else {
                Result::<(), SerpentError>::Ok(())
            }),
            r is Err ==> *final(self) == *old(self),
            r is Ok ==> {
                &&& final(self).live_focus == Option::Some(partition_index)
                &&& final(self).lazy_focus == old(self).lazy_focus
                &&& final(self).actions == old(self).actions
                &&& final(self).size == old(self).size
                &&& final(self).next_partition_id == old(self).next_partition_id
                &&& same_layout(old(self).partitions@, final(self).partitions@)
                &&& forall|j: int|
                    0 <= j < old(self).partitions@.len() && j != partition_index && j != focus_idx(
                        old(self).live_focus,
                    ) ==> final(self).partitions@[j] == old(self).partitions@[j]
            },
            r is Ok && old(self).live_focus != Option::Some(partition_index) ==> {
                let prev = focus_idx(old(self).live_focus);
                &&& old(
                    self,
                ).partitions@[partition_index as int].partition.element.unwrap().focused_post(
                    final(self).partitions@[partition_index as int].partition.element.unwrap(),
                )
                &&& prev >= 0 ==> old(self).partitions@[prev].partition.element.unwrap().unfocused_post(
                    final(self).partitions@[prev].partition.element.unwrap(),
                )
            },
            old(self).live_focus == Option::Some(partition_index) ==> *final(self) == *old(self),
    {
        if partition_index >= self.partitions.len() {
            return Err(SerpentError::InvalidPartitionIndex);
        }
        let class: Option<ElementType> = match &self.partitions[partition_index].partition.element {
            Option::Some(e) => Some(e.get_type()),
            Option::None => None,
        };
        match class {
            Option::None => Err(SerpentError::NoElementInPartition),
            Option::Some(t) => {
                if t != ElementType::Live {
                    Err(SerpentError::FocusTypeIncorrect)
                } else {
                    let redundant = match self.live_focus {
                        Option::Some(p) => p == partition_index,
                        Option::None => false,
                    };
                    if !redundant {
                        match self.live_focus {
                            Option::Some(p) => Self::fire_hook(&mut self.partitions, p, false),
                            Option::None => (),
                        }
                        Self::fire_hook(&mut self.partitions, partition_index, true);
                        self.live_focus = Some(partition_index);
                    }
                    Ok(())
                }
            },
        }
    }

    /// Releases live focus: the live element (if any) receives
    /// `unfocused`, and raw-key routing falls back to whichever lazy
    /// focus was last set, or to none.
    pub fn clear_live_focus(&mut self)
        requires
            old(self).wf(),
        ensures
            final(self).wf(),
            final(self).live_focus is None,
            final(self).lazy_focus == old(self).lazy_focus,
            final(self).actions == old(self).actions,
            final(self).size == old(self).size,
            final(self).next_partition_id == old(self).next_partition_id,
            same_layout(old(self).partitions@, final(self).partitions@),
            forall|j: int|
                0 <= j < old(self).partitions@.len() && j != focus_idx(old(self).live_focus)
                    ==> final(self).partitions@[j] == old(self).partitions@[j],
            old(self).live_focus is None ==> *final(self) == *old(self),
            old(self).live_focus is Some ==> {
                let prev = focus_idx(old(self).live_focus);
                old(self).partitions@[prev].partition.element.unwrap().unfocused_post(
                    final(self).partitions@[prev].partition.element.unwrap(),
                )
            },
    {
        match self.live_focus {
            Option::Some(p) => {
                Self::fire_hook(&mut self.partitions, p, false);
                self.live_focus = None;
            },
            Option::None => (),
        }
    }

    /// Installs `element` in the partition `handle` names, handing back
    /// the element previously there so the caller can reattach or
    /// dispose of it explicitly — attaching never silently drops a
    /// widget.  A focus reference to that partition is cleared: the
    /// focused widget is gone, and the new one has not been focused.
    /// Fails with `StalePartitionHandle` when no partition carries the
    /// handle's identifier.
    pub fn attach(&mut self, handle: PartitionHandle, element: E) -> (r: Result<
        Option<E>,
        SerpentError,
    >)
        requires
            old(self).wf(),
        ensures
            final(self).wf(),
            r matches Err(e) ==> e == SerpentError::StalePartitionHandle && !old(self).has_part(
                handle.id,
            ) && *final(self) == *old(self),
            r matches Ok(prev) ==> {
                let i = old(self).index_of_id(handle.id);
                &&& old(self).has_part(handle.id)
                &&& prev == old(self).partitions@[i].partition.element
                &&& final(self).partitions@.len() == old(self).partitions@.len()
                &&& forall|j: int|
                    0 <= j < old(self).partitions@.len() && j != i ==> final(self).partitions@[j]
                        == old(self).partitions@[j]
                &&& final(self).partitions@[i].partition.element == Option::Some(element)
                &&& final(self).partitions@[i].partition.id == old(
                    self,
                ).partitions@[i].partition.id
                &&& final(self).partitions@[i].offset == old(self).partitions@[i].offset
                &&& final(self).partitions@[i].size == old(self).partitions@[i].size
                &&& final(self).lazy_focus == (if focus_idx(old(self).lazy_focus) == i {
                    Option::<usize>::None
                } else {
                    old(self).lazy_focus
                })
                &&& final(self).live_focus == (if focus_idx(old(self).live_focus) == i {
                    Option::<usize>::None
                } else {
                    old(self).live_focus
                })
                &&& final(self).actions == old(self).actions
                &&& final(self).size == old(self).size
                &&& final(self).next_partition_id == old(self).next_partition_id
            },
    {
        match find_index(&self.partitions, handle.id) {
            Option::None => Err(SerpentError::StalePartitionHandle),
            Option::Some(i) => {
                proof {
                    self.lemma_found_index(handle.id, i as int);
                }
                let mut info = self.partitions.remove(i);
                let mut swapped: Option<E> = Some(element);
                core::mem::swap(&mut info.partition.element, &mut swapped);
                self.partitions.insert(i, info);
                match self.lazy_focus {
                    Option::Some(p) => {
                        if p == i {
                            self.lazy_focus = None;
                        }
                    },
                    Option::None => (),
                }
                match self.live_focus {
                    Option::Some(p) => {
                        if p == i {
                            self.live_focus = None;
                        }
                    },
                    Option::None => (),
                }
                proof {
                    assert(final(self).partitions@ =~= old(self).partitions@.remove(
                        i as int,
                    ).insert(i as int, final(self).partitions@[i as int]));
                }
                Ok(swapped)
            },
        }
    }

    /// Divides the partition `handle` names into two adjacent children
    /// at `ratio_num / ratio_den` of the axis `orientation` divides.
    /// The first child keeps the parent's origin with
    /// `floor(extent * num / den)` cells of that axis, clamped into
    /// `[1, extent - 1]`; the second child takes the remainder.  The
    /// parent's slot is replaced by the two children (its element, if
    /// any, is discarded with it), so handles to the parent become
    /// stale; focus references follow their partitions.
    ///
    /// Fails with `SplitOutOfBounds` when the ratio is not strictly
    /// between 0 and 1, `StalePartitionHandle` when no partition
    /// carries the handle's identifier, and `SplitTooSmall` when the
    /// divided axis has fewer than 2 cells; on failure the page is left
    /// unchanged.
    #[verifier::rlimit(50)]
    pub fn split(
        &mut self,
        handle: PartitionHandle,
        ratio_num: u32,
        ratio_den: u32,
        orientation: Orientation,
    ) -> (r: Result<(PartitionHandle, PartitionHandle), SerpentError>)
        requires
            old(self).wf(),
        ensures
            final(self).wf(),
            r is Err ==> *final(self) == *old(self),
            r == Result::<(PartitionHandle, PartitionHandle), SerpentError>::Err(
                SerpentError::SplitOutOfBounds,
            ) <==> !ratio_valid(ratio_num, ratio_den),
            r == Result::<(PartitionHandle, PartitionHandle), SerpentError>::Err(
                SerpentError::StalePartitionHandle,
            ) <==> ratio_valid(ratio_num, ratio_den) && !old(self).has_part(handle.id),
            r == Result::<(PartitionHandle, PartitionHandle), SerpentError>::Err(
                SerpentError::SplitTooSmall,
            ) <==> ratio_valid(ratio_num, ratio_den) && old(self).has_part(handle.id)
                && axis_extent(
                old(self).partitions@[old(self).index_of_id(handle.id)],
                orientation,
            ) < 2,
            r is Ok <==> ratio_valid(ratio_num, ratio_den) && old(self).has_part(handle.id)
                && axis_extent(
                old(self).partitions@[old(self).index_of_id(handle.id)],
                orientation,
            ) >= 2,
            r matches Ok(hs) ==> {
                let i = old(self).index_of_id(handle.id);
                let children = split_children(
                    old(self).partitions@[i],
                    ratio_num as int,
                    ratio_den as int,
                    orientation,
                    hs.0.id,
                    hs.1.id,
                );
                &&& hs.0.id == old(self).next_partition_id
                &&& hs.1.id == old(self).next_partition_id + 1
                &&& final(self).next_partition_id == old(self).next_partition_id + 2
                &&& final(self).partitions@.len() == old(self).partitions@.len() + 1
                &&& forall|q: int|
                    0 <= q < i ==> final(self).partitions@[q] == old(self).partitions@[q]
                &&& final(self).partitions@[i] == children.0
                &&& final(self).partitions@[i + 1] == children.1
                &&& forall|q: int|
                    i + 2 <= q < final(self).partitions@.len() ==> final(self).partitions@[q]
                        == old(self).partitions@[q - 1]
                &&& axis_extent(children.0, orientation) + axis_extent(children.1, orientation)
                    == axis_extent(old(self).partitions@[i], orientation)
                &&& axis_extent(children.0, orientation) >= 1
                &&& axis_extent(children.1, orientation) >= 1
                &&& final(self).lazy_focus == adjust_focus(old(self).lazy_focus, i)
                &&& final(self).live_focus == adjust_focus(old(self).live_focus, i)
                &&& final(self).actions == old(self).actions
                &&& final(self).size == old(self).size
            },
    {
        if !(ratio_num > 0 && ratio_den > ratio_num) {
            return Err(SerpentError::SplitOutOfBounds);
        }
        match find_index(&self.partitions, handle.id) {
            Option::None => Err(SerpentError::StalePartitionHandle),
            Option::Some(i) => {
                proof {
                    self.lemma_found_index(handle.id, i as int);
                }
                let extent: usize = match orientation {
                    Orientation::Horizontal => self.partitions[i].size.0,
                    Orientation::Vertical => self.partitions[i].size.1,
                };
                if extent < 2 {
                    return Err(SerpentError::SplitTooSmall);
                }
                let first: usize = first_extent(extent, ratio_num, ratio_den);
                let ghost pre = self.partitions@;
                let len_before = self.partitions.len();
                let parent = self.partitions.remove(i);
                proof {
                    assert(self.next_partition_id + 2 <= 2 * (len_before as int) + 3);
                }
                let id_a: u128 = self.next_partition_id;
                let id_b: u128 = id_a + 1;
                self.next_partition_id = id_b + 1;
                let (child_a, child_b): (PartitionInfo<E>, PartitionInfo<E>) = match orientation {
                    Orientation::Horizontal => (
                        PartitionInfo::new(
                            Partition::new(id_a),
                            parent.offset,
                            (first, parent.size.1),
                        ),
                        PartitionInfo::new(
                            Partition::new(id_b),
                            (parent.offset.0 + first, parent.offset.1),
                            (parent.size.0 - first, parent.size.1),
                        ),
                    ),
                    Orientation::Vertical => (
                        PartitionInfo::new(
                            Partition::new(id_a),
                            parent.offset,
                            (parent.size.0, first),
                        ),
                        PartitionInfo::new(
                            Partition::new(id_b),
                            (parent.offset.0, parent.offset.1 + first),
                            (parent.size.0, parent.size.1 - first),
                        ),
                    ),
                };
                proof {
                    let children = split_children(
                        pre[i as int],
                        ratio_num as int,
                        ratio_den as int,
                        orientation,
                        id_a,
                        id_b,
                    );
                    assert(child_a == children.0);
                    assert(child_b == children.1);
                }
                self.partitions.insert(i, child_b);
                self.partitions.insert(i, child_a);
                let grown_len = self.partitions.len();
                proof {
                    assert(grown_len == pre.len() + 1);
                }
                self.lazy_focus = match self.lazy_focus {
                    Option::None => None,
                    Option::Some(j) => if j < i {
                        Some(j)
                    } else if j == i {
                        None
                    } else {
                        proof {
                            assert((j as int) < pre.len());
                        }
                        Some(j + 1)
                    },
                };
                self.live_focus = match self.live_focus {
                    Option::None => None,
                    Option::Some(j) => if j < i {
                        Some(j)
                    } else if j == i {
                        None
                    } else {
                        proof {
                            assert((j as int) < pre.len());
                        }
                        Some(j + 1)
                    },
                };
                proof {
                    let post = final(self).partitions@;
                    assert(post.len() == pre.len() + 1);
                    assert forall|q: int| 0 <= q < i implies post[q] == pre[q] by {
                        assert(post[q] == pre.remove(i as int).insert(i as int, child_b).insert(
                            i as int,
                            child_a,
                        )[q]);
                    }
                    assert(post[i as int] == child_a);
                    assert(post[i + 1] == child_b);
                    assert forall|q: int| i + 2 <= q < post.len() implies post[q] == pre[q - 1] by {
                        assert(pre.remove(i as int)[q - 2] == pre[q - 1]);
                    }
                }
                Ok((PartitionHandle { id: id_a }, PartitionHandle { id: id_b }))
            },
        }
    }

    /// The N-way split convenience: applies [`Page::split`] once per
    /// ratio, each ratio taken against the remaining (not the original)
    /// extent, left-to-right / top-to-bottom; `k` ratios yield `k + 1`
    /// children in place of the parent's slot, and `chain_extents` gives
    /// their extents along the split axis.  The whole chain is checked
    /// up front, so on any failure the page is unchanged: ratios first
    /// (`SplitOutOfBounds`), then the handle (`StalePartitionHandle`),
    /// then feasibility of every step (`SplitTooSmall`).  With no
    /// ratios the partition is left as it is and returned alone.
    #[verifier::rlimit(100)]
    pub fn split_many(
        &mut self,
        handle: PartitionHandle,
        ratios: &Vec<(u32, u32)>,
        orientation: Orientation,
    ) -> (r: Result<Vec<PartitionHandle>, SerpentError>)
        requires
            old(self).wf(),
        ensures
            final(self).wf(),
            r is Err ==> *final(self) == *old(self),
            r == Result::<Vec<PartitionHandle>, SerpentError>::Err(SerpentError::SplitOutOfBounds)
                <==> !ratios_all_valid(ratios@),
            r == Result::<Vec<PartitionHandle>, SerpentError>::Err(
                SerpentError::StalePartitionHandle,
            ) <==> ratios_all_valid(ratios@) && !old(self).has_part(handle.id),
            r == Result::<Vec<PartitionHandle>, SerpentError>::Err(SerpentError::SplitTooSmall)
                <==> ratios_all_valid(ratios@) && old(self).has_part(handle.id) && !chain_ok(
                axis_extent(old(self).partitions@[old(self).index_of_id(handle.id)], orientation),
                ratios@,
            ),
            r is Ok <==> ratios_all_valid(ratios@) && old(self).has_part(handle.id) && chain_ok(
                axis_extent(old(self).partitions@[old(self).index_of_id(handle.id)], orientation),
                ratios@,
            ),
            r matches Ok(hs) ==> {
                let i = old(self).index_of_id(handle.id);
                let k = ratios@.len() as int;
                let parent = old(self).partitions@[i];
                let exts = chain_extents(axis_extent(parent, orientation), ratios@);
                &&& hs@.len() == k + 1
                &&& final(self).partitions@.len() == old(self).partitions@.len() + k
                &&& forall|q: int|
                    0 <= q < i ==> final(self).partitions@[q] == old(self).partitions@[q]
                &&& forall|q: int|
                    i + k + 1 <= q < final(self).partitions@.len() ==> final(self).partitions@[q]
                        == old(self).partitions@[q - k]
                &&& forall|q: int|
                    0 <= q <= k ==> (#[trigger] final(self).partitions@[i + q]).partition.id
                        == hs@[q].id
                &&& k > 0 ==> forall|q: int|
                    0 <= q <= k ==> (#[trigger] final(self).partitions@[i
                        + q]).partition.element is None
                &&& k == 0 ==> final(self).partitions@[i] == parent
                &&& forall|q: int|
                    0 <= q <= k ==> axis_extent(#[trigger] final(self).partitions@[i + q], orientation)
                        == exts[q]
                &&& forall|q: int|
                    0 <= q <= k ==> cross_extent(#[trigger] final(self).partitions@[i + q], orientation)
                        == cross_extent(parent, orientation)
                &&& forall|q: int|
                    0 <= q <= k ==> cross_offset(#[trigger] final(self).partitions@[i + q], orientation)
                        == cross_offset(parent, orientation)
                &&& axis_offset(final(self).partitions@[i], orientation) == axis_offset(
                    parent,
                    orientation,
                )
                &&& forall|q: int|
                    1 <= q <= k ==> axis_offset(#[trigger] final(self).partitions@[i + q], orientation)
                        == axis_offset(final(self).partitions@[i + q - 1], orientation)
                        + axis_extent(final(self).partitions@[i + q - 1], orientation)
                &&& final(self).lazy_focus == adjust_focus_many(old(self).lazy_focus, i, k)
                &&& final(self).live_focus == adjust_focus_many(old(self).live_focus, i, k)
                &&& final(self).actions == old(self).actions
                &&& final(self).size == old(self).size
            },
    {
        let nr = ratios.len();
        for t in 0..nr
            invariant
                nr == ratios@.len(),
                *self == *old(self),
                self.wf(),
                forall|q: int|
                    0 <= q < t ==> ratio_valid((#[trigger] ratios@[q]).0, ratios@[q].1),
        {
            let (num, den) = ratios[t];
            if !(num > 0 && den > num) {
                proof {
                    assert(ratios@[t as int] == (num, den));
                    assert(!ratios_all_valid(ratios@));
                }
                return Err(SerpentError::SplitOutOfBounds);
            }
        }
        proof {
            assert(ratios_all_valid(ratios@));
        }
        match find_index(&self.partitions, handle.id) {
            Option::None => {
                proof {
                    if self.has_part(handle.id) {
                        let w = choose|w: int|
                            0 <= w < self.partitions@.len() && (
                            #[trigger] self.partitions@[w]).partition.id == handle.id;
                        assert(self.partitions@[w].partition.id != handle.id);
                    }
                }
                Err(SerpentError::StalePartitionHandle)
            },
            Option::Some(i) => {
                proof {
                    self.lemma_found_index(handle.id, i as int);
                }
                let ghost gi = i as int;
                let parent_extent: usize = match orientation {
                    Orientation::Horizontal => self.partitions[i].size.0,
                    Orientation::Vertical => self.partitions[i].size.1,
                };
                // Dry-run the whole chain first, so that a step that
                // would come up short leaves the page untouched.
                let mut cur: usize = parent_extent;
                proof {
                    assert(ratios@.skip(0) =~= ratios@);
                }
                for t in 0..nr
                    invariant
                        nr == ratios@.len(),
                        ratios_all_valid(ratios@),
                        *self == *old(self),
                        self.wf(),
                        self.has_part(handle.id),
                        0 <= gi < self.partitions@.len(),
                        self.index_of_id(handle.id) == gi,
                        axis_extent(self.partitions@[gi], orientation) == parent_extent as int,
                        chain_ok(parent_extent as int, ratios@) <==> chain_ok(
                            cur as int,
                            ratios@.skip(t as int),
                        ),
                {
                    proof {
                        assert(ratios@.skip(t as int).len() > 0);
                    }
                    if cur < 2 {
                        proof {
                            assert(!chain_ok(cur as int, ratios@.skip(t as int)));
                        }
                        return Err(SerpentError::SplitTooSmall);
                    }
                    let (num, den) = ratios[t];
                    proof {
                        assert(ratios@[t as int] == (num, den));
                        assert(ratio_valid(num, den));
                        assert(ratios@.skip(t as int).first() == ratios@[t as int]);
                        assert(ratios@.skip(t as int).drop_first() =~= ratios@.skip(t + 1));
                    }
                    let share = first_extent(cur, num, den);
                    cur = cur - share;
                }
                proof {
                    assert(ratios@.skip(nr as int).len() == 0);
                    assert(chain_ok(parent_extent as int, ratios@));
                    lemma_chain_extents_sum(parent_extent as int, ratios@);
                }
                let ghost exts = chain_extents(parent_extent as int, ratios@);
                let ghost parent_info = old(self).partitions@[gi];
                let mut out: Vec<PartitionHandle> = Vec::new();
                let mut h = handle;
                proof {
                    assert(ratios@.skip(0) =~= ratios@);
                }
                for t in 0..nr
                    invariant
                        nr == ratios@.len(),
                        ratios_all_valid(ratios@),
                        old(self).wf(),
                        0 <= gi < old(self).partitions@.len(),
                        old(self).partitions@[gi] == parent_info,
                        axis_extent(parent_info, orientation) == parent_extent as int,
                        exts == chain_extents(parent_extent as int, ratios@),
                        exts.len() == nr + 1,
                        self.wf(),
                        self.size == old(self).size,
                        self.actions == old(self).actions,
                        self.partitions@.len() == old(self).partitions@.len() + t,
                        forall|q: int|
                            0 <= q < gi ==> self.partitions@[q] == old(self).partitions@[q],
                        forall|q: int|
                            gi + t + 1 <= q < self.partitions@.len() ==> self.partitions@[q] == old(
                                self,
                            ).partitions@[q - t],
                        out@.len() == t,
                        self.partitions@[gi + t].partition.id == h.id,
                        t == 0 ==> self.partitions@[gi] == parent_info,
                        t > 0 ==> self.partitions@[gi + t].partition.element is None,
                        chain_extents(
                            axis_extent(self.partitions@[gi + t], orientation),
                            ratios@.skip(t as int),
                        ) == exts.skip(t as int),
                        chain_ok(
                            axis_extent(self.partitions@[gi + t], orientation),
                            ratios@.skip(t as int),
                        ),
                        cross_extent(self.partitions@[gi + t], orientation) == cross_extent(
                            parent_info,
                            orientation,
                        ),
                        cross_offset(self.partitions@[gi + t], orientation) == cross_offset(
                            parent_info,
                            orientation,
                        ),
                        axis_offset(self.partitions@[gi], orientation) == axis_offset(
                            parent_info,
                            orientation,
                        ),
                        forall|q: int|
                            0 <= q < t ==> (#[trigger] self.partitions@[gi + q]).partition.id
                                == out@[q].id,
                        forall|q: int|
                            0 <= q < t ==> (#[trigger] self.partitions@[gi
                                + q]).partition.element is None,
                        forall|q: int|
                            0 <= q < t ==> axis_extent(#[trigger] self.partitions@[gi + q], orientation)
                                == exts[q],
                        forall|q: int|
                            0 <= q < t ==> cross_extent(#[trigger] self.partitions@[gi + q], orientation)
                                == cross_extent(parent_info, orientation),
                        forall|q: int|
                            0 <= q < t ==> cross_offset(#[trigger] self.partitions@[gi + q], orientation)
                                == cross_offset(parent_info, orientation),
                        forall|q: int|
                            1 <= q <= t ==> axis_offset(#[trigger] self.partitions@[gi + q], orientation)
                                == axis_offset(self.partitions@[gi + q - 1], orientation)
                                + axis_extent(self.partitions@[gi + q - 1], orientation),
                        self.lazy_focus == adjust_focus_many(old(self).lazy_focus, gi, t as int),
                        self.live_focus == adjust_focus_many(old(self).live_focus, gi, t as int),
                {
                    let (num, den) = ratios[t];
                    proof {
                        assert(ratios@[t as int] == (num, den));
                        assert(ratio_valid(num, den));
                        assert(ratios@.skip(t as int).first() == ratios@[t as int]);
                        assert(ratios@.skip(t as int).drop_first() =~= ratios@.skip(t + 1));
                        assert(exts.skip(t as int).drop_first() =~= exts.skip(t + 1));
                        assert(self.has_part(h.id));
                        self.lemma_found_index(h.id, gi + t);
                        assert(ratios@.skip(t as int).len() > 0);
                        assert(axis_extent(self.partitions@[gi + t], orientation) >= 2);
                    }
                    let ghost mid = *self;
                    let res = self.split(h, num, den, orientation);
                    let (a, b) = match res {
                        Result::Ok(p) => p,
                        Result::Err(_) => {
                            proof {
                                assert(false);
                            }
                            vstd::pervasive::unreached()
                        },
                    };
                    proof {
                        let rem = axis_extent(mid.partitions@[gi + t], orientation);
                        let fst = split_first_extent(rem, num as int, den as int);
                        assert(chain_extents(rem, ratios@.skip(t as int)) == seq![fst]
                            + chain_extents(rem - fst, ratios@.skip(t + 1)));
                        assert(exts.skip(t as int)[0] == exts[t as int]);
                        assert(exts[t as int] == fst);
                        assert(chain_extents(rem - fst, ratios@.skip(t + 1)) =~= exts.skip(t + 1));
                    }
                    out.push(a);
                    h = b;
                    let shown_len = self.partitions.len();
                    proof {
                        assert forall|q: int|
                            gi + t + 2 <= q < self.partitions@.len() implies self.partitions@[q]
                            == old(self).partitions@[q - t - 1] by {
                            assert(self.partitions@[q] == mid.partitions@[q - 1]);
                        }
                        assert forall|q: int| 0 <= q < gi implies self.partitions@[q] == old(
                            self,
                        ).partitions@[q] by {
                            assert(self.partitions@[q] == mid.partitions@[q]);
                        }
                        assert(self.lazy_focus == adjust_focus(mid.lazy_focus, gi + t));
                        assert(self.live_focus == adjust_focus(mid.live_focus, gi + t));
                        match old(self).lazy_focus {
                            Option::None => (),
                            Option::Some(j) => {
                                if (j as int) > gi {
                                    assert(j + t < shown_len);
                                    assert((j + t) as usize as int == j + t);
                                    assert((j + t + 1) as usize as int == j + t + 1);
                                }
                            },
                        }
                        match old(self).live_focus {
                            Option::None => (),
                            Option::Some(j) => {
                                if (j as int) > gi {
                                    assert(j + t < shown_len);
                                    assert((j + t) as usize as int == j + t);
                                    assert((j + t + 1) as usize as int == j + t + 1);
                                }
                            },
                        }
                    }
                }
                proof {
                    assert(ratios@.skip(nr as int).len() == 0);
                    assert(chain_extents(
                        axis_extent(self.partitions@[gi + nr], orientation),
                        ratios@.skip(nr as int),
                    ) == seq![axis_extent(self.partitions@[gi + nr], orientation)]);
                    assert(exts.skip(nr as int)[0] == exts[nr as int]);
                    assert(axis_extent(self.partitions@[gi + nr], orientation)
                        == exts[nr as int]);
                }
                out.push(h);
                Ok(out)
            },
        }
    }
}

impl<E: SerpentElement> Partition<E> {
    /// The current size of this partition's rectangle, read from the
    /// owning page.
    pub fn get_size(&self, page: &Page<E>) -> (r: (usize, usize))
        requires
            page.wf(),
            page.has_part(self.id),
        ensures
            r == page.partitions@[page.index_of_id(self.id)].size,
            1 <= r.0,
            1 <= r.1,
    {
        match find_index(&page.partitions, self.id) {
            Option::Some(i) => {
                proof {
                    page.lemma_found_index(self.id, i as int);
                }
                size_at(page, i)
            },
            Option::None => {
                proof {
                    let w = choose|w: int|
                        0 <= w < page.partitions@.len() && (
                        #[trigger] page.partitions@[w]).partition.id == self.id;
                    assert(page.partitions@[w].partition.id != self.id);
                }
                vstd::pervasive::unreached()
            },
        }
    }
}

/// The size of the partition at position `i` of `page`.
fn size_at<E: SerpentElement>(page: &Page<E>, i: usize) -> (r: (usize, usize))
    requires
        page.wf(),
        i < page.partitions@.len(),
    ensures
        r == page.partitions@[i as int].size,
        1 <= r.0,
        1 <= r.1,
{
    proof {
        assert(page.partitions@[i as int].fits(page.size));
    }
    page.partitions[i].size
}

impl PartitionHandle {
    /// The current size of the partition this handle names, or
    /// `StalePartitionHandle` when that partition was re-split.
    pub fn get_size<E: SerpentElement>(&self, page: &Page<E>) -> (r: Result<
        (usize, usize),
        SerpentError,
    >)
        requires
            page.wf(),
        ensures
            r matches Ok(s) ==> page.has_part(self.id) && s
                == page.partitions@[page.index_of_id(self.id)].size && 1 <= s.0 && 1 <= s.1,
            r matches Err(e) ==> e == SerpentError::StalePartitionHandle && !page.has_part(
                self.id,
            ),
    {
        match find_index(&page.partitions, self.id) {
            Option::Some(i) => {
                proof {
                    page.lemma_found_index(self.id, i as int);
                }
                Ok(size_at(page, i))
            },
            Option::None => Err(SerpentError::StalePartitionHandle),
        }
    }
}

} // verus!
