//! Fragments: the boxes, anonymous boxes, text runs, images and iframes that
//! layout produces, with their geometry and scrollable overflow.
//!
//! Geometry is flow-relative where a fragment stores it and physical where
//! overflow is concerned. Scrollable overflow is the smallest rectangle that
//! holds a fragment and what overflows from it, computed bottom-up: each
//! box keeps the overflow of its children, and its parent reads it.
use std::sync::Arc;

use vstd::prelude::*;
use webrender_api::{FontInstanceKey, ImageKey};

use crate::fragment_tree::{BaseFragment, BaseFragmentInfo, Tag};
use crate::geom::{
    fits, int_max, int_min, FlowRect, Length, PhysPoint, PhysRect, PhysSize, PhysicalPoint,
    PhysicalRect, Rect, Sides, WritingMode,
};
use crate::margins::CollapsedBlockMargins;
use crate::resources::{BrowsingContextId, GfxFontMetrics, GlyphStore, PipelineId};
use crate::style::{ComputedOverflow, ComputedValues, TextDecorationLine};

verus! {

/// A fragment of the fragment tree.
#[derive(Debug)]
pub enum Fragment {
    Box(BoxFragment),
    Anonymous(AnonymousFragment),
    /// Absolute and fixed position fragments are hoisted up so that they
    /// are children of the BoxFragment that establishes their containing
    /// blocks, so that they can be laid out properly. When this happens
    /// an `AbsoluteOrFixedPositioned` fragment is left at the original tree
    /// position. This allows these hoisted fragments to be painted with
    /// regard to their original tree order during stacking context tree /
    /// display list construction.
    AbsoluteOrFixedPositioned(HoistedSharedFragment),
    Text(TextFragment),
    Image(ImageFragment),
    IFrame(IFrameFragment),
}

/// The hoisted fragment that an `AbsoluteOrFixedPositioned` fragment stands
/// for, once its containing block has laid it out.
#[derive(Debug)]
pub struct HoistedSharedFragment {
    pub fragment: Option<Box<Fragment>>,
}

/// The fragment of a box.
#[derive(Debug)]
pub struct BoxFragment {
    pub base: BaseFragment,
    pub style: Arc<ComputedValues>,
    pub children: Vec<Fragment>,
    /// From the containing block's start corner.
    pub content_rect: Rect,
    pub padding: Sides,
    pub border: Sides,
    pub margin: Sides,
    pub block_margins_collapsed_with_children: CollapsedBlockMargins,
    /// The scrollable overflow of this box fragment's children, relative to
    /// its content box.
    pub scrollable_overflow_from_children: PhysicalRect,
}

/// Can contain child fragments with relative coordinates, but does not
/// contribute to painting itself.
#[derive(Debug)]
pub struct AnonymousFragment {
    pub base: BaseFragment,
    pub rect: Rect,
    pub children: Vec<Fragment>,
    pub mode: WritingMode,
    /// The scrollable overflow of this anonymous fragment's children.
    pub scrollable_overflow: PhysicalRect,
}

/// The metrics of the font of a text fragment.
#[derive(Clone, Copy, Debug, PartialEq, Eq, Structural)]
pub struct FontMetrics {
    pub ascent: Length,
    pub line_gap: Length,
    pub underline_offset: Length,
    pub underline_size: Length,
    pub strikeout_offset: Length,
    pub strikeout_size: Length,
}

impl<'a> From<&'a GfxFontMetrics> for FontMetrics {
    fn from(metrics: &'a GfxFontMetrics) -> (r: FontMetrics) {
        FontMetrics {
            ascent: Length::from_au(metrics.ascent),
            line_gap: Length::from_au(metrics.line_gap),
            underline_offset: Length::from_au(metrics.underline_offset),
            underline_size: Length::from_au(metrics.underline_size),
            strikeout_offset: Length::from_au(metrics.strikeout_offset),
            strikeout_size: Length::from_au(metrics.strikeout_size),
        }
    }
}

impl<'a> vstd::std_specs::convert::FromSpecImpl<&'a GfxFontMetrics> for FontMetrics {
    open spec fn obeys_from_spec() -> bool {
        true
    }

    open spec fn from_spec(metrics: &'a GfxFontMetrics) -> FontMetrics {
        FontMetrics {
            ascent: Length { au: metrics.ascent },
            line_gap: Length { au: metrics.line_gap },
            underline_offset: Length { au: metrics.underline_offset },
            underline_size: Length { au: metrics.underline_size },
            strikeout_offset: Length { au: metrics.strikeout_offset },
            strikeout_size: Length { au: metrics.strikeout_size },
        }
    }
}

/// A run of text.
#[derive(Debug)]
pub struct TextFragment {
    pub base: BaseFragment,
    pub parent_style: Arc<ComputedValues>,
    pub rect: Rect,
    pub font_metrics: FontMetrics,
    pub font_key: FontInstanceKey,
    pub glyphs: Vec<Arc<GlyphStore>>,
    /// A flag that represents the _used_ value of the text-decoration property.
    pub text_decoration_line: TextDecorationLine,
}

/// An image.
#[derive(Debug)]
pub struct ImageFragment {
    pub base: BaseFragment,
    pub style: Arc<ComputedValues>,
    pub rect: Rect,
    pub image_key: ImageKey,
}

/// A nested browsing context.
#[derive(Debug)]
pub struct IFrameFragment {
    pub base: BaseFragment,
    pub pipeline_id: PipelineId,
    pub browsing_context_id: BrowsingContextId,
    pub rect: Rect,
    pub style: Arc<ComputedValues>,
}

// ---------------------------------------------------------------------------
// Specifications.
/// The sum of a sequence of integers.
pub open spec fn sum_of(s: Seq<int>) -> int
    decreases s.len(),
{
    if s.len() == 0 {
        0
    } else {
        sum_of(s.drop_last()) + s.last()
    }
}

/// The union of a sequence of rectangles, from the zero rectangle onwards.
pub open spec fn union_all(rects: Seq<PhysRect>) -> PhysRect
    decreases rects.len(),
{
    if rects.len() == 0 {
        PhysRect::zero()
    } else {
        union_all(rects.drop_last()).union(rects.last())
    }
}

/// Every partial union of `rects` fits in `i32` app units.
pub open spec fn union_all_fits(rects: Seq<PhysRect>) -> bool {
    forall|i: int| 0 <= i <= rects.len() ==> #[trigger] union_all(rects.take(i)).fits()
}

/// The scrollable overflow of each fragment, for its parent.
pub open spec fn overflows(children: Seq<Fragment>) -> Seq<PhysRect> {
    Seq::new(children.len(), |i: int| children[i].spec_scrollable_overflow())
}

/// The scrollable overflow of each fragment, moved by `by`.
pub open spec fn overflows_moved(children: Seq<Fragment>, by: PhysPoint) -> Seq<PhysRect> {
    Seq::new(children.len(), |i: int| children[i].spec_scrollable_overflow().translate(by))
}

/// Every fragment can compute its scrollable overflow.
pub open spec fn all_overflows_fit(children: Seq<Fragment>) -> bool {
    forall|i: int| 0 <= i < children.len() ==> #[trigger] children[i].scrollable_overflow_fits()
}

impl BoxFragment {
    pub open spec fn spec_padding_rect(&self) -> FlowRect {
        self.content_rect@.inflate(self.padding@)
    }

    pub open spec fn spec_border_rect(&self) -> FlowRect {
        self.spec_padding_rect().inflate(self.border@)
    }

    pub open spec fn padding_rect_fits(&self) -> bool {
        &&& self.spec_padding_rect().fits()
        &&& fits(self.padding@.inline_sum())
        &&& fits(self.padding@.block_sum())
    }

    pub open spec fn border_rect_fits(&self) -> bool {
        &&& self.padding_rect_fits()
        &&& self.spec_border_rect().fits()
        &&& fits(self.border@.inline_sum())
        &&& fits(self.border@.block_sum())
    }

    /// The physical position of the content box, as a vector.
    pub open spec fn content_origin(&self) -> PhysPoint {
        self.content_rect@.start_corner.to_physical(self.style.writing_mode).to_vector()
    }

    /// The overflow of the children, placed where the content box is.
    pub open spec fn placed_children_overflow(&self) -> PhysRect {
        self.scrollable_overflow_from_children@.translate(self.content_origin())
    }

    pub open spec fn spec_scrollable_overflow(&self) -> PhysRect {
        self.spec_padding_rect().to_physical(self.style.writing_mode).union(
            self.placed_children_overflow(),
        )
    }

    pub open spec fn scrollable_overflow_fits(&self) -> bool {
        &&& self.padding_rect_fits()
        &&& self.placed_children_overflow().fits()
        &&& self.spec_scrollable_overflow().fits()
    }

    /// Whether the box clips its overflow on both axes.
    pub open spec fn clips_overflow(&self) -> bool {
        self.style.overflow_y != ComputedOverflow::Visible && self.style.overflow_x
            != ComputedOverflow::Visible
    }

    pub open spec fn spec_scrollable_overflow_for_parent(&self) -> PhysRect {
        let border = self.spec_border_rect().to_physical(self.style.writing_mode);
        if self.clips_overflow() {
            border
        } else {
            let own = self.spec_scrollable_overflow();
            let right = int_max(border.max_x(), own.max_x());
            let bottom = int_max(border.max_y(), own.max_y());
            let y_visible = self.style.overflow_y == ComputedOverflow::Visible;
            let x_visible = self.style.overflow_x == ComputedOverflow::Visible;
            let y = if y_visible {
                int_min(border.origin.y, own.origin.y)
            } else {
                border.origin.y
            };
            let height = if y_visible {
                bottom - y
            } else {
                border.size.height
            };
            let x = if x_visible {
                int_min(border.origin.x, own.origin.x)
            } else {
                border.origin.x
            };
            let width = if x_visible {
                right - x
            } else {
                border.size.width
            };
            PhysRect { origin: PhysPoint { x, y }, size: PhysSize { width, height } }
        }
    }

    pub open spec fn scrollable_overflow_for_parent_fits(&self) -> bool {
        let border = self.spec_border_rect().to_physical(self.style.writing_mode);
        let own = self.spec_scrollable_overflow();
        &&& self.border_rect_fits()
        &&& !self.clips_overflow() ==> {
            &&& self.scrollable_overflow_fits()
            &&& fits(border.max_x())
            &&& fits(border.max_y())
            &&& fits(own.max_x())
            &&& fits(own.max_y())
            &&& self.spec_scrollable_overflow_for_parent().fits()
        }
    }
}

impl Fragment {
    /// The scrollable overflow of this fragment, for its parent.
    pub open spec fn spec_scrollable_overflow(&self) -> PhysRect {
        match self {
            Fragment::Box(f) => f.spec_scrollable_overflow_for_parent(),
            Fragment::AbsoluteOrFixedPositioned(_) => PhysRect::zero(),
            Fragment::Anonymous(f) => f.scrollable_overflow@,
            Fragment::Text(f) => f.rect@.to_physical(f.parent_style.writing_mode),
            Fragment::Image(f) => f.rect@.to_physical(f.style.writing_mode),
            Fragment::IFrame(f) => f.rect@.to_physical(f.style.writing_mode),
        }
    }

    /// The scrollable overflow of this fragment can be computed in `i32`.
    pub open spec fn scrollable_overflow_fits(&self) -> bool {
        match self {
            Fragment::Box(f) => f.scrollable_overflow_for_parent_fits(),
            _ => true,
        }
    }

    /// The base of this fragment; hoisted fragments have none here.
    pub open spec fn spec_base(&self) -> Option<BaseFragment> {
        match self {
            Fragment::Box(f) => Some(f.base),
            Fragment::Text(f) => Some(f.base),
            Fragment::AbsoluteOrFixedPositioned(_) => None,
            Fragment::Anonymous(f) => Some(f.base),
            Fragment::Image(f) => Some(f.base),
            Fragment::IFrame(f) => Some(f.base),
        }
    }

    pub open spec fn spec_tag(&self) -> Option<Tag> {
        match self.spec_base() {
            Some(b) => b.tag,
            None => None,
        }
    }

    /// The rectangle whose start corner `offset_inline` moves.
    pub open spec fn positioned_rect(&self) -> Option<Rect> {
        match self {
            Fragment::Box(f) => Some(f.content_rect),
            Fragment::AbsoluteOrFixedPositioned(_) => None,
            Fragment::Anonymous(f) => Some(f.rect),
            Fragment::Text(f) => Some(f.rect),
            Fragment::Image(f) => Some(f.rect),
            Fragment::IFrame(f) => Some(f.rect),
        }
    }

    /// The fragment moved by `offset` in the inline direction.
    pub open spec fn spec_offset_inline(self, offset: int) -> Fragment {
        match self {
            Fragment::Box(f) => Fragment::Box(
                BoxFragment { content_rect: f.content_rect.offset_start_inline(offset), ..f },
            ),
            Fragment::AbsoluteOrFixedPositioned(f) => Fragment::AbsoluteOrFixedPositioned(f),
            Fragment::Anonymous(f) => Fragment::Anonymous(
                AnonymousFragment { rect: f.rect.offset_start_inline(offset), ..f },
            ),
            Fragment::Text(f) => Fragment::Text(
                TextFragment { rect: f.rect.offset_start_inline(offset), ..f },
            ),
            Fragment::Image(f) => Fragment::Image(
                ImageFragment { rect: f.rect.offset_start_inline(offset), ..f },
            ),
            Fragment::IFrame(f) => Fragment::IFrame(
                IFrameFragment { rect: f.rect.offset_start_inline(offset), ..f },
            ),
        }
    }

    pub open spec fn offset_inline_fits(&self, offset: int) -> bool {
        match self.positioned_rect() {
            Some(r) => fits(r.start_corner.inline@ + offset),
            None => true,
        }
    }
}

// ---------------------------------------------------------------------------
// The walk of `Fragment::find`.
/// One step of a pre-order walk of the fragment tree: a fragment, its depth
/// and its containing block.
pub struct Visit {
    pub fragment: Fragment,
    pub level: int,
    pub containing_block: PhysRect,
}

impl Visit {
    /// What the walk hands the callback at this step.
    pub open spec fn args(self) -> (&'static Fragment, usize, &'static PhysicalRect) {
        (&self.fragment, self.level as usize, &PhysicalRect::from_view(self.containing_block))
    }
}

impl BoxFragment {
    /// The containing block of the children of this box, where `containing_block`
    /// is its own.
    pub open spec fn child_containing_block(&self, containing_block: PhysRect) -> PhysRect {
        self.content_rect@.to_physical(self.style.writing_mode).translate(containing_block.origin)
    }
}

impl AnonymousFragment {
    /// The containing block of the children of this fragment, where
    /// `containing_block` is its own.
    pub open spec fn child_containing_block(&self, containing_block: PhysRect) -> PhysRect {
        self.rect@.to_physical(self.mode).translate(containing_block.origin)
    }
}

/// The pre-order walk of the tree under `f`, which stands at depth `level` in
/// the containing block `containing_block`. Only boxes and anonymous
/// fragments have children here.
pub open spec fn visits(f: Fragment, containing_block: PhysRect, level: int) -> Seq<Visit>
    decreases f,
{
    seq![Visit { fragment: f, level, containing_block }] + match f {
        Fragment::Box(b) => visits_list(
            b.children@,
            b.child_containing_block(containing_block),
            level + 1,
        ),
        Fragment::Anonymous(a) => visits_list(
            a.children@,
            a.child_containing_block(containing_block),
            level + 1,
        ),
        _ => Seq::<Visit>::empty(),
    }
}

/// The walks of the trees under `children`, one after the other.
pub open spec fn visits_list(children: Seq<Fragment>, containing_block: PhysRect, level: int) -> Seq<
    Visit,
>
    decreases children,
{
    if children.len() == 0 {
        Seq::<Visit>::empty()
    } else {
        visits_list(children.drop_last(), containing_block, level) + visits(
            children.last(),
            containing_block,
            level,
        )
    }
}

/// Every step of a walk has a level that `usize` holds and a containing block
/// that fits in `i32` app units.
pub open spec fn walk_fits(vs: Seq<Visit>) -> bool {
    forall|k: int|
        0 <= k < vs.len() ==> 0 <= (#[trigger] vs[k]).level <= usize::MAX
            && vs[k].containing_block.fits()
}

/// The callback may return `None` on each step of `vs`.
pub open spec fn all_none<T, F: Fn(&Fragment, usize, &PhysicalRect) -> Option<T>>(
    f: F,
    vs: Seq<Visit>,
) -> bool {
    forall|j: int| 0 <= j < vs.len() ==> call_ensures(f, (#[trigger] vs[j]).args(), None)
}

/// What a search over the walk `vs` may return: the first `Some` that the
/// callback gives, after `None` on every earlier step, or `None` where it
/// gave `None` on every step.
pub open spec fn found_in<T, F: Fn(&Fragment, usize, &PhysicalRect) -> Option<T>>(
    f: F,
    vs: Seq<Visit>,
    r: Option<T>,
) -> bool {
    match r {
        Some(t) => exists|k: int|
            0 <= k < vs.len() && call_ensures(f, (#[trigger] vs[k]).args(), Some(t)) && all_none(
                f,
                vs.take(k),
            ),
        None => all_none(f, vs),
    }
}

/// The walk of the first `j` children is the start of the walk of them all.
pub proof fn lemma_visits_list_prefix(
    children: Seq<Fragment>,
    containing_block: PhysRect,
    level: int,
    j: int,
)
    requires
        0 <= j <= children.len(),
    ensures
        ({
            let part = visits_list(children.take(j), containing_block, level);
            let all = visits_list(children, containing_block, level);
            part.len() <= all.len() && part =~= all.take(part.len() as int)
        }),
    decreases children.len(),
{
    if j == children.len() {
        assert(children.take(j) =~= children);
    } else {
        let init = children.drop_last();
        assert(children.take(j) =~= init.take(j));
        lemma_visits_list_prefix(init, containing_block, level, j);
    }
}

/// The walk of the first `i + 1` children is that of the first `i`, then
/// that of child `i`.
pub proof fn lemma_visits_list_step(
    children: Seq<Fragment>,
    containing_block: PhysRect,
    level: int,
    i: int,
)
    requires
        0 <= i < children.len(),
    ensures
        visits_list(children.take(i + 1), containing_block, level) == visits_list(
            children.take(i),
            containing_block,
            level,
        ) + visits(children[i], containing_block, level),
{
    assert(children.take(i + 1).drop_last() =~= children.take(i));
    assert(children.take(i + 1).last() == children[i]);
}

/// A fragment that can compute its scrollable overflow has one that fits.
pub proof fn lemma_overflow_fits(f: Fragment)
    requires
        f.scrollable_overflow_fits(),
    ensures
        f.spec_scrollable_overflow().fits(),
{
}

// ---------------------------------------------------------------------------
// Laws of fragments.
/// Moving a fragment by an inline offset and then by its opposite gives the
/// fragment back.
pub proof fn lemma_offset_inline_back(f: Fragment, offset: int)
    requires
        f.offset_inline_fits(offset),
    ensures
        f.spec_offset_inline(offset).offset_inline_fits(-offset),
        f.spec_offset_inline(offset).spec_offset_inline(-offset) == f,
{
}

/// Two inline offsets in turn move a fragment by their sum.
pub proof fn lemma_offset_inline_twice(f: Fragment, a: int, b: int)
    requires
        f.offset_inline_fits(a),
        f.offset_inline_fits(a + b),
    ensures
        f.spec_offset_inline(a).offset_inline_fits(b),
        f.spec_offset_inline(a).spec_offset_inline(b) == f.spec_offset_inline(a + b),
{
}

/// A hoisted fragment has neither base nor tag, and stays put under an
/// inline offset.
pub proof fn lemma_hoisted(f: Fragment, offset: int)
    requires
        f is AbsoluteOrFixedPositioned,
    ensures
        f.spec_base() is None,
        f.spec_tag() is None,
        f.spec_offset_inline(offset) == f,
        f.spec_scrollable_overflow() == PhysRect::zero(),
{
}

/// The border box of a box is its content box grown by padding and border
/// together.
pub proof fn lemma_border_rect(b: BoxFragment)
    ensures
        b.spec_border_rect() == b.content_rect@.inflate(b.padding@.plus(b.border@)),
{
    crate::geom::lemma_inflate_twice(b.content_rect@, b.padding@, b.border@);
}

/// The scrollable overflow of a box, for its parent, spans its border box;
/// it is the border box where overflow is clipped on both axes, and on each
/// axis where overflow is visible it spans the box's own scrollable overflow.
pub proof fn lemma_overflow_for_parent(b: BoxFragment)
    ensures
        ({
            let border = b.spec_border_rect().to_physical(b.style.writing_mode);
            let own = b.spec_scrollable_overflow();
            let r = b.spec_scrollable_overflow_for_parent();
            &&& r.covers(border)
            &&& b.clips_overflow() ==> r == border
            &&& b.style.overflow_x == ComputedOverflow::Visible ==> r.origin.x <= own.origin.x
                && r.max_x() >= own.max_x()
            &&& b.style.overflow_y == ComputedOverflow::Visible ==> r.origin.y <= own.origin.y
                && r.max_y() >= own.max_y()
            &&& b.style.overflow_x != ComputedOverflow::Visible ==> r.origin.x == border.origin.x
                && r.size.width == border.size.width
            &&& b.style.overflow_y != ComputedOverflow::Visible ==> r.origin.y == border.origin.y
                && r.size.height == border.size.height
        }),
{
}

/// The scrollable overflow of a box spans its padding box and the overflow
/// of its children, where neither has zero size; where the children's
/// overflow has zero size it is the padding box.
pub proof fn lemma_box_overflow(b: BoxFragment)
    ensures
        ({
            let padding = b.spec_padding_rect().to_physical(b.style.writing_mode);
            let children = b.placed_children_overflow();
            let r = b.spec_scrollable_overflow();
            &&& !padding.is_zero_size() && !children.is_zero_size() ==> r.covers(padding)
                && r.covers(children)
            &&& children.is_zero_size() && !padding.is_zero_size() ==> r == padding
            &&& padding.is_zero_size() ==> r == children
        }),
{
}

/// The union of rectangles of non-negative size spans each of them that has
/// nonzero size, and has non-negative size itself.
pub proof fn lemma_union_all_covers(rects: Seq<PhysRect>)
    requires
        forall|i: int| 0 <= i < rects.len() ==> (#[trigger] rects[i]).has_nonnegative_size(),
    ensures
        union_all(rects).has_nonnegative_size(),
        forall|i: int|
            0 <= i < rects.len() && !(#[trigger] rects[i]).is_zero_size() ==> union_all(
                rects,
            ).covers(rects[i]),
    decreases rects.len(),
{
    if rects.len() > 0 {
        let init = rects.drop_last();
        let acc = union_all(init);
        let last = rects.last();
        assert forall|i: int| 0 <= i < init.len() implies (#[trigger] init[i]).has_nonnegative_size() by {
            assert(init[i] == rects[i]);
        }
        lemma_union_all_covers(init);
        crate::geom::lemma_union_nonnegative(acc, last);
        assert forall|i: int|
            0 <= i < rects.len() && !(#[trigger] rects[i]).is_zero_size() implies union_all(
                rects,
            ).covers(rects[i]) by {
            if i == rects.len() - 1 {
                if !acc.is_zero_size() {
                    crate::geom::lemma_union_covers(acc, last);
                }
            } else {
                assert(init[i] == rects[i]);
                assert(acc.covers(rects[i]));
                assert(!acc.is_zero_size());
                if !last.is_zero_size() {
                    crate::geom::lemma_union_covers(acc, last);
                    crate::geom::lemma_covers_transitive(union_all(rects), acc, rects[i]);
                }
            }
        }
    }
}

/// The overflow that an anonymous fragment records spans the scrollable
/// overflow of each child that has nonzero size, placed where the fragment
/// starts, where no child's overflow has a negative size.
pub proof fn lemma_anonymous_overflow_covers_children(
    rect: Rect,
    children: Seq<Fragment>,
    mode: WritingMode,
)
    requires
        forall|i: int|
            0 <= i < children.len() ==> (#[trigger] children[i]).spec_scrollable_overflow().has_nonnegative_size(),
    ensures
        ({
            let moved = overflows_moved(children, AnonymousFragment::content_origin(rect, mode));
            forall|i: int|
                0 <= i < children.len() && !(#[trigger] moved[i]).is_zero_size() ==> union_all(
                    moved,
                ).covers(moved[i])
        }),
{
    let moved = overflows_moved(children, AnonymousFragment::content_origin(rect, mode));
    assert forall|i: int| 0 <= i < moved.len() implies (#[trigger] moved[i]).has_nonnegative_size() by {
        assert(children[i].spec_scrollable_overflow().has_nonnegative_size());
    }
    lemma_union_all_covers(moved);
}

/// The overflow that a box records for its children spans the scrollable
/// overflow of each child that has nonzero size, where no child's overflow
/// has a negative size.
pub proof fn lemma_box_overflow_covers_children(children: Seq<Fragment>)
    requires
        forall|i: int|
            0 <= i < children.len() ==> (#[trigger] children[i]).spec_scrollable_overflow().has_nonnegative_size(),
    ensures
        ({
            let rects = overflows(children);
            forall|i: int|
                0 <= i < children.len() && !(#[trigger] rects[i]).is_zero_size() ==> union_all(
                    rects,
                ).covers(rects[i])
        }),
{
    let rects = overflows(children);
    assert forall|i: int| 0 <= i < rects.len() implies (#[trigger] rects[i]).has_nonnegative_size() by {
        assert(children[i].spec_scrollable_overflow().has_nonnegative_size());
    }
    lemma_union_all_covers(rects);
}

/// Moving a fragment by an inline offset moves the inline start of its rect
/// (a box's content rect) by that offset and changes nothing else; a hoisted
/// fragment does not move.
pub proof fn lemma_offset_inline_moves_rect(f: Fragment, offset: int)
    requires
        match f {
            Fragment::Box(b) => fits(b.content_rect@.start_corner.inline + offset),
            Fragment::Anonymous(a) => fits(a.rect@.start_corner.inline + offset),
            Fragment::Text(t) => fits(t.rect@.start_corner.inline + offset),
            Fragment::Image(i) => fits(i.rect@.start_corner.inline + offset),
            Fragment::IFrame(i) => fits(i.rect@.start_corner.inline + offset),
            Fragment::AbsoluteOrFixedPositioned(_) => true,
        },
    ensures
        match (f, f.spec_offset_inline(offset)) {
            (Fragment::Box(b), Fragment::Box(m)) => {
                &&& m.content_rect@.start_corner.inline == b.content_rect@.start_corner.inline
                    + offset
                &&& m.content_rect@.start_corner.block == b.content_rect@.start_corner.block
                &&& m.content_rect@.size == b.content_rect@.size
                &&& (BoxFragment { content_rect: b.content_rect, ..m }) == b
            },
            (Fragment::Anonymous(a), Fragment::Anonymous(m)) => {
                &&& m.rect@.start_corner.inline == a.rect@.start_corner.inline + offset
                &&& m.rect@.start_corner.block == a.rect@.start_corner.block
                &&& m.rect@.size == a.rect@.size
                &&& (AnonymousFragment { rect: a.rect, ..m }) == a
            },
            (Fragment::Text(t), Fragment::Text(m)) => {
                &&& m.rect@.start_corner.inline == t.rect@.start_corner.inline + offset
                &&& m.rect@.start_corner.block == t.rect@.start_corner.block
                &&& m.rect@.size == t.rect@.size
                &&& (TextFragment { rect: t.rect, ..m }) == t
            },
            (Fragment::Image(i), Fragment::Image(m)) => {
                &&& m.rect@.start_corner.inline == i.rect@.start_corner.inline + offset
                &&& m.rect@.start_corner.block == i.rect@.start_corner.block
                &&& m.rect@.size == i.rect@.size
                &&& (ImageFragment { rect: i.rect, ..m }) == i
            },
            (Fragment::IFrame(i), Fragment::IFrame(m)) => {
                &&& m.rect@.start_corner.inline == i.rect@.start_corner.inline + offset
                &&& m.rect@.start_corner.block == i.rect@.start_corner.block
                &&& m.rect@.size == i.rect@.size
                &&& (IFrameFragment { rect: i.rect, ..m }) == i
            },
            (Fragment::AbsoluteOrFixedPositioned(_), m) => m == f,
            _ => false,
        },
{
}

/// The scrollable overflow that a fragment offers its parent: an anonymous
/// fragment offers the overflow it recorded, a text run, an image or an
/// iframe its rect in physical coordinates (inline and block swapped in a
/// vertical writing mode), and a hoisted fragment nothing.
pub proof fn lemma_fragment_overflow(f: Fragment)
    ensures
        match f {
            Fragment::Anonymous(a) => f.spec_scrollable_overflow() == a.scrollable_overflow@,
            Fragment::AbsoluteOrFixedPositioned(_) => f.spec_scrollable_overflow()
                == PhysRect::zero(),
            Fragment::Box(b) => f.spec_scrollable_overflow()
                == b.spec_scrollable_overflow_for_parent(),
            _ => {
                let (r, vertical) = match f {
                    Fragment::Text(t) => (t.rect@, t.parent_style.writing_mode.vertical),
                    Fragment::Image(i) => (i.rect@, i.style.writing_mode.vertical),
                    Fragment::IFrame(i) => (i.rect@, i.style.writing_mode.vertical),
                    _ => (FlowRect::zero(), false),
                };
                let o = f.spec_scrollable_overflow();
                &&& !vertical ==> o.origin.x == r.start_corner.inline && o.origin.y
                    == r.start_corner.block && o.size.width == r.size.inline && o.size.height
                    == r.size.block
                &&& vertical ==> o.origin.x == r.start_corner.block && o.origin.y
                    == r.start_corner.inline && o.size.width == r.size.block && o.size.height
                    == r.size.inline
            },
        },
{
}

/// The walk of a list of fragments steps on each of them, at the level and in
/// the containing block that the list is walked with.
pub proof fn lemma_visits_list_contains(
    children: Seq<Fragment>,
    containing_block: PhysRect,
    level: int,
    i: int,
)
    requires
        0 <= i < children.len(),
    ensures
        visits_list(children, containing_block, level).contains(
            Visit { fragment: children[i], level, containing_block },
        ),
    decreases children.len(),
{
    let init = children.drop_last();
    let before = visits_list(init, containing_block, level);
    let all = visits_list(children, containing_block, level);
    if i == children.len() - 1 {
        let here = visits(children.last(), containing_block, level);
        assert(here[0] == Visit { fragment: children[i], level, containing_block });
        assert(all[before.len() as int] == here[0]);
    } else {
        assert(init[i] == children[i]);
        lemma_visits_list_contains(init, containing_block, level, i);
        let k = choose|k: int|
            0 <= k < before.len() && before[k] == Visit {
                fragment: children[i],
                level,
                containing_block,
            };
        assert(all[k] == before[k]);
    }
}

/// Each child of a box or of an anonymous fragment is walked one level deeper
/// than its parent, in the containing block made of the parent's rect (a
/// box's content rect) in physical coordinates, moved by the origin of the
/// parent's own containing block. Other fragments are walked alone.
pub proof fn lemma_children_containing_block(f: Fragment, containing_block: PhysRect, level: int)
    ensures
        ({
            let vs = visits(f, containing_block, level);
            match f {
                Fragment::Box(b) => {
                    let r = b.content_rect@;
                    let v = b.style.writing_mode.vertical;
                    let cb = PhysRect {
                        origin: PhysPoint {
                            x: (if v {
                                r.start_corner.block
                            } else {
                                r.start_corner.inline
                            }) + containing_block.origin.x,
                            y: (if v {
                                r.start_corner.inline
                            } else {
                                r.start_corner.block
                            }) + containing_block.origin.y,
                        },
                        size: PhysSize {
                            width: if v {
                                r.size.block
                            } else {
                                r.size.inline
                            },
                            height: if v {
                                r.size.inline
                            } else {
                                r.size.block
                            },
                        },
                    };
                    forall|i: int|
                        0 <= i < b.children@.len() ==> vs.contains(
                            Visit {
                                fragment: #[trigger] b.children@[i],
                                level: level + 1,
                                containing_block: cb,
                            },
                        )
                },
                Fragment::Anonymous(a) => {
                    let r = a.rect@;
                    let v = a.mode.vertical;
                    let cb = PhysRect {
                        origin: PhysPoint {
                            x: (if v {
                                r.start_corner.block
                            } else {
                                r.start_corner.inline
                            }) + containing_block.origin.x,
                            y: (if v {
                                r.start_corner.inline
                            } else {
                                r.start_corner.block
                            }) + containing_block.origin.y,
                        },
                        size: PhysSize {
                            width: if v {
                                r.size.block
                            } else {
                                r.size.inline
                            },
                            height: if v {
                                r.size.inline
                            } else {
                                r.size.block
                            },
                        },
                    };
                    forall|i: int|
                        0 <= i < a.children@.len() ==> vs.contains(
                            Visit {
                                fragment: #[trigger] a.children@[i],
                                level: level + 1,
                                containing_block: cb,
                            },
                        )
                },
                _ => vs == seq![Visit { fragment: f, level, containing_block }],
            }
        }),
{
    let vs = visits(f, containing_block, level);
    match f {
        Fragment::Box(b) => {
            let cb = b.child_containing_block(containing_block);
            let rest = visits_list(b.children@, cb, level + 1);
            assert forall|i: int| 0 <= i < b.children@.len() implies vs.contains(
                Visit { fragment: #[trigger] b.children@[i], level: level + 1, containing_block: cb },
            ) by {
                lemma_visits_list_contains(b.children@, cb, level + 1, i);
                let k = choose|k: int|
                    0 <= k < rest.len() && rest[k] == Visit {
                        fragment: b.children@[i],
                        level: level + 1,
                        containing_block: cb,
                    };
                assert(vs[k + 1] == rest[k]);
            }
        },
        Fragment::Anonymous(a) => {
            let cb = a.child_containing_block(containing_block);
            let rest = visits_list(a.children@, cb, level + 1);
            assert forall|i: int| 0 <= i < a.children@.len() implies vs.contains(
                Visit { fragment: #[trigger] a.children@[i], level: level + 1, containing_block: cb },
            ) by {
                lemma_visits_list_contains(a.children@, cb, level + 1, i);
                let k = choose|k: int|
                    0 <= k < rest.len() && rest[k] == Visit {
                        fragment: a.children@[i],
                        level: level + 1,
                        containing_block: cb,
                    };
                assert(vs[k + 1] == rest[k]);
            }
        },
        _ => {
            assert(vs =~= seq![Visit { fragment: f, level, containing_block }]);
        },
    }
}

/// On each axis whose overflow is visible, the scrollable overflow of a box
/// for its parent runs from the nearer to the farther edge of its border box
/// and of its own scrollable overflow; on an axis that clips it is the border
/// box's extent.
pub proof fn lemma_overflow_for_parent_extent(b: BoxFragment)
    ensures
        ({
            let border = b.spec_border_rect().to_physical(b.style.writing_mode);
            let own = b.spec_scrollable_overflow();
            let r = b.spec_scrollable_overflow_for_parent();
            let x_visible = b.style.overflow_x == ComputedOverflow::Visible;
            let y_visible = b.style.overflow_y == ComputedOverflow::Visible;
            &&& x_visible ==> r.origin.x == int_min(border.origin.x, own.origin.x) && r.max_x()
                == int_max(border.max_x(), own.max_x())
            &&& y_visible ==> r.origin.y == int_min(border.origin.y, own.origin.y) && r.max_y()
                == int_max(border.max_y(), own.max_y())
            &&& !x_visible ==> r.origin.x == border.origin.x && r.size.width == border.size.width
            &&& !y_visible ==> r.origin.y == border.origin.y && r.size.height
                == border.size.height
        }),
{
}

/// A box's margins play no part in its scrollable overflow.
pub proof fn lemma_overflow_ignores_margin(b: BoxFragment, margin: Sides)
    ensures
        (BoxFragment { margin, ..b }).spec_scrollable_overflow_for_parent()
            == b.spec_scrollable_overflow_for_parent(),
        (BoxFragment { margin, ..b }).spec_scrollable_overflow() == b.spec_scrollable_overflow(),
{
}

/// The scrollable overflow of a box is its padding box in physical
/// coordinates united with the overflow of its children, moved to where the
/// start corner of its content box lies physically in the box's own writing
/// mode (inline and block swapped in a vertical one).
pub proof fn lemma_box_overflow_placement(b: BoxFragment)
    ensures
        ({
            let start = b.content_rect@.start_corner;
            let v = b.style.writing_mode.vertical;
            let at = PhysPoint {
                x: if v {
                    start.block
                } else {
                    start.inline
                },
                y: if v {
                    start.inline
                } else {
                    start.block
                },
            };
            let children = b.scrollable_overflow_from_children@;
            let moved = PhysRect {
                origin: PhysPoint { x: children.origin.x + at.x, y: children.origin.y + at.y },
                size: children.size,
            };
            &&& b.placed_children_overflow() == moved
            &&& b.spec_scrollable_overflow() == b.spec_padding_rect().to_physical(
                b.style.writing_mode,
            ).union(moved)
            &&& at == b.content_rect@.to_physical(b.style.writing_mode).origin
        }),
{
}

/// An anonymous fragment made with no children has zero scrollable
/// overflow, as the one that `AnonymousFragment::no_op` makes.
pub proof fn lemma_new_without_children(rect: Rect, mode: WritingMode)
    ensures
        union_all(
            overflows_moved(Seq::<Fragment>::empty(), AnonymousFragment::content_origin(rect, mode)),
        ) == PhysRect::zero(),
{
    assert(overflows_moved(Seq::<Fragment>::empty(), AnonymousFragment::content_origin(rect, mode))
        =~= Seq::<PhysRect>::empty());
}

// ---------------------------------------------------------------------------
// Executable code.
impl Fragment {
    /// Moves this fragment by `offset` in the inline direction. Hoisted
    /// fragments stay where their containing block placed them.
    pub fn offset_inline(&mut self, offset: &Length)
        requires
            old(self).offset_inline_fits(offset@),
        ensures
            *final(self) == old(self).spec_offset_inline(offset@),
    {
        match self {
            Fragment::Box(f) => f.content_rect.offset_inline(*offset),
            Fragment::AbsoluteOrFixedPositioned(_) => {},
            Fragment::Anonymous(f) => f.rect.offset_inline(*offset),
            Fragment::Text(f) => f.rect.offset_inline(*offset),
            Fragment::Image(f) => f.rect.offset_inline(*offset),
            Fragment::IFrame(f) => f.rect.offset_inline(*offset),
        }
    }

    /// The base of this fragment, if it has one here.
    pub fn base(&self) -> (r: Option<&BaseFragment>)
        ensures
            match self.spec_base() {
                Some(b) => r is Some && *r.unwrap() == b,
                None => r is None,
            },
    {
        match self {
            Fragment::Box(fragment) => Some(&fragment.base),
            Fragment::Text(fragment) => Some(&fragment.base),
            Fragment::AbsoluteOrFixedPositioned(_) => None,
            Fragment::Anonymous(fragment) => Some(&fragment.base),
            Fragment::Image(fragment) => Some(&fragment.base),
            Fragment::IFrame(fragment) => Some(&fragment.base),
        }
    }

    /// The tag of the node that generated this fragment, if any.
    pub fn tag(&self) -> (r: Option<Tag>)
        ensures
            r == self.spec_tag(),
    {
        match self.base() {
            Some(base) => base.tag,
            None => None,
        }
    }

    /// The scrollable overflow of this fragment, for its parent.
    pub fn scrollable_overflow(&self, containing_block: &PhysicalRect) -> (r: PhysicalRect)
        requires
            self.scrollable_overflow_fits(),
        ensures
            r@ == self.spec_scrollable_overflow(),
    {
        match self {
            Fragment::Box(fragment) => fragment.scrollable_overflow_for_parent(containing_block),
            Fragment::AbsoluteOrFixedPositioned(_) => PhysicalRect::zero(),
            Fragment::Anonymous(fragment) => fragment.scrollable_overflow,
            Fragment::Text(fragment) => fragment.rect.to_physical(
                fragment.parent_style.writing_mode,
                containing_block,
            ),
            Fragment::Image(fragment) => fragment.rect.to_physical(
                fragment.style.writing_mode,
                containing_block,
            ),
            Fragment::IFrame(fragment) => fragment.rect.to_physical(
                fragment.style.writing_mode,
                containing_block,
            ),
        }
    }
}

/// The union of the scrollable overflows of `children`, each moved by `by`.
fn union_of_overflows(children: &Vec<Fragment>, by: &PhysicalPoint) -> (r: PhysicalRect)
    requires
        all_overflows_fit(children@),
        forall|i: int|
            0 <= i < children.len() ==> (#[trigger] overflows_moved(children@, by@)[i]).fits(),
        union_all_fits(overflows_moved(children@, by@)),
    ensures
        r@ == union_all(overflows_moved(children@, by@)),
{
    let ghost rects = overflows_moved(children@, by@);
    // The containing block of the children is not known while their parent
    // is being built; the zero rectangle stands for it.
    let containing_block = PhysicalRect::zero();
    let by_vector = by.to_vector();
    let mut acc = PhysicalRect::zero();
    let mut i: usize = 0;
    assert(rects.take(0) =~= Seq::<PhysRect>::empty());
    while i < children.len()
        invariant
            i <= children.len(),
            rects == overflows_moved(children@, by@),
            by_vector@ == by@,
            all_overflows_fit(children@),
            forall|k: int| 0 <= k < children.len() ==> (#[trigger] rects[k]).fits(),
            union_all_fits(rects),
            acc@ == union_all(rects.take(i as int)),
        decreases children.len() - i,
    {
        let child = &children[i];
        assert(child.scrollable_overflow_fits());
        let overflow = child.scrollable_overflow(&containing_block);
        assert(rects[i as int] == overflow@.translate(by@));
        let moved = overflow.translate(by_vector);
        assert(rects.take(i + 1).drop_last() =~= rects.take(i as int));
        assert(union_all(rects.take(i + 1)).fits());
        acc = acc.union(&moved);
        i = i + 1;
    }
    assert(rects.take(children.len() as int) =~= rects);
    acc
}

impl AnonymousFragment {
    /// An empty anonymous fragment.
    pub fn no_op(mode: WritingMode) -> (r: Self)
        ensures
            r.base == BaseFragment::spec_anonymous(),
            r.children@.len() == 0,
            r.rect@ == FlowRect::zero(),
            r.mode == mode,
            r.scrollable_overflow@ == PhysRect::zero(),
    {
        Self {
            base: BaseFragment::anonymous(),
            children: Vec::new(),
            rect: Rect::zero(),
            mode,
            scrollable_overflow: PhysicalRect::zero(),
        }
    }

    /// The position of the content of an anonymous fragment, as a vector.
    pub open spec fn content_origin(rect: Rect, mode: WritingMode) -> PhysPoint {
        rect@.start_corner.to_physical(mode).to_vector()
    }

    /// `new` can compute the overflow of `children` placed in `rect`.
    pub open spec fn new_fits(rect: Rect, children: Seq<Fragment>, mode: WritingMode) -> bool {
        let moved = overflows_moved(children, Self::content_origin(rect, mode));
        &&& all_overflows_fit(children)
        &&& forall|i: int| 0 <= i < children.len() ==> (#[trigger] moved[i]).fits()
        &&& union_all_fits(moved)
    }

    /// An anonymous fragment holding `children`; its scrollable overflow is
    /// the union of theirs, placed where `rect` starts.
    pub fn new(rect: Rect, children: Vec<Fragment>, mode: WritingMode) -> (r: Self)
        requires
            Self::new_fits(rect, children@, mode),
        ensures
            r.base == BaseFragment::spec_anonymous(),
            r.rect == rect,
            r.children@ == children@,
            r.mode == mode,
            r.scrollable_overflow@ == union_all(
                overflows_moved(children@, Self::content_origin(rect, mode)),
            ),
    {
        let content_origin = rect.start_corner.to_physical(mode).to_vector();
        let origin = PhysicalPoint::new(content_origin.x, content_origin.y);
        let scrollable_overflow = union_of_overflows(&children, &origin);
        AnonymousFragment {
            base: BaseFragment::anonymous(),
            rect,
            children,
            mode,
            scrollable_overflow,
        }
    }
}

impl BoxFragment {
    /// `new` can compute the overflow of `children`.
    pub open spec fn new_fits(children: Seq<Fragment>) -> bool {
        &&& all_overflows_fit(children)
        &&& union_all_fits(overflows(children))
    }

    /// A box fragment; the overflow of its children is the union of the
    /// scrollable overflows of `children`.
    pub fn new(
        base_fragment_info: BaseFragmentInfo,
        style: Arc<ComputedValues>,
        children: Vec<Fragment>,
        content_rect: Rect,
        padding: Sides,
        border: Sides,
        margin: Sides,
        block_margins_collapsed_with_children: CollapsedBlockMargins,
    ) -> (r: BoxFragment)
        requires
            Self::new_fits(children@),
        ensures
            r.base == BaseFragment::spec_from_info(base_fragment_info),
            r.style == style,
            r.children@ == children@,
            r.content_rect == content_rect,
            r.padding == padding,
            r.border == border,
            r.margin == margin,
            r.block_margins_collapsed_with_children == block_margins_collapsed_with_children,
            r.scrollable_overflow_from_children@ == union_all(overflows(children@)),
    {
        let origin = PhysicalPoint::new(Length::zero(), Length::zero());
        proof {
            let rects = overflows_moved(children@, PhysPoint { x: 0, y: 0 });
            assert(rects =~= overflows(children@));
            assert forall|i: int| 0 <= i < children.len() implies (#[trigger] rects[i]).fits() by {
                lemma_overflow_fits(children@[i]);
            }
        }
        let scrollable_overflow_from_children = union_of_overflows(&children, &origin);
        BoxFragment {
            base: base_fragment_info.into(),
            style,
            children,
            content_rect,
            padding,
            border,
            margin,
            block_margins_collapsed_with_children,
            scrollable_overflow_from_children,
        }
    }

    /// The scrollable overflow of this box: its padding box and the overflow
    /// of its children.
    pub fn scrollable_overflow(&self, containing_block: &PhysicalRect) -> (r: PhysicalRect)
        requires
            self.scrollable_overflow_fits(),
        ensures
            r@ == self.spec_scrollable_overflow(),
    {
        let physical_padding_rect = self.padding_rect().to_physical(
            self.style.writing_mode,
            containing_block,
        );
        let content_origin = self.content_rect.start_corner.to_physical(self.style.writing_mode);
        physical_padding_rect.union(
            &self.scrollable_overflow_from_children.translate(content_origin.to_vector()),
        )
    }

    /// The padding box, where its lengths fit in an `i32`.
    pub fn checked_padding_rect(&self) -> (r: Option<Rect>)
        ensures
            r is Some <==> self.padding_rect_fits(),
            r matches Some(x) ==> x@ == self.spec_padding_rect(),
    {
        self.content_rect.checked_inflate(&self.padding)
    }

    /// The border box, where its lengths fit in an `i32`.
    pub fn checked_border_rect(&self) -> (r: Option<Rect>)
        ensures
            r is Some <==> self.border_rect_fits(),
            r matches Some(x) ==> x@ == self.spec_border_rect(),
    {
        match self.checked_padding_rect() {
            Some(padding_rect) => padding_rect.checked_inflate(&self.border),
            None => None,
        }
    }

    /// The scrollable overflow of this box, where it can be computed in
    /// `i32` app units.
    pub fn checked_scrollable_overflow(&self, containing_block: &PhysicalRect) -> (r: Option<
        PhysicalRect,
    >)
        ensures
            r is Some <==> self.scrollable_overflow_fits(),
            r matches Some(x) ==> x@ == self.spec_scrollable_overflow(),
    {
        let padding_rect = match self.checked_padding_rect() {
            Some(p) => p,
            None => return None,
        };
        let physical_padding_rect = padding_rect.to_physical(
            self.style.writing_mode,
            containing_block,
        );
        let content_origin = self.content_rect.start_corner.to_physical(self.style.writing_mode);
        match self.scrollable_overflow_from_children.checked_translate(content_origin.to_vector()) {
            Some(children) => physical_padding_rect.checked_union(&children),
            None => None,
        }
    }

    pub fn padding_rect(&self) -> (r: Rect)
        requires
            self.padding_rect_fits(),
        ensures
            r@ == self.spec_padding_rect(),
    {
        self.content_rect.inflate(&self.padding)
    }

    pub fn border_rect(&self) -> (r: Rect)
        requires
            self.border_rect_fits(),
        ensures
            r@ == self.spec_border_rect(),
    {
        self.padding_rect().inflate(&self.border)
    }

    /// The scrollable overflow of this box, for its parent: the border box,
    /// extended on each axis whose overflow is visible to the box's own
    /// scrollable overflow.
    pub fn scrollable_overflow_for_parent(&self, containing_block: &PhysicalRect) -> (r:
        PhysicalRect)
        requires
            self.scrollable_overflow_for_parent_fits(),
        ensures
            r@ == self.spec_scrollable_overflow_for_parent(),
    {
        let mut overflow = self.border_rect().to_physical(self.style.writing_mode, containing_block);

        if self.style.overflow_y != ComputedOverflow::Visible && self.style.overflow_x
            != ComputedOverflow::Visible {
            return overflow;
        }
        // https://www.w3.org/TR/css-overflow-3/#scrollable
        // Only include the scrollable overflow of a child box if it has overflow: visible.

        let scrollable_overflow = self.scrollable_overflow(containing_block);
        let bottom_right = PhysicalPoint::new(
            overflow.max_x().max(scrollable_overflow.max_x()),
            overflow.max_y().max(scrollable_overflow.max_y()),
        );

        if self.style.overflow_y == ComputedOverflow::Visible {
            overflow.origin.y = overflow.origin.y.min(scrollable_overflow.origin.y);
            overflow.size.height = bottom_right.y.minus(overflow.origin.y);
        }
        if self.style.overflow_x == ComputedOverflow::Visible {
            overflow.origin.x = overflow.origin.x.min(scrollable_overflow.origin.x);
            overflow.size.width = bottom_right.x.minus(overflow.origin.x);
        }
        overflow
    }
}

impl TextFragment {
    pub open spec fn glyph_counts(&self) -> Seq<int> {
        Seq::new(self.glyphs@.len(), |i: int| self.glyphs@[i].len as int)
    }

    /// The number of glyphs in all the glyph runs of this text; `None` where
    /// a partial sum leaves the range of `isize`.
    pub fn num_glyphs(&self) -> (r: Option<isize>)
        ensures
            r is Some <==> forall|i: int|
                0 <= i <= self.glyphs@.len() ==> isize::MIN <= #[trigger] sum_of(
                    self.glyph_counts().take(i),
                ) <= isize::MAX,
            r matches Some(n) ==> n == sum_of(self.glyph_counts()),
    {
        let ghost counts = self.glyph_counts();
        let mut total: isize = 0;
        let mut i: usize = 0;
        assert(counts.take(0) =~= Seq::<int>::empty());
        while i < self.glyphs.len()
            invariant
                i <= self.glyphs@.len(),
                counts == self.glyph_counts(),
                forall|k: int|
                    0 <= k <= i ==> isize::MIN <= #[trigger] sum_of(counts.take(k))
                        <= isize::MAX,
                total == sum_of(counts.take(i as int)),
            decreases self.glyphs.len() - i,
        {
            assert(counts.take(i + 1).drop_last() =~= counts.take(i as int));
            assert(sum_of(counts.take(i + 1)) == total + self.glyphs[i as int].len);
            match total.checked_add(self.glyphs[i].len) {
                Some(t) => total = t,
                None => return None,
            }
            i = i + 1;
        }
        assert(counts.take(self.glyphs.len() as int) =~= counts);
        Some(total)
    }
}

impl Fragment {
    /// Walks the tree under this fragment in pre-order, handing `process_func`
    /// each fragment with its depth (this fragment at `level`) and its
    /// containing block, and returns the first `Some` that it gives back.
    pub fn find<T, F: Fn(&Fragment, usize, &PhysicalRect) -> Option<T>>(
        &self,
        containing_block: &PhysicalRect,
        level: usize,
        process_func: &F,
    ) -> (r: Option<T>)
        requires
            forall|a: &Fragment, l: usize, c: &PhysicalRect|
                call_requires(*process_func, (a, l, c)),
            walk_fits(visits(*self, containing_block@, level as int)),
        ensures
            found_in(*process_func, visits(*self, containing_block@, level as int), r),
        decreases self, 0int,
    {
        let ghost vs = visits(*self, containing_block@, level as int);
        proof {
            assert(vs[0].args() == (self, level, containing_block));
        }
        if let Some(result) = process_func(self, level, containing_block) {
            proof {
                assert(vs.take(0) =~= Seq::<Visit>::empty());
                assert(call_ensures(*process_func, vs[0].args(), Some(result)));
            }
            return Some(result);
        }
        proof {
            assert(call_ensures(*process_func, vs[0].args(), None));
        }
        match self {
            Fragment::Box(fragment) => {
                let ghost children_cb = fragment.child_containing_block(containing_block@);
                let ghost rest = visits_list(fragment.children@, children_cb, level + 1);
                proof {
                    assert(vs == seq![vs[0]] + rest);
                    assert forall|k: int| 0 <= k < rest.len() implies 0 <= (#[trigger] rest[k]).level
                        <= usize::MAX && rest[k].containing_block.fits() by {
                        assert(rest[k] == vs[k + 1]);
                    }
                }
                if fragment.children.len() == 0 {
                    proof {
                        assert(fragment.children@ =~= Seq::<Fragment>::empty());
                        assert(vs =~= seq![vs[0]]);
                    }
                    return None;
                }
                proof {
                    lemma_visits_list_prefix(fragment.children@, children_cb, level + 1, 1);
                    lemma_visits_list_step(fragment.children@, children_cb, level + 1, 0);
                    assert(fragment.children@.take(0) =~= Seq::<Fragment>::empty());
                    let first = visits_list(fragment.children@.take(1), children_cb, level + 1);
                    assert(visits_list(fragment.children@.take(0), children_cb, level + 1)
                        =~= Seq::<Visit>::empty());
                    assert(first =~= visits(fragment.children@[0], children_cb, level + 1));
                    assert(first[0] == rest[0]);
                    assert(rest[0].containing_block == children_cb);
                    assert(rest[0].level == level + 1);
                }
                let new_containing_block = fragment.content_rect.to_physical(
                    fragment.style.writing_mode,
                    containing_block,
                ).translate(containing_block.origin.to_vector());
                let r = find_in_children(
                    &fragment.children,
                    &new_containing_block,
                    level + 1,
                    process_func,
                );
                proof {
                    lemma_found_after_root(*process_func, vs[0], rest, r);
                }
                r
            },
            Fragment::Anonymous(fragment) => {
                let ghost children_cb = fragment.child_containing_block(containing_block@);
                let ghost rest = visits_list(fragment.children@, children_cb, level + 1);
                proof {
                    assert(vs == seq![vs[0]] + rest);
                    assert forall|k: int| 0 <= k < rest.len() implies 0 <= (#[trigger] rest[k]).level
                        <= usize::MAX && rest[k].containing_block.fits() by {
                        assert(rest[k] == vs[k + 1]);
                    }
                }
                if fragment.children.len() == 0 {
                    proof {
                        assert(fragment.children@ =~= Seq::<Fragment>::empty());
                        assert(vs =~= seq![vs[0]]);
                    }
                    return None;
                }
                proof {
                    lemma_visits_list_prefix(fragment.children@, children_cb, level + 1, 1);
                    lemma_visits_list_step(fragment.children@, children_cb, level + 1, 0);
                    assert(fragment.children@.take(0) =~= Seq::<Fragment>::empty());
                    let first = visits_list(fragment.children@.take(1), children_cb, level + 1);
                    assert(visits_list(fragment.children@.take(0), children_cb, level + 1)
                        =~= Seq::<Visit>::empty());
                    assert(first =~= visits(fragment.children@[0], children_cb, level + 1));
                    assert(first[0] == rest[0]);
                    assert(rest[0].containing_block == children_cb);
                    assert(rest[0].level == level + 1);
                }
                let new_containing_block = fragment.rect.to_physical(
                    fragment.mode,
                    containing_block,
                ).translate(containing_block.origin.to_vector());
                let r = find_in_children(
                    &fragment.children,
                    &new_containing_block,
                    level + 1,
                    process_func,
                );
                proof {
                    lemma_found_after_root(*process_func, vs[0], rest, r);
                }
                r
            },
            _ => {
                proof {
                    assert(vs =~= seq![vs[0]]);
                }
                None
            },
        }
    }
}

/// A search that gave `None` on `first` and found `r` in `rest` found `r` in
/// the whole walk.
proof fn lemma_found_after_root<T, F: Fn(&Fragment, usize, &PhysicalRect) -> Option<T>>(
    f: F,
    first: Visit,
    rest: Seq<Visit>,
    r: Option<T>,
)
    requires
        call_ensures(f, first.args(), None),
        found_in(f, rest, r),
    ensures
        found_in(f, seq![first] + rest, r),
{
    let vs = seq![first] + rest;
    match r {
        Some(t) => {
            let k = choose|k: int|
                0 <= k < rest.len() && call_ensures(f, (#[trigger] rest[k]).args(), Some(t))
                    && all_none(f, rest.take(k));
            assert(vs[k + 1] == rest[k]);
            assert forall|j: int| 0 <= j < vs.take(k + 1).len() implies call_ensures(
                f,
                (#[trigger] vs.take(k + 1)[j]).args(),
                None,
            ) by {
                if j > 0 {
                    assert(vs.take(k + 1)[j] == rest.take(k)[j - 1]);
                }
            }
        },
        None => {
            assert forall|j: int| 0 <= j < vs.len() implies call_ensures(
                f,
                (#[trigger] vs[j]).args(),
                None,
            ) by {
                if j > 0 {
                    assert(vs[j] == rest[j - 1]);
                }
            }
        },
    }
}

/// `Fragment::find` over each of `children` in turn, all at depth `level` in
/// `containing_block`, until one finds something.
fn find_in_children<T, F: Fn(&Fragment, usize, &PhysicalRect) -> Option<T>>(
    children: &Vec<Fragment>,
    containing_block: &PhysicalRect,
    level: usize,
    process_func: &F,
) -> (r: Option<T>)
    requires
        forall|a: &Fragment, l: usize, c: &PhysicalRect| call_requires(*process_func, (a, l, c)),
        walk_fits(visits_list(children@, containing_block@, level as int)),
    ensures
        found_in(*process_func, visits_list(children@, containing_block@, level as int), r),
    decreases children@, 1int,
{
    let ghost cb = containing_block@;
    let ghost all = visits_list(children@, cb, level as int);
    let mut i: usize = 0;
    proof {
        assert(children@.take(0) =~= Seq::<Fragment>::empty());
    }
    while i < children.len()
        invariant
            i <= children.len(),
            cb == containing_block@,
            all == visits_list(children@, cb, level as int),
            forall|a: &Fragment, l: usize, c: &PhysicalRect|
                call_requires(*process_func, (a, l, c)),
            walk_fits(all),
            all_none(*process_func, visits_list(children@.take(i as int), cb, level as int)),
        decreases children.len() - i,
    {
        let ghost before = visits_list(children@.take(i as int), cb, level as int);
        let ghost here = visits(children@[i as int], cb, level as int);
        let ghost after = visits_list(children@.take(i + 1), cb, level as int);
        proof {
            lemma_visits_list_step(children@, cb, level as int, i as int);
            lemma_visits_list_prefix(children@, cb, level as int, i + 1);
            assert(after == before + here);
            assert forall|k: int| 0 <= k < here.len() implies all[before.len() + k] == here[k] by {
                assert(after[before.len() + k] == here[k]);
                assert(all.take(after.len() as int)[before.len() + k] == after[before.len() + k]);
            }
            assert forall|k: int| 0 <= k < here.len() implies 0 <= (#[trigger] here[k]).level
                <= usize::MAX && here[k].containing_block.fits() by {
                assert(here[k] == all[before.len() + k]);
            }
        }
        let found = Fragment::find(&children[i], containing_block, level, process_func);
        match found {
            Some(result) => {
                proof {
                    let k = choose|k: int|
                        0 <= k < here.len() && call_ensures(
                            *process_func,
                            (#[trigger] here[k]).args(),
                            Some(result),
                        ) && all_none(*process_func, here.take(k));
                    let w = before.len() + k;
                    assert(all[w] == here[k]);
                    assert forall|j: int| 0 <= j < all.take(w).len() implies call_ensures(
                        *process_func,
                        (#[trigger] all.take(w)[j]).args(),
                        None,
                    ) by {
                        if j < before.len() {
                            assert(all.take(w)[j] == before[j]);
                        } else {
                            assert(all.take(w)[j] == here.take(k)[j - before.len()]);
                        }
                    }
                }
                return Some(result);
            },
            None => {
                proof {
                    assert forall|j: int| 0 <= j < after.len() implies call_ensures(
                        *process_func,
                        (#[trigger] after[j]).args(),
                        None,
                    ) by {
                        if j < before.len() {
                            assert(after[j] == before[j]);
                        } else {
                            assert(after[j] == here[j - before.len()]);
                        }
                    }
                }
            },
        }
        i = i + 1;
    }
    proof {
        assert(children@.take(children.len() as int) =~= children@);
    }
    None
}

} // verus!
