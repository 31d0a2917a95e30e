use std::cell::RefCell;
use std::sync::Arc;

use layout_2020::fragment_tree::{
    BaseFragment, BaseFragmentInfo, FragmentFlags, PseudoElement, Tag,
};
use layout_2020::fragments::{
    AnonymousFragment, BoxFragment, FontMetrics, Fragment, HoistedSharedFragment,
    IFrameFragment, ImageFragment, TextFragment,
};
use layout_2020::geom::{
    Length, PhysicalPoint, PhysicalRect, PhysicalSize, Rect, Sides, Vec2, WritingMode,
};
use layout_2020::margins::CollapsedBlockMargins;
use layout_2020::resources::{BrowsingContextId, GfxFontMetrics, GlyphStore, PipelineId};
use webrender_api::{FontInstanceKey, IdNamespace, ImageKey};
use layout_2020::style::{ComputedOverflow, ComputedValues, TextDecorationLine};

fn px(au: i32) -> Length {
    Length::from_au(au)
}

fn frect(inline: i32, block: i32, isize: i32, bsize: i32) -> Rect {
    Rect {
        start_corner: Vec2 {
            inline: px(inline),
            block: px(block),
        },
        size: Vec2 {
            inline: px(isize),
            block: px(bsize),
        },
    }
}

fn sides(all: i32) -> Sides {
    Sides {
        inline_start: px(all),
        inline_end: px(all),
        block_start: px(all),
        block_end: px(all),
    }
}

fn parts(r: &PhysicalRect) -> (i32, i32, i32, i32) {
    (r.origin.x.au, r.origin.y.au, r.size.width.au, r.size.height.au)
}

fn style(x: ComputedOverflow, y: ComputedOverflow) -> ComputedValues {
    ComputedValues {
        writing_mode: WritingMode::horizontal_tb(),
        overflow_x: x,
        overflow_y: y,
    }
}

fn visible() -> ComputedValues {
    style(ComputedOverflow::Visible, ComputedOverflow::Visible)
}

fn tag(node: u64) -> Tag {
    Tag { node, pseudo: None }
}

fn info(node: u64) -> BaseFragmentInfo {
    BaseFragmentInfo {
        tag: tag(node),
        flags: FragmentFlags::empty(),
    }
}

fn image(node: u64, rect: Rect) -> Fragment {
    Fragment::Image(ImageFragment {
        base: BaseFragment::from(info(node)),
        style: Arc::new(visible()),
        rect,
        image_key: ImageKey(IdNamespace(1), node as u32),
    })
}

fn text(glyph_lens: &[isize]) -> TextFragment {
    TextFragment {
        base: BaseFragment::from(info(7)),
        parent_style: Arc::new(visible()),
        rect: frect(1, 2, 3, 4),
        font_metrics: FontMetrics {
            ascent: px(0),
            line_gap: px(0),
            underline_offset: px(0),
            underline_size: px(0),
            strikeout_offset: px(0),
            strikeout_size: px(0),
        },
        font_key: FontInstanceKey::new(IdNamespace(0), 0),
        glyphs: glyph_lens.iter().map(|&len| Arc::new(GlyphStore { len })).collect(),
        text_decoration_line: TextDecorationLine { bits: 0 },
    }
}

fn boxed(
    node: u64,
    style: ComputedValues,
    children: Vec<Fragment>,
    content: Rect,
    padding: i32,
    border: i32,
) -> BoxFragment {
    BoxFragment::new(
        info(node),
        Arc::new(style),
        children,
        content,
        sides(padding),
        sides(border),
        sides(0),
        CollapsedBlockMargins::zero(),
    )
}

#[test]
fn padding_and_border_rects() {
    let b = boxed(1, visible(), vec![], frect(100, 100, 50, 20), 5, 2);
    assert_eq!(b.padding_rect(), frect(95, 95, 60, 30));
    assert_eq!(b.border_rect(), frect(93, 93, 64, 34));
    assert_eq!(b.checked_padding_rect(), Some(frect(95, 95, 60, 30)));
    assert_eq!(b.checked_border_rect(), Some(frect(93, 93, 64, 34)));
}

#[test]
fn box_overflow_is_union_of_children() {
    let children = vec![
        image(2, frect(0, 0, 10, 10)),
        image(3, frect(30, 5, 10, 20)),
    ];
    let b = boxed(1, visible(), children, frect(0, 0, 100, 100), 0, 0);
    assert_eq!(parts(&b.scrollable_overflow_from_children), (0, 0, 40, 25));
    assert_eq!(b.children.len(), 2);
    assert_eq!(b.base.tag, Some(tag(1)));
}

#[test]
fn box_without_children_has_zero_child_overflow() {
    let b = boxed(1, visible(), vec![], frect(3, 3, 10, 10), 1, 1);
    assert_eq!(parts(&b.scrollable_overflow_from_children), (0, 0, 0, 0));
}

#[test]
fn box_scrollable_overflow_spans_padding_and_children() {
    let children = vec![image(2, frect(0, 0, 500, 10))];
    let b = boxed(1, visible(), children, frect(10, 20, 100, 100), 5, 0);
    // Padding box (5, 15, 110, 110); children moved to the content origin
    // (10, 20): (10, 20, 500, 10).
    assert_eq!(parts(&b.scrollable_overflow(&PhysicalRect::zero())), (5, 15, 505, 110));
    assert_eq!(
        b.checked_scrollable_overflow(&PhysicalRect::zero()).map(|r| parts(&r)),
        Some((5, 15, 505, 110))
    );
}

#[test]
fn overflow_for_parent_clipped_is_the_border_box() {
    let children = vec![image(2, frect(0, 0, 500, 500))];
    let b = boxed(
        1,
        style(ComputedOverflow::Hidden, ComputedOverflow::Scroll),
        children,
        frect(10, 20, 100, 100),
        5,
        1,
    );
    let r = b.scrollable_overflow_for_parent(&PhysicalRect::zero());
    assert_eq!(parts(&r), (4, 14, 112, 112));
}

#[test]
fn overflow_for_parent_visible_spans_the_overflow() {
    let children = vec![image(2, frect(-50, 0, 500, 300))];
    let b = boxed(1, visible(), children, frect(10, 20, 100, 100), 0, 0);
    // Border box (10, 20, 100, 100); own overflow (-40, 20, 500, 300).
    let r = b.scrollable_overflow_for_parent(&PhysicalRect::zero());
    assert_eq!(parts(&r), (-40, 20, 500, 300));
}

#[test]
fn overflow_for_parent_visible_on_one_axis_only() {
    let children = vec![image(2, frect(-50, -60, 500, 300))];
    let b = boxed(
        1,
        style(ComputedOverflow::Visible, ComputedOverflow::Hidden),
        children,
        frect(10, 20, 100, 100),
        0,
        0,
    );
    // Only the x axis takes the overflow (-40, -40, 500, 300) into account.
    let r = b.scrollable_overflow_for_parent(&PhysicalRect::zero());
    assert_eq!(parts(&r), (-40, 20, 500, 100));
    let f = Fragment::Box(b);
    assert_eq!(parts(&f.scrollable_overflow(&PhysicalRect::zero())), (-40, 20, 500, 100));
}

#[test]
fn anonymous_overflow_is_moved_by_its_start_corner() {
    let children = vec![
        image(2, frect(0, 0, 10, 10)),
        image(3, frect(5, 40, 10, 10)),
    ];
    let a = AnonymousFragment::new(frect(100, 200, 50, 50), children, WritingMode::horizontal_tb());
    assert_eq!(parts(&a.scrollable_overflow), (100, 200, 15, 50));
    assert_eq!(a.base.tag, None);
    assert_eq!(a.rect, frect(100, 200, 50, 50));
}

#[test]
fn anonymous_overflow_in_vertical_mode_swaps_axes() {
    let children = vec![image(2, frect(0, 0, 10, 10))];
    let a = AnonymousFragment::new(frect(100, 200, 50, 50), children, WritingMode { vertical: true });
    assert_eq!(parts(&a.scrollable_overflow), (200, 100, 10, 10));
}

#[test]
fn no_op_is_empty() {
    let a = AnonymousFragment::no_op(WritingMode::horizontal_tb());
    let b = AnonymousFragment::new(Rect::zero(), vec![], WritingMode::horizontal_tb());
    assert_eq!(a.rect, b.rect);
    assert_eq!(a.scrollable_overflow, b.scrollable_overflow);
    assert_eq!(a.base, b.base);
    assert_eq!(a.mode, b.mode);
    assert!(a.children.is_empty());
    assert_eq!(parts(&a.scrollable_overflow), (0, 0, 0, 0));
}

#[test]
fn hoisted_fragment_has_no_base_and_no_overflow() {
    let mut f = Fragment::AbsoluteOrFixedPositioned(HoistedSharedFragment { fragment: None });
    assert!(f.base().is_none());
    assert_eq!(f.tag(), None);
    assert_eq!(parts(&f.scrollable_overflow(&PhysicalRect::zero())), (0, 0, 0, 0));
    f.offset_inline(&px(10));
    assert!(matches!(f, Fragment::AbsoluteOrFixedPositioned(_)));
}

#[test]
fn base_and_tag() {
    let f = image(9, frect(0, 0, 1, 1));
    assert_eq!(f.base().map(|b| b.tag), Some(Some(tag(9))));
    assert_eq!(f.tag(), Some(tag(9)));
    let pseudo = Tag {
        node: 4,
        pseudo: Some(PseudoElement::Before),
    };
    let b = BaseFragment::from(BaseFragmentInfo {
        tag: pseudo,
        flags: FragmentFlags { bits: 3 },
    });
    assert_eq!(b.tag, Some(pseudo));
    assert_eq!(b.flags.bits, 3);
    let anonymous = Fragment::Anonymous(AnonymousFragment::no_op(WritingMode::horizontal_tb()));
    assert_eq!(anonymous.tag(), None);
    assert!(anonymous.base().is_some());
}

#[test]
fn offset_inline_moves_and_moves_back() {
    let mut f = image(1, frect(10, 20, 30, 40));
    f.offset_inline(&px(15));
    match &f {
        Fragment::Image(i) => assert_eq!(i.rect, frect(25, 20, 30, 40)),
        _ => unreachable!(),
    }
    f.offset_inline(&px(-15));
    match &f {
        Fragment::Image(i) => assert_eq!(i.rect, frect(10, 20, 30, 40)),
        _ => unreachable!(),
    }
    let mut b = Fragment::Box(boxed(2, visible(), vec![], frect(1, 2, 3, 4), 0, 0));
    b.offset_inline(&px(5));
    match &b {
        Fragment::Box(b) => assert_eq!(b.content_rect, frect(6, 2, 3, 4)),
        _ => unreachable!(),
    }
}

#[test]
fn find_walks_in_pre_order_with_levels_and_containing_blocks() {
    let inner = boxed(
        3,
        visible(),
        vec![image(4, frect(0, 0, 1, 1))],
        frect(5, 6, 10, 10),
        0,
        0,
    );
    let root = Fragment::Box(boxed(
        1,
        visible(),
        vec![image(2, frect(0, 0, 1, 1)), Fragment::Box(inner)],
        frect(100, 200, 50, 50),
        0,
        0,
    ));
    let seen: RefCell<Vec<(Option<u64>, usize, (i32, i32, i32, i32))>> = RefCell::new(vec![]);
    let record = |f: &Fragment, level: usize, cb: &PhysicalRect| -> Option<()> {
        seen.borrow_mut().push((f.tag().map(|t| t.node), level, parts(cb)));
        None
    };
    let cb = PhysicalRect {
        origin: PhysicalPoint { x: px(1), y: px(2) },
        size: PhysicalSize {
            width: px(1000),
            height: px(1000),
        },
    };
    assert_eq!(root.find(&cb, 0, &record), None);
    assert_eq!(
        seen.into_inner(),
        vec![
            (Some(1), 0, (1, 2, 1000, 1000)),
            (Some(2), 1, (101, 202, 50, 50)),
            (Some(3), 1, (101, 202, 50, 50)),
            (Some(4), 2, (106, 208, 10, 10)),
        ]
    );
}

#[test]
fn find_returns_the_first_match() {
    let root = Fragment::Anonymous(AnonymousFragment::new(
        frect(0, 0, 10, 10),
        vec![image(2, frect(0, 0, 1, 1)), image(3, frect(0, 0, 1, 1))],
        WritingMode::horizontal_tb(),
    ));
    let found = root.find(&PhysicalRect::zero(), 5, &|f: &Fragment, level: usize, _: &PhysicalRect| {
        f.tag().map(|t| (t.node, level))
    });
    assert_eq!(found, Some((2, 6)));
    let first = root.find(&PhysicalRect::zero(), 0, &|_: &Fragment, level: usize, _: &PhysicalRect| {
        Some(level)
    });
    assert_eq!(first, Some(0));
}

#[test]
fn text_counts_its_glyphs() {
    assert_eq!(text(&[3, 4, 5]).num_glyphs(), Some(12));
    assert_eq!(text(&[]).num_glyphs(), Some(0));
    assert_eq!(text(&[isize::MAX, 1]).num_glyphs(), None);
    let t = Fragment::Text(text(&[1]));
    assert_eq!(parts(&t.scrollable_overflow(&PhysicalRect::zero())), (1, 2, 3, 4));
}

#[test]
fn iframe_overflow_is_its_rect() {
    let f = Fragment::IFrame(IFrameFragment {
        base: BaseFragment::anonymous(),
        pipeline_id: PipelineId {
            namespace_id: 1,
            index: 2,
        },
        browsing_context_id: BrowsingContextId {
            namespace_id: 1,
            index: 3,
        },
        rect: frect(7, 8, 9, 10),
        style: Arc::new(ComputedValues {
            writing_mode: WritingMode { vertical: true },
            overflow_x: ComputedOverflow::Auto,
            overflow_y: ComputedOverflow::Auto,
        }),
    });
    assert_eq!(parts(&f.scrollable_overflow(&PhysicalRect::zero())), (8, 7, 10, 9));
}

#[test]
fn font_metrics_from_gfx() {
    let gfx = GfxFontMetrics {
        underline_size: 60,
        underline_offset: -120,
        strikeout_size: 61,
        strikeout_offset: 240,
        leading: 0,
        x_height: 300,
        em_size: 960,
        ascent: 720,
        descent: 240,
        max_advance: 900,
        average_advance: 500,
        line_gap: 1100,
    };
    let m = FontMetrics::from(&gfx);
    assert_eq!(m.ascent.au, 720);
    assert_eq!(m.line_gap.au, 1100);
    assert_eq!(m.underline_offset.au, -120);
    assert_eq!(m.underline_size.au, 60);
    assert_eq!(m.strikeout_offset.au, 240);
    assert_eq!(m.strikeout_size.au, 61);
}
