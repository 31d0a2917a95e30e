use euclid::default::{Point2D, Rect as EuclidRect, Size2D, Vector2D};
use layout_2020::geom::{
    Length, PhysicalPoint, PhysicalRect, PhysicalSize, PhysicalVector, Rect, Sides, Vec2,
    WritingMode,
};

fn px(au: i32) -> Length {
    Length::from_au(au)
}

fn prect(x: i32, y: i32, w: i32, h: i32) -> PhysicalRect {
    PhysicalRect {
        origin: PhysicalPoint { x: px(x), y: px(y) },
        size: PhysicalSize {
            width: px(w),
            height: px(h),
        },
    }
}

fn erect(x: i32, y: i32, w: i32, h: i32) -> EuclidRect<i32> {
    EuclidRect::new(Point2D::new(x, y), Size2D::new(w, h))
}

fn parts(r: &PhysicalRect) -> (i32, i32, i32, i32) {
    (r.origin.x.au, r.origin.y.au, r.size.width.au, r.size.height.au)
}

fn eparts(r: &EuclidRect<i32>) -> (i32, i32, i32, i32) {
    (r.origin.x, r.origin.y, r.size.width, r.size.height)
}

fn frect(inline: i32, block: i32, isize: i32, bsize: i32) -> Rect {
    Rect {
        start_corner: Vec2 {
            inline: px(inline),
            block: px(block),
        },
        size: Vec2 {
            inline: px(isize),
            block: px(bsize),
        },
    }
}

const CASES: [(i32, i32, i32, i32); 7] = [
    (0, 0, 0, 0),
    (10, 20, 30, 40),
    (-5, 7, 12, 3),
    (100, -100, 0, 50),
    (3, 4, 0, 0),
    (-60, -60, 600, 600),
    (25, 25, 5, 0),
];

#[test]
fn union_agrees_with_euclid() {
    for a in CASES {
        for b in CASES {
            let ours = prect(a.0, a.1, a.2, a.3).union(&prect(b.0, b.1, b.2, b.3));
            let theirs = erect(a.0, a.1, a.2, a.3).union(&erect(b.0, b.1, b.2, b.3));
            assert_eq!(parts(&ours), eparts(&theirs), "union of {:?} and {:?}", a, b);
        }
    }
}

#[test]
fn translate_and_max_agree_with_euclid() {
    for a in CASES {
        let ours = prect(a.0, a.1, a.2, a.3);
        let theirs = erect(a.0, a.1, a.2, a.3);
        let moved = ours.translate(PhysicalVector { x: px(7), y: px(-9) });
        let emoved = theirs.translate(Vector2D::new(7, -9));
        assert_eq!(parts(&moved), eparts(&emoved));
        assert_eq!(ours.max_x().au, theirs.max_x());
        assert_eq!(ours.max_y().au, theirs.max_y());
    }
}

#[test]
fn union_with_zero_size_keeps_the_other() {
    let r = prect(10, 20, 30, 40);
    assert_eq!(parts(&PhysicalRect::zero().union(&r)), (10, 20, 30, 40));
    assert_eq!(parts(&r.union(&prect(500, 500, 0, 0))), (10, 20, 30, 40));
}

#[test]
fn union_spans_both() {
    let u = prect(0, 0, 10, 10).union(&prect(20, -5, 10, 10));
    assert_eq!(parts(&u), (0, -5, 30, 15));
}

#[test]
fn translate_back_restores() {
    let r = prect(-3, 8, 12, 4);
    let v = PhysicalVector { x: px(40), y: px(-2) };
    let back = PhysicalVector { x: px(-40), y: px(2) };
    assert_eq!(parts(&r.translate(v).translate(back)), parts(&r));
}

#[test]
fn inflate_grows_outwards() {
    let r = frect(10, 20, 100, 50);
    let sides = Sides {
        inline_start: px(1),
        inline_end: px(2),
        block_start: px(3),
        block_end: px(4),
    };
    let grown = r.inflate(&sides);
    assert_eq!(grown, frect(9, 17, 103, 57));
}

#[test]
fn inflate_twice_is_inflate_by_the_sum() {
    let r = frect(10, 20, 100, 50);
    let a = Sides {
        inline_start: px(1),
        inline_end: px(2),
        block_start: px(3),
        block_end: px(4),
    };
    let b = Sides {
        inline_start: px(10),
        inline_end: px(20),
        block_start: px(30),
        block_end: px(40),
    };
    let sum = Sides {
        inline_start: px(11),
        inline_end: px(22),
        block_start: px(33),
        block_end: px(44),
    };
    assert_eq!(r.inflate(&a).inflate(&b), r.inflate(&sum));
}

#[test]
fn checked_inflate_reports_overflow() {
    let r = frect(i32::MAX - 1, 0, 10, 10);
    let sides = Sides {
        inline_start: px(-5),
        inline_end: px(0),
        block_start: px(0),
        block_end: px(0),
    };
    assert_eq!(r.checked_inflate(&sides), None);
    let ok = frect(0, 0, 10, 10);
    assert_eq!(ok.checked_inflate(&sides), Some(frect(5, 0, 5, 10)));
}

#[test]
fn checked_union_and_translate_report_overflow() {
    let a = prect(i32::MIN, 0, 10, 10);
    let b = prect(i32::MAX - 5, 0, 5, 10);
    assert_eq!(a.checked_union(&b), None);
    assert_eq!(
        prect(i32::MAX, 0, 1, 1).checked_translate(PhysicalVector { x: px(1), y: px(0) }),
        None
    );
    assert_eq!(
        prect(0, 0, 1, 1).checked_union(&prect(2, 2, 1, 1)),
        Some(prect(0, 0, 3, 3))
    );
}

#[test]
fn to_physical_follows_the_writing_mode() {
    let r = frect(10, 20, 100, 50);
    let cb = PhysicalRect::zero();
    let horizontal = r.to_physical(WritingMode::horizontal_tb(), &cb);
    assert_eq!(parts(&horizontal), (10, 20, 100, 50));
    let vertical = r.to_physical(WritingMode { vertical: true }, &cb);
    assert_eq!(parts(&vertical), (20, 10, 50, 100));
    let size = r.size.to_physical(WritingMode { vertical: true });
    assert_eq!((size.width.au, size.height.au), (50, 100));
}

#[test]
fn length_operations() {
    assert_eq!(px(3).max(px(-4)).au, 3);
    assert_eq!(px(3).min(px(-4)).au, -4);
    assert_eq!(px(3).plus(px(-4)).au, -1);
    assert_eq!(px(3).minus(px(-4)).au, 7);
    assert_eq!(Length::zero().au, 0);
    assert_eq!(Length::checked_from_i64(i32::MAX as i64 + 1), None);
    assert_eq!(Length::checked_from_i64(-8), Some(px(-8)));
}
