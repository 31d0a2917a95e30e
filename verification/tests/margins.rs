use layout_2020::geom::{Length, Sides};
use layout_2020::margins::{CollapsedBlockMargins, CollapsedMargin};

fn px(au: i32) -> Length {
    Length::from_au(au)
}

fn solve(m: &CollapsedMargin) -> i32 {
    m.solve().au
}

#[test]
fn single_margin_solves_to_itself() {
    for m in [-120, -1, 0, 1, 300, i32::MAX, i32::MIN] {
        assert_eq!(solve(&CollapsedMargin::new(px(m))), m);
    }
}

#[test]
fn zero_margin_solves_to_zero() {
    assert_eq!(solve(&CollapsedMargin::zero()), 0);
}

#[test]
fn positive_margins_collapse_to_the_largest() {
    let a = CollapsedMargin::new(px(600));
    let b = CollapsedMargin::new(px(1200));
    assert_eq!(solve(&a.adjoin(&b)), 1200);
    assert_eq!(solve(&b.adjoin(&a)), 1200);
}

#[test]
fn negative_margins_collapse_to_the_most_negative() {
    let a = CollapsedMargin::new(px(-600));
    let b = CollapsedMargin::new(px(-240));
    assert_eq!(solve(&a.adjoin(&b)), -600);
}

#[test]
fn mixed_margins_add_largest_and_most_negative() {
    let margins = [300, -60, 900, -420, 0];
    let mut collapsed = CollapsedMargin::zero();
    for m in margins {
        collapsed.adjoin_assign(&CollapsedMargin::new(px(m)));
    }
    assert_eq!(solve(&collapsed), 900 - 420);
}

#[test]
fn extreme_margins_do_not_overflow() {
    let a = CollapsedMargin::new(px(i32::MAX));
    let b = CollapsedMargin::new(px(i32::MIN));
    assert_eq!(solve(&a.adjoin(&b)), -1);
}

#[test]
fn adjoining_is_associative_and_idempotent() {
    let a = CollapsedMargin::new(px(5));
    let b = CollapsedMargin::new(px(-7));
    let c = CollapsedMargin::new(px(3));
    let left = a.adjoin(&b).adjoin(&c);
    let right = a.adjoin(&b.adjoin(&c));
    assert_eq!(solve(&left), solve(&right));
    assert_eq!(solve(&a.adjoin(&a)), 5);
    assert_eq!(solve(&a.adjoin(&CollapsedMargin::zero())), 5);
}

#[test]
fn adjoin_assign_matches_adjoin() {
    let mut a = CollapsedMargin::new(px(40));
    let b = CollapsedMargin::new(px(-90));
    let expected = solve(&a.adjoin(&b));
    a.adjoin_assign(&b);
    assert_eq!(solve(&a), expected);
    assert_eq!(expected, -50);
}

#[test]
fn block_margins_from_sides() {
    let sides = Sides {
        inline_start: px(1),
        inline_end: px(2),
        block_start: px(-30),
        block_end: px(45),
    };
    let margins = CollapsedBlockMargins::from_margin(&sides);
    assert!(!margins.collapsed_through);
    assert_eq!(solve(&margins.start), -30);
    assert_eq!(solve(&margins.end), 45);
    let zero = CollapsedBlockMargins::zero();
    assert!(!zero.collapsed_through);
    assert_eq!(solve(&zero.start), 0);
    assert_eq!(solve(&zero.end), 0);
}
