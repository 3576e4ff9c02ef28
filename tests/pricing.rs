use signage_pricing::discount::{find_by_quantity, Discount};
use signage_pricing::fixation::{count_pos, find_condition_by_area, first_min_condition, select_condition};
use signage_pricing::fixation_condition::FixationCondition;
use signage_pricing::order::{price_basis, Order};

fn tier(id: i32, amount: i16, quantity: i16) -> Discount {
    Discount { id, amount, quantity }
}

fn cond(id: i32, fixation_id: i32, shape_id: i32, area_min: Option<i32>, area_max: Option<i32>) -> FixationCondition {
    FixationCondition {
        id,
        fixation_id,
        shape_id,
        area_min,
        area_max,
        pos_tl: None,
        pos_tc: None,
        pos_tr: None,
        pos_cl: None,
        pos_cr: None,
        pos_bl: None,
        pos_bc: None,
        pos_br: None,
    }
}

fn order(material_id: i32, fixation_id: i32, shape_id: i32, quantity: i16, narrow: bool, area: i32) -> Order {
    Order { material_id, fixation_id, shape_id, quantity, narrow, area }
}

#[test]
fn discount_picks_largest_reached_threshold() {
    let ds = vec![tier(1, 5, 10), tier(2, 10, 50)];
    assert_eq!(find_by_quantity(&ds, 20), Some(tier(1, 5, 10)));
    assert_eq!(find_by_quantity(&ds, 50), Some(tier(2, 10, 50)));
    assert_eq!(find_by_quantity(&ds, 1000), Some(tier(2, 10, 50)));
}

#[test]
fn discount_none_below_every_threshold() {
    let ds = vec![tier(1, 5, 10), tier(2, 10, 50)];
    assert_eq!(find_by_quantity(&ds, 9), None);
    assert_eq!(find_by_quantity(&ds, 0), None);
    assert_eq!(find_by_quantity(&ds, -3), None);
    assert_eq!(find_by_quantity(&Vec::new(), 100), None);
}

#[test]
fn discount_order_of_tiers_does_not_matter() {
    let ds = vec![tier(2, 10, 50), tier(3, 7, 30), tier(1, 5, 10)];
    assert_eq!(find_by_quantity(&ds, 40), Some(tier(3, 7, 30)));
}

#[test]
fn discount_tie_keeps_first_tier() {
    let ds = vec![tier(1, 5, 10), tier(2, 8, 10)];
    assert_eq!(find_by_quantity(&ds, 10), Some(tier(1, 5, 10)));
}

#[test]
fn discount_threshold_zero_open_to_empty_order() {
    let ds = vec![tier(1, 3, 0), tier(2, 10, 50)];
    assert_eq!(find_by_quantity(&ds, 0), Some(tier(1, 3, 0)));
    assert_eq!(find_by_quantity(&ds, -1), None);
}

#[test]
fn count_pos_counts_bottom_centre_twice_and_skips_bottom_right() {
    let mut c = cond(1, 1, 1, None, None);
    assert_eq!(count_pos(&c), 0);
    c.pos_tl = Some(true);
    c.pos_tr = Some(true);
    assert_eq!(count_pos(&c), 2);
    c.pos_br = Some(true);
    assert_eq!(count_pos(&c), 2);
    c.pos_bc = Some(true);
    assert_eq!(count_pos(&c), 4);
    c.pos_cl = Some(false);
    assert_eq!(count_pos(&c), 4);
    let all = FixationCondition {
        pos_tl: Some(true),
        pos_tc: Some(true),
        pos_tr: Some(true),
        pos_cl: Some(true),
        pos_cr: Some(true),
        pos_bl: Some(true),
        pos_bc: Some(true),
        pos_br: Some(true),
        ..cond(2, 1, 1, None, None)
    };
    assert_eq!(count_pos(&all), 8);
}

#[test]
fn unset_fixation_or_shape_selects_nothing() {
    let cs = vec![cond(1, 0, 0, Some(0), Some(0)), cond(2, 3, 0, Some(0), Some(0)), cond(3, 0, 4, Some(0), Some(0))];
    for &(f, s) in &[(0, 0), (3, 0), (0, 4)] {
        for &narrow in &[true, false] {
            let o = order(1, f, s, 1, narrow, 500);
            assert_eq!(select_condition(&cs, &o), None);
            assert_eq!(first_min_condition(&cs, &o), None);
            assert_eq!(find_condition_by_area(&cs, &o, 500), None);
        }
    }
}

#[test]
fn narrow_order_takes_least_lower_bound() {
    let cs = vec![
        cond(1, 2, 3, Some(100), Some(200)),
        cond(2, 2, 4, Some(0), Some(50)),
        cond(3, 2, 3, None, Some(10)),
        cond(4, 2, 3, Some(20), Some(30)),
        cond(5, 2, 3, Some(20), None),
    ];
    let o = order(1, 2, 3, 1, true, 5);
    assert_eq!(first_min_condition(&cs, &o), Some(3));
    assert_eq!(select_condition(&cs, &o), Some(3));
    let big = order(1, 2, 3, 1, true, 1_000_000);
    assert_eq!(select_condition(&cs, &big), Some(3));
}

#[test]
fn narrow_order_unset_lower_bound_comes_last() {
    let cs = vec![cond(1, 2, 3, None, None), cond(2, 2, 3, Some(500), None)];
    let o = order(1, 2, 3, 1, true, 0);
    assert_eq!(first_min_condition(&cs, &o), Some(1));
    let only_unset = vec![cond(1, 2, 3, None, None)];
    assert_eq!(first_min_condition(&only_unset, &o), Some(0));
    assert_eq!(first_min_condition(&Vec::new(), &o), None);
}

#[test]
fn area_match_clauses() {
    let o = order(1, 2, 3, 1, false, 150);
    // no lower bound, cap above the area
    let cs = vec![cond(1, 2, 3, Some(0), Some(200))];
    assert_eq!(find_condition_by_area(&cs, &o, 150), Some(0));
    assert_eq!(find_condition_by_area(&cs, &o, 200), Some(0));
    assert_eq!(find_condition_by_area(&cs, &o, 201), None);
    // lower bound only
    let cs = vec![cond(1, 2, 3, Some(100), Some(0))];
    assert_eq!(find_condition_by_area(&cs, &o, 150), Some(0));
    assert_eq!(find_condition_by_area(&cs, &o, 100), None);
    // both bounds set and not zero: only the inverted clause can hold
    let cs = vec![cond(1, 2, 3, Some(100), Some(200))];
    assert_eq!(find_condition_by_area(&cs, &o, 150), None);
    let cs = vec![cond(1, 2, 3, Some(200), Some(100))];
    assert_eq!(find_condition_by_area(&cs, &o, 150), Some(0));
    // an unset bound never matches
    let cs = vec![cond(1, 2, 3, None, Some(0)), cond(2, 2, 3, Some(0), None)];
    assert_eq!(find_condition_by_area(&cs, &o, 150), None);
}

#[test]
fn area_match_takes_least_lower_bound_among_matches() {
    let cs = vec![
        cond(1, 2, 3, Some(120), Some(0)),
        cond(2, 2, 3, Some(0), Some(100)),
        cond(3, 2, 3, Some(50), Some(0)),
        cond(4, 9, 3, Some(0), Some(0)),
    ];
    let o = order(1, 2, 3, 1, false, 150);
    assert_eq!(select_condition(&cs, &o), Some(2));
    assert_eq!(find_condition_by_area(&cs, &o, 80), Some(1));
}

#[test]
fn wildcard_condition_matches_every_positive_area() {
    let cs = vec![cond(1, 2, 3, Some(0), Some(0))];
    for &area in &[1, 11, 101, 5000, i32::MAX] {
        let o = order(1, 2, 3, 1, false, area);
        assert_eq!(select_condition(&cs, &o), Some(0));
    }
}

#[test]
fn unset_material_quotes_nothing() {
    let ds = vec![tier(1, 5, 1)];
    let mut c = cond(1, 2, 3, Some(0), Some(0));
    c.pos_tl = Some(true);
    let cs = vec![c];
    let b = price_basis(&order(0, 2, 3, 10, false, 400), true, &ds, &cs);
    assert!(!b.priced);
    assert_eq!(b.discount, 0);
    assert_eq!(b.condition, None);
    assert_eq!(b.positions, 0);
    let b = price_basis(&order(7, 2, 3, 10, false, 400), false, &ds, &cs);
    assert!(!b.priced);
    assert_eq!(b.discount, 0);
    assert_eq!(b.condition, None);
    assert_eq!(b.positions, 0);
}

#[test]
fn priced_order_basis() {
    let ds = vec![tier(1, 5, 2), tier(2, 10, 50)];
    let mut c = cond(1, 4, 6, Some(0), Some(0));
    c.pos_tl = Some(true);
    c.pos_br = Some(true);
    c.pos_tr = Some(true);
    let cs = vec![cond(9, 4, 6, Some(10), Some(0)), c];
    let b = price_basis(&order(7, 4, 6, 3, false, 100), true, &ds, &cs);
    assert!(b.priced);
    assert_eq!(b.discount, 5);
    assert_eq!(b.remaining_percent(), 95);
    assert_eq!(b.condition, Some(1));
    assert_eq!(b.positions, 2);
}

#[test]
fn no_tier_reached_keeps_full_price() {
    let ds = vec![tier(1, 5, 10)];
    let b = price_basis(&order(7, 0, 0, 3, true, 50), true, &ds, &Vec::new());
    assert!(b.priced);
    assert_eq!(b.discount, 0);
    assert_eq!(b.remaining_percent(), 100);
    assert_eq!(b.condition, None);
    assert_eq!(b.positions, 0);
}

#[test]
fn quoting_twice_gives_the_same_basis() {
    let ds = vec![tier(1, 5, 2)];
    let mut c = cond(1, 4, 6, Some(0), Some(0));
    c.pos_bc = Some(true);
    let cs = vec![c];
    let o = order(7, 4, 6, 3, false, 100);
    let a = price_basis(&o, true, &ds, &cs);
    let b = price_basis(&o, true, &ds, &cs);
    assert_eq!((a.priced, a.discount, a.condition, a.positions), (b.priced, b.discount, b.condition, b.positions));
}

#[test]
fn ten_by_ten_order_uses_smallest_condition() {
    let mut small = cond(1, 5, 2, Some(0), Some(50));
    small.pos_tl = Some(true);
    small.pos_br = Some(true);
    small.pos_bc = Some(false);
    small.pos_cr = Some(true);
    let mut wide = cond(2, 5, 2, Some(0), Some(0));
    wide.pos_tl = Some(true);
    let cs = vec![wide, small];
    let o = order(3, 5, 2, 3, true, 100);
    let b = price_basis(&o, true, &Vec::new(), &cs);
    assert_eq!(b.condition, Some(0));
    assert_eq!(b.positions, 1);
    let o = order(3, 5, 2, 3, false, 100);
    let b = price_basis(&o, true, &Vec::new(), &cs);
    assert_eq!(b.condition, Some(0));
    let cs = vec![small, wide];
    let b = price_basis(&order(3, 5, 2, 3, true, 100), true, &Vec::new(), &cs);
    assert_eq!(b.condition, Some(0));
    assert_eq!(b.positions, 2);
    assert_eq!(b.discount, 0);
    assert_eq!(b.remaining_percent(), 100);
}
