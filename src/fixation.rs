use vstd::prelude::*;

use crate::fixation_condition::{
    eligible, first_least, first_least_among, for_pair, is_first_least, lemma_first_least_unique,
    matches_area, none_eligible, position_count, sorts_before, FixationCondition,
};
use crate::order::Order;

verus! {

/// A position in a list as a mathematical integer.
pub open spec fn index_of(r: Option<usize>) -> Option<int> {
    match r {
        Some(k) => Some(k as int),
        None => None,
    }
}

/// The condition that governs an order's mounting: none when the fixation or
/// the shape is unset; for a narrow order the first condition of the pair with
/// the least lower bound; otherwise the first such condition whose range
/// accepts the order's area.
pub open spec fn selected_condition(cs: Seq<FixationCondition>, order: Order) -> Option<int> {
    if order.fixation_id == 0 || order.shape_id == 0 {
        None
    } else {
        first_least(cs, order.fixation_id, order.shape_id, area_filter(order))
    }
}

/// The area that a condition's range must accept for an order: none for a
/// narrow order, the order's area otherwise.
pub open spec fn area_filter(order: Order) -> Option<i32> {
    if order.narrow {
        None
    } else {
        Some(order.area)
    }
}

/// The number of mounting points charged for a condition.
pub fn count_pos(cond: &FixationCondition) -> (r: i32)
    ensures
        r == position_count(*cond),
        0 <= r <= 8,
{
    let mut count: i32 = 0;
    if let Some(true) = cond.pos_tl {
        count += 1;
    }
    if let Some(true) = cond.pos_tc {
        count += 1;
    }
    if let Some(true) = cond.pos_tr {
        count += 1;
    }
    if let Some(true) = cond.pos_cl {
        count += 1;
    }
    if let Some(true) = cond.pos_cr {
        count += 1;
    }
    if let Some(true) = cond.pos_bl {
        count += 1;
    }
    if let Some(true) = cond.pos_bc {
        count += 1;
    }
    if let Some(true) = cond.pos_bc {
        count += 1;
    }
    count
}

fn is_eligible(c: &FixationCondition, fixation_id: i32, shape_id: i32, area: Option<i32>) -> (r: bool)
    ensures
        r == eligible(*c, fixation_id, shape_id, area),
{
    if c.fixation_id != fixation_id || c.shape_id != shape_id {
        return false;
    }
    match area {
        None => true,
        Some(a) => match (c.area_min, c.area_max) {
            (Some(lo), Some(hi)) => (lo == 0 && hi == 0) || (lo == 0 && hi >= a) || (lo > a && hi <= a)
                || (lo < a && hi == 0),
            _ => false,
        },
    }
}

fn sorts_before_exec(a: Option<i32>, b: Option<i32>) -> (r: bool)
    ensures
        r == sorts_before(a, b),
{
    match (a, b) {
        (Some(x), Some(y)) => x < y,
        (Some(_), None) => true,
        _ => false,
    }
}

/// The position of the first eligible condition with the least lower bound.
fn first_least_index(
    conditions: &Vec<FixationCondition>,
    fixation_id: i32,
    shape_id: i32,
    area: Option<i32>,
) -> (r: Option<usize>)
    ensures
        index_of(r) == first_least(conditions@, fixation_id, shape_id, area),
        r is None <==> none_eligible(conditions@, fixation_id, shape_id, area),
{
    let mut best: Option<usize> = None;
    let mut i: usize = 0;
    while i < conditions.len()
        invariant
            0 <= i <= conditions.len(),
            match best {
                None => forall|j: int| 0 <= j < i ==> !eligible(#[trigger] conditions@[j], fixation_id, shape_id, area),
                Some(k) => first_least_among(conditions@, fixation_id, shape_id, area, k as int, i as int),
            },
        decreases conditions.len() - i,
    {
        if is_eligible(&conditions[i], fixation_id, shape_id, area) {
            match best {
                None => {
                    best = Some(i);
                },
                Some(k) => {
                    if sorts_before_exec(conditions[i].area_min, conditions[k].area_min) {
                        best = Some(i);
                    }
                },
            }
        }
        i = i + 1;
    }
    match best {
        None => {
            assert(!exists|k: int| is_first_least(conditions@, fixation_id, shape_id, area, k));
        },
        Some(k) => {
            let ghost m = choose|m: int| is_first_least(conditions@, fixation_id, shape_id, area, m);
            proof {
                lemma_first_least_unique(conditions@, fixation_id, shape_id, area, k as int, m);
            }
        },
    }
    best
}

/// The condition for a narrow order: among the conditions of the order's
/// fixation and shape, the first one with the least lower bound, unset bounds
/// last. Gives the condition's position in `conditions`; none when the
/// fixation or the shape is unset.
pub fn first_min_condition(conditions: &Vec<FixationCondition>, order: &Order) -> (r: Option<usize>)
    ensures
        order.fixation_id == 0 || order.shape_id == 0 ==> r is None,
        order.fixation_id != 0 && order.shape_id != 0 ==> index_of(r) == first_least(
            conditions@,
            order.fixation_id,
            order.shape_id,
            None,
        ),
        order.fixation_id != 0 && order.shape_id != 0 ==> (r is None <==> none_eligible(
            conditions@,
            order.fixation_id,
            order.shape_id,
            None,
        )),
        r matches Some(k) ==> is_first_least(conditions@, order.fixation_id, order.shape_id, None, k as int),
{
    if order.fixation_id == 0 {
        return None;
    }
    if order.shape_id == 0 {
        return None;
    }
    let r = first_least_index(conditions, order.fixation_id, order.shape_id, None);
    proof {
        lemma_first_least_unique_choice(conditions@, order.fixation_id, order.shape_id, None);
    }
    r
}

/// The chosen position, when there is one, is the first with the least lower bound.
proof fn lemma_first_least_unique_choice(
    cs: Seq<FixationCondition>,
    fixation_id: i32,
    shape_id: i32,
    area: Option<i32>,
)
    ensures
        first_least(cs, fixation_id, shape_id, area) matches Some(k) ==> is_first_least(
            cs,
            fixation_id,
            shape_id,
            area,
            k,
        ),
{
}

/// The condition for an order that is not narrow: among the conditions of the
/// order's fixation and shape whose area range accepts `area`, the first one
/// with the least lower bound. Gives the condition's position in `conditions`;
/// none when the fixation or the shape is unset.
pub fn find_condition_by_area(conditions: &Vec<FixationCondition>, order: &Order, area: i32) -> (r: Option<usize>)
    ensures
        order.fixation_id == 0 || order.shape_id == 0 ==> r is None,
        order.fixation_id != 0 && order.shape_id != 0 ==> index_of(r) == first_least(
            conditions@,
            order.fixation_id,
            order.shape_id,
            Some(area),
        ),
        order.fixation_id != 0 && order.shape_id != 0 ==> (r is None <==> none_eligible(
            conditions@,
            order.fixation_id,
            order.shape_id,
            Some(area),
        )),
        r matches Some(k) ==> is_first_least(conditions@, order.fixation_id, order.shape_id, Some(area), k as int),
{
    if order.fixation_id == 0 {
        return None;
    }
    if order.shape_id == 0 {
        return None;
    }
    let r = first_least_index(conditions, order.fixation_id, order.shape_id, Some(area));
    proof {
        lemma_first_least_unique_choice(conditions@, order.fixation_id, order.shape_id, Some(area));
    }
    r
}

/// The condition that governs an order's mounting, by the order's geometry.
pub fn select_condition(conditions: &Vec<FixationCondition>, order: &Order) -> (r: Option<usize>)
    ensures
        index_of(r) == selected_condition(conditions@, *order),
        order.fixation_id == 0 || order.shape_id == 0 ==> r is None,
        order.fixation_id != 0 && order.shape_id != 0 ==> (r is None <==> none_eligible(
            conditions@,
            order.fixation_id,
            order.shape_id,
            area_filter(*order),
        )),
        r matches Some(k) ==> is_first_least(
            conditions@,
            order.fixation_id,
            order.shape_id,
            area_filter(*order),
            k as int,
        ),
{
    if order.fixation_id == 0 {
        None
    } else if order.narrow {
        first_min_condition(conditions, order)
    } else {
        find_condition_by_area(conditions, order, order.area)
    }
}

/// An order whose fixation or shape is unset gets no condition, whatever its
/// geometry.
pub proof fn lemma_unset_ids_select_nothing(cs: Seq<FixationCondition>, order: Order)
    requires
        order.fixation_id == 0 || order.shape_id == 0,
    ensures
        selected_condition(cs, order) is None,
{
}

/// For narrow orders the selected condition does not depend on the area: two
/// narrow orders for the same fixation and shape get the same condition, and it
/// is one of the pair's conditions with the least lower bound.
pub proof fn lemma_narrow_ignores_area(cs: Seq<FixationCondition>, a: Order, b: Order)
    requires
        a.narrow,
        b.narrow,
        a.fixation_id == b.fixation_id,
        a.shape_id == b.shape_id,
    ensures
        selected_condition(cs, a) == selected_condition(cs, b),
        selected_condition(cs, a) matches Some(k) ==> {
            &&& 0 <= k < cs.len()
            &&& for_pair(cs[k], a.fixation_id, a.shape_id)
            &&& forall|j: int| 0 <= j < cs.len() && for_pair(#[trigger] cs[j], a.fixation_id, a.shape_id)
                ==> !sorts_before(cs[j].area_min, cs[k].area_min)
        },
{
    lemma_first_least_unique_choice(cs, a.fixation_id, a.shape_id, None);
    if let Some(k) = selected_condition(cs, a) {
        assert forall|j: int| 0 <= j < cs.len() && for_pair(#[trigger] cs[j], a.fixation_id, a.shape_id) implies
            !sorts_before(cs[j].area_min, cs[k].area_min) by {
            assert(eligible(cs[j], a.fixation_id, a.shape_id, None));
        }
    }
}

/// A condition with both bounds set to zero accepts every positive area.
pub proof fn lemma_wildcard_accepts_every_area(c: FixationCondition, area: i32)
    requires
        c.area_min == Some(0i32),
        c.area_max == Some(0i32),
        area > 0,
    ensures
        matches_area(c, area),
{
}

/// An order that is not narrow, for a set fixation and shape that have a
/// condition with both bounds zero, always gets a condition, whatever its
/// positive area.
pub proof fn lemma_wildcard_always_selects(cs: Seq<FixationCondition>, order: Order, w: int)
    requires
        0 <= w < cs.len(),
        for_pair(cs[w], order.fixation_id, order.shape_id),
        cs[w].area_min == Some(0i32),
        cs[w].area_max == Some(0i32),
        order.fixation_id != 0,
        order.shape_id != 0,
        !order.narrow,
        order.area > 0,
    ensures
        selected_condition(cs, order) is Some,
{
    assert(eligible(cs[w], order.fixation_id, order.shape_id, Some(order.area)));
    lemma_first_least_exists(cs, order.fixation_id, order.shape_id, Some(order.area), cs.len() as int);
    let k = choose|k: int| #[trigger]
        first_least_among(cs, order.fixation_id, order.shape_id, Some(order.area), k, cs.len() as int);
    assert(is_first_least(cs, order.fixation_id, order.shape_id, Some(order.area), k));
}

/// When some condition is eligible, one of them is the first with the least
/// lower bound.
proof fn lemma_first_least_exists(
    cs: Seq<FixationCondition>,
    fixation_id: i32,
    shape_id: i32,
    area: Option<i32>,
    n: int,
)
    requires
        0 <= n <= cs.len(),
        exists|j: int| 0 <= j < n && eligible(#[trigger] cs[j], fixation_id, shape_id, area),
    ensures
        exists|k: int| first_least_among(cs, fixation_id, shape_id, area, k, n),
    decreases n,
{
    if exists|i: int| 0 <= i < n - 1 && eligible(#[trigger] cs[i], fixation_id, shape_id, area) {
        lemma_first_least_exists(cs, fixation_id, shape_id, area, n - 1);
        let k = choose|k: int| #[trigger] first_least_among(cs, fixation_id, shape_id, area, k, n - 1);
        if eligible(cs[n - 1], fixation_id, shape_id, area) && sorts_before(cs[n - 1].area_min, cs[k].area_min) {
            assert(first_least_among(cs, fixation_id, shape_id, area, n - 1, n));
        } else {
            assert(first_least_among(cs, fixation_id, shape_id, area, k, n));
        }
    } else {
        assert(eligible(cs[n - 1], fixation_id, shape_id, area));
        assert(first_least_among(cs, fixation_id, shape_id, area, n - 1, n));
    }
}

} // verus!
