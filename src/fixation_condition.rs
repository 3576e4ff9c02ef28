use vstd::prelude::*;

verus! {

/// A mounting rule for one (fixation, shape) pair: the area range it applies to
/// and which of the eight mounting points it requires. A bound or a flag that is
/// `None` is unset.
#[derive(Clone, Copy, Debug)]
pub struct FixationCondition {
    pub id: i32,
    pub fixation_id: i32,
    pub shape_id: i32,
    pub area_min: Option<i32>,
    pub area_max: Option<i32>,
    pub pos_tl: Option<bool>,
    pub pos_tc: Option<bool>,
    pub pos_tr: Option<bool>,
    pub pos_cl: Option<bool>,
    pub pos_cr: Option<bool>,
    pub pos_bl: Option<bool>,
    pub pos_bc: Option<bool>,
    pub pos_br: Option<bool>,
}

/// One for a flag that is set to `true`, zero otherwise.
pub open spec fn flag(f: Option<bool>) -> int {
    if f == Some(true) { 1 } else { 0 }
}

/// The number of mounting points a condition is charged for. The bottom-centre
/// point is counted twice and the bottom-right one is never counted: prices
/// already quoted from the catalogue rest on this count.
pub open spec fn position_count(c: FixationCondition) -> int {
    flag(c.pos_tl) + flag(c.pos_tc) + flag(c.pos_tr) + flag(c.pos_cl) + flag(c.pos_cr)
        + flag(c.pos_bl) + flag(c.pos_bc) + flag(c.pos_bc)
}

/// The condition belongs to the given fixation and shape.
pub open spec fn for_pair(c: FixationCondition, fixation_id: i32, shape_id: i32) -> bool {
    c.fixation_id == fixation_id && c.shape_id == shape_id
}

/// The condition's area range accepts `area`. Each clause needs both bounds to
/// be set. The third clause holds only when `area_max <= area < area_min`.
pub open spec fn matches_area(c: FixationCondition, area: i32) -> bool {
    match (c.area_min, c.area_max) {
        (Some(lo), Some(hi)) => {
            ||| lo == 0 && hi == 0
            ||| lo == 0 && hi >= area
            ||| lo > area && hi <= area
            ||| lo < area && hi == 0
        },
        _ => false,
    }
}

/// Ascending order of lower bounds, unset bounds last: `a` comes strictly
/// before `b`.
pub open spec fn sorts_before(a: Option<i32>, b: Option<i32>) -> bool {
    match (a, b) {
        (Some(x), Some(y)) => x < y,
        (Some(_), None) => true,
        _ => false,
    }
}

/// The condition takes part in a selection for the given pair; with an area,
/// only when its range accepts that area.
pub open spec fn eligible(c: FixationCondition, fixation_id: i32, shape_id: i32, area: Option<i32>) -> bool {
    &&& for_pair(c, fixation_id, shape_id)
    &&& match area {
        Some(a) => matches_area(c, a),
        None => true,
    }
}

/// Among the first `n` conditions, `k` is eligible, no eligible condition sorts
/// before it, and it sorts strictly before every eligible one ahead of it.
pub open spec fn first_least_among(
    cs: Seq<FixationCondition>,
    fixation_id: i32,
    shape_id: i32,
    area: Option<i32>,
    k: int,
    n: int,
) -> bool {
    &&& 0 <= k < n <= cs.len()
    &&& eligible(cs[k], fixation_id, shape_id, area)
    &&& forall|j: int| 0 <= j < n && eligible(#[trigger] cs[j], fixation_id, shape_id, area)
        ==> !sorts_before(cs[j].area_min, cs[k].area_min)
    &&& forall|j: int| 0 <= j < k && eligible(#[trigger] cs[j], fixation_id, shape_id, area)
        ==> sorts_before(cs[k].area_min, cs[j].area_min)
}

/// Condition `k` is the first eligible one with the least lower bound.
pub open spec fn is_first_least(
    cs: Seq<FixationCondition>,
    fixation_id: i32,
    shape_id: i32,
    area: Option<i32>,
    k: int,
) -> bool {
    first_least_among(cs, fixation_id, shape_id, area, k, cs.len() as int)
}

/// The position of the first eligible condition with the least lower bound, if
/// any condition is eligible.
pub open spec fn first_least(
    cs: Seq<FixationCondition>,
    fixation_id: i32,
    shape_id: i32,
    area: Option<i32>,
) -> Option<int> {
    if exists|k: int| is_first_least(cs, fixation_id, shape_id, area, k) {
        Some(choose|k: int| is_first_least(cs, fixation_id, shape_id, area, k))
    } else {
        None
    }
}

/// No condition is eligible.
pub open spec fn none_eligible(
    cs: Seq<FixationCondition>,
    fixation_id: i32,
    shape_id: i32,
    area: Option<i32>,
) -> bool {
    forall|j: int| 0 <= j < cs.len() ==> !eligible(#[trigger] cs[j], fixation_id, shape_id, area)
}

/// At most one condition is the first with the least lower bound.
pub proof fn lemma_first_least_unique(
    cs: Seq<FixationCondition>,
    fixation_id: i32,
    shape_id: i32,
    area: Option<i32>,
    k: int,
    m: int,
)
    requires
        is_first_least(cs, fixation_id, shape_id, area, k),
        is_first_least(cs, fixation_id, shape_id, area, m),
    ensures
        k == m,
{
    if k < m {
        assert(sorts_before(cs[m].area_min, cs[k].area_min));
        assert(!sorts_before(cs[m].area_min, cs[k].area_min));
    } else if m < k {
        assert(sorts_before(cs[k].area_min, cs[m].area_min));
        assert(!sorts_before(cs[k].area_min, cs[m].area_min));
    }
}

} // verus!
