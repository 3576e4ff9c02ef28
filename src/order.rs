use vstd::prelude::*;

use crate::discount::{best_tier, find_by_quantity, is_best_tier, none_qualifies, qualifies, Discount};
use crate::fixation::{count_pos, index_of, select_condition, selected_condition};
use crate::fixation_condition::{position_count, FixationCondition};

verus! {

/// A quote request, holding what the pricing rules read of it. An id of zero
/// means that nothing was chosen.
#[derive(Clone, Copy, Debug, PartialEq, Eq, Structural)]
pub struct Order {
    pub material_id: i32,
    pub fixation_id: i32,
    pub shape_id: i32,
    pub quantity: i16,
    /// The width or the height is at most 10 units.
    pub narrow: bool,
    /// Width times height, truncated toward zero.
    pub area: i32,
}

/// The whole-number part of a quote: whether it is priced at all, the discount
/// granted, the mounting condition that applies and the mounting points it
/// charges for. The money and weight figures are these folded with the
/// material's and the fixation's prices.
#[derive(Clone, Copy, Debug)]
pub struct PriceBasis {
    /// A material was found; otherwise every figure of the quote is zero.
    pub priced: bool,
    /// The discount granted, in percent.
    pub discount: i16,
    /// The position of the governing condition among the candidates.
    pub condition: Option<usize>,
    /// The mounting points charged for.
    pub positions: i32,
}

impl PriceBasis {
    /// The share of the price that remains to pay after the discount, in percent.
    pub open spec fn remaining_spec(self) -> int {
        100 - self.discount
    }

    /// The share of the price that remains to pay after the discount, in percent.
    pub fn remaining_percent(&self) -> (r: i32)
        ensures
            r == self.remaining_spec(),
    {
        100 - self.discount as i32
    }
}

/// The quote of an order for which no material was found: nothing priced.
pub open spec fn empty_basis() -> PriceBasis {
    PriceBasis { priced: false, discount: 0, condition: None, positions: 0 }
}

/// The discount, in percent, granted to an order of `quantity` items.
pub open spec fn discount_percent(ds: Seq<Discount>, quantity: i16) -> int {
    match best_tier(ds, quantity) {
        Some(d) => d.amount as int,
        None => 0,
    }
}

/// The mounting points charged for an order.
pub open spec fn charged_positions(cs: Seq<FixationCondition>, order: Order) -> int {
    match selected_condition(cs, order) {
        Some(k) => position_count(cs[k]),
        None => 0,
    }
}

/// `r` is the whole-number part of the quote of `order`, given whether its
/// material was found (an unset material is never looked up), the discount tiers and the candidate conditions.
pub open spec fn is_basis_of(
    r: PriceBasis,
    order: Order,
    material_found: bool,
    ds: Seq<Discount>,
    cs: Seq<FixationCondition>,
) -> bool {
    if order.material_id == 0 || !material_found {
        r == empty_basis()
    } else {
        &&& r.priced
        &&& r.discount == discount_percent(ds, order.quantity)
        &&& index_of(r.condition) == selected_condition(cs, order)
        &&& r.positions == charged_positions(cs, order)
    }
}

/// The whole-number part of an order's quote: nothing when the material is
/// unset or was not found; otherwise the discount tier the quantity reaches, the condition that
/// the order's geometry selects and the mounting points that condition charges.
pub fn price_basis(
    order: &Order,
    material_found: bool,
    discounts: &Vec<Discount>,
    conditions: &Vec<FixationCondition>,
) -> (r: PriceBasis)
    ensures
        is_basis_of(r, *order, material_found, discounts@, conditions@),
        order.material_id == 0 || !material_found ==> r == empty_basis(),
        order.material_id != 0 && material_found ==> r.priced,
{
    if order.material_id == 0 || !material_found {
        return PriceBasis { priced: false, discount: 0, condition: None, positions: 0 };
    }
    let discount = match find_by_quantity(discounts, order.quantity) {
        Some(d) => d.amount,
        None => 0,
    };
    let condition = select_condition(conditions, order);
    let positions = match condition {
        Some(k) => count_pos(&conditions[k]),
        None => 0,
    };
    PriceBasis { priced: true, discount, condition, positions }
}

/// An order whose material is unset is quoted as nothing at all, whatever its
/// fixation, shape, quantity and geometry and whatever the catalogue holds.
pub proof fn lemma_unset_material_quotes_nothing(
    r: PriceBasis,
    order: Order,
    material_found: bool,
    ds: Seq<Discount>,
    cs: Seq<FixationCondition>,
)
    requires
        order.material_id == 0,
        is_basis_of(r, order, material_found, ds, cs),
    ensures
        !r.priced,
        r.discount == 0,
        r.condition is None,
        r.positions == 0,
{
}

/// When no tier is reached, no discount is granted: the whole price remains to
/// pay, so the discounted figures equal the undiscounted ones.
pub proof fn lemma_no_tier_keeps_full_price(
    r: PriceBasis,
    order: Order,
    material_found: bool,
    ds: Seq<Discount>,
    cs: Seq<FixationCondition>,
)
    requires
        none_qualifies(ds, order.quantity),
        is_basis_of(r, order, material_found, ds, cs),
    ensures
        r.discount == 0,
        r.remaining_spec() == 100,
{
    if exists|b: int| is_best_tier(ds, order.quantity, b) {
        let b = choose|b: int| is_best_tier(ds, order.quantity, b);
        assert(qualifies(ds[b], order.quantity));
    }
}

/// Quoting is deterministic: the same order against the same catalogue always
/// gives the same result.
pub proof fn lemma_basis_deterministic(
    r1: PriceBasis,
    r2: PriceBasis,
    order: Order,
    material_found: bool,
    ds: Seq<Discount>,
    cs: Seq<FixationCondition>,
)
    requires
        is_basis_of(r1, order, material_found, ds, cs),
        is_basis_of(r2, order, material_found, ds, cs),
    ensures
        r1 == r2,
{
    if order.material_id != 0 && material_found {
        match (r1.condition, r2.condition) {
            (Some(a), Some(b)) => {
                assert(index_of(r1.condition) == Some(a as int));
                assert(index_of(r2.condition) == Some(b as int));
            },
            _ => {},
        }
    }
}

} // verus!
