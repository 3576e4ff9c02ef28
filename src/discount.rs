use vstd::prelude::*;

verus! {

/// A volume discount: `amount` percent off once an order reaches `quantity` items.
#[derive(Clone, Copy, Debug, PartialEq, Eq, Structural)]
pub struct Discount {
    pub id: i32,
    pub amount: i16,
    pub quantity: i16,
}

/// The tier is open to an order of `quantity` items.
pub open spec fn qualifies(d: Discount, quantity: i16) -> bool {
    d.quantity <= quantity
}

/// Among the first `n` tiers, tier `b` is open to the order, no open tier has a
/// larger threshold, and every open tier before `b` has a strictly smaller one.
pub open spec fn best_among(ds: Seq<Discount>, quantity: i16, b: int, n: int) -> bool {
    &&& 0 <= b < n <= ds.len()
    &&& qualifies(ds[b], quantity)
    &&& forall|j: int| 0 <= j < n && qualifies(#[trigger] ds[j], quantity) ==> ds[j].quantity <= ds[b].quantity
    &&& forall|j: int| 0 <= j < b && qualifies(#[trigger] ds[j], quantity) ==> ds[j].quantity < ds[b].quantity
}

/// Tier `b` is the one granted to an order of `quantity` items: the first of the
/// open tiers with the largest threshold.
pub open spec fn is_best_tier(ds: Seq<Discount>, quantity: i16, b: int) -> bool {
    best_among(ds, quantity, b, ds.len() as int)
}

/// No tier is open to an order of `quantity` items.
pub open spec fn none_qualifies(ds: Seq<Discount>, quantity: i16) -> bool {
    forall|j: int| 0 <= j < ds.len() ==> !qualifies(#[trigger] ds[j], quantity)
}

/// The tier granted to an order of `quantity` items, if any tier is open to it.
pub open spec fn best_tier(ds: Seq<Discount>, quantity: i16) -> Option<Discount> {
    if exists|b: int| is_best_tier(ds, quantity, b) {
        Some(ds[choose|b: int| is_best_tier(ds, quantity, b)])
    } else {
        None
    }
}

/// At most one tier is the granted one.
pub proof fn lemma_best_tier_unique(ds: Seq<Discount>, quantity: i16, b: int, c: int)
    requires
        is_best_tier(ds, quantity, b),
        is_best_tier(ds, quantity, c),
    ensures
        b == c,
{
    if b < c {
        assert(ds[b].quantity < ds[c].quantity);
        assert(ds[b].quantity <= ds[c].quantity);
        assert(ds[c].quantity <= ds[b].quantity);
    } else if c < b {
        assert(ds[c].quantity < ds[b].quantity);
        assert(ds[b].quantity <= ds[c].quantity);
    }
}

/// The discount granted to an order of `quantity` items: among the tiers whose
/// threshold is at most `quantity`, the one with the largest threshold, the
/// earliest one on a tie; `None` when no threshold is reached.
pub fn find_by_quantity(discounts: &Vec<Discount>, quantity: i16) -> (r: Option<Discount>)
    ensures
        r == best_tier(discounts@, quantity),
        r is None <==> none_qualifies(discounts@, quantity),
        r matches Some(d) ==> exists|b: int| is_best_tier(discounts@, quantity, b) && discounts@[b] == d,
{
    let mut best: Option<usize> = None;
    let mut i: usize = 0;
    while i < discounts.len()
        invariant
            0 <= i <= discounts.len(),
            match best {
                None => forall|j: int| 0 <= j < i ==> !qualifies(#[trigger] discounts@[j], quantity),
                Some(b) => best_among(discounts@, quantity, b as int, i as int),
            },
        decreases discounts.len() - i,
    {
        let d = discounts[i];
        if d.quantity <= quantity {
            match best {
                None => {
                    best = Some(i);
                },
                Some(b) => {
                    if d.quantity > discounts[b].quantity {
                        best = Some(i);
                    }
                },
            }
        }
        i = i + 1;
    }
    match best {
        None => {
            assert(!exists|b: int| is_best_tier(discounts@, quantity, b));
            None
        },
        Some(b) => {
            let ghost c = choose|c: int| is_best_tier(discounts@, quantity, c);
            proof {
                lemma_best_tier_unique(discounts@, quantity, b as int, c);
            }
            Some(discounts[b])
        },
    }
}

} // verus!
