//! Pixel ownership as recorded in the chain, and the price a purchase must
//! pay when it is admitted.
use vstd::prelude::*;
use crate::blockchain::{chain_transactions, Blockchain};
use crate::crypto::{sha3_256, sha3_256_of, HashBytes};
use crate::encoding::hashes_equal;
use crate::pixel::{cost_of, is_isqrt, lemma_isqrt_monotone, pixel_cost, scaled_distance_squared};
use crate::transaction::{Point, Transaction, TransactionInput, TransactionOutput};

verus! {

/// The buyer of a transaction: the public-key hash of its first input's key,
/// when that input spends an output.
pub open spec fn buyer_of(t: Transaction) -> Option<Seq<u8>> {
    if t.spec_inputs().len() > 0 && t.spec_inputs()[0] is FromOutput {
        Some(sha3_256_of(t.spec_inputs()[0]->FromOutput_public_key@))
    } else {
        None
    }
}

/// Whether `t` buys the pixel at `position`.
pub open spec fn buys_pixel(t: Transaction, position: Point) -> bool {
    exists|j: int| 0 <= j < t.spec_outputs().len() && (#[trigger] t.spec_outputs()[j] matches TransactionOutput::ToPixel {
        position: p,
        ..
    } && p == position)
}

/// The distinct buyers of the pixel at `position`, in order of first purchase.
pub open spec fn pixel_owners(transactions: Seq<Transaction>, position: Point) -> Seq<Seq<u8>>
    decreases transactions.len(),
{
    if transactions.len() == 0 {
        Seq::empty()
    } else {
        let rest = pixel_owners(transactions.drop_last(), position);
        let t = transactions.last();
        if buys_pixel(t, position) && buyer_of(t) is Some && !rest.contains(buyer_of(t)->Some_0) {
            rest.push(buyer_of(t)->Some_0)
        } else {
            rest
        }
    }
}

/// The number of distinct earlier owners of the pixel, the buyer excluded.
pub open spec fn prior_owner_count(committed: Seq<Transaction>, position: Point, buyer: Option<Seq<u8>>) -> int {
    let owners = pixel_owners(committed, position);
    if buyer matches Some(b) && owners.contains(b) {
        owners.len() - 1
    } else {
        owners.len() as int
    }
}

/// Whether an output pays at least the price of the pixel it buys.
pub open spec fn pixel_price_met(committed: Seq<Transaction>, buyer: Option<Seq<u8>>, o: TransactionOutput) -> bool {
    match o {
        TransactionOutput::ToPixel { value, position, .. } => forall|root: int|
            is_isqrt(scaled_distance_squared(position), root) ==> value >= cost_of(
                root,
                prior_owner_count(committed, position, buyer),
            ),
        TransactionOutput::ToInput { .. } => true,
    }
}

/// Whether every pixel purchase of `t` pays its price.
pub open spec fn pixel_prices_met(committed: Seq<Transaction>, t: Transaction) -> bool {
    forall|j: int| 0 <= j < t.spec_outputs().len() ==> pixel_price_met(committed, buyer_of(t), #[trigger] t.spec_outputs()[j])
}

/// A committed purchase by a new distinct owner raises the count of earlier
/// owners that every other buyer pays for by one, so (by
/// `lemma_pixel_cost_monotone`) the price rises strictly.
pub proof fn lemma_new_owner_counts(
    committed: Seq<Transaction>,
    t: Transaction,
    position: Point,
    buyer: Option<Seq<u8>>,
)
    requires
        buys_pixel(t, position),
        buyer_of(t) is Some,
        !pixel_owners(committed, position).contains(buyer_of(t)->Some_0),
        buyer != buyer_of(t),
    ensures
        prior_owner_count(committed.push(t), position, buyer) == prior_owner_count(committed, position, buyer) + 1,
{
    let all = committed.push(t);
    assert(all.drop_last() =~= committed);
    let owners = pixel_owners(committed, position);
    let b = buyer_of(t)->Some_0;
    assert(pixel_owners(all, position) == owners.push(b));
    if buyer is Some {
        let x = buyer->Some_0;
        if owners.contains(x) {
            let i = choose|i: int| 0 <= i < owners.len() && owners[i] == x;
            assert(owners.push(b)[i] == x);
        }
        if owners.push(b).contains(x) {
            let i = choose|i: int| 0 <= i < owners.push(b).len() && owners.push(b)[i] == x;
            if i < owners.len() {
                assert(owners[i] == x);
            }
        }
    }
}

pub open spec fn buyer_view(b: Option<HashBytes>) -> Option<Seq<u8>> {
    match b {
        Some(h) => Some(h@),
        None => None,
    }
}

/// The buyer of `t`.
pub fn buyer(t: &Transaction) -> (r: Option<HashBytes>)
    ensures
        buyer_view(r) == buyer_of(*t),
{
    let inputs = t.get_inputs();
    if inputs.len() > 0 {
        match &inputs[0] {
            TransactionInput::FromOutput { public_key, .. } => Some(sha3_256(public_key.as_slice())),
            TransactionInput::FromReward { .. } => None,
        }
    } else {
        None
    }
}

/// Whether `t` buys the pixel at `position`.
pub fn buys(t: &Transaction, position: Point) -> (r: bool)
    ensures
        r == buys_pixel(*t, position),
{
    let outputs = t.get_outputs();
    let mut j: usize = 0;
    while j < outputs.len()
        invariant
            outputs@ == t.spec_outputs(),
            j <= outputs@.len(),
            forall|i: int| 0 <= i < j ==> !(#[trigger] outputs@[i] matches TransactionOutput::ToPixel {
                position: p,
                ..
            } && p == position),
        decreases outputs@.len() - j,
    {
        match outputs[j] {
            TransactionOutput::ToPixel { position: p, .. } => {
                if p.0 == position.0 && p.1 == position.1 {
                    return true;
                }
            },
            TransactionOutput::ToInput { .. } => {},
        }
        j = j + 1;
    }
    false
}

fn owner_listed(owners: &Vec<HashBytes>, h: &HashBytes) -> (r: bool)
    ensures
        r == exists|i: int| 0 <= i < owners@.len() && (#[trigger] owners@[i])@ == h@,
{
    let mut i: usize = 0;
    while i < owners.len()
        invariant
            i <= owners@.len(),
            forall|m: int| 0 <= m < i ==> (#[trigger] owners@[m])@ != h@,
        decreases owners@.len() - i,
    {
        if hashes_equal(&owners[i], h) {
            return true;
        }
        i = i + 1;
    }
    false
}

/// The distinct buyers of the pixel at `position` in the chain.
pub fn pixel_owner_list(chain: &Blockchain, position: Point) -> (r: Vec<HashBytes>)
    ensures
        r@.len() == pixel_owners(chain.committed(), position).len(),
        forall|i: int| 0 <= i < r@.len() ==> (#[trigger] r@[i])@ == pixel_owners(chain.committed(), position)[i],
{
    let blocks = chain.get_blocks();
    let mut owners: Vec<HashBytes> = Vec::new();
    let mut b: usize = 0;
    while b < blocks.len()
        invariant
            blocks@ == chain.spec_blocks(),
            b <= blocks@.len(),
            owners@.len() == pixel_owners(chain_transactions(blocks@.take(b as int)), position).len(),
            forall|i: int| 0 <= i < owners@.len() ==> (#[trigger] owners@[i])@ == pixel_owners(
                chain_transactions(blocks@.take(b as int)),
                position,
            )[i],
        decreases blocks@.len() - b,
    {
        let transactions = blocks[b].get_transactions();
        let ghost before = chain_transactions(blocks@.take(b as int));
        let mut k: usize = 0;
        while k < transactions.len()
            invariant
                b < blocks@.len(),
                transactions@ == blocks@[b as int].spec_transactions(),
                before == chain_transactions(blocks@.take(b as int)),
                k <= transactions@.len(),
                owners@.len() == pixel_owners(before + transactions@.take(k as int), position).len(),
                forall|i: int| 0 <= i < owners@.len() ==> (#[trigger] owners@[i])@ == pixel_owners(
                    before + transactions@.take(k as int),
                    position,
                )[i],
            decreases transactions@.len() - k,
        {
            let t = &transactions[k];
            let ghost prefix = before + transactions@.take(k as int);
            let ghost next = before + transactions@.take(k + 1);
            assert(next.drop_last() =~= prefix);
            assert(next.last() == *t);
            let ghost rest = pixel_owners(prefix, position);
            if buys(t, position) {
                match buyer(t) {
                    Some(h) => {
                        let listed = owner_listed(&owners, &h);
                        if !listed {
                            assert(!rest.contains(h@)) by {
                                if rest.contains(h@) {
                                    let i = choose|i: int| 0 <= i < rest.len() && rest[i] == h@;
                                    assert(owners@[i]@ == h@);
                                }
                            }
                            owners.push(h);
                        } else {
                            proof {
                                let i = choose|i: int| 0 <= i < owners@.len() && (#[trigger] owners@[i])@ == h@;
                                assert(rest[i] == h@);
                                assert(rest.contains(h@));
                            }
                        }
                    },
                    None => {},
                }
            }
            k = k + 1;
        }
        assert(transactions@.take(transactions@.len() as int) =~= transactions@);
        assert(blocks@.take(b + 1).drop_last() =~= blocks@.take(b as int));
        b = b + 1;
    }
    assert(blocks@.take(blocks@.len() as int) =~= blocks@);
    owners
}

/// The number of distinct earlier owners of the pixel at `position`, the
/// buyer excluded.
pub fn prior_owners(chain: &Blockchain, position: Point, buyer: &Option<HashBytes>) -> (r: u64)
    ensures
        r == prior_owner_count(chain.committed(), position, buyer_view(*buyer)),
{
    let owners = pixel_owner_list(chain, position);
    let ghost spec_owners = pixel_owners(chain.committed(), position);
    match buyer {
        Some(h) => {
            if owner_listed(&owners, h) {
                let ghost i = choose|i: int| 0 <= i < owners@.len() && (#[trigger] owners@[i])@ == h@;
                assert(spec_owners[i] == h@);
                (owners.len() - 1) as u64
            } else {
                assert(!spec_owners.contains(h@)) by {
                    if spec_owners.contains(h@) {
                        let i = choose|i: int| 0 <= i < spec_owners.len() && spec_owners[i] == h@;
                        assert(owners@[i]@ == h@);
                    }
                }
                owners.len() as u64
            }
        },
        None => owners.len() as u64,
    }
}

/// Whether every pixel purchase of `t` pays its price on `chain`.
pub fn pixel_prices_paid(chain: &Blockchain, t: &Transaction) -> (r: bool)
    ensures
        r == pixel_prices_met(chain.committed(), *t),
{
    let b = buyer(t);
    let outputs = t.get_outputs();
    let mut j: usize = 0;
    while j < outputs.len()
        invariant
            outputs@ == t.spec_outputs(),
            buyer_view(b) == buyer_of(*t),
            j <= outputs@.len(),
            forall|i: int| 0 <= i < j ==> pixel_price_met(chain.committed(), buyer_of(*t), #[trigger] outputs@[i]),
        decreases outputs@.len() - j,
    {
        match outputs[j] {
            TransactionOutput::ToPixel { value, position, .. } => {
                let count = prior_owners(chain, position, &b);
                let cost = pixel_cost(position, count);
                let ghost root = choose|root: int| is_isqrt(scaled_distance_squared(position), root) && (if cost_of(
                    root,
                    count as int,
                ) <= i64::MAX {
                    cost == Some(cost_of(root, count as int) as i64)
                } else {
                    cost is None
                });
                proof {
                    assert forall|other: int| is_isqrt(scaled_distance_squared(position), other) implies other
                        == root by {
                        lemma_isqrt_monotone(scaled_distance_squared(position), scaled_distance_squared(position), root, other);
                        lemma_isqrt_monotone(scaled_distance_squared(position), scaled_distance_squared(position), other, root);
                    }
                }
                let paid = match cost {
                    Some(c) => value >= c,
                    None => false,
                };
                if !paid {
                    assert(!pixel_price_met(chain.committed(), buyer_of(*t), outputs@[j as int]));
                    return false;
                }
            },
            TransactionOutput::ToInput { .. } => {},
        }
        j = j + 1;
    }
    true
}

} // verus!
