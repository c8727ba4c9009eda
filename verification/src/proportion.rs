//! The percentages by which a group of entities and its sibling share a
//! region.

use vstd::prelude::*;
use vstd::arithmetic::div_mod::lemma_fundamental_div_mod_converse;

verus! {

/// The least share that a starved group is raised to, in percent.
pub const STARVED_SHARE: u16 = 5;

/// The share that the sibling of a starved group keeps, in percent.
pub const DOMINANT_SHARE: u16 = 95;

/// A group counts as comfortably large when its share exceeds this, in
/// percent.
pub const COMFORTABLE_SHARE: u16 = 10;

/// The whole hundredths of `total` that `part` amounts to, at most 100; 0 when
/// `total` is 0.
pub open spec fn raw_percent(part: nat, total: nat) -> nat {
    if total == 0 {
        0
    } else if part >= total {
        100
    } else {
        part * 100 / total
    }
}

/// The percentages that are emitted for the raw percentages `first` and
/// `second` of two sibling groups. A group under 5 whose sibling is over 10 is
/// raised to 5 against 95; otherwise each percentage is at least 1.
pub open spec fn adjusted(first: nat, second: nat) -> (nat, nat) {
    if first < 5 && second > 10 {
        (5, 95)
    } else if second < 5 && first > 10 {
        (95, 5)
    } else {
        (
            if first < 1 {
                1
            } else {
                first
            },
            if second < 1 {
                1
            } else {
                second
            },
        )
    }
}

/// The percentages by which a group of weight `part` and its sibling share
/// the region of their parent of weight `total`.
pub open spec fn shares(part: nat, total: nat) -> (nat, nat) {
    adjusted(raw_percent(part, total), (100 - raw_percent(part, total)) as nat)
}

/// A raw percentage is a percentage.
pub proof fn lemma_raw_percent_bounds(part: nat, total: nat)
    ensures
        raw_percent(part, total) <= 100,
{
    if total != 0 && part < total {
        assert(part * 100 / total < 100) by (nonlinear_arith)
            requires
                part < total,
        ;
    }
}

/// For raw percentages that add up to 100, the emitted pair also adds up to
/// 100, and it is the raw pair with the first percentage moved into the range
/// from 5 to 95.
pub proof fn lemma_adjusted_complementary(first: nat)
    requires
        first <= 100,
    ensures
        adjusted(first, (100 - first) as nat).0 + adjusted(first, (100 - first) as nat).1 == 100,
        5 <= adjusted(first, (100 - first) as nat).0 <= 95,
        5 <= first <= 95 ==> adjusted(first, (100 - first) as nat).0 == first,
        first < 5 ==> adjusted(first, (100 - first) as nat).0 == 5,
        first > 95 ==> adjusted(first, (100 - first) as nat).0 == 95,
{
}

/// The shares of two sibling groups add up to 100, and neither is under 5.
pub proof fn lemma_shares_bounds(part: nat, total: nat)
    ensures
        shares(part, total).0 + shares(part, total).1 == 100,
        5 <= shares(part, total).0 <= 95,
{
    lemma_raw_percent_bounds(part, total);
    lemma_adjusted_complementary(raw_percent(part, total));
}

/// The whole hundredths of `total` that `part` amounts to, at most 100; 0 when
/// `total` is 0.
pub fn percent_of(part: u128, total: u128) -> (percent: u16)
    ensures
        percent == raw_percent(part as nat, total as nat),
{
    if total == 0 {
        0
    } else if part >= total {
        100
    } else if part <= u128::MAX / 100 {
        proof {
            lemma_raw_percent_bounds(part as nat, total as nat);
        }
        (part * 100 / total) as u16
    } else {
        hundredfold_quotient(part, total)
    }
}

/// `part * 100 / total` for a `part` below `total`, computed without forming
/// the product: `part` is added a hundred times, and every time that the
/// running remainder passes `total` the quotient grows by one.
fn hundredfold_quotient(part: u128, total: u128) -> (quotient: u16)
    requires
        part < total,
    ensures
        quotient == part * 100 / (total as int),
{
    let mut quotient: u16 = 0;
    let mut remainder: u128 = 0;
    let mut rounds: u16 = 0;
    while rounds < 100
        invariant
            part < total,
            quotient <= rounds <= 100,
            remainder < total,
            rounds * part == quotient * total + remainder,
        decreases 100 - rounds,
    {
        proof {
            assert((rounds + 1) * part == rounds * part + part) by (nonlinear_arith);
            assert((quotient + 1) * total == quotient * total + total) by (nonlinear_arith);
        }
        if part >= total - remainder {
            remainder = part - (total - remainder);
            quotient = quotient + 1;
        } else {
            remainder = remainder + part;
        }
        rounds = rounds + 1;
    }
    proof {
        assert(part * 100 == quotient * total + remainder) by (nonlinear_arith)
            requires
                100 * part == quotient * total + remainder,
        ;
        lemma_fundamental_div_mod_converse(
            part * 100,
            total as int,
            quotient as int,
            remainder as int,
        );
    }
    quotient
}

/// The percentages that are emitted for the raw percentages `first` and
/// `second` of two sibling groups.
pub fn adjust_percentages(first: u16, second: u16) -> (emitted: (u16, u16))
    ensures
        (emitted.0 as nat, emitted.1 as nat) == adjusted(first as nat, second as nat),
{
    if first < STARVED_SHARE && second > COMFORTABLE_SHARE {
        (STARVED_SHARE, DOMINANT_SHARE)
    } else if second < STARVED_SHARE && first > COMFORTABLE_SHARE {
        (DOMINANT_SHARE, STARVED_SHARE)
    } else {
        (
            if first < 1 {
                1
            } else {
                first
            },
            if second < 1 {
                1
            } else {
                second
            },
        )
    }
}

/// The percentages by which a group of weight `part` and its sibling share
/// the region of their parent of weight `total`.
pub fn split_percentages(part: u128, total: u128) -> (emitted: (u16, u16))
    ensures
        (emitted.0 as nat, emitted.1 as nat) == shares(part as nat, total as nat),
        emitted.0 + emitted.1 == 100,
        5 <= emitted.0 <= 95,
{
    proof {
        lemma_shares_bounds(part as nat, total as nat);
    }
    let first: u16 = percent_of(part, total);
    let second: u16 = 100u16.saturating_sub(first);
    adjust_percentages(first, second)
}

} // verus!
