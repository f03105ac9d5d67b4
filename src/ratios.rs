use vstd::prelude::*;
use vstd::arithmetic::div_mod::lemma_hoist_over_denominator;
use crate::model::{duplicate_vec, value_total, AccountId, GovernanceError, Work, WorkView};

verus! {

/// A ratio list is valid when its percentages sum to exactly 100.
pub open spec fn valid_ratios(s: Seq<(Seq<char>, u32)>) -> bool {
    value_total(s) == 100
}

/// An optional ratio list is valid when absent, or present and summing to 100.
pub open spec fn valid_opt_ratios(s: Option<Seq<(Seq<char>, u32)>>) -> bool {
    match s {
        Some(r) => valid_ratios(r),
        None => true,
    }
}

/// The share each of `people` participants gets under an equal split.
pub open spec fn equal_share(people: nat) -> u32 {
    (100int / people as int) as u32
}

/// The equal split of a work owned by `author` with `collaborators`:
/// the author first, then each collaborator in order, all with the same share.
pub open spec fn equal_split_of(author: Seq<char>, collaborators: Seq<Seq<char>>) -> Seq<(Seq<char>, u32)> {
    let share = equal_share(collaborators.len() + 1);
    seq![(author, share)] + collaborators.map_values(|c: Seq<char>| (c, share))
}

/// The ratios a payment for `w` is split by: its own, or else the equal split.
pub open spec fn payout_ratios(w: WorkView) -> Seq<(Seq<char>, u32)> {
    match w.ratios {
        Some(r) => r,
        None => equal_split_of(w.author.id, w.collaborators),
    }
}

/// What `pct` percent of `total` comes to, rounded down.
pub open spec fn share_of(total: u128, pct: u32) -> u128 {
    (total * pct / 100) as u128
}

/// One transfer per ratio entry, in order, of that entry's share of `total`.
pub open spec fn payouts_of(total: u128, ratios: Seq<(Seq<char>, u32)>) -> Seq<(Seq<char>, u128)> {
    ratios.map_values(|p: (Seq<char>, u32)| (p.0, share_of(total, p.1)))
}

proof fn lemma_total_bounds(s: Seq<(Seq<char>, u32)>)
    ensures
        0 <= value_total(s),
        forall|i: int| 0 <= i < s.len() ==> (#[trigger] s[i]).1 <= value_total(s),
    decreases s.len(),
{
    if s.len() > 0 {
        lemma_total_bounds(s.drop_last());
        assert forall|i: int| 0 <= i < s.len() implies (#[trigger] s[i]).1 <= value_total(s) by {
            if i < s.len() - 1 {
                assert(s[i] == s.drop_last()[i]);
            }
        }
    }
}

/// Tells whether the percentages of `ratios` sum to exactly 100.
pub fn ratios_sum_to_hundred(ratios: &Vec<(AccountId, u32)>) -> (r: bool)
    ensures
        r == valid_ratios(ratios.deep_view()),
{
    let ghost s = ratios.deep_view();
    let mut acc: u128 = 0;
    let mut i: usize = 0;
    while i < ratios.len()
        invariant
            s == ratios.deep_view(),
            i <= s.len(),
            acc == value_total(s.take(i as int)),
            acc <= i * 0xffff_ffffu128,
        decreases s.len() - i,
    {
        let x = ratios[i].1;
        assert(s.take(i + 1).drop_last() =~= s.take(i as int));
        assert(s[i as int].1 == x);
        assert(acc + x <= (i + 1) * 0xffff_ffffu128) by (nonlinear_arith)
            requires
                acc <= i * 0xffff_ffffu128,
                x <= 0xffff_ffffu128,
        ;
        assert(i + 1 <= 0xffff_ffff_ffff_ffffu128);
        assert((i + 1) * 0xffff_ffffu128 <= 0xffff_ffff_ffff_ffffu128 * 0xffff_ffffu128)
            by (nonlinear_arith)
            requires
                i + 1 <= 0xffff_ffff_ffff_ffffu128,
        ;
        acc = acc + x as u128;
        i += 1;
    }
    assert(s.take(i as int) =~= s);
    acc == 100
}

/// The ratio list that splits evenly among the author and the collaborators.
pub fn equal_split(author: &AccountId, collaborators: &Vec<AccountId>) -> (r: Vec<(AccountId, u32)>)
    ensures
        r.deep_view() == equal_split_of(author@, collaborators.deep_view()),
{
    let people: u128 = collaborators.len() as u128 + 1;
    let share: u32 = (100 / people) as u32;
    let ghost cs = collaborators.deep_view();
    let ghost target = equal_split_of(author@, cs);
    let mut r: Vec<(AccountId, u32)> = Vec::new();
    r.push((author.clone(), share));
    let mut i: usize = 0;
    while i < collaborators.len()
        invariant
            cs == collaborators.deep_view(),
            target == equal_split_of(author@, cs),
            share == equal_share(cs.len() + 1),
            i <= cs.len(),
            r@.len() == i + 1,
            forall|j: int| 0 <= j <= i ==> (#[trigger] r@[j]).deep_view() == target[j],
        decreases cs.len() - i,
    {
        r.push((collaborators[i].clone(), share));
        i += 1;
    }
    assert(r.deep_view() =~= target);
    r
}

/// The amount that `pct` percent of `total` comes to, rounded down,
/// computed without overflow for any total.
pub fn share_amount(total: u128, pct: u32) -> (r: u128)
    requires
        pct <= 100,
    ensures
        r == share_of(total, pct),
{
    let q = total / 100;
    let rem = total % 100;
    proof {
        let p = pct as int;
        assert(total == 100 * q + rem);
        assert(total * p == (q * p) * 100 + rem * p) by (nonlinear_arith)
            requires
                total == 100 * q + rem,
        ;
        lemma_hoist_over_denominator(rem * p, q * p, 100);
        assert(q * p <= total) by (nonlinear_arith)
            requires
                total == 100 * q + rem,
                0 <= rem,
                0 <= p <= 100,
                0 <= q,
        ;
        assert(rem * p <= 99 * 100) by (nonlinear_arith)
            requires
                0 <= rem < 100,
                0 <= p <= 100,
        ;
        assert(0 <= rem * p / 100 <= 99);
        assert(total * p / 100 <= total) by (nonlinear_arith)
            requires
                0 <= p <= 100,
                0 <= total,
        ;
    }
    q * pct as u128 + rem * pct as u128 / 100
}

/// Every percentage of the list is at most 100.
pub open spec fn shares_bounded(s: Seq<(Seq<char>, u32)>) -> bool {
    forall|i: int| 0 <= i < s.len() ==> (#[trigger] s[i]).1 <= 100
}

/// A valid ratio list has no percentage over 100.
pub proof fn lemma_valid_ratios_bounded(s: Seq<(Seq<char>, u32)>)
    requires
        valid_ratios(s),
    ensures
        shares_bounded(s),
{
    lemma_total_bounds(s);
}

/// An equal split has no share over 100.
pub proof fn lemma_equal_split_bounded(author: Seq<char>, collaborators: Seq<Seq<char>>)
    ensures
        shares_bounded(equal_split_of(author, collaborators)),
{
    let s = equal_split_of(author, collaborators);
    assert forall|i: int| 0 <= i < s.len() implies (#[trigger] s[i]).1 <= 100 by {
        assert(s[i].1 == equal_share(collaborators.len() + 1));
    }
}

/// One transfer per entry of `ratios`, in order, of that entry's share of
/// `total`, rounded down; what the rounding leaves is not paid out.
pub fn pay_out(total: u128, ratios: &Vec<(AccountId, u32)>) -> (r: Vec<(AccountId, u128)>)
    requires
        shares_bounded(ratios.deep_view()),
    ensures
        r.deep_view() == payouts_of(total, ratios.deep_view()),
{
    let ghost s = ratios.deep_view();
    let ghost target = payouts_of(total, s);
    let mut out: Vec<(AccountId, u128)> = Vec::new();
    let mut i: usize = 0;
    while i < ratios.len()
        invariant
            s == ratios.deep_view(),
            target == payouts_of(total, s),
            shares_bounded(s),
            i <= s.len(),
            out@.len() == i,
            forall|j: int| 0 <= j < i ==> (#[trigger] out@[j]).deep_view() == target[j],
        decreases s.len() - i,
    {
        assert(s[i as int].1 == ratios[i as int].1);
        let amount = share_amount(total, ratios[i].1);
        out.push((ratios[i].0.clone(), amount));
        i += 1;
    }
    assert(out.deep_view() =~= target);
    out
}

/// Splits `total` by explicit `ratios`: one transfer per entry, of that
/// entry's share. Fails with `ValidationFailed` exactly when the
/// percentages do not sum to 100.
pub fn split_payment(total: u128, ratios: &Vec<(AccountId, u32)>) -> (r: Result<Vec<(AccountId, u128)>, GovernanceError>)
    ensures
        valid_ratios(ratios.deep_view()) ==> (r matches Ok(p) && p.deep_view() == payouts_of(total, ratios.deep_view())),
        !valid_ratios(ratios.deep_view()) ==> r == Err::<Vec<(AccountId, u128)>, GovernanceError>(GovernanceError::ValidationFailed),
{
    if !ratios_sum_to_hundred(ratios) {
        return Err(GovernanceError::ValidationFailed);
    }
    proof {
        lemma_valid_ratios_bounded(ratios.deep_view());
    }
    Ok(pay_out(total, ratios))
}

/// The ratios a payment for `work` is split by.
pub fn payout_ratios_of(work: &Work) -> (r: Vec<(AccountId, u32)>)
    ensures
        r.deep_view() == payout_ratios(work@),
{
    match &work.ratios {
        Some(rs) => duplicate_vec(rs),
        None => equal_split(&work.author.id, &work.collaborators),
    }
}

} // verus!
