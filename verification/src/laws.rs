//! What holds of every state and every ledger: the invariants and the laws
//! that relate the calls.

use crate::election::{least_total, lemma_least_total};
use crate::exposure::ExposureView;
use crate::ledger::{
    chunk_kton, chunk_ring, deposit_value, is_due, is_due_kton, is_due_ring, is_live, is_locked,
    is_mature, lemma_clear_mature_wf, lemma_deposits_nonneg, lemma_promised_wf, min_balance,
    LedgerView, TimeDepositItem, UnlockChunk,
};
use crate::module::{
    active_kton_of, active_ring_of, lemma_pool_bounds, lemma_with_ledger_wf, ModuleView,
};
use crate::phragmen::{AssignmentView, Staked};
use crate::slashing::{lemma_part, lemma_slash_wf, spec_part};
use crate::staking::{bond_ring_actions, deposit_fits, lemma_first_ledger_wf, lemma_with_pair_wf};
use crate::sums::{
    lemma_filter_all, lemma_filter_none, lemma_filter_passes, lemma_sum_bounds_entry,
    lemma_sum_empty, lemma_sum_one, lemma_sum_push, sum_of,
};
use crate::types::{
    AccountId, Action, Balance, EraIndex, Moment, Origin, RewardDestination, StakingBalance,
    MAX_PROMISE_MONTHS, MIN_DEPOSIT_MONTHS,
};
use vstd::prelude::*;

verus! {

/// In a well-formed state every ledger has its deposits within its active
/// Ring and its active Ring within its total, deposit items that add up to
/// its deposit Ring, and totals that are what is active plus what is
/// unlocking; and each pool is the sum of what is active in all ledgers.
pub proof fn lemma_state_invariants(s: ModuleView, controller: AccountId)
    requires
        s.wf(),
        s.ledger.contains(controller),
    ensures
        ({
            let l = s.ledger.get(controller).unwrap();
            &&& l.active_deposit_ring <= l.active_ring <= l.total_ring
            &&& l.active_kton <= l.total_kton
            &&& sum_of(l.deposit_items, deposit_value()) == l.active_deposit_ring
            &&& l.total_ring == l.active_ring + sum_of(l.unlocking, chunk_ring())
            &&& l.total_kton == l.active_kton + sum_of(l.unlocking, chunk_kton())
            &&& l.active_ring <= s.ring_pool
            &&& l.active_kton <= s.kton_pool
        }),
        s.ring_pool == sum_of(s.ledger.vals, active_ring_of()),
        s.kton_pool == sum_of(s.ledger.vals, active_kton_of()),
{
    let i = s.ledger.index(controller);
    assert(s.ledger.vals[i].wf());
    lemma_pool_bounds(s, i);
}

/// In a well-formed state the slot stake is the least total among the
/// exposures of the elected validators: none of them has less, and where
/// there is one, one has exactly that.
pub proof fn lemma_slot_stake_invariant(s: ModuleView)
    requires
        s.wf(),
    ensures
        forall|k: int|
            0 <= k < s.current_elected.len() ==> s.slot_stake <= s.exposure_of_staker(
                #[trigger] s.current_elected[k],
            ).total,
        s.current_elected.len() > 0 ==> exists|k: int|
            0 <= k < s.current_elected.len() && s.exposure_of_staker(
                #[trigger] s.current_elected[k],
            ).total == s.slot_stake,
{
    assert forall|k: int| 0 <= k < s.current_elected.len() implies s.slot_stake
        <= s.exposure_of_staker(#[trigger] s.current_elected[k]).total by {
        assert(s.stakers.contains(s.current_elected[k]));
    }
    if s.current_elected.len() > 0 {
        let k = choose|k: int|
            0 <= k < s.current_elected.len() && s.stakers.get(
                #[trigger] s.current_elected[k],
            ).unwrap().total == s.slot_stake;
        assert(s.stakers.contains(s.current_elected[k]));
        assert(s.exposure_of_staker(s.current_elected[k]).total == s.slot_stake);
    }
}

/// Bonding with a promise under three months makes no deposit and mints no
/// Kton: the only thing asked of the runtime is the lock.
pub proof fn lemma_bond_without_promise(
    stash: AccountId,
    value: StakingBalance,
    months: u32,
    now: Moment,
    free: Balance,
)
    requires
        months < MIN_DEPOSIT_MONTHS,
    ensures
        ModuleView::first_ledger(stash, value, months, now, free).deposit_items
            == Seq::<TimeDepositItem>::empty(),
        ModuleView::first_ledger(stash, value, months, now, free).active_deposit_ring == 0,
        ModuleView::bond_actions(stash, value, months, now, free).len() == 1,
        !(ModuleView::bond_actions(stash, value, months, now, free)[0] is MintKton),
{
}

/// A promise under three months mints no Kton and makes no deposit,
/// whatever is bonded and whatever the ledger holds: the bonus is nothing,
/// the runtime is asked for the lock alone, and the deposits and all of the
/// ledger's Kton stay as they are.
pub proof fn lemma_no_promise_no_kton(l: LedgerView, value: Balance, months: u32, now: Moment)
    requires
        months < MIN_DEPOSIT_MONTHS,
    ensures
        LedgerView::bond_bonus(value, months) == 0,
        l.bond_ring(value, months, now).deposit_items == l.deposit_items,
        l.bond_ring(value, months, now).active_deposit_ring == l.active_deposit_ring,
        l.bond_ring(value, months, now).active_kton == l.active_kton,
        l.bond_ring(value, months, now).total_kton == l.total_kton,
        bond_ring_actions(l, value, months).len() == 1,
        !(bond_ring_actions(l, value, months)[0] is MintKton),
{
}

/// Bonding Ring keeps a ledger's invariant. The active and the total Ring
/// grow by the value; the deposit Ring grows by it where the promise is of
/// three months and more, with one deposit of the value put last, and stays
/// with the deposits as they are where it is shorter. Kton and what is
/// unlocking stay.
pub proof fn lemma_bond_ring(l: LedgerView, value: Balance, months: u32, now: Moment)
    requires
        l.wf(),
        months <= MAX_PROMISE_MONTHS,
        l.total_ring + value <= u128::MAX,
        deposit_fits(months, now),
    ensures
        l.bond_ring(value, months, now).wf(),
        l.bond_ring(value, months, now).active_ring == l.active_ring + value,
        l.bond_ring(value, months, now).total_ring == l.total_ring + value,
        months >= MIN_DEPOSIT_MONTHS ==> {
            &&& l.bond_ring(value, months, now).active_deposit_ring == l.active_deposit_ring
                + value
            &&& l.bond_ring(value, months, now).deposit_items == l.deposit_items.push(
                TimeDepositItem::promised(value, now, months),
            )
        },
        months < MIN_DEPOSIT_MONTHS ==> {
            &&& l.bond_ring(value, months, now).active_deposit_ring == l.active_deposit_ring
            &&& l.bond_ring(value, months, now).deposit_items == l.deposit_items
        },
        l.bond_ring(value, months, now).active_kton == l.active_kton,
        l.bond_ring(value, months, now).total_kton == l.total_kton,
        l.bond_ring(value, months, now).unlocking == l.unlocking,
        l.bond_ring(value, months, now).stash == l.stash,
{
    if months >= MIN_DEPOSIT_MONTHS {
        lemma_promised_wf(value, now, months);
        lemma_sum_push(
            l.deposit_items,
            TimeDepositItem::promised(value, now, months),
            deposit_value(),
        );
    }
}

/// Bonding Kton keeps a ledger's invariant. The active and the total Kton
/// grow by the value; the Ring, the deposits and what is unlocking stay.
pub proof fn lemma_bond_kton(l: LedgerView, value: Balance)
    requires
        l.wf(),
        l.total_kton + value <= u128::MAX,
    ensures
        l.bond_kton(value).wf(),
        l.bond_kton(value).active_kton == l.active_kton + value,
        l.bond_kton(value).total_kton == l.total_kton + value,
        l.bond_kton(value).active_ring == l.active_ring,
        l.bond_kton(value).total_ring == l.total_ring,
        l.bond_kton(value).active_deposit_ring == l.active_deposit_ring,
        l.bond_kton(value).deposit_items == l.deposit_items,
        l.bond_kton(value).unlocking == l.unlocking,
        l.bond_kton(value).stash == l.stash,
{
}

/// Bonding keeps the state's invariant, and so each pool the sum of what is
/// active in all ledgers. Bonding Ring leaves the Kton pool as it is, and
/// bonding Kton the Ring pool and mints nothing.
pub proof fn lemma_bond_keeps_pools(
    s: ModuleView,
    stash: AccountId,
    controller: AccountId,
    value: StakingBalance,
    payee: RewardDestination,
    months: u32,
    now: Moment,
    free: Balance,
)
    requires
        s.wf(),
        s.bond_error(Origin::Signed(stash), controller, months).is_none(),
        s.bond_fits(value, free),
        value is Ring ==> deposit_fits(months, now),
    ensures
        s.bond(stash, controller, value, payee, months, now, free).wf(),
        value is Ring ==> s.bond(stash, controller, value, payee, months, now, free).kton_pool
            == s.kton_pool,
        value is Kton ==> s.bond(stash, controller, value, payee, months, now, free).ring_pool
            == s.ring_pool,
        value is Kton ==> forall|i: int|
            0 <= i < ModuleView::bond_actions(stash, value, months, now, free).len() ==> !((
            #[trigger] ModuleView::bond_actions(stash, value, months, now, free)[i]) is MintKton),
{
    lemma_first_ledger_wf(stash, value, months, now, free);
    lemma_with_pair_wf(
        s,
        stash,
        controller,
        payee,
        ModuleView::first_ledger(stash, value, months, now, free),
    );
}

/// Bonding more keeps the state's invariant, and so each pool the sum of what
/// is active in all ledgers. Bonding more Ring leaves the Kton pool and the
/// ledger's Kton as they are, and bonding more Kton the Ring pool and the
/// ledger's Ring, and mints nothing.
pub proof fn lemma_bond_extra_keeps_pools(
    s: ModuleView,
    stash: AccountId,
    value: StakingBalance,
    months: u32,
    now: Moment,
    free: Balance,
)
    requires
        s.wf(),
        s.bond_extra_error(Origin::Signed(stash), months).is_none(),
        s.bond_extra_fits(stash, value, free),
        value is Ring ==> deposit_fits(months, now),
    ensures
        s.bond_extra(stash, value, months, now, free).wf(),
        value is Ring ==> {
            &&& s.bond_extra(stash, value, months, now, free).kton_pool == s.kton_pool
            &&& s.bond_extra(stash, value, months, now, free).ledger_of_stash(
                stash,
            ).unwrap().active_kton == s.ledger_of_stash(stash).unwrap().active_kton
        },
        value is Kton ==> {
            &&& s.bond_extra(stash, value, months, now, free).ring_pool == s.ring_pool
            &&& s.bond_extra(stash, value, months, now, free).ledger_of_stash(
                stash,
            ).unwrap().active_ring == s.ledger_of_stash(stash).unwrap().active_ring
            &&& forall|i: int|
                0 <= i < s.bond_extra_actions(stash, value, months, now, free).len() ==> !((
                #[trigger] s.bond_extra_actions(stash, value, months, now, free)[i]) is MintKton)
        },
{
    let c = s.bonded.get(stash).unwrap();
    let j = s.bonded.index(stash);
    assert(s.ledger.contains(s.bonded.vals[j]));
    let i = s.ledger.index(c);
    let l = s.ledger.vals[i];
    assert(l.wf());
    lemma_pool_bounds(s, i);
    match (value, ModuleView::extra(l, value, free)) {
        (StakingBalance::Ring(_), Some(extra)) => {
            lemma_bond_ring(l, extra, months, now);
            lemma_with_ledger_wf(s, c, l.bond_ring(extra, months, now));
        },
        (StakingBalance::Kton(_), Some(extra)) => {
            lemma_bond_kton(l, extra);
            lemma_with_ledger_wf(s, c, l.bond_kton(extra));
        },
        (_, None) => {},
    }
}

/// Clearing the mature deposits of a ledger twice is clearing them once.
pub proof fn lemma_clear_mature_idempotent(l: LedgerView, now: Moment)
    requires
        l.wf(),
    ensures
        l.clear_mature(now).clear_mature(now) == l.clear_mature(now),
{
    let once = l.clear_mature(now);
    lemma_clear_mature_wf(l, now);
    lemma_filter_passes(l.deposit_items, is_live(now));
    assert forall|i: int| 0 <= i < once.deposit_items.len() implies is_live(now)(
        #[trigger] once.deposit_items[i],
    ) by {}
    assert forall|i: int| 0 <= i < once.deposit_items.len() implies !is_mature(now)(
        #[trigger] once.deposit_items[i],
    ) by {
        assert(is_live(now)(once.deposit_items[i]));
    }
    lemma_filter_all(once.deposit_items, is_live(now));
    lemma_filter_none(once.deposit_items, is_mature(now));
    lemma_sum_empty::<TimeDepositItem>(deposit_value());
}

/// Claiming the mature deposits twice leaves the state that claiming them
/// once leaves.
pub proof fn lemma_claim_mature_deposits_idempotent(s: ModuleView, who: AccountId, now: Moment)
    requires
        s.wf(),
    ensures
        s.clear_mature_deposits(who, now).clear_mature_deposits(who, now)
            == s.clear_mature_deposits(who, now),
{
    match s.ledger.get(who) {
        Some(l) => {
            let i = s.ledger.index(who);
            assert(s.ledger.vals[i].wf());
            lemma_clear_mature_idempotent(l, now);
            lemma_clear_mature_wf(l, now);
            lemma_pool_bounds(s, i);
            let once = s.clear_mature_deposits(who, now);
            s.ledger.lemma_put(who, l.clear_mature(now));
            let twice = once.clear_mature_deposits(who, now);
            assert(once.ledger.get(who) == Some(l.clear_mature(now)));
            assert(twice.ledger.keys == once.ledger.keys);
            assert(twice.ledger.vals =~= once.ledger.vals);
        },
        None => {},
    }
}

/// A slash of nothing leaves a ledger as it is, takes nothing and asks
/// nothing of the runtime.
pub proof fn lemma_slash_nothing(l: LedgerView)
    requires
        l.wf(),
    ensures
        l.slash(0) == l,
        l.slashed(0) == 0,
        l.slash_actions(0) == Seq::<Action>::empty(),
{
    assert(l.slash_actions(0) =~= Seq::<Action>::empty());
}

/// A slash of nothing leaves the state as it is.
pub proof fn lemma_slash_individual_nothing(s: ModuleView, stash: AccountId)
    requires
        s.wf(),
    ensures
        s.slash_individual(stash, 0) == s,
        s.slash_applied(stash, 0) == 0,
        s.slash_individual_actions(stash, 0) == Seq::<Action>::empty(),
{
    match s.ledger_of_stash(stash) {
        Some(l) => {
            let c = s.bonded.get(stash).unwrap();
            let i = s.ledger.index(c);
            assert(s.ledger.vals[i].wf());
            lemma_slash_nothing(l);
            lemma_pool_bounds(s, i);
            let t = s.slash_individual(stash, 0);
            assert(t.ledger.vals =~= s.ledger.vals);
        },
        None => {},
    }
}

/// A slash by the fraction zero is no slash: the validator and the
/// nominators that it exposed keep their ledgers, nothing is taken and
/// nothing is asked of the runtime.
pub proof fn lemma_slash_by_zero(s: ModuleView, stash: AccountId, exposure: ExposureView, upto: int)
    requires
        s.wf(),
    ensures
        s.slash_validator(stash, 0, exposure, upto) == s,
        s.all_slashed(stash, 0, exposure, upto) == 0,
        s.slash_validator_actions(stash, 0, exposure, upto) == Seq::<Action>::empty(),
    decreases upto,
{
    if upto <= 0 {
        lemma_part(0, exposure.own);
        lemma_slash_individual_nothing(s, stash);
    } else {
        lemma_slash_by_zero(s, stash, exposure, upto - 1);
        lemma_part(0, exposure.others[upto - 1].value);
        lemma_slash_individual_nothing(s, exposure.others[upto - 1].who);
        assert(Seq::<Action>::empty() + Seq::<Action>::empty() =~= Seq::<Action>::empty());
    }
}

/// A slash by the whole fraction is a slash of all that was exposed.
pub proof fn lemma_slash_by_one(l: LedgerView, exposed: Balance)
    ensures
        spec_part(1_000_000_000, exposed) == exposed,
        l.slash(spec_part(1_000_000_000, exposed)) == l.slash(exposed),
{
    lemma_part(1_000_000_000, exposed);
}

/// A slash of no less than the ledger has active takes all that is active
/// and leaves the unlocking chunks untouched: the totals are what is
/// unlocking, and a deposit that is left holds nothing.
pub proof fn lemma_slash_everything(l: LedgerView, amount: Balance)
    requires
        l.wf(),
        amount >= l.active_ring + l.active_kton,
    ensures
        l.slash(amount).active_ring == 0,
        l.slash(amount).active_deposit_ring == 0,
        l.slash(amount).active_kton == 0,
        l.slash(amount).unlocking == l.unlocking,
        l.slash(amount).total_ring == sum_of(l.unlocking, chunk_ring()),
        l.slash(amount).total_kton == sum_of(l.unlocking, chunk_kton()),
        l.slash(amount).wf(),
        forall|i: int|
            0 <= i < l.slash(amount).deposit_items.len() ==> (
            #[trigger] l.slash(amount).deposit_items[i]).value == 0,
{
    lemma_slash_wf(l, amount);
    let after = l.slash(amount);
    lemma_deposits_nonneg(after.deposit_items);
    assert forall|i: int| 0 <= i < after.deposit_items.len() implies (
    #[trigger] after.deposit_items[i]).value == 0 by {
        lemma_sum_bounds_entry(after.deposit_items, i, deposit_value());
    }
}

/// A slash never touches what is unlocking, whatever its amount.
pub proof fn lemma_slash_keeps_unlocking(l: LedgerView, amount: Balance)
    requires
        l.wf(),
    ensures
        l.slash(amount).unlocking == l.unlocking,
        l.slash(amount).total_ring - l.slash(amount).active_ring == l.total_ring - l.active_ring,
        l.slash(amount).total_kton - l.slash(amount).active_kton == l.total_kton - l.active_kton,
        l.slashed(amount) <= amount,
{
    lemma_slash_wf(l, amount);
}

/// Chunks of which no due one is Ring hold no due Ring, and chunks of which
/// no due one is Kton hold no due Kton.
pub proof fn lemma_nothing_due(chunks: Seq<UnlockChunk>, era: EraIndex)
    ensures
        chunks.filter(is_due_ring(era)).len() == 0 ==> sum_of(
            chunks.filter(is_due(era)),
            chunk_ring(),
        ) == 0,
        chunks.filter(is_due_kton(era)).len() == 0 ==> sum_of(
            chunks.filter(is_due(era)),
            chunk_kton(),
        ) == 0,
    decreases chunks.len(),
{
    reveal(Seq::filter);
    if chunks.len() > 0 {
        let front = chunks.drop_last();
        let last = chunks.last();
        lemma_nothing_due(front, era);
        if is_due(era)(last) {
            lemma_sum_push(front.filter(is_due(era)), last, chunk_ring());
            lemma_sum_push(front.filter(is_due(era)), last, chunk_kton());
        }
    }
}

/// The lock follows the total: a withdrawal that sets no lock anew for a
/// currency leaves the ledger's total of that currency as it was.
pub proof fn lemma_withdraw_keeps_unlocked_totals(l: LedgerView, era: EraIndex)
    requires
        l.wf(),
    ensures
        !l.ring_is_due(era) ==> l.withdraw_unbonded(era).total_ring == l.total_ring,
        !l.kton_is_due(era) ==> l.withdraw_unbonded(era).total_kton == l.total_kton,
{
    lemma_nothing_due(l.unlocking, era);
}

/// The election looks at the validators, the nominators, the two counts,
/// whether the module equalizes, the pairings, the ledgers and the pools, and
/// at nothing else: two states that agree on these have the same result, the
/// same exposures and the same slot stake.
pub proof fn lemma_election_deterministic(a: ModuleView, b: ModuleView)
    requires
        a.validators == b.validators,
        a.nominators == b.nominators,
        a.validator_count == b.validator_count,
        a.minimum_validator_count == b.minimum_validator_count,
        a.equalize == b.equalize,
        a.bonded == b.bonded,
        a.ledger == b.ledger,
        a.ring_pool == b.ring_pool,
        a.kton_pool == b.kton_pool,
    ensures
        a.election() == b.election(),
        a.elected() == b.elected(),
        a.election().is_some() ==> a.exposures(a.election().unwrap()) == b.exposures(
            b.election().unwrap(),
        ),
        a.select_validators().slot_stake == if a.election().is_some() {
            b.select_validators().slot_stake
        } else {
            a.slot_stake
        },
        a.select_validators().current_elected == if a.election().is_some() {
            b.select_validators().current_elected
        } else {
            a.current_elected
        },
{
    assert forall|stash: AccountId| a.power_of(stash) == b.power_of(stash) by {}
    assert(a.candidates() =~= b.candidates());
    assert(a.nominations() =~= b.nominations());
    if a.election().is_some() {
        let result = a.election().unwrap();
        assert forall|i: int| 0 <= i < result.assignments.len() implies (
        #[trigger] a.staked(result)[i]) == b.staked(result)[i] by {
            let x = result.assignments[i];
            lemma_staked_edges_frame(a, b, x, result.winners, x.shares.len() as int);
        }
        assert(a.staked(result) =~= b.staked(result));
        assert(a.supports(result) =~= b.supports(result));
        assert(a.exposures(result) =~= b.exposures(result));
    }
}

/// The edges that an assignment makes depend on the nominator's power only.
pub proof fn lemma_staked_edges_frame(
    a: ModuleView,
    b: ModuleView,
    x: AssignmentView,
    winners: Seq<Staked>,
    upto: int,
)
    requires
        forall|stash: AccountId| a.power_of(stash) == b.power_of(stash),
    ensures
        a.staked_edges(x, winners, upto) == b.staked_edges(x, winners, upto),
    decreases upto,
{
    if upto > 0 {
        lemma_staked_edges_frame(a, b, x, winners, upto - 1);
        assert(a.power_of(x.who) == b.power_of(x.who));
    }
}

/// After the validators are chosen the slot stake is the least total among
/// the exposures of the winners: no winner has less, and where there is a
/// winner one has exactly that.
pub proof fn lemma_slot_stake_is_least(s: ModuleView)
    requires
        s.election().is_some(),
    ensures
        ({
            let exposures = s.exposures(s.election().unwrap());
            &&& s.select_validators().slot_stake == least_total(exposures, exposures.len() as int)
            &&& forall|k: int|
                0 <= k < exposures.len() ==> s.select_validators().slot_stake <= (
                #[trigger] exposures[k]).total
            &&& exposures.len() > 0 ==> exists|k: int|
                0 <= k < exposures.len() && (#[trigger] exposures[k]).total
                    == s.select_validators().slot_stake
        }),
{
    let exposures = s.exposures(s.election().unwrap());
    lemma_least_total(exposures, exposures.len() as int);
}

/// Bonding Ring without a promise, unbonding it, and withdrawing in any era
/// that is not before the one in which it is free (the bonding duration
/// after the unbonding) leaves the pairings, the ledgers and the pools as
/// they were, and asks the runtime to take the locks off the stash. No call
/// of the three asks the runtime to move funds: each asks for locks alone.
pub proof fn lemma_bond_unbond_withdraw(
    s: ModuleView,
    stash: AccountId,
    controller: AccountId,
    value: Balance,
    payee: RewardDestination,
    now: Moment,
    free: Balance,
    era: EraIndex,
)
    requires
        s.wf(),
        s.bond_error(Origin::Signed(stash), controller, 0).is_none(),
        s.bond_fits(StakingBalance::Ring(value), free),
        era >= s.unlock_era(),
    ensures
        ({
            let bonded = s.bond(stash, controller, StakingBalance::Ring(value), payee, 0, now, free);
            let unbonded = bonded.unbond(controller, StakingBalance::Ring(value), now);
            let later = ModuleView { current_era: era, ..unbonded };
            let withdrawn = later.withdraw_unbonded(controller);
            &&& ModuleView::bond_actions(stash, StakingBalance::Ring(value), 0, now, free) == seq![
                Action::SetRingLock { who: stash, amount: min_balance(value, free) },
            ]
            &&& forall|i: int|
                0 <= i < bonded.unbond_actions(
                    controller,
                    StakingBalance::Ring(value),
                    now,
                ).len() ==> (#[trigger] bonded.unbond_actions(
                    controller,
                    StakingBalance::Ring(value),
                    now,
                )[i]) is SetRingLock
            &&& withdrawn.bonded == s.bonded
            &&& withdrawn.ledger == s.ledger
            &&& withdrawn.ring_pool == s.ring_pool
            &&& withdrawn.kton_pool == s.kton_pool
            &&& !withdrawn.payee.contains(stash)
            &&& later.withdraw_unbonded_actions(controller) == seq![
                Action::RemoveRingLock { who: stash },
                Action::RemoveKtonLock { who: stash },
            ]
        }),
{
    let m = min_balance(value, free);
    let first = ModuleView::first_ledger(stash, StakingBalance::Ring(value), 0, now, free);
    lemma_first_ledger_wf(stash, StakingBalance::Ring(value), 0, now, free);
    lemma_with_pair_wf(s, stash, controller, payee, first);
    let bonded = s.bond(stash, controller, StakingBalance::Ring(value), payee, 0, now, free);
    s.bonded.lemma_put(stash, controller);
    s.ledger.lemma_put(controller, first);
    s.payee.lemma_put(stash, payee);
    let n = s.ledger.keys.len() as int;
    bonded.ledger.lemma_index_unique(controller, n);
    bonded.bonded.lemma_index_unique(stash, s.bonded.keys.len() as int);

    // Unbonding: nothing is mature, and all that was bonded starts unbonding.
    lemma_filter_all(first.deposit_items, is_live(now));
    lemma_filter_none(first.deposit_items, is_mature(now));
    lemma_sum_empty::<TimeDepositItem>(deposit_value());
    assert(first.clear_mature(now) == first);
    let after = bonded.unbond_ledger(controller, StakingBalance::Ring(value), now);
    let unbonded = bonded.unbond(controller, StakingBalance::Ring(value), now);
    bonded.ledger.lemma_put(controller, after);
    unbonded.ledger.lemma_index_unique(controller, n);
    let later = ModuleView { current_era: era, ..unbonded };

    // Withdrawing: the one chunk, if any, is due.
    assert forall|i: int| 0 <= i < after.unlocking.len() implies is_due(era)(
        #[trigger] after.unlocking[i],
    ) && !is_locked(era)(after.unlocking[i]) by {}
    lemma_filter_none(after.unlocking, is_locked(era));
    lemma_filter_all(after.unlocking, is_due(era));
    assert(after.withdraw_unbonded(era).is_empty());

    // Removing the stash takes the two entries that bonding added.
    let withdrawn = later.withdraw_unbonded(controller);
    assert(withdrawn == later.kill_stash(stash));
    assert(later.bonded.del(stash).keys =~= s.bonded.keys);
    assert(later.bonded.del(stash).vals =~= s.bonded.vals);
    assert(later.ledger.del(controller).keys =~= s.ledger.keys);
    assert(later.ledger.del(controller).vals =~= s.ledger.vals);
    later.payee.lemma_del(stash);
    if m != 0 {
        let chunk = UnlockChunk { value: StakingBalance::Ring(m), era: bonded.unlock_era() };
        lemma_sum_one(chunk, chunk_ring());
        assert(after.unlocking =~= seq![chunk]);
    }
}

} // verus!
