//! Account-side operations: first-fit coin selection over the unspent
//! outputs of an address, and building and persisting a spend from
//! signed inputs.

use vstd::prelude::*;
use crate::errors::LedgerError;
use crate::ledger::{
    candidates, inputs_spendable, lemma_sum_nonneg, row_valid, sum_values, Ledger,
};
use crate::transactions::{
    clone_input, input_authorized, lemma_record_round_trip, lemma_sort_inputs_pred,
    lemma_sort_inputs_sorted, lemma_validate_after_hash, lists_canonical, rehashed, record_of,
    sort_inputs, sort_inputs_spec, Input, InputV, OutputV, Transaction,
};

verus! {

// ---------------------------------------------------------------------------
// First-fit selection
// ---------------------------------------------------------------------------

/// First-fit accumulation over a candidate list: candidates are taken in
/// order, each one's value accumulated, and the take stops as soon as
/// the accumulated total reaches `amount`.  When the candidates are
/// exhausted first, all of them are taken.
pub open spec fn take_needed(c: Seq<InputV>, amount: int) -> Seq<InputV>
    decreases c.len(),
{
    if c.len() == 0 {
        Seq::empty()
    } else if amount <= c[0].value {
        seq![c[0]]
    } else {
        seq![c[0]] + take_needed(c.drop_first(), amount - c[0].value)
    }
}

/// The sum of a single input is its value.
pub proof fn lemma_sum_singleton(x: InputV)
    ensures
        sum_values(seq![x]) == x.value,
{
    assert(seq![x].drop_last() =~= Seq::<InputV>::empty());
    assert(sum_values(Seq::<InputV>::empty()) == 0);
}

/// Sums split over concatenation.
pub proof fn lemma_sum_concat(s1: Seq<InputV>, s2: Seq<InputV>)
    ensures
        sum_values(s1 + s2) == sum_values(s1) + sum_values(s2),
    decreases s2.len(),
{
    if s2.len() == 0 {
        assert(s1 + s2 =~= s1);
    } else {
        lemma_sum_concat(s1, s2.drop_last());
        assert((s1 + s2).drop_last() =~= s1 + s2.drop_last());
        assert((s1 + s2).last() == s2.last());
    }
}

/// A prefix sum shifts over the first element.
pub proof fn lemma_sum_take_shift(c: Seq<InputV>, m: int)
    requires
        1 <= m <= c.len(),
    ensures
        sum_values(c.take(m)) == c[0].value + sum_values(c.drop_first().take(m - 1)),
    decreases m,
{
    if m == 1 {
        assert(c.take(1).drop_last() =~= Seq::<InputV>::empty());
        assert(c.drop_first().take(0) =~= Seq::<InputV>::empty());
        assert(c.take(1).last() == c[0]);
    } else {
        lemma_sum_take_shift(c, m - 1);
        assert(c.take(m).drop_last() =~= c.take(m - 1));
        assert(c.take(m).last() == c[m - 1]);
        assert(c.drop_first().take(m - 1).drop_last() =~= c.drop_first().take(m - 2));
        assert(c.drop_first().take(m - 1).last() == c[m - 1]);
    }
}

/// Prefix sums grow with the prefix.
pub proof fn lemma_sum_take_monotone(c: Seq<InputV>, m1: int, m2: int)
    requires
        0 <= m1 <= m2 <= c.len(),
    ensures
        sum_values(c.take(m1)) <= sum_values(c.take(m2)),
    decreases m2 - m1,
{
    if m1 < m2 {
        lemma_sum_take_monotone(c, m1, m2 - 1);
        assert(c.take(m2).drop_last() =~= c.take(m2 - 1));
    }
}

/// The stop condition pins the take down: a prefix whose proper
/// sub-prefixes all fall short, and which either reaches the target or
/// exhausts the candidates, is exactly the first-fit take.
pub proof fn lemma_take_needed_exact(c: Seq<InputV>, a: int, n: int)
    requires
        0 <= n <= c.len(),
        n < c.len() ==> sum_values(c.take(n)) >= a,
        forall|m: int| 1 <= m < n ==> sum_values(#[trigger] c.take(m)) < a,
        n == 0 ==> c.len() == 0,
    ensures
        take_needed(c, a) == c.take(n),
    decreases c.len(),
{
    if c.len() == 0 {
        assert(take_needed(c, a) =~= c.take(0));
    } else {
        assert(n >= 1);
        assert(c.take(1) =~= seq![c[0]]);
        lemma_sum_singleton(c[0]);
        assert(sum_values(c.take(1)) == c[0].value);
        if a <= c[0].value {
            if n >= 2 {
                assert(sum_values(c.take(1)) < a);
                assert(false);
            }
            assert(take_needed(c, a) =~= c.take(1));
        } else {
            let tail = c.drop_first();
            if n == 1 {
                if 1 < c.len() {
                    assert(sum_values(c.take(1)) >= a);
                    assert(false);
                }
                assert(c.len() == 1);
                assert(tail.len() == 0);
                lemma_take_needed_exact(tail, a - c[0].value, 0);
                assert(c.take(1) =~= seq![c[0]] + tail.take(0));
            } else {
                assert(forall|m: int|
                    1 <= m < n - 1 ==> sum_values(#[trigger] c.take(m + 1)) < a);
                assert forall|m: int|
                    1 <= m < n - 1 implies sum_values(#[trigger] tail.take(m)) < a - c[0].value by {
                    lemma_sum_take_shift(c, m + 1);
                    assert(sum_values(c.take(m + 1)) < a);
                }
                if n - 1 < tail.len() {
                    lemma_sum_take_shift(c, n);
                    assert(sum_values(tail.take(n - 1)) >= a - c[0].value);
                }
                lemma_take_needed_exact(tail, a - c[0].value, n - 1);
                assert(c.take(n) =~= seq![c[0]] + tail.take(n - 1));
            }
        }
    }
}

/// First-fit either reaches the target or takes every candidate.
pub proof fn lemma_take_needed_covers(c: Seq<InputV>, a: int)
    ensures
        sum_values(take_needed(c, a)) >= a || take_needed(c, a) == c,
    decreases c.len(),
{
    if c.len() == 0 {
        assert(take_needed(c, a) =~= c);
    } else if a <= c[0].value {
        lemma_sum_singleton(c[0]);
    } else {
        let tail = c.drop_first();
        lemma_take_needed_covers(tail, a - c[0].value);
        lemma_sum_concat(seq![c[0]], take_needed(tail, a - c[0].value));
        lemma_sum_singleton(c[0]);
        if take_needed(tail, a - c[0].value) == tail {
            assert(seq![c[0]] + tail =~= c);
        }
    }
}

/// The first-fit take is a prefix of the candidate list.
pub proof fn lemma_take_needed_prefix(c: Seq<InputV>, a: int)
    ensures
        take_needed(c, a).len() <= c.len(),
        take_needed(c, a) == c.take(take_needed(c, a).len() as int),
    decreases c.len(),
{
    if c.len() == 0 {
    } else if a <= c[0].value {
        assert(take_needed(c, a) =~= c.take(1));
    } else {
        let tail = c.drop_first();
        lemma_take_needed_prefix(tail, a - c[0].value);
        let l = take_needed(tail, a - c[0].value).len() as int;
        assert(c.take(l + 1) =~= seq![c[0]] + tail.take(l));
    }
}

/// When first-fit reaches a positive target, what it took beyond its
/// last candidate still fell short: the overshoot stays below the last
/// candidate's value.
pub proof fn lemma_take_needed_change(c: Seq<InputV>, a: int)
    requires
        a >= 1,
        take_needed(c, a).len() >= 1,
        sum_values(take_needed(c, a)) >= a,
    ensures
        sum_values(take_needed(c, a)) - take_needed(c, a).last().value < a,
    decreases c.len(),
{
    let p = take_needed(c, a);
    if a <= c[0].value {
        assert(p =~= seq![c[0]]);
        lemma_sum_singleton(c[0]);
        assert(sum_values(p) == c[0].value);
    } else {
        let tail = c.drop_first();
        let pt = take_needed(tail, a - c[0].value);
        lemma_sum_concat(seq![c[0]], pt);
        lemma_sum_singleton(c[0]);
        if pt.len() == 0 {
            assert(sum_values(p) == c[0].value);
            assert(false);
        } else {
            assert(sum_values(pt) >= a - c[0].value);
            lemma_take_needed_change(tail, a - c[0].value);
            assert(p.last() == pt.last());
        }
    }
}

/// Coin selection never returns a claim on anything but a validated,
/// unspent output: every input it selects for an address is unsigned,
/// owned by that address, still unspent, and wraps an output of a row
/// that passes validation — so a tampered record is never spent from,
/// and the accumulated total only counts validated outputs.
pub proof fn lemma_selection_sound(
    rows: Seq<crate::transactions::RowV>,
    addr: Seq<char>,
    amount: int,
    k: int,
)
    requires
        0 <= k < take_needed(candidates(rows, addr), amount).len(),
    ensures
        ({
            let x = take_needed(candidates(rows, addr), amount)[k];
            &&& x.address == addr
            &&& x.public_key == Seq::<char>::empty()
            &&& x.signature == Seq::<char>::empty()
            &&& crate::ledger::unspent(rows, x.prev_tx, x.id)
            &&& exists|i: int|
                0 <= i < rows.len() && crate::ledger::row_valid(#[trigger] rows[i])
                    && x.prev_tx == crate::ledger::row_tx(rows[i]).hash
        }),
{
    lemma_take_needed_prefix(candidates(rows, addr), amount);
    crate::ledger::lemma_candidates_sound(rows, addr, k);
}

// ---------------------------------------------------------------------------
// Input verification
// ---------------------------------------------------------------------------

/// Whether every input of the list carries a valid ownership proof; the
/// boundary check the engine runs on externally signed inputs before it
/// trusts any of them.
pub fn verify_inputs(inputs: &Vec<Input>) -> (r: bool)
    ensures
        r == (forall|k: int|
            0 <= k < inputs.deep_view().len() ==> input_authorized(
                #[trigger] inputs.deep_view()[k],
            )),
{
    let mut k: usize = 0;
    while k < inputs.len()
        invariant
            k <= inputs.len(),
            forall|x: int|
                0 <= x < k ==> input_authorized(#[trigger] inputs.deep_view()[x]),
        decreases inputs.len() - k,
    {
        let ok = inputs[k].verify();
        proof {
            assert(inputs.deep_view()[k as int] == inputs@[k as int]@);
        }
        if !ok {
            return false;
        }
        k += 1;
    }
    true
}

fn sum_input_values(v: &Vec<Input>) -> (r: u128)
    ensures
        r as int == sum_values(v.deep_view()),
{
    let ghost dv = v.deep_view();
    let mut total: u128 = 0;
    let mut k: usize = 0;
    proof {
        assert(dv.take(0) =~= Seq::<InputV>::empty());
    }
    while k < v.len()
        invariant
            k <= v.len(),
            dv == v.deep_view(),
            total as int == sum_values(dv.take(k as int)),
            total as int <= (k as int) * (u64::MAX as int),
        decreases v.len() - k,
    {
        let val = v[k].value;
        proof {
            assert(dv.take(k + 1).drop_last() =~= dv.take(k as int));
            assert(dv.take(k + 1).last() == v@[k as int]@);
            assert(sum_values(dv.take(k + 1)) == sum_values(dv.take(k as int)) + val);
            assert((k as int) * (u64::MAX as int) + (u64::MAX as int) == (k as int + 1) * (
            u64::MAX as int)) by (nonlinear_arith);
            assert((k as int + 1) * (u64::MAX as int) <= u128::MAX as int) by (nonlinear_arith)
                requires
                    0 <= k as int + 1 <= usize::MAX as int + 1,
            ;
        }
        total = total + val as u128;
        k += 1;
    }
    proof {
        assert(dv.take(v.len() as int) =~= dv);
    }
    total
}

// ---------------------------------------------------------------------------
// The account
// ---------------------------------------------------------------------------

/// An account, named by its address.
pub struct User {
    pub address: String,
}

impl User {
    /// An account handle for an address.
    pub fn new(address: String) -> (r: User)
        ensures
            r.address@ == address@,
    {
        User { address }
    }

    /// Coin selection: walks the spendable candidates of this address in
    /// store order and accumulates unsigned inputs first-fit until the
    /// requested amount is covered.  Returns whatever was accumulated
    /// together with its total, even when the total falls short; the
    /// caller rejects insufficient results.
    pub fn get_unspend_outputs_as_inputs(&self, ledger: &Ledger, amount: u64) -> (r: (
        Vec<Input>,
        u128,
    ))
        ensures
            r.0.deep_view() == take_needed(candidates(ledger@, self.address@), amount as int),
            r.1 as int == sum_values(take_needed(candidates(ledger@, self.address@), amount as int)),
    {
        let cands = ledger.collect_candidates(&self.address);
        let ghost cv = cands.deep_view();
        let mut sel: Vec<Input> = Vec::new();
        let mut total: u128 = 0;
        let mut stop: bool = false;
        let mut k: usize = 0;
        proof {
            assert(cv.take(0) =~= Seq::<InputV>::empty());
        }
        while k < cands.len() && !stop
            invariant
                k <= cands.len(),
                cv == cands.deep_view(),
                sel.deep_view() == cv.take(k as int),
                total as int == sum_values(cv.take(k as int)),
                forall|m: int| 1 <= m < k ==> sum_values(#[trigger] cv.take(m)) < amount as int,
                !stop ==> (k == 0 || sum_values(cv.take(k as int)) < amount as int),
                stop ==> k >= 1 && sum_values(cv.take(k as int)) >= amount as int,
            decreases cands.len() - k,
        {
            let ghost pre = sel.deep_view();
            let v = cands[k].value;
            sel.push(clone_input(&cands[k]));
            proof {
                assert(sel.deep_view() =~= pre.push(cands@[k as int]@));
                assert(cv.take(k + 1).drop_last() =~= cv.take(k as int));
                assert(cv.take(k + 1).last() == cands@[k as int]@);
                assert(sel.deep_view() =~= cv.take(k + 1));
                assert(sum_values(cv.take(k + 1)) == sum_values(cv.take(k as int)) + v);
                lemma_sum_nonneg(cv.take(k as int));
            }
            total = total + v as u128;
            k += 1;
            if total >= amount as u128 {
                stop = true;
            }
        }
        proof {
            if k == cands.len() {
                assert(cv.take(cands.len() as int) =~= cv);
            }
            lemma_take_needed_exact(cv, amount as int, k as int);
        }
        (sel, total)
    }

    /// Builds and persists a spend from already-signed inputs: every
    /// ownership proof is re-verified at this boundary, the balance
    /// carried by the inputs must cover the amount, the inputs are
    /// ordered by id, and a change output returns the difference to this
    /// address whenever it is not zero.  The write is atomic and refuses
    /// to consume an output that is missing or already spent.
    pub fn send(&self, to_address: String, amount: u64, inputs: Vec<Input>, ledger: &mut Ledger)
        -> (r: Result<(), LedgerError>)
        requires
            amount >= 1,
            sum_values(inputs.deep_view()) >= amount as int ==> sum_values(inputs.deep_view())
                - amount as int <= u64::MAX as int,
        ensures
            ({
                let vin0 = inputs.deep_view();
                let all_ok = forall|k: int|
                    0 <= k < vin0.len() ==> input_authorized(#[trigger] vin0[k]);
                let bal = sum_values(vin0);
                &&& (!all_ok ==> r == Err::<(), LedgerError>(LedgerError::InvalidSignature)
                    && final(ledger)@ == old(ledger)@)
                &&& (all_ok && bal < amount as int ==> r == Err::<(), LedgerError>(
                    LedgerError::InsufficientBalance,
                ) && final(ledger)@ == old(ledger)@)
                &&& (all_ok && bal >= amount as int ==> {
                    let vin = sort_inputs_spec(vin0);
                    &&& (r is Ok <==> inputs_spendable(old(ledger)@, vin))
                    &&& (r is Err ==> r == Err::<(), LedgerError>(LedgerError::SpendConflict)
                        && final(ledger)@ == old(ledger)@)
                    &&& (r is Ok ==> {
                        &&& final(ledger)@ == old(ledger)@.push(final(ledger)@.last())
                        &&& final(ledger)@.len() == old(ledger)@.len() + 1
                        &&& ({
                            let row = final(ledger)@.last();
                            &&& row.inputs == vin
                            &&& row.outputs.len() == (if bal == amount as int {
                                1int
                            } else {
                                2int
                            })
                            &&& row.outputs[0] == (OutputV {
                                id: 0,
                                value: amount as nat,
                                address: to_address@,
                            })
                            &&& (bal != amount as int ==> row.outputs[1] == (OutputV {
                                id: 1,
                                value: (bal - amount as int) as nat,
                                address: self.address@,
                            }))
                            &&& row_valid(row)
                        })
                    })
                })
            }),
    {
        let ghost vin0 = inputs.deep_view();
        if !verify_inputs(&inputs) {
            return Err(LedgerError::InvalidSignature);
        }
        let total = sum_input_values(&inputs);
        if total < amount as u128 {
            return Err(LedgerError::InsufficientBalance);
        }
        let sorted = sort_inputs(inputs);
        proof {
            lemma_sort_inputs_pred(vin0, |i: InputV| input_authorized(i));
            lemma_sort_inputs_sorted(vin0);
        }
        let mut transaction = Transaction::new();
        transaction.set_inputs(sorted);
        transaction.add_output(amount, to_address);
        let change = total - amount as u128;
        if change != 0 {
            transaction.add_output(change as u64, self.address.clone());
        }
        let ghost built = transaction@;
        proof {
            assert(lists_canonical(built));
        }
        let result = transaction.upload(ledger);
        proof {
            lemma_validate_after_hash(built);
            lemma_record_round_trip(rehashed(built));
            if result is Ok {
                assert(final(ledger)@.last() == record_of(rehashed(built)));
            }
        }
        result
    }
}

} // verus!
