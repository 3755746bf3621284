//! The in-memory model of the graph store: persisted transaction records,
//! the derived unspent-output relation, the atomic conditional write that
//! prevents double spends, and balances.

use vstd::prelude::*;
use crate::errors::LedgerError;
use crate::transactions::{
    clone_inputs, clone_outputs, from_node_spec, input_authorized, lemma_validate_after_hash,
    record_of, rehashed, tx_hash, Input, InputV, Output, OutputV, RowV, StoredTx, Transaction,
    TxV,
};

verus! {

/// The ledger: every persisted transaction record, in the order the
/// store accepted them.  An output is spent exactly when some persisted
/// input references it; there is no stored flag.
#[derive(Debug)]
pub struct Ledger {
    pub rows: Vec<StoredTx>,
}

impl View for Ledger {
    type V = Seq<RowV>;

    open spec fn view(&self) -> Seq<RowV> {
        self.rows.deep_view()
    }
}

/// Whether some persisted input spends output `id` of the transaction
/// whose hash is `h`.
pub open spec fn spends(rows: Seq<RowV>, h: Seq<char>, id: nat) -> bool {
    exists|i: int, j: int|
        0 <= i < rows.len() && 0 <= j < rows[i].inputs.len()
            && (#[trigger] rows[i].inputs[j]).prev_tx == h && rows[i].inputs[j].id == id
}

/// The derived unspent relation: no persisted input references the pair.
pub open spec fn unspent(rows: Seq<RowV>, h: Seq<char>, id: nat) -> bool {
    !spends(rows, h, id)
}

/// Whether the store holds an output `id` under a transaction node whose
/// hash is `h`.
pub open spec fn output_exists(rows: Seq<RowV>, h: Seq<char>, id: nat) -> bool {
    exists|i: int, j: int|
        0 <= i < rows.len() && 0 <= j < rows[i].outputs.len() && rows[i].node.hash == h && (
        #[trigger] rows[i].outputs[j]).id == id
}

/// The condition under which the atomic write accepts an input list:
/// every input references an output that exists and is still unspent,
/// and no two inputs of the list claim the same output.
pub open spec fn inputs_spendable(rows: Seq<RowV>, vin: Seq<InputV>) -> bool {
    forall|k: int|
        0 <= k < vin.len() ==> {
            &&& output_exists(rows, (#[trigger] vin[k]).prev_tx, vin[k].id)
            &&& unspent(rows, vin[k].prev_tx, vin[k].id)
            &&& forall|m: int|
                0 <= m < k ==> !(vin[m].prev_tx == vin[k].prev_tx && (#[trigger] vin[m]).id
                    == vin[k].id)
        }
}

/// The transaction a stored row denotes.
pub open spec fn row_tx(r: RowV) -> TxV {
    from_node_spec(r)
}

/// Whether a stored row validates: the hash its node carries is the one
/// recomputation of the reconstructed transaction yields.
pub open spec fn row_valid(r: RowV) -> bool {
    row_tx(r).hash == tx_hash(row_tx(r))
}

/// The unsigned input wrapping output `o` of the transaction with hash `h`.
pub open spec fn input_for(h: Seq<char>, o: OutputV) -> InputV {
    InputV {
        prev_tx: h,
        id: o.id,
        value: o.value,
        address: o.address,
        public_key: Seq::<char>::empty(),
        signature: Seq::<char>::empty(),
    }
}

/// The coin-selection predicate for one output: owned by `addr` and
/// still unspent.
pub open spec fn cand_pred(rows: Seq<RowV>, h: Seq<char>, addr: Seq<char>) -> spec_fn(OutputV)
    -> bool {
    |o: OutputV| o.address == addr && unspent(rows, h, o.id)
}

/// Wrapping each selected output of the transaction with hash `h`.
pub open spec fn cand_map(h: Seq<char>) -> spec_fn(OutputV) -> InputV {
    |o: OutputV| input_for(h, o)
}

/// The spendable candidates one row contributes for `addr`: nothing at
/// all unless the row validates; otherwise its owned, unspent outputs in
/// list order, wrapped as unsigned inputs.
pub open spec fn row_candidates(rows: Seq<RowV>, r: RowV, addr: Seq<char>) -> Seq<InputV> {
    if row_valid(r) {
        row_tx(r).vout.filter(cand_pred(rows, row_tx(r).hash, addr)).map_values(
            cand_map(row_tx(r).hash),
        )
    } else {
        Seq::empty()
    }
}

/// The candidates contributed by the first `n` rows, in store order.
pub open spec fn candidates_up_to(rows: Seq<RowV>, addr: Seq<char>, n: int) -> Seq<InputV>
    decreases n,
{
    if n <= 0 {
        Seq::empty()
    } else {
        candidates_up_to(rows, addr, n - 1) + row_candidates(rows, rows[n - 1], addr)
    }
}

/// Every spendable candidate of `addr`: outputs of validated rows, owned
/// by `addr` and unspent, wrapped as unsigned inputs, in store order.
pub open spec fn candidates(rows: Seq<RowV>, addr: Seq<char>) -> Seq<InputV> {
    candidates_up_to(rows, addr, rows.len() as int)
}

/// The total value carried by a list of inputs.
pub open spec fn sum_values(s: Seq<InputV>) -> int
    decreases s.len(),
{
    if s.len() == 0 {
        0
    } else {
        sum_values(s.drop_last()) + s.last().value
    }
}

/// The balance of an address: the total value of its candidates, that
/// is, of its unspent outputs under validated transactions.
pub open spec fn balance_spec(rows: Seq<RowV>, addr: Seq<char>) -> int {
    sum_values(candidates(rows, addr))
}

/// An element of a filtered sequence is an element of the sequence.
proof fn lemma_filter_elem_membership<A>(s: Seq<A>, pred: spec_fn(A) -> bool, k: int)
    requires
        0 <= k < s.filter(pred).len(),
    ensures
        s.contains(s.filter(pred)[k]),
    decreases s.len(),
{
    reveal(Seq::filter);
    if s.len() > 0 {
        let f = s.filter(pred);
        let fd = s.drop_last().filter(pred);
        if pred(s.last()) {
            if k < f.len() - 1 {
                lemma_filter_elem_membership(s.drop_last(), pred, k);
                let i = choose|i: int|
                    0 <= i < s.drop_last().len() && s.drop_last()[i] == fd[k];
                assert(s[i] == f[k]);
            } else {
                assert(f[k] == s.last());
                assert(s[s.len() - 1] == s.last());
            }
        } else {
            lemma_filter_elem_membership(s.drop_last(), pred, k);
            let i = choose|i: int| 0 <= i < s.drop_last().len() && s.drop_last()[i] == fd[k];
            assert(s[i] == f[k]);
        }
    }
}

/// Soundness of coin selection and balances, over the first `n` rows.
proof fn lemma_candidates_up_to_sound(rows: Seq<RowV>, addr: Seq<char>, n: int, k: int)
    requires
        0 <= n <= rows.len(),
        0 <= k < candidates_up_to(rows, addr, n).len(),
    ensures
        ({
            let x = candidates_up_to(rows, addr, n)[k];
            &&& x.address == addr
            &&& x.public_key == Seq::<char>::empty()
            &&& x.signature == Seq::<char>::empty()
            &&& unspent(rows, x.prev_tx, x.id)
            &&& exists|i: int|
                0 <= i < rows.len() && row_valid(#[trigger] rows[i]) && x.prev_tx == row_tx(
                    rows[i],
                ).hash && row_tx(rows[i]).vout.contains(
                    (OutputV { id: x.id, value: x.value, address: x.address }),
                )
        }),
    decreases n,
{
    let pre = candidates_up_to(rows, addr, n - 1);
    if k < pre.len() {
        lemma_candidates_up_to_sound(rows, addr, n - 1, k);
        assert(candidates_up_to(rows, addr, n)[k] == pre[k]);
    } else {
        let r = rows[n - 1];
        let rc = row_candidates(rows, r, addr);
        let kk = k - pre.len();
        assert(candidates_up_to(rows, addr, n)[k] == rc[kk]);
        assert(row_valid(r));
        let h = row_tx(r).hash;
        let pred = cand_pred(rows, h, addr);
        let filtered = row_tx(r).vout.filter(pred);
        let o = filtered[kk];
        row_tx(r).vout.lemma_filter_pred(pred, kk);
        lemma_filter_elem_membership(row_tx(r).vout, pred, kk);
        let x = rc[kk];
        assert(x == input_for(h, o));
        assert((OutputV { id: x.id, value: x.value, address: x.address }) =~= o);
        let i = choose|i: int|
            0 <= i < row_tx(r).vout.len() && row_tx(r).vout[i] == o;
        assert(0 <= n - 1 < rows.len() && row_valid(rows[n - 1]) && x.prev_tx == row_tx(
            rows[n - 1],
        ).hash && row_tx(rows[n - 1]).vout.contains(
            (OutputV { id: x.id, value: x.value, address: x.address }),
        ));
    }
}

/// Soundness of coin selection and balances: every candidate of an
/// address is an unsigned claim on an output of a row that validates,
/// owned by that address and still unspent.  A record failing
/// validation never contributes a candidate, so it is never spent from
/// and never counts toward a balance.
pub proof fn lemma_candidates_sound(rows: Seq<RowV>, addr: Seq<char>, k: int)
    requires
        0 <= k < candidates(rows, addr).len(),
    ensures
        ({
            let x = candidates(rows, addr)[k];
            &&& x.address == addr
            &&& x.public_key == Seq::<char>::empty()
            &&& x.signature == Seq::<char>::empty()
            &&& unspent(rows, x.prev_tx, x.id)
            &&& exists|i: int|
                0 <= i < rows.len() && row_valid(#[trigger] rows[i]) && x.prev_tx == row_tx(
                    rows[i],
                ).hash && row_tx(rows[i]).vout.contains(
                    (OutputV { id: x.id, value: x.value, address: x.address }),
                )
        }),
{
    lemma_candidates_up_to_sound(rows, addr, rows.len() as int, k);
}

/// Once a row is persisted, every output it consumed is spent: the
/// referenced pair is now referenced by a persisted input, so it is no
/// longer selectable.
pub proof fn lemma_persisted_inputs_mark_spent(rows: Seq<RowV>, row: RowV, k: int)
    requires
        0 <= k < row.inputs.len(),
    ensures
        spends(rows.push(row), row.inputs[k].prev_tx, row.inputs[k].id),
{
    assert(rows.push(row)[rows.len() as int].inputs[k].prev_tx == row.inputs[k].prev_tx);
}

/// Double-spend prevention: when two writes both claim the same output,
/// at most one can be accepted — after either row is persisted, the
/// atomic write refuses any input list claiming that output again.
pub proof fn lemma_no_double_spend(rows: Seq<RowV>, row: RowV, vin: Seq<InputV>, k: int, m: int)
    requires
        0 <= k < row.inputs.len(),
        0 <= m < vin.len(),
        vin[m].prev_tx == row.inputs[k].prev_tx,
        vin[m].id == row.inputs[k].id,
    ensures
        !inputs_spendable(rows.push(row), vin),
{
    lemma_persisted_inputs_mark_spent(rows, row, k);
    assert(!unspent(rows.push(row), vin[m].prev_tx, vin[m].id));
}

/// Sums agree on lists that agree value for value.
pub proof fn lemma_sum_values_pointwise(s1: Seq<InputV>, s2: Seq<InputV>)
    requires
        s1.len() == s2.len(),
        forall|k: int| 0 <= k < s1.len() ==> (#[trigger] s1[k]).value == s2[k].value,
    ensures
        sum_values(s1) == sum_values(s2),
    decreases s1.len(),
{
    if s1.len() > 0 {
        assert(forall|k: int|
            0 <= k < s1.drop_last().len() ==> (#[trigger] s1.drop_last()[k]).value
                == s2.drop_last()[k].value);
        lemma_sum_values_pointwise(s1.drop_last(), s2.drop_last());
    }
}

/// A sum of input values is never negative.
pub proof fn lemma_sum_nonneg(s: Seq<InputV>)
    ensures
        sum_values(s) >= 0,
    decreases s.len(),
{
    if s.len() > 0 {
        lemma_sum_nonneg(s.drop_last());
    }
}

impl Ledger {
    /// An empty store.
    pub fn new() -> (r: Ledger)
        ensures
            r@ == Seq::<RowV>::empty(),
    {
        let r = Ledger { rows: Vec::new() };
        proof {
            assert(r@ =~= Seq::<RowV>::empty());
        }
        r
    }

    /// Whether an output `id` exists under a node with hash `h`.
    fn output_exists_exec(&self, h: &String, id: u32) -> (r: bool)
        ensures
            r == output_exists(self@, h@, id as nat),
    {
        let mut i: usize = 0;
        while i < self.rows.len()
            invariant
                i <= self.rows.len(),
                forall|a: int, b: int|
                    0 <= a < i && 0 <= b < self@[a].outputs.len() ==> !(self@[a].node.hash == h@
                        && (#[trigger] self@[a].outputs[b]).id == id as nat),
            decreases self.rows.len() - i,
        {
            let row = &self.rows[i];
            if row.node.hash == *h {
                let mut j: usize = 0;
                while j < row.outputs.len()
                    invariant
                        i < self.rows.len(),
                        j <= row.outputs.len(),
                        row == self.rows[i as int],
                        row.node.hash@ == h@,
                        forall|b: int|
                            0 <= b < j ==> (#[trigger] self@[i as int].outputs[b]).id != id as nat,
                    decreases row.outputs.len() - j,
                {
                    if row.outputs[j].id == id {
                        proof {
                            assert(self@[i as int].outputs[j as int].id == id as nat);
                        }
                        return true;
                    }
                    j += 1;
                }
            }
            i += 1;
        }
        proof {
            assert(!output_exists(self@, h@, id as nat));
        }
        false
    }

    /// Whether output `id` of the transaction with hash `h` is still
    /// unspent: no persisted input references it.
    pub fn is_unspent(&self, h: &String, id: u32) -> (r: bool)
        ensures
            r == unspent(self@, h@, id as nat),
    {
        let mut i: usize = 0;
        while i < self.rows.len()
            invariant
                i <= self.rows.len(),
                forall|a: int, b: int|
                    0 <= a < i && 0 <= b < self@[a].inputs.len() ==> !((#[trigger] self@[a].inputs[b]).prev_tx
                        == h@ && self@[a].inputs[b].id == id as nat),
            decreases self.rows.len() - i,
        {
            let row = &self.rows[i];
            let mut j: usize = 0;
            while j < row.inputs.len()
                invariant
                    i < self.rows.len(),
                    j <= row.inputs.len(),
                    row == self.rows[i as int],
                    forall|b: int|
                        0 <= b < j ==> !((#[trigger] self@[i as int].inputs[b]).prev_tx == h@
                            && self@[i as int].inputs[b].id == id as nat),
                decreases row.inputs.len() - j,
            {
                if row.inputs[j].prev_tx == *h && row.inputs[j].id == id {
                    proof {
                        assert(self@[i as int] == self.rows@[i as int]@);
                        assert(self@[i as int].inputs[j as int] == row.inputs@[j as int]@);
                        assert(self@[i as int].inputs[j as int].prev_tx == h@
                            && self@[i as int].inputs[j as int].id == id as nat);
                        assert(spends(self@, h@, id as nat));
                    }
                    return false;
                }
                j += 1;
            }
            i += 1;
        }
        proof {
            assert(!spends(self@, h@, id as nat));
        }
        true
    }

    /// Collects every spendable candidate of `address`, in store order:
    /// reconstructs each row, validates it, and wraps the owned, unspent
    /// outputs of validated rows as unsigned inputs.  A row failing
    /// validation is skipped entirely and contributes nothing.
    pub fn collect_candidates(&self, address: &String) -> (r: Vec<Input>)
        ensures
            r.deep_view() == candidates(self@, address@),
    {
        let mut out: Vec<Input> = Vec::new();
        let mut i: usize = 0;
        proof {
            assert(out.deep_view() =~= candidates_up_to(self@, address@, 0));
        }
        while i < self.rows.len()
            invariant
                i <= self.rows.len(),
                out.deep_view() == candidates_up_to(self@, address@, i as int),
            decreases self.rows.len() - i,
        {
            let row = &self.rows[i];
            proof {
                assert(self@[i as int] == self.rows@[i as int]@);
            }
            let outs = clone_outputs(&row.outputs);
            let ins = clone_inputs(&row.inputs);
            let mut tx = Transaction::from_node(&row.node, outs, ins);
            proof {
                assert((RowV {
                    node: row.node@,
                    outputs: row.outputs.deep_view(),
                    inputs: row.inputs.deep_view(),
                }) =~= self@[i as int]);
                assert(tx@ == row_tx(self@[i as int]));
            }
            let valid = tx.validate();
            if valid {
                let ghost rows_v = self@;
                let ghost addr_v = address@;
                let ghost hv = row_tx(self@[i as int]).hash;
                let ghost pred = cand_pred(rows_v, hv, addr_v);
                let ghost fmap = cand_map(hv);
                let ghost vout_v = row_tx(self@[i as int]).vout;
                proof {
                    assert(row_valid(self@[i as int]));
                    assert(tx@.vout == vout_v);
                    assert(tx@.hash == hv);
                    reveal(Seq::filter);
                    assert(vout_v.take(0) =~= Seq::<OutputV>::empty());
                    assert(vout_v.take(0).filter(pred).map_values(fmap) =~= Seq::<
                        InputV,
                    >::empty());
                    assert(out.deep_view() =~= candidates_up_to(rows_v, addr_v, i as int)
                        + vout_v.take(0).filter(pred).map_values(fmap));
                }
                let mut j: usize = 0;
                while j < tx.vout.len()
                    invariant
                        j <= tx.vout.len(),
                        i < self.rows.len(),
                        rows_v == self@,
                        addr_v == address@,
                        vout_v == tx.vout.deep_view(),
                        hv == tx.hash@,
                        pred == cand_pred(rows_v, hv, addr_v),
                        fmap == cand_map(hv),
                        out.deep_view() == candidates_up_to(rows_v, addr_v, i as int)
                            + vout_v.take(j as int).filter(pred).map_values(fmap),
                    decreases tx.vout.len() - j,
                {
                    let owned = tx.vout[j].address == *address;
                    let mut taken = false;
                    if owned {
                        if self.is_unspent(&tx.hash, tx.vout[j].id) {
                            let inp = Input::new(
                                tx.hash.clone(),
                                Output {
                                    id: tx.vout[j].id,
                                    value: tx.vout[j].value,
                                    address: tx.vout[j].address.clone(),
                                },
                            );
                            let ghost pre_dv = out.deep_view();
                            out.push(inp);
                            proof {
                                assert(out.deep_view() =~= pre_dv.push(inp@));
                                assert(vout_v[j as int] == tx.vout@[j as int]@);
                                assert(inp@ =~= input_for(hv, vout_v[j as int]));
                            }
                            taken = true;
                        }
                    }
                    proof {
                        reveal(Seq::filter);
                        let tj = vout_v.take(j as int);
                        let tj1 = vout_v.take(j + 1);
                        assert(tj1.drop_last() =~= tj);
                        assert(tj1.last() == vout_v[j as int]);
                        assert(vout_v[j as int] == tx.vout@[j as int]@);
                        if taken {
                            assert(pred(vout_v[j as int]));
                            assert(tj1.filter(pred) == tj.filter(pred).push(vout_v[j as int]));
                            assert(tj1.filter(pred).map_values(fmap) =~= tj.filter(
                                pred,
                            ).map_values(fmap).push(fmap(vout_v[j as int])));
                            assert(fmap(vout_v[j as int]) == input_for(hv, vout_v[j as int]));
                        } else {
                            assert(!pred(vout_v[j as int]));
                            assert(tj1.filter(pred) == tj.filter(pred));
                            assert(tj1.filter(pred).map_values(fmap) =~= tj.filter(
                                pred,
                            ).map_values(fmap));
                        }
                        assert(out.deep_view() =~= candidates_up_to(rows_v, addr_v, i as int)
                            + tj1.filter(pred).map_values(fmap));
                    }
                    j += 1;
                }
                proof {
                    assert(vout_v.take(tx.vout.len() as int) =~= vout_v);
                    assert(row_candidates(rows_v, self@[i as int], addr_v) == vout_v.filter(
                        pred,
                    ).map_values(fmap));
                    assert(candidates_up_to(rows_v, addr_v, i + 1) == candidates_up_to(
                        rows_v,
                        addr_v,
                        i as int,
                    ) + row_candidates(rows_v, self@[i as int], addr_v));
                }
            } else {
                proof {
                    assert(!row_valid(self@[i as int]));
                    assert(row_candidates(self@, self@[i as int], address@) =~= Seq::<
                        InputV,
                    >::empty());
                    assert(candidates_up_to(self@, address@, i + 1) =~= candidates_up_to(
                        self@,
                        address@,
                        i as int,
                    ));
                }
            }
            i += 1;
        }
        out
    }

    /// The balance of an address: the total value of its validated,
    /// unspent outputs.  Saturates at the numeric limit rather than
    /// overflowing.
    pub fn get_balance(&self, address: &String) -> (r: u128)
        ensures
            balance_spec(self@, address@) <= u128::MAX as int ==> r as int == balance_spec(
                self@,
                address@,
            ),
            balance_spec(self@, address@) > u128::MAX as int ==> r == u128::MAX,
    {
        let cands = self.collect_candidates(address);
        let ghost cv = cands.deep_view();
        let mut total: u128 = 0;
        let mut k: usize = 0;
        proof {
            assert(cv.take(0) =~= Seq::<InputV>::empty());
        }
        while k < cands.len()
            invariant
                k <= cands.len(),
                cv == cands.deep_view(),
                sum_values(cv.take(k as int)) <= u128::MAX as int ==> total as int == sum_values(
                    cv.take(k as int),
                ),
                sum_values(cv.take(k as int)) > u128::MAX as int ==> total == u128::MAX,
            decreases cands.len() - k,
        {
            let v = cands[k].value;
            total = total.saturating_add(v as u128);
            proof {
                assert(cv.take(k + 1).drop_last() =~= cv.take(k as int));
                assert(cv.take(k + 1).last() == cands@[k as int]@);
                assert(sum_values(cv.take(k + 1)) == sum_values(cv.take(k as int)) + v);
                lemma_sum_nonneg(cv.take(k as int));
            }
            k += 1;
        }
        proof {
            assert(cv.take(cands.len() as int) =~= cv);
        }
        total
    }

    /// The atomic write recording a transaction: it either appends the
    /// record together with its spend markings, or, when any referenced
    /// output is missing, already spent, or claimed twice, changes
    /// nothing and reports the conflict.  Called only after the hash
    /// chain is computed and, when the transaction has inputs, only
    /// after every input carries a valid ownership proof: an unsigned
    /// input is never persisted.
    pub fn persist(&mut self, t: &Transaction) -> (r: Result<(), LedgerError>)
        requires
            t@.hash == tx_hash(t@),
            forall|k: int| 0 <= k < t@.vin.len() ==> input_authorized(#[trigger] t@.vin[k]),
        ensures
            r is Ok <==> inputs_spendable(old(self)@, t@.vin),
            r is Ok ==> final(self)@ == old(self)@.push(record_of(t@)),
            r is Err ==> final(self)@ == old(self)@ && r == Err::<(), LedgerError>(
                LedgerError::SpendConflict,
            ),
    {
        let mut k: usize = 0;
        while k < t.vin.len()
            invariant
                k <= t.vin.len(),
                self == old(self),
                forall|x: int|
                    0 <= x < k ==> {
                        &&& output_exists(old(self)@, (#[trigger] t@.vin[x]).prev_tx, t@.vin[x].id)
                        &&& unspent(old(self)@, t@.vin[x].prev_tx, t@.vin[x].id)
                        &&& forall|m: int|
                            0 <= m < x ==> !(t@.vin[m].prev_tx == t@.vin[x].prev_tx && (
                            #[trigger] t@.vin[m]).id == t@.vin[x].id)
                    },
            decreases t.vin.len() - k,
        {
            let inp = &t.vin[k];
            proof {
                assert(t@.vin[k as int] == t.vin@[k as int]@);
            }
            if !self.output_exists_exec(&inp.prev_tx, inp.id) {
                proof {
                    assert(!output_exists(old(self)@, t@.vin[k as int].prev_tx, t@.vin[
                        k as int].id));
                    assert(!inputs_spendable(old(self)@, t@.vin));
                }
                return Err(LedgerError::SpendConflict);
            }
            if !self.is_unspent(&inp.prev_tx, inp.id) {
                proof {
                    assert(spends(old(self)@, t@.vin[k as int].prev_tx, t@.vin[k as int].id));
                    assert(!inputs_spendable(old(self)@, t@.vin));
                }
                return Err(LedgerError::SpendConflict);
            }
            let mut m: usize = 0;
            while m < k
                invariant
                    m <= k,
                    k < t.vin.len(),
                    inp == t.vin[k as int],
                    forall|x: int|
                        0 <= x < m ==> !(t@.vin[x].prev_tx == t@.vin[k as int].prev_tx && (
                        #[trigger] t@.vin[x]).id == t@.vin[k as int].id),
                decreases k - m,
            {
                if t.vin[m].prev_tx == inp.prev_tx && t.vin[m].id == inp.id {
                    proof {
                        assert(t@.vin[m as int] == t.vin@[m as int]@);
                        assert(t@.vin[m as int].prev_tx == t@.vin[k as int].prev_tx && t@.vin[
                            m as int].id == t@.vin[k as int].id);
                        assert(!inputs_spendable(old(self)@, t@.vin));
                    }
                    return Err(LedgerError::SpendConflict);
                }
                m += 1;
            }
            k += 1;
        }
        let record = t.to_record();
        self.rows.push(record);
        proof {
            assert(final(self)@ =~= old(self)@.push(record_of(t@)));
        }
        Ok(())
    }
}

impl Transaction {
    /// Computes the hash chain and hands the finished record to the
    /// store's atomic write.  Called with every input already carrying a
    /// valid ownership proof: an unsigned input is never persisted.
    pub fn upload(&mut self, ledger: &mut Ledger) -> (r: Result<(), LedgerError>)
        requires
            forall|k: int|
                0 <= k < old(self)@.vin.len() ==> input_authorized(#[trigger] old(self)@.vin[k]),
        ensures
            final(self)@ == rehashed(old(self)@),
            r is Ok <==> inputs_spendable(old(ledger)@, old(self)@.vin),
            r is Ok ==> final(ledger)@ == old(ledger)@.push(record_of(rehashed(old(self)@))),
            r is Err ==> final(ledger)@ == old(ledger)@ && r == Err::<(), LedgerError>(
                LedgerError::SpendConflict,
            ),
    {
        self.generate_hash();
        proof {
            lemma_validate_after_hash(old(self)@);
        }
        ledger.persist(self)
    }
}

} // verus!
