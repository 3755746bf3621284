//! The transaction model: outputs, inputs, and the append-only
//! transaction record with its hash chain.  A transaction's hash is the
//! hex-encoded 256-bit digest of a canonical serialization of its fields
//! (the hash itself excluded); the output and input lists are digested
//! separately first.  Recomputing the hash and comparing it with the
//! stored one is the sole tamper-detection mechanism.

use vstd::prelude::*;
use vstd::string::StringExecFns;
use crate::codec::{
    amount_chars, base58_encode, bytes_of_hex, dec_rep, hash_chars, hash_hex_str, int_chars,
    u64_to_dec, i64_to_dec, hex_decode, valid_hex,
};
use crate::signatures::{address_of_public_key, derive_address, ecdsa_valid, ecdsa_verify};
use crate::utils::to_float_string;

verus! {

// ---------------------------------------------------------------------------
// Outputs
// ---------------------------------------------------------------------------

/// An indivisible unit of value, created by exactly one transaction and
/// immutable afterwards.  `id` is its position in the creating
/// transaction's output list; `value` is an amount of minor units.
#[derive(Clone, Debug)]
pub struct Output {
    pub id: u32,
    pub value: u64,
    pub address: String,
}

/// The mathematical value of an `Output`.
#[verifier::ext_equal]
pub struct OutputV {
    pub id: nat,
    pub value: nat,
    pub address: Seq<char>,
}

impl View for Output {
    type V = OutputV;

    open spec fn view(&self) -> OutputV {
        OutputV { id: self.id as nat, value: self.value as nat, address: self.address@ }
    }
}

impl DeepView for Output {
    type V = OutputV;

    open spec fn deep_view(&self) -> OutputV {
        self@
    }
}

// ---------------------------------------------------------------------------
// Inputs
// ---------------------------------------------------------------------------

/// A claim spending one prior output: `prev_tx` is the hash of the
/// transaction that created it, `id` the output's position there, and
/// `value`/`address` are copied from the output.  `public_key` and
/// `signature` are hex-encoded and empty until the holder of the key
/// signs the `prev_tx` bytes.
#[derive(Clone, Debug)]
pub struct Input {
    pub prev_tx: String,
    pub id: u32,
    pub value: u64,
    pub address: String,
    pub public_key: String,
    pub signature: String,
}

/// The mathematical value of an `Input`.
#[verifier::ext_equal]
pub struct InputV {
    pub prev_tx: Seq<char>,
    pub id: nat,
    pub value: nat,
    pub address: Seq<char>,
    pub public_key: Seq<char>,
    pub signature: Seq<char>,
}

impl View for Input {
    type V = InputV;

    open spec fn view(&self) -> InputV {
        InputV {
            prev_tx: self.prev_tx@,
            id: self.id as nat,
            value: self.value as nat,
            address: self.address@,
            public_key: self.public_key@,
            signature: self.signature@,
        }
    }
}

impl DeepView for Input {
    type V = InputV;

    open spec fn deep_view(&self) -> InputV {
        self@
    }
}

/// The ownership proof an input must carry before it may be persisted:
/// its public key hex-decodes to a key owning exactly the claimed
/// address, and its signature validates under that key over the bytes of
/// the referenced transaction hash.  Malformed hex never validates.
pub open spec fn input_authorized(i: InputV) -> bool {
    &&& valid_hex(i.public_key)
    &&& i.address == address_of_public_key(bytes_of_hex(i.public_key))
    &&& valid_hex(i.signature)
    &&& ecdsa_valid(bytes_of_hex(i.public_key), bytes_of_hex(i.signature), i.prev_tx)
}

impl Input {
    /// Wraps a prior output as an unsigned input spending it.
    pub fn new(prev_tx: String, output: Output) -> (r: Input)
        ensures
            r@ == (InputV {
                prev_tx: prev_tx@,
                id: output@.id,
                value: output@.value,
                address: output@.address,
                public_key: Seq::<char>::empty(),
                signature: Seq::<char>::empty(),
            }),
    {
        Input {
            prev_tx,
            id: output.id,
            value: output.value,
            address: output.address,
            public_key: String::new(),
            signature: String::new(),
        }
    }

    /// Checks the input's ownership proof: the claimed address must be
    /// derived from the attached public key, and the signature must
    /// validate over the `prev_tx` bytes.  Fails closed on malformed hex.
    pub fn verify(&self) -> (r: bool)
        ensures
            r == input_authorized(self@),
    {
        let pk = match hex_decode(self.public_key.as_str()) {
            Some(pk) => pk,
            None => {
                return false;
            },
        };
        let address = derive_address(pk.as_slice());
        if !(address == self.address) {
            return false;
        }
        let sig = match hex_decode(self.signature.as_str()) {
            Some(sig) => sig,
            None => {
                return false;
            },
        };
        ecdsa_verify(pk.as_slice(), sig.as_slice(), self.prev_tx.as_str())
    }
}

// ---------------------------------------------------------------------------
// Canonical serialization
// ---------------------------------------------------------------------------

/// The canonical serialization of one output, in fixed field order.
pub open spec fn ser_output(o: OutputV) -> Seq<char> {
    "{\"id\":"@ + dec_rep(o.id) + ",\"value\":"@ + amount_chars(o.value) + ",\"address\":\""@
        + o.address + "\"}"@
}

/// The comma-separated serializations of a list of outputs.
pub open spec fn ser_output_items(s: Seq<OutputV>) -> Seq<char>
    decreases s.len(),
{
    if s.len() == 0 {
        Seq::empty()
    } else if s.len() == 1 {
        ser_output(s[0])
    } else {
        ser_output_items(s.drop_last()) + ","@ + ser_output(s.last())
    }
}

/// The canonical serialization of an output list.
pub open spec fn ser_outputs(s: Seq<OutputV>) -> Seq<char> {
    "["@ + ser_output_items(s) + "]"@
}

/// The canonical serialization of one input, in fixed field order.
pub open spec fn ser_input(i: InputV) -> Seq<char> {
    "{\"prev_tx\":\""@ + i.prev_tx + "\",\"id\":"@ + dec_rep(i.id) + ",\"value\":"@
        + amount_chars(i.value) + ",\"address\":\""@ + i.address + "\",\"public_key\":\""@
        + i.public_key + "\",\"signature\":\""@ + i.signature + "\"}"@
}

/// The comma-separated serializations of a list of inputs.
pub open spec fn ser_input_items(s: Seq<InputV>) -> Seq<char>
    decreases s.len(),
{
    if s.len() == 0 {
        Seq::empty()
    } else if s.len() == 1 {
        ser_input(s[0])
    } else {
        ser_input_items(s.drop_last()) + ","@ + ser_input(s.last())
    }
}

/// The canonical serialization of an input list.
pub open spec fn ser_inputs(s: Seq<InputV>) -> Seq<char> {
    "["@ + ser_input_items(s) + "]"@
}

// ---------------------------------------------------------------------------
// Transactions
// ---------------------------------------------------------------------------

/// An append-only transaction record.  `hash`, `vin_hash` and `vout_hash`
/// are empty until `generate_hash` computes them; `uuid` and `date` are
/// fixed at creation and carry no integrity meaning.
#[derive(Clone, Debug)]
pub struct Transaction {
    pub hash: String,
    pub uuid: String,
    pub date: i64,
    pub vin_hash: String,
    pub vout_hash: String,
    pub vout: Vec<Output>,
    pub vin: Vec<Input>,
}

/// The mathematical value of a `Transaction`.
#[verifier::ext_equal]
pub struct TxV {
    pub hash: Seq<char>,
    pub uuid: Seq<char>,
    pub date: int,
    pub vin_hash: Seq<char>,
    pub vout_hash: Seq<char>,
    pub vout: Seq<OutputV>,
    pub vin: Seq<InputV>,
}

impl View for Transaction {
    type V = TxV;

    open spec fn view(&self) -> TxV {
        TxV {
            hash: self.hash@,
            uuid: self.uuid@,
            date: self.date as int,
            vin_hash: self.vin_hash@,
            vout_hash: self.vout_hash@,
            vout: self.vout.deep_view(),
            vin: self.vin.deep_view(),
        }
    }
}

impl DeepView for Transaction {
    type V = TxV;

    open spec fn deep_view(&self) -> TxV {
        self@
    }
}

/// The canonical serialization of the scalar fields of a transaction,
/// in fixed field order.  The content hash and the lists themselves are
/// excluded: the lists enter through `vin_hash`/`vout_hash`.
pub open spec fn ser_tx_core(t: TxV) -> Seq<char> {
    "{\"uuid\":\""@ + t.uuid + "\",\"date\":"@ + int_chars(t.date) + ",\"vin_hash\":\""@
        + t.vin_hash + "\",\"vout_hash\":\""@ + t.vout_hash + "\"}"@
}

/// The list hash a correct `vout_hash` field must hold.
pub open spec fn vout_hash_of(t: TxV) -> Seq<char> {
    hash_chars(ser_outputs(t.vout))
}

/// The list hash a correct `vin_hash` field must hold.
pub open spec fn vin_hash_of(t: TxV) -> Seq<char> {
    hash_chars(ser_inputs(t.vin))
}

/// `t` with its two list-hash fields recomputed from its lists.
pub open spec fn with_list_hashes(t: TxV) -> TxV {
    TxV { vin_hash: vin_hash_of(t), vout_hash: vout_hash_of(t), ..t }
}

/// The content hash of a transaction: the digest of the canonical
/// serialization of its scalar fields, the list hashes themselves
/// recomputed from the lists first.  A function of `uuid`, `date`,
/// `vout` and `vin` alone.
pub open spec fn tx_hash(t: TxV) -> Seq<char> {
    hash_chars(ser_tx_core(with_list_hashes(t)))
}

/// `t` as `generate_hash` leaves it: list hashes and content hash
/// recomputed, everything else unchanged.
pub open spec fn rehashed(t: TxV) -> TxV {
    TxV { hash: tx_hash(t), ..with_list_hashes(t) }
}

/// Relies on `uuid::Uuid::new_v4`: a fresh random identifier of 16 bytes;
/// nothing else can be promised of it.
#[verifier::external_body]
fn random_uuid_bytes() -> (r: Vec<u8>)
    ensures
        r@.len() == 16,
{
    uuid::Uuid::new_v4().as_bytes().to_vec()
}

/// Relies on `chrono::Utc::now`: the current Unix timestamp in seconds;
/// nothing can be promised of the clock's reading.
#[verifier::external_body]
fn unix_timestamp_now() -> (r: i64) {
    chrono::Utc::now().timestamp()
}

fn ser_output_exec(o: &Output) -> (s: String)
    ensures
        s@ == ser_output(o@),
{
    let mut s = String::from_str("{\"id\":");
    s.append(u64_to_dec(o.id as u64).as_str());
    s.append(",\"value\":");
    s.append(to_float_string(o.value).as_str());
    s.append(",\"address\":\"");
    s.append(o.address.as_str());
    s.append("\"}");
    proof {
        assert(s@ =~= ser_output(o@));
    }
    s
}

fn ser_outputs_exec(v: &Vec<Output>) -> (s: String)
    ensures
        s@ == ser_outputs(v.deep_view()),
{
    let mut s = String::from_str("[");
    let mut i: usize = 0;
    while i < v.len()
        invariant
            i <= v.len(),
            s@ == "["@ + ser_output_items(v.deep_view().take(i as int)),
        decreases v.len() - i,
    {
        if i > 0 {
            s.append(",");
        }
        let item = ser_output_exec(&v[i]);
        s.append(item.as_str());
        proof {
            let dv = v.deep_view();
            assert(dv.take(i + 1).drop_last() =~= dv.take(i as int));
            assert(dv.take(i + 1).last() == v[i as int]@);
            if i > 0 {
                assert(s@ =~= "["@ + ser_output_items(dv.take(i + 1)));
            } else {
                assert(s@ =~= "["@ + ser_output_items(dv.take(1)));
            }
        }
        i += 1;
    }
    s.append("]");
    proof {
        assert(v.deep_view().take(v.len() as int) =~= v.deep_view());
        assert(s@ =~= ser_outputs(v.deep_view()));
    }
    s
}

fn ser_input_exec(inp: &Input) -> (s: String)
    ensures
        s@ == ser_input(inp@),
{
    let mut s = String::from_str("{\"prev_tx\":\"");
    s.append(inp.prev_tx.as_str());
    s.append("\",\"id\":");
    s.append(u64_to_dec(inp.id as u64).as_str());
    s.append(",\"value\":");
    s.append(to_float_string(inp.value).as_str());
    s.append(",\"address\":\"");
    s.append(inp.address.as_str());
    s.append("\",\"public_key\":\"");
    s.append(inp.public_key.as_str());
    s.append("\",\"signature\":\"");
    s.append(inp.signature.as_str());
    s.append("\"}");
    proof {
        assert(s@ =~= ser_input(inp@));
    }
    s
}

fn ser_inputs_exec(v: &Vec<Input>) -> (s: String)
    ensures
        s@ == ser_inputs(v.deep_view()),
{
    let mut s = String::from_str("[");
    let mut i: usize = 0;
    while i < v.len()
        invariant
            i <= v.len(),
            s@ == "["@ + ser_input_items(v.deep_view().take(i as int)),
        decreases v.len() - i,
    {
        if i > 0 {
            s.append(",");
        }
        let item = ser_input_exec(&v[i]);
        s.append(item.as_str());
        proof {
            let dv = v.deep_view();
            assert(dv.take(i + 1).drop_last() =~= dv.take(i as int));
            assert(dv.take(i + 1).last() == v[i as int]@);
            if i > 0 {
                assert(s@ =~= "["@ + ser_input_items(dv.take(i + 1)));
            } else {
                assert(s@ =~= "["@ + ser_input_items(dv.take(1)));
            }
        }
        i += 1;
    }
    s.append("]");
    proof {
        assert(v.deep_view().take(v.len() as int) =~= v.deep_view());
        assert(s@ =~= ser_inputs(v.deep_view()));
    }
    s
}

fn ser_tx_core_exec(t: &Transaction) -> (s: String)
    ensures
        s@ == ser_tx_core(t@),
{
    let mut s = String::from_str("{\"uuid\":\"");
    s.append(t.uuid.as_str());
    s.append("\",\"date\":");
    s.append(i64_to_dec(t.date).as_str());
    s.append(",\"vin_hash\":\"");
    s.append(t.vin_hash.as_str());
    s.append("\",\"vout_hash\":\"");
    s.append(t.vout_hash.as_str());
    s.append("\"}");
    proof {
        assert(s@ =~= ser_tx_core(t@));
    }
    s
}

impl Transaction {
    /// A fresh transaction: a random identifier, the current timestamp,
    /// empty lists and empty hash fields.
    pub fn new() -> (r: Transaction)
        ensures
            r@.hash == Seq::<char>::empty(),
            r@.vin_hash == Seq::<char>::empty(),
            r@.vout_hash == Seq::<char>::empty(),
            r@.vout.len() == 0,
            r@.vin.len() == 0,
    {
        let uuid_bytes = random_uuid_bytes();
        let r = Transaction {
            hash: String::new(),
            uuid: base58_encode(uuid_bytes.as_slice()),
            date: unix_timestamp_now(),
            vin_hash: String::new(),
            vout_hash: String::new(),
            vout: Vec::new(),
            vin: Vec::new(),
        };
        proof {
            assert(r@.vout =~= Seq::<OutputV>::empty());
            assert(r@.vin =~= Seq::<InputV>::empty());
        }
        r
    }

    /// Appends an output of `value` minor units owned by `to_address`;
    /// its id is its position in the list.  Callers reject non-positive
    /// amounts before calling.
    pub fn add_output(&mut self, value: u64, to_address: String)
        requires
            old(self)@.vout.len() < u32::MAX as int,
        ensures
            final(self)@ == (TxV {
                vout: old(self)@.vout.push(OutputV {
                    id: old(self)@.vout.len() as nat,
                    value: value as nat,
                    address: to_address@,
                }),
                ..old(self)@
            }),
    {
        let output = Output { id: self.vout.len() as u32, value, address: to_address };
        self.vout.push(output);
        proof {
            assert(final(self)@.vout =~= old(self)@.vout.push(OutputV {
                id: old(self)@.vout.len() as nat,
                value: value as nat,
                address: final(self)@.vout.last().address,
            }));
            assert(final(self)@ =~= (TxV {
                vout: old(self)@.vout.push(OutputV {
                    id: old(self)@.vout.len() as nat,
                    value: value as nat,
                    address: final(self)@.vout.last().address,
                }),
                ..old(self)@
            }));
        }
    }

    /// Replaces the input list wholesale; used once, after signing.
    pub fn set_inputs(&mut self, inputs: Vec<Input>)
        ensures
            final(self)@ == (TxV { vin: inputs.deep_view(), ..old(self)@ }),
    {
        self.vin = inputs;
        proof {
            assert(final(self)@ =~= (TxV { vin: self.vin.deep_view(), ..old(self)@ }));
        }
    }

    /// Recomputes `vout_hash`, `vin_hash` and then the content hash over
    /// the canonical serializations, in that order.  Called exactly once,
    /// after outputs and inputs are final and before persistence.
    pub fn generate_hash(&mut self)
        ensures
            final(self)@ == rehashed(old(self)@),
    {
        let vout_json = ser_outputs_exec(&self.vout);
        self.vout_hash = hash_hex_str(vout_json.as_str());
        let vin_json = ser_inputs_exec(&self.vin);
        self.vin_hash = hash_hex_str(vin_json.as_str());
        let core = ser_tx_core_exec(self);
        self.hash = hash_hex_str(core.as_str());
        proof {
            assert(final(self)@ =~= rehashed(old(self)@));
        }
    }

    /// Recomputes the hash chain and reports whether the stored content
    /// hash matched it: the check a record loaded from the store must
    /// pass before it may be trusted.  Leaves the recomputed hashes in
    /// place.
    pub fn validate(&mut self) -> (r: bool)
        ensures
            r == (old(self)@.hash == tx_hash(old(self)@)),
            final(self)@ == rehashed(old(self)@),
    {
        let prev_hash = self.hash.clone();
        self.generate_hash();
        prev_hash == self.hash
    }
}

/// A transaction validates immediately after its hash chain is computed:
/// recomputation is stable as long as the contents do not change.
pub proof fn lemma_validate_after_hash(t: TxV)
    ensures
        rehashed(t).hash == tx_hash(rehashed(t)),
{
    assert(ser_tx_core(with_list_hashes(rehashed(t))) == ser_tx_core(with_list_hashes(t)));
}

// ---------------------------------------------------------------------------
// Store records
// ---------------------------------------------------------------------------

/// The scalar fields of a transaction node as the store keeps them.
#[derive(Clone, Debug)]
pub struct TransactionNode {
    pub hash: String,
    pub uuid: String,
    pub date: i64,
    pub vin_hash: String,
    pub vout_hash: String,
}

/// The mathematical value of a `TransactionNode`.
#[verifier::ext_equal]
pub struct NodeV {
    pub hash: Seq<char>,
    pub uuid: Seq<char>,
    pub date: int,
    pub vin_hash: Seq<char>,
    pub vout_hash: Seq<char>,
}

impl View for TransactionNode {
    type V = NodeV;

    open spec fn view(&self) -> NodeV {
        NodeV {
            hash: self.hash@,
            uuid: self.uuid@,
            date: self.date as int,
            vin_hash: self.vin_hash@,
            vout_hash: self.vout_hash@,
        }
    }
}

impl DeepView for TransactionNode {
    type V = NodeV;

    open spec fn deep_view(&self) -> NodeV {
        self@
    }
}

/// One persisted transaction as the store returns it: the node's scalar
/// fields together with its full output and input node lists, in
/// unspecified order.
#[derive(Clone, Debug)]
pub struct StoredTx {
    pub node: TransactionNode,
    pub outputs: Vec<Output>,
    pub inputs: Vec<Input>,
}

/// The mathematical value of a `StoredTx`.
#[verifier::ext_equal]
pub struct RowV {
    pub node: NodeV,
    pub outputs: Seq<OutputV>,
    pub inputs: Seq<InputV>,
}

impl View for StoredTx {
    type V = RowV;

    open spec fn view(&self) -> RowV {
        RowV {
            node: self.node@,
            outputs: self.outputs.deep_view(),
            inputs: self.inputs.deep_view(),
        }
    }
}

impl DeepView for StoredTx {
    type V = RowV;

    open spec fn deep_view(&self) -> RowV {
        self@
    }
}

// ---------------------------------------------------------------------------
// Sorting restored lists
// ---------------------------------------------------------------------------

/// Stable insertion of an output into a list sorted by ascending id:
/// it comes to rest after every element of no greater id.
pub open spec fn insert_output_spec(s: Seq<OutputV>, o: OutputV) -> Seq<OutputV>
    decreases s.len(),
{
    if s.len() == 0 {
        seq![o]
    } else if s.last().id <= o.id {
        s.push(o)
    } else {
        insert_output_spec(s.drop_last(), o).push(s.last())
    }
}

/// Stable insertion sort of outputs by ascending id.
pub open spec fn sort_outputs_spec(s: Seq<OutputV>) -> Seq<OutputV>
    decreases s.len(),
{
    if s.len() == 0 {
        s
    } else {
        insert_output_spec(sort_outputs_spec(s.drop_last()), s.last())
    }
}

/// Stable insertion of an input into a list sorted by ascending id.
pub open spec fn insert_input_spec(s: Seq<InputV>, x: InputV) -> Seq<InputV>
    decreases s.len(),
{
    if s.len() == 0 {
        seq![x]
    } else if s.last().id <= x.id {
        s.push(x)
    } else {
        insert_input_spec(s.drop_last(), x).push(s.last())
    }
}

/// Stable insertion sort of inputs by ascending id.
pub open spec fn sort_inputs_spec(s: Seq<InputV>) -> Seq<InputV>
    decreases s.len(),
{
    if s.len() == 0 {
        s
    } else {
        insert_input_spec(sort_inputs_spec(s.drop_last()), s.last())
    }
}

/// Whether a list of outputs is sorted by ascending id.
pub open spec fn outputs_sorted_by_id(s: Seq<OutputV>) -> bool {
    forall|i: int, j: int| 0 <= i < j < s.len() ==> s[i].id <= s[j].id
}

/// Whether a list of inputs is sorted by ascending id.
pub open spec fn inputs_sorted_by_id(s: Seq<InputV>) -> bool {
    forall|i: int, j: int| 0 <= i < j < s.len() ==> s[i].id <= s[j].id
}

/// Sorting a list of outputs already sorted by id leaves it unchanged.
pub proof fn lemma_sort_outputs_of_sorted(s: Seq<OutputV>)
    requires
        outputs_sorted_by_id(s),
    ensures
        sort_outputs_spec(s) == s,
    decreases s.len(),
{
    if s.len() > 0 {
        assert(outputs_sorted_by_id(s.drop_last()));
        lemma_sort_outputs_of_sorted(s.drop_last());
        if s.len() == 1 {
            assert(insert_output_spec(s.drop_last(), s.last()) =~= s);
        } else {
            assert(s.drop_last().last().id <= s.last().id);
            assert(insert_output_spec(s.drop_last(), s.last()) =~= s);
        }
    }
}

/// Sorting a list of inputs already sorted by id leaves it unchanged.
pub proof fn lemma_sort_inputs_of_sorted(s: Seq<InputV>)
    requires
        inputs_sorted_by_id(s),
    ensures
        sort_inputs_spec(s) == s,
    decreases s.len(),
{
    if s.len() > 0 {
        assert(inputs_sorted_by_id(s.drop_last()));
        lemma_sort_inputs_of_sorted(s.drop_last());
        if s.len() == 1 {
            assert(insert_input_spec(s.drop_last(), s.last()) =~= s);
        } else {
            assert(s.drop_last().last().id <= s.last().id);
            assert(insert_input_spec(s.drop_last(), s.last()) =~= s);
        }
    }
}

/// A property holding of every element and of the inserted one holds of
/// every element of the insertion's result.
pub proof fn lemma_insert_input_pred(s: Seq<InputV>, x: InputV, p: spec_fn(InputV) -> bool)
    requires
        forall|k: int| 0 <= k < s.len() ==> p(#[trigger] s[k]),
        p(x),
    ensures
        insert_input_spec(s, x).len() == s.len() + 1,
        forall|k: int|
            0 <= k < insert_input_spec(s, x).len() ==> p(#[trigger] insert_input_spec(s, x)[k]),
    decreases s.len(),
{
    if s.len() == 0 {
    } else if s.last().id <= x.id {
    } else {
        assert(forall|k: int| 0 <= k < s.drop_last().len() ==> p(#[trigger] s.drop_last()[k]));
        lemma_insert_input_pred(s.drop_last(), x, p);
    }
}

/// A property holding of every element still holds of every element
/// after sorting.
pub proof fn lemma_sort_inputs_pred(s: Seq<InputV>, p: spec_fn(InputV) -> bool)
    requires
        forall|k: int| 0 <= k < s.len() ==> p(#[trigger] s[k]),
    ensures
        sort_inputs_spec(s).len() == s.len(),
        forall|k: int|
            0 <= k < sort_inputs_spec(s).len() ==> p(#[trigger] sort_inputs_spec(s)[k]),
    decreases s.len(),
{
    if s.len() > 0 {
        assert(forall|k: int| 0 <= k < s.drop_last().len() ==> p(#[trigger] s.drop_last()[k]));
        lemma_sort_inputs_pred(s.drop_last(), p);
        lemma_insert_input_pred(sort_inputs_spec(s.drop_last()), s.last(), p);
    }
}

/// Inserting into a sorted list keeps it sorted.
pub proof fn lemma_insert_input_sorted(s: Seq<InputV>, x: InputV)
    requires
        inputs_sorted_by_id(s),
    ensures
        inputs_sorted_by_id(insert_input_spec(s, x)),
    decreases s.len(),
{
    if s.len() == 0 {
    } else if s.last().id <= x.id {
        assert forall|i: int, j: int|
            0 <= i < j < s.push(x).len() implies s.push(x)[i].id <= s.push(x)[j].id by {
            if j < s.len() {
            } else {
                assert(s.push(x)[j] == x);
                if i < s.len() - 1 {
                    assert(s[i].id <= s.last().id);
                }
            }
        }
    } else {
        assert(inputs_sorted_by_id(s.drop_last()));
        lemma_insert_input_sorted(s.drop_last(), x);
        let r = insert_input_spec(s.drop_last(), x);
        let b = s.last().id;
        assert(forall|k: int| 0 <= k < s.drop_last().len() ==> (#[trigger] s.drop_last()[k]).id
            <= b);
        lemma_insert_input_pred(s.drop_last(), x, |i: InputV| i.id <= b);
        assert forall|i: int, j: int|
            0 <= i < j < r.push(s.last()).len() implies r.push(s.last())[i].id <= r.push(
            s.last(),
        )[j].id by {
            if j < r.len() {
            } else {
                assert(r.push(s.last())[j] == s.last());
                assert((|i: InputV| i.id <= b)(r[i]));
            }
        }
    }
}

/// The restored input list is sorted by ascending id.
pub proof fn lemma_sort_inputs_sorted(s: Seq<InputV>)
    ensures
        inputs_sorted_by_id(sort_inputs_spec(s)),
    decreases s.len(),
{
    if s.len() > 0 {
        lemma_sort_inputs_sorted(s.drop_last());
        lemma_insert_input_sorted(sort_inputs_spec(s.drop_last()), s.last());
    }
}

fn insert_output(v: Vec<Output>, o: Output) -> (r: Vec<Output>)
    ensures
        r.deep_view() == insert_output_spec(v.deep_view(), o@),
    decreases v.len(),
{
    let mut v = v;
    if v.len() == 0 {
        v.push(o);
        proof {
            assert(v.deep_view() =~= insert_output_spec(Seq::<OutputV>::empty(), o@));
        }
        v
    } else if v[v.len() - 1].id <= o.id {
        let ghost pre = v.deep_view();
        v.push(o);
        proof {
            assert(v.deep_view() =~= pre.push(o@));
        }
        v
    } else {
        let ghost pre = v.deep_view();
        let last = v.pop().unwrap();
        proof {
            assert(v.deep_view() =~= pre.drop_last());
        }
        let mut r = insert_output(v, o);
        let ghost mid = r.deep_view();
        r.push(last);
        proof {
            assert(r.deep_view() =~= mid.push(last@));
            assert(r.deep_view() =~= insert_output_spec(pre, o@));
        }
        r
    }
}

fn sort_outputs(v: Vec<Output>) -> (r: Vec<Output>)
    ensures
        r.deep_view() == sort_outputs_spec(v.deep_view()),
    decreases v.len(),
{
    let ghost pre = v.deep_view();
    let mut v = v;
    if v.len() == 0 {
        v
    } else {
        let last = v.pop().unwrap();
        proof {
            assert(v.deep_view() =~= pre.drop_last());
        }
        let sorted = sort_outputs(v);
        insert_output(sorted, last)
    }
}

fn insert_input(v: Vec<Input>, x: Input) -> (r: Vec<Input>)
    ensures
        r.deep_view() == insert_input_spec(v.deep_view(), x@),
    decreases v.len(),
{
    let mut v = v;
    if v.len() == 0 {
        v.push(x);
        proof {
            assert(v.deep_view() =~= insert_input_spec(Seq::<InputV>::empty(), x@));
        }
        v
    } else if v[v.len() - 1].id <= x.id {
        let ghost pre = v.deep_view();
        v.push(x);
        proof {
            assert(v.deep_view() =~= pre.push(x@));
        }
        v
    } else {
        let ghost pre = v.deep_view();
        let last = v.pop().unwrap();
        proof {
            assert(v.deep_view() =~= pre.drop_last());
        }
        let mut r = insert_input(v, x);
        let ghost mid = r.deep_view();
        r.push(last);
        proof {
            assert(r.deep_view() =~= mid.push(last@));
            assert(r.deep_view() =~= insert_input_spec(pre, x@));
        }
        r
    }
}

pub(crate) fn sort_inputs(v: Vec<Input>) -> (r: Vec<Input>)
    ensures
        r.deep_view() == sort_inputs_spec(v.deep_view()),
    decreases v.len(),
{
    let ghost pre = v.deep_view();
    let mut v = v;
    if v.len() == 0 {
        v
    } else {
        let last = v.pop().unwrap();
        proof {
            assert(v.deep_view() =~= pre.drop_last());
        }
        let sorted = sort_inputs(v);
        insert_input(sorted, last)
    }
}

pub(crate) fn clone_outputs(v: &Vec<Output>) -> (r: Vec<Output>)
    ensures
        r.deep_view() == v.deep_view(),
{
    let mut r: Vec<Output> = Vec::new();
    let mut i: usize = 0;
    while i < v.len()
        invariant
            i <= v.len(),
            r.deep_view() == v.deep_view().take(i as int),
        decreases v.len() - i,
    {
        let ghost pre = r.deep_view();
        r.push(Output { id: v[i].id, value: v[i].value, address: v[i].address.clone() });
        proof {
            assert(r.deep_view() =~= pre.push(v[i as int]@));
            assert(r.deep_view() =~= v.deep_view().take(i + 1));
        }
        i += 1;
    }
    proof {
        assert(v.deep_view().take(v.len() as int) =~= v.deep_view());
    }
    r
}

pub(crate) fn clone_inputs(v: &Vec<Input>) -> (r: Vec<Input>)
    ensures
        r.deep_view() == v.deep_view(),
{
    let mut r: Vec<Input> = Vec::new();
    let mut i: usize = 0;
    while i < v.len()
        invariant
            i <= v.len(),
            r.deep_view() == v.deep_view().take(i as int),
        decreases v.len() - i,
    {
        let ghost pre = r.deep_view();
        r.push(Input {
            prev_tx: v[i].prev_tx.clone(),
            id: v[i].id,
            value: v[i].value,
            address: v[i].address.clone(),
            public_key: v[i].public_key.clone(),
            signature: v[i].signature.clone(),
        });
        proof {
            assert(r.deep_view() =~= pre.push(v[i as int]@));
            assert(r.deep_view() =~= v.deep_view().take(i + 1));
        }
        i += 1;
    }
    proof {
        assert(v.deep_view().take(v.len() as int) =~= v.deep_view());
    }
    r
}

/// Copies one input field by field.
pub(crate) fn clone_input(x: &Input) -> (r: Input)
    ensures
        r@ == x@,
{
    Input {
        prev_tx: x.prev_tx.clone(),
        id: x.id,
        value: x.value,
        address: x.address.clone(),
        public_key: x.public_key.clone(),
        signature: x.signature.clone(),
    }
}

/// The transaction a stored record denotes: scalars copied, each list
/// restored sorted by ascending id (store iteration order is otherwise
/// unspecified).
pub open spec fn from_node_spec(r: RowV) -> TxV {
    TxV {
        hash: r.node.hash,
        uuid: r.node.uuid,
        date: r.node.date,
        vin_hash: r.node.vin_hash,
        vout_hash: r.node.vout_hash,
        vout: sort_outputs_spec(r.outputs),
        vin: sort_inputs_spec(r.inputs),
    }
}

/// The record shape under which a transaction is persisted: scalars to
/// the node, the lists as they stand.
pub open spec fn record_of(t: TxV) -> RowV {
    RowV {
        node: NodeV {
            hash: t.hash,
            uuid: t.uuid,
            date: t.date,
            vin_hash: t.vin_hash,
            vout_hash: t.vout_hash,
        },
        outputs: t.vout,
        inputs: t.vin,
    }
}

/// The lists of a transaction as the builder leaves them: output ids are
/// positional, and inputs stand sorted by ascending id.
pub open spec fn lists_canonical(t: TxV) -> bool {
    &&& forall|i: int| 0 <= i < t.vout.len() ==> (#[trigger] t.vout[i]).id == i
    &&& inputs_sorted_by_id(t.vin)
}

impl Transaction {
    /// Reconstructs a transaction from its persisted record: scalar
    /// fields copied, output and input lists restored sorted by
    /// ascending id.
    pub fn from_node(node: &TransactionNode, outputs: Vec<Output>, inputs: Vec<Input>) -> (r:
        Transaction)
        ensures
            r@ == from_node_spec(
                (RowV { node: node@, outputs: outputs.deep_view(), inputs: inputs.deep_view() }),
            ),
    {
        let r = Transaction {
            hash: node.hash.clone(),
            uuid: node.uuid.clone(),
            date: node.date,
            vin_hash: node.vin_hash.clone(),
            vout_hash: node.vout_hash.clone(),
            vout: sort_outputs(outputs),
            vin: sort_inputs(inputs),
        };
        proof {
            assert(r@ =~= from_node_spec(
                (RowV {
                    node: node@,
                    outputs: outputs.deep_view(),
                    inputs: inputs.deep_view(),
                }),
            ));
        }
        r
    }

    /// The record under which this transaction is persisted.
    pub fn to_record(&self) -> (r: StoredTx)
        ensures
            r@ == record_of(self@),
    {
        let r = StoredTx {
            node: TransactionNode {
                hash: self.hash.clone(),
                uuid: self.uuid.clone(),
                date: self.date,
                vin_hash: self.vin_hash.clone(),
                vout_hash: self.vout_hash.clone(),
            },
            outputs: clone_outputs(&self.vout),
            inputs: clone_inputs(&self.vin),
        };
        proof {
            assert(r@ =~= record_of(self@));
        }
        r
    }
}

/// Round trip through the store record shape: reconstructing the record
/// of a canonically built transaction restores that transaction exactly,
/// and in particular recomputing its hash gives the same hash.
pub proof fn lemma_record_round_trip(t: TxV)
    requires
        lists_canonical(t),
    ensures
        from_node_spec(record_of(t)) == t,
        tx_hash(from_node_spec(record_of(t))) == tx_hash(t),
{
    assert(outputs_sorted_by_id(t.vout));
    lemma_sort_outputs_of_sorted(t.vout);
    lemma_sort_inputs_of_sorted(t.vin);
    assert(from_node_spec(record_of(t)) =~= t);
}

} // verus!
