//! Value-transfer records and their digests.
use vstd::prelude::*;

use crate::decimal::{decimal, push_decimal};
use crate::hash::{blake2s_256, le_u32, le_u64, Hash256, HASH256_BYTES};
use crate::hex::{bytes_to_hex, hex_encode};

verus! {

/// Identifies one output of an earlier transaction.
pub struct OutPoint {
    hash: [u8; HASH256_BYTES],
    index: u32,
}

/// The mathematical value of an `OutPoint`: the referenced digest and the
/// output index.
pub struct OutPointView {
    pub hash: Seq<u8>,
    pub index: u32,
}

impl View for OutPoint {
    type V = OutPointView;

    closed spec fn view(&self) -> OutPointView {
        OutPointView { hash: self.hash@, index: self.index }
    }
}

/// The bytes that an out-point contributes to a digest.
pub open spec fn out_point_bytes(o: OutPointView) -> Seq<u8> {
    o.hash + le_u32(o.index)
}

impl OutPoint {
    fn hash(&self, hash: &mut Hash256)
        ensures
            final(hash)@ == old(hash)@ + out_point_bytes(self@),
    {
        hash.write(&self.hash);
        hash.write_u32_le(self.index);
        assert(final(hash)@ =~= old(hash)@ + out_point_bytes(self@));
    }
}

/// A reference to the output that a transaction spends.
pub struct TransactionInput {
    previous_out: OutPoint,
}

impl View for TransactionInput {
    type V = OutPointView;

    closed spec fn view(&self) -> OutPointView {
        self.previous_out@
    }
}

impl TransactionInput {
    fn hash(&self, hash: &mut Hash256)
        ensures
            final(hash)@ == old(hash)@ + out_point_bytes(self@),
    {
        self.previous_out.hash(hash);
    }
}

/// A new output of a transaction.
pub struct TransactionOutput {
    amount: u64,
}

impl View for TransactionOutput {
    type V = u64;

    closed spec fn view(&self) -> u64 {
        self.amount
    }
}

impl TransactionOutput {
    fn hash(&self, hash: &mut Hash256)
        ensures
            final(hash)@ == old(hash)@ + le_u64(self@),
    {
        hash.write_u64_le(self.amount);
    }
}

/// A transaction: inputs that spend earlier outputs, and new outputs.
pub struct Transaction {
    version: u32,
    timestamp: u64,
    inputs: Vec<TransactionInput>,
    outputs: Vec<TransactionOutput>,
}

/// The mathematical value of a `Transaction`.
pub struct TransactionView {
    pub version: u32,
    pub timestamp: u64,
    pub inputs: Seq<OutPointView>,
    pub outputs: Seq<u64>,
}

impl View for Transaction {
    type V = TransactionView;

    closed spec fn view(&self) -> TransactionView {
        TransactionView {
            version: self.version,
            timestamp: self.timestamp,
            inputs: self.inputs@.map_values(|i: TransactionInput| i@),
            outputs: self.outputs@.map_values(|o: TransactionOutput| o@),
        }
    }
}

/// The bytes of the inputs, in order.
pub open spec fn inputs_bytes(ins: Seq<OutPointView>) -> Seq<u8>
    decreases ins.len(),
{
    if ins.len() == 0 {
        Seq::empty()
    } else {
        inputs_bytes(ins.drop_last()) + out_point_bytes(ins.last())
    }
}

/// The bytes of the output amounts, in order.
pub open spec fn outputs_bytes(outs: Seq<u64>) -> Seq<u8>
    decreases outs.len(),
{
    if outs.len() == 0 {
        Seq::empty()
    } else {
        outputs_bytes(outs.drop_last()) + le_u64(outs.last())
    }
}

/// The byte stream that a transaction's digest is computed over: version,
/// timestamp, each input's digest and index, each output's amount.
pub open spec fn tx_hash_input(t: TransactionView) -> Seq<u8> {
    le_u32(t.version) + le_u64(t.timestamp) + inputs_bytes(t.inputs) + outputs_bytes(t.outputs)
}

/// The digest of a transaction.
pub open spec fn tx_digest(t: TransactionView) -> Seq<u8> {
    blake2s_256(tx_hash_input(t))
}

/// The digest of a transaction is a function of its fields: equal field
/// values give equal digests.
pub proof fn lemma_digest_deterministic(a: TransactionView, b: TransactionView)
    requires
        a == b,
    ensures
        tx_digest(a) == tx_digest(b),
{
}

proof fn lemma_le_u32_injective(x: u32, y: u32)
    requires
        le_u32(x) == le_u32(y),
    ensures
        x == y,
{
    assert(le_u32(x)[0] == le_u32(y)[0]);
    assert(le_u32(x)[1] == le_u32(y)[1]);
    assert(le_u32(x)[2] == le_u32(y)[2]);
    assert(le_u32(x)[3] == le_u32(y)[3]);
}

proof fn lemma_le_u64_injective(x: u64, y: u64)
    requires
        le_u64(x) == le_u64(y),
    ensures
        x == y,
{
    let lx = (x % 0x1_0000_0000) as u32;
    let hx = (x / 0x1_0000_0000) as u32;
    let ly = (y % 0x1_0000_0000) as u32;
    let hy = (y / 0x1_0000_0000) as u32;
    assert(le_u32(lx) =~= le_u64(x).subrange(0, 4));
    assert(le_u32(ly) =~= le_u64(y).subrange(0, 4));
    assert(le_u32(hx) =~= le_u64(x).subrange(4, 8));
    assert(le_u32(hy) =~= le_u64(y).subrange(4, 8));
    lemma_le_u32_injective(lx, ly);
    lemma_le_u32_injective(hx, hy);
}

/// Every referenced digest has the digest length.
pub open spec fn inputs_wf(ins: Seq<OutPointView>) -> bool {
    forall|i: int| 0 <= i < ins.len() ==> (#[trigger] ins[i]).hash.len() == HASH256_BYTES
}

proof fn lemma_inputs_bytes_len(ins: Seq<OutPointView>)
    requires
        inputs_wf(ins),
    ensures
        inputs_bytes(ins).len() == 36 * ins.len(),
    decreases ins.len(),
{
    if ins.len() > 0 {
        lemma_inputs_bytes_len(ins.drop_last());
    }
}

proof fn lemma_outputs_bytes_len(outs: Seq<u64>)
    ensures
        outputs_bytes(outs).len() == 8 * outs.len(),
    decreases outs.len(),
{
    if outs.len() > 0 {
        lemma_outputs_bytes_len(outs.drop_last());
    }
}

proof fn lemma_inputs_bytes_injective(a: Seq<OutPointView>, b: Seq<OutPointView>)
    requires
        inputs_wf(a),
        inputs_wf(b),
        a.len() == b.len(),
        inputs_bytes(a) == inputs_bytes(b),
    ensures
        a == b,
    decreases a.len(),
{
    if a.len() > 0 {
        let (pa, pb) = (a.drop_last(), b.drop_last());
        lemma_inputs_bytes_len(pa);
        lemma_inputs_bytes_len(pb);
        let n = inputs_bytes(pa).len() as int;
        let (ea, eb) = (inputs_bytes(a), inputs_bytes(b));
        assert(ea.subrange(0, n) =~= inputs_bytes(pa));
        assert(eb.subrange(0, n) =~= inputs_bytes(pb));
        lemma_inputs_bytes_injective(pa, pb);
        let (oa, ob) = (a.last(), b.last());
        assert(ea.subrange(n, n + 32) =~= oa.hash);
        assert(eb.subrange(n, n + 32) =~= ob.hash);
        assert(ea.subrange(n + 32, n + 36) =~= le_u32(oa.index));
        assert(eb.subrange(n + 32, n + 36) =~= le_u32(ob.index));
        lemma_le_u32_injective(oa.index, ob.index);
        assert(a =~= pa.push(oa));
        assert(b =~= pb.push(ob));
    } else {
        assert(a =~= b);
    }
}

proof fn lemma_outputs_bytes_injective(a: Seq<u64>, b: Seq<u64>)
    requires
        a.len() == b.len(),
        outputs_bytes(a) == outputs_bytes(b),
    ensures
        a == b,
    decreases a.len(),
{
    if a.len() > 0 {
        let (pa, pb) = (a.drop_last(), b.drop_last());
        lemma_outputs_bytes_len(pa);
        lemma_outputs_bytes_len(pb);
        let n = outputs_bytes(pa).len() as int;
        let (ea, eb) = (outputs_bytes(a), outputs_bytes(b));
        assert(ea.subrange(0, n) =~= outputs_bytes(pa));
        assert(eb.subrange(0, n) =~= outputs_bytes(pb));
        lemma_outputs_bytes_injective(pa, pb);
        assert(ea.subrange(n, n + 8) =~= le_u64(a.last()));
        assert(eb.subrange(n, n + 8) =~= le_u64(b.last()));
        lemma_le_u64_injective(a.last(), b.last());
        assert(a =~= pa.push(a.last()));
        assert(b =~= pb.push(b.last()));
    } else {
        assert(a =~= b);
    }
}

/// For transactions with the same numbers of inputs and of outputs, the
/// byte stream that the digest is computed over determines every field:
/// changing the version, the timestamp, any input reference or any output
/// amount, or reordering them, changes the bytes that are hashed.
pub proof fn lemma_hash_input_injective(a: TransactionView, b: TransactionView)
    requires
        inputs_wf(a.inputs),
        inputs_wf(b.inputs),
        a.inputs.len() == b.inputs.len(),
        a.outputs.len() == b.outputs.len(),
        tx_hash_input(a) == tx_hash_input(b),
    ensures
        a.version == b.version,
        a.timestamp == b.timestamp,
        a.inputs == b.inputs,
        a.outputs == b.outputs,
{
    let (ea, eb) = (tx_hash_input(a), tx_hash_input(b));
    lemma_inputs_bytes_len(a.inputs);
    lemma_inputs_bytes_len(b.inputs);
    let n = 12 + inputs_bytes(a.inputs).len() as int;
    assert(ea.subrange(0, 4) =~= le_u32(a.version));
    assert(eb.subrange(0, 4) =~= le_u32(b.version));
    assert(ea.subrange(4, 12) =~= le_u64(a.timestamp));
    assert(eb.subrange(4, 12) =~= le_u64(b.timestamp));
    assert(ea.subrange(12, n) =~= inputs_bytes(a.inputs));
    assert(eb.subrange(12, n) =~= inputs_bytes(b.inputs));
    assert(ea.subrange(n, ea.len() as int) =~= outputs_bytes(a.outputs));
    assert(eb.subrange(n, eb.len() as int) =~= outputs_bytes(b.outputs));
    lemma_le_u32_injective(a.version, b.version);
    lemma_le_u64_injective(a.timestamp, b.timestamp);
    lemma_inputs_bytes_injective(a.inputs, b.inputs);
    lemma_outputs_bytes_injective(a.outputs, b.outputs);
}

/// Every input of a transaction references a digest of the digest length.
pub proof fn lemma_inputs_wf(t: Transaction)
    ensures
        inputs_wf(t@.inputs),
{
    assert forall|i: int| 0 <= i < t@.inputs.len() implies (#[trigger] t@.inputs[i]).hash.len()
        == HASH256_BYTES by {
        assert(t@.inputs[i] == t.inputs@[i]@);
    }
}

impl Transaction {
    /// Version 1, timestamp 0, no inputs and no outputs.
    pub fn new() -> (t: Transaction)
        ensures
            t@.version == 1,
            t@.timestamp == 0,
            t@.inputs == Seq::<OutPointView>::empty(),
            t@.outputs == Seq::<u64>::empty(),
    {
        let t = Transaction { version: 1, timestamp: 0, inputs: Vec::new(), outputs: Vec::new() };
        assert(t@.inputs =~= Seq::<OutPointView>::empty());
        assert(t@.outputs =~= Seq::<u64>::empty());
        t
    }

    pub fn set_timestamp(&mut self, ts: u64)
        ensures
            final(self)@ == (TransactionView { timestamp: ts, ..old(self)@ }),
    {
        self.timestamp = ts;
        assert(self.inputs@.map_values(|i: TransactionInput| i@) =~= old(self)@.inputs);
        assert(self.outputs@.map_values(|o: TransactionOutput| o@) =~= old(self)@.outputs);
    }

    /// Appends an output of `amount` after the existing ones.
    pub fn add_output(&mut self, amount: u64)
        ensures
            final(self)@ == (TransactionView {
                outputs: old(self)@.outputs.push(amount),
                ..old(self)@
            }),
    {
        let output = TransactionOutput { amount: amount };
        self.outputs.push(output);
        assert(self.inputs@.map_values(|i: TransactionInput| i@) =~= old(self)@.inputs);
        assert(self.outputs@.map_values(|o: TransactionOutput| o@) =~= old(
            self,
        )@.outputs.push(amount));
    }

    /// Writes the digest of the transaction into `buf`.
    pub fn get_hash(&self, buf: &mut [u8])
        requires
            old(buf)@.len() == HASH256_BYTES,
        ensures
            final(buf)@ == tx_digest(self@),
    {
        let mut hash = Hash256::new();
        hash.write_u32_le(self.version);
        hash.write_u64_le(self.timestamp);
        let ghost head = hash@;
        let mut i: usize = 0;
        while i < self.inputs.len()
            invariant
                i <= self.inputs@.len(),
                hash@ == head + inputs_bytes(self@.inputs.subrange(0, i as int)),
            decreases self.inputs@.len() - i,
        {
            self.inputs[i].hash(&mut hash);
            i = i + 1;
            assert(self@.inputs.subrange(0, i as int).drop_last() =~= self@.inputs.subrange(
                0,
                i - 1 as int,
            ));
            assert(hash@ =~= head + inputs_bytes(self@.inputs.subrange(0, i as int)));
        }
        assert(self@.inputs.subrange(0, i as int) =~= self@.inputs);
        let ghost mid = hash@;
        let mut k: usize = 0;
        while k < self.outputs.len()
            invariant
                k <= self.outputs@.len(),
                hash@ == mid + outputs_bytes(self@.outputs.subrange(0, k as int)),
            decreases self.outputs@.len() - k,
        {
            self.outputs[k].hash(&mut hash);
            k = k + 1;
            assert(self@.outputs.subrange(0, k as int).drop_last() =~= self@.outputs.subrange(
                0,
                k - 1 as int,
            ));
            assert(hash@ =~= mid + outputs_bytes(self@.outputs.subrange(0, k as int)));
        }
        assert(self@.outputs.subrange(0, k as int) =~= self@.outputs);
        assert(hash@ =~= tx_hash_input(self@));
        hash.finalize(buf);
    }
}

/// The line that shows an output amount.
pub open spec fn output_text(amount: u64) -> Seq<char> {
    "    amount: "@ + decimal(amount as nat) + "\n"@
}

/// The lines of the outputs, in order.
pub open spec fn outputs_text(outs: Seq<u64>) -> Seq<char>
    decreases outs.len(),
{
    if outs.len() == 0 {
        Seq::empty()
    } else {
        outputs_text(outs.drop_last()) + output_text(outs.last())
    }
}

/// The human-readable form of a transaction: digest, version, timestamp,
/// and the amount of each output, followed by an empty line.
pub open spec fn tx_text(t: TransactionView) -> Seq<char> {
    "  tx _hash:    "@ + hex_encode(tx_digest(t)) + "\n"@ + "  version:     "@ + decimal(
        t.version as nat,
    ) + "\n"@ + "  timestamp:   "@ + decimal(t.timestamp as nat) + "\n"@ + "  inputs:\n"@
        + "  outputs:\n"@ + outputs_text(t.outputs) + "\n"@
}

impl Transaction {
    /// The human-readable form of the transaction.
    pub fn render(&self) -> (r: String)
        ensures
            r@ == tx_text(self@),
    {
        let mut digest = [0u8; HASH256_BYTES];
        self.get_hash(&mut digest);
        let mut r = String::new();
        r.append("  tx _hash:    ");
        r.append(bytes_to_hex(digest.as_slice()).as_str());
        r.append("\n");
        r.append("  version:     ");
        push_decimal(&mut r, self.version as u64);
        r.append("\n");
        r.append("  timestamp:   ");
        push_decimal(&mut r, self.timestamp);
        r.append("\n");
        r.append("  inputs:\n");
        r.append("  outputs:\n");
        let ghost head = r@;
        let mut k: usize = 0;
        while k < self.outputs.len()
            invariant
                k <= self.outputs@.len(),
                r@ == head + outputs_text(self@.outputs.take(k as int)),
            decreases self.outputs@.len() - k,
        {
            r.append("    amount: ");
            push_decimal(&mut r, self.outputs[k].amount);
            r.append("\n");
            k = k + 1;
            assert(self@.outputs.take(k as int).drop_last() =~= self@.outputs.take(k - 1 as int));
            assert(r@ =~= head + outputs_text(self@.outputs.take(k as int)));
        }
        assert(self@.outputs.take(k as int) =~= self@.outputs);
        r.append("\n");
        assert(r@ =~= tx_text(self@));
        r
    }
}

} // verus!
