//! Transactions: inputs that consume unspent outputs, outputs that create
//! new ones, and the coinbase variant that pays the mining reward.

use crate::encoding::{bytes_equal, le_bytes, push_bytes, push_u32, push_u64};
use crate::error::{BondError, BondErrorView, BondResult};
use crate::hashing::{keccak256, keccak256_digest};
use crate::encoding::leading;
use crate::text::{
    decimal, hex_bytes, hex_decode, hex_encode, hex_string, is_hex_text, joined, push_decimal,
};
use crate::timestamp::Timestamp;
use crate::crypto::signature::{verification, verify};
use crate::crypto::types::{KeyMaterial, PublicKey, Signature};
use crate::crypto::SecurityLevel;
use crate::encoding::copy_range;
use crate::utxo::{framed, push_framed, Script, UtxoId, UtxoIdView};
use crate::utxo_set::UtxoSet;
use vstd::prelude::*;
use vstd::string::StringExecFns;

verus! {

/// The Keccak-256 hash of a transaction.
#[derive(Debug, Clone, Copy, PartialEq, Eq, Hash)]
pub struct TransactionHash(pub [u8; 32]);

impl View for TransactionHash {
    type V = Seq<u8>;

    open spec fn view(&self) -> Seq<u8> {
        self.0@
    }
}

impl TransactionHash {
    /// The all-zero hash.
    pub fn zero() -> (r: Self)
        ensures
            r@ == Seq::new(32, |i: int| 0u8),
    {
        let r = TransactionHash([0u8; 32]);
        assert(r@ =~= Seq::new(32, |i: int| 0u8));
        r
    }

    /// The hash with the given bytes.
    pub fn from_bytes(bytes: [u8; 32]) -> (r: Self)
        ensures
            r@ == bytes@,
    {
        TransactionHash(bytes)
    }

    /// The 32 bytes.
    pub fn as_bytes(&self) -> (r: &[u8; 32])
        ensures
            r@ == self@,
    {
        &self.0
    }

    /// Whether two hashes hold the same bytes.
    pub fn same_as(&self, other: &TransactionHash) -> (r: bool)
        ensures
            r == (self@ == other@),
    {
        bytes_equal(self.0.as_slice(), other.0.as_slice())
    }

    /// The hash in lowercase hexadecimal.
    pub fn to_string(&self) -> (r: String)
        ensures
            r@ == hex_string(self@),
    {
        hex_encode(self.0.as_slice())
    }
}

/// An input: the output it consumes and the script that authorizes that.
#[derive(Debug, PartialEq)]
pub struct TransactionInput {
    /// The unspent output being consumed.
    pub previous_output: UtxoId,
    /// The authorization script.
    pub script_sig: Script,
    /// Sequence number.
    pub sequence: u32,
}

/// The mathematical content of a [`TransactionInput`].
pub struct InputView {
    pub previous_output: UtxoIdView,
    pub script_sig: Seq<u8>,
    pub sequence: u32,
}

impl View for TransactionInput {
    type V = InputView;

    open spec fn view(&self) -> InputView {
        InputView {
            previous_output: self.previous_output@,
            script_sig: self.script_sig@,
            sequence: self.sequence,
        }
    }
}

impl Clone for TransactionInput {
    fn clone(&self) -> (r: Self)
        ensures
            r@ == self@,
    {
        TransactionInput {
            previous_output: self.previous_output,
            script_sig: self.script_sig.clone(),
            sequence: self.sequence,
        }
    }
}

/// An output: a value in Elo and the script that guards it.
#[derive(Debug, PartialEq)]
pub struct TransactionOutput {
    /// Amount in Elo.
    pub value: u64,
    /// The script that a spender must satisfy.
    pub script_pubkey: Script,
}

/// The mathematical content of a [`TransactionOutput`].
pub struct OutputView {
    pub value: u64,
    pub script_pubkey: Seq<u8>,
}

impl View for TransactionOutput {
    type V = OutputView;

    open spec fn view(&self) -> OutputView {
        OutputView { value: self.value, script_pubkey: self.script_pubkey@ }
    }
}

impl Clone for TransactionOutput {
    fn clone(&self) -> (r: Self)
        ensures
            r@ == self@,
    {
        TransactionOutput { value: self.value, script_pubkey: self.script_pubkey.clone() }
    }
}

/// A transaction.
#[derive(Debug, PartialEq)]
pub struct Transaction {
    /// Format version; zero is invalid.
    pub version: u32,
    /// The outputs consumed.
    pub inputs: Vec<TransactionInput>,
    /// The outputs created.
    pub outputs: Vec<TransactionOutput>,
    /// Lock time.
    pub locktime: u32,
    /// When the transaction was made.
    pub timestamp: Timestamp,
}

/// The mathematical content of a [`Transaction`].
pub struct TransactionView {
    pub version: u32,
    pub inputs: Seq<InputView>,
    pub outputs: Seq<OutputView>,
    pub locktime: u32,
    pub timestamp: Timestamp,
}

/// The views of a list of inputs.
pub open spec fn input_views(inputs: Seq<TransactionInput>) -> Seq<InputView> {
    inputs.map_values(|input: TransactionInput| input@)
}

/// The views of a list of outputs.
pub open spec fn output_views(outputs: Seq<TransactionOutput>) -> Seq<OutputView> {
    outputs.map_values(|output: TransactionOutput| output@)
}

impl View for Transaction {
    type V = TransactionView;

    open spec fn view(&self) -> TransactionView {
        TransactionView {
            version: self.version,
            inputs: input_views(self.inputs@),
            outputs: output_views(self.outputs@),
            locktime: self.locktime,
            timestamp: self.timestamp,
        }
    }
}

/// A copy of a list of inputs.
pub fn clone_inputs(inputs: &Vec<TransactionInput>) -> (r: Vec<TransactionInput>)
    ensures
        input_views(r@) == input_views(inputs@),
{
    let mut out: Vec<TransactionInput> = Vec::with_capacity(inputs.len());
    let mut i: usize = 0;
    while i < inputs.len()
        invariant
            i <= inputs@.len(),
            out@.len() == i,
            forall|j: int| 0 <= j < i ==> out@[j]@ == inputs@[j]@,
        decreases inputs@.len() - i,
    {
        out.push(inputs[i].clone());
        i += 1;
    }
    assert(input_views(out@) =~= input_views(inputs@));
    out
}

/// A copy of a list of outputs.
pub fn clone_outputs(outputs: &Vec<TransactionOutput>) -> (r: Vec<TransactionOutput>)
    ensures
        output_views(r@) == output_views(outputs@),
{
    let mut out: Vec<TransactionOutput> = Vec::with_capacity(outputs.len());
    let mut i: usize = 0;
    while i < outputs.len()
        invariant
            i <= outputs@.len(),
            out@.len() == i,
            forall|j: int| 0 <= j < i ==> out@[j]@ == outputs@[j]@,
        decreases outputs@.len() - i,
    {
        out.push(outputs[i].clone());
        i += 1;
    }
    assert(output_views(out@) =~= output_views(outputs@));
    out
}

impl Clone for Transaction {
    fn clone(&self) -> (r: Self)
        ensures
            r@ == self@,
    {
        Transaction {
            version: self.version,
            inputs: clone_inputs(&self.inputs),
            outputs: clone_outputs(&self.outputs),
            locktime: self.locktime,
            timestamp: self.timestamp,
        }
    }
}

/// The encodings of the items of a list, one after the other.
pub open spec fn concat_encodings<T>(items: Seq<T>, encode: spec_fn(T) -> Seq<u8>) -> Seq<u8>
    decreases items.len(),
{
    if items.len() == 0 {
        Seq::empty()
    } else {
        concat_encodings(items.drop_last(), encode) + encode(items.last())
    }
}

impl InputView {
    /// The canonical encoding: the reference, the framed script, the
    /// sequence number in four little-endian bytes.
    pub open spec fn encoding(self) -> Seq<u8> {
        self.previous_output.encoding() + framed(self.script_sig) + le_bytes(
            self.sequence as nat,
            4,
        )
    }

    /// The input with its authorization script cleared.
    pub open spec fn unsigned(self) -> InputView {
        InputView {
            previous_output: self.previous_output,
            script_sig: Seq::empty(),
            sequence: self.sequence,
        }
    }
}

impl OutputView {
    /// The canonical encoding: the value in eight little-endian bytes, then
    /// the framed script.
    pub open spec fn encoding(self) -> Seq<u8> {
        le_bytes(self.value as nat, 8) + framed(self.script_pubkey)
    }
}

/// The sum of the values of a list of outputs.
pub open spec fn value_sum(outputs: Seq<OutputView>) -> nat
    decreases outputs.len(),
{
    if outputs.len() == 0 {
        0
    } else {
        value_sum(outputs.drop_last()) + outputs.last().value as nat
    }
}

impl TransactionView {
    /// The canonical encoding: version, the number of inputs in eight bytes
    /// and the inputs, the number of outputs in eight bytes and the outputs,
    /// lock time, timestamp; integers little-endian.
    pub open spec fn encoding(self) -> Seq<u8> {
        le_bytes(self.version as nat, 4) + le_bytes(self.inputs.len(), 8) + concat_encodings(
            self.inputs,
            |input: InputView| input.encoding(),
        ) + le_bytes(self.outputs.len(), 8) + concat_encodings(
            self.outputs,
            |output: OutputView| output.encoding(),
        ) + le_bytes(self.locktime as nat, 4) + self.timestamp.encoding()
    }

    /// The hash: Keccak-256 of the canonical encoding.
    pub open spec fn hash(self) -> Seq<u8> {
        keccak256(self.encoding())
    }

    /// A coinbase has exactly one input, and that input carries the
    /// coinbase reference.
    pub open spec fn is_coinbase(self) -> bool {
        self.inputs.len() == 1 && self.inputs[0].previous_output == UtxoIdView::coinbase()
    }

    /// The transaction with the authorization script of every input cleared.
    pub open spec fn unsigned(self) -> TransactionView {
        TransactionView {
            version: self.version,
            inputs: self.inputs.map_values(|input: InputView| input.unsigned()),
            outputs: self.outputs,
            locktime: self.locktime,
            timestamp: self.timestamp,
        }
    }

    /// The message that a signature for the input with reference
    /// `previous_output` signs: Keccak-256 of the encoding of the transaction
    /// without authorization scripts, followed by the encoded reference.
    pub open spec fn signature_hash(self, previous_output: UtxoIdView) -> Seq<u8> {
        keccak256(self.unsigned().encoding() + previous_output.encoding())
    }

    /// The structural rules: the first that is broken, if any.
    pub open spec fn structural_outcome(self) -> Result<(), BondErrorView> {
        if self.version == 0 {
            Err(
                BondErrorView::InvalidTransaction {
                    reason: "Transaction version cannot be zero"@,
                },
            )
        } else if self.inputs.len() == 0 {
            Err(
                BondErrorView::InvalidTransaction {
                    reason: "Non-coinbase transaction must have at least one input"@,
                },
            )
        } else if self.outputs.len() == 0 {
            Err(
                BondErrorView::InvalidTransaction {
                    reason: "Transaction must have at least one output"@,
                },
            )
        } else if exists|i: int| 0 <= i < self.outputs.len() && self.outputs[i].value == 0 {
            Err(
                BondErrorView::InvalidTransaction {
                    reason: "Transaction output cannot have zero value"@,
                },
            )
        } else {
            Ok(())
        }
    }

    /// The total value of the outputs, unless it overflows 64 bits.
    pub open spec fn output_total(self) -> Result<u64, BondErrorView> {
        if value_sum(self.outputs) > u64::MAX {
            Err(BondErrorView::ArithmeticOverflow { operation: "output value sum"@ })
        } else {
            Ok(value_sum(self.outputs) as u64)
        }
    }
}

impl TransactionInput {
    /// The input with the given fields.
    pub fn new(previous_output: UtxoId, script_sig: Script, sequence: u32) -> (r: Self)
        ensures
            r@ == (InputView {
                previous_output: previous_output@,
                script_sig: script_sig@,
                sequence,
            }),
    {
        TransactionInput { previous_output, script_sig, sequence }
    }

    /// Appends the canonical encoding to `out`.
    pub fn encode_into(&self, out: &mut Vec<u8>)
        ensures
            final(out)@ == old(out)@ + self@.encoding(),
    {
        let ghost before = out@;
        push_bytes(out, self.previous_output.to_bytes().as_slice());
        push_framed(out, self.script_sig.data());
        push_u32(out, self.sequence);
        assert(out@ =~= before + self@.encoding());
    }
}

impl TransactionOutput {
    /// The output with the given fields.
    pub fn new(value: u64, script_pubkey: Script) -> (r: Self)
        ensures
            r@ == (OutputView { value, script_pubkey: script_pubkey@ }),
    {
        TransactionOutput { value, script_pubkey }
    }

    /// Appends the canonical encoding to `out`.
    pub fn encode_into(&self, out: &mut Vec<u8>)
        ensures
            final(out)@ == old(out)@ + self@.encoding(),
    {
        let ghost before = out@;
        push_u64(out, self.value);
        push_framed(out, self.script_pubkey.data());
        assert(out@ =~= before + self@.encoding());
    }
}

fn encode_inputs(inputs: &Vec<TransactionInput>, clear_scripts: bool, out: &mut Vec<u8>)
    ensures
        final(out)@ == old(out)@ + concat_encodings(
            if clear_scripts {
                input_views(inputs@).map_values(|input: InputView| input.unsigned())
            } else {
                input_views(inputs@)
            },
            |input: InputView| input.encoding(),
        ),
{
    let ghost views = if clear_scripts {
        input_views(inputs@).map_values(|input: InputView| input.unsigned())
    } else {
        input_views(inputs@)
    };
    let ghost encode = |input: InputView| input.encoding();
    let mut i: usize = 0;
    assert(views.subrange(0, 0) =~= Seq::<InputView>::empty());
    assert(out@ + concat_encodings(views.subrange(0, 0), encode) =~= out@);
    while i < inputs.len()
        invariant
            i <= inputs@.len(),
            views.len() == inputs@.len(),
            views == if clear_scripts {
                input_views(inputs@).map_values(|input: InputView| input.unsigned())
            } else {
                input_views(inputs@)
            },
            encode == |input: InputView| input.encoding(),
            out@ == old(out)@ + concat_encodings(views.subrange(0, i as int), encode),
        decreases inputs@.len() - i,
    {
        let ghost before = out@;
        if clear_scripts {
            push_bytes(out, inputs[i].previous_output.to_bytes().as_slice());
            push_framed(out, Vec::new().as_slice());
            push_u32(out, inputs[i].sequence);
        } else {
            inputs[i].encode_into(out);
        }
        proof {
            let next = views.subrange(0, i as int + 1);
            assert(next.drop_last() =~= views.subrange(0, i as int));
            assert(next.last() == views[i as int]);
            assert(out@ =~= before + views[i as int].encoding());
            assert(out@ =~= old(out)@ + concat_encodings(next, encode));
        }
        i += 1;
    }
    assert(views.subrange(0, inputs@.len() as int) =~= views);
}

fn encode_outputs(outputs: &Vec<TransactionOutput>, out: &mut Vec<u8>)
    ensures
        final(out)@ == old(out)@ + concat_encodings(
            output_views(outputs@),
            |output: OutputView| output.encoding(),
        ),
{
    let ghost views = output_views(outputs@);
    let ghost encode = |output: OutputView| output.encoding();
    let mut i: usize = 0;
    assert(views.subrange(0, 0) =~= Seq::<OutputView>::empty());
    assert(out@ + concat_encodings(views.subrange(0, 0), encode) =~= out@);
    while i < outputs.len()
        invariant
            i <= outputs@.len(),
            views == output_views(outputs@),
            encode == |output: OutputView| output.encoding(),
            out@ == old(out)@ + concat_encodings(views.subrange(0, i as int), encode),
        decreases outputs@.len() - i,
    {
        let ghost before = out@;
        outputs[i].encode_into(out);
        proof {
            let next = views.subrange(0, i as int + 1);
            assert(next.drop_last() =~= views.subrange(0, i as int));
            assert(next.last() == views[i as int]);
            assert(out@ =~= old(out)@ + concat_encodings(next, encode));
        }
        i += 1;
    }
    assert(views.subrange(0, outputs@.len() as int) =~= views);
}

impl Transaction {
    /// A transaction with the given fields, stamped with the current time.
    pub fn new(
        version: u32,
        inputs: Vec<TransactionInput>,
        outputs: Vec<TransactionOutput>,
        locktime: u32,
    ) -> (r: Self)
        ensures
            r@ == (TransactionView {
                version,
                inputs: input_views(inputs@),
                outputs: output_views(outputs@),
                locktime,
                timestamp: r.timestamp,
            }),
    {
        Transaction { version, inputs, outputs, locktime, timestamp: Timestamp::now() }
    }

    /// A transaction with the given fields and timestamp.
    pub fn with_timestamp(
        version: u32,
        inputs: Vec<TransactionInput>,
        outputs: Vec<TransactionOutput>,
        locktime: u32,
        timestamp: Timestamp,
    ) -> (r: Self)
        ensures
            r@ == (TransactionView {
                version,
                inputs: input_views(inputs@),
                outputs: output_views(outputs@),
                locktime,
                timestamp,
            }),
    {
        Transaction { version, inputs, outputs, locktime, timestamp }
    }

    /// The coinbase that pays `reward`, stamped with the current time: one
    /// input with the coinbase reference, `extra_data` as its script and the
    /// largest sequence number; one output with an empty script.
    pub fn coinbase(reward: u64, extra_data: Vec<u8>) -> (r: Self)
        ensures
            r@ == coinbase_view(reward, extra_data@, r.timestamp),
    {
        Self::coinbase_at(reward, extra_data, Timestamp::now())
    }

    /// The coinbase that pays `reward`, with the given timestamp.
    pub fn coinbase_at(reward: u64, extra_data: Vec<u8>, timestamp: Timestamp) -> (r: Self)
        ensures
            r@ == coinbase_view(reward, extra_data@, timestamp),
    {
        let coinbase_input = TransactionInput {
            previous_output: UtxoId::coinbase(),
            script_sig: Script::new(extra_data),
            sequence: 0xFFFF_FFFF,
        };
        let output = TransactionOutput { value: reward, script_pubkey: Script::empty() };
        let mut inputs: Vec<TransactionInput> = Vec::new();
        inputs.push(coinbase_input);
        let mut outputs: Vec<TransactionOutput> = Vec::new();
        outputs.push(output);
        let r = Transaction { version: 1, inputs, outputs, locktime: 0, timestamp };
        proof {
            let expected = coinbase_view(reward, extra_data@, timestamp);
            assert(r@.inputs =~= expected.inputs);
            assert(r@.outputs =~= expected.outputs);
        }
        r
    }

    /// The canonical encoding, from which the transaction decodes again.
    pub fn serialize(&self) -> (r: Vec<u8>)
        ensures
            r@ == self@.encoding(),
            crate::codec::decode_transaction(r@) == Some((self@, Seq::<u8>::empty())),
    {
        let mut out: Vec<u8> = Vec::new();
        self.encode_into(&mut out);
        proof {
            assert(Seq::<u8>::empty() + self@.encoding() =~= self@.encoding());
            assert(self@.encoding() + Seq::<u8>::empty() =~= self@.encoding());
            crate::codec::lemma_transaction_is_well_formed(*self);
            crate::codec::lemma_transaction_round_trip(self@, Seq::empty());
        }
        out
    }

    /// Appends the canonical encoding to `out`.
    pub fn encode_into(&self, out: &mut Vec<u8>)
        ensures
            final(out)@ == old(out)@ + self@.encoding(),
    {
        let ghost before = out@;
        push_u32(out, self.version);
        push_u64(out, self.inputs.len() as u64);
        encode_inputs(&self.inputs, false, out);
        push_u64(out, self.outputs.len() as u64);
        encode_outputs(&self.outputs, out);
        push_u32(out, self.locktime);
        self.timestamp.encode_into(out);
        assert(out@ =~= before + self@.encoding());
    }

    /// The hash: Keccak-256 of the canonical encoding.
    pub fn hash(&self) -> (r: BondResult<TransactionHash>)
        ensures
            r is Ok,
            r.unwrap()@ == self@.hash(),
    {
        let serialized = self.serialize();
        Ok(TransactionHash(keccak256_digest(serialized.as_slice())))
    }

    /// The identifier, which is the hash.
    pub fn id(&self) -> (r: BondResult<TransactionHash>)
        ensures
            r is Ok,
            r.unwrap()@ == self@.hash(),
    {
        self.hash()
    }

    /// Whether this is a coinbase.
    pub fn is_coinbase(&self) -> (r: bool)
        ensures
            r == self@.is_coinbase(),
    {
        self.inputs.len() == 1 && self.inputs[0].previous_output.is_coinbase_reference()
    }

    /// The total value of the outputs.
    pub fn total_output_value(&self) -> (r: BondResult<u64>)
        ensures
            match r {
                Ok(total) => self@.output_total() == Ok::<u64, BondErrorView>(total),
                Err(e) => self@.output_total() == Err::<u64, BondErrorView>(e@),
            },
    {
        let ghost views = output_views(self.outputs@);
        let mut total: u64 = 0;
        let mut i: usize = 0;
        assert(views.subrange(0, 0) =~= Seq::<OutputView>::empty());
        while i < self.outputs.len()
            invariant
                i <= self.outputs@.len(),
                views == output_views(self.outputs@),
                total as nat == value_sum(views.subrange(0, i as int)),
            decreases self.outputs@.len() - i,
        {
            proof {
                let next = views.subrange(0, i as int + 1);
                assert(next.drop_last() =~= views.subrange(0, i as int));
                assert(next.last() == views[i as int]);
                lemma_value_sum_monotone(views, i as int + 1);
            }
            match total.checked_add(self.outputs[i].value) {
                Some(sum) => {
                    total = sum;
                },
                None => {
                    return Err(BondError::overflow("output value sum"));
                },
            }
            i += 1;
        }
        assert(views.subrange(0, self.outputs@.len() as int) =~= views);
        Ok(total)
    }

    /// The structural rules of a transaction.
    pub fn validate(&self) -> (r: BondResult<()>)
        ensures
            crate::error::unit_outcome(r, self@.structural_outcome()),
    {
        if self.version == 0 {
            return Err(BondError::invalid_transaction("Transaction version cannot be zero"));
        }
        if self.inputs.len() == 0 {
            return Err(
                BondError::invalid_transaction(
                    "Non-coinbase transaction must have at least one input",
                ),
            );
        }
        if self.outputs.len() == 0 {
            return Err(
                BondError::invalid_transaction("Transaction must have at least one output"),
            );
        }
        let mut i: usize = 0;
        while i < self.outputs.len()
            invariant
                i <= self.outputs@.len(),
                self.version != 0,
                self.inputs@.len() != 0,
                self.outputs@.len() != 0,
                forall|j: int| 0 <= j < i ==> self@.outputs[j].value != 0,
            decreases self.outputs@.len() - i,
        {
            if self.outputs[i].value == 0 {
                assert(self@.outputs[i as int].value == 0);
                return Err(
                    BondError::invalid_transaction("Transaction output cannot have zero value"),
                );
            }
            i += 1;
        }
        Ok(())
    }

    /// The size of the canonical encoding in bytes.
    pub fn size(&self) -> (r: BondResult<usize>)
        ensures
            r is Ok,
            r.unwrap() == self@.encoding().len(),
    {
        let serialized = self.serialize();
        Ok(serialized.len())
    }

    /// The message that a signature for `input` signs.
    pub fn signature_hash(&self, input: &TransactionInput) -> (r: BondResult<Vec<u8>>)
        ensures
            r is Ok,
            r.unwrap()@ == self@.signature_hash(input@.previous_output),
    {
        let mut out: Vec<u8> = Vec::new();
        push_u32(&mut out, self.version);
        push_u64(&mut out, self.inputs.len() as u64);
        encode_inputs(&self.inputs, true, &mut out);
        push_u64(&mut out, self.outputs.len() as u64);
        encode_outputs(&self.outputs, &mut out);
        push_u32(&mut out, self.locktime);
        self.timestamp.encode_into(&mut out);
        push_bytes(&mut out, input.previous_output.to_bytes().as_slice());
        assert(out@ =~= self@.unsigned().encoding() + input@.previous_output.encoding());
        let digest = keccak256_digest(out.as_slice());
        let mut message: Vec<u8> = Vec::new();
        push_bytes(&mut message, digest.as_slice());
        assert(message@ =~= digest@);
        Ok(message)
    }
}

/// The coinbase that pays `reward` with `extra_data` as its input script.
pub open spec fn coinbase_view(reward: u64, extra_data: Seq<u8>, timestamp: Timestamp)
    -> TransactionView {
    TransactionView {
        version: 1,
        inputs: seq![
            InputView {
                previous_output: UtxoIdView::coinbase(),
                script_sig: extra_data,
                sequence: 0xFFFF_FFFF,
            },
        ],
        outputs: seq![OutputView { value: reward, script_pubkey: Seq::empty() }],
        locktime: 0,
        timestamp,
    }
}

/// The sum over a prefix of a list of outputs is at most the sum over a
/// longer prefix.
pub proof fn lemma_value_sum_monotone(outputs: Seq<OutputView>, n: int)
    requires
        0 <= n <= outputs.len(),
    ensures
        value_sum(outputs.subrange(0, n)) <= value_sum(outputs),
    decreases outputs.len() - n,
{
    if n < outputs.len() {
        let next = outputs.subrange(0, n + 1);
        assert(next.drop_last() =~= outputs.subrange(0, n));
        lemma_value_sum_monotone(outputs, n + 1);
    } else {
        assert(outputs.subrange(0, n) =~= outputs);
    }
}

/// The error for an input whose referenced output is not in the index.
pub open spec fn missing_utxo(id: UtxoIdView) -> BondErrorView {
    BondErrorView::InvalidTransaction { reason: "Referenced UTXO not found: "@ + id.text() }
}

/// The values of the outputs that `inputs` reference, added to `total` in
/// order: the first input without an unspent output is an error, and so is
/// the first addition that overflows 64 bits.
pub open spec fn input_total_from(
    inputs: Seq<InputView>,
    utxos: Map<UtxoIdView, OutputView>,
    total: u64,
) -> Result<u64, BondErrorView>
    decreases inputs.len(),
{
    if inputs.len() == 0 {
        Ok(total)
    } else {
        let id = inputs[0].previous_output;
        if !utxos.dom().contains(id) {
            Err(missing_utxo(id))
        } else if total + utxos[id].value > u64::MAX {
            Err(BondErrorView::ArithmeticOverflow { operation: "input value sum"@ })
        } else {
            input_total_from(inputs.skip(1), utxos, (total + utxos[id].value) as u64)
        }
    }
}

/// The signature and the public key that an authorization script of the
/// plain form carries: the script's first bytes are the signature, the next
/// ones the key, each of the size that the chain's security level fixes. A
/// shorter script carries none.
pub open spec fn embedded_signature(script_sig: Seq<u8>) -> Option<(KeyMaterial, KeyMaterial)> {
    let signature_size = SecurityLevel::Level3.signature_size() as int;
    let key_size = SecurityLevel::Level3.public_key_size() as int;
    if script_sig.len() < signature_size + key_size {
        None
    } else {
        Some(
            (
                KeyMaterial {
                    bytes: script_sig.subrange(0, signature_size),
                    level: SecurityLevel::Level3,
                },
                KeyMaterial {
                    bytes: script_sig.subrange(signature_size, signature_size + key_size),
                    level: SecurityLevel::Level3,
                },
            ),
        )
    }
}

/// The check of the signature that one input carries, if it carries one.
pub open spec fn input_signature_outcome(tx: TransactionView, input: InputView) -> Result<
    (),
    BondErrorView,
> {
    match embedded_signature(input.script_sig) {
        None => Ok(()),
        Some((signature, public_key)) => match verification(
            signature,
            tx.signature_hash(input.previous_output),
            public_key,
        ) {
            Ok(true) => Ok(()),
            Ok(false) => Err(
                BondErrorView::InvalidTransaction {
                    reason: "Invalid signature for input: "@ + input.previous_output.text(),
                },
            ),
            Err(e) => Err(BondErrorView::CryptographicError { reason: e.message() }),
        },
    }
}

/// The checks of the inputs from index `from` on, in order: each must
/// reference an unspent output and carry no signature that fails.
pub open spec fn signatures_outcome_from(
    tx: TransactionView,
    utxos: Map<UtxoIdView, OutputView>,
    from: int,
) -> Result<(), BondErrorView>
    decreases tx.inputs.len() - from,
{
    if from < 0 || from >= tx.inputs.len() {
        Ok(())
    } else if !utxos.dom().contains(tx.inputs[from].previous_output) {
        Err(missing_utxo(tx.inputs[from].previous_output))
    } else {
        match input_signature_outcome(tx, tx.inputs[from]) {
            Err(e) => Err(e),
            Ok(_) => signatures_outcome_from(tx, utxos, from + 1),
        }
    }
}

impl TransactionView {
    /// The total value of the referenced outputs; zero for a coinbase.
    pub open spec fn input_total(self, utxos: Map<UtxoIdView, OutputView>) -> Result<
        u64,
        BondErrorView,
    > {
        if self.is_coinbase() {
            Ok(0u64)
        } else {
            input_total_from(self.inputs, utxos, 0)
        }
    }

    /// The fee: what the inputs are worth above the outputs; zero for a
    /// coinbase.
    pub open spec fn fee(self, utxos: Map<UtxoIdView, OutputView>) -> Result<u64, BondErrorView> {
        if self.is_coinbase() {
            Ok(0u64)
        } else {
            match self.input_total(utxos) {
                Err(e) => Err(e),
                Ok(input_value) => match self.output_total() {
                    Err(e) => Err(e),
                    Ok(output_value) => if input_value < output_value {
                        Err(
                            BondErrorView::InvalidTransaction {
                                reason: "Output value exceeds input value"@,
                            },
                        )
                    } else {
                        Ok((input_value - output_value) as u64)
                    },
                },
            }
        }
    }

    /// The check of every signature; a coinbase has none.
    pub open spec fn signatures_outcome(self, utxos: Map<UtxoIdView, OutputView>) -> Result<
        (),
        BondErrorView,
    > {
        if self.is_coinbase() {
            Ok(())
        } else {
            signatures_outcome_from(self, utxos, 0)
        }
    }
}

pub(crate) fn missing_utxo_error(id: &UtxoId) -> (r: BondError)
    ensures
        r@ == missing_utxo(id@),
{
    let mut reason = String::from_str("Referenced UTXO not found: ");
    reason.append(id.to_string().as_str());
    BondError::InvalidTransaction { reason }
}

impl Transaction {
    /// The total value of the outputs that the inputs reference.
    pub fn total_input_value(&self, utxo_set: &UtxoSet) -> (r: BondResult<u64>)
        ensures
            match r {
                Ok(total) => self@.input_total(utxo_set@) == Ok::<u64, BondErrorView>(total),
                Err(e) => self@.input_total(utxo_set@) == Err::<u64, BondErrorView>(e@),
            },
    {
        if self.is_coinbase() {
            return Ok(0);
        }
        let ghost views = self@.inputs;
        let mut total: u64 = 0;
        let mut i: usize = 0;
        assert(views.skip(0) =~= views);
        while i < self.inputs.len()
            invariant
                i <= self.inputs@.len(),
                !self@.is_coinbase(),
                views == self@.inputs,
                input_total_from(views.skip(i as int), utxo_set@, total) == input_total_from(
                    views,
                    utxo_set@,
                    0,
                ),
            decreases self.inputs@.len() - i,
        {
            proof {
                assert(views.skip(i as int).skip(1) =~= views.skip(i as int + 1));
                assert(views.skip(i as int)[0] == self.inputs@[i as int]@);
            }
            match utxo_set.get(&self.inputs[i].previous_output) {
                Some(utxo) => {
                    match total.checked_add(utxo.value) {
                        Some(sum) => {
                            total = sum;
                        },
                        None => {
                            return Err(BondError::overflow("input value sum"));
                        },
                    }
                },
                None => {
                    return Err(missing_utxo_error(&self.inputs[i].previous_output));
                },
            }
            i += 1;
        }
        Ok(total)
    }

    /// The fee: what the inputs are worth above the outputs.
    pub fn fee(&self, utxo_set: &UtxoSet) -> (r: BondResult<u64>)
        ensures
            match r {
                Ok(fee) => self@.fee(utxo_set@) == Ok::<u64, BondErrorView>(fee),
                Err(e) => self@.fee(utxo_set@) == Err::<u64, BondErrorView>(e@),
            },
    {
        if self.is_coinbase() {
            return Ok(0);
        }
        let input_value = match self.total_input_value(utxo_set) {
            Ok(value) => value,
            Err(e) => {
                return Err(e);
            },
        };
        let output_value = match self.total_output_value() {
            Ok(value) => value,
            Err(e) => {
                return Err(e);
            },
        };
        if input_value < output_value {
            return Err(BondError::invalid_transaction("Output value exceeds input value"));
        }
        Ok(input_value - output_value)
    }

    /// Checks the signature that each input carries.
    pub fn validate_signatures(&self, utxo_set: &UtxoSet) -> (r: BondResult<()>)
        ensures
            crate::error::unit_outcome(r, self@.signatures_outcome(utxo_set@)),
    {
        if self.is_coinbase() {
            return Ok(());
        }
        let mut i: usize = 0;
        while i < self.inputs.len()
            invariant
                i <= self.inputs@.len(),
                !self@.is_coinbase(),
                signatures_outcome_from(self@, utxo_set@, i as int) == signatures_outcome_from(
                    self@,
                    utxo_set@,
                    0,
                ),
            decreases self.inputs@.len() - i,
        {
            let input = &self.inputs[i];
            assert(self@.inputs[i as int] == input@);
            let utxo = match utxo_set.get(&input.previous_output) {
                Some(utxo) => utxo,
                None => {
                    return Err(missing_utxo_error(&input.previous_output));
                },
            };
            let message = match self.signature_hash(input) {
                Ok(message) => message,
                Err(e) => {
                    return Err(e);
                },
            };
            let extracted = match self.extract_signature_and_key(input, utxo) {
                Ok(extracted) => extracted,
                Err(e) => {
                    return Err(e);
                },
            };
            match extracted {
                Some((signature, public_key)) => {
                    match verify(&signature, message.as_slice(), &public_key) {
                        Ok(true) => {},
                        Ok(false) => {
                            let mut reason = String::from_str("Invalid signature for input: ");
                            reason.append(input.previous_output.to_string().as_str());
                            return Err(BondError::InvalidTransaction { reason });
                        },
                        Err(e) => {
                            return Err(BondError::CryptographicError { reason: e.to_string() });
                        },
                    }
                },
                None => {},
            }
            i += 1;
        }
        Ok(())
    }

    /// The signature and the public key that the authorization script of
    /// `input` carries, if it is long enough to carry them.
    pub fn extract_signature_and_key(&self, input: &TransactionInput, _utxo: &TransactionOutput)
        -> (r: BondResult<Option<(Signature, PublicKey)>>)
        ensures
            r is Ok,
            match r.unwrap() {
                Some((signature, public_key)) => embedded_signature(input@.script_sig) == Some(
                    (signature@, public_key@),
                ),
                None => embedded_signature(input@.script_sig) is None,
            },
    {
        let script_sig_data = input.script_sig.data();
        let expected_sig_size = SecurityLevel::Level3.signature_size();
        let expected_key_size = SecurityLevel::Level3.public_key_size();
        if script_sig_data.len() < expected_sig_size + expected_key_size {
            return Ok(None);
        }
        let signature_bytes = copy_range(script_sig_data, 0, expected_sig_size);
        let public_key_bytes = copy_range(
            script_sig_data,
            expected_sig_size,
            expected_sig_size + expected_key_size,
        );
        let signature = Signature::from_sized(signature_bytes, SecurityLevel::Level3);
        let public_key = PublicKey::from_sized(public_key_bytes, SecurityLevel::Level3);
        Ok(Some((signature, public_key)))
    }
}

/// The message that a signature signs does not depend on the authorization
/// script of any input: two transactions that differ in nothing else have
/// the same signature hash for every reference.
pub proof fn lemma_signature_hash_ignores_scripts(
    a: TransactionView,
    b: TransactionView,
    previous_output: UtxoIdView,
)
    requires
        a.version == b.version,
        a.outputs == b.outputs,
        a.locktime == b.locktime,
        a.timestamp == b.timestamp,
        a.inputs.len() == b.inputs.len(),
        forall|i: int|
            0 <= i < a.inputs.len() ==> a.inputs[i].previous_output == b.inputs[i].previous_output
                && a.inputs[i].sequence == b.inputs[i].sequence,
    ensures
        a.signature_hash(previous_output) == b.signature_hash(previous_output),
{
    assert(a.unsigned().inputs =~= b.unsigned().inputs);
}

/// The transaction hash that a text spells in hexadecimal: the text must
/// be hexadecimal digits, and 64 of them.
pub open spec fn parsed_transaction_hash(text: Seq<char>) -> Result<Seq<u8>, BondErrorView> {
    if !is_hex_text(text) {
        Err(BondErrorView::InvalidTransaction { reason: "Invalid transaction hash: "@ + text })
    } else if hex_bytes(text).len() != 32 {
        Err(
            BondErrorView::InvalidTransaction {
                reason: "Transaction hash must be 32 bytes, got "@ + decimal(
                    hex_bytes(text).len(),
                ),
            },
        )
    } else {
        Ok(hex_bytes(text))
    }
}

impl TransactionHash {
    /// The hash that `text` spells in hexadecimal.
    pub fn parse(text: &str) -> (r: BondResult<TransactionHash>)
        ensures
            match r {
                Ok(hash) => parsed_transaction_hash(text@) == Ok::<Seq<u8>, BondErrorView>(hash@),
                Err(e) => parsed_transaction_hash(text@) == Err::<Seq<u8>, BondErrorView>(e@),
            },
    {
        let bytes = match hex_decode(text) {
            Some(bytes) => bytes,
            None => {
                return Err(
                    BondError::InvalidTransaction {
                        reason: joined("Invalid transaction hash: ", text),
                    },
                );
            },
        };
        if bytes.len() != 32 {
            let mut reason = String::from_str("Transaction hash must be 32 bytes, got ");
            push_decimal(&mut reason, bytes.len() as u64);
            return Err(BondError::InvalidTransaction { reason });
        }
        let array: [u8; 32] = leading::<32>(bytes.as_slice());
        assert(array@ =~= bytes@);
        Ok(TransactionHash(array))
    }
}

impl core::str::FromStr for TransactionHash {
    type Err = BondError;

    fn from_str(s: &str) -> (r: Result<Self, BondError>)
        ensures
            match r {
                Ok(hash) => parsed_transaction_hash(s@) == Ok::<Seq<u8>, BondErrorView>(hash@),
                Err(e) => parsed_transaction_hash(s@) == Err::<Seq<u8>, BondErrorView>(e@),
            },
    {
        TransactionHash::parse(s)
    }
}

} // verus!
