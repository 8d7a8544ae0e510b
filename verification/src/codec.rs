//! Decoding of the canonical encoding, and the laws that tie it to the
//! encoder: what was encoded decodes to itself, and nothing else encodes
//! alike.

use crate::block::{Block, BlockHash, BlockHeader, BlockView, DifficultyTarget, HeaderView, MerkleRoot};
use crate::encoding::{
    copy_range, le_bytes, le_nat, lemma_le_bytes_len, lemma_le_bytes_of_nat, lemma_le_nat_bound,
    lemma_le_nat_of_bytes, lemma_pow256_values, read_le,
};
use crate::error::{BondError, BondErrorView, BondResult};
use crate::timestamp::{unsigned_seconds, Timestamp};
use crate::transaction::{
    concat_encodings, InputView, OutputView, Transaction, TransactionHash, TransactionInput,
    TransactionOutput, TransactionView,
};
use crate::utxo::{framed, Script, UtxoId, UtxoIdView};
use vstd::prelude::*;
use vstd::string::StringExecFns;

verus! {

/// The first `n` bytes and the rest, where there are that many.
pub open spec fn take(bytes: Seq<u8>, n: nat) -> Option<(Seq<u8>, Seq<u8>)> {
    if bytes.len() >= n {
        Some((bytes.subrange(0, n as int), bytes.skip(n as int)))
    } else {
        None
    }
}

/// A 32-bit integer in four little-endian bytes, and the rest.
pub open spec fn decode_u32(bytes: Seq<u8>) -> Option<(u32, Seq<u8>)> {
    match take(bytes, 4) {
        Some((head, rest)) => Some((le_nat(head) as u32, rest)),
        None => None,
    }
}

/// A 64-bit integer in eight little-endian bytes, and the rest.
pub open spec fn decode_u64(bytes: Seq<u8>) -> Option<(u64, Seq<u8>)> {
    match take(bytes, 8) {
        Some((head, rest)) => Some((le_nat(head) as u64, rest)),
        None => None,
    }
}

/// A framed byte string, and the rest.
pub open spec fn decode_framed(bytes: Seq<u8>) -> Option<(Seq<u8>, Seq<u8>)> {
    match decode_u64(bytes) {
        Some((len, rest)) => take(rest, len as nat),
        None => None,
    }
}

/// The signed number of seconds that an eight-byte two's complement stands
/// for.
pub open spec fn signed_seconds(raw: u64) -> i64 {
    if raw < 0x8000_0000_0000_0000 {
        raw as i64
    } else {
        (raw - 0x1_0000_0000_0000_0000) as i64
    }
}

/// A timestamp, and the rest.
pub open spec fn decode_timestamp(bytes: Seq<u8>) -> Option<(Timestamp, Seq<u8>)> {
    match decode_u64(bytes) {
        Some((raw, rest)) => match decode_u32(rest) {
            Some((nanos, rest)) => Some((Timestamp { secs: signed_seconds(raw), nanos }, rest)),
            None => None,
        },
        None => None,
    }
}

/// An output identifier, and the rest.
pub open spec fn decode_utxo_id(bytes: Seq<u8>) -> Option<(UtxoIdView, Seq<u8>)> {
    match take(bytes, 32) {
        Some((tx_hash, rest)) => match decode_u32(rest) {
            Some((output_index, rest)) => Some((UtxoIdView { tx_hash, output_index }, rest)),
            None => None,
        },
        None => None,
    }
}

/// An input, and the rest.
pub open spec fn decode_input(bytes: Seq<u8>) -> Option<(InputView, Seq<u8>)> {
    match decode_utxo_id(bytes) {
        Some((previous_output, rest)) => match decode_framed(rest) {
            Some((script_sig, rest)) => match decode_u32(rest) {
                Some((sequence, rest)) => Some(
                    (InputView { previous_output, script_sig, sequence }, rest),
                ),
                None => None,
            },
            None => None,
        },
        None => None,
    }
}

/// An output, and the rest.
pub open spec fn decode_output(bytes: Seq<u8>) -> Option<(OutputView, Seq<u8>)> {
    match decode_u64(bytes) {
        Some((value, rest)) => match decode_framed(rest) {
            Some((script_pubkey, rest)) => Some((OutputView { value, script_pubkey }, rest)),
            None => None,
        },
        None => None,
    }
}

/// `count` items, each decoded by `item`, and the rest.
pub open spec fn decode_list<T>(
    bytes: Seq<u8>,
    count: nat,
    item: spec_fn(Seq<u8>) -> Option<(T, Seq<u8>)>,
) -> Option<(Seq<T>, Seq<u8>)>
    decreases count,
{
    if count == 0 {
        Some((Seq::empty(), bytes))
    } else {
        match item(bytes) {
            Some((first, rest)) => match decode_list(rest, (count - 1) as nat, item) {
                Some((others, rest)) => Some((seq![first] + others, rest)),
                None => None,
            },
            None => None,
        }
    }
}

/// A transaction, and the rest.
pub open spec fn decode_transaction(bytes: Seq<u8>) -> Option<(TransactionView, Seq<u8>)> {
    match decode_u32(bytes) {
        Some((version, rest)) => match decode_u64(rest) {
            Some((input_count, rest)) => match decode_list(
                rest,
                input_count as nat,
                |b: Seq<u8>| decode_input(b),
            ) {
                Some((inputs, rest)) => match decode_u64(rest) {
                    Some((output_count, rest)) => match decode_list(
                        rest,
                        output_count as nat,
                        |b: Seq<u8>| decode_output(b),
                    ) {
                        Some((outputs, rest)) => match decode_u32(rest) {
                            Some((locktime, rest)) => match decode_timestamp(rest) {
                                Some((timestamp, rest)) => Some(
                                    (
                                        TransactionView {
                                            version,
                                            inputs,
                                            outputs,
                                            locktime,
                                            timestamp,
                                        },
                                        rest,
                                    ),
                                ),
                                None => None,
                            },
                            None => None,
                        },
                        None => None,
                    },
                    None => None,
                },
                None => None,
            },
            None => None,
        },
        None => None,
    }
}

/// A block header, and the rest.
pub open spec fn decode_header(bytes: Seq<u8>) -> Option<(HeaderView, Seq<u8>)> {
    match decode_u32(bytes) {
        Some((version, rest)) => match take(rest, 32) {
            Some((previous_hash, rest)) => match take(rest, 32) {
                Some((merkle_root, rest)) => match decode_timestamp(rest) {
                    Some((timestamp, rest)) => match take(rest, 32) {
                        Some((difficulty_target, rest)) => match decode_u64(rest) {
                            Some((nonce, rest)) => Some(
                                (
                                    HeaderView {
                                        version,
                                        previous_hash,
                                        merkle_root,
                                        timestamp,
                                        difficulty_target,
                                        nonce,
                                    },
                                    rest,
                                ),
                            ),
                            None => None,
                        },
                        None => None,
                    },
                    None => None,
                },
                None => None,
            },
            None => None,
        },
        None => None,
    }
}

/// A block, and the rest.
pub open spec fn decode_block(bytes: Seq<u8>) -> Option<(BlockView, Seq<u8>)> {
    match decode_header(bytes) {
        Some((header, rest)) => match decode_u64(rest) {
            Some((count, rest)) => match decode_list(
                rest,
                count as nat,
                |b: Seq<u8>| decode_transaction(b),
            ) {
                Some((transactions, rest)) => Some((BlockView { header, transactions }, rest)),
                None => None,
            },
            None => None,
        },
        None => None,
    }
}

/// Whether an input is one that a program can hold: its hash has 32 bytes
/// and the length of its script fits 64 bits.
pub open spec fn input_well_formed(input: InputView) -> bool {
    input.previous_output.tx_hash.len() == 32 && input.script_sig.len() <= u64::MAX
}

/// Whether an output is one that a program can hold.
pub open spec fn output_well_formed(output: OutputView) -> bool {
    output.script_pubkey.len() <= u64::MAX
}

/// Whether a transaction is one that a program can hold.
pub open spec fn transaction_well_formed(tx: TransactionView) -> bool {
    &&& tx.inputs.len() <= u64::MAX
    &&& tx.outputs.len() <= u64::MAX
    &&& forall|i: int| 0 <= i < tx.inputs.len() ==> input_well_formed(#[trigger] tx.inputs[i])
    &&& forall|i: int| 0 <= i < tx.outputs.len() ==> output_well_formed(#[trigger] tx.outputs[i])
}

/// Whether a header is one that a program can hold: its hashes and its
/// target have 32 bytes.
pub open spec fn header_well_formed(header: HeaderView) -> bool {
    &&& header.previous_hash.len() == 32
    &&& header.merkle_root.len() == 32
    &&& header.difficulty_target.len() == 32
}

/// Whether a block is one that a program can hold.
pub open spec fn block_well_formed(block: BlockView) -> bool {
    &&& header_well_formed(block.header)
    &&& block.transactions.len() <= u64::MAX
    &&& forall|i: int|
        0 <= i < block.transactions.len() ==> transaction_well_formed(
            #[trigger] block.transactions[i],
        )
}

/// Every transaction that a program holds is well formed.
pub proof fn lemma_transaction_is_well_formed(tx: Transaction)
    ensures
        transaction_well_formed(tx@),
{
    assert forall|i: int| 0 <= i < tx@.inputs.len() implies input_well_formed(
        #[trigger] tx@.inputs[i],
    ) by {
        let input = tx.inputs@[i];
        assert(tx@.inputs[i] == input@);
        assert(input.previous_output.tx_hash.0@.len() == 32);
        assert(input.script_sig.code.len() == input.script_sig.code@.len());
    }
    assert forall|i: int| 0 <= i < tx@.outputs.len() implies output_well_formed(
        #[trigger] tx@.outputs[i],
    ) by {
        let output = tx.outputs@[i];
        assert(tx@.outputs[i] == output@);
        assert(output.script_pubkey.code.len() == output.script_pubkey.code@.len());
    }
    assert(tx.inputs.len() == tx.inputs@.len());
    assert(tx.outputs.len() == tx.outputs@.len());
}

/// Every header that a program holds is well formed.
pub proof fn lemma_header_is_well_formed(header: BlockHeader)
    ensures
        header_well_formed(header@),
{
    assert(header.previous_hash.0@.len() == 32);
    assert(header.merkle_root.0@.len() == 32);
    assert(header.difficulty_target.0@.len() == 32);
}

/// Every block that a program holds is well formed.
pub proof fn lemma_block_is_well_formed(block: Block)
    ensures
        block_well_formed(block@),
{
    lemma_header_is_well_formed(block.header);
    assert forall|i: int| 0 <= i < block@.transactions.len() implies transaction_well_formed(
        #[trigger] block@.transactions[i],
    ) by {
        let tx = block.transactions@[i];
        assert(block@.transactions[i] == tx@);
        lemma_transaction_is_well_formed(tx);
    }
    assert(block.transactions.len() == block.transactions@.len());
}

/// Taking the length of a string from the string followed by more gives the
/// string and what followed.
pub proof fn lemma_take_prefix(head: Seq<u8>, rest: Seq<u8>)
    ensures
        take(head + rest, head.len()) == Some((head, rest)),
{
    assert((head + rest).subrange(0, head.len() as int) =~= head);
    assert((head + rest).skip(head.len() as int) =~= rest);
}

/// A 32-bit integer decodes from its encoding.
pub proof fn lemma_u32_round_trip(value: u32, rest: Seq<u8>)
    ensures
        decode_u32(le_bytes(value as nat, 4) + rest) == Some((value, rest)),
{
    lemma_le_bytes_len(value as nat, 4);
    lemma_take_prefix(le_bytes(value as nat, 4), rest);
    lemma_pow256_values();
    lemma_le_nat_of_bytes(value as nat, 4);
}

/// A 64-bit integer decodes from its encoding.
pub proof fn lemma_u64_round_trip(value: u64, rest: Seq<u8>)
    ensures
        decode_u64(le_bytes(value as nat, 8) + rest) == Some((value, rest)),
{
    lemma_le_bytes_len(value as nat, 8);
    lemma_take_prefix(le_bytes(value as nat, 8), rest);
    lemma_pow256_values();
    lemma_le_nat_of_bytes(value as nat, 8);
}

/// A framed byte string decodes from its encoding.
pub proof fn lemma_framed_round_trip(data: Seq<u8>, rest: Seq<u8>)
    requires
        data.len() <= u64::MAX,
    ensures
        decode_framed(framed(data) + rest) == Some((data, rest)),
{
    lemma_u64_round_trip(data.len() as u64, data + rest);
    assert(framed(data) + rest =~= le_bytes(data.len(), 8) + (data + rest));
    lemma_take_prefix(data, rest);
}

/// A timestamp decodes from its encoding.
pub proof fn lemma_timestamp_round_trip(t: Timestamp, rest: Seq<u8>)
    ensures
        decode_timestamp(t.encoding() + rest) == Some((t, rest)),
{
    let raw = unsigned_seconds(t.secs) as u64;
    lemma_u64_round_trip(raw, le_bytes(t.nanos as nat, 4) + rest);
    lemma_u32_round_trip(t.nanos, rest);
    assert(t.encoding() + rest =~= le_bytes(raw as nat, 8) + (le_bytes(t.nanos as nat, 4) + rest));
}

/// An output identifier decodes from its encoding.
pub proof fn lemma_utxo_id_round_trip(id: UtxoIdView, rest: Seq<u8>)
    requires
        id.tx_hash.len() == 32,
    ensures
        decode_utxo_id(id.encoding() + rest) == Some((id, rest)),
{
    lemma_take_prefix(id.tx_hash, le_bytes(id.output_index as nat, 4) + rest);
    lemma_u32_round_trip(id.output_index, rest);
    assert(id.encoding() + rest =~= id.tx_hash + (le_bytes(id.output_index as nat, 4) + rest));
}

/// An input decodes from its encoding.
pub proof fn lemma_input_round_trip(input: InputView, rest: Seq<u8>)
    requires
        input_well_formed(input),
    ensures
        decode_input(input.encoding() + rest) == Some((input, rest)),
{
    let tail = le_bytes(input.sequence as nat, 4) + rest;
    lemma_utxo_id_round_trip(input.previous_output, framed(input.script_sig) + tail);
    lemma_framed_round_trip(input.script_sig, tail);
    lemma_u32_round_trip(input.sequence, rest);
    assert(input.encoding() + rest =~= input.previous_output.encoding() + (framed(
        input.script_sig,
    ) + tail));
}

/// An output decodes from its encoding.
pub proof fn lemma_output_round_trip(output: OutputView, rest: Seq<u8>)
    requires
        output_well_formed(output),
    ensures
        decode_output(output.encoding() + rest) == Some((output, rest)),
{
    lemma_u64_round_trip(output.value, framed(output.script_pubkey) + rest);
    lemma_framed_round_trip(output.script_pubkey, rest);
    assert(output.encoding() + rest =~= le_bytes(output.value as nat, 8) + (framed(
        output.script_pubkey,
    ) + rest));
}

/// The encodings of a list are the encoding of its first item followed by
/// the encodings of the others.
pub proof fn lemma_concat_front<T>(items: Seq<T>, encode: spec_fn(T) -> Seq<u8>)
    requires
        items.len() > 0,
    ensures
        concat_encodings(items, encode) == encode(items[0]) + concat_encodings(
            items.skip(1),
            encode,
        ),
    decreases items.len(),
{
    if items.len() == 1 {
        assert(items.drop_last() =~= Seq::<T>::empty());
        assert(items.skip(1) =~= Seq::<T>::empty());
        assert(concat_encodings(items.drop_last(), encode) =~= Seq::<u8>::empty());
        assert(Seq::<u8>::empty() + encode(items.last()) =~= encode(items[0]) + Seq::<u8>::empty());
    } else {
        lemma_concat_front(items.drop_last(), encode);
        assert(items.drop_last().skip(1) =~= items.skip(1).drop_last());
        assert(items.skip(1).last() == items.last());
        assert(items.drop_last()[0] == items[0]);
        assert((encode(items[0]) + concat_encodings(items.skip(1).drop_last(), encode)) + encode(
            items.last(),
        ) =~= encode(items[0]) + (concat_encodings(items.skip(1).drop_last(), encode) + encode(
            items.last(),
        )));
    }
}

/// A list decodes from the encodings of its items, where each item decodes
/// from its encoding.
pub proof fn lemma_list_round_trip<T>(
    items: Seq<T>,
    encode: spec_fn(T) -> Seq<u8>,
    item: spec_fn(Seq<u8>) -> Option<(T, Seq<u8>)>,
    rest: Seq<u8>,
)
    requires
        forall|i: int, after: Seq<u8>|
            0 <= i < items.len() ==> #[trigger] item(encode(items[i]) + after) == Some(
                (items[i], after),
            ),
    ensures
        decode_list(concat_encodings(items, encode) + rest, items.len(), item) == Some(
            (items, rest),
        ),
    decreases items.len(),
{
    if items.len() == 0 {
        assert(concat_encodings(items, encode) + rest =~= rest);
        assert(items =~= Seq::<T>::empty());
    } else {
        let others = items.skip(1);
        lemma_concat_front(items, encode);
        let after = concat_encodings(others, encode) + rest;
        assert(concat_encodings(items, encode) + rest =~= encode(items[0]) + after);
        assert(item(encode(items[0]) + after) == Some((items[0], after)));
        assert forall|i: int, more: Seq<u8>| 0 <= i < others.len() implies #[trigger] item(
            encode(others[i]) + more,
        ) == Some((others[i], more)) by {
            assert(others[i] == items[i + 1]);
        }
        lemma_list_round_trip(others, encode, item, rest);
        assert(seq![items[0]] + others =~= items);
    }
}

/// A transaction decodes from its encoding.
pub proof fn lemma_transaction_round_trip(tx: TransactionView, rest: Seq<u8>)
    requires
        transaction_well_formed(tx),
    ensures
        decode_transaction(tx.encoding() + rest) == Some((tx, rest)),
{
    let encode_input = |input: InputView| input.encoding();
    let encode_output = |output: OutputView| output.encoding();
    let item_input = |b: Seq<u8>| decode_input(b);
    let item_output = |b: Seq<u8>| decode_output(b);
    let tail3 = tx.timestamp.encoding() + rest;
    let tail2 = le_bytes(tx.locktime as nat, 4) + tail3;
    let outputs = concat_encodings(tx.outputs, encode_output);
    let tail1 = le_bytes(tx.outputs.len(), 8) + (outputs + tail2);
    let inputs = concat_encodings(tx.inputs, encode_input);
    let tail0 = le_bytes(tx.inputs.len(), 8) + (inputs + tail1);
    assert(tx.encoding() + rest =~= le_bytes(tx.version as nat, 4) + tail0);
    lemma_u32_round_trip(tx.version, tail0);
    lemma_u64_round_trip(tx.inputs.len() as u64, inputs + tail1);
    assert forall|i: int, after: Seq<u8>| 0 <= i < tx.inputs.len() implies #[trigger] item_input(
        encode_input(tx.inputs[i]) + after,
    ) == Some((tx.inputs[i], after)) by {
        lemma_input_round_trip(tx.inputs[i], after);
    }
    lemma_list_round_trip(tx.inputs, encode_input, item_input, tail1);
    lemma_u64_round_trip(tx.outputs.len() as u64, outputs + tail2);
    assert forall|i: int, after: Seq<u8>|
        0 <= i < tx.outputs.len() implies #[trigger] item_output(
        encode_output(tx.outputs[i]) + after,
    ) == Some((tx.outputs[i], after)) by {
        lemma_output_round_trip(tx.outputs[i], after);
    }
    lemma_list_round_trip(tx.outputs, encode_output, item_output, tail2);
    lemma_u32_round_trip(tx.locktime, tail3);
    lemma_timestamp_round_trip(tx.timestamp, rest);
}

/// A block header decodes from its encoding.
pub proof fn lemma_header_round_trip(header: HeaderView, rest: Seq<u8>)
    requires
        header_well_formed(header),
    ensures
        decode_header(header.encoding() + rest) == Some((header, rest)),
{
    let tail4 = le_bytes(header.nonce as nat, 8) + rest;
    let tail3 = header.difficulty_target + tail4;
    let tail2 = header.timestamp.encoding() + tail3;
    let tail1 = header.merkle_root + tail2;
    let tail0 = header.previous_hash + tail1;
    assert(header.encoding() + rest =~= le_bytes(header.version as nat, 4) + tail0);
    lemma_u32_round_trip(header.version, tail0);
    lemma_take_prefix(header.previous_hash, tail1);
    lemma_take_prefix(header.merkle_root, tail2);
    lemma_timestamp_round_trip(header.timestamp, tail3);
    lemma_take_prefix(header.difficulty_target, tail4);
    lemma_u64_round_trip(header.nonce, rest);
}

/// A block decodes from its encoding.
pub proof fn lemma_block_round_trip(block: BlockView, rest: Seq<u8>)
    requires
        block_well_formed(block),
    ensures
        decode_block(block.encoding() + rest) == Some((block, rest)),
{
    let encode = |tx: TransactionView| tx.encoding();
    let item = |b: Seq<u8>| decode_transaction(b);
    let transactions = concat_encodings(block.transactions, encode);
    let tail0 = le_bytes(block.transactions.len(), 8) + (transactions + rest);
    assert(block.encoding() + rest =~= block.header.encoding() + tail0);
    lemma_header_round_trip(block.header, tail0);
    lemma_u64_round_trip(block.transactions.len() as u64, transactions + rest);
    assert forall|i: int, after: Seq<u8>|
        0 <= i < block.transactions.len() implies #[trigger] item(
        encode(block.transactions[i]) + after,
    ) == Some((block.transactions[i], after)) by {
        lemma_transaction_round_trip(block.transactions[i], after);
    }
    lemma_list_round_trip(block.transactions, encode, item, rest);
}

/// What `take` returns are the two parts of the bytes.
pub proof fn lemma_take_sound(bytes: Seq<u8>, n: nat)
    requires
        take(bytes, n) is Some,
    ensures
        bytes == take(bytes, n).unwrap().0 + take(bytes, n).unwrap().1,
        take(bytes, n).unwrap().0.len() == n,
{
    assert(bytes =~= bytes.subrange(0, n as int) + bytes.skip(n as int));
}

/// Bytes from which a 32-bit integer decodes begin with its encoding.
pub proof fn lemma_u32_sound(bytes: Seq<u8>)
    requires
        decode_u32(bytes) is Some,
    ensures
        bytes == le_bytes(decode_u32(bytes).unwrap().0 as nat, 4) + decode_u32(bytes).unwrap().1,
{
    let head = take(bytes, 4).unwrap().0;
    lemma_take_sound(bytes, 4);
    lemma_le_nat_bound(head);
    lemma_pow256_values();
    lemma_le_bytes_of_nat(head);
}

/// Bytes from which a 64-bit integer decodes begin with its encoding.
pub proof fn lemma_u64_sound(bytes: Seq<u8>)
    requires
        decode_u64(bytes) is Some,
    ensures
        bytes == le_bytes(decode_u64(bytes).unwrap().0 as nat, 8) + decode_u64(bytes).unwrap().1,
{
    let head = take(bytes, 8).unwrap().0;
    lemma_take_sound(bytes, 8);
    lemma_le_nat_bound(head);
    lemma_pow256_values();
    lemma_le_bytes_of_nat(head);
}

/// Bytes from which a framed byte string decodes begin with its encoding.
pub proof fn lemma_framed_sound(bytes: Seq<u8>)
    requires
        decode_framed(bytes) is Some,
    ensures
        bytes == framed(decode_framed(bytes).unwrap().0) + decode_framed(bytes).unwrap().1,
{
    let len = decode_u64(bytes).unwrap().0;
    let after = decode_u64(bytes).unwrap().1;
    lemma_u64_sound(bytes);
    lemma_take_sound(after, len as nat);
    let data = decode_framed(bytes).unwrap().0;
    let rest = decode_framed(bytes).unwrap().1;
    assert(bytes =~= framed(data) + rest);
}

/// Bytes from which a timestamp decodes begin with its encoding.
pub proof fn lemma_timestamp_sound(bytes: Seq<u8>)
    requires
        decode_timestamp(bytes) is Some,
    ensures
        bytes == decode_timestamp(bytes).unwrap().0.encoding() + decode_timestamp(bytes).unwrap().1,
{
    let after = decode_u64(bytes).unwrap().1;
    lemma_u64_sound(bytes);
    lemma_u32_sound(after);
    let t = decode_timestamp(bytes).unwrap().0;
    let rest = decode_timestamp(bytes).unwrap().1;
    assert(bytes =~= t.encoding() + rest);
}

/// Bytes from which an output identifier decodes begin with its encoding.
pub proof fn lemma_utxo_id_sound(bytes: Seq<u8>)
    requires
        decode_utxo_id(bytes) is Some,
    ensures
        bytes == decode_utxo_id(bytes).unwrap().0.encoding() + decode_utxo_id(bytes).unwrap().1,
{
    let after = take(bytes, 32).unwrap().1;
    lemma_take_sound(bytes, 32);
    lemma_u32_sound(after);
    let id = decode_utxo_id(bytes).unwrap().0;
    let rest = decode_utxo_id(bytes).unwrap().1;
    assert(bytes =~= id.encoding() + rest);
}

/// Bytes from which an input decodes begin with its encoding.
pub proof fn lemma_input_sound(bytes: Seq<u8>)
    requires
        decode_input(bytes) is Some,
    ensures
        bytes == decode_input(bytes).unwrap().0.encoding() + decode_input(bytes).unwrap().1,
{
    let after_id = decode_utxo_id(bytes).unwrap().1;
    let after_script = decode_framed(after_id).unwrap().1;
    lemma_utxo_id_sound(bytes);
    lemma_framed_sound(after_id);
    lemma_u32_sound(after_script);
    let input = decode_input(bytes).unwrap().0;
    let rest = decode_input(bytes).unwrap().1;
    assert(bytes =~= input.encoding() + rest);
}

/// Bytes from which an output decodes begin with its encoding.
pub proof fn lemma_output_sound(bytes: Seq<u8>)
    requires
        decode_output(bytes) is Some,
    ensures
        bytes == decode_output(bytes).unwrap().0.encoding() + decode_output(bytes).unwrap().1,
{
    let after = decode_u64(bytes).unwrap().1;
    lemma_u64_sound(bytes);
    lemma_framed_sound(after);
    let output = decode_output(bytes).unwrap().0;
    let rest = decode_output(bytes).unwrap().1;
    assert(bytes =~= output.encoding() + rest);
}

/// Bytes from which a list decodes begin with the encodings of its items,
/// where that holds of each item; and the list has the length asked for.
pub proof fn lemma_list_sound<T>(
    bytes: Seq<u8>,
    count: nat,
    encode: spec_fn(T) -> Seq<u8>,
    item: spec_fn(Seq<u8>) -> Option<(T, Seq<u8>)>,
)
    requires
        decode_list(bytes, count, item) is Some,
        forall|b: Seq<u8>| #[trigger] item(b) is Some ==> b == encode(item(b).unwrap().0) + item(b).unwrap().1,
    ensures
        bytes == concat_encodings(decode_list(bytes, count, item).unwrap().0, encode) + decode_list(
            bytes,
            count,
            item,
        ).unwrap().1,
        decode_list(bytes, count, item).unwrap().0.len() == count,
    decreases count,
{
    let items = decode_list(bytes, count, item).unwrap().0;
    let rest = decode_list(bytes, count, item).unwrap().1;
    if count == 0 {
        assert(concat_encodings(items, encode) + rest =~= bytes);
    } else {
        let first = item(bytes).unwrap().0;
        let after = item(bytes).unwrap().1;
        lemma_list_sound(after, (count - 1) as nat, encode, item);
        let others = decode_list(after, (count - 1) as nat, item).unwrap().0;
        assert(items == seq![first] + others);
        lemma_concat_front(items, encode);
        assert(items.skip(1) =~= others);
        assert(items[0] == first);
        assert(bytes =~= (encode(first) + concat_encodings(others, encode)) + rest);
    }
}

/// Bytes from which a list of inputs decodes begin with their encodings.
pub proof fn lemma_inputs_sound(bytes: Seq<u8>, count: nat)
    requires
        decode_list(bytes, count, |b: Seq<u8>| decode_input(b)) is Some,
    ensures
        ({
            let decoded = decode_list(bytes, count, |b: Seq<u8>| decode_input(b)).unwrap();
            &&& bytes == concat_encodings(decoded.0, |input: InputView| input.encoding())
                + decoded.1
            &&& decoded.0.len() == count
        }),
{
    let encode = |input: InputView| input.encoding();
    let item = |b: Seq<u8>| decode_input(b);
    assert forall|b: Seq<u8>| #[trigger] item(b) is Some implies b == encode(item(b).unwrap().0)
        + item(b).unwrap().1 by {
        lemma_input_sound(b);
    }
    lemma_list_sound(bytes, count, encode, item);
}

/// Bytes from which a list of outputs decodes begin with their encodings.
pub proof fn lemma_outputs_sound(bytes: Seq<u8>, count: nat)
    requires
        decode_list(bytes, count, |b: Seq<u8>| decode_output(b)) is Some,
    ensures
        ({
            let decoded = decode_list(bytes, count, |b: Seq<u8>| decode_output(b)).unwrap();
            &&& bytes == concat_encodings(decoded.0, |output: OutputView| output.encoding())
                + decoded.1
            &&& decoded.0.len() == count
        }),
{
    let encode = |output: OutputView| output.encoding();
    let item = |b: Seq<u8>| decode_output(b);
    assert forall|b: Seq<u8>| #[trigger] item(b) is Some implies b == encode(item(b).unwrap().0)
        + item(b).unwrap().1 by {
        lemma_output_sound(b);
    }
    lemma_list_sound(bytes, count, encode, item);
}

/// Bytes from which a transaction decodes begin with its encoding.
pub proof fn lemma_transaction_sound(bytes: Seq<u8>)
    requires
        decode_transaction(bytes) is Some,
    ensures
        bytes == decode_transaction(bytes).unwrap().0.encoding() + decode_transaction(
            bytes,
        ).unwrap().1,
{
    let b1 = decode_u32(bytes).unwrap().1;
    let input_count = decode_u64(b1).unwrap().0;
    let b2 = decode_u64(b1).unwrap().1;
    let inputs = decode_list(b2, input_count as nat, |b: Seq<u8>| decode_input(b)).unwrap();
    let b3 = inputs.1;
    let output_count = decode_u64(b3).unwrap().0;
    let b4 = decode_u64(b3).unwrap().1;
    let outputs = decode_list(b4, output_count as nat, |b: Seq<u8>| decode_output(b)).unwrap();
    let b5 = outputs.1;
    let b6 = decode_u32(b5).unwrap().1;
    let tx = decode_transaction(bytes).unwrap().0;
    let rest = decode_transaction(bytes).unwrap().1;
    lemma_u32_sound(bytes);
    lemma_u64_sound(b1);
    lemma_inputs_sound(b2, input_count as nat);
    lemma_u64_sound(b3);
    lemma_outputs_sound(b4, output_count as nat);
    lemma_u32_sound(b5);
    lemma_timestamp_sound(b6);
    let part1 = le_bytes(tx.version as nat, 4);
    let part2 = le_bytes(tx.inputs.len(), 8);
    let part3 = concat_encodings(tx.inputs, |input: InputView| input.encoding());
    let part4 = le_bytes(tx.outputs.len(), 8);
    let part5 = concat_encodings(tx.outputs, |output: OutputView| output.encoding());
    let part6 = le_bytes(tx.locktime as nat, 4);
    let part7 = tx.timestamp.encoding();
    assert(b6 == part7 + rest);
    assert(b5 == part6 + b6);
    assert(b4 == part5 + b5);
    assert(b3 == part4 + b4);
    assert(b2 == part3 + b3);
    assert(b1 == part2 + b2);
    assert(bytes == part1 + b1);
    assert(tx.encoding() == part1 + part2 + part3 + part4 + part5 + part6 + part7);
    lemma_join_seven(part1, part2, part3, part4, part5, part6, part7, rest);
}

/// Seven byte strings and a rest joined from the left are those joined from
/// the right.
proof fn lemma_join_seven(
    a: Seq<u8>,
    b: Seq<u8>,
    c: Seq<u8>,
    d: Seq<u8>,
    e: Seq<u8>,
    f: Seq<u8>,
    g: Seq<u8>,
    rest: Seq<u8>,
)
    ensures
        (a + b + c + d + e + f + g) + rest == a + (b + (c + (d + (e + (f + (g + rest)))))),
{
    assert((a + b + c + d + e + f + g) + rest =~= a + (b + (c + (d + (e + (f + (g + rest)))))));
}

/// Bytes from which a header decodes begin with its encoding.
pub proof fn lemma_header_sound(bytes: Seq<u8>)
    requires
        decode_header(bytes) is Some,
    ensures
        bytes == decode_header(bytes).unwrap().0.encoding() + decode_header(bytes).unwrap().1,
{
    let b1 = decode_u32(bytes).unwrap().1;
    let b2 = take(b1, 32).unwrap().1;
    let b3 = take(b2, 32).unwrap().1;
    let b4 = decode_timestamp(b3).unwrap().1;
    let b5 = take(b4, 32).unwrap().1;
    lemma_u32_sound(bytes);
    lemma_take_sound(b1, 32);
    lemma_take_sound(b2, 32);
    lemma_timestamp_sound(b3);
    lemma_take_sound(b4, 32);
    lemma_u64_sound(b5);
    let header = decode_header(bytes).unwrap().0;
    let rest = decode_header(bytes).unwrap().1;
    assert(bytes =~= header.encoding() + rest);
}

/// Bytes from which a list of transactions decodes begin with their
/// encodings.
pub proof fn lemma_transactions_sound(bytes: Seq<u8>, count: nat)
    requires
        decode_list(bytes, count, |b: Seq<u8>| decode_transaction(b)) is Some,
    ensures
        ({
            let decoded = decode_list(bytes, count, |b: Seq<u8>| decode_transaction(b)).unwrap();
            &&& bytes == concat_encodings(decoded.0, |tx: TransactionView| tx.encoding())
                + decoded.1
            &&& decoded.0.len() == count
        }),
{
    let encode = |tx: TransactionView| tx.encoding();
    let item = |b: Seq<u8>| decode_transaction(b);
    assert forall|b: Seq<u8>| #[trigger] item(b) is Some implies b == encode(item(b).unwrap().0)
        + item(b).unwrap().1 by {
        lemma_transaction_sound(b);
    }
    lemma_list_sound(bytes, count, encode, item);
}

/// Bytes from which a block decodes begin with its encoding.
pub proof fn lemma_block_sound(bytes: Seq<u8>)
    requires
        decode_block(bytes) is Some,
    ensures
        bytes == decode_block(bytes).unwrap().0.encoding() + decode_block(bytes).unwrap().1,
{
    let b1 = decode_header(bytes).unwrap().1;
    let count = decode_u64(b1).unwrap().0;
    let b2 = decode_u64(b1).unwrap().1;
    let block = decode_block(bytes).unwrap().0;
    let rest = decode_block(bytes).unwrap().1;
    lemma_header_sound(bytes);
    lemma_u64_sound(b1);
    lemma_transactions_sound(b2, count as nat);
    let part1 = block.header.encoding();
    let part2 = le_bytes(block.transactions.len(), 8);
    let part3 = concat_encodings(block.transactions, |tx: TransactionView| tx.encoding());
    assert(b2 == part3 + rest);
    assert(b1 == part2 + b2);
    assert(bytes == part1 + b1);
    assert((part1 + part2 + part3) + rest =~= part1 + (part2 + (part3 + rest)));
}

/// Two transactions with the same encoding are the same transaction.
pub proof fn lemma_transaction_encoding_injective(a: TransactionView, b: TransactionView)
    requires
        transaction_well_formed(a),
        transaction_well_formed(b),
        a.encoding() == b.encoding(),
    ensures
        a == b,
{
    lemma_transaction_round_trip(a, Seq::empty());
    lemma_transaction_round_trip(b, Seq::empty());
}

/// Two headers with the same encoding are the same header.
pub proof fn lemma_header_encoding_injective(a: HeaderView, b: HeaderView)
    requires
        header_well_formed(a),
        header_well_formed(b),
        a.encoding() == b.encoding(),
    ensures
        a == b,
{
    lemma_header_round_trip(a, Seq::empty());
    lemma_header_round_trip(b, Seq::empty());
}

/// Two blocks with the same encoding are the same block.
pub proof fn lemma_block_encoding_injective(a: BlockView, b: BlockView)
    requires
        block_well_formed(a),
        block_well_formed(b),
        a.encoding() == b.encoding(),
    ensures
        a == b,
{
    lemma_block_round_trip(a, Seq::empty());
    lemma_block_round_trip(b, Seq::empty());
}

/// The error for bytes that are not the canonical encoding of one value.
pub open spec fn malformed() -> BondErrorView {
    BondErrorView::SerializationError("Bytes are not a canonical encoding"@)
}

pub(crate) fn malformed_error() -> (r: BondError)
    ensures
        r@ == malformed(),
{
    BondError::SerializationError(String::from_str("Bytes are not a canonical encoding"))
}

/// What a reader returns: the value read and the position after it, tied
/// to the decoder `decoded` of the bytes from `pos` on.
pub open spec fn reads<T, V>(
    data: Seq<u8>,
    pos: usize,
    r: Option<(T, usize)>,
    view: spec_fn(T) -> V,
    decoded: Option<(V, Seq<u8>)>,
) -> bool {
    match r {
        Some((value, next)) => {
            &&& pos <= next <= data.len()
            &&& decoded == Some((view(value), data.skip(next as int)))
        },
        None => decoded is None,
    }
}

pub(crate) fn read_u32(data: &[u8], pos: usize) -> (r: Option<(u32, usize)>)
    requires
        pos <= data@.len(),
    ensures
        reads(data@, pos, r, |v: u32| v, decode_u32(data@.skip(pos as int))),
{
    if data.len() - pos < 4 {
        return None;
    }
    let value = read_le(data, pos, 4);
    proof {
        let head = data@.subrange(pos as int, pos + 4);
        assert(data@.skip(pos as int).subrange(0, 4) =~= head);
        assert(data@.skip(pos as int).skip(4) =~= data@.skip(pos + 4));
        lemma_le_nat_bound(head);
        lemma_pow256_values();
    }
    Some((value as u32, pos + 4))
}

pub(crate) fn read_u64(data: &[u8], pos: usize) -> (r: Option<(u64, usize)>)
    requires
        pos <= data@.len(),
    ensures
        reads(data@, pos, r, |v: u64| v, decode_u64(data@.skip(pos as int))),
{
    if data.len() - pos < 8 {
        return None;
    }
    let value = read_le(data, pos, 8);
    proof {
        let head = data@.subrange(pos as int, pos + 8);
        assert(data@.skip(pos as int).subrange(0, 8) =~= head);
        assert(data@.skip(pos as int).skip(8) =~= data@.skip(pos + 8));
    }
    Some((value, pos + 8))
}

pub(crate) fn read_hash(data: &[u8], pos: usize) -> (r: Option<([u8; 32], usize)>)
    requires
        pos <= data@.len(),
    ensures
        reads(data@, pos, r, |v: [u8; 32]| v@, take(data@.skip(pos as int), 32)),
{
    let total = data.len();
    if total - pos < 32 {
        return None;
    }
    let mut out = [0u8; 32];
    let mut i: usize = 0;
    while i < 32
        invariant
            i <= 32,
            total == data@.len(),
            pos + 32 <= total,
            forall|j: int| 0 <= j < i ==> out@[j] == data@[pos + j],
        decreases 32 - i,
    {
        out[i] = data[pos + i];
        i += 1;
    }
    proof {
        assert(data@.skip(pos as int).subrange(0, 32) =~= out@);
        assert(data@.skip(pos as int).skip(32) =~= data@.skip(pos + 32));
    }
    Some((out, pos + 32))
}

pub(crate) fn read_framed(data: &[u8], pos: usize) -> (r: Option<(Vec<u8>, usize)>)
    requires
        pos <= data@.len(),
    ensures
        reads(data@, pos, r, |v: Vec<u8>| v@, decode_framed(data@.skip(pos as int))),
{
    let (len, start) = match read_u64(data, pos) {
        Some(read) => read,
        None => {
            return None;
        },
    };
    if len > (data.len() - start) as u64 {
        return None;
    }
    let size = len as usize;
    let bytes = copy_range(data, start, start + size);
    proof {
        assert(data@.skip(start as int).subrange(0, size as int) =~= bytes@);
        assert(data@.skip(start as int).skip(size as int) =~= data@.skip(start + size));
    }
    Some((bytes, start + size))
}

fn read_timestamp(data: &[u8], pos: usize) -> (r: Option<(Timestamp, usize)>)
    requires
        pos <= data@.len(),
    ensures
        reads(data@, pos, r, |v: Timestamp| v, decode_timestamp(data@.skip(pos as int))),
{
    let (raw, next) = match read_u64(data, pos) {
        Some(read) => read,
        None => {
            return None;
        },
    };
    let (nanos, next) = match read_u32(data, next) {
        Some(read) => read,
        None => {
            return None;
        },
    };
    let secs: i64 = if raw < 0x8000_0000_0000_0000 {
        raw as i64
    } else {
        -((u64::MAX - raw) as i64) - 1
    };
    Some((Timestamp { secs, nanos }, next))
}

pub(crate) fn read_utxo_id(data: &[u8], pos: usize) -> (r: Option<(UtxoId, usize)>)
    requires
        pos <= data@.len(),
    ensures
        reads(data@, pos, r, |v: UtxoId| v@, decode_utxo_id(data@.skip(pos as int))),
{
    let (hash, next) = match read_hash(data, pos) {
        Some(read) => read,
        None => {
            return None;
        },
    };
    let (output_index, next) = match read_u32(data, next) {
        Some(read) => read,
        None => {
            return None;
        },
    };
    Some((UtxoId { tx_hash: TransactionHash(hash), output_index }, next))
}

fn read_input(data: &[u8], pos: usize) -> (r: Option<(TransactionInput, usize)>)
    requires
        pos <= data@.len(),
    ensures
        reads(data@, pos, r, |v: TransactionInput| v@, decode_input(data@.skip(pos as int))),
{
    let (previous_output, next) = match read_utxo_id(data, pos) {
        Some(read) => read,
        None => {
            return None;
        },
    };
    let (script, next) = match read_framed(data, next) {
        Some(read) => read,
        None => {
            return None;
        },
    };
    let (sequence, next) = match read_u32(data, next) {
        Some(read) => read,
        None => {
            return None;
        },
    };
    Some((TransactionInput { previous_output, script_sig: Script { code: script }, sequence }, next))
}

fn read_output(data: &[u8], pos: usize) -> (r: Option<(TransactionOutput, usize)>)
    requires
        pos <= data@.len(),
    ensures
        reads(data@, pos, r, |v: TransactionOutput| v@, decode_output(data@.skip(pos as int))),
{
    let (value, next) = match read_u64(data, pos) {
        Some(read) => read,
        None => {
            return None;
        },
    };
    let (script, next) = match read_framed(data, next) {
        Some(read) => read,
        None => {
            return None;
        },
    };
    Some((TransactionOutput { value, script_pubkey: Script { code: script } }, next))
}

/// Decoding `done + left` items is decoding `done` items and then `left`
/// more.
pub proof fn lemma_decode_list_split<T>(
    bytes: Seq<u8>,
    done: nat,
    left: nat,
    item: spec_fn(Seq<u8>) -> Option<(T, Seq<u8>)>,
)
    ensures
        decode_list(bytes, done + left, item) == match decode_list(bytes, done, item) {
            Some((first, rest)) => match decode_list(rest, left, item) {
                Some((others, rest)) => Some((first + others, rest)),
                None => None,
            },
            None => None,
        },
    decreases done,
{
    if done == 0 {
        match decode_list(bytes, left, item) {
            Some((others, rest)) => {
                assert(Seq::<T>::empty() + others =~= others);
            },
            None => {},
        }
    } else {
        match item(bytes) {
            Some((head, rest)) => {
                lemma_decode_list_split(rest, (done - 1) as nat, left, item);
                match decode_list(rest, (done - 1) as nat, item) {
                    Some((first, rest2)) => {
                        match decode_list(rest2, left, item) {
                            Some((others, rest3)) => {
                                assert(seq![head] + (first + others) =~= (seq![head] + first)
                                    + others);
                            },
                            None => {},
                        }
                    },
                    None => {},
                }
            },
            None => {},
        }
    }
}

fn read_inputs(data: &[u8], pos: usize, count: u64) -> (r: Option<(Vec<TransactionInput>, usize)>)
    requires
        pos <= data@.len(),
    ensures
        reads(
            data@,
            pos,
            r,
            |v: Vec<TransactionInput>| crate::transaction::input_views(v@),
            decode_list(data@.skip(pos as int), count as nat, |b: Seq<u8>| decode_input(b)),
        ),
{
    let ghost item = |b: Seq<u8>| decode_input(b);
    let mut items: Vec<TransactionInput> = Vec::new();
    let mut next: usize = pos;
    let mut done: u64 = 0;
    proof {
        assert(crate::transaction::input_views(items@) =~= Seq::<InputView>::empty());
    }
    while done < count
        invariant
            done <= count,
            pos <= next <= data@.len(),
            item == |b: Seq<u8>| decode_input(b),
            decode_list(data@.skip(pos as int), done as nat, item) == Some(
                (crate::transaction::input_views(items@), data@.skip(next as int)),
            ),
        decreases count - done,
    {
        proof {
            lemma_decode_list_split(data@.skip(pos as int), done as nat, 1, item);
            lemma_decode_list_split(
                data@.skip(pos as int),
                done as nat + 1,
                (count - done - 1) as nat,
                item,
            );
            lemma_decode_list_split(
                data@.skip(pos as int),
                done as nat,
                (count - done) as nat,
                item,
            );
            lemma_decode_list_split(data@.skip(next as int), 1, (count - done - 1) as nat, item);
        }
        let ghost before = items@;
        match read_input(data, next) {
            Some((input, after)) => {
                items.push(input);
                proof {
                    assert(decode_list(data@.skip(after as int), 0, item) == Some(
                        (Seq::<InputView>::empty(), data@.skip(after as int)),
                    ));
                    assert(item(data@.skip(next as int)) == Some((input@, data@.skip(after as int))));
                    assert(decode_list(data@.skip(next as int), 1, item) == Some(
                        (seq![input@] + Seq::<InputView>::empty(), data@.skip(after as int)),
                    ));
                    assert(crate::transaction::input_views(items@)
                        =~= crate::transaction::input_views(before) + (seq![input@] + Seq::<
                        InputView,
                    >::empty()));
                }
                next = after;
            },
            None => {
                return None;
            },
        }
        done += 1;
    }
    Some((items, next))
}

fn read_outputs(data: &[u8], pos: usize, count: u64) -> (r: Option<(Vec<TransactionOutput>, usize)>)
    requires
        pos <= data@.len(),
    ensures
        reads(
            data@,
            pos,
            r,
            |v: Vec<TransactionOutput>| crate::transaction::output_views(v@),
            decode_list(data@.skip(pos as int), count as nat, |b: Seq<u8>| decode_output(b)),
        ),
{
    let ghost item = |b: Seq<u8>| decode_output(b);
    let mut items: Vec<TransactionOutput> = Vec::new();
    let mut next: usize = pos;
    let mut done: u64 = 0;
    proof {
        assert(crate::transaction::output_views(items@) =~= Seq::<OutputView>::empty());
    }
    while done < count
        invariant
            done <= count,
            pos <= next <= data@.len(),
            item == |b: Seq<u8>| decode_output(b),
            decode_list(data@.skip(pos as int), done as nat, item) == Some(
                (crate::transaction::output_views(items@), data@.skip(next as int)),
            ),
        decreases count - done,
    {
        proof {
            lemma_decode_list_split(data@.skip(pos as int), done as nat, 1, item);
            lemma_decode_list_split(
                data@.skip(pos as int),
                done as nat + 1,
                (count - done - 1) as nat,
                item,
            );
            lemma_decode_list_split(
                data@.skip(pos as int),
                done as nat,
                (count - done) as nat,
                item,
            );
            lemma_decode_list_split(data@.skip(next as int), 1, (count - done - 1) as nat, item);
        }
        let ghost before = items@;
        match read_output(data, next) {
            Some((output, after)) => {
                items.push(output);
                proof {
                    assert(decode_list(data@.skip(after as int), 0, item) == Some(
                        (Seq::<OutputView>::empty(), data@.skip(after as int)),
                    ));
                    assert(item(data@.skip(next as int)) == Some((output@, data@.skip(after as int))));
                    assert(decode_list(data@.skip(next as int), 1, item) == Some(
                        (seq![output@] + Seq::<OutputView>::empty(), data@.skip(after as int)),
                    ));
                    assert(crate::transaction::output_views(items@)
                        =~= crate::transaction::output_views(before) + (seq![output@] + Seq::<
                        OutputView,
                    >::empty()));
                }
                next = after;
            },
            None => {
                return None;
            },
        }
        done += 1;
    }
    Some((items, next))
}

fn read_transaction(data: &[u8], pos: usize) -> (r: Option<(Transaction, usize)>)
    requires
        pos <= data@.len(),
    ensures
        reads(data@, pos, r, |v: Transaction| v@, decode_transaction(data@.skip(pos as int))),
{
    let (version, next) = match read_u32(data, pos) {
        Some(read) => read,
        None => {
            return None;
        },
    };
    let (input_count, next) = match read_u64(data, next) {
        Some(read) => read,
        None => {
            return None;
        },
    };
    let (inputs, next) = match read_inputs(data, next, input_count) {
        Some(read) => read,
        None => {
            return None;
        },
    };
    let (output_count, next) = match read_u64(data, next) {
        Some(read) => read,
        None => {
            return None;
        },
    };
    let (outputs, next) = match read_outputs(data, next, output_count) {
        Some(read) => read,
        None => {
            return None;
        },
    };
    let (locktime, next) = match read_u32(data, next) {
        Some(read) => read,
        None => {
            return None;
        },
    };
    let (timestamp, next) = match read_timestamp(data, next) {
        Some(read) => read,
        None => {
            return None;
        },
    };
    Some((Transaction { version, inputs, outputs, locktime, timestamp }, next))
}

fn read_header(data: &[u8], pos: usize) -> (r: Option<(BlockHeader, usize)>)
    requires
        pos <= data@.len(),
    ensures
        reads(data@, pos, r, |v: BlockHeader| v@, decode_header(data@.skip(pos as int))),
{
    let (version, next) = match read_u32(data, pos) {
        Some(read) => read,
        None => {
            return None;
        },
    };
    let (previous_hash, next) = match read_hash(data, next) {
        Some(read) => read,
        None => {
            return None;
        },
    };
    let (merkle_root, next) = match read_hash(data, next) {
        Some(read) => read,
        None => {
            return None;
        },
    };
    let (timestamp, next) = match read_timestamp(data, next) {
        Some(read) => read,
        None => {
            return None;
        },
    };
    let (target, next) = match read_hash(data, next) {
        Some(read) => read,
        None => {
            return None;
        },
    };
    let (nonce, next) = match read_u64(data, next) {
        Some(read) => read,
        None => {
            return None;
        },
    };
    Some(
        (
            BlockHeader {
                version,
                previous_hash: BlockHash(previous_hash),
                merkle_root: MerkleRoot(merkle_root),
                timestamp,
                difficulty_target: DifficultyTarget(target),
                nonce,
            },
            next,
        ),
    )
}

fn read_transactions(data: &[u8], pos: usize, count: u64) -> (r: Option<(Vec<Transaction>, usize)>)
    requires
        pos <= data@.len(),
    ensures
        reads(
            data@,
            pos,
            r,
            |v: Vec<Transaction>| crate::block::transaction_views(v@),
            decode_list(data@.skip(pos as int), count as nat, |b: Seq<u8>| decode_transaction(b)),
        ),
{
    let ghost item = |b: Seq<u8>| decode_transaction(b);
    let mut items: Vec<Transaction> = Vec::new();
    let mut next: usize = pos;
    let mut done: u64 = 0;
    proof {
        assert(crate::block::transaction_views(items@) =~= Seq::<TransactionView>::empty());
    }
    while done < count
        invariant
            done <= count,
            pos <= next <= data@.len(),
            item == |b: Seq<u8>| decode_transaction(b),
            decode_list(data@.skip(pos as int), done as nat, item) == Some(
                (crate::block::transaction_views(items@), data@.skip(next as int)),
            ),
        decreases count - done,
    {
        proof {
            lemma_decode_list_split(data@.skip(pos as int), done as nat, 1, item);
            lemma_decode_list_split(
                data@.skip(pos as int),
                done as nat + 1,
                (count - done - 1) as nat,
                item,
            );
            lemma_decode_list_split(
                data@.skip(pos as int),
                done as nat,
                (count - done) as nat,
                item,
            );
            lemma_decode_list_split(data@.skip(next as int), 1, (count - done - 1) as nat, item);
        }
        let ghost before = items@;
        match read_transaction(data, next) {
            Some((tx, after)) => {
                items.push(tx);
                proof {
                    assert(decode_list(data@.skip(after as int), 0, item) == Some(
                        (Seq::<TransactionView>::empty(), data@.skip(after as int)),
                    ));
                    assert(item(data@.skip(next as int)) == Some((tx@, data@.skip(after as int))));
                    assert(decode_list(data@.skip(next as int), 1, item) == Some(
                        (seq![tx@] + Seq::<TransactionView>::empty(), data@.skip(after as int)),
                    ));
                    assert(crate::block::transaction_views(items@)
                        =~= crate::block::transaction_views(before) + (seq![tx@] + Seq::<
                        TransactionView,
                    >::empty()));
                }
                next = after;
            },
            None => {
                return None;
            },
        }
        done += 1;
    }
    Some((items, next))
}

/// Whether `bytes` are the canonical encoding of exactly one value of the
/// kind that `decoded` decodes, with nothing after it.
pub open spec fn decodes_whole<V>(decoded: Option<(V, Seq<u8>)>) -> bool {
    decoded matches Some((_, rest)) && rest.len() == 0
}

impl Transaction {
    /// The transaction that `bytes` encode. Bytes that are not the encoding
    /// of one transaction, with nothing after it, are an error.
    pub fn deserialize(bytes: &[u8]) -> (r: BondResult<Transaction>)
        ensures
            match r {
                Ok(tx) => {
                    &&& decode_transaction(bytes@) == Some((tx@, Seq::<u8>::empty()))
                    &&& bytes@ == tx@.encoding()
                },
                Err(e) => !decodes_whole(decode_transaction(bytes@)) && e@ == malformed(),
            },
    {
        assert(bytes@.skip(0) =~= bytes@);
        proof {
            if decode_transaction(bytes@) is Some {
                lemma_transaction_sound(bytes@);
                let value = decode_transaction(bytes@).unwrap().0;
                assert(value.encoding() + Seq::<u8>::empty() =~= value.encoding());
            }
        }
        match read_transaction(bytes, 0) {
            Some((tx, next)) => {
                if next == bytes.len() {
                    assert(bytes@.skip(next as int) =~= Seq::<u8>::empty());
                    Ok(tx)
                } else {
                    Err(malformed_error())
                }
            },
            None => Err(malformed_error()),
        }
    }
}

impl BlockHeader {
    /// The header that `bytes` encode. Bytes that are not the encoding of
    /// one header, with nothing after it, are an error.
    pub fn deserialize(bytes: &[u8]) -> (r: BondResult<BlockHeader>)
        ensures
            match r {
                Ok(header) => {
                    &&& decode_header(bytes@) == Some((header@, Seq::<u8>::empty()))
                    &&& bytes@ == header@.encoding()
                },
                Err(e) => !decodes_whole(decode_header(bytes@)) && e@ == malformed(),
            },
    {
        assert(bytes@.skip(0) =~= bytes@);
        proof {
            if decode_header(bytes@) is Some {
                lemma_header_sound(bytes@);
                let value = decode_header(bytes@).unwrap().0;
                assert(value.encoding() + Seq::<u8>::empty() =~= value.encoding());
            }
        }
        match read_header(bytes, 0) {
            Some((header, next)) => {
                if next == bytes.len() {
                    assert(bytes@.skip(next as int) =~= Seq::<u8>::empty());
                    Ok(header)
                } else {
                    Err(malformed_error())
                }
            },
            None => Err(malformed_error()),
        }
    }
}

impl Block {
    /// The block that `bytes` encode. Bytes that are not the encoding of
    /// one block, with nothing after it, are an error.
    pub fn deserialize(bytes: &[u8]) -> (r: BondResult<Block>)
        ensures
            match r {
                Ok(block) => {
                    &&& decode_block(bytes@) == Some((block@, Seq::<u8>::empty()))
                    &&& bytes@ == block@.encoding()
                },
                Err(e) => !decodes_whole(decode_block(bytes@)) && e@ == malformed(),
            },
    {
        assert(bytes@.skip(0) =~= bytes@);
        proof {
            if decode_block(bytes@) is Some {
                lemma_block_sound(bytes@);
                let value = decode_block(bytes@).unwrap().0;
                assert(value.encoding() + Seq::<u8>::empty() =~= value.encoding());
            }
        }
        let (header, next) = match read_header(bytes, 0) {
            Some(read) => read,
            None => {
                return Err(malformed_error());
            },
        };
        let (count, next) = match read_u64(bytes, next) {
            Some(read) => read,
            None => {
                return Err(malformed_error());
            },
        };
        let (transactions, next) = match read_transactions(bytes, next, count) {
            Some(read) => read,
            None => {
                return Err(malformed_error());
            },
        };
        if next == bytes.len() {
            assert(bytes@.skip(next as int) =~= Seq::<u8>::empty());
            Ok(Block { header, transactions })
        } else {
            Err(malformed_error())
        }
    }
}

} // verus!
