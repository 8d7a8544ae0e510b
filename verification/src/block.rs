//! Blocks: a header that commits to its predecessor and to its transactions,
//! and the transactions themselves.

use crate::encoding::{be_less_or_equal, be_nat, bytes_equal, le_bytes, push_bytes, push_u32, push_u64};
use crate::error::{BondError, BondErrorView, BondResult};
use crate::hashing::{keccak256, keccak256_digest};
use crate::encoding::leading;
use crate::text::{
    decimal, hex_bytes, hex_decode, hex_encode, hex_string, is_hex_text, push_decimal,
};
use crate::timestamp::Timestamp;
use crate::transaction::{concat_encodings, Transaction, TransactionView};
use vstd::prelude::*;
use vstd::string::StringExecFns;

verus! {

/// The Keccak-256 hash of a block header.
#[derive(Debug, Clone, Copy, PartialEq, Eq, Hash)]
pub struct BlockHash(pub [u8; 32]);

/// The Merkle root of the transactions of a block.
#[derive(Debug, Clone, Copy, PartialEq, Eq, Hash)]
pub struct MerkleRoot(pub [u8; 32]);

/// A proof-of-work target: 32 bytes read as a big-endian number; a larger
/// target is easier to meet.
#[derive(Debug, Clone, Copy, PartialEq, Eq, PartialOrd, Ord)]
pub struct DifficultyTarget(pub [u8; 32]);

impl View for BlockHash {
    type V = Seq<u8>;

    open spec fn view(&self) -> Seq<u8> {
        self.0@
    }
}

impl View for MerkleRoot {
    type V = Seq<u8>;

    open spec fn view(&self) -> Seq<u8> {
        self.0@
    }
}

impl View for DifficultyTarget {
    type V = Seq<u8>;

    open spec fn view(&self) -> Seq<u8> {
        self.0@
    }
}

/// Thirty-two bytes of the same value.
pub open spec fn filled(byte: u8) -> Seq<u8> {
    Seq::new(32, |i: int| byte)
}

/// Whether a hash meets a target: read as big-endian numbers, the hash is
/// at most the target.
pub open spec fn meets_target(hash: Seq<u8>, target: Seq<u8>) -> bool {
    be_nat(hash) <= be_nat(target)
}

/// A hash that meets a target meets every target that is at least as
/// large.
pub proof fn lemma_pow_monotone_in_target(hash: Seq<u8>, t1: Seq<u8>, t2: Seq<u8>)
    requires
        meets_target(hash, t1),
        be_nat(t1) <= be_nat(t2),
    ensures
        meets_target(hash, t2),
{
}

impl BlockHash {
    /// The all-zero hash.
    pub fn zero() -> (r: Self)
        ensures
            r@ == filled(0),
    {
        let r = BlockHash([0u8; 32]);
        assert(r@ =~= filled(0));
        r
    }

    /// The hash with the given bytes.
    pub fn from_bytes(bytes: [u8; 32]) -> (r: Self)
        ensures
            r@ == bytes@,
    {
        BlockHash(bytes)
    }

    /// The 32 bytes.
    pub fn as_bytes(&self) -> (r: &[u8; 32])
        ensures
            r@ == self@,
    {
        &self.0
    }

    /// Whether the hash, read as a big-endian number, is at most `target`.
    pub fn meets_difficulty_target(&self, target: DifficultyTarget) -> (r: bool)
        ensures
            r == meets_target(self@, target@),
    {
        be_less_or_equal(self.0.as_slice(), target.0.as_slice())
    }

    /// Whether two hashes hold the same bytes.
    pub fn same_as(&self, other: &BlockHash) -> (r: bool)
        ensures
            r == (self@ == other@),
    {
        bytes_equal(self.0.as_slice(), other.0.as_slice())
    }

    /// The hash in lowercase hexadecimal.
    pub fn to_string(&self) -> (r: String)
        ensures
            r@ == hex_string(self@),
    {
        hex_encode(self.0.as_slice())
    }
}

impl MerkleRoot {
    /// The all-zero root, which is the root of no transactions.
    pub fn zero() -> (r: Self)
        ensures
            r@ == filled(0),
    {
        let r = MerkleRoot([0u8; 32]);
        assert(r@ =~= filled(0));
        r
    }

    /// The root with the given bytes.
    pub fn from_bytes(bytes: [u8; 32]) -> (r: Self)
        ensures
            r@ == bytes@,
    {
        MerkleRoot(bytes)
    }

    /// The 32 bytes.
    pub fn as_bytes(&self) -> (r: &[u8; 32])
        ensures
            r@ == self@,
    {
        &self.0
    }

    /// Whether two roots hold the same bytes.
    pub fn same_as(&self, other: &MerkleRoot) -> (r: bool)
        ensures
            r == (self@ == other@),
    {
        bytes_equal(self.0.as_slice(), other.0.as_slice())
    }

    /// The root in lowercase hexadecimal.
    pub fn to_string(&self) -> (r: String)
        ensures
            r@ == hex_string(self@),
    {
        hex_encode(self.0.as_slice())
    }
}

impl DifficultyTarget {
    /// The largest target, which every hash meets.
    pub fn maximum() -> (r: Self)
        ensures
            r@ == filled(0xFF),
    {
        let r = DifficultyTarget([0xFFu8; 32]);
        assert(r@ =~= filled(0xFF));
        r
    }

    /// The smallest target, which only the all-zero hash meets.
    pub fn minimum() -> (r: Self)
        ensures
            r@ == filled(0),
    {
        let r = DifficultyTarget([0u8; 32]);
        assert(r@ =~= filled(0));
        r
    }

    /// The target with the given bytes.
    pub fn from_bytes(bytes: [u8; 32]) -> (r: Self)
        ensures
            r@ == bytes@,
    {
        DifficultyTarget(bytes)
    }

    /// The 32 bytes.
    pub fn as_bytes(&self) -> (r: &[u8; 32])
        ensures
            r@ == self@,
    {
        &self.0
    }

    /// Whether two targets hold the same bytes.
    pub fn same_as(&self, other: &DifficultyTarget) -> (r: bool)
        ensures
            r == (self@ == other@),
    {
        bytes_equal(self.0.as_slice(), other.0.as_slice())
    }

    /// The target in lowercase hexadecimal.
    pub fn to_string(&self) -> (r: String)
        ensures
            r@ == hex_string(self@),
    {
        hex_encode(self.0.as_slice())
    }
}

/// The header of a block.
#[derive(Debug, Clone, Copy, PartialEq)]
pub struct BlockHeader {
    /// Format version.
    pub version: u32,
    /// Hash of the previous block's header.
    pub previous_hash: BlockHash,
    /// Merkle root of the block's transactions.
    pub merkle_root: MerkleRoot,
    /// When the block was made.
    pub timestamp: Timestamp,
    /// The target that the header's hash must meet.
    pub difficulty_target: DifficultyTarget,
    /// The nonce that mining chose.
    pub nonce: u64,
}

/// The mathematical content of a [`BlockHeader`].
pub struct HeaderView {
    pub version: u32,
    pub previous_hash: Seq<u8>,
    pub merkle_root: Seq<u8>,
    pub timestamp: Timestamp,
    pub difficulty_target: Seq<u8>,
    pub nonce: u64,
}

impl View for BlockHeader {
    type V = HeaderView;

    open spec fn view(&self) -> HeaderView {
        HeaderView {
            version: self.version,
            previous_hash: self.previous_hash@,
            merkle_root: self.merkle_root@,
            timestamp: self.timestamp,
            difficulty_target: self.difficulty_target@,
            nonce: self.nonce,
        }
    }
}

impl HeaderView {
    /// The canonical encoding: version, previous hash, Merkle root,
    /// timestamp, target, nonce; integers little-endian.
    pub open spec fn encoding(self) -> Seq<u8> {
        le_bytes(self.version as nat, 4) + self.previous_hash + self.merkle_root
            + self.timestamp.encoding() + self.difficulty_target + le_bytes(self.nonce as nat, 8)
    }

    /// The hash: Keccak-256 of the canonical encoding.
    pub open spec fn hash(self) -> Seq<u8> {
        keccak256(self.encoding())
    }

    /// Whether the header's hash meets the header's target.
    pub open spec fn pow_holds(self) -> bool {
        meets_target(self.hash(), self.difficulty_target)
    }

    /// The header with another nonce.
    pub open spec fn with_nonce(self, nonce: u64) -> HeaderView {
        HeaderView {
            version: self.version,
            previous_hash: self.previous_hash,
            merkle_root: self.merkle_root,
            timestamp: self.timestamp,
            difficulty_target: self.difficulty_target,
            nonce,
        }
    }
}

impl BlockHeader {
    /// The header with the given fields.
    pub fn new(
        version: u32,
        previous_hash: BlockHash,
        merkle_root: MerkleRoot,
        timestamp: Timestamp,
        difficulty_target: DifficultyTarget,
        nonce: u64,
    ) -> (r: Self)
        ensures
            r == (BlockHeader {
                version,
                previous_hash,
                merkle_root,
                timestamp,
                difficulty_target,
                nonce,
            }),
    {
        BlockHeader { version, previous_hash, merkle_root, timestamp, difficulty_target, nonce }
    }

    /// Appends the canonical encoding to `out`.
    pub fn encode_into(&self, out: &mut Vec<u8>)
        ensures
            final(out)@ == old(out)@ + self@.encoding(),
    {
        let ghost before = out@;
        push_u32(out, self.version);
        push_bytes(out, self.previous_hash.0.as_slice());
        push_bytes(out, self.merkle_root.0.as_slice());
        self.timestamp.encode_into(out);
        push_bytes(out, self.difficulty_target.0.as_slice());
        push_u64(out, self.nonce);
        assert(out@ =~= before + self@.encoding());
    }

    /// The canonical encoding, from which the header decodes again.
    pub fn serialize(&self) -> (r: Vec<u8>)
        ensures
            r@ == self@.encoding(),
            crate::codec::decode_header(r@) == Some((self@, Seq::<u8>::empty())),
    {
        let mut out: Vec<u8> = Vec::new();
        self.encode_into(&mut out);
        proof {
            assert(Seq::<u8>::empty() + self@.encoding() =~= self@.encoding());
            assert(self@.encoding() + Seq::<u8>::empty() =~= self@.encoding());
            crate::codec::lemma_header_is_well_formed(*self);
            crate::codec::lemma_header_round_trip(self@, Seq::empty());
        }
        out
    }

    /// The hash: Keccak-256 of the canonical encoding.
    pub fn hash(&self) -> (r: BondResult<BlockHash>)
        ensures
            r is Ok,
            r.unwrap()@ == self@.hash(),
    {
        let serialized = self.serialize();
        Ok(BlockHash(keccak256_digest(serialized.as_slice())))
    }

    /// Whether the header's hash meets the header's target.
    pub fn validates_pow(&self) -> (r: BondResult<bool>)
        ensures
            r is Ok,
            r.unwrap() == self@.pow_holds(),
    {
        let hash = match self.hash() {
            Ok(hash) => hash,
            Err(e) => {
                return Err(e);
            },
        };
        Ok(hash.meets_difficulty_target(self.difficulty_target))
    }
}

/// A block.
#[derive(Debug, PartialEq)]
pub struct Block {
    /// The header.
    pub header: BlockHeader,
    /// The transactions, the coinbase first.
    pub transactions: Vec<Transaction>,
}

/// The mathematical content of a [`Block`].
pub struct BlockView {
    pub header: HeaderView,
    pub transactions: Seq<TransactionView>,
}

/// The views of a list of transactions.
pub open spec fn transaction_views(transactions: Seq<Transaction>) -> Seq<TransactionView> {
    transactions.map_values(|tx: Transaction| tx@)
}

impl View for Block {
    type V = BlockView;

    open spec fn view(&self) -> BlockView {
        BlockView { header: self.header@, transactions: transaction_views(self.transactions@) }
    }
}

impl Clone for Block {
    fn clone(&self) -> (r: Self)
        ensures
            r@ == self@,
    {
        let mut transactions: Vec<Transaction> = Vec::with_capacity(self.transactions.len());
        let mut i: usize = 0;
        while i < self.transactions.len()
            invariant
                i <= self.transactions@.len(),
                transactions@.len() == i,
                forall|j: int| 0 <= j < i ==> transactions@[j]@ == self.transactions@[j]@,
            decreases self.transactions@.len() - i,
        {
            transactions.push(self.transactions[i].clone());
            i += 1;
        }
        assert(transaction_views(transactions@) =~= transaction_views(self.transactions@));
        Block { header: self.header, transactions }
    }
}

/// One level up in the Merkle tree: the hash of each pair of neighbours,
/// the last hash paired with itself where their number is odd.
pub open spec fn merkle_level(hashes: Seq<Seq<u8>>) -> Seq<Seq<u8>> {
    Seq::new(
        ((hashes.len() + 1) / 2) as nat,
        |i: int|
            keccak256(
                hashes[2 * i] + if 2 * i + 1 < hashes.len() {
                    hashes[2 * i + 1]
                } else {
                    hashes[2 * i]
                },
            ),
    )
}

/// The Merkle root of a list of hashes: all zeros for none, the hash itself
/// for one, and else the root of the next level.
pub open spec fn merkle_reduce(hashes: Seq<Seq<u8>>) -> Seq<u8>
    decreases hashes.len(),
{
    if hashes.len() == 0 {
        filled(0)
    } else if hashes.len() == 1 {
        hashes[0]
    } else {
        merkle_reduce(merkle_level(hashes))
    }
}

/// The largest size of a block's canonical encoding: 4 MiB.
pub const MAX_BLOCK_SIZE: usize = 4194304;

impl BlockView {
    /// The canonical encoding: the header, the number of transactions in
    /// eight little-endian bytes, the transactions.
    pub open spec fn encoding(self) -> Seq<u8> {
        self.header.encoding() + le_bytes(self.transactions.len(), 8) + concat_encodings(
            self.transactions,
            |tx: TransactionView| tx.encoding(),
        )
    }

    /// The Merkle root of the transactions' hashes.
    pub open spec fn merkle_root(self) -> Seq<u8> {
        merkle_reduce(self.transactions.map_values(|tx: TransactionView| tx.hash()))
    }

    /// The structural rules of the transactions from index `from` on: the
    /// first broken rule of the first transaction that breaks one.
    pub open spec fn transactions_outcome_from(self, from: int) -> Result<(), BondErrorView>
        decreases self.transactions.len() - from,
    {
        if from < 0 || from >= self.transactions.len() {
            Ok(())
        } else {
            match self.transactions[from].structural_outcome() {
                Err(e) => Err(e),
                Ok(_) => self.transactions_outcome_from(from + 1),
            }
        }
    }

    /// The rules that a block must meet by itself, in the order in which
    /// they are checked: proof of work, Merkle root, then the structural
    /// rules of each transaction.
    pub open spec fn structural_outcome(self) -> Result<(), BondErrorView> {
        if !self.header.pow_holds() {
            Err(
                BondErrorView::InvalidProofOfWork {
                    hash: hex_string(self.header.hash()),
                    target: hex_string(self.header.difficulty_target),
                },
            )
        } else if self.merkle_root() != self.header.merkle_root {
            Err(
                BondErrorView::InvalidBlockHash {
                    expected: hex_string(self.header.merkle_root),
                    actual: hex_string(self.merkle_root()),
                },
            )
        } else {
            self.transactions_outcome_from(0)
        }
    }
}

/// The Merkle root of a single transaction is that transaction's hash.
pub proof fn lemma_merkle_single(block: BlockView)
    requires
        block.transactions.len() == 1,
    ensures
        block.merkle_root() == block.transactions[0].hash(),
{
}

/// The Merkle root of no transactions is all zeros.
pub proof fn lemma_merkle_empty(block: BlockView)
    requires
        block.transactions.len() == 0,
    ensures
        block.merkle_root() == filled(0),
{
}

/// The views of a list of hashes.
pub open spec fn hash_views(hashes: Seq<[u8; 32]>) -> Seq<Seq<u8>> {
    hashes.map_values(|hash: [u8; 32]| hash@)
}

fn hash_pair(left: &[u8; 32], right: &[u8; 32]) -> (r: [u8; 32])
    ensures
        r@ == keccak256(left@ + right@),
{
    let mut joined: Vec<u8> = Vec::with_capacity(64);
    push_bytes(&mut joined, left.as_slice());
    push_bytes(&mut joined, right.as_slice());
    assert(joined@ =~= left@ + right@);
    keccak256_digest(joined.as_slice())
}

fn next_merkle_level(hashes: &Vec<[u8; 32]>) -> (r: Vec<[u8; 32]>)
    requires
        hashes@.len() >= 1,
    ensures
        hash_views(r@) == merkle_level(hash_views(hashes@)),
{
    let total = hashes.len();
    let pairs = total / 2 + total % 2;
    let mut next_level: Vec<[u8; 32]> = Vec::with_capacity(pairs);
    let mut k: usize = 0;
    while k < pairs
        invariant
            total == hashes@.len(),
            pairs == (total + 1) / 2,
            k <= pairs,
            next_level@.len() == k,
            forall|j: int|
                0 <= j < k ==> (#[trigger] next_level@[j])@ == merkle_level(
                    hash_views(hashes@),
                )[j],
        decreases pairs - k,
    {
        let left = &hashes[2 * k];
        let hash = if total - 2 * k >= 2 {
            hash_pair(left, &hashes[2 * k + 1])
        } else {
            hash_pair(left, left)
        };
        next_level.push(hash);
        k += 1;
    }
    assert(hash_views(next_level@) =~= merkle_level(hash_views(hashes@)));
    next_level
}

impl Block {
    /// The block with the given header and transactions.
    pub fn new(header: BlockHeader, transactions: Vec<Transaction>) -> (r: Self)
        ensures
            r@ == (BlockView {
                header: header@,
                transactions: transaction_views(transactions@),
            }),
    {
        Block { header, transactions }
    }

    /// The hash of the block, which is that of its header.
    pub fn hash(&self) -> (r: BondResult<BlockHash>)
        ensures
            r is Ok,
            r.unwrap()@ == self@.header.hash(),
    {
        self.header.hash()
    }

    /// The Merkle root of the transactions.
    pub fn calculate_merkle_root(&self) -> (r: BondResult<MerkleRoot>)
        ensures
            r is Ok,
            r.unwrap()@ == self@.merkle_root(),
    {
        if self.transactions.len() == 0 {
            return Ok(MerkleRoot::zero());
        }
        let ghost leaves = self@.transactions.map_values(|tx: TransactionView| tx.hash());
        let mut hashes: Vec<[u8; 32]> = Vec::new();
        let mut i: usize = 0;
        while i < self.transactions.len()
            invariant
                i <= self.transactions@.len(),
                hashes@.len() == i,
                leaves == self@.transactions.map_values(|tx: TransactionView| tx.hash()),
                forall|j: int| 0 <= j < i ==> (#[trigger] hashes@[j])@ == leaves[j],
            decreases self.transactions@.len() - i,
        {
            match self.transactions[i].hash() {
                Ok(hash) => {
                    hashes.push(*hash.as_bytes());
                },
                Err(e) => {
                    return Err(e);
                },
            }
            i += 1;
        }
        assert(hash_views(hashes@) =~= leaves);
        while hashes.len() > 1
            invariant
                hashes@.len() >= 1,
                merkle_reduce(hash_views(hashes@)) == merkle_reduce(leaves),
            decreases hashes@.len(),
        {
            let next_level = next_merkle_level(&hashes);
            assert(hash_views(next_level@).len() == next_level@.len());
            hashes = next_level;
        }
        assert(hash_views(hashes@)[0] == hashes@[0]@);
        Ok(MerkleRoot(hashes[0]))
    }

    /// Checks the rules that a block must meet by itself: proof of work,
    /// Merkle root, and the structural rules of each transaction.
    pub fn validate(&self) -> (r: BondResult<()>)
        ensures
            crate::error::unit_outcome(r, self@.structural_outcome()),
    {
        let hash = match self.hash() {
            Ok(hash) => hash,
            Err(e) => {
                return Err(e);
            },
        };
        if !hash.meets_difficulty_target(self.header.difficulty_target) {
            return Err(
                BondError::InvalidProofOfWork {
                    hash: hash.to_string(),
                    target: self.header.difficulty_target.to_string(),
                },
            );
        }
        let calculated_root = match self.calculate_merkle_root() {
            Ok(root) => root,
            Err(e) => {
                return Err(e);
            },
        };
        if !calculated_root.same_as(&self.header.merkle_root) {
            return Err(
                BondError::InvalidBlockHash {
                    expected: self.header.merkle_root.to_string(),
                    actual: calculated_root.to_string(),
                },
            );
        }
        let mut i: usize = 0;
        while i < self.transactions.len()
            invariant
                i <= self.transactions@.len(),
                self@.header.pow_holds(),
                self@.merkle_root() == self@.header.merkle_root,
                self@.transactions_outcome_from(i as int) == self@.transactions_outcome_from(0),
            decreases self.transactions@.len() - i,
        {
            assert(self@.transactions[i as int] == self.transactions@[i as int]@);
            match self.transactions[i].validate() {
                Ok(_) => {},
                Err(e) => {
                    return Err(e);
                },
            }
            i += 1;
        }
        Ok(())
    }

    /// The canonical encoding, from which the block decodes again.
    pub fn serialize(&self) -> (r: Vec<u8>)
        ensures
            r@ == self@.encoding(),
            crate::codec::decode_block(r@) == Some((self@, Seq::<u8>::empty())),
    {
        let ghost views = self@.transactions;
        let ghost encode = |tx: TransactionView| tx.encoding();
        let mut out: Vec<u8> = Vec::new();
        self.header.encode_into(&mut out);
        push_u64(&mut out, self.transactions.len() as u64);
        let ghost prefix = out@;
        let mut i: usize = 0;
        assert(views.subrange(0, 0) =~= Seq::<TransactionView>::empty());
        assert(prefix + concat_encodings(views.subrange(0, 0), encode) =~= prefix);
        while i < self.transactions.len()
            invariant
                i <= self.transactions@.len(),
                views == self@.transactions,
                encode == |tx: TransactionView| tx.encoding(),
                out@ == prefix + concat_encodings(views.subrange(0, i as int), encode),
            decreases self.transactions@.len() - i,
        {
            self.transactions[i].encode_into(&mut out);
            proof {
                let next = views.subrange(0, i as int + 1);
                assert(next.drop_last() =~= views.subrange(0, i as int));
                assert(next.last() == self.transactions@[i as int]@);
                assert(out@ =~= prefix + concat_encodings(next, encode));
            }
            i += 1;
        }
        proof {
            assert(views.subrange(0, self.transactions@.len() as int) =~= views);
            assert(out@ =~= self@.encoding());
            assert(self@.encoding() + Seq::<u8>::empty() =~= self@.encoding());
            crate::codec::lemma_block_is_well_formed(*self);
            crate::codec::lemma_block_round_trip(self@, Seq::empty());
        }
        out
    }

    /// The size of the canonical encoding in bytes.
    pub fn size(&self) -> (r: BondResult<usize>)
        ensures
            r is Ok,
            r.unwrap() == self@.encoding().len(),
    {
        let serialized = self.serialize();
        Ok(serialized.len())
    }
}

/// The hash that a text spells in hexadecimal: the text must be
/// hexadecimal digits, and 64 of them.
pub open spec fn parsed_block_hash(text: Seq<char>) -> Result<Seq<u8>, BondErrorView> {
    if !is_hex_text(text) {
        Err(BondErrorView::InvalidBlockHash { expected: "valid hex string"@, actual: text })
    } else if hex_bytes(text).len() != 32 {
        Err(
            BondErrorView::InvalidBlockHash {
                expected: "32 bytes"@,
                actual: decimal(hex_bytes(text).len()) + " bytes"@,
            },
        )
    } else {
        Ok(hex_bytes(text))
    }
}

impl BlockHash {
    /// The hash that `text` spells in hexadecimal.
    pub fn parse(text: &str) -> (r: BondResult<BlockHash>)
        ensures
            match r {
                Ok(hash) => parsed_block_hash(text@) == Ok::<Seq<u8>, BondErrorView>(hash@),
                Err(e) => parsed_block_hash(text@) == Err::<Seq<u8>, BondErrorView>(e@),
            },
    {
        let bytes = match hex_decode(text) {
            Some(bytes) => bytes,
            None => {
                return Err(
                    BondError::InvalidBlockHash {
                        expected: String::from_str("valid hex string"),
                        actual: String::from_str(text),
                    },
                );
            },
        };
        if bytes.len() != 32 {
            let mut actual = String::new();
            push_decimal(&mut actual, bytes.len() as u64);
            actual.append(" bytes");
            assert(actual@ =~= decimal(bytes@.len()) + " bytes"@);
            return Err(
                BondError::InvalidBlockHash { expected: String::from_str("32 bytes"), actual },
            );
        }
        let array: [u8; 32] = leading::<32>(bytes.as_slice());
        assert(array@ =~= bytes@);
        Ok(BlockHash(array))
    }
}

impl core::str::FromStr for BlockHash {
    type Err = BondError;

    fn from_str(s: &str) -> (r: Result<Self, BondError>)
        ensures
            match r {
                Ok(hash) => parsed_block_hash(s@) == Ok::<Seq<u8>, BondErrorView>(hash@),
                Err(e) => parsed_block_hash(s@) == Err::<Seq<u8>, BondErrorView>(e@),
            },
    {
        BlockHash::parse(s)
    }
}

} // verus!
