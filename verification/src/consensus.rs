//! The chain state: the ordered blocks, the index of unspent outputs, and
//! the atomic application of a block to both.

use crate::block::{
    filled, Block, BlockHash, BlockHeader, BlockView, DifficultyTarget, HeaderView, MerkleRoot,
};
use crate::encoding::push_bytes;
use crate::error::{unit_outcome, BondError, BondErrorView, BondResult};
use crate::mining::{block_outcome, block_views, timestamp_outcome, Consensus, MiningConfig};
use crate::script::{
    run, start, ContextView, Limits, ScriptContext, ScriptInterpreter, ScriptOutcome,
    ScriptResult,
};
use crate::timestamp::Timestamp;
use crate::text::joined;
use crate::transaction::{
    coinbase_view, missing_utxo, missing_utxo_error, InputView, OutputView, Transaction,
    TransactionOutput, TransactionView,
};
use crate::utxo::{UtxoId, UtxoIdView};
use crate::utxo_set::{map_total, matching, UtxoSet};
use vstd::slice::slice_subrange;
use vstd::string::StrSliceExecFns;
use vstd::string::StringSliceAdditionalSpecFns;
use vstd::prelude::*;
use vstd::string::StringExecFns;

verus! {

/// The unspent outputs as a map.
pub type Utxos = Map<UtxoIdView, OutputView>;

/// The reference of the first input that has no unspent output, if there
/// is one.
pub open spec fn first_missing(inputs: Seq<InputView>, utxos: Utxos) -> Option<UtxoIdView>
    decreases inputs.len(),
{
    if inputs.len() == 0 {
        None
    } else if !utxos.dom().contains(inputs[0].previous_output) {
        Some(inputs[0].previous_output)
    } else {
        first_missing(inputs.skip(1), utxos)
    }
}

/// The index of an input as a script sees it: the index, or the largest
/// 32-bit number where the index is larger.
pub open spec fn input_index(i: int) -> u32 {
    if i > u32::MAX {
        u32::MAX
    } else {
        i as u32
    }
}

/// The seconds of a timestamp as a script sees them: zero before the epoch.
pub open spec fn script_time(t: Timestamp) -> u64 {
    if t.secs < 0 {
        0
    } else {
        t.secs as u64
    }
}

/// The check of the script that authorizes input `i` of `tx`: the
/// authorization script of the input followed by the script of the output
/// that it spends, run with the default limits in the context of the spend.
/// The script must succeed.
pub open spec fn script_outcome(tx: TransactionView, i: int, utxos: Utxos, height: u32) -> Result<
    (),
    BondErrorView,
> {
    let input = tx.inputs[i];
    let script = input.script_sig + utxos[input.previous_output].script_pubkey;
    let context = ContextView {
        block_height: height,
        timestamp: script_time(tx.timestamp),
        tx_hash: tx.signature_hash(input.previous_output),
        input_index: input_index(i),
    };
    match run(script, context, Limits { max_ops: 1000, max_stack: 100 }, start()) {
        ScriptOutcome::Success => Ok(()),
        ScriptOutcome::Failure => Err(
            BondErrorView::InvalidTransaction {
                reason: "Script validation failed for input: "@ + input.previous_output.text(),
            },
        ),
        ScriptOutcome::Error(text) => Err(BondErrorView::ScriptExecutionFailed { reason: text }),
    }
}

/// The checks of the scripts of the inputs from index `from` on.
pub open spec fn scripts_outcome_from(tx: TransactionView, utxos: Utxos, height: u32, from: int)
    -> Result<(), BondErrorView>
    decreases tx.inputs.len() - from,
{
    if from < 0 || from >= tx.inputs.len() {
        Ok(())
    } else {
        match script_outcome(tx, from, utxos, height) {
            Err(e) => Err(e),
            Ok(_) => scripts_outcome_from(tx, utxos, height, from + 1),
        }
    }
}

/// The rules that a transaction must meet against the unspent outputs at
/// the tip, where `first` says whether it is the first of its block: its
/// structural rules; the first of a block is a coinbase and no other is;
/// every input references an unspent output; the inputs are worth at least
/// the outputs; and, where scripts are verified, every script succeeds.
pub open spec fn transaction_outcome(
    config: MiningConfig,
    tx: TransactionView,
    first: bool,
    utxos: Utxos,
    height: u32,
) -> Result<(), BondErrorView> {
    match tx.structural_outcome() {
        Err(e) => Err(e),
        Ok(_) => {
            if first {
                if !tx.is_coinbase() {
                    Err(
                        BondErrorView::InvalidTransaction {
                            reason: "First transaction in block must be coinbase"@,
                        },
                    )
                } else {
                    Ok(())
                }
            } else if tx.is_coinbase() {
                Err(
                    BondErrorView::InvalidTransaction {
                        reason: "Coinbase transaction can only be first in block"@,
                    },
                )
            } else {
                match first_missing(tx.inputs, utxos) {
                    Some(id) => Err(missing_utxo(id)),
                    None => match tx.input_total(utxos) {
                        Err(e) => Err(e),
                        Ok(input_value) => match tx.output_total() {
                            Err(e) => Err(e),
                            Ok(output_value) => {
                                if input_value < output_value {
                                    Err(
                                        BondErrorView::InsufficientFunds {
                                            required: output_value,
                                            available: input_value,
                                        },
                                    )
                                } else if config.verify_scripts {
                                    scripts_outcome_from(tx, utxos, height, 0)
                                } else {
                                    Ok(())
                                }
                            },
                        },
                    },
                }
            }
        },
    }
}

/// The rules of the transactions of a block from index `from` on.
pub open spec fn transactions_outcome_from(
    config: MiningConfig,
    transactions: Seq<TransactionView>,
    utxos: Utxos,
    height: u32,
    from: int,
) -> Result<(), BondErrorView>
    decreases transactions.len() - from,
{
    if from < 0 || from >= transactions.len() {
        Ok(())
    } else {
        match transaction_outcome(config, transactions[from], from == 0, utxos, height) {
            Err(e) => Err(e),
            Ok(_) => transactions_outcome_from(config, transactions, utxos, height, from + 1),
        }
    }
}

/// The error for consuming an output that is not there.
pub open spec fn double_spending(id: UtxoIdView) -> BondErrorView {
    BondErrorView::DoubleSpending { utxo_id: id.text() }
}

/// The unspent outputs after the outputs that `inputs` reference have been
/// consumed in order; consuming one that is not there is an error.
pub open spec fn spent(utxos: Utxos, inputs: Seq<InputView>) -> Result<Utxos, BondErrorView>
    decreases inputs.len(),
{
    if inputs.len() == 0 {
        Ok(utxos)
    } else if !utxos.dom().contains(inputs[0].previous_output) {
        Err(double_spending(inputs[0].previous_output))
    } else {
        spent(utxos.remove(inputs[0].previous_output), inputs.skip(1))
    }
}

/// The unspent outputs after the first `count` of `outputs` have been
/// added, each under the hash of its transaction and its index.
pub open spec fn created(utxos: Utxos, tx_hash: Seq<u8>, outputs: Seq<OutputView>, count: int)
    -> Utxos
    decreases count,
{
    if count <= 0 {
        utxos
    } else {
        created(utxos, tx_hash, outputs, count - 1).insert(
            UtxoIdView { tx_hash, output_index: (count - 1) as u32 },
            outputs[count - 1],
        )
    }
}

/// The unspent outputs after a transaction: its inputs are consumed, unless
/// it is a coinbase, and then its outputs are added. More outputs than
/// 32-bit indices can name are an error.
pub open spec fn applied(utxos: Utxos, tx: TransactionView) -> Result<Utxos, BondErrorView> {
    if tx.outputs.len() > 0x1_0000_0000 {
        Err(BondErrorView::ArithmeticOverflow { operation: "output index"@ })
    } else {
        match if tx.is_coinbase() {
            Ok(utxos)
        } else {
            spent(utxos, tx.inputs)
        } {
            Err(e) => Err(e),
            Ok(remaining) => Ok(created(remaining, tx.hash(), tx.outputs, tx.outputs.len() as int)),
        }
    }
}

/// The unspent outputs after the first `count` of `transactions` have been
/// applied in order.
pub open spec fn applied_all(utxos: Utxos, transactions: Seq<TransactionView>, count: int)
    -> Result<Utxos, BondErrorView>
    decreases count,
{
    if count <= 0 {
        Ok(utxos)
    } else {
        match applied_all(utxos, transactions, count - 1) {
            Err(e) => Err(e),
            Ok(before) => applied(before, transactions[count - 1]),
        }
    }
}

/// The mathematical content of a chain state.
pub struct ChainView {
    /// The consensus parameters.
    pub config: MiningConfig,
    /// The blocks, the genesis block first.
    pub blocks: Seq<BlockView>,
    /// The unspent outputs.
    pub utxos: Utxos,
}

impl ChainView {
    /// The number of blocks, as a 32-bit height.
    pub open spec fn height(self) -> u32 {
        if self.blocks.len() > u32::MAX {
            u32::MAX
        } else {
            self.blocks.len() as u32
        }
    }
}

/// The state after `block` has been added to `state`, or the reason why it
/// cannot be: the block must meet the consensus rules as the successor of
/// the chain, it must hold a transaction, its transactions must meet their
/// rules against the unspent outputs at the tip, they must apply in order,
/// and the chain must be shorter than the largest 32-bit height.
pub open spec fn after_block(state: ChainView, block: BlockView) -> Result<ChainView, BondErrorView> {
    match block_outcome(state.config, block, state.blocks) {
        Err(e) => Err(e),
        Ok(_) => {
            if block.transactions.len() == 0 {
                Err(
                    BondErrorView::InvalidTransaction {
                        reason: "Block must contain a coinbase transaction"@,
                    },
                )
            } else {
                match transactions_outcome_from(
                    state.config,
                    block.transactions,
                    state.utxos,
                    state.height(),
                    0,
                ) {
                    Err(e) => Err(e),
                    Ok(_) => match applied_all(
                        state.utxos,
                        block.transactions,
                        block.transactions.len() as int,
                    ) {
                        Err(e) => Err(e),
                        Ok(utxos) => {
                            if state.blocks.len() >= u32::MAX {
                                Err(
                                    BondErrorView::ArithmeticOverflow {
                                        operation: "chain height"@,
                                    },
                                )
                            } else {
                                Ok(
                                    ChainView {
                                        config: state.config,
                                        blocks: state.blocks.push(block),
                                        utxos,
                                    },
                                )
                            }
                        },
                    },
                }
            }
        },
    }
}

/// The chain: its blocks in order and the outputs that they created and
/// have not consumed.
#[derive(Debug)]
pub struct ChainState {
    consensus: Consensus,
    blocks: Vec<Block>,
    utxo_set: UtxoSet,
    height: u32,
}

impl View for ChainState {
    type V = ChainView;

    closed spec fn view(&self) -> ChainView {
        ChainView {
            config: self.consensus@,
            blocks: block_views(self.blocks@),
            utxos: self.utxo_set@,
        }
    }
}

/// Applies `transaction` to `utxos`. After an error `utxos` holds an
/// intermediate state.
#[verifier::loop_isolation(false)]
fn apply_to(utxos: &mut UtxoSet, transaction: &Transaction) -> (r: BondResult<()>)
    ensures
        match r {
            Ok(_) => applied(old(utxos)@, transaction@) == Ok::<Utxos, BondErrorView>(
                final(utxos)@,
            ),
            Err(e) => applied(old(utxos)@, transaction@) == Err::<Utxos, BondErrorView>(e@),
        },
{
    if transaction.outputs.len() as u64 > 0x1_0000_0000 {
        return Err(BondError::overflow("output index"));
    }
    let tx_hash = match transaction.hash() {
        Ok(hash) => hash,
        Err(e) => {
            return Err(e);
        },
    };
    if !transaction.is_coinbase() {
        let ghost inputs = transaction@.inputs;
        let mut i: usize = 0;
        assert(inputs.skip(0) =~= inputs);
        while i < transaction.inputs.len()
            invariant
                i <= transaction.inputs@.len(),
                inputs == transaction@.inputs,
                spent(utxos@, inputs.skip(i as int)) == spent(old(utxos)@, inputs),
            decreases transaction.inputs@.len() - i,
        {
            proof {
                assert(inputs.skip(i as int).skip(1) =~= inputs.skip(i as int + 1));
                assert(inputs.skip(i as int)[0] == transaction.inputs@[i as int]@);
            }
            let id = &transaction.inputs[i].previous_output;
            if utxos.remove(id).is_none() {
                return Err(BondError::DoubleSpending { utxo_id: id.to_string() });
            }
            i += 1;
        }
    }
    let ghost remaining = utxos@;
    let mut k: usize = 0;
    while k < transaction.outputs.len()
        invariant
            k <= transaction.outputs@.len(),
            transaction.outputs@.len() <= 0x1_0000_0000,
            tx_hash@ == transaction@.hash(),
            utxos@ == created(remaining, tx_hash@, transaction@.outputs, k as int),
        decreases transaction.outputs@.len() - k,
    {
        let output = transaction.outputs[k].clone();
        assert(output@ == transaction@.outputs[k as int]);
        let _ = utxos.insert(UtxoId::new(tx_hash, k as u32), output);
        k += 1;
    }
    Ok(())
}

impl ChainState {
    #[verifier::type_invariant]
    spec fn counted(self) -> bool {
        self.height as int == self.blocks@.len()
    }

    /// The chain that holds only `genesis_block`, under the default rules.
    pub fn new_with_genesis(genesis_block: Block) -> (r: BondResult<Self>)
        ensures
            match r {
                Ok(chain) => after_block(
                    ChainView {
                        config: MiningConfig::standard(),
                        blocks: Seq::empty(),
                        utxos: Map::empty(),
                    },
                    genesis_block@,
                ) == Ok::<ChainView, BondErrorView>(chain@),
                Err(e) => after_block(
                    ChainView {
                        config: MiningConfig::standard(),
                        blocks: Seq::empty(),
                        utxos: Map::empty(),
                    },
                    genesis_block@,
                ) == Err::<ChainView, BondErrorView>(e@),
            },
    {
        Self::with_consensus(Consensus::new(), genesis_block)
    }

    /// The chain that holds only `genesis_block`, under the given rules.
    pub fn with_consensus(consensus: Consensus, genesis_block: Block) -> (r: BondResult<Self>)
        ensures
            match r {
                Ok(chain) => after_block(
                    ChainView { config: consensus@, blocks: Seq::empty(), utxos: Map::empty() },
                    genesis_block@,
                ) == Ok::<ChainView, BondErrorView>(chain@),
                Err(e) => after_block(
                    ChainView { config: consensus@, blocks: Seq::empty(), utxos: Map::empty() },
                    genesis_block@,
                ) == Err::<ChainView, BondErrorView>(e@),
            },
    {
        let mut chain_state = ChainState {
            consensus,
            blocks: Vec::new(),
            utxo_set: UtxoSet::new(),
            height: 0,
        };
        assert(chain_state@.blocks =~= Seq::<BlockView>::empty());
        match chain_state.add_block(genesis_block) {
            Ok(_) => Ok(chain_state),
            Err(e) => Err(e),
        }
    }

    /// Adds `block` at the tip. Either every rule is met and the block is
    /// appended with all its effects on the unspent outputs, or an error is
    /// returned and nothing has changed.
    pub fn add_block(&mut self, block: Block) -> (r: BondResult<()>)
        ensures
            match r {
                Ok(_) => after_block(old(self)@, block@) == Ok::<ChainView, BondErrorView>(
                    final(self)@,
                ),
                Err(e) => {
                    &&& after_block(old(self)@, block@) == Err::<ChainView, BondErrorView>(e@)
                    &&& final(self)@ == old(self)@
                },
            },
    {
        proof {
            use_type_invariant(&*self);
        }
        match self.consensus.validate_block(&block, self.blocks.as_slice()) {
            Ok(_) => {},
            Err(e) => {
                return Err(e);
            },
        }
        if block.transactions.len() == 0 {
            return Err(BondError::invalid_transaction("Block must contain a coinbase transaction"));
        }
        match self.validate_transactions(&block) {
            Ok(_) => {},
            Err(e) => {
                return Err(e);
            },
        }
        let working = match self.apply_block(&block) {
            Ok(working) => working,
            Err(e) => {
                return Err(e);
            },
        };
        if self.height == u32::MAX {
            return Err(BondError::overflow("chain height"));
        }
        let mut taken = ChainState {
            consensus: Consensus::with_config(*self.consensus.config()),
            blocks: Vec::new(),
            utxo_set: UtxoSet::new(),
            height: 0,
        };
        core::mem::swap(self, &mut taken);
        let mut blocks = taken.blocks;
        let ghost before = blocks@;
        blocks.push(block);
        assert(block_views(blocks@) =~= block_views(before).push(block@));
        *self = ChainState {
            consensus: taken.consensus,
            blocks,
            utxo_set: working,
            height: taken.height + 1,
        };
        Ok(())
    }

    /// Adds `block` at the tip at the clock reading `now`: the block's
    /// timestamp must meet the timestamp rule, and then the block is added
    /// as by [`ChainState::add_block`]. After an error nothing has changed.
    pub fn add_block_at(&mut self, block: Block, now: Timestamp) -> (r: BondResult<()>)
        ensures
            match r {
                Ok(_) => {
                    &&& timestamp_outcome(block@, old(self)@.blocks, now) is Ok
                    &&& after_block(old(self)@, block@) == Ok::<ChainView, BondErrorView>(
                        final(self)@,
                    )
                },
                Err(e) => {
                    &&& final(self)@ == old(self)@
                    &&& match timestamp_outcome(block@, old(self)@.blocks, now) {
                        Err(stamp) => e@ == stamp,
                        Ok(_) => after_block(old(self)@, block@) == Err::<
                            ChainView,
                            BondErrorView,
                        >(e@),
                    }
                },
            },
    {
        match self.consensus.validate_timestamp(&block, self.blocks.as_slice(), now) {
            Ok(_) => self.add_block(block),
            Err(e) => Err(e),
        }
    }

    /// Checks each transaction of `block` against the unspent outputs at
    /// the tip.
    #[verifier::loop_isolation(false)]
    pub fn validate_transactions(&self, block: &Block) -> (r: BondResult<()>)
        ensures
            unit_outcome(
                r,
                transactions_outcome_from(
                    self@.config,
                    block@.transactions,
                    self@.utxos,
                    self@.height(),
                    0,
                ),
            ),
    {
        let ghost views = block@.transactions;
        let mut i: usize = 0;
        while i < block.transactions.len()
            invariant
                i <= block.transactions@.len(),
                transactions_outcome_from(
                    self@.config,
                    views,
                    self@.utxos,
                    self@.height(),
                    i as int,
                ) == transactions_outcome_from(
                    self@.config,
                    views,
                    self@.utxos,
                    self@.height(),
                    0,
                ),
            decreases block.transactions@.len() - i,
        {
            assert(views[i as int] == block.transactions@[i as int]@);
            match self.validate_transaction(&block.transactions[i], i == 0) {
                Ok(_) => {},
                Err(e) => {
                    return Err(e);
                },
            }
            i += 1;
        }
        Ok(())
    }

    /// The unspent outputs after the transactions of `block` have been
    /// applied in order to those at the tip. The chain is not changed.
    #[verifier::loop_isolation(false)]
    pub fn apply_block(&self, block: &Block) -> (r: BondResult<UtxoSet>)
        ensures
            match r {
                Ok(utxos) => applied_all(
                    self@.utxos,
                    block@.transactions,
                    block@.transactions.len() as int,
                ) == Ok::<Utxos, BondErrorView>(utxos@),
                Err(e) => applied_all(
                    self@.utxos,
                    block@.transactions,
                    block@.transactions.len() as int,
                ) == Err::<Utxos, BondErrorView>(e@),
            },
    {
        let ghost views = block@.transactions;
        let mut working = self.utxo_set.clone();
        let mut k: usize = 0;
        while k < block.transactions.len()
            invariant
                k <= block.transactions@.len(),
                applied_all(self@.utxos, views, k as int) == Ok::<Utxos, BondErrorView>(working@),
            decreases block.transactions@.len() - k,
        {
            assert(views[k as int] == block.transactions@[k as int]@);
            match apply_to(&mut working, &block.transactions[k]) {
                Ok(_) => {},
                Err(e) => {
                    proof {
                        lemma_applied_all_fails(
                            self@.utxos,
                            views,
                            k as int + 1,
                            views.len() as int,
                        );
                    }
                    return Err(e);
                },
            }
            k += 1;
        }
        Ok(working)
    }

    /// Checks `transaction` against the unspent outputs at the tip;
    /// `is_coinbase` says whether it is the first of its block.
    #[verifier::loop_isolation(false)]
    pub fn validate_transaction(&self, transaction: &Transaction, is_coinbase: bool) -> (r:
        BondResult<()>)
        ensures
            unit_outcome(
                r,
                transaction_outcome(
                    self@.config,
                    transaction@,
                    is_coinbase,
                    self@.utxos,
                    self@.height(),
                ),
            ),
    {
        proof {
            use_type_invariant(self);
        }
        match transaction.validate() {
            Ok(_) => {},
            Err(e) => {
                return Err(e);
            },
        }
        if is_coinbase {
            if !transaction.is_coinbase() {
                return Err(
                    BondError::invalid_transaction("First transaction in block must be coinbase"),
                );
            }
            return Ok(());
        }
        if transaction.is_coinbase() {
            return Err(
                BondError::invalid_transaction("Coinbase transaction can only be first in block"),
            );
        }
        let ghost inputs = transaction@.inputs;
        let mut i: usize = 0;
        assert(inputs.skip(0) =~= inputs);
        while i < transaction.inputs.len()
            invariant
                i <= transaction.inputs@.len(),
                inputs == transaction@.inputs,
                first_missing(inputs.skip(i as int), self@.utxos) == first_missing(
                    inputs,
                    self@.utxos,
                ),
            decreases transaction.inputs@.len() - i,
        {
            proof {
                assert(inputs.skip(i as int).skip(1) =~= inputs.skip(i as int + 1));
                assert(inputs.skip(i as int)[0] == transaction.inputs@[i as int]@);
            }
            let id = &transaction.inputs[i].previous_output;
            if !self.utxo_set.contains_key(id) {
                return Err(missing_utxo_error(id));
            }
            i += 1;
        }
        let input_value = match transaction.total_input_value(&self.utxo_set) {
            Ok(value) => value,
            Err(e) => {
                return Err(e);
            },
        };
        let output_value = match transaction.total_output_value() {
            Ok(value) => value,
            Err(e) => {
                return Err(e);
            },
        };
        if input_value < output_value {
            return Err(
                BondError::InsufficientFunds { required: output_value, available: input_value },
            );
        }
        if self.consensus.config().verify_scripts {
            return self.verify_scripts(transaction);
        }
        Ok(())
    }

    /// Runs the script that authorizes each input of `transaction`, whose
    /// inputs all reference unspent outputs.
    #[verifier::loop_isolation(false)]
    fn verify_scripts(&self, transaction: &Transaction) -> (r: BondResult<()>)
        requires
            first_missing(transaction@.inputs, self@.utxos) is None,
        ensures
            unit_outcome(
                r,
                scripts_outcome_from(transaction@, self@.utxos, self@.height(), 0),
            ),
    {
        proof {
            use_type_invariant(self);
        }
        let interpreter = ScriptInterpreter::new();
        let seconds: u64 = if transaction.timestamp.secs < 0 {
            0
        } else {
            transaction.timestamp.secs as u64
        };
        let mut i: usize = 0;
        while i < transaction.inputs.len()
            invariant
                i <= transaction.inputs@.len(),
                self.height as int == self.blocks@.len(),
                interpreter@ == (Limits { max_ops: 1000, max_stack: 100 }),
                seconds == script_time(transaction.timestamp),
                scripts_outcome_from(transaction@, self@.utxos, self.height, i as int)
                    == scripts_outcome_from(transaction@, self@.utxos, self.height, 0),
            decreases transaction.inputs@.len() - i,
        {
            let input = &transaction.inputs[i];
            assert(transaction@.inputs[i as int] == input@);
            proof {
                lemma_none_missing(transaction@.inputs, self@.utxos, i as int);
            }
            let spent_output = match self.utxo_set.get(&input.previous_output) {
                Some(output) => output,
                None => {
                    return Err(missing_utxo_error(&input.previous_output));
                },
            };
            let mut script: Vec<u8> = Vec::new();
            push_bytes(&mut script, input.script_sig.data());
            push_bytes(&mut script, spent_output.script_pubkey.data());
            assert(script@ =~= input@.script_sig + spent_output@.script_pubkey);
            let message = match transaction.signature_hash(input) {
                Ok(message) => message,
                Err(e) => {
                    return Err(e);
                },
            };
            let index: u32 = if i > u32::MAX as usize {
                u32::MAX
            } else {
                i as u32
            };
            let context = ScriptContext::new(self.height, seconds, message, index);
            match interpreter.execute(script.as_slice(), &context) {
                Ok(ScriptResult::Success) => {},
                Ok(ScriptResult::Failure) => {
                    return Err(
                        BondError::InvalidTransaction {
                            reason: joined(
                                "Script validation failed for input: ",
                                input.previous_output.to_string().as_str(),
                            ),
                        },
                    );
                },
                Ok(ScriptResult::Error(text)) => {
                    return Err(BondError::ScriptExecutionFailed { reason: text });
                },
                Err(e) => {
                    return Err(e);
                },
            }
            i += 1;
        }
        Ok(())
    }

    /// Applies `transaction` to the unspent outputs: either its inputs are
    /// consumed and its outputs added, or an error is returned and nothing
    /// has changed.
    pub fn apply_transaction(&mut self, transaction: &Transaction) -> (r: BondResult<()>)
        ensures
            final(self)@.config == old(self)@.config,
            final(self)@.blocks == old(self)@.blocks,
            match r {
                Ok(_) => applied(old(self)@.utxos, transaction@) == Ok::<Utxos, BondErrorView>(
                    final(self)@.utxos,
                ),
                Err(e) => {
                    &&& applied(old(self)@.utxos, transaction@) == Err::<Utxos, BondErrorView>(e@)
                    &&& final(self)@ == old(self)@
                },
            },
    {
        proof {
            use_type_invariant(&*self);
        }
        let mut working = self.utxo_set.clone();
        match apply_to(&mut working, transaction) {
            Ok(_) => {},
            Err(e) => {
                return Err(e);
            },
        }
        let mut taken = ChainState {
            consensus: Consensus::with_config(*self.consensus.config()),
            blocks: Vec::new(),
            utxo_set: UtxoSet::new(),
            height: 0,
        };
        core::mem::swap(self, &mut taken);
        *self = ChainState {
            consensus: taken.consensus,
            blocks: taken.blocks,
            utxo_set: working,
            height: taken.height,
        };
        Ok(())
    }

    /// The number of blocks.
    pub fn height(&self) -> (r: u32)
        ensures
            r == self@.blocks.len(),
    {
        proof {
            use_type_invariant(self);
        }
        self.height
    }

    /// The block at the tip.
    pub fn latest_block(&self) -> (r: Option<&Block>)
        ensures
            match r {
                Some(block) => self@.blocks.len() > 0 && block@ == self@.blocks.last(),
                None => self@.blocks.len() == 0,
            },
    {
        let count = self.blocks.len();
        if count == 0 {
            None
        } else {
            Some(&self.blocks[count - 1])
        }
    }

    /// The block at `height`, counted from zero.
    pub fn get_block(&self, height: u32) -> (r: Option<&Block>)
        ensures
            match r {
                Some(block) => height < self@.blocks.len() && block@ == self@.blocks[height as int],
                None => height >= self@.blocks.len(),
            },
    {
        if (height as u64) < self.blocks.len() as u64 {
            Some(&self.blocks[height as usize])
        } else {
            None
        }
    }

    /// The unspent outputs.
    pub fn utxo_set(&self) -> (r: &UtxoSet)
        ensures
            r@ == self@.utxos,
    {
        &self.utxo_set
    }

    /// Whether `utxo_id` names an unspent output.
    pub fn has_utxo(&self, utxo_id: &UtxoId) -> (r: bool)
        ensures
            r == self@.utxos.dom().contains(utxo_id@),
    {
        self.utxo_set.contains_key(utxo_id)
    }

    /// The unspent output that `utxo_id` names.
    pub fn get_utxo(&self, utxo_id: &UtxoId) -> (r: Option<&TransactionOutput>)
        ensures
            match r {
                Some(output) => self@.utxos.dom().contains(utxo_id@) && output@
                    == self@.utxos[utxo_id@],
                None => !self@.utxos.dom().contains(utxo_id@),
            },
    {
        self.utxo_set.get(utxo_id)
    }

    /// The consensus rules.
    pub fn consensus(&self) -> (r: &Consensus)
        ensures
            r@ == self@.config,
    {
        &self.consensus
    }

    /// All blocks, the genesis block first.
    pub fn blocks(&self) -> (r: &[Block])
        ensures
            block_views(r@) == self@.blocks,
    {
        self.blocks.as_slice()
    }
}


/// Aggregate figures of a chain.
#[derive(Debug, Clone, Copy, PartialEq, Eq)]
pub struct ChainStats {
    /// Number of blocks.
    pub height: u32,
    /// Number of transactions in all blocks.
    pub total_transactions: u128,
    /// Number of unspent outputs.
    pub utxo_count: usize,
    /// Total value of the unspent outputs, in Elo.
    pub total_supply: u128,
    /// Whole seconds between two blocks, averaged over the last hundred
    /// blocks at most and rounded toward zero.
    pub average_block_time: i128,
}

/// The number of transactions in a list of blocks.
pub open spec fn transaction_count(blocks: Seq<BlockView>) -> nat
    decreases blocks.len(),
{
    if blocks.len() == 0 {
        0
    } else {
        transaction_count(blocks.drop_last()) + blocks.last().transactions.len()
    }
}

/// `a` over `b`, rounded toward zero.
pub open spec fn toward_zero(a: int, b: int) -> int {
    if a >= 0 {
        a / b
    } else {
        -((-a) / b)
    }
}

/// The number of blocks over which block times are averaged.
pub const SAMPLE_SIZE: usize = 100;

/// The average time between two blocks over the last hundred blocks at
/// most: the seconds from the first of them to the last, over the number of
/// intervals between them; zero for fewer than two blocks.
pub open spec fn average_block_time(blocks: Seq<BlockView>) -> int {
    if blocks.len() < 2 {
        0
    } else {
        let start = if blocks.len() > SAMPLE_SIZE {
            blocks.len() - SAMPLE_SIZE
        } else {
            0
        };
        toward_zero(
            blocks.last().header.timestamp.spec_seconds_since(blocks[start].header.timestamp),
            blocks.len() - start - 1,
        )
    }
}

/// The consensus rules for each block from index `from` on, as the
/// successor of the blocks before it.
pub open spec fn chain_outcome_from(config: MiningConfig, blocks: Seq<BlockView>, from: int)
    -> Result<(), BondErrorView>
    decreases blocks.len() - from,
{
    if from < 0 || from >= blocks.len() {
        Ok(())
    } else {
        match block_outcome(config, blocks[from], blocks.subrange(0, from)) {
            Err(e) => Err(e),
            Ok(_) => chain_outcome_from(config, blocks, from + 1),
        }
    }
}

impl ChainView {
    /// The aggregate figures.
    pub open spec fn stats(self) -> ChainStats {
        ChainStats {
            height: self.height(),
            total_transactions: transaction_count(self.blocks) as u128,
            utxo_count: self.utxos.dom().len() as usize,
            total_supply: map_total(self.utxos) as u128,
            average_block_time: average_block_time(self.blocks) as i128,
        }
    }
}

/// The timestamp of the genesis block: 2025-09-01T00:00:00Z.
pub const GENESIS_TIME: i64 = 1756684800;

/// The reward of the genesis block, in Elo.
pub const GENESIS_REWARD: u64 = 5000000000;

/// The genesis block: version 1, no predecessor, the largest target, nonce
/// zero, and a single coinbase that pays the genesis reward and carries the
/// genesis message; the header commits to that coinbase.
pub open spec fn genesis_view() -> BlockView {
    let stamp = Timestamp { secs: GENESIS_TIME, nanos: 0 };
    let coinbase = coinbase_view(
        GENESIS_REWARD,
        "Aevum & Bond Genesis - Building the Post-Quantum Financial Future".spec_bytes(),
        stamp,
    );
    BlockView {
        header: HeaderView {
            version: 1,
            previous_hash: filled(0),
            merkle_root: coinbase.hash(),
            timestamp: stamp,
            difficulty_target: filled(0xFF),
            nonce: 0,
        },
        transactions: seq![coinbase],
    }
}

/// The genesis block of the Bond chain.
pub fn create_genesis_block() -> (r: BondResult<Block>)
    ensures
        r is Ok,
        r.unwrap()@ == genesis_view(),
{
    let genesis_time = Timestamp::from_secs(GENESIS_TIME);
    let genesis_message =
        "Aevum & Bond Genesis - Building the Post-Quantum Financial Future".as_bytes_vec();
    let genesis_tx = Transaction::coinbase_at(GENESIS_REWARD, genesis_message, genesis_time);
    let mut transactions: Vec<Transaction> = Vec::new();
    transactions.push(genesis_tx);
    let mut block = Block::new(
        BlockHeader::new(
            1,
            BlockHash::zero(),
            MerkleRoot::zero(),
            genesis_time,
            DifficultyTarget::maximum(),
            0,
        ),
        transactions,
    );
    let merkle_root = match block.calculate_merkle_root() {
        Ok(root) => root,
        Err(e) => {
            return Err(e);
        },
    };
    block.header.merkle_root = merkle_root;
    proof {
        assert(block@.transactions =~= genesis_view().transactions);
    }
    Ok(block)
}

impl ChainState {
    /// The aggregate figures of the chain.
    pub fn stats(&self) -> (r: ChainStats)
        ensures
            r == self@.stats(),
    {
        proof {
            use_type_invariant(self);
        }
        let ghost views = self@.blocks;
        let mut total_transactions: u128 = 0;
        let mut i: usize = 0;
        assert(views.subrange(0, 0) =~= Seq::<BlockView>::empty());
        while i < self.blocks.len()
            invariant
                i <= self.blocks@.len(),
                views == block_views(self.blocks@),
                total_transactions == transaction_count(views.subrange(0, i as int)),
                total_transactions <= i * 0xFFFF_FFFF_FFFF_FFFF,
            decreases self.blocks@.len() - i,
        {
            proof {
                let next = views.subrange(0, i as int + 1);
                assert(next.drop_last() =~= views.subrange(0, i as int));
                assert(next.last() == self.blocks@[i as int]@);
                assert(i * 0xFFFF_FFFF_FFFF_FFFF + 0xFFFF_FFFF_FFFF_FFFF == (i + 1)
                    * 0xFFFF_FFFF_FFFF_FFFF) by (nonlinear_arith);
                assert(i * 0xFFFF_FFFF_FFFF_FFFF <= 0xFFFF_FFFF_FFFF_FFFF * 0xFFFF_FFFF_FFFF_FFFF)
                    by (nonlinear_arith)
                    requires
                        i <= 0xFFFF_FFFF_FFFF_FFFF,
                ;
            }
            total_transactions = total_transactions + self.blocks[i].transactions.len() as u128;
            i += 1;
        }
        assert(views.subrange(0, self.blocks@.len() as int) =~= views);
        let utxo_count = self.utxo_set.len();
        let total_supply = self.utxo_set.total_value();
        let average_block_time = self.calculate_average_block_time();
        ChainStats {
            height: self.height,
            total_transactions,
            utxo_count,
            total_supply,
            average_block_time,
        }
    }

    /// The average time between two blocks over the last hundred blocks at
    /// most, in whole seconds.
    pub fn calculate_average_block_time(&self) -> (r: i128)
        ensures
            r == average_block_time(self@.blocks),
    {
        let count = self.blocks.len();
        if count < 2 {
            return 0;
        }
        let start_index = if count > SAMPLE_SIZE {
            count - SAMPLE_SIZE
        } else {
            0
        };
        let first_time = self.blocks[start_index].header.timestamp;
        let last_time = self.blocks[count - 1].header.timestamp;
        assert(self@.blocks[start_index as int] == self.blocks@[start_index as int]@);
        assert(self@.blocks.last() == self.blocks@[count - 1]@);
        let total_time = last_time.seconds_since(&first_time);
        let intervals: u128 = (count - start_index - 1) as u128;
        if total_time >= 0 {
            ((total_time as u128) / intervals) as i128
        } else {
            -((((-total_time) as u128) / intervals) as i128)
        }
    }

    /// Checks every block of the chain as the successor of the blocks
    /// before it.
    #[verifier::loop_isolation(false)]
    pub fn validate_chain(&self) -> (r: BondResult<()>)
        ensures
            unit_outcome(r, chain_outcome_from(self@.config, self@.blocks, 0)),
    {
        let ghost views = self@.blocks;
        let mut i: usize = 0;
        while i < self.blocks.len()
            invariant
                i <= self.blocks@.len(),
                chain_outcome_from(self@.config, views, i as int) == chain_outcome_from(
                    self@.config,
                    views,
                    0,
                ),
            decreases self.blocks@.len() - i,
        {
            let previous_blocks = slice_subrange(self.blocks.as_slice(), 0, i);
            assert(block_views(previous_blocks@) =~= views.subrange(0, i as int));
            assert(views[i as int] == self.blocks@[i as int]@);
            match self.consensus.validate_block(&self.blocks[i], previous_blocks) {
                Ok(_) => {},
                Err(e) => {
                    return Err(e);
                },
            }
            i += 1;
        }
        Ok(())
    }

    /// The blocks at the heights from `start` up to but excluding `end`,
    /// as far as the chain has them.
    #[verifier::loop_isolation(false)]
    pub fn get_blocks_range(&self, start: u32, end: u32) -> (r: Vec<&Block>)
        ensures
            ({
                let count = self@.blocks.len() as int;
                let low = if start < count {
                    start as int
                } else {
                    count
                };
                let high = if end < count {
                    end as int
                } else {
                    count
                };
                &&& r@.len() == if low <= high {
                    high - low
                } else {
                    0
                }
                &&& forall|j: int| 0 <= j < r@.len() ==> (#[trigger] r@[j])@ == self@.blocks[low + j]
            }),
    {
        let count = self.blocks.len();
        let start_idx = if (start as u64) < count as u64 {
            start as usize
        } else {
            count
        };
        let end_idx = if (end as u64) < count as u64 {
            end as usize
        } else {
            count
        };
        let mut range: Vec<&Block> = Vec::new();
        if start_idx >= end_idx {
            return range;
        }
        let mut i: usize = start_idx;
        while i < end_idx
            invariant
                start_idx <= i <= end_idx,
                range@.len() == i - start_idx,
                forall|j: int|
                    0 <= j < range@.len() ==> (#[trigger] range@[j])@ == self@.blocks[start_idx
                        + j],
            decreases end_idx - i,
        {
            range.push(&self.blocks[i]);
            i += 1;
        }
        assert(self@.blocks.len() == count);
        range
    }

    /// The unspent outputs whose script is exactly `script_pattern`, each
    /// once, in no particular order.
    pub fn find_utxos_by_script(&self, script_pattern: &[u8]) -> (r: Vec<
        (UtxoId, &TransactionOutput),
    >)
        ensures
            forall|j: int|
                0 <= j < r@.len() ==> {
                    &&& matching(self@.utxos, script_pattern@, false).dom().contains(
                        (#[trigger] r@[j]).0@,
                    )
                    &&& r@[j].1@ == self@.utxos[r@[j].0@]
                },
            forall|i: int, j: int|
                0 <= i < j < r@.len() ==> (#[trigger] r@[i]).0@ != (#[trigger] r@[j]).0@,
            forall|key: UtxoIdView|
                matching(self@.utxos, script_pattern@, false).dom().contains(key) ==> exists|
                    j: int,
                | 0 <= j < r@.len() && (#[trigger] r@[j]).0@ == key,
    {
        self.utxo_set.find_by_script(script_pattern, false)
    }

    /// The unspent outputs whose script starts with `script_prefix`, each
    /// once, in no particular order.
    pub fn find_utxos_by_script_prefix(&self, script_prefix: &[u8]) -> (r: Vec<
        (UtxoId, &TransactionOutput),
    >)
        ensures
            forall|j: int|
                0 <= j < r@.len() ==> {
                    &&& matching(self@.utxos, script_prefix@, true).dom().contains(
                        (#[trigger] r@[j]).0@,
                    )
                    &&& r@[j].1@ == self@.utxos[r@[j].0@]
                },
            forall|i: int, j: int|
                0 <= i < j < r@.len() ==> (#[trigger] r@[i]).0@ != (#[trigger] r@[j]).0@,
            forall|key: UtxoIdView|
                matching(self@.utxos, script_prefix@, true).dom().contains(key) ==> exists|j: int|
                    0 <= j < r@.len() && (#[trigger] r@[j]).0@ == key,
    {
        self.utxo_set.find_by_script(script_prefix, true)
    }

    /// The total value of the unspent outputs whose script is exactly
    /// `script_pattern`.
    pub fn calculate_balance(&self, script_pattern: &[u8]) -> (r: u128)
        ensures
            r == map_total(matching(self@.utxos, script_pattern@, false)),
    {
        self.utxo_set.total_matching(script_pattern, false)
    }
}

/// Where no input is without an unspent output, each input has one.
pub proof fn lemma_none_missing(inputs: Seq<InputView>, utxos: Utxos, i: int)
    requires
        first_missing(inputs, utxos) is None,
        0 <= i < inputs.len(),
    ensures
        utxos.dom().contains(inputs[i].previous_output),
    decreases inputs.len(),
{
    if i > 0 {
        lemma_none_missing(inputs.skip(1), utxos, i - 1);
    }
}

/// Once the application of a prefix of the transactions fails, the
/// application of every longer prefix fails alike.
pub proof fn lemma_applied_all_fails(
    utxos: Utxos,
    transactions: Seq<TransactionView>,
    failed: int,
    count: int,
)
    requires
        0 < failed <= count,
        applied_all(utxos, transactions, failed) is Err,
    ensures
        applied_all(utxos, transactions, count) == applied_all(utxos, transactions, failed),
    decreases count - failed,
{
    if failed < count {
        lemma_applied_all_fails(utxos, transactions, failed, count - 1);
    }
}

/// Where the transactions of a block meet their rules from index `from`
/// on, each of them does.
pub proof fn lemma_each_transaction_valid(
    config: MiningConfig,
    transactions: Seq<TransactionView>,
    utxos: Utxos,
    height: u32,
    from: int,
    i: int,
)
    requires
        0 <= from <= i < transactions.len(),
        transactions_outcome_from(config, transactions, utxos, height, from) is Ok,
    ensures
        transaction_outcome(config, transactions[i], i == 0, utxos, height) is Ok,
    decreases i - from,
{
    if from < i {
        lemma_each_transaction_valid(config, transactions, utxos, height, from + 1, i);
    }
}

/// Every block that a chain accepts holds exactly one coinbase, and holds
/// it first: the first transaction has a single input, which carries the
/// coinbase reference, and no other transaction is a coinbase.
pub proof fn lemma_accepted_block_has_one_coinbase(state: ChainView, block: BlockView)
    requires
        after_block(state, block) is Ok,
    ensures
        block.transactions.len() >= 1,
        block.transactions[0].inputs.len() == 1,
        block.transactions[0].inputs[0].previous_output == UtxoIdView::coinbase(),
        forall|i: int| 1 <= i < block.transactions.len() ==> !block.transactions[i].is_coinbase(),
{
    lemma_each_transaction_valid(
        state.config,
        block.transactions,
        state.utxos,
        state.height(),
        0,
        0,
    );
    assert forall|i: int| 1 <= i < block.transactions.len() implies !block.transactions[i].is_coinbase() by {
        lemma_each_transaction_valid(
            state.config,
            block.transactions,
            state.utxos,
            state.height(),
            0,
            i,
        );
    }
}

/// In every block that a chain accepts, the inputs of each transaction
/// after the coinbase are worth at least its outputs, and the difference
/// is its fee.
pub proof fn lemma_accepted_block_conserves_value(state: ChainView, block: BlockView, i: int)
    requires
        after_block(state, block) is Ok,
        1 <= i < block.transactions.len(),
    ensures
        ({
            let tx = block.transactions[i];
            &&& tx.input_total(state.utxos) is Ok
            &&& tx.output_total() is Ok
            &&& tx.input_total(state.utxos)->Ok_0 >= tx.output_total()->Ok_0
            &&& tx.fee(state.utxos) == Ok::<u64, BondErrorView>(
                (tx.input_total(state.utxos)->Ok_0 - tx.output_total()->Ok_0) as u64,
            )
        }),
{
    lemma_each_transaction_valid(
        state.config,
        block.transactions,
        state.utxos,
        state.height(),
        0,
        i,
    );
}

/// Consuming outputs leaves none of them behind and adds none.
pub proof fn lemma_spent_removes(utxos: Utxos, inputs: Seq<InputView>)
    requires
        spent(utxos, inputs) is Ok,
    ensures
        forall|i: int|
            0 <= i < inputs.len() ==> !spent(utxos, inputs)->Ok_0.dom().contains(
                (#[trigger] inputs[i]).previous_output,
            ),
        forall|key: UtxoIdView|
            spent(utxos, inputs)->Ok_0.dom().contains(key) ==> utxos.dom().contains(key),
    decreases inputs.len(),
{
    if inputs.len() > 0 {
        let rest = inputs.skip(1);
        let remaining = utxos.remove(inputs[0].previous_output);
        lemma_spent_removes(remaining, rest);
        assert forall|i: int| 0 <= i < inputs.len() implies !spent(
            utxos,
            inputs,
        )->Ok_0.dom().contains((#[trigger] inputs[i]).previous_output) by {
            let result = spent(remaining, rest)->Ok_0;
            assert(spent(utxos, inputs) == spent(remaining, rest));
            if i > 0 {
                assert(rest[i - 1] == inputs[i]);
                assert(!result.dom().contains(rest[i - 1].previous_output));
            } else {
                assert(!remaining.dom().contains(inputs[0].previous_output));
                assert(!result.dom().contains(inputs[0].previous_output));
            }
        }
    }
}

/// The outputs that a transaction creates stand under its own hash.
pub proof fn lemma_created_keys(
    utxos: Utxos,
    tx_hash: Seq<u8>,
    outputs: Seq<OutputView>,
    count: int,
    key: UtxoIdView,
)
    requires
        created(utxos, tx_hash, outputs, count).dom().contains(key),
    ensures
        utxos.dom().contains(key) || key.tx_hash == tx_hash,
    decreases count,
{
    if count > 0 {
        if key != (UtxoIdView { tx_hash, output_index: (count - 1) as u32 }) {
            lemma_created_keys(utxos, tx_hash, outputs, count - 1, key);
        }
    }
}

/// Consuming outputs of which one is not there is double spending.
pub proof fn lemma_spent_fails(utxos: Utxos, inputs: Seq<InputView>, j: int)
    requires
        0 <= j < inputs.len(),
        !utxos.dom().contains(inputs[j].previous_output),
    ensures
        spent(utxos, inputs) matches Err(e) && e is DoubleSpending,
        first_missing(inputs, utxos) is Some,
    decreases inputs.len(),
{
    if utxos.dom().contains(inputs[0].previous_output) {
        let rest = inputs.skip(1);
        assert(rest[j - 1] == inputs[j]);
        lemma_spent_fails(utxos.remove(inputs[0].previous_output), rest, j - 1);
        lemma_first_missing_fails(utxos, rest, j - 1);
    }
}

/// Where an input has no unspent output, some input is the first without.
pub proof fn lemma_first_missing_fails(utxos: Utxos, inputs: Seq<InputView>, j: int)
    requires
        0 <= j < inputs.len(),
        !utxos.dom().contains(inputs[j].previous_output),
    ensures
        first_missing(inputs, utxos) is Some,
    decreases inputs.len(),
{
    if utxos.dom().contains(inputs[0].previous_output) {
        let rest = inputs.skip(1);
        assert(rest[j - 1] == inputs[j]);
        lemma_first_missing_fails(utxos, rest, j - 1);
    }
}

/// An output cannot be consumed twice. Once a transaction that consumes
/// `id` has been applied, a second transaction that consumes `id` is
/// rejected: applying it is double spending, and it fails validation
/// against the unspent outputs, in the same block or in a later one. (The
/// first transaction is taken not to recreate `id`, which would need `id`
/// to name one of its own outputs.)
pub proof fn lemma_double_spend_rejected(
    config: MiningConfig,
    utxos: Utxos,
    first: TransactionView,
    second: TransactionView,
    id: UtxoIdView,
    height: u32,
)
    requires
        !first.is_coinbase(),
        !second.is_coinbase(),
        exists|i: int| 0 <= i < first.inputs.len() && first.inputs[i].previous_output == id,
        exists|j: int| 0 <= j < second.inputs.len() && second.inputs[j].previous_output == id,
        applied(utxos, first) is Ok,
        id.tx_hash != first.hash(),
    ensures
        applied(applied(utxos, first)->Ok_0, second) matches Err(e) && (e is DoubleSpending
            || e is ArithmeticOverflow),
        second.outputs.len() <= 0x1_0000_0000 ==> (applied(
            applied(utxos, first)->Ok_0,
            second,
        ) matches Err(e) && e is DoubleSpending),
        transaction_outcome(config, second, false, applied(utxos, first)->Ok_0, height) is Err,
{
    let i = choose|i: int| 0 <= i < first.inputs.len() && first.inputs[i].previous_output == id;
    let j = choose|j: int| 0 <= j < second.inputs.len() && second.inputs[j].previous_output == id;
    let remaining = spent(utxos, first.inputs)->Ok_0;
    let after = applied(utxos, first)->Ok_0;
    lemma_spent_removes(utxos, first.inputs);
    assert(!remaining.dom().contains(first.inputs[i].previous_output));
    if after.dom().contains(id) {
        lemma_created_keys(remaining, first.hash(), first.outputs, first.outputs.len() as int, id);
    }
    lemma_spent_fails(after, second.inputs, j);
}

} // verus!
