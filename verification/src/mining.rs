//! Proof-of-work: the miner that searches the nonce space of a header, and
//! the consensus rules that validate a block against its predecessors and
//! retarget the difficulty.

use crate::block::{
    Block, BlockHash, BlockHeader, BlockView, DifficultyTarget, HeaderView, MerkleRoot,
    MAX_BLOCK_SIZE,
};
use crate::cancel::{is_raised, new_flag, set_raised, share};
use crate::difficulty::{scale_target, scaled, SCALE_LIMIT};
use crate::encoding::{be_bytes, be_nat, lemma_be_bytes_of_nat, pow256};
use crate::error::{unit_outcome, BondError, BondErrorView, BondResult};
use crate::text::{decimal, hex_string, push_decimal};
use crate::timestamp::Timestamp;
use std::sync::atomic::AtomicBool;
use std::sync::Arc;
use std::time::{Duration, Instant};
use vstd::prelude::*;
use vstd::string::StringExecFns;

verus! {

/// A point on the monotonic clock of the standard library.
#[verifier::external_type_specification]
#[verifier::external_body]
pub struct ExInstant(Instant);

/// `Instant::now`: the current reading of the monotonic clock.
#[verifier::external_body]
fn instant_now() -> Instant {
    Instant::now()
}

/// `Instant::elapsed`: the time since `start`, whatever it is.
#[verifier::external_body]
fn instant_elapsed(start: &Instant) -> Duration {
    start.elapsed()
}

/// `Duration::as_millis`: the whole milliseconds of a duration.
#[verifier::external_body]
fn duration_millis(duration: &Duration) -> u128 {
    duration.as_millis()
}

/// The whole milliseconds since `start`, whatever they are.
fn elapsed_millis(start: &Instant) -> u128 {
    let elapsed = instant_elapsed(start);
    duration_millis(&elapsed)
}

/// The parameters of mining and of consensus.
#[derive(Debug, Clone, Copy, PartialEq, Eq)]
pub struct MiningConfig {
    /// Seconds that a block should take.
    pub target_block_time: u64,
    /// Number of blocks between two retargets.
    pub difficulty_adjustment_period: u32,
    /// The largest factor by which a retarget scales the target, in
    /// thousandths.
    pub max_adjustment_permille: u32,
    /// The smallest factor by which a retarget scales the target, in
    /// thousandths.
    pub min_adjustment_permille: u32,
    /// Whether a block whose target is not the expected one is rejected.
    pub strict_difficulty: bool,
    /// Whether the authorization script of each input is executed when a
    /// block is added to a chain.
    pub verify_scripts: bool,
}

impl MiningConfig {
    /// The seconds that a retarget window should take.
    pub open spec fn target_timespan(self) -> nat {
        self.target_block_time as nat * self.difficulty_adjustment_period as nat
    }

    /// The fraction by which a target is scaled after a window that took
    /// `actual` seconds: `actual` over the target timespan, held between
    /// the smallest and the largest factor.
    pub open spec fn adjustment(self, actual: int) -> (nat, nat) {
        if actual * 1000 <= self.min_adjustment_permille * self.target_timespan() {
            (self.min_adjustment_permille as nat, 1000)
        } else if actual * 1000 >= self.max_adjustment_permille * self.target_timespan() {
            (self.max_adjustment_permille as nat, 1000)
        } else {
            (actual as nat, self.target_timespan())
        }
    }

    /// The target that follows `current` after the blocks `blocks`: on a
    /// retarget boundary, `current` scaled by the adjustment for the time
    /// that the last window took; else `current`.
    pub open spec fn next_target(self, blocks: Seq<BlockView>, current: nat) -> nat {
        let period = self.difficulty_adjustment_period as int;
        let count = blocks.len() as int;
        if period == 0 || count < period || count % period != 0 {
            current
        } else {
            let first = blocks[count - period].header.timestamp;
            let last = blocks[count - 1].header.timestamp;
            let ratio = self.adjustment(last.spec_seconds_since(first));
            scaled(current, ratio.0, ratio.1)
        }
    }

    /// The default parameters.
    pub open spec fn standard() -> MiningConfig {
        MiningConfig {
            target_block_time: 600,
            difficulty_adjustment_period: 2016,
            max_adjustment_permille: 4000,
            min_adjustment_permille: 250,
            strict_difficulty: false,
            verify_scripts: false,
        }
    }
}

impl Default for MiningConfig {
    /// Ten-minute blocks, a retarget every 2016 blocks by a factor between
    /// a quarter and four, lenient validation.
    fn default() -> (r: Self)
        ensures
            r == MiningConfig::standard(),
    {
        MiningConfig {
            target_block_time: 600,
            difficulty_adjustment_period: 2016,
            max_adjustment_permille: 4000,
            min_adjustment_permille: 250,
            strict_difficulty: false,
            verify_scripts: false,
        }
    }
}

/// A retarget changes a target by no more than the configured factors: the
/// new target is at most the old one times the largest factor and, up to
/// the rounding of the division, at least the old one times the smallest.
pub proof fn lemma_retarget_within_clamp(config: MiningConfig, current: nat, actual: int)
    requires
        current < pow256(32),
        config.min_adjustment_permille <= config.max_adjustment_permille,
        config.min_adjustment_permille <= 1000,
    ensures
        ({
            let ratio = config.adjustment(actual);
            let next = scaled(current, ratio.0, ratio.1);
            &&& ratio.1 > 0
            &&& 1000 * next <= config.max_adjustment_permille * current
            &&& 1000 * (next + 1) > config.min_adjustment_permille * current
        }),
{
    let ratio = config.adjustment(actual);
    let num = ratio.0;
    let den = ratio.1;
    let low = config.min_adjustment_permille as nat;
    let high = config.max_adjustment_permille as nat;
    let span = config.target_timespan();
    assert(den > 0 && num * 1000 <= high * den && num * 1000 >= low * den) by {
        if actual * 1000 <= low * span {
        } else if actual * 1000 >= high * span {
        } else {
            assert(span > 0) by (nonlinear_arith)
                requires
                    actual * 1000 < high * span,
                    actual * 1000 > low * span,
                    span >= 0,
                    low >= 0,
            ;
        }
    }
    let product = current * num;
    let quotient = product / den;
    let next = scaled(current, num, den);
    assert(quotient * den <= product && product < (quotient + 1) * den) by (nonlinear_arith)
        requires
            quotient == product / den,
            den > 0,
            product >= 0,
    ;
    assert(next <= quotient);
    assert(1000 * quotient <= high * current) by (nonlinear_arith)
        requires
            quotient * den <= current * num,
            num * 1000 <= high * den,
            den > 0,
    ;
    assert(1000 * next <= high * current) by (nonlinear_arith)
        requires
            1000 * quotient <= high * current,
            next <= quotient,
    ;
    if quotient >= pow256(32) {
        assert(1000 * (next + 1) > low * current) by (nonlinear_arith)
            requires
                next + 1 == pow256(32),
                current < pow256(32),
                low <= 1000,
        ;
    } else {
        assert(1000 * (quotient + 1) > low * current) by (nonlinear_arith)
            requires
                current * num < (quotient + 1) * den,
                num * 1000 >= low * den,
                den > 0,
        ;
    }
}

/// With the default parameters a retarget moves a target by a factor
/// between a quarter and four: the new target is at most four times the
/// old one, and four times its successor exceeds the old one.
pub proof fn lemma_default_retarget_clamp(current: nat, actual: int)
    requires
        current < pow256(32),
    ensures
        ({
            let ratio = MiningConfig::standard().adjustment(actual);
            let next = scaled(current, ratio.0, ratio.1);
            next <= 4 * current && 4 * (next + 1) > current
        }),
{
    lemma_retarget_within_clamp(MiningConfig::standard(), current, actual);
}

/// What a miner has done so far.
#[derive(Debug, Clone, Copy)]
pub struct MiningStats {
    /// Number of hashes computed.
    pub hashes_attempted: u64,
    /// When mining started.
    pub start_time: Instant,
    /// Hashes per second, as last sampled.
    pub hash_rate: u64,
}

/// Hashes per second for `hashes` hashes in `millis` milliseconds, capped
/// at the largest 64-bit number; zero where no time has passed.
pub open spec fn rate_per_second(hashes: u64, millis: u128) -> u64 {
    if millis == 0 {
        0
    } else if hashes as nat * 1000 / millis as nat > u64::MAX {
        u64::MAX
    } else {
        (hashes as nat * 1000 / millis as nat) as u64
    }
}

/// Hashes per second for `hashes` hashes in `millis` milliseconds.
pub fn hash_rate_of(hashes: u64, millis: u128) -> (r: u64)
    ensures
        r == rate_per_second(hashes, millis),
{
    if millis == 0 {
        return 0;
    }
    let rate: u128 = hashes as u128 * 1000 / millis;
    if rate > u64::MAX as u128 {
        u64::MAX
    } else {
        rate as u64
    }
}

impl MiningStats {
    /// Hashes per second since mining started, by the clock at this moment.
    pub fn current_hash_rate(&self) -> (r: u64)
        ensures
            exists|millis: u128| r == rate_per_second(self.hashes_attempted, millis),
    {
        let millis = elapsed_millis(&self.start_time);
        hash_rate_of(self.hashes_attempted, millis)
    }

    /// The time since mining started, by the clock at this moment.
    pub fn elapsed_time(&self) -> Duration {
        instant_elapsed(&self.start_time)
    }
}

/// What a miner decides before one more hash.
#[derive(Debug, Clone, Copy, PartialEq, Eq, Structural)]
pub enum MiningStep {
    /// The stop flag is raised: give up.
    Cancelled,
    /// The header with this nonce meets its target.
    Found,
    /// It does not: go on with the next nonce.
    Continue,
    /// It does not, and this was the last nonce.
    Exhausted,
}

/// The decision for the header `template` with the nonce `nonce`, where
/// `stop_requested` says whether the stop flag is raised.
pub open spec fn mining_decision(template: HeaderView, nonce: u64, stop_requested: bool)
    -> MiningStep {
    if stop_requested {
        MiningStep::Cancelled
    } else if template.with_nonce(nonce).pow_holds() {
        MiningStep::Found
    } else if nonce == u64::MAX {
        MiningStep::Exhausted
    } else {
        MiningStep::Continue
    }
}

/// The error of a miner that was stopped.
pub open spec fn mining_stopped(template: HeaderView) -> BondErrorView {
    BondErrorView::InvalidProofOfWork {
        hash: "Mining stopped"@,
        target: hex_string(template.difficulty_target),
    }
}

/// The error of a miner that tried every nonce.
pub open spec fn nonces_exhausted(template: HeaderView) -> BondErrorView {
    BondErrorView::InvalidProofOfWork {
        hash: "Nonce space exhausted"@,
        target: hex_string(template.difficulty_target),
    }
}

/// The decision for `header` with the nonce `nonce`.
pub fn mining_step(header: &BlockHeader, nonce: u64, stop_requested: bool) -> (r: MiningStep)
    ensures
        r == mining_decision(header@, nonce, stop_requested),
{
    if stop_requested {
        return MiningStep::Cancelled;
    }
    let mut candidate = *header;
    candidate.nonce = nonce;
    assert(candidate@ == header@.with_nonce(nonce));
    let meets = match candidate.validates_pow() {
        Ok(meets) => meets,
        Err(_) => false,
    };
    if meets {
        MiningStep::Found
    } else if nonce == u64::MAX {
        MiningStep::Exhausted
    } else {
        MiningStep::Continue
    }
}

/// A proof-of-work miner.
pub struct Miner {
    config: MiningConfig,
    should_stop: Arc<AtomicBool>,
    stats: MiningStats,
}

impl Miner {
    /// A miner with the default parameters, which has not mined yet.
    pub fn new() -> (r: Self)
        ensures
            r.config() == MiningConfig::standard(),
            r.stats_view().hashes_attempted == 0,
            r.stats_view().hash_rate == 0,
    {
        Self::with_config(MiningConfig::default())
    }

    /// A miner with the given parameters.
    pub fn with_config(config: MiningConfig) -> (r: Self)
        ensures
            r.config() == config,
            r.stats_view().hashes_attempted == 0,
            r.stats_view().hash_rate == 0,
    {
        Miner {
            config,
            should_stop: new_flag(),
            stats: MiningStats { hashes_attempted: 0, start_time: instant_now(), hash_rate: 0 },
        }
    }

    /// The parameters.
    pub closed spec fn config(&self) -> MiningConfig {
        self.config
    }

    /// The statistics.
    pub closed spec fn stats_view(&self) -> MiningStats {
        self.stats
    }

    /// The flag that stops this miner.
    pub closed spec fn stop_flag(&self) -> Arc<AtomicBool> {
        self.should_stop
    }

    /// A handle to the flag that stops this miner: raising it through the
    /// handle raises the miner's own flag.
    pub fn stop_handle(&self) -> (r: Arc<AtomicBool>)
        ensures
            r == self.stop_flag(),
    {
        share(&self.should_stop)
    }

    /// Searches the nonces from zero upward for the first with which
    /// `header` meets its target. The stop flag is lowered at the start and
    /// read before every hash.
    pub fn mine_block(&mut self, header: BlockHeader) -> (r: BondResult<BlockHeader>)
        ensures
            final(self).config() == old(self).config(),
            final(self).stop_flag() == old(self).stop_flag(),
            match r {
                Ok(mined) => {
                    &&& mined@ == header@.with_nonce(mined.nonce)
                    &&& mined@.pow_holds()
                    &&& forall|n: u64| n < mined.nonce ==> !header@.with_nonce(n).pow_holds()
                    &&& final(self).stats_view().hashes_attempted as int == if mined.nonce
                        == u64::MAX {
                        u64::MAX as int
                    } else {
                        mined.nonce + 1
                    }
                },
                Err(e) => {
                    let tried = final(self).stats_view().hashes_attempted;
                    &&& forall|n: u64| n < tried ==> !header@.with_nonce(n).pow_holds()
                    &&& e@ == mining_stopped(header@) || (e@ == nonces_exhausted(header@)
                        && tried == u64::MAX && !header@.with_nonce(u64::MAX).pow_holds())
                },
            },
    {
        set_raised(&self.should_stop, false);
        self.stats = MiningStats { hashes_attempted: 0, start_time: instant_now(), hash_rate: 0 };
        let mut nonce: u64 = 0;
        loop
            invariant
                self.config() == old(self).config(),
                self.stop_flag() == old(self).stop_flag(),
                self.stats_view().hashes_attempted == nonce,
                forall|n: u64| n < nonce ==> !header@.with_nonce(n).pow_holds(),
            decreases u64::MAX - nonce,
        {
            let stop_requested = is_raised(&self.should_stop);
            match mining_step(&header, nonce, stop_requested) {
                MiningStep::Cancelled => {
                    return Err(
                        BondError::InvalidProofOfWork {
                            hash: String::from_str("Mining stopped"),
                            target: header.difficulty_target.to_string(),
                        },
                    );
                },
                MiningStep::Found => {
                    if nonce < u64::MAX {
                        self.stats.hashes_attempted = nonce + 1;
                    }
                    let mut mined = header;
                    mined.nonce = nonce;
                    return Ok(mined);
                },
                MiningStep::Exhausted => {
                    return Err(
                        BondError::InvalidProofOfWork {
                            hash: String::from_str("Nonce space exhausted"),
                            target: header.difficulty_target.to_string(),
                        },
                    );
                },
                MiningStep::Continue => {
                    nonce = nonce + 1;
                    self.stats.hashes_attempted = nonce;
                    if nonce % 1000 == 0 {
                        let millis = elapsed_millis(&self.stats.start_time);
                        if millis > 0 {
                            self.stats.hash_rate = hash_rate_of(nonce, millis);
                        }
                    }
                },
            }
        }
    }

    /// The statistics of the last or the running search.
    pub fn stats(&self) -> (r: &MiningStats)
        ensures
            *r == self.stats_view(),
    {
        &self.stats
    }

    /// Raises the stop flag.
    pub fn stop(&self) {
        set_raised(&self.should_stop, true);
    }
}

impl Default for Miner {
    fn default() -> (r: Self)
        ensures
            r.config() == MiningConfig::standard(),
    {
        Miner::new()
    }
}

/// A header ready for mining: the given fields, the current time, nonce
/// zero.
pub fn create_mining_header(
    version: u32,
    previous_hash: BlockHash,
    merkle_root: MerkleRoot,
    difficulty_target: DifficultyTarget,
) -> (r: BlockHeader)
    ensures
        r == (BlockHeader {
            version,
            previous_hash,
            merkle_root,
            timestamp: r.timestamp,
            difficulty_target,
            nonce: 0,
        }),
{
    BlockHeader::new(version, previous_hash, merkle_root, Timestamp::now(), difficulty_target, 0)
}

/// The views of a list of blocks.
pub open spec fn block_views(blocks: Seq<Block>) -> Seq<BlockView> {
    blocks.map_values(|block: Block| block@)
}

/// The number of predecessors whose timestamps decide whether a block's
/// timestamp is late enough.
pub const MEDIAN_WINDOW: usize = 11;

/// The seconds by which a block's timestamp may be ahead of the clock.
pub const MAX_FUTURE_SKEW: i64 = 7200;

/// How many of the blocks from index `from` on are stamped strictly before
/// `t`.
pub open spec fn earlier_count(blocks: Seq<BlockView>, from: int, t: Timestamp) -> nat
    decreases blocks.len() - from,
{
    if from < 0 || from >= blocks.len() {
        0
    } else {
        earlier_count(blocks, from + 1, t) + if blocks[from].header.timestamp.total_nanos()
            < t.total_nanos() {
            1nat
        } else {
            0nat
        }
    }
}

/// The timestamp rule. A block's timestamp is at most two hours ahead of
/// `now`; and where the block has predecessors, it is strictly later than
/// the median of the timestamps of the last eleven of them (of all, where
/// they are fewer), which is to say that more than half of these, rounded
/// down, are strictly earlier.
pub open spec fn timestamp_outcome(block: BlockView, previous: Seq<BlockView>, now: Timestamp)
    -> Result<(), BondErrorView> {
    let window = if previous.len() < MEDIAN_WINDOW {
        previous.len() as int
    } else {
        MEDIAN_WINDOW as int
    };
    if block.header.timestamp.total_nanos() > now.total_nanos() + MAX_FUTURE_SKEW
        * 1_000_000_000 {
        Err(
            BondErrorView::InvalidTransaction {
                reason: "Block timestamp too far in the future"@,
            },
        )
    } else if window > 0 && earlier_count(
        previous,
        previous.len() - window,
        block.header.timestamp,
    ) <= window / 2 {
        Err(
            BondErrorView::InvalidTransaction {
                reason: "Block timestamp not after the median of its predecessors"@,
            },
        )
    } else {
        Ok(())
    }
}

/// The error for a block whose serialized size is above the limit.
pub open spec fn oversized(size: nat) -> BondErrorView {
    BondErrorView::InvalidTransaction {
        reason: "Block size "@ + decimal(size) + " exceeds maximum "@ + decimal(
            MAX_BLOCK_SIZE as nat,
        ),
    }
}

/// The rules that a block must meet as the successor of `previous`, in the
/// order in which they are checked: the block's own structural rules, the
/// size limit, and, under strict difficulty and once the chain is at least
/// one retarget period long, the expected target.
pub open spec fn block_outcome(config: MiningConfig, block: BlockView, previous: Seq<BlockView>)
    -> Result<(), BondErrorView> {
    match block.structural_outcome() {
        Err(e) => Err(e),
        Ok(_) => {
            if block.encoding().len() > MAX_BLOCK_SIZE {
                Err(oversized(block.encoding().len()))
            } else if config.strict_difficulty && previous.len() > 0 && previous.len()
                >= config.difficulty_adjustment_period {
                let expected = config.next_target(
                    previous,
                    be_nat(previous.last().header.difficulty_target),
                );
                if block.header.difficulty_target != be_bytes(expected, 32) {
                    Err(
                        BondErrorView::InvalidProofOfWork {
                            hash: hex_string(block.header.hash()),
                            target: hex_string(be_bytes(expected, 32)),
                        },
                    )
                } else {
                    Ok(())
                }
            } else {
                Ok(())
            }
        },
    }
}

/// The rules that a block must meet as the successor of `previous` at the
/// clock reading `now`: the timestamp rule, and then the rules of
/// [`block_outcome`].
pub open spec fn timed_block_outcome(
    config: MiningConfig,
    block: BlockView,
    previous: Seq<BlockView>,
    now: Timestamp,
) -> Result<(), BondErrorView> {
    match timestamp_outcome(block, previous, now) {
        Err(e) => Err(e),
        Ok(_) => block_outcome(config, block, previous),
    }
}

/// The consensus rules: block validation and difficulty retargeting.
#[derive(Debug)]
pub struct Consensus {
    config: MiningConfig,
}

impl View for Consensus {
    type V = MiningConfig;

    closed spec fn view(&self) -> MiningConfig {
        self.config
    }
}

impl MiningConfig {
    /// The fraction by which a target is scaled after a window that took
    /// `actual` seconds.
    pub fn adjustment_ratio(&self, actual: i128) -> (r: (u128, u128))
        ensures
            (r.0 as nat, r.1 as nat) == self.adjustment(actual as int),
            r.0 < SCALE_LIMIT,
            0 < r.1 < SCALE_LIMIT,
    {
        let block_time: u128 = self.target_block_time as u128;
        let period: u128 = self.difficulty_adjustment_period as u128;
        let low_factor: u128 = self.min_adjustment_permille as u128;
        let high_factor: u128 = self.max_adjustment_permille as u128;
        assert(block_time * period < 0x1_0000_0000_0000_0000_0000_0000) by (nonlinear_arith)
            requires
                block_time < 0x1_0000_0000_0000_0000,
                period < 0x1_0000_0000,
        ;
        let span: u128 = block_time * period;
        assert(low_factor * span < 0x1_0000_0000 * 0x1_0000_0000_0000_0000_0000_0000
            && high_factor * span < 0x1_0000_0000 * 0x1_0000_0000_0000_0000_0000_0000)
            by (nonlinear_arith)
            requires
                low_factor < 0x1_0000_0000,
                high_factor < 0x1_0000_0000,
                span < 0x1_0000_0000_0000_0000_0000_0000,
        ;
        let low: u128 = low_factor * span;
        let high: u128 = high_factor * span;
        if actual <= 0 {
            return (low_factor, 1000);
        }
        let taken: u128 = actual as u128;
        match taken.checked_mul(1000) {
            None => (high_factor, 1000),
            Some(taken_thousandths) => {
                if taken_thousandths <= low {
                    (low_factor, 1000)
                } else if taken_thousandths >= high {
                    (high_factor, 1000)
                } else {
                    (taken, span)
                }
            },
        }
    }
}

impl Consensus {
    /// The rules with the default parameters.
    pub fn new() -> (r: Self)
        ensures
            r@ == MiningConfig::standard(),
    {
        Consensus { config: MiningConfig::default() }
    }

    /// The rules with the given parameters.
    pub fn with_config(config: MiningConfig) -> (r: Self)
        ensures
            r@ == config,
    {
        Consensus { config }
    }

    /// The target that follows `current_target` after `blocks`.
    pub fn calculate_next_difficulty(&self, blocks: &[Block], current_target: DifficultyTarget)
        -> (r: BondResult<DifficultyTarget>)
        ensures
            r is Ok,
            be_nat(r.unwrap()@) == self@.next_target(
                block_views(blocks@),
                be_nat(current_target@),
            ),
    {
        let period = self.config.difficulty_adjustment_period as usize;
        if period == 0 || blocks.len() < period || blocks.len() % period != 0 {
            return Ok(current_target);
        }
        let first = blocks[blocks.len() - period].header.timestamp;
        let last = blocks[blocks.len() - 1].header.timestamp;
        let actual_time = last.seconds_since(&first);
        let (num, den) = self.config.adjustment_ratio(actual_time);
        Ok(DifficultyTarget(scale_target(&current_target.0, num, den)))
    }

    /// Checks `block` as the successor of `previous_blocks`.
    pub fn validate_block(&self, block: &Block, previous_blocks: &[Block]) -> (r: BondResult<()>)
        ensures
            unit_outcome(r, block_outcome(self@, block@, block_views(previous_blocks@))),
    {
        match block.validate() {
            Ok(_) => {},
            Err(e) => {
                return Err(e);
            },
        }
        let size = match block.size() {
            Ok(size) => size,
            Err(e) => {
                return Err(e);
            },
        };
        if size > MAX_BLOCK_SIZE {
            let mut reason = String::from_str("Block size ");
            push_decimal(&mut reason, size as u64);
            reason.append(" exceeds maximum ");
            push_decimal(&mut reason, MAX_BLOCK_SIZE as u64);
            return Err(BondError::InvalidTransaction { reason });
        }
        let count = previous_blocks.len();
        if self.config.strict_difficulty && count > 0 && count
            >= self.config.difficulty_adjustment_period as usize {
            let tip = &previous_blocks[count - 1];
            assert(block_views(previous_blocks@).last() == tip@);
            let expected = match self.calculate_next_difficulty(
                previous_blocks,
                tip.header.difficulty_target,
            ) {
                Ok(expected) => expected,
                Err(e) => {
                    return Err(e);
                },
            };
            proof {
                lemma_be_bytes_of_nat(expected@);
            }
            if !block.header.difficulty_target.same_as(&expected) {
                let hash = match block.hash() {
                    Ok(hash) => hash,
                    Err(e) => {
                        return Err(e);
                    },
                };
                return Err(
                    BondError::InvalidProofOfWork {
                        hash: hash.to_string(),
                        target: expected.to_string(),
                    },
                );
            }
        }
        Ok(())
    }

    /// Checks the timestamp of `block` against the clock reading `now` and
    /// against the timestamps of its predecessors.
    pub fn validate_timestamp(&self, block: &Block, previous_blocks: &[Block], now: Timestamp) -> (r:
        BondResult<()>)
        ensures
            unit_outcome(r, timestamp_outcome(block@, block_views(previous_blocks@), now)),
    {
        let stamp = block.header.timestamp;
        let stamp_nanos: i128 = stamp.secs as i128 * 1_000_000_000 + stamp.nanos as i128;
        let limit_nanos: i128 = now.secs as i128 * 1_000_000_000 + now.nanos as i128
            + MAX_FUTURE_SKEW as i128 * 1_000_000_000;
        if stamp_nanos > limit_nanos {
            return Err(BondError::invalid_transaction("Block timestamp too far in the future"));
        }
        let count = previous_blocks.len();
        let window = if count < MEDIAN_WINDOW {
            count
        } else {
            MEDIAN_WINDOW
        };
        let ghost views = block_views(previous_blocks@);
        let mut earlier: usize = 0;
        let mut i: usize = count;
        while i > count - window
            invariant
                window <= count,
                count == previous_blocks@.len(),
                window <= MEDIAN_WINDOW,
                count - window <= i <= count,
                views == block_views(previous_blocks@),
                earlier == earlier_count(views, i as int, stamp),
                earlier <= count - i,
            decreases i,
        {
            i -= 1;
            assert(views[i as int] == previous_blocks@[i as int]@);
            if stamp.is_after(&previous_blocks[i].header.timestamp) {
                earlier += 1;
            }
        }
        if window > 0 && earlier <= window / 2 {
            return Err(
                BondError::invalid_transaction(
                    "Block timestamp not after the median of its predecessors",
                ),
            );
        }
        Ok(())
    }

    /// Checks `block` as the successor of `previous_blocks` at the clock
    /// reading `now`: the timestamp rule first, then the rules of
    /// [`Consensus::validate_block`].
    pub fn validate_block_at(&self, block: &Block, previous_blocks: &[Block], now: Timestamp) -> (r:
        BondResult<()>)
        ensures
            unit_outcome(r, timed_block_outcome(self@, block@, block_views(previous_blocks@), now)),
    {
        match self.validate_timestamp(block, previous_blocks, now) {
            Ok(_) => self.validate_block(block, previous_blocks),
            Err(e) => Err(e),
        }
    }

    /// The parameters.
    pub fn config(&self) -> (r: &MiningConfig)
        ensures
            *r == self@,
    {
        &self.config
    }
}

impl Default for Consensus {
    fn default() -> (r: Self)
        ensures
            r@ == MiningConfig::standard(),
    {
        Consensus::new()
    }
}

} // verus!
