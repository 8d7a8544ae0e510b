//! Unspent outputs: their identifiers, their scripts, and the programmable
//! constraints that are evaluated when one is spent.

use crate::encoding::{le_bytes, push_bytes, push_u32, push_u64};
use crate::error::{BondError, BondErrorView, BondResult};
use crate::text::{
    decimal, find_only, hex_encode, hex_string, joined, only_at, parse_u32, parsed_u32,
    push_decimal,
};
use crate::transaction::{parsed_transaction_hash, TransactionHash};
use vstd::string::StrSliceExecFns;
use vstd::prelude::*;
use vstd::string::StringExecFns;

verus! {

/// Identifies one output of one transaction.
#[derive(Debug, Clone, Copy, PartialEq, Eq, Hash)]
pub struct UtxoId {
    /// Hash of the transaction that created the output.
    pub tx_hash: TransactionHash,
    /// Index of the output within that transaction.
    pub output_index: u32,
}

/// The mathematical content of a [`UtxoId`].
pub struct UtxoIdView {
    pub tx_hash: Seq<u8>,
    pub output_index: u32,
}

impl View for UtxoId {
    type V = UtxoIdView;

    open spec fn view(&self) -> UtxoIdView {
        UtxoIdView { tx_hash: self.tx_hash@, output_index: self.output_index }
    }
}

impl UtxoIdView {
    /// The reference that a coinbase input carries: the all-zero hash and
    /// the largest index.
    pub open spec fn coinbase() -> UtxoIdView {
        UtxoIdView { tx_hash: Seq::new(32, |i: int| 0u8), output_index: 0xFFFF_FFFF }
    }

    /// The canonical encoding: the hash, then the index in four
    /// little-endian bytes.
    pub open spec fn encoding(self) -> Seq<u8> {
        self.tx_hash + le_bytes(self.output_index as nat, 4)
    }

    /// The text `hash:index`, the hash in hexadecimal and the index in
    /// decimal.
    pub open spec fn text(self) -> Seq<char> {
        hex_string(self.tx_hash) + ":"@ + decimal(self.output_index as nat)
    }
}

/// Authorization byte-code.
#[derive(Debug, PartialEq)]
pub struct Script {
    /// The bytes of the script.
    pub code: Vec<u8>,
}

impl View for Script {
    type V = Seq<u8>;

    open spec fn view(&self) -> Seq<u8> {
        self.code@
    }
}

impl Clone for Script {
    fn clone(&self) -> (r: Self)
        ensures
            r@ == self@,
    {
        Script { code: self.code.clone() }
    }
}

/// The canonical encoding of a byte string of variable length: its length
/// in eight little-endian bytes, then the bytes.
pub open spec fn framed(data: Seq<u8>) -> Seq<u8> {
    le_bytes(data.len(), 8) + data
}

/// Appends the framed form of `data` to `out`.
pub fn push_framed(out: &mut Vec<u8>, data: &[u8])
    ensures
        final(out)@ == old(out)@ + framed(data@),
{
    let ghost before = out@;
    push_u64(out, data.len() as u64);
    push_bytes(out, data);
    assert(out@ =~= before + framed(data@));
}

impl UtxoId {
    /// The reference that a coinbase input carries.
    pub fn coinbase() -> (r: Self)
        ensures
            r@ == UtxoIdView::coinbase(),
    {
        UtxoId { tx_hash: TransactionHash::zero(), output_index: 0xFFFF_FFFF }
    }

    /// The identifier of output `output_index` of transaction `tx_hash`.
    pub fn new(tx_hash: TransactionHash, output_index: u32) -> (r: Self)
        ensures
            r@ == (UtxoIdView { tx_hash: tx_hash@, output_index }),
    {
        UtxoId { tx_hash, output_index }
    }

    /// The canonical encoding, which is also what signatures commit to.
    pub fn to_bytes(&self) -> (r: Vec<u8>)
        ensures
            r@ == self@.encoding(),
    {
        let mut bytes: Vec<u8> = Vec::new();
        push_bytes(&mut bytes, self.tx_hash.as_bytes().as_slice());
        push_u32(&mut bytes, self.output_index);
        assert(bytes@ =~= self@.encoding());
        bytes
    }

    /// Whether this is the reference that a coinbase input carries.
    pub fn is_coinbase_reference(&self) -> (r: bool)
        ensures
            r == (self@ == UtxoIdView::coinbase()),
    {
        if self.output_index != 0xFFFF_FFFF {
            return false;
        }
        let bytes = self.tx_hash.as_bytes();
        let mut i: usize = 0;
        while i < 32
            invariant
                i <= 32,
                bytes@ == self.tx_hash@,
                forall|j: int| 0 <= j < i ==> bytes@[j] == 0u8,
            decreases 32 - i,
        {
            if bytes[i] != 0 {
                assert(UtxoIdView::coinbase().tx_hash[i as int] == 0u8);
                return false;
            }
            i += 1;
        }
        assert(self.tx_hash@ =~= UtxoIdView::coinbase().tx_hash);
        true
    }

    /// Whether two identifiers name the same output.
    pub fn same_as(&self, other: &UtxoId) -> (r: bool)
        ensures
            r == (self@ == other@),
    {
        self.output_index == other.output_index && self.tx_hash.same_as(&other.tx_hash)
    }

    /// The text `hash:index`.
    pub fn to_string(&self) -> (r: String)
        ensures
            r@ == self@.text(),
    {
        let mut out = hex_encode(self.tx_hash.as_bytes().as_slice());
        out.append(":");
        push_decimal(&mut out, self.output_index as u64);
        out
    }
}

impl Script {
    /// The script with the given bytes.
    pub fn new(code: Vec<u8>) -> (r: Self)
        ensures
            r@ == code@,
    {
        Script { code }
    }

    /// The script without bytes.
    pub fn empty() -> (r: Self)
        ensures
            r@ == Seq::<u8>::empty(),
    {
        Script { code: Vec::new() }
    }

    /// Whether the script has no bytes.
    pub fn is_empty(&self) -> (r: bool)
        ensures
            r == (self@.len() == 0),
    {
        self.code.len() == 0
    }

    /// The number of bytes.
    pub fn size(&self) -> (r: usize)
        ensures
            r == self@.len(),
    {
        self.code.len()
    }

    /// The bytes.
    pub fn data(&self) -> (r: &[u8])
        ensures
            r@ == self@,
    {
        self.code.as_slice()
    }

    /// The bytes, for writing.
    pub fn data_mut(&mut self) -> (r: &mut Vec<u8>)
        ensures
            *r == old(self).code,
            final(self).code == *final(r),
    {
        &mut self.code
    }
}

/// A guardian who may help to recover an output.
#[derive(Debug, Clone, PartialEq)]
pub struct GuardianConfig {
    /// The guardian's public key.
    pub public_key: Vec<u8>,
    /// Blocks that a recovery must wait.
    pub confirmation_period: u32,
    /// The guardian's weight in a recovery.
    pub weight: u32,
}

/// A way to authenticate besides the signature.
#[derive(Debug, Clone, PartialEq)]
pub enum AuthMethod {
    /// A hardware security key.
    HardwareKey { public_key: Vec<u8> },
    /// A biometric template, by its hash.
    Biometric { template_hash: [u8; 32] },
    /// A time-based one-time password, by the hash of its secret.
    Totp { shared_secret_hash: [u8; 32] },
    /// A phone number, by its hash.
    Sms { phone_hash: [u8; 32] },
}

/// Multi-factor authentication: how many of which methods.
#[derive(Debug, Clone, PartialEq)]
pub struct MfaConfig {
    /// Number of factors that a spend needs.
    pub required_factors: u32,
    /// The methods on offer.
    pub methods: Vec<AuthMethod>,
}

/// What a time lock's value counts.
#[derive(Debug, Clone, Copy, PartialEq, Eq, Structural)]
pub enum TimeLockType {
    /// A block height.
    BlockHeight,
    /// Seconds since the epoch.
    Timestamp,
    /// Blocks after the output's creation.
    RelativeBlocks,
    /// Seconds after the output's creation.
    RelativeTime,
}

/// A time lock: the output cannot be spent before the lock's value is
/// reached.
#[derive(Debug, Clone, Copy, PartialEq, Eq, Structural)]
pub struct TimeLock {
    /// What the value counts.
    pub lock_type: TimeLockType,
    /// The height or time to reach.
    pub value: u64,
}

/// A limit on what may be spent per window of time.
#[derive(Debug, Clone, Copy, PartialEq, Eq, Structural)]
pub struct RateLimit {
    /// The value that may be spent in one window.
    pub max_value_per_window: u64,
    /// Length of a window in seconds.
    pub window_seconds: u64,
    /// When the current window began.
    pub current_window_start: u64,
    /// The value spent in the current window.
    pub spent_in_window: u64,
}

/// The programmable constraints of an output.
#[derive(Debug, Clone, PartialEq)]
pub struct UtxoMetadata {
    /// Recovery guardians.
    pub guardians: Vec<GuardianConfig>,
    /// Multi-factor authentication.
    pub mfa_config: Option<MfaConfig>,
    /// Time locks, all of which must be satisfied.
    pub time_locks: Vec<TimeLock>,
    /// The rate limit.
    pub rate_limits: Option<RateLimit>,
}

/// An unspent output with programmable constraints.
#[derive(Debug, Clone, PartialEq)]
pub struct ProgrammableUtxo {
    /// The identifier.
    pub id: UtxoId,
    /// Value in Elo.
    pub value: u64,
    /// The script that a spender must satisfy.
    pub script_pubkey: Script,
    /// Height of the block that created the output.
    pub block_height: u32,
    /// The constraints.
    pub metadata: UtxoMetadata,
    /// Timestamp, in seconds, of the block that created the output.
    pub creation_timestamp: u64,
}

/// Whether a time lock lets an output be spent at `height` and `now`, for
/// an output created at `creation_height` and `creation_time`. A relative
/// lock whose end cannot be represented is an error.
pub open spec fn time_lock_outcome(
    lock: TimeLock,
    creation_height: u32,
    creation_time: u64,
    height: u32,
    now: u64,
) -> Result<bool, BondErrorView> {
    match lock.lock_type {
        TimeLockType::BlockHeight => Ok(height as int >= lock.value),
        TimeLockType::Timestamp => Ok(now >= lock.value),
        TimeLockType::RelativeBlocks => {
            if creation_height + lock.value > u32::MAX {
                Err(
                    BondErrorView::ArithmeticOverflow {
                        operation: "relative block height calculation"@,
                    },
                )
            } else {
                Ok(height as int >= creation_height + lock.value)
            }
        },
        TimeLockType::RelativeTime => {
            if creation_time + lock.value > u64::MAX {
                Err(BondErrorView::ArithmeticOverflow { operation: "relative time calculation"@ })
            } else {
                Ok(now as int >= creation_time + lock.value)
            }
        },
    }
}

/// Whether a rate limit lets an output be spent at `now`: always once the
/// current window has ended, and else while less than the limit has been
/// spent in it. A window whose end cannot be represented is an error.
pub open spec fn rate_limit_outcome(limit: RateLimit, now: u64) -> Result<bool, BondErrorView> {
    if limit.current_window_start + limit.window_seconds > u64::MAX {
        Err(BondErrorView::ArithmeticOverflow { operation: "rate limit window calculation"@ })
    } else if now >= limit.current_window_start + limit.window_seconds {
        Ok(true)
    } else {
        Ok(limit.spent_in_window < limit.max_value_per_window)
    }
}

/// Whether the time locks from index `from` on let an output be spent: the
/// first that errs or refuses decides.
pub open spec fn time_locks_outcome_from(
    locks: Seq<TimeLock>,
    creation_height: u32,
    creation_time: u64,
    height: u32,
    now: u64,
    from: int,
) -> Result<bool, BondErrorView>
    decreases locks.len() - from,
{
    if from < 0 || from >= locks.len() {
        Ok(true)
    } else {
        match time_lock_outcome(locks[from], creation_height, creation_time, height, now) {
            Ok(true) => time_locks_outcome_from(
                locks,
                creation_height,
                creation_time,
                height,
                now,
                from + 1,
            ),
            other => other,
        }
    }
}

/// The rate limit after `amount` has been spent at `now`: a window that has
/// ended gives way to one that begins at `now` and holds `amount`; else
/// `amount` is added to what the window holds. A sum that cannot be
/// represented is an error.
pub open spec fn rate_limit_after(limit: RateLimit, amount: u64, now: u64) -> Result<
    RateLimit,
    BondErrorView,
> {
    if limit.current_window_start + limit.window_seconds > u64::MAX {
        Err(BondErrorView::ArithmeticOverflow { operation: "rate limit window calculation"@ })
    } else if now >= limit.current_window_start + limit.window_seconds {
        Ok(
            RateLimit {
                max_value_per_window: limit.max_value_per_window,
                window_seconds: limit.window_seconds,
                current_window_start: now,
                spent_in_window: amount,
            },
        )
    } else if limit.spent_in_window + amount > u64::MAX {
        Err(BondErrorView::ArithmeticOverflow { operation: "rate limit spending"@ })
    } else {
        Ok(
            RateLimit {
                max_value_per_window: limit.max_value_per_window,
                window_seconds: limit.window_seconds,
                current_window_start: limit.current_window_start,
                spent_in_window: (limit.spent_in_window + amount) as u64,
            },
        )
    }
}

impl ProgrammableUtxo {
    /// Whether the output can be spent at `height` and `now`: every time
    /// lock is satisfied, and so is the rate limit, if there is one.
    pub open spec fn spend_outcome(self, height: u32, now: u64) -> Result<bool, BondErrorView> {
        match time_locks_outcome_from(
            self.metadata.time_locks@,
            self.block_height,
            self.creation_timestamp,
            height,
            now,
            0,
        ) {
            Ok(true) => match self.metadata.rate_limits {
                Some(limit) => rate_limit_outcome(limit, now),
                None => Ok(true),
            },
            other => other,
        }
    }

    /// An output without constraints, created at `block_height`.
    pub fn new(id: UtxoId, value: u64, script_pubkey: Script, block_height: u32) -> (r: Self)
        ensures
            r.id == id,
            r.value == value,
            r.script_pubkey == script_pubkey,
            r.block_height == block_height,
            r.creation_timestamp == 0,
            r.metadata.guardians@.len() == 0,
            r.metadata.mfa_config is None,
            r.metadata.time_locks@.len() == 0,
            r.metadata.rate_limits is None,
    {
        ProgrammableUtxo {
            id,
            value,
            script_pubkey,
            block_height,
            metadata: UtxoMetadata::new(),
            creation_timestamp: 0,
        }
    }

    /// An output without constraints, created at `block_height`.
    pub fn simple(id: UtxoId, value: u64, script_pubkey: Script, block_height: u32) -> (r: Self)
        ensures
            r.id == id,
            r.value == value,
            r.script_pubkey == script_pubkey,
            r.block_height == block_height,
            r.creation_timestamp == 0,
            r.metadata.guardians@.len() == 0,
            r.metadata.mfa_config is None,
            r.metadata.time_locks@.len() == 0,
            r.metadata.rate_limits is None,
    {
        Self::new(id, value, script_pubkey, block_height)
    }

    /// Whether the output can be spent at the given height and time.
    pub fn can_spend(&self, current_block_height: u32, current_timestamp: u64) -> (r: BondResult<
        bool,
    >)
        ensures
            match r {
                Ok(allowed) => self.spend_outcome(current_block_height, current_timestamp) == Ok::<
                    bool,
                    BondErrorView,
                >(allowed),
                Err(e) => self.spend_outcome(current_block_height, current_timestamp) == Err::<
                    bool,
                    BondErrorView,
                >(e@),
            },
    {
        let mut i: usize = 0;
        while i < self.metadata.time_locks.len()
            invariant
                i <= self.metadata.time_locks@.len(),
                time_locks_outcome_from(
                    self.metadata.time_locks@,
                    self.block_height,
                    self.creation_timestamp,
                    current_block_height,
                    current_timestamp,
                    i as int,
                ) == time_locks_outcome_from(
                    self.metadata.time_locks@,
                    self.block_height,
                    self.creation_timestamp,
                    current_block_height,
                    current_timestamp,
                    0,
                ),
            decreases self.metadata.time_locks@.len() - i,
        {
            match self.check_time_lock(
                &self.metadata.time_locks[i],
                current_block_height,
                current_timestamp,
            ) {
                Ok(true) => {},
                Ok(false) => {
                    return Ok(false);
                },
                Err(e) => {
                    return Err(e);
                },
            }
            i += 1;
        }
        match &self.metadata.rate_limits {
            Some(rate_limit) => self.check_rate_limit(rate_limit, current_timestamp),
            None => Ok(true),
        }
    }

    /// Whether `time_lock` is satisfied at the given height and time.
    pub fn check_time_lock(
        &self,
        time_lock: &TimeLock,
        current_block_height: u32,
        current_timestamp: u64,
    ) -> (r: BondResult<bool>)
        ensures
            match r {
                Ok(satisfied) => time_lock_outcome(
                    *time_lock,
                    self.block_height,
                    self.creation_timestamp,
                    current_block_height,
                    current_timestamp,
                ) == Ok::<bool, BondErrorView>(satisfied),
                Err(e) => time_lock_outcome(
                    *time_lock,
                    self.block_height,
                    self.creation_timestamp,
                    current_block_height,
                    current_timestamp,
                ) == Err::<bool, BondErrorView>(e@),
            },
    {
        match time_lock.lock_type {
            TimeLockType::BlockHeight => Ok(current_block_height as u64 >= time_lock.value),
            TimeLockType::Timestamp => Ok(current_timestamp >= time_lock.value),
            TimeLockType::RelativeBlocks => {
                match (self.block_height as u64).checked_add(time_lock.value) {
                    Some(target_height) => {
                        if target_height > u32::MAX as u64 {
                            Err(BondError::overflow("relative block height calculation"))
                        } else {
                            Ok(current_block_height as u64 >= target_height)
                        }
                    },
                    None => Err(BondError::overflow("relative block height calculation")),
                }
            },
            TimeLockType::RelativeTime => {
                match self.creation_timestamp.checked_add(time_lock.value) {
                    Some(target_time) => Ok(current_timestamp >= target_time),
                    None => Err(BondError::overflow("relative time calculation")),
                }
            },
        }
    }

    /// Whether `rate_limit` allows a spend at the given time.
    pub fn check_rate_limit(&self, rate_limit: &RateLimit, current_timestamp: u64) -> (r:
        BondResult<bool>)
        ensures
            match r {
                Ok(allowed) => rate_limit_outcome(*rate_limit, current_timestamp) == Ok::<
                    bool,
                    BondErrorView,
                >(allowed),
                Err(e) => rate_limit_outcome(*rate_limit, current_timestamp) == Err::<
                    bool,
                    BondErrorView,
                >(e@),
            },
    {
        match rate_limit.current_window_start.checked_add(rate_limit.window_seconds) {
            Some(window_end) => {
                if current_timestamp >= window_end {
                    Ok(true)
                } else {
                    Ok(rate_limit.spent_in_window < rate_limit.max_value_per_window)
                }
            },
            None => Err(BondError::overflow("rate limit window calculation")),
        }
    }

    /// Records that `amount` was spent at `current_timestamp`, rolling the
    /// rate limit's window forward where it has ended. Without a rate limit,
    /// and after an error, nothing changes.
    pub fn record_spend(&mut self, amount: u64, current_timestamp: u64) -> (r: BondResult<()>)
        ensures
            final(self).id == old(self).id,
            final(self).value == old(self).value,
            final(self).script_pubkey == old(self).script_pubkey,
            final(self).block_height == old(self).block_height,
            final(self).creation_timestamp == old(self).creation_timestamp,
            final(self).metadata.guardians == old(self).metadata.guardians,
            final(self).metadata.mfa_config == old(self).metadata.mfa_config,
            final(self).metadata.time_locks == old(self).metadata.time_locks,
            match old(self).metadata.rate_limits {
                None => r is Ok && final(self).metadata.rate_limits is None,
                Some(limit) => match rate_limit_after(limit, amount, current_timestamp) {
                    Ok(next) => r is Ok && final(self).metadata.rate_limits == Some(next),
                    Err(e) => {
                        &&& r is Err
                        &&& r->Err_0@ == e
                        &&& final(self).metadata.rate_limits == Some(limit)
                    },
                },
            },
    {
        let limit = match self.metadata.rate_limits {
            Some(limit) => limit,
            None => {
                return Ok(());
            },
        };
        let window_end = match limit.current_window_start.checked_add(limit.window_seconds) {
            Some(window_end) => window_end,
            None => {
                return Err(BondError::overflow("rate limit window calculation"));
            },
        };
        if current_timestamp >= window_end {
            self.metadata.rate_limits = Some(
                RateLimit {
                    max_value_per_window: limit.max_value_per_window,
                    window_seconds: limit.window_seconds,
                    current_window_start: current_timestamp,
                    spent_in_window: amount,
                },
            );
            return Ok(());
        }
        match limit.spent_in_window.checked_add(amount) {
            Some(spent) => {
                self.metadata.rate_limits = Some(
                    RateLimit {
                        max_value_per_window: limit.max_value_per_window,
                        window_seconds: limit.window_seconds,
                        current_window_start: limit.current_window_start,
                        spent_in_window: spent,
                    },
                );
                Ok(())
            },
            None => Err(BondError::overflow("rate limit spending")),
        }
    }

    /// Adds a recovery guardian.
    pub fn add_guardian(&mut self, guardian: GuardianConfig)
        ensures
            final(self).metadata.guardians@ == old(self).metadata.guardians@.push(guardian),
            final(self).metadata.mfa_config == old(self).metadata.mfa_config,
            final(self).metadata.time_locks == old(self).metadata.time_locks,
            final(self).metadata.rate_limits == old(self).metadata.rate_limits,
            final(self).id == old(self).id,
            final(self).value == old(self).value,
            final(self).script_pubkey == old(self).script_pubkey,
            final(self).block_height == old(self).block_height,
            final(self).creation_timestamp == old(self).creation_timestamp,
    {
        self.metadata.guardians.push(guardian);
    }

    /// Sets the multi-factor authentication.
    pub fn set_mfa_config(&mut self, mfa_config: MfaConfig)
        ensures
            final(self).metadata.mfa_config == Some(mfa_config),
            final(self).metadata.guardians == old(self).metadata.guardians,
            final(self).metadata.time_locks == old(self).metadata.time_locks,
            final(self).metadata.rate_limits == old(self).metadata.rate_limits,
            final(self).id == old(self).id,
            final(self).value == old(self).value,
            final(self).script_pubkey == old(self).script_pubkey,
            final(self).block_height == old(self).block_height,
            final(self).creation_timestamp == old(self).creation_timestamp,
    {
        self.metadata.mfa_config = Some(mfa_config);
    }

    /// Adds a time lock.
    pub fn add_time_lock(&mut self, time_lock: TimeLock)
        ensures
            final(self).metadata.time_locks@ == old(self).metadata.time_locks@.push(time_lock),
            final(self).metadata.guardians == old(self).metadata.guardians,
            final(self).metadata.mfa_config == old(self).metadata.mfa_config,
            final(self).metadata.rate_limits == old(self).metadata.rate_limits,
            final(self).id == old(self).id,
            final(self).value == old(self).value,
            final(self).script_pubkey == old(self).script_pubkey,
            final(self).block_height == old(self).block_height,
            final(self).creation_timestamp == old(self).creation_timestamp,
    {
        self.metadata.time_locks.push(time_lock);
    }

    /// Sets the rate limit.
    pub fn set_rate_limit(&mut self, rate_limit: RateLimit)
        ensures
            final(self).metadata.rate_limits == Some(rate_limit),
            final(self).metadata.guardians == old(self).metadata.guardians,
            final(self).metadata.mfa_config == old(self).metadata.mfa_config,
            final(self).metadata.time_locks == old(self).metadata.time_locks,
            final(self).id == old(self).id,
            final(self).value == old(self).value,
            final(self).script_pubkey == old(self).script_pubkey,
            final(self).block_height == old(self).block_height,
            final(self).creation_timestamp == old(self).creation_timestamp,
    {
        self.metadata.rate_limits = Some(rate_limit);
    }
}

impl UtxoMetadata {
    /// No constraints.
    pub fn new() -> (r: Self)
        ensures
            r.guardians@.len() == 0,
            r.mfa_config is None,
            r.time_locks@.len() == 0,
            r.rate_limits is None,
    {
        UtxoMetadata {
            guardians: Vec::new(),
            mfa_config: None,
            time_locks: Vec::new(),
            rate_limits: None,
        }
    }
}

impl Default for UtxoMetadata {
    fn default() -> (r: Self)
        ensures
            r.guardians@.len() == 0,
            r.mfa_config is None,
            r.time_locks@.len() == 0,
            r.rate_limits is None,
    {
        UtxoMetadata::new()
    }
}

/// The identifier that a text of the form `hash:index` spells: exactly one
/// colon, before it a transaction hash in hexadecimal, after it an output
/// index in decimal.
pub open spec fn parsed_utxo_id(text: Seq<char>) -> Result<UtxoIdView, BondErrorView> {
    if !exists|k: int| only_at(text, ':', k) {
        Err(BondErrorView::InvalidUtxo { reason: "Invalid UTXO ID format: "@ + text })
    } else {
        let k = choose|k: int| only_at(text, ':', k);
        let hash_text = text.subrange(0, k);
        let index_text = text.subrange(k + 1, text.len() as int);
        match parsed_transaction_hash(hash_text) {
            Err(_) => Err(
                BondErrorView::InvalidUtxo {
                    reason: "Invalid transaction hash in UTXO ID: "@ + hash_text,
                },
            ),
            Ok(tx_hash) => match parsed_u32(index_text) {
                None => Err(
                    BondErrorView::InvalidUtxo {
                        reason: "Invalid output index in UTXO ID: "@ + index_text,
                    },
                ),
                Some(output_index) => Ok(UtxoIdView { tx_hash, output_index }),
            },
        }
    }
}

impl UtxoId {
    /// The identifier that `text` spells in the form `hash:index`.
    pub fn parse(text: &str) -> (r: BondResult<UtxoId>)
        ensures
            match r {
                Ok(id) => parsed_utxo_id(text@) == Ok::<UtxoIdView, BondErrorView>(id@),
                Err(e) => parsed_utxo_id(text@) == Err::<UtxoIdView, BondErrorView>(e@),
            },
    {
        let k = match find_only(text, ':') {
            Some(k) => k,
            None => {
                return Err(
                    BondError::InvalidUtxo { reason: joined("Invalid UTXO ID format: ", text) },
                );
            },
        };
        proof {
            let chosen = choose|m: int| only_at(text@, ':', m);
            assert(only_at(text@, ':', k as int));
            assert(chosen == k);
        }
        let len = text.unicode_len();
        let hash_text = text.substring_char(0, k);
        let index_text = text.substring_char(k + 1, len);
        let tx_hash = match TransactionHash::parse(hash_text) {
            Ok(hash) => hash,
            Err(_) => {
                return Err(
                    BondError::InvalidUtxo {
                        reason: joined("Invalid transaction hash in UTXO ID: ", hash_text),
                    },
                );
            },
        };
        let output_index = match parse_u32(index_text) {
            Some(index) => index,
            None => {
                return Err(
                    BondError::InvalidUtxo {
                        reason: joined("Invalid output index in UTXO ID: ", index_text),
                    },
                );
            },
        };
        Ok(UtxoId { tx_hash, output_index })
    }
}

impl core::str::FromStr for UtxoId {
    type Err = BondError;

    fn from_str(s: &str) -> (r: Result<Self, BondError>)
        ensures
            match r {
                Ok(id) => parsed_utxo_id(s@) == Ok::<UtxoIdView, BondErrorView>(id@),
                Err(e) => parsed_utxo_id(s@) == Err::<UtxoIdView, BondErrorView>(e@),
            },
    {
        UtxoId::parse(s)
    }
}

} // verus!
