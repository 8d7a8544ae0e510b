//! The canonical encoding of programmable outputs and of their constraints,
//! its decoder, and the law that ties the two.

use crate::codec::{
    decode_framed, decode_list, decode_u32, decode_u64, decode_utxo_id, decodes_whole,
    lemma_decode_list_split, lemma_framed_round_trip, lemma_framed_sound, lemma_list_round_trip,
    lemma_list_sound, lemma_take_prefix, lemma_take_sound, lemma_u32_round_trip, lemma_u32_sound,
    lemma_u64_round_trip, lemma_u64_sound, lemma_utxo_id_round_trip, lemma_utxo_id_sound,
    malformed, malformed_error, read_framed, read_hash, read_u32, read_u64, read_utxo_id, reads,
    take,
};
use crate::encoding::{le_bytes, push_bytes, push_u32, push_u64};
use crate::error::{BondError, BondErrorView, BondResult};
use crate::transaction::concat_encodings;
use crate::utxo::{
    framed, push_framed, AuthMethod, GuardianConfig, MfaConfig, ProgrammableUtxo, RateLimit,
    Script, TimeLock, TimeLockType, UtxoId, UtxoIdView, UtxoMetadata,
};
use vstd::prelude::*;

verus! {

/// The mathematical content of a [`GuardianConfig`].
pub struct GuardianView {
    pub public_key: Seq<u8>,
    pub confirmation_period: u32,
    pub weight: u32,
}

/// The mathematical content of an [`AuthMethod`].
pub enum AuthMethodView {
    HardwareKey { public_key: Seq<u8> },
    Biometric { template_hash: Seq<u8> },
    Totp { shared_secret_hash: Seq<u8> },
    Sms { phone_hash: Seq<u8> },
}

/// The mathematical content of an [`MfaConfig`].
pub struct MfaView {
    pub required_factors: u32,
    pub methods: Seq<AuthMethodView>,
}

/// The mathematical content of a [`UtxoMetadata`].
pub struct MetadataView {
    pub guardians: Seq<GuardianView>,
    pub mfa_config: Option<MfaView>,
    pub time_locks: Seq<TimeLock>,
    pub rate_limits: Option<RateLimit>,
}

/// The mathematical content of a [`ProgrammableUtxo`].
pub struct ProgrammableUtxoView {
    pub id: UtxoIdView,
    pub value: u64,
    pub script_pubkey: Seq<u8>,
    pub block_height: u32,
    pub metadata: MetadataView,
    pub creation_timestamp: u64,
}

impl View for GuardianConfig {
    type V = GuardianView;

    open spec fn view(&self) -> GuardianView {
        GuardianView {
            public_key: self.public_key@,
            confirmation_period: self.confirmation_period,
            weight: self.weight,
        }
    }
}

impl View for AuthMethod {
    type V = AuthMethodView;

    open spec fn view(&self) -> AuthMethodView {
        match *self {
            AuthMethod::HardwareKey { public_key } => AuthMethodView::HardwareKey {
                public_key: public_key@,
            },
            AuthMethod::Biometric { template_hash } => AuthMethodView::Biometric {
                template_hash: template_hash@,
            },
            AuthMethod::Totp { shared_secret_hash } => AuthMethodView::Totp {
                shared_secret_hash: shared_secret_hash@,
            },
            AuthMethod::Sms { phone_hash } => AuthMethodView::Sms { phone_hash: phone_hash@ },
        }
    }
}

/// The views of a list of authentication methods.
pub open spec fn method_views(methods: Seq<AuthMethod>) -> Seq<AuthMethodView> {
    methods.map_values(|method: AuthMethod| method@)
}

/// The views of a list of guardians.
pub open spec fn guardian_views(guardians: Seq<GuardianConfig>) -> Seq<GuardianView> {
    guardians.map_values(|guardian: GuardianConfig| guardian@)
}

impl View for MfaConfig {
    type V = MfaView;

    open spec fn view(&self) -> MfaView {
        MfaView { required_factors: self.required_factors, methods: method_views(self.methods@) }
    }
}

impl View for UtxoMetadata {
    type V = MetadataView;

    open spec fn view(&self) -> MetadataView {
        MetadataView {
            guardians: guardian_views(self.guardians@),
            mfa_config: match self.mfa_config {
                Some(config) => Some(config@),
                None => None,
            },
            time_locks: self.time_locks@,
            rate_limits: self.rate_limits,
        }
    }
}

impl View for ProgrammableUtxo {
    type V = ProgrammableUtxoView;

    open spec fn view(&self) -> ProgrammableUtxoView {
        ProgrammableUtxoView {
            id: self.id@,
            value: self.value,
            script_pubkey: self.script_pubkey@,
            block_height: self.block_height,
            metadata: self.metadata@,
            creation_timestamp: self.creation_timestamp,
        }
    }
}

/// The number that stands for a kind of time lock in the encoding.
pub open spec fn lock_tag(lock_type: TimeLockType) -> u32 {
    match lock_type {
        TimeLockType::BlockHeight => 0,
        TimeLockType::Timestamp => 1,
        TimeLockType::RelativeBlocks => 2,
        TimeLockType::RelativeTime => 3,
    }
}

/// The encoding of a time lock: its kind in four bytes, its value in
/// eight.
pub open spec fn time_lock_encoding(lock: TimeLock) -> Seq<u8> {
    le_bytes(lock_tag(lock.lock_type) as nat, 4) + le_bytes(lock.value as nat, 8)
}

/// The encoding of a rate limit: its four numbers in eight bytes each.
pub open spec fn rate_limit_encoding(limit: RateLimit) -> Seq<u8> {
    le_bytes(limit.max_value_per_window as nat, 8) + le_bytes(limit.window_seconds as nat, 8)
        + le_bytes(limit.current_window_start as nat, 8) + le_bytes(
        limit.spent_in_window as nat,
        8,
    )
}

/// The encoding of an optional part: one zero byte for none, and else a
/// byte of value one followed by the part.
pub open spec fn optional(part: Option<Seq<u8>>) -> Seq<u8> {
    match part {
        None => seq![0u8],
        Some(bytes) => seq![1u8] + bytes,
    }
}

/// The encoding of the time locks, after their number in eight bytes, and
/// of the optional rate limit.
pub open spec fn limits_encoding(time_locks: Seq<TimeLock>, rate_limits: Option<RateLimit>) -> Seq<
    u8,
> {
    le_bytes(time_locks.len(), 8) + concat_encodings(
        time_locks,
        |lock: TimeLock| time_lock_encoding(lock),
    ) + optional(
        match rate_limits {
            Some(limit) => Some(rate_limit_encoding(limit)),
            None => None,
        },
    )
}

impl GuardianView {
    /// The canonical encoding: the framed key, then the period and the
    /// weight in four bytes each.
    pub open spec fn encoding(self) -> Seq<u8> {
        framed(self.public_key) + le_bytes(self.confirmation_period as nat, 4) + le_bytes(
            self.weight as nat,
            4,
        )
    }

    /// Whether a program can hold the guardian.
    pub open spec fn well_formed(self) -> bool {
        self.public_key.len() <= u64::MAX
    }
}

impl AuthMethodView {
    /// The canonical encoding: the number of the variant in four bytes,
    /// then the framed key or the 32 bytes of the hash.
    pub open spec fn encoding(self) -> Seq<u8> {
        match self {
            AuthMethodView::HardwareKey { public_key } => le_bytes(0, 4) + framed(public_key),
            AuthMethodView::Biometric { template_hash } => le_bytes(1, 4) + template_hash,
            AuthMethodView::Totp { shared_secret_hash } => le_bytes(2, 4) + shared_secret_hash,
            AuthMethodView::Sms { phone_hash } => le_bytes(3, 4) + phone_hash,
        }
    }

    /// Whether a program can hold the method.
    pub open spec fn well_formed(self) -> bool {
        match self {
            AuthMethodView::HardwareKey { public_key } => public_key.len() <= u64::MAX,
            AuthMethodView::Biometric { template_hash } => template_hash.len() == 32,
            AuthMethodView::Totp { shared_secret_hash } => shared_secret_hash.len() == 32,
            AuthMethodView::Sms { phone_hash } => phone_hash.len() == 32,
        }
    }
}

impl MfaView {
    /// The canonical encoding: the number of factors in four bytes, the
    /// number of methods in eight, the methods.
    pub open spec fn encoding(self) -> Seq<u8> {
        le_bytes(self.required_factors as nat, 4) + le_bytes(self.methods.len(), 8)
            + concat_encodings(self.methods, |method: AuthMethodView| method.encoding())
    }

    /// Whether a program can hold the configuration.
    pub open spec fn well_formed(self) -> bool {
        &&& self.methods.len() <= u64::MAX
        &&& forall|i: int| 0 <= i < self.methods.len() ==> (#[trigger] self.methods[i]).well_formed()
    }
}

impl MetadataView {
    /// The canonical encoding: the guardians, the optional multi-factor
    /// configuration, the time locks, the optional rate limit; each list
    /// after its length in eight bytes.
    pub open spec fn encoding(self) -> Seq<u8> {
        le_bytes(self.guardians.len(), 8) + concat_encodings(
            self.guardians,
            |guardian: GuardianView| guardian.encoding(),
        ) + optional(
            match self.mfa_config {
                Some(config) => Some(config.encoding()),
                None => None,
            },
        ) + limits_encoding(self.time_locks, self.rate_limits)
    }

    /// Whether a program can hold the constraints.
    pub open spec fn well_formed(self) -> bool {
        &&& self.guardians.len() <= u64::MAX
        &&& self.time_locks.len() <= u64::MAX
        &&& forall|i: int|
            0 <= i < self.guardians.len() ==> (#[trigger] self.guardians[i]).well_formed()
        &&& match self.mfa_config {
            Some(config) => config.well_formed(),
            None => true,
        }
    }
}

impl ProgrammableUtxoView {
    /// The canonical encoding: identifier, value, framed script, height of
    /// creation, constraints, time of creation.
    pub open spec fn encoding(self) -> Seq<u8> {
        self.id.encoding() + le_bytes(self.value as nat, 8) + framed(self.script_pubkey)
            + le_bytes(self.block_height as nat, 4) + self.metadata.encoding() + le_bytes(
            self.creation_timestamp as nat,
            8,
        )
    }

    /// Whether a program can hold the output.
    pub open spec fn well_formed(self) -> bool {
        &&& self.id.tx_hash.len() == 32
        &&& self.script_pubkey.len() <= u64::MAX
        &&& self.metadata.well_formed()
    }
}

/// A guardian, and the rest.
pub open spec fn decode_guardian(bytes: Seq<u8>) -> Option<(GuardianView, Seq<u8>)> {
    match decode_framed(bytes) {
        Some((public_key, rest)) => match decode_u32(rest) {
            Some((confirmation_period, rest)) => match decode_u32(rest) {
                Some((weight, rest)) => Some(
                    (GuardianView { public_key, confirmation_period, weight }, rest),
                ),
                None => None,
            },
            None => None,
        },
        None => None,
    }
}

/// An authentication method, and the rest.
pub open spec fn decode_method(bytes: Seq<u8>) -> Option<(AuthMethodView, Seq<u8>)> {
    match decode_u32(bytes) {
        Some((tag, rest)) => {
            if tag == 0 {
                match decode_framed(rest) {
                    Some((public_key, rest)) => Some(
                        (AuthMethodView::HardwareKey { public_key }, rest),
                    ),
                    None => None,
                }
            } else if tag <= 3 {
                match take(rest, 32) {
                    Some((hash, rest)) => Some(
                        (
                            if tag == 1 {
                                AuthMethodView::Biometric { template_hash: hash }
                            } else if tag == 2 {
                                AuthMethodView::Totp { shared_secret_hash: hash }
                            } else {
                                AuthMethodView::Sms { phone_hash: hash }
                            },
                            rest,
                        ),
                    ),
                    None => None,
                }
            } else {
                None
            }
        },
        None => None,
    }
}

/// A multi-factor configuration, and the rest.
pub open spec fn decode_mfa(bytes: Seq<u8>) -> Option<(MfaView, Seq<u8>)> {
    match decode_u32(bytes) {
        Some((required_factors, rest)) => match decode_u64(rest) {
            Some((count, rest)) => match decode_list(
                rest,
                count as nat,
                |b: Seq<u8>| decode_method(b),
            ) {
                Some((methods, rest)) => Some((MfaView { required_factors, methods }, rest)),
                None => None,
            },
            None => None,
        },
        None => None,
    }
}

/// The kind of time lock that a number stands for.
pub open spec fn lock_of_tag(tag: u32) -> Option<TimeLockType> {
    if tag == 0 {
        Some(TimeLockType::BlockHeight)
    } else if tag == 1 {
        Some(TimeLockType::Timestamp)
    } else if tag == 2 {
        Some(TimeLockType::RelativeBlocks)
    } else if tag == 3 {
        Some(TimeLockType::RelativeTime)
    } else {
        None
    }
}

/// A time lock, and the rest.
pub open spec fn decode_time_lock(bytes: Seq<u8>) -> Option<(TimeLock, Seq<u8>)> {
    match decode_u32(bytes) {
        Some((tag, rest)) => match lock_of_tag(tag) {
            Some(lock_type) => match decode_u64(rest) {
                Some((value, rest)) => Some((TimeLock { lock_type, value }, rest)),
                None => None,
            },
            None => None,
        },
        None => None,
    }
}

/// A rate limit, and the rest.
pub open spec fn decode_rate_limit(bytes: Seq<u8>) -> Option<(RateLimit, Seq<u8>)> {
    match decode_u64(bytes) {
        Some((max_value_per_window, rest)) => match decode_u64(rest) {
            Some((window_seconds, rest)) => match decode_u64(rest) {
                Some((current_window_start, rest)) => match decode_u64(rest) {
                    Some((spent_in_window, rest)) => Some(
                        (
                            RateLimit {
                                max_value_per_window,
                                window_seconds,
                                current_window_start,
                                spent_in_window,
                            },
                            rest,
                        ),
                    ),
                    None => None,
                },
                None => None,
            },
            None => None,
        },
        None => None,
    }
}

/// An optional part, decoded by `part` where it is present, and the rest.
pub open spec fn decode_optional<T>(
    bytes: Seq<u8>,
    part: spec_fn(Seq<u8>) -> Option<(T, Seq<u8>)>,
) -> Option<(Option<T>, Seq<u8>)> {
    if bytes.len() == 0 {
        None
    } else if bytes[0] == 0 {
        Some((None, bytes.skip(1)))
    } else if bytes[0] == 1 {
        match part(bytes.skip(1)) {
            Some((value, rest)) => Some((Some(value), rest)),
            None => None,
        }
    } else {
        None
    }
}

/// The time locks and the optional rate limit, and the rest.
pub open spec fn decode_limits(bytes: Seq<u8>) -> Option<
    ((Seq<TimeLock>, Option<RateLimit>), Seq<u8>),
> {
    match decode_u64(bytes) {
        Some((lock_count, rest)) => match decode_list(
            rest,
            lock_count as nat,
            |b: Seq<u8>| decode_time_lock(b),
        ) {
            Some((time_locks, rest)) => match decode_optional(
                rest,
                |b: Seq<u8>| decode_rate_limit(b),
            ) {
                Some((rate_limits, rest)) => Some(((time_locks, rate_limits), rest)),
                None => None,
            },
            None => None,
        },
        None => None,
    }
}

/// The constraints of an output, and the rest.
pub open spec fn decode_metadata(bytes: Seq<u8>) -> Option<(MetadataView, Seq<u8>)> {
    match decode_u64(bytes) {
        Some((guardian_count, rest)) => match decode_list(
            rest,
            guardian_count as nat,
            |b: Seq<u8>| decode_guardian(b),
        ) {
            Some((guardians, rest)) => match decode_optional(rest, |b: Seq<u8>| decode_mfa(b)) {
                Some((mfa_config, rest)) => match decode_limits(rest) {
                    Some(((time_locks, rate_limits), rest)) => Some(
                        (MetadataView { guardians, mfa_config, time_locks, rate_limits }, rest),
                    ),
                    None => None,
                },
                None => None,
            },
            None => None,
        },
        None => None,
    }
}

/// A programmable output, and the rest.
pub open spec fn decode_programmable(bytes: Seq<u8>) -> Option<(ProgrammableUtxoView, Seq<u8>)> {
    match decode_utxo_id(bytes) {
        Some((id, rest)) => match decode_u64(rest) {
            Some((value, rest)) => match decode_framed(rest) {
                Some((script_pubkey, rest)) => match decode_u32(rest) {
                    Some((block_height, rest)) => match decode_metadata(rest) {
                        Some((metadata, rest)) => match decode_u64(rest) {
                            Some((creation_timestamp, rest)) => Some(
                                (
                                    ProgrammableUtxoView {
                                        id,
                                        value,
                                        script_pubkey,
                                        block_height,
                                        metadata,
                                        creation_timestamp,
                                    },
                                    rest,
                                ),
                            ),
                            None => None,
                        },
                        None => None,
                    },
                    None => None,
                },
                None => None,
            },
            None => None,
        },
        None => None,
    }
}

/// Every programmable output that a program holds is well formed.
pub proof fn lemma_programmable_is_well_formed(utxo: ProgrammableUtxo)
    ensures
        utxo@.well_formed(),
{
    let metadata = utxo.metadata;
    assert(utxo.id.tx_hash.0@.len() == 32);
    assert(utxo.script_pubkey.code.len() == utxo.script_pubkey.code@.len());
    assert(metadata.guardians.len() == metadata.guardians@.len());
    assert(metadata.time_locks.len() == metadata.time_locks@.len());
    assert forall|i: int| 0 <= i < metadata@.guardians.len() implies (
    #[trigger] metadata@.guardians[i]).well_formed() by {
        let guardian = metadata.guardians@[i];
        assert(metadata@.guardians[i] == guardian@);
        assert(guardian.public_key.len() == guardian.public_key@.len());
    }
    match metadata.mfa_config {
        Some(config) => {
            assert(config.methods.len() == config.methods@.len());
            assert forall|i: int| 0 <= i < config@.methods.len() implies (
            #[trigger] config@.methods[i]).well_formed() by {
                let method = config.methods@[i];
                assert(config@.methods[i] == method@);
                match method {
                    AuthMethod::HardwareKey { public_key } => {
                        assert(public_key.len() == public_key@.len());
                    },
                    AuthMethod::Biometric { template_hash } => {
                        assert(template_hash@.len() == 32);
                    },
                    AuthMethod::Totp { shared_secret_hash } => {
                        assert(shared_secret_hash@.len() == 32);
                    },
                    AuthMethod::Sms { phone_hash } => {
                        assert(phone_hash@.len() == 32);
                    },
                }
            }
        },
        None => {},
    }
}

/// A guardian decodes from its encoding.
pub proof fn lemma_guardian_round_trip(guardian: GuardianView, rest: Seq<u8>)
    requires
        guardian.well_formed(),
    ensures
        decode_guardian(guardian.encoding() + rest) == Some((guardian, rest)),
{
    let tail1 = le_bytes(guardian.weight as nat, 4) + rest;
    let tail0 = le_bytes(guardian.confirmation_period as nat, 4) + tail1;
    assert(guardian.encoding() + rest =~= framed(guardian.public_key) + tail0);
    lemma_framed_round_trip(guardian.public_key, tail0);
    lemma_u32_round_trip(guardian.confirmation_period, tail1);
    lemma_u32_round_trip(guardian.weight, rest);
}

/// An authentication method decodes from its encoding.
pub proof fn lemma_method_round_trip(method: AuthMethodView, rest: Seq<u8>)
    requires
        method.well_formed(),
    ensures
        decode_method(method.encoding() + rest) == Some((method, rest)),
{
    match method {
        AuthMethodView::HardwareKey { public_key } => {
            assert(method.encoding() + rest =~= le_bytes(0, 4) + (framed(public_key) + rest));
            lemma_u32_round_trip(0, framed(public_key) + rest);
            lemma_framed_round_trip(public_key, rest);
        },
        AuthMethodView::Biometric { template_hash } => {
            assert(method.encoding() + rest =~= le_bytes(1, 4) + (template_hash + rest));
            lemma_u32_round_trip(1, template_hash + rest);
            lemma_take_prefix(template_hash, rest);
        },
        AuthMethodView::Totp { shared_secret_hash } => {
            assert(method.encoding() + rest =~= le_bytes(2, 4) + (shared_secret_hash + rest));
            lemma_u32_round_trip(2, shared_secret_hash + rest);
            lemma_take_prefix(shared_secret_hash, rest);
        },
        AuthMethodView::Sms { phone_hash } => {
            assert(method.encoding() + rest =~= le_bytes(3, 4) + (phone_hash + rest));
            lemma_u32_round_trip(3, phone_hash + rest);
            lemma_take_prefix(phone_hash, rest);
        },
    }
}

/// A multi-factor configuration decodes from its encoding.
pub proof fn lemma_mfa_round_trip(config: MfaView, rest: Seq<u8>)
    requires
        config.well_formed(),
    ensures
        decode_mfa(config.encoding() + rest) == Some((config, rest)),
{
    let encode = |method: AuthMethodView| method.encoding();
    let item = |b: Seq<u8>| decode_method(b);
    let methods = concat_encodings(config.methods, encode);
    let tail0 = le_bytes(config.methods.len(), 8) + (methods + rest);
    assert(config.encoding() + rest =~= le_bytes(config.required_factors as nat, 4) + tail0);
    lemma_u32_round_trip(config.required_factors, tail0);
    lemma_u64_round_trip(config.methods.len() as u64, methods + rest);
    assert forall|i: int, after: Seq<u8>| 0 <= i < config.methods.len() implies #[trigger] item(
        encode(config.methods[i]) + after,
    ) == Some((config.methods[i], after)) by {
        lemma_method_round_trip(config.methods[i], after);
    }
    lemma_list_round_trip(config.methods, encode, item, rest);
}

/// A time lock decodes from its encoding.
pub proof fn lemma_time_lock_round_trip(lock: TimeLock, rest: Seq<u8>)
    ensures
        decode_time_lock(time_lock_encoding(lock) + rest) == Some((lock, rest)),
{
    let tail = le_bytes(lock.value as nat, 8) + rest;
    assert(time_lock_encoding(lock) + rest =~= le_bytes(lock_tag(lock.lock_type) as nat, 4)
        + tail);
    lemma_u32_round_trip(lock_tag(lock.lock_type), tail);
    lemma_u64_round_trip(lock.value, rest);
}

/// A rate limit decodes from its encoding.
pub proof fn lemma_rate_limit_round_trip(limit: RateLimit, rest: Seq<u8>)
    ensures
        decode_rate_limit(rate_limit_encoding(limit) + rest) == Some((limit, rest)),
{
    let tail2 = le_bytes(limit.spent_in_window as nat, 8) + rest;
    let tail1 = le_bytes(limit.current_window_start as nat, 8) + tail2;
    let tail0 = le_bytes(limit.window_seconds as nat, 8) + tail1;
    assert(rate_limit_encoding(limit) + rest =~= le_bytes(limit.max_value_per_window as nat, 8)
        + tail0);
    lemma_u64_round_trip(limit.max_value_per_window, tail0);
    lemma_u64_round_trip(limit.window_seconds, tail1);
    lemma_u64_round_trip(limit.current_window_start, tail2);
    lemma_u64_round_trip(limit.spent_in_window, rest);
}

/// An optional part decodes from its encoding, where the part does.
pub proof fn lemma_optional_round_trip<T>(
    value: Option<T>,
    encode: spec_fn(T) -> Seq<u8>,
    part: spec_fn(Seq<u8>) -> Option<(T, Seq<u8>)>,
    rest: Seq<u8>,
)
    requires
        value matches Some(v) ==> part(encode(v) + rest) == Some((v, rest)),
    ensures
        decode_optional(
            optional(
                match value {
                    Some(v) => Some(encode(v)),
                    None => None,
                },
            ) + rest,
            part,
        ) == Some((value, rest)),
{
    match value {
        Some(v) => {
            let all = (seq![1u8] + encode(v)) + rest;
            assert(all.skip(1) =~= encode(v) + rest);
            assert(all[0] == 1u8);
        },
        None => {
            let all = seq![0u8] + rest;
            assert(all.skip(1) =~= rest);
            assert(all[0] == 0u8);
        },
    }
}

/// Time locks and an optional rate limit decode from their encoding.
pub proof fn lemma_limits_round_trip(
    time_locks: Seq<TimeLock>,
    rate_limits: Option<RateLimit>,
    rest: Seq<u8>,
)
    requires
        time_locks.len() <= u64::MAX,
    ensures
        decode_limits(limits_encoding(time_locks, rate_limits) + rest) == Some(
            ((time_locks, rate_limits), rest),
        ),
{
    let encode_lock = |lock: TimeLock| time_lock_encoding(lock);
    let item_lock = |b: Seq<u8>| decode_time_lock(b);
    let encode_limit = |limit: RateLimit| rate_limit_encoding(limit);
    let part_limit = |b: Seq<u8>| decode_rate_limit(b);
    let limit_bytes = optional(
        match rate_limits {
            Some(limit) => Some(encode_limit(limit)),
            None => None,
        },
    );
    let tail = limit_bytes + rest;
    let locks = concat_encodings(time_locks, encode_lock);
    assert(limits_encoding(time_locks, rate_limits) + rest =~= le_bytes(time_locks.len(), 8) + (
    locks + tail));
    lemma_u64_round_trip(time_locks.len() as u64, locks + tail);
    assert forall|i: int, after: Seq<u8>| 0 <= i < time_locks.len() implies #[trigger] item_lock(
        encode_lock(time_locks[i]) + after,
    ) == Some((time_locks[i], after)) by {
        lemma_time_lock_round_trip(time_locks[i], after);
    }
    lemma_list_round_trip(time_locks, encode_lock, item_lock, tail);
    match rate_limits {
        Some(limit) => {
            lemma_rate_limit_round_trip(limit, rest);
        },
        None => {},
    }
    lemma_optional_round_trip(rate_limits, encode_limit, part_limit, rest);
}

/// The constraints of an output decode from their encoding.
pub proof fn lemma_metadata_round_trip(metadata: MetadataView, rest: Seq<u8>)
    requires
        metadata.well_formed(),
    ensures
        decode_metadata(metadata.encoding() + rest) == Some((metadata, rest)),
{
    let encode_guardian = |guardian: GuardianView| guardian.encoding();
    let item_guardian = |b: Seq<u8>| decode_guardian(b);
    let encode_mfa = |config: MfaView| config.encoding();
    let part_mfa = |b: Seq<u8>| decode_mfa(b);
    let mfa_bytes = optional(
        match metadata.mfa_config {
            Some(config) => Some(encode_mfa(config)),
            None => None,
        },
    );
    let tail2 = limits_encoding(metadata.time_locks, metadata.rate_limits) + rest;
    let tail1 = mfa_bytes + tail2;
    let guardians = concat_encodings(metadata.guardians, encode_guardian);
    assert(metadata.encoding() + rest =~= le_bytes(metadata.guardians.len(), 8) + (guardians
        + tail1));
    lemma_u64_round_trip(metadata.guardians.len() as u64, guardians + tail1);
    assert forall|i: int, after: Seq<u8>|
        0 <= i < metadata.guardians.len() implies #[trigger] item_guardian(
        encode_guardian(metadata.guardians[i]) + after,
    ) == Some((metadata.guardians[i], after)) by {
        lemma_guardian_round_trip(metadata.guardians[i], after);
    }
    lemma_list_round_trip(metadata.guardians, encode_guardian, item_guardian, tail1);
    match metadata.mfa_config {
        Some(config) => {
            lemma_mfa_round_trip(config, tail2);
        },
        None => {},
    }
    lemma_optional_round_trip(metadata.mfa_config, encode_mfa, part_mfa, tail2);
    lemma_limits_round_trip(metadata.time_locks, metadata.rate_limits, rest);
}

/// A programmable output decodes from its encoding.
pub proof fn lemma_programmable_round_trip(utxo: ProgrammableUtxoView, rest: Seq<u8>)
    requires
        utxo.well_formed(),
    ensures
        decode_programmable(utxo.encoding() + rest) == Some((utxo, rest)),
{
    let tail4 = le_bytes(utxo.creation_timestamp as nat, 8) + rest;
    let tail3 = utxo.metadata.encoding() + tail4;
    let tail2 = le_bytes(utxo.block_height as nat, 4) + tail3;
    let tail1 = framed(utxo.script_pubkey) + tail2;
    let tail0 = le_bytes(utxo.value as nat, 8) + tail1;
    assert(utxo.encoding() + rest =~= utxo.id.encoding() + tail0);
    lemma_utxo_id_round_trip(utxo.id, tail0);
    lemma_u64_round_trip(utxo.value, tail1);
    lemma_framed_round_trip(utxo.script_pubkey, tail2);
    lemma_u32_round_trip(utxo.block_height, tail3);
    lemma_metadata_round_trip(utxo.metadata, tail4);
    lemma_u64_round_trip(utxo.creation_timestamp, rest);
}

/// Bytes from which a guardian decodes begin with its encoding.
pub proof fn lemma_guardian_sound(bytes: Seq<u8>)
    requires
        decode_guardian(bytes) is Some,
    ensures
        bytes == decode_guardian(bytes).unwrap().0.encoding() + decode_guardian(bytes).unwrap().1,
{
    let b1 = decode_framed(bytes).unwrap().1;
    let b2 = decode_u32(b1).unwrap().1;
    lemma_framed_sound(bytes);
    lemma_u32_sound(b1);
    lemma_u32_sound(b2);
    let guardian = decode_guardian(bytes).unwrap().0;
    let rest = decode_guardian(bytes).unwrap().1;
    assert(bytes =~= guardian.encoding() + rest);
}

/// Bytes from which an authentication method decodes begin with its
/// encoding.
pub proof fn lemma_method_sound(bytes: Seq<u8>)
    requires
        decode_method(bytes) is Some,
    ensures
        bytes == decode_method(bytes).unwrap().0.encoding() + decode_method(bytes).unwrap().1,
{
    let tag = decode_u32(bytes).unwrap().0;
    let b1 = decode_u32(bytes).unwrap().1;
    lemma_u32_sound(bytes);
    if tag == 0 {
        lemma_framed_sound(b1);
    } else {
        lemma_take_sound(b1, 32);
    }
    let method = decode_method(bytes).unwrap().0;
    let rest = decode_method(bytes).unwrap().1;
    assert(bytes =~= method.encoding() + rest);
}

/// Bytes from which a list of methods decodes begin with their encodings.
pub proof fn lemma_methods_sound(bytes: Seq<u8>, count: nat)
    requires
        decode_list(bytes, count, |b: Seq<u8>| decode_method(b)) is Some,
    ensures
        ({
            let decoded = decode_list(bytes, count, |b: Seq<u8>| decode_method(b)).unwrap();
            &&& bytes == concat_encodings(decoded.0, |method: AuthMethodView| method.encoding())
                + decoded.1
            &&& decoded.0.len() == count
        }),
{
    let encode = |method: AuthMethodView| method.encoding();
    let item = |b: Seq<u8>| decode_method(b);
    assert forall|b: Seq<u8>| #[trigger] item(b) is Some implies b == encode(item(b).unwrap().0)
        + item(b).unwrap().1 by {
        lemma_method_sound(b);
    }
    lemma_list_sound(bytes, count, encode, item);
}

/// Bytes from which a multi-factor configuration decodes begin with its
/// encoding.
pub proof fn lemma_mfa_sound(bytes: Seq<u8>)
    requires
        decode_mfa(bytes) is Some,
    ensures
        bytes == decode_mfa(bytes).unwrap().0.encoding() + decode_mfa(bytes).unwrap().1,
{
    let b1 = decode_u32(bytes).unwrap().1;
    let count = decode_u64(b1).unwrap().0;
    let b2 = decode_u64(b1).unwrap().1;
    lemma_u32_sound(bytes);
    lemma_u64_sound(b1);
    lemma_methods_sound(b2, count as nat);
    let config = decode_mfa(bytes).unwrap().0;
    let rest = decode_mfa(bytes).unwrap().1;
    let part1 = le_bytes(config.required_factors as nat, 4);
    let part2 = le_bytes(config.methods.len(), 8);
    let part3 = concat_encodings(config.methods, |method: AuthMethodView| method.encoding());
    assert(b2 == part3 + rest);
    assert(b1 == part2 + b2);
    assert(bytes == part1 + b1);
    assert((part1 + part2 + part3) + rest =~= part1 + (part2 + (part3 + rest)));
}

/// Bytes from which a time lock decodes begin with its encoding.
pub proof fn lemma_time_lock_sound(bytes: Seq<u8>)
    requires
        decode_time_lock(bytes) is Some,
    ensures
        bytes == time_lock_encoding(decode_time_lock(bytes).unwrap().0) + decode_time_lock(
            bytes,
        ).unwrap().1,
{
    let b1 = decode_u32(bytes).unwrap().1;
    lemma_u32_sound(bytes);
    lemma_u64_sound(b1);
    let lock = decode_time_lock(bytes).unwrap().0;
    let rest = decode_time_lock(bytes).unwrap().1;
    assert(bytes =~= time_lock_encoding(lock) + rest);
}

/// Bytes from which a rate limit decodes begin with its encoding.
pub proof fn lemma_rate_limit_sound(bytes: Seq<u8>)
    requires
        decode_rate_limit(bytes) is Some,
    ensures
        bytes == rate_limit_encoding(decode_rate_limit(bytes).unwrap().0) + decode_rate_limit(
            bytes,
        ).unwrap().1,
{
    let b1 = decode_u64(bytes).unwrap().1;
    let b2 = decode_u64(b1).unwrap().1;
    let b3 = decode_u64(b2).unwrap().1;
    lemma_u64_sound(bytes);
    lemma_u64_sound(b1);
    lemma_u64_sound(b2);
    lemma_u64_sound(b3);
    let limit = decode_rate_limit(bytes).unwrap().0;
    let rest = decode_rate_limit(bytes).unwrap().1;
    assert(bytes =~= rate_limit_encoding(limit) + rest);
}

/// Bytes from which time locks and an optional rate limit decode begin
/// with their encoding.
pub proof fn lemma_limits_sound(bytes: Seq<u8>)
    requires
        decode_limits(bytes) is Some,
    ensures
        ({
            let decoded = decode_limits(bytes).unwrap();
            let parts = decoded.0;
            bytes == limits_encoding(parts.0, parts.1) + decoded.1
        }),
{
    let encode = |lock: TimeLock| time_lock_encoding(lock);
    let item = |b: Seq<u8>| decode_time_lock(b);
    let count = decode_u64(bytes).unwrap().0;
    let b1 = decode_u64(bytes).unwrap().1;
    let b2 = decode_list(b1, count as nat, item).unwrap().1;
    let decoded = decode_limits(bytes).unwrap();
    let parts = decoded.0;
    let rest = decoded.1;
    lemma_u64_sound(bytes);
    assert forall|b: Seq<u8>| #[trigger] item(b) is Some implies b == encode(item(b).unwrap().0)
        + item(b).unwrap().1 by {
        lemma_time_lock_sound(b);
    }
    lemma_list_sound(b1, count as nat, encode, item);
    let tail = optional(
        match parts.1 {
            Some(limit) => Some(rate_limit_encoding(limit)),
            None => None,
        },
    );
    assert(b2 == tail + rest) by {
        if b2[0] == 1 {
            lemma_rate_limit_sound(b2.skip(1));
            assert(b2 =~= seq![1u8] + b2.skip(1));
            assert(b2 =~= (seq![1u8] + rate_limit_encoding(parts.1.unwrap())) + rest);
        } else {
            assert(b2 =~= seq![0u8] + b2.skip(1));
        }
    }
    let part1 = le_bytes(parts.0.len(), 8);
    let part2 = concat_encodings(parts.0, encode);
    assert(b1 == part2 + b2);
    assert(bytes == part1 + b1);
    assert((part1 + part2 + tail) + rest =~= part1 + (part2 + (tail + rest)));
}

/// Bytes from which a list of guardians decodes begin with their
/// encodings.
pub proof fn lemma_guardians_sound(bytes: Seq<u8>, count: nat)
    requires
        decode_list(bytes, count, |b: Seq<u8>| decode_guardian(b)) is Some,
    ensures
        ({
            let decoded = decode_list(bytes, count, |b: Seq<u8>| decode_guardian(b)).unwrap();
            &&& bytes == concat_encodings(
                decoded.0,
                |guardian: GuardianView| guardian.encoding(),
            ) + decoded.1
            &&& decoded.0.len() == count
        }),
{
    let encode = |guardian: GuardianView| guardian.encoding();
    let item = |b: Seq<u8>| decode_guardian(b);
    assert forall|b: Seq<u8>| #[trigger] item(b) is Some implies b == encode(item(b).unwrap().0)
        + item(b).unwrap().1 by {
        lemma_guardian_sound(b);
    }
    lemma_list_sound(bytes, count, encode, item);
}

/// Bytes from which the constraints of an output decode begin with their
/// encoding.
pub proof fn lemma_metadata_sound(bytes: Seq<u8>)
    requires
        decode_metadata(bytes) is Some,
    ensures
        bytes == decode_metadata(bytes).unwrap().0.encoding() + decode_metadata(bytes).unwrap().1,
{
    let count = decode_u64(bytes).unwrap().0;
    let b1 = decode_u64(bytes).unwrap().1;
    let b2 = decode_list(b1, count as nat, |b: Seq<u8>| decode_guardian(b)).unwrap().1;
    let b3 = decode_optional(b2, |b: Seq<u8>| decode_mfa(b)).unwrap().1;
    let metadata = decode_metadata(bytes).unwrap().0;
    let rest = decode_metadata(bytes).unwrap().1;
    lemma_u64_sound(bytes);
    lemma_guardians_sound(b1, count as nat);
    lemma_limits_sound(b3);
    let mfa_bytes = optional(
        match metadata.mfa_config {
            Some(config) => Some(config.encoding()),
            None => None,
        },
    );
    assert(b2 == mfa_bytes + b3) by {
        if b2[0] == 1 {
            lemma_mfa_sound(b2.skip(1));
            assert(b2 =~= seq![1u8] + b2.skip(1));
            assert(b2 =~= (seq![1u8] + metadata.mfa_config.unwrap().encoding()) + b3);
        } else {
            assert(b2 =~= seq![0u8] + b2.skip(1));
        }
    }
    let part1 = le_bytes(metadata.guardians.len(), 8);
    let part2 = concat_encodings(metadata.guardians, |guardian: GuardianView| guardian.encoding());
    let part4 = limits_encoding(metadata.time_locks, metadata.rate_limits);
    assert(b3 == part4 + rest);
    assert(b1 == part2 + b2);
    assert(bytes == part1 + b1);
    assert((part1 + part2 + mfa_bytes + part4) + rest =~= part1 + (part2 + (mfa_bytes + (part4
        + rest))));
}

/// Bytes from which a programmable output decodes begin with its encoding.
pub proof fn lemma_programmable_sound(bytes: Seq<u8>)
    requires
        decode_programmable(bytes) is Some,
    ensures
        bytes == decode_programmable(bytes).unwrap().0.encoding() + decode_programmable(
            bytes,
        ).unwrap().1,
{
    let b1 = decode_utxo_id(bytes).unwrap().1;
    let b2 = decode_u64(b1).unwrap().1;
    let b3 = decode_framed(b2).unwrap().1;
    let b4 = decode_u32(b3).unwrap().1;
    let b5 = decode_metadata(b4).unwrap().1;
    let utxo = decode_programmable(bytes).unwrap().0;
    let rest = decode_programmable(bytes).unwrap().1;
    lemma_utxo_id_sound(bytes);
    lemma_u64_sound(b1);
    lemma_framed_sound(b2);
    lemma_u32_sound(b3);
    lemma_metadata_sound(b4);
    lemma_u64_sound(b5);
    let part1 = utxo.id.encoding();
    let part2 = le_bytes(utxo.value as nat, 8);
    let part3 = framed(utxo.script_pubkey);
    let part4 = le_bytes(utxo.block_height as nat, 4);
    let part5 = utxo.metadata.encoding();
    let part6 = le_bytes(utxo.creation_timestamp as nat, 8);
    assert(b5 == part6 + rest);
    assert(b4 == part5 + b5);
    assert(b3 == part4 + b4);
    assert(b2 == part3 + b3);
    assert(b1 == part2 + b2);
    assert(bytes == part1 + b1);
    assert(utxo.encoding() == part1 + part2 + part3 + part4 + part5 + part6);
    lemma_join_six(part1, part2, part3, part4, part5, part6, rest);
}

/// Six byte strings and a rest joined from the left are those joined from
/// the right.
proof fn lemma_join_six(
    a: Seq<u8>,
    b: Seq<u8>,
    c: Seq<u8>,
    d: Seq<u8>,
    e: Seq<u8>,
    f: Seq<u8>,
    rest: Seq<u8>,
)
    ensures
        (a + b + c + d + e + f) + rest == a + (b + (c + (d + (e + (f + rest))))),
{
    assert((a + b + c + d + e + f) + rest =~= a + (b + (c + (d + (e + (f + rest))))));
}

impl GuardianConfig {
    /// Appends the canonical encoding to `out`.
    pub fn encode_into(&self, out: &mut Vec<u8>)
        ensures
            final(out)@ == old(out)@ + self@.encoding(),
    {
        let ghost before = out@;
        push_framed(out, self.public_key.as_slice());
        push_u32(out, self.confirmation_period);
        push_u32(out, self.weight);
        assert(out@ =~= before + self@.encoding());
    }
}

impl AuthMethod {
    /// Appends the canonical encoding to `out`.
    pub fn encode_into(&self, out: &mut Vec<u8>)
        ensures
            final(out)@ == old(out)@ + self@.encoding(),
    {
        let ghost before = out@;
        match self {
            AuthMethod::HardwareKey { public_key } => {
                push_u32(out, 0);
                push_framed(out, public_key.as_slice());
            },
            AuthMethod::Biometric { template_hash } => {
                push_u32(out, 1);
                push_bytes(out, template_hash.as_slice());
            },
            AuthMethod::Totp { shared_secret_hash } => {
                push_u32(out, 2);
                push_bytes(out, shared_secret_hash.as_slice());
            },
            AuthMethod::Sms { phone_hash } => {
                push_u32(out, 3);
                push_bytes(out, phone_hash.as_slice());
            },
        }
        assert(out@ =~= before + self@.encoding());
    }
}

fn encode_time_lock(lock: &TimeLock, out: &mut Vec<u8>)
    ensures
        final(out)@ == old(out)@ + time_lock_encoding(*lock),
{
    let ghost before = out@;
    let tag: u32 = match lock.lock_type {
        TimeLockType::BlockHeight => 0,
        TimeLockType::Timestamp => 1,
        TimeLockType::RelativeBlocks => 2,
        TimeLockType::RelativeTime => 3,
    };
    push_u32(out, tag);
    push_u64(out, lock.value);
    assert(out@ =~= before + time_lock_encoding(*lock));
}

fn encode_rate_limit(limit: &RateLimit, out: &mut Vec<u8>)
    ensures
        final(out)@ == old(out)@ + rate_limit_encoding(*limit),
{
    let ghost before = out@;
    push_u64(out, limit.max_value_per_window);
    push_u64(out, limit.window_seconds);
    push_u64(out, limit.current_window_start);
    push_u64(out, limit.spent_in_window);
    assert(out@ =~= before + rate_limit_encoding(*limit));
}

fn encode_guardians(items: &Vec<GuardianConfig>, out: &mut Vec<u8>)
    ensures
        final(out)@ == old(out)@ + concat_encodings(guardian_views(items@), |guardian: GuardianView| guardian.encoding()),
{
    let ghost views = guardian_views(items@);
    let ghost encode = |guardian: GuardianView| guardian.encoding();
    let mut i: usize = 0;
    assert(views.subrange(0, 0) =~= Seq::<GuardianView>::empty());
    assert(out@ + concat_encodings(views.subrange(0, 0), encode) =~= out@);
    while i < items.len()
        invariant
            i <= items@.len(),
            views == guardian_views(items@),
            encode == |guardian: GuardianView| guardian.encoding(),
            out@ == old(out)@ + concat_encodings(views.subrange(0, i as int), encode),
        decreases items@.len() - i,
    {
        let ghost before = out@;
        items[i].encode_into(out);
        proof {
            let next = views.subrange(0, i as int + 1);
            assert(next.drop_last() =~= views.subrange(0, i as int));
            assert(next.last() == views[i as int]);
            assert(out@ =~= before + encode(views[i as int]));
            assert(out@ =~= old(out)@ + concat_encodings(next, encode));
        }
        i += 1;
    }
    assert(views.subrange(0, items@.len() as int) =~= views);
}

fn encode_methods(items: &Vec<AuthMethod>, out: &mut Vec<u8>)
    ensures
        final(out)@ == old(out)@ + concat_encodings(method_views(items@), |method: AuthMethodView| method.encoding()),
{
    let ghost views = method_views(items@);
    let ghost encode = |method: AuthMethodView| method.encoding();
    let mut i: usize = 0;
    assert(views.subrange(0, 0) =~= Seq::<AuthMethodView>::empty());
    assert(out@ + concat_encodings(views.subrange(0, 0), encode) =~= out@);
    while i < items.len()
        invariant
            i <= items@.len(),
            views == method_views(items@),
            encode == |method: AuthMethodView| method.encoding(),
            out@ == old(out)@ + concat_encodings(views.subrange(0, i as int), encode),
        decreases items@.len() - i,
    {
        let ghost before = out@;
        items[i].encode_into(out);
        proof {
            let next = views.subrange(0, i as int + 1);
            assert(next.drop_last() =~= views.subrange(0, i as int));
            assert(next.last() == views[i as int]);
            assert(out@ =~= before + encode(views[i as int]));
            assert(out@ =~= old(out)@ + concat_encodings(next, encode));
        }
        i += 1;
    }
    assert(views.subrange(0, items@.len() as int) =~= views);
}

fn encode_time_locks(items: &Vec<TimeLock>, out: &mut Vec<u8>)
    ensures
        final(out)@ == old(out)@ + concat_encodings(items@, |lock: TimeLock| time_lock_encoding(lock)),
{
    let ghost views = items@;
    let ghost encode = |lock: TimeLock| time_lock_encoding(lock);
    let mut i: usize = 0;
    assert(views.subrange(0, 0) =~= Seq::<TimeLock>::empty());
    assert(out@ + concat_encodings(views.subrange(0, 0), encode) =~= out@);
    while i < items.len()
        invariant
            i <= items@.len(),
            views == items@,
            encode == |lock: TimeLock| time_lock_encoding(lock),
            out@ == old(out)@ + concat_encodings(views.subrange(0, i as int), encode),
        decreases items@.len() - i,
    {
        let ghost before = out@;
        encode_time_lock(&items[i], out);
        proof {
            let next = views.subrange(0, i as int + 1);
            assert(next.drop_last() =~= views.subrange(0, i as int));
            assert(next.last() == views[i as int]);
            assert(out@ =~= before + encode(views[i as int]));
            assert(out@ =~= old(out)@ + concat_encodings(next, encode));
        }
        i += 1;
    }
    assert(views.subrange(0, items@.len() as int) =~= views);
}

impl MfaConfig {
    /// Appends the canonical encoding to `out`.
    pub fn encode_into(&self, out: &mut Vec<u8>)
        ensures
            final(out)@ == old(out)@ + self@.encoding(),
    {
        let ghost before = out@;
        push_u32(out, self.required_factors);
        push_u64(out, self.methods.len() as u64);
        encode_methods(&self.methods, out);
        assert(out@ =~= before + self@.encoding());
    }
}

impl UtxoMetadata {
    /// Appends the canonical encoding to `out`.
    pub fn encode_into(&self, out: &mut Vec<u8>)
        ensures
            final(out)@ == old(out)@ + self@.encoding(),
    {
        let ghost before = out@;
        push_u64(out, self.guardians.len() as u64);
        encode_guardians(&self.guardians, out);
        match &self.mfa_config {
            Some(config) => {
                out.push(1u8);
                config.encode_into(out);
            },
            None => {
                out.push(0u8);
            },
        }
        let ghost middle = out@;
        push_u64(out, self.time_locks.len() as u64);
        encode_time_locks(&self.time_locks, out);
        match &self.rate_limits {
            Some(limit) => {
                out.push(1u8);
                encode_rate_limit(limit, out);
            },
            None => {
                out.push(0u8);
            },
        }
        assert(out@ =~= middle + limits_encoding(self@.time_locks, self@.rate_limits));
        assert(out@ =~= before + self@.encoding());
    }

    /// The canonical encoding.
    pub fn serialize(&self) -> (r: Vec<u8>)
        ensures
            r@ == self@.encoding(),
    {
        let mut out: Vec<u8> = Vec::new();
        self.encode_into(&mut out);
        assert(Seq::<u8>::empty() + self@.encoding() =~= self@.encoding());
        out
    }
}

impl ProgrammableUtxo {
    /// The canonical encoding, from which the output decodes again.
    pub fn serialize(&self) -> (r: Vec<u8>)
        ensures
            r@ == self@.encoding(),
            decode_programmable(r@) == Some((self@, Seq::<u8>::empty())),
    {
        let mut out: Vec<u8> = Vec::new();
        push_bytes(&mut out, self.id.to_bytes().as_slice());
        push_u64(&mut out, self.value);
        push_framed(&mut out, self.script_pubkey.data());
        push_u32(&mut out, self.block_height);
        self.metadata.encode_into(&mut out);
        push_u64(&mut out, self.creation_timestamp);
        proof {
            assert(out@ =~= self@.encoding());
            assert(self@.encoding() + Seq::<u8>::empty() =~= self@.encoding());
            lemma_programmable_is_well_formed(*self);
            lemma_programmable_round_trip(self@, Seq::empty());
        }
        out
    }
}

fn read_guardian(data: &[u8], pos: usize) -> (r: Option<(GuardianConfig, usize)>)
    requires
        pos <= data@.len(),
    ensures
        reads(data@, pos, r, |v: GuardianConfig| v@, decode_guardian(data@.skip(pos as int))),
{
    let (public_key, next) = match read_framed(data, pos) {
        Some(read) => read,
        None => {
            return None;
        },
    };
    let (confirmation_period, next) = match read_u32(data, next) {
        Some(read) => read,
        None => {
            return None;
        },
    };
    let (weight, next) = match read_u32(data, next) {
        Some(read) => read,
        None => {
            return None;
        },
    };
    Some((GuardianConfig { public_key, confirmation_period, weight }, next))
}

fn read_method(data: &[u8], pos: usize) -> (r: Option<(AuthMethod, usize)>)
    requires
        pos <= data@.len(),
    ensures
        reads(data@, pos, r, |v: AuthMethod| v@, decode_method(data@.skip(pos as int))),
{
    let (tag, next) = match read_u32(data, pos) {
        Some(read) => read,
        None => {
            return None;
        },
    };
    if tag == 0 {
        match read_framed(data, next) {
            Some((public_key, next)) => Some((AuthMethod::HardwareKey { public_key }, next)),
            None => None,
        }
    } else if tag <= 3 {
        match read_hash(data, next) {
            Some((hash, next)) => {
                if tag == 1 {
                    Some((AuthMethod::Biometric { template_hash: hash }, next))
                } else if tag == 2 {
                    Some((AuthMethod::Totp { shared_secret_hash: hash }, next))
                } else {
                    Some((AuthMethod::Sms { phone_hash: hash }, next))
                }
            },
            None => None,
        }
    } else {
        None
    }
}

fn read_time_lock(data: &[u8], pos: usize) -> (r: Option<(TimeLock, usize)>)
    requires
        pos <= data@.len(),
    ensures
        reads(data@, pos, r, |v: TimeLock| v, decode_time_lock(data@.skip(pos as int))),
{
    let (tag, next) = match read_u32(data, pos) {
        Some(read) => read,
        None => {
            return None;
        },
    };
    let lock_type = if tag == 0 {
        TimeLockType::BlockHeight
    } else if tag == 1 {
        TimeLockType::Timestamp
    } else if tag == 2 {
        TimeLockType::RelativeBlocks
    } else if tag == 3 {
        TimeLockType::RelativeTime
    } else {
        return None;
    };
    match read_u64(data, next) {
        Some((value, next)) => Some((TimeLock { lock_type, value }, next)),
        None => None,
    }
}

fn read_rate_limit(data: &[u8], pos: usize) -> (r: Option<(RateLimit, usize)>)
    requires
        pos <= data@.len(),
    ensures
        reads(data@, pos, r, |v: RateLimit| v, decode_rate_limit(data@.skip(pos as int))),
{
    let (max_value_per_window, next) = match read_u64(data, pos) {
        Some(read) => read,
        None => {
            return None;
        },
    };
    let (window_seconds, next) = match read_u64(data, next) {
        Some(read) => read,
        None => {
            return None;
        },
    };
    let (current_window_start, next) = match read_u64(data, next) {
        Some(read) => read,
        None => {
            return None;
        },
    };
    let (spent_in_window, next) = match read_u64(data, next) {
        Some(read) => read,
        None => {
            return None;
        },
    };
    Some(
        (
            RateLimit { max_value_per_window, window_seconds, current_window_start, spent_in_window },
            next,
        ),
    )
}

fn read_guardians(data: &[u8], pos: usize, count: u64) -> (r: Option<(Vec<GuardianConfig>, usize)>)
    requires
        pos <= data@.len(),
    ensures
        reads(
            data@,
            pos,
            r,
            |v: Vec<GuardianConfig>| guardian_views(v@),
            decode_list(data@.skip(pos as int), count as nat, |b: Seq<u8>| decode_guardian(b)),
        ),
{
    let ghost item = |b: Seq<u8>| decode_guardian(b);
    let ghost view_of = |v: Vec<GuardianConfig>| guardian_views(v@);
    let mut items: Vec<GuardianConfig> = Vec::new();
    let mut next: usize = pos;
    let mut done: u64 = 0;
    proof {
        assert(view_of(items) =~= Seq::<GuardianView>::empty());
    }
    while done < count
        invariant
            done <= count,
            pos <= next <= data@.len(),
            item == |b: Seq<u8>| decode_guardian(b),
            view_of == |v: Vec<GuardianConfig>| guardian_views(v@),
            decode_list(data@.skip(pos as int), done as nat, item) == Some(
                (view_of(items), data@.skip(next as int)),
            ),
        decreases count - done,
    {
        proof {
            lemma_decode_list_split(data@.skip(pos as int), done as nat, 1, item);
            lemma_decode_list_split(
                data@.skip(pos as int),
                done as nat + 1,
                (count - done - 1) as nat,
                item,
            );
            lemma_decode_list_split(
                data@.skip(pos as int),
                done as nat,
                (count - done) as nat,
                item,
            );
            lemma_decode_list_split(data@.skip(next as int), 1, (count - done - 1) as nat, item);
        }
        let ghost before = items;
        match read_guardian(data, next) {
            Some((value, after)) => {
                let ghost value_view = value@;
                items.push(value);
                proof {
                    assert(decode_list(data@.skip(after as int), 0, item) == Some(
                        (Seq::<GuardianView>::empty(), data@.skip(after as int)),
                    ));
                    assert(item(data@.skip(next as int)) == Some(
                        (value_view, data@.skip(after as int)),
                    ));
                    assert(decode_list(data@.skip(next as int), 1, item) == Some(
                        (seq![value_view] + Seq::<GuardianView>::empty(), data@.skip(after as int)),
                    ));
                    assert(view_of(items) =~= view_of(before) + (seq![value_view] + Seq::<
                        GuardianView,
                    >::empty()));
                }
                next = after;
            },
            None => {
                return None;
            },
        }
        done += 1;
    }
    Some((items, next))
}

fn read_methods(data: &[u8], pos: usize, count: u64) -> (r: Option<(Vec<AuthMethod>, usize)>)
    requires
        pos <= data@.len(),
    ensures
        reads(
            data@,
            pos,
            r,
            |v: Vec<AuthMethod>| method_views(v@),
            decode_list(data@.skip(pos as int), count as nat, |b: Seq<u8>| decode_method(b)),
        ),
{
    let ghost item = |b: Seq<u8>| decode_method(b);
    let ghost view_of = |v: Vec<AuthMethod>| method_views(v@);
    let mut items: Vec<AuthMethod> = Vec::new();
    let mut next: usize = pos;
    let mut done: u64 = 0;
    proof {
        assert(view_of(items) =~= Seq::<AuthMethodView>::empty());
    }
    while done < count
        invariant
            done <= count,
            pos <= next <= data@.len(),
            item == |b: Seq<u8>| decode_method(b),
            view_of == |v: Vec<AuthMethod>| method_views(v@),
            decode_list(data@.skip(pos as int), done as nat, item) == Some(
                (view_of(items), data@.skip(next as int)),
            ),
        decreases count - done,
    {
        proof {
            lemma_decode_list_split(data@.skip(pos as int), done as nat, 1, item);
            lemma_decode_list_split(
                data@.skip(pos as int),
                done as nat + 1,
                (count - done - 1) as nat,
                item,
            );
            lemma_decode_list_split(
                data@.skip(pos as int),
                done as nat,
                (count - done) as nat,
                item,
            );
            lemma_decode_list_split(data@.skip(next as int), 1, (count - done - 1) as nat, item);
        }
        let ghost before = items;
        match read_method(data, next) {
            Some((value, after)) => {
                let ghost value_view = value@;
                items.push(value);
                proof {
                    assert(decode_list(data@.skip(after as int), 0, item) == Some(
                        (Seq::<AuthMethodView>::empty(), data@.skip(after as int)),
                    ));
                    assert(item(data@.skip(next as int)) == Some(
                        (value_view, data@.skip(after as int)),
                    ));
                    assert(decode_list(data@.skip(next as int), 1, item) == Some(
                        (seq![value_view] + Seq::<AuthMethodView>::empty(), data@.skip(after as int)),
                    ));
                    assert(view_of(items) =~= view_of(before) + (seq![value_view] + Seq::<
                        AuthMethodView,
                    >::empty()));
                }
                next = after;
            },
            None => {
                return None;
            },
        }
        done += 1;
    }
    Some((items, next))
}

fn read_time_locks(data: &[u8], pos: usize, count: u64) -> (r: Option<(Vec<TimeLock>, usize)>)
    requires
        pos <= data@.len(),
    ensures
        reads(
            data@,
            pos,
            r,
            |v: Vec<TimeLock>| v@,
            decode_list(data@.skip(pos as int), count as nat, |b: Seq<u8>| decode_time_lock(b)),
        ),
{
    let ghost item = |b: Seq<u8>| decode_time_lock(b);
    let ghost view_of = |v: Vec<TimeLock>| v@;
    let mut items: Vec<TimeLock> = Vec::new();
    let mut next: usize = pos;
    let mut done: u64 = 0;
    proof {
        assert(view_of(items) =~= Seq::<TimeLock>::empty());
    }
    while done < count
        invariant
            done <= count,
            pos <= next <= data@.len(),
            item == |b: Seq<u8>| decode_time_lock(b),
            view_of == |v: Vec<TimeLock>| v@,
            decode_list(data@.skip(pos as int), done as nat, item) == Some(
                (view_of(items), data@.skip(next as int)),
            ),
        decreases count - done,
    {
        proof {
            lemma_decode_list_split(data@.skip(pos as int), done as nat, 1, item);
            lemma_decode_list_split(
                data@.skip(pos as int),
                done as nat + 1,
                (count - done - 1) as nat,
                item,
            );
            lemma_decode_list_split(
                data@.skip(pos as int),
                done as nat,
                (count - done) as nat,
                item,
            );
            lemma_decode_list_split(data@.skip(next as int), 1, (count - done - 1) as nat, item);
        }
        let ghost before = items;
        match read_time_lock(data, next) {
            Some((value, after)) => {
                let ghost value_view = value;
                items.push(value);
                proof {
                    assert(decode_list(data@.skip(after as int), 0, item) == Some(
                        (Seq::<TimeLock>::empty(), data@.skip(after as int)),
                    ));
                    assert(item(data@.skip(next as int)) == Some(
                        (value_view, data@.skip(after as int)),
                    ));
                    assert(decode_list(data@.skip(next as int), 1, item) == Some(
                        (seq![value_view] + Seq::<TimeLock>::empty(), data@.skip(after as int)),
                    ));
                    assert(view_of(items) =~= view_of(before) + (seq![value_view] + Seq::<
                        TimeLock,
                    >::empty()));
                }
                next = after;
            },
            None => {
                return None;
            },
        }
        done += 1;
    }
    Some((items, next))
}

fn read_mfa(data: &[u8], pos: usize) -> (r: Option<(MfaConfig, usize)>)
    requires
        pos <= data@.len(),
    ensures
        reads(data@, pos, r, |v: MfaConfig| v@, decode_mfa(data@.skip(pos as int))),
{
    let (required_factors, next) = match read_u32(data, pos) {
        Some(read) => read,
        None => {
            return None;
        },
    };
    let (count, next) = match read_u64(data, next) {
        Some(read) => read,
        None => {
            return None;
        },
    };
    match read_methods(data, next, count) {
        Some((methods, next)) => Some((MfaConfig { required_factors, methods }, next)),
        None => None,
    }
}

/// The tag of an optional part at `pos`: whether the part is present, and
/// the position after the tag.
fn read_presence(data: &[u8], pos: usize) -> (r: Option<(bool, usize)>)
    requires
        pos <= data@.len(),
    ensures
        match r {
            Some((present, next)) => {
                &&& pos < data@.len()
                &&& next == pos + 1
                &&& data@[pos as int] == if present {
                    1u8
                } else {
                    0u8
                }
            },
            None => pos == data@.len() || data@[pos as int] > 1,
        },
{
    if pos == data.len() {
        return None;
    }
    let tag = data[pos];
    if tag == 0 {
        Some((false, pos + 1))
    } else if tag == 1 {
        Some((true, pos + 1))
    } else {
        None
    }
}

fn read_metadata(data: &[u8], pos: usize) -> (r: Option<(UtxoMetadata, usize)>)
    requires
        pos <= data@.len(),
    ensures
        reads(data@, pos, r, |v: UtxoMetadata| v@, decode_metadata(data@.skip(pos as int))),
{
    let (guardian_count, next) = match read_u64(data, pos) {
        Some(read) => read,
        None => {
            return None;
        },
    };
    let (guardians, next) = match read_guardians(data, next, guardian_count) {
        Some(read) => read,
        None => {
            return None;
        },
    };
    proof {
        assert(data@.skip(next as int).len() == data@.len() - next);
        if next < data@.len() {
            assert(data@.skip(next as int)[0] == data@[next as int]);
            assert(data@.skip(next as int).skip(1) =~= data@.skip(next + 1));
        }
    }
    let (has_mfa, next) = match read_presence(data, next) {
        Some(read) => read,
        None => {
            return None;
        },
    };
    let (mfa_config, next) = if has_mfa {
        match read_mfa(data, next) {
            Some((config, next)) => (Some(config), next),
            None => {
                return None;
            },
        }
    } else {
        (None, next)
    };
    let (lock_count, next) = match read_u64(data, next) {
        Some(read) => read,
        None => {
            return None;
        },
    };
    let (time_locks, next) = match read_time_locks(data, next, lock_count) {
        Some(read) => read,
        None => {
            return None;
        },
    };
    proof {
        assert(data@.skip(next as int).len() == data@.len() - next);
        if next < data@.len() {
            assert(data@.skip(next as int)[0] == data@[next as int]);
            assert(data@.skip(next as int).skip(1) =~= data@.skip(next + 1));
        }
    }
    let (has_limit, next) = match read_presence(data, next) {
        Some(read) => read,
        None => {
            return None;
        },
    };
    let (rate_limits, next) = if has_limit {
        match read_rate_limit(data, next) {
            Some((limit, next)) => (Some(limit), next),
            None => {
                return None;
            },
        }
    } else {
        (None, next)
    };
    Some((UtxoMetadata { guardians, mfa_config, time_locks, rate_limits }, next))
}

impl UtxoMetadata {
    /// The constraints that `bytes` encode. Bytes that are not the
    /// encoding of one value, with nothing after it, are an error.
    pub fn deserialize(bytes: &[u8]) -> (r: BondResult<UtxoMetadata>)
        ensures
            match r {
                Ok(metadata) => {
                    &&& decode_metadata(bytes@) == Some((metadata@, Seq::<u8>::empty()))
                    &&& bytes@ == metadata@.encoding()
                },
                Err(e) => !decodes_whole(decode_metadata(bytes@)) && e@ == malformed(),
            },
    {
        assert(bytes@.skip(0) =~= bytes@);
        proof {
            if decode_metadata(bytes@) is Some {
                lemma_metadata_sound(bytes@);
                let value = decode_metadata(bytes@).unwrap().0;
                assert(value.encoding() + Seq::<u8>::empty() =~= value.encoding());
            }
        }
        match read_metadata(bytes, 0) {
            Some((metadata, next)) => {
                if next == bytes.len() {
                    assert(bytes@.skip(next as int) =~= Seq::<u8>::empty());
                    Ok(metadata)
                } else {
                    Err(malformed_error())
                }
            },
            None => Err(malformed_error()),
        }
    }
}

impl ProgrammableUtxo {
    /// The output that `bytes` encode. Bytes that are not the encoding of
    /// one output, with nothing after it, are an error.
    pub fn deserialize(bytes: &[u8]) -> (r: BondResult<ProgrammableUtxo>)
        ensures
            match r {
                Ok(utxo) => {
                    &&& decode_programmable(bytes@) == Some((utxo@, Seq::<u8>::empty()))
                    &&& bytes@ == utxo@.encoding()
                },
                Err(e) => !decodes_whole(decode_programmable(bytes@)) && e@ == malformed(),
            },
    {
        assert(bytes@.skip(0) =~= bytes@);
        proof {
            if decode_programmable(bytes@) is Some {
                lemma_programmable_sound(bytes@);
                let value = decode_programmable(bytes@).unwrap().0;
                assert(value.encoding() + Seq::<u8>::empty() =~= value.encoding());
            }
        }
        let (id, next) = match read_utxo_id(bytes, 0) {
            Some(read) => read,
            None => {
                return Err(malformed_error());
            },
        };
        let (value, next) = match read_u64(bytes, next) {
            Some(read) => read,
            None => {
                return Err(malformed_error());
            },
        };
        let (script, next) = match read_framed(bytes, next) {
            Some(read) => read,
            None => {
                return Err(malformed_error());
            },
        };
        let (block_height, next) = match read_u32(bytes, next) {
            Some(read) => read,
            None => {
                return Err(malformed_error());
            },
        };
        let (metadata, next) = match read_metadata(bytes, next) {
            Some(read) => read,
            None => {
                return Err(malformed_error());
            },
        };
        let (creation_timestamp, next) = match read_u64(bytes, next) {
            Some(read) => read,
            None => {
                return Err(malformed_error());
            },
        };
        if next == bytes.len() {
            assert(bytes@.skip(next as int) =~= Seq::<u8>::empty());
            Ok(
                ProgrammableUtxo {
                    id,
                    value,
                    script_pubkey: Script { code: script },
                    block_height,
                    metadata,
                    creation_timestamp,
                },
            )
        } else {
            Err(malformed_error())
        }
    }
}

} // verus!
