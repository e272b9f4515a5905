//! Key derivation: stretching a password into a 64-byte secret key by
//! repeated memory-hard hashing, reseeded each round with a salt chained
//! from the password itself. Derivation is deterministic on purpose: the
//! key must be reproducible from the password alone.

use vstd::prelude::*;
use crate::errors::ScrambleError;
use crate::hashing::{sha3, sha3_chain};

verus! {

/// Fixed production time cost of the memory-hard hash.
pub const A_TIME: u32 = 5;

/// Fixed production memory cost, in KiB.
pub const A_MEMORY: u32 = 2 * 1024 * 1024;

/// Fixed production degree of parallelism.
pub const A_PARALLELISM: u32 = 4;

/// Fixed production number of derivation rounds.
pub const ITERATIONS: u32 = 10;

/// The salt counter offset: round `i` chains the password `i + 580` times.
pub const SALT_OFFSET: u32 = 580;

#[verifier::external_type_specification]
#[verifier::external_body]
pub struct ExArgon2Error(argon2::Error);

/// The 64-byte Argon2id digest of the password under the given salt and
/// cost parameters (version 0x13): named, not spelled out; the hash itself
/// is the outside crate's work.
pub uninterp spec fn argon2id_of(
    password: Seq<u8>,
    salt: Seq<u8>,
    t_cost: u32,
    m_cost: u32,
    p_cost: u32,
) -> Seq<u8>;

/// Relies on argon2::Params::new and argon2::Argon2::hash_password_into,
/// with Algorithm::Argon2id, Version::V0x13 and a 64-byte output: the
/// digest is a function of password, salt and the three cost parameters
/// alone, and parameters outside the ranges Params::new documents (time
/// cost at least 1, parallelism between 1 and 2^24 - 1, memory cost at
/// least 8 blocks per lane) are rejected. An unusable password or salt
/// length is rejected the same way, and the call may also fail when the
/// memory blocks cannot be allocated, so success is never promised.
#[verifier::external_body]
fn argon2id_hash(password: &[u8], salt: &[u8], t_cost: u32, m_cost: u32, p_cost: u32) -> (r:
    Result<[u8; 64], argon2::Error>)
    ensures
        r matches Ok(k) ==> k@ == argon2id_of(password@, salt@, t_cost, m_cost, p_cost),
        !(t_cost >= 1 && 1 <= p_cost <= 0xffffff && m_cost >= 8 * p_cost) ==> r is Err,
{
    let params = match argon2::Params::new(m_cost, t_cost, p_cost, Some(64)) {
        Ok(p) => p,
        Err(e) => return Err(e),
    };
    let hasher = argon2::Argon2::new(argon2::Algorithm::Argon2id, argon2::Version::V0x13, params);
    let mut out = [0u8; 64];
    match hasher.hash_password_into(password, salt, &mut out) {
        Ok(()) => Ok(out),
        Err(e) => Err(e),
    }
}

/// The algorithm parameters of one derivation run. The production values
/// are fixed constants: changing any of them changes every derived key and
/// makes previously scrambled wallets unrecoverable. Alternate values
/// exist only so the core can be exercised with cheap parameters.
#[derive(Clone, Copy, PartialEq, Eq, Debug, Structural)]
pub struct KdfConfig {
    /// Time cost of the memory-hard hash.
    pub t_cost: u32,
    /// Memory cost of the memory-hard hash, in KiB.
    pub m_cost: u32,
    /// Degree of parallelism of the memory-hard hash.
    pub p_cost: u32,
    /// Number of derivation rounds.
    pub rounds: u32,
}

impl KdfConfig {
    /// Parameters the memory-hard hash accepts, with at least one round
    /// and room for the salt counter.
    pub open spec fn valid(self) -> bool {
        &&& self.t_cost >= 1
        &&& 1 <= self.p_cost <= 0xffffff
        &&& self.m_cost >= 8 * self.p_cost
        &&& 1 <= self.rounds
        &&& self.rounds + SALT_OFFSET <= u32::MAX
    }

    /// The fixed production configuration.
    pub fn production() -> (r: KdfConfig)
        ensures
            r == (KdfConfig {
                t_cost: A_TIME,
                m_cost: A_MEMORY,
                p_cost: A_PARALLELISM,
                rounds: ITERATIONS,
            }),
            r.valid(),
    {
        KdfConfig { t_cost: A_TIME, m_cost: A_MEMORY, p_cost: A_PARALLELISM, rounds: ITERATIONS }
    }
}

/// The salt of round `round`: the password chained through SHA3-512
/// `round + 580` times.
pub open spec fn round_salt(password: Seq<u8>, round: u32) -> Seq<u8> {
    sha3_chain(password, (round + SALT_OFFSET) as nat)
}

/// The derived secret key: each round hashes the password under its own
/// salt into the key buffer, so after the last round the key is the
/// digest of the final round. A function of the password and the
/// configuration alone.
pub open spec fn derive_key_spec(password: Seq<u8>, cfg: KdfConfig) -> Seq<u8> {
    argon2id_of(password, round_salt(password, cfg.rounds), cfg.t_cost, cfg.m_cost, cfg.p_cost)
}

/// One derivation round: the memory-hard digest of the password under the
/// salt of round `round`. The last round's digest is the derived key, so a
/// caller that reports progress between rounds can run them one by one and
/// keep the final result.
pub fn derive_key_round(password: &[u8], cfg: &KdfConfig, round: u32) -> (r: Result<
    [u8; 64],
    ScrambleError,
>)
    requires
        1 <= round <= cfg.rounds,
    ensures
        r matches Ok(k) ==> cfg.valid() && k@ == argon2id_of(
            password@,
            round_salt(password@, round),
            cfg.t_cost,
            cfg.m_cost,
            cfg.p_cost,
        ),
        r matches Err(e) ==> e == ScrambleError::ConfigurationError,
        !cfg.valid() ==> r is Err,
{
    let ok = cfg.t_cost >= 1 && cfg.p_cost >= 1 && cfg.p_cost <= 0xffffff && cfg.m_cost >= 8
        * cfg.p_cost && cfg.rounds >= 1 && cfg.rounds <= u32::MAX - SALT_OFFSET;
    if !ok {
        return Err(ScrambleError::ConfigurationError);
    }
    let counter = round + SALT_OFFSET;
    let salt = sha3(password, counter);
    match argon2id_hash(password, salt.as_slice(), cfg.t_cost, cfg.m_cost, cfg.p_cost) {
        Ok(k) => Ok(k),
        Err(_) => Err(ScrambleError::ConfigurationError),
    }
}

/// Derives the 64-byte secret key from the password: `cfg.rounds` rounds
/// of memory-hard hashing, round `i` salted with `sha3(password, i + 580)`.
/// Deterministic: the same password and configuration always give the same
/// key. An invalid configuration is reported, never hashed with; a failure
/// of the memory-hard hash itself is reported the same way.
pub fn derive_key(password: &[u8], cfg: &KdfConfig) -> (r: Result<[u8; 64], ScrambleError>)
    ensures
        r matches Ok(k) ==> cfg.valid() && k@ == derive_key_spec(password@, *cfg),
        r matches Err(e) ==> e == ScrambleError::ConfigurationError,
        !cfg.valid() ==> r is Err,
{
    let ok = cfg.t_cost >= 1 && cfg.p_cost >= 1 && cfg.p_cost <= 0xffffff && cfg.m_cost >= 8
        * cfg.p_cost && cfg.rounds >= 1 && cfg.rounds <= u32::MAX - SALT_OFFSET;
    if !ok {
        return Err(ScrambleError::ConfigurationError);
    }
    let rounds = cfg.rounds;
    let mut key: [u8; 64] = [0u8; 64];
    let mut i: u32 = 1;
    while i <= rounds
        invariant
            cfg.valid(),
            rounds == cfg.rounds,
            1 <= i <= rounds + 1,
            i > 1 ==> key@ == argon2id_of(
                password@,
                round_salt(password@, (i - 1) as u32),
                cfg.t_cost,
                cfg.m_cost,
                cfg.p_cost,
            ),
        decreases rounds + 1 - i,
    {
        key = match derive_key_round(password, cfg, i) {
            Ok(k) => k,
            Err(e) => {
                return Err(e);
            },
        };
        i = i + 1;
    }
    Ok(key)
}

/// Key derivation is deterministic: byte-identical passwords under the
/// same configuration give byte-identical keys, every time.
pub proof fn lemma_derive_key_deterministic(p1: Seq<u8>, p2: Seq<u8>, cfg: KdfConfig)
    requires
        p1 == p2,
    ensures
        derive_key_spec(p1, cfg) == derive_key_spec(p2, cfg),
{
}

/// Overwrites a sensitive buffer (a password, a key) with zeroes. The
/// caller runs this on every exit path before the buffer is dropped.
pub fn wipe(buf: &mut Vec<u8>)
    ensures
        final(buf)@.len() == old(buf)@.len(),
        forall|i: int| 0 <= i < final(buf)@.len() ==> final(buf)@[i] == 0u8,
{
    let n = buf.len();
    for i in 0..n
        invariant
            n == buf@.len(),
            forall|k: int| 0 <= k < i ==> buf@[k] == 0u8,
    {
        buf.set(i, 0);
    }
}

} // verus!
