//! What is decided when the server starts: whether the identity file is to be
//! trusted, where a damaged database belongs, and when pruning begins.

use vstd::prelude::*;
use vstd::string::StringExecFns;

verus! {

// ---------------------------------------------------------------------------
// Identity
// ---------------------------------------------------------------------------

/// The length of the identity file: an Ed25519 key pair in bytes.
pub const IDENTITY_LEN: usize = 64;

/// The permissions with which the identity file is written: its owner may read
/// and write it, nobody else may do anything.
pub const IDENTITY_MODE: u32 = 0o600;

/// The permission bits that the identity file must not have.
pub const FORBIDDEN_MODE_BITS: u32 = 0o177;

/// Why an identity file is not used.
#[derive(Debug, Clone, Copy, PartialEq, Eq, Structural)]
pub enum IdentityError {
    /// Someone other than the owner has access, or the file can be executed.
    PermissionsTooOpen,
    /// The file is not 64 bytes long.
    Corrupt,
    /// The file holds no key pair.
    NotAKeypair,
}

/// Why an identity file is not used, by its permission bits and its length, if
/// there is a reason in them.
pub open spec fn identity_fault(mode: u32, len: nat) -> Option<IdentityError> {
    if mode & FORBIDDEN_MODE_BITS != 0 {
        Some(IdentityError::PermissionsTooOpen)
    } else if len != IDENTITY_LEN {
        Some(IdentityError::Corrupt)
    } else {
        None
    }
}

/// Decides whether an identity file is to be trusted, by its permission bits and
/// its length.
pub fn check_identity_file(mode: u32, len: usize) -> (result: Result<(), IdentityError>)
    ensures
        match result {
            Ok(()) => identity_fault(mode, len as nat) is None,
            Err(error) => identity_fault(mode, len as nat) == Some(error),
        },
        result is Ok <==> mode & 0o177 == 0 && len == 64,
        result == Err::<(), IdentityError>(IdentityError::PermissionsTooOpen) <==> mode & 0o177 != 0,
        result == Err::<(), IdentityError>(IdentityError::Corrupt) <==> mode & 0o177 == 0 && len != 64,
{
    if mode & FORBIDDEN_MODE_BITS != 0 {
        Err(IdentityError::PermissionsTooOpen)
    } else if len != IDENTITY_LEN {
        Err(IdentityError::Corrupt)
    } else {
        Ok(())
    }
}

/// A key pair of `libp2p`.
#[verifier::external_type_specification]
#[verifier::external_body]
pub struct ExKeypair(libp2p::identity::Keypair);

/// Whether bytes are an Ed25519 key pair: a secret key followed by the public key
/// that belongs to it.
pub uninterp spec fn is_keypair(bytes: Seq<u8>) -> bool;

/// The key pair that such bytes are.
pub uninterp spec fn keypair_of(bytes: Seq<u8>) -> libp2p::identity::Keypair;

/// Calls `libp2p::identity::ed25519::Keypair::try_from_bytes` and wraps the result
/// as a `libp2p::identity::Keypair`. Claims that whether it succeeds, and with which
/// key pair, are functions of the bytes, which `is_keypair` and `keypair_of` name,
/// and that it fails on any number of bytes but 64.
#[verifier::external_body]
fn keypair_from_bytes(bytes: Vec<u8>) -> (result: Option<libp2p::identity::Keypair>)
    ensures
        result is Some <==> is_keypair(bytes@),
        result matches Some(keypair) ==> keypair == keypair_of(bytes@),
        result is Some ==> bytes@.len() == 64,
{
    let mut bytes = bytes;
    libp2p::identity::ed25519::Keypair::try_from_bytes(&mut bytes).ok().map(|pair| pair.into())
}

/// Calls `libp2p::identity::ed25519::Keypair::generate` and `to_bytes`. Claims that
/// the bytes are 64, and those of the key pair, so that parsing them gives it back.
/// Which key pair it is rests on chance. The call panics where the operating system
/// has no source of randomness.
#[verifier::external_body]
fn random_keypair() -> (result: (libp2p::identity::Keypair, Vec<u8>))
    ensures
        result.1@.len() == 64,
        is_keypair(result.1@),
        result.0 == keypair_of(result.1@),
{
    let pair = libp2p::identity::ed25519::Keypair::generate();
    let bytes = pair.to_bytes().to_vec();
    (pair.into(), bytes)
}

/// The key pair in an identity file with these permission bits and this content, or
/// why the file is not used.
pub open spec fn identity_in(mode: u32, bytes: Seq<u8>) -> Result<libp2p::identity::Keypair, IdentityError> {
    match identity_fault(mode, bytes.len()) {
        Some(fault) => Err(fault),
        None => if is_keypair(bytes) {
            Ok(keypair_of(bytes))
        } else {
            Err(IdentityError::NotAKeypair)
        },
    }
}

/// Reads the server's key pair from an identity file with these permission bits
/// and this content.
pub fn load_keypair(mode: u32, bytes: Vec<u8>) -> (result: Result<libp2p::identity::Keypair, IdentityError>)
    ensures
        result == identity_in(mode, bytes@),
{
    if let Err(error) = check_identity_file(mode, bytes.len()) {
        return Err(error);
    }
    match keypair_from_bytes(bytes) {
        Some(keypair) => Ok(keypair),
        None => Err(IdentityError::NotAKeypair),
    }
}

/// Makes a new identity: a key pair, and the content of the file to keep it in.
/// Written with `IDENTITY_MODE`, the file is read as that key pair.
pub fn generate_identity() -> (identity: (libp2p::identity::Keypair, Vec<u8>))
    ensures
        identity.1@.len() == IDENTITY_LEN,
        is_keypair(identity.1@),
        identity.0 == keypair_of(identity.1@),
        identity_in(IDENTITY_MODE, identity.1@) == Ok::<libp2p::identity::Keypair, IdentityError>(identity.0),
{
    let (keypair, bytes) = random_keypair();
    proof {
        law_written_identity_is_read_back(keypair, bytes@);
    }
    (keypair, bytes)
}

/// A key pair that is written to the identity file is the one that the next start
/// reads from it.
pub proof fn law_written_identity_is_read_back(keypair: libp2p::identity::Keypair, bytes: Seq<u8>)
    requires
        bytes.len() == IDENTITY_LEN,
        is_keypair(bytes),
        keypair == keypair_of(bytes),
    ensures
        identity_in(IDENTITY_MODE, bytes) == Ok::<libp2p::identity::Keypair, IdentityError>(keypair),
{
    law_written_identity_is_trusted();
}

/// An identity file with the permissions and the length with which the server
/// writes it is one that it trusts.
pub proof fn law_written_identity_is_trusted()
    ensures
        identity_fault(IDENTITY_MODE, IDENTITY_LEN as nat) is None,
{
    assert(0o600u32 & 0o177u32 == 0) by (bit_vector);
}

// ---------------------------------------------------------------------------
// Recovery
// ---------------------------------------------------------------------------

/// The decimal digits of `n`.
pub open spec fn decimal(n: nat) -> Seq<char>
    decreases n,
{
    if n < 10 {
        seq![(0x30 + n) as char]
    } else {
        decimal(n / 10).push((0x30 + n % 10) as char)
    }
}

/// Appends the decimal digits of `n`, without leading zeros.
fn append_decimal(text: &mut String, n: u64)
    ensures
        final(text)@ == old(text)@ + decimal(n as nat),
    decreases n,
{
    if n >= 10 {
        append_decimal(text, n / 10);
    }
    text.append(digit_text(n % 10));
    assert(text@ =~= old(text)@ + decimal(n as nat));
}

/// The text of one decimal digit.
fn digit_text(n: u64) -> (text: &'static str)
    requires
        n < 10,
    ensures
        text@ == seq![(0x30 + n) as char],
{
    proof {
        reveal_strlit("0");
        reveal_strlit("1");
        reveal_strlit("2");
        reveal_strlit("3");
        reveal_strlit("4");
        reveal_strlit("5");
        reveal_strlit("6");
        reveal_strlit("7");
        reveal_strlit("8");
        reveal_strlit("9");
    }
    let text = match n {
        0 => "0",
        1 => "1",
        2 => "2",
        3 => "3",
        4 => "4",
        5 => "5",
        6 => "6",
        7 => "7",
        8 => "8",
        _ => "9",
    };
    assert(text@ =~= seq![(0x30 + n) as char]);
    text
}

/// Where a database at `path` that cannot be opened belongs, to be out of the way,
/// at the Unix time `now`.
pub fn backup_path(path: &str, now: u64) -> (backup: String)
    ensures
        backup@ == path@ + "_corrupted_"@ + decimal(now as nat),
{
    let mut backup = path.to_owned();
    backup.append("_corrupted_");
    append_decimal(&mut backup, now);
    backup
}

/// Databases that are moved away at different times go to different places.
pub proof fn law_backups_do_not_collide(path: Seq<char>, a: nat, b: nat)
    requires
        a != b,
    ensures
        path + "_corrupted_"@ + decimal(a) != path + "_corrupted_"@ + decimal(b),
{
    let front = path + "_corrupted_"@;
    lemma_decimal_injective(a, b);
    if front + decimal(a) == front + decimal(b) {
        let n = front.len() as int;
        assert((front + decimal(a)).skip(n) =~= decimal(a));
        assert((front + decimal(b)).skip(n) =~= decimal(b));
    }
}

proof fn lemma_decimal_injective(a: nat, b: nat)
    ensures
        decimal(a) == decimal(b) ==> a == b,
        decimal(a).len() > 0,
        a >= 10 ==> decimal(a).len() > 1,
    decreases a + b,
{
    if a >= 10 {
        lemma_decimal_injective(a / 10, b / 10);
    }
    if b >= 10 && a < 10 {
        lemma_decimal_injective(b / 10, 0);
    }
    if decimal(a) == decimal(b) {
        let digit_a = decimal(a).last();
        let digit_b = decimal(b).last();
        assert(digit_a == digit_b);
        if a >= 10 && b >= 10 {
            assert(decimal(a).drop_last() =~= decimal(a / 10));
            assert(decimal(b).drop_last() =~= decimal(b / 10));
        }
    }
}

// ---------------------------------------------------------------------------
// Pruning
// ---------------------------------------------------------------------------

/// Pruning begins within this many seconds of the start, at random, so that
/// servers that start together do not prune together.
pub const MAX_JITTER: u64 = 600;

/// Pruning is repeated after this many seconds.
pub const PRUNE_INTERVAL: u64 = 3600;

/// Calls `rand::random`. Nothing can be said of a random number. The call panics
/// where the operating system has no source of randomness.
#[verifier::external_body]
fn random_number() -> (number: u64)
{
    rand::random::<u64>()
}

/// The delay before the first prune, in seconds, for a random number.
pub fn jitter_from(number: u64) -> (delay: u64)
    ensures
        delay == number % MAX_JITTER,
        delay == number % 600,
{
    number % MAX_JITTER
}

/// A random delay before the first prune, in seconds.
pub fn startup_jitter() -> (delay: u64)
    ensures
        delay < MAX_JITTER,
        delay < 600,
{
    jitter_from(random_number())
}

// ---------------------------------------------------------------------------
// What is decided, by itself
// ---------------------------------------------------------------------------

/// An identity file is used exactly if none but its owner may do anything with it,
/// it cannot be executed, it is 64 bytes long and it holds a key pair. Which of
/// these fails first is what is reported.
pub proof fn law_which_identity_is_used(mode: u32, bytes: Seq<u8>)
    ensures
        ({
            let result = identity_in(mode, bytes);
            let private = mode % 0o200 == 0;
            &&& result == if !private {
                Err::<libp2p::identity::Keypair, IdentityError>(IdentityError::PermissionsTooOpen)
            } else if bytes.len() != 64 {
                Err::<libp2p::identity::Keypair, IdentityError>(IdentityError::Corrupt)
            } else if !is_keypair(bytes) {
                Err::<libp2p::identity::Keypair, IdentityError>(IdentityError::NotAKeypair)
            } else {
                Ok::<libp2p::identity::Keypair, IdentityError>(keypair_of(bytes))
            }
        }),
{
    assert(mode & 0o177 == mode % 0o200) by (bit_vector);
}

/// The number that decimal digits stand for.
pub open spec fn decimal_value(digits: Seq<char>) -> int
    decreases digits.len(),
{
    if digits.len() == 0 {
        0
    } else {
        10 * decimal_value(digits.drop_last()) + (digits.last() as int - '0' as int)
    }
}

/// A number that is written in decimal is written in digits, as short as can be, and
/// reads as that number.
pub proof fn law_decimal_is_read_back(n: nat)
    ensures
        decimal_value(decimal(n)) == n,
        decimal(n).len() > 0,
        forall|i: int| 0 <= i < decimal(n).len() ==> '0' <= #[trigger] decimal(n)[i] <= '9',
        decimal(n)[0] == '0' ==> n == 0 && decimal(n).len() == 1,
    decreases n,
{
    let digits = decimal(n);
    if n < 10 {
        assert(digits.drop_last() =~= Seq::<char>::empty());
        assert(decimal_value(digits.drop_last()) == 0);
    } else {
        law_decimal_is_read_back(n / 10);
        assert(digits.drop_last() =~= decimal(n / 10));
        assert(digits[0] == decimal(n / 10)[0]);
    }
}

/// The identity file is 64 bytes long and for its owner alone; pruning begins within
/// ten minutes and is repeated every hour.
pub proof fn law_numbers()
    ensures
        IDENTITY_LEN == 64,
        IDENTITY_MODE == 0o600,
        MAX_JITTER == 10 * 60,
        PRUNE_INTERVAL == 60 * 60,
{
}

} // verus!
