//! Content representation: the text under which a file's bytes are stored.
//!
//! Two strategies exist and a run uses one of them for all its files: a
//! compact digest of the bytes, or the bytes themselves as base64 text.

use base64::Engine;
use vstd::prelude::*;
use vstd::string::*;

verus! {

/// How the content of a file is represented in its record.
#[derive(Clone, Copy, Debug, PartialEq, Eq, Structural)]
pub enum ContentStrategy {
    /// A 64-bit FNV-1a hash of the bytes, as sixteen lower-case hex digits.
    Digest,
    /// The bytes in base64, standard alphabet, padded.
    Inline,
}

/// Start value of the FNV-1a hash.
pub const FNV_OFFSET: u64 = 0xcbf2_9ce4_8422_2325;

/// Multiplier of the FNV-1a hash.
pub const FNV_PRIME: u64 = 0x0000_0100_0000_01b3;

/// One step of FNV-1a: mix the byte in, then multiply modulo 2^64.
pub open spec fn fnv1a_step(hash: u64, byte: u8) -> u64 {
    (hash ^ (byte as u64)).wrapping_mul(FNV_PRIME)
}

/// The FNV-1a hash of a byte sequence, taken from front to back.
pub open spec fn fnv1a(bytes: Seq<u8>) -> u64
    decreases bytes.len(),
{
    if bytes.len() == 0 {
        FNV_OFFSET
    } else {
        fnv1a_step(fnv1a(bytes.drop_last()), bytes.last())
    }
}

/// The sixteen hex digits, in order of their value.
pub open spec fn hex_alphabet() -> Seq<char> {
    "0123456789abcdef"@
}

/// The last `width` hex digits of `value`, most significant first, padded
/// with zeros in front.
pub open spec fn hex_digits(value: nat, width: nat) -> Seq<char>
    decreases width,
{
    if width == 0 {
        Seq::empty()
    } else {
        hex_digits(value / 16, (width - 1) as nat).push(hex_alphabet()[(value % 16) as int])
    }
}

/// The text of a digest: all sixteen hex digits of the hash.
pub open spec fn digest_text(bytes: Seq<u8>) -> Seq<char> {
    hex_digits(fnv1a(bytes) as nat, 16)
}

/// Number of characters in the base64 text of `n` bytes: four for every
/// three bytes begun.
pub open spec fn inline_length(n: nat) -> nat {
    (n / 3) * 4 + if n % 3 > 0 {
        4nat
    } else {
        0nat
    }
}

/// The base64 text of a byte sequence as the `base64` crate's standard engine
/// produces it.
pub uninterp spec fn base64_standard(bytes: Seq<u8>) -> Seq<char>;

/// The text that stands for the given bytes under the given strategy.
pub open spec fn representation(strategy: ContentStrategy, bytes: Seq<u8>) -> Seq<char> {
    match strategy {
        ContentStrategy::Digest => digest_text(bytes),
        ContentStrategy::Inline => base64_standard(bytes),
    }
}

/// Whether the bytes can be represented under the strategy on this machine:
/// the length of the inline text has to fit in `usize`.
pub open spec fn representable(strategy: ContentStrategy, len: nat) -> bool {
    strategy == ContentStrategy::Inline ==> inline_length(len) <= usize::MAX
}

/// Calls `Engine::encode` of the `base64` crate on its `STANDARD` engine.
/// The call panics when the length of the text overflows `usize`, so that
/// case is excluded. Nothing is claimed of the text but that it is the one
/// this engine gives for these bytes.
#[verifier::external_body]
fn encode_standard(bytes: &[u8]) -> (text: String)
    requires
        inline_length(bytes@.len()) <= usize::MAX,
    ensures
        text@ == base64_standard(bytes@),
{
    base64::engine::general_purpose::STANDARD.encode(bytes)
}

/// Computes the FNV-1a hash of the bytes.
pub fn fnv1a_hash(bytes: &[u8]) -> (hash: u64)
    ensures
        hash == fnv1a(bytes@),
{
    let mut hash: u64 = FNV_OFFSET;
    let mut i: usize = 0;
    while i < bytes.len()
        invariant
            i <= bytes.len(),
            hash == fnv1a(bytes@.take(i as int)),
        decreases bytes.len() - i,
    {
        proof {
            let next = bytes@.take(i as int + 1);
            assert(next.drop_last() =~= bytes@.take(i as int));
            assert(next.last() == bytes@[i as int]);
        }
        hash = (hash ^ (bytes[i] as u64)).wrapping_mul(FNV_PRIME);
        i += 1;
    }
    proof {
        assert(bytes@.take(i as int) =~= bytes@);
    }
    hash
}

/// Appends the last `width` hex digits of `value` to `out`.
fn push_hex(out: &mut String, value: u64, width: u8)
    ensures
        final(out)@ == old(out)@ + hex_digits(value as nat, width as nat),
    decreases width,
{
    if width > 0 {
        push_hex(out, value / 16, width - 1);
        let alphabet = "0123456789abcdef";
        proof {
            reveal_strlit("0123456789abcdef");
        }
        let d: usize = (value % 16) as usize;
        let digit = alphabet.substring_ascii(d, d + 1);
        out.append(digit);
        proof {
            let front = hex_digits((value / 16) as nat, (width - 1) as nat);
            assert(digit@ =~= seq![hex_alphabet()[d as int]]);
            assert(out@ =~= old(out)@ + front.push(hex_alphabet()[d as int]));
        }
    } else {
        proof {
            assert(out@ =~= old(out)@ + Seq::<char>::empty());
        }
    }
}

/// The digest text of the bytes: their FNV-1a hash in sixteen hex digits.
pub fn digest_of(bytes: &[u8]) -> (text: String)
    ensures
        text@ == digest_text(bytes@),
        text@.len() == 16,
{
    let hash = fnv1a_hash(bytes);
    let mut text = String::new();
    push_hex(&mut text, hash, 16);
    proof {
        lemma_hex_digits_len(hash as nat, 16);
        assert(text@ =~= hex_digits(hash as nat, 16));
    }
    text
}

/// `hex_digits` yields exactly `width` characters, each from the alphabet.
pub proof fn lemma_hex_digits_len(value: nat, width: nat)
    ensures
        hex_digits(value, width).len() == width,
        forall|i: int|
            0 <= i < width ==> hex_alphabet().contains(#[trigger] hex_digits(value, width)[i]),
    decreases width,
{
    if width > 0 {
        let front = hex_digits(value / 16, (width - 1) as nat);
        lemma_hex_digits_len(value / 16, (width - 1) as nat);
        reveal_strlit("0123456789abcdef");
        let d = (value % 16) as int;
        assert forall|i: int| 0 <= i < width implies hex_alphabet().contains(
            #[trigger] hex_digits(value, width)[i],
        ) by {
            if i < width - 1 {
                assert(hex_digits(value, width)[i] == front[i]);
            } else {
                assert(hex_digits(value, width)[i] == hex_alphabet()[d]);
            }
        }
    }
}

/// Whether `len` bytes can be represented under the strategy.
pub fn can_represent(strategy: ContentStrategy, len: usize) -> (ok: bool)
    ensures
        ok == representable(strategy, len as nat),
{
    match strategy {
        ContentStrategy::Digest => true,
        ContentStrategy::Inline => {
            let chunks = len / 3;
            let tail: usize = if len % 3 > 0 {
                4
            } else {
                0
            };
            chunks <= (usize::MAX - tail) / 4
        },
    }
}

/// The text that stands for the bytes under the strategy.
pub fn represent(strategy: ContentStrategy, bytes: &[u8]) -> (text: String)
    requires
        representable(strategy, bytes@.len()),
    ensures
        text@ == representation(strategy, bytes@),
{
    match strategy {
        ContentStrategy::Digest => digest_of(bytes),
        ContentStrategy::Inline => encode_standard(bytes),
    }
}

} // verus!
