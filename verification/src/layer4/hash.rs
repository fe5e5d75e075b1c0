//! Deterministic hashes of bytes and text.
use crate::layer4::spread::{is_fnv_1a, lemma_only_fnv_1a, ByteHash};
use crate::net::hex_char;
use vstd::prelude::*;
use vstd::utf8::encode_utf8;

verus! {

/// The FNV-1a hash of bytes.
pub open spec fn fnv1a(bytes: Seq<u8>) -> u64
    decreases bytes.len(),
{
    if bytes.len() == 0 {
        0xcbf2_9ce4_8422_2325u64
    } else {
        (fnv1a(bytes.drop_last()) ^ (bytes.last() as u64)).wrapping_mul(0x100_0000_01b3u64)
    }
}

/// The FNV-1a hash of bytes.
pub fn stable_hash(bytes: &[u8]) -> (r: u64)
    ensures
        r == fnv1a(bytes@),
{
    let mut hash: u64 = 0xcbf2_9ce4_8422_2325;
    let mut i: usize = 0;
    while i < bytes.len()
        invariant
            i <= bytes@.len(),
            hash == fnv1a(bytes@.take(i as int)),
        decreases bytes@.len() - i,
    {
        let ghost next = bytes@.take(i + 1);
        assert(next.drop_last() == bytes@.take(i as int));
        assert(next.last() == bytes@[i as int]);
        hash = (hash ^ (bytes[i] as u64)).wrapping_mul(0x100_0000_01b3);
        i += 1;
    }
    assert(bytes@.take(i as int) == bytes@);
    hash
}

/// The finalizer of murmur3, which spreads every input bit over the result.
pub open spec fn finalized(hash: u64) -> u64 {
    let a = (hash ^ (hash >> 33u64)).wrapping_mul(0xff51_afd7_ed55_8ccdu64);
    let b = (a ^ (a >> 33u64)).wrapping_mul(0xc4ce_b9fe_1a85_ec53u64);
    b ^ (b >> 33u64)
}

/// The hash of keys and ring positions. FNV-1a alone is weak in the high bits for
/// inputs that share a long prefix, as client addresses do; the finalizer spreads
/// them.
pub open spec fn mixed(bytes: Seq<u8>) -> u64 {
    finalized(fnv1a(bytes))
}

/// The hash of keys and ring positions.
pub fn mixed_hash(bytes: &[u8]) -> (r: u64)
    ensures
        r == mixed(bytes@),
{
    let hash = stable_hash(bytes);
    let a = (hash ^ (hash >> 33u64)).wrapping_mul(0xff51_afd7_ed55_8ccd);
    let b = (a ^ (a >> 33u64)).wrapping_mul(0xc4ce_b9fe_1a85_ec53);
    b ^ (b >> 33u64)
}

/// The last `digits` hexadecimal digits of `n`, with leading zeros.
pub open spec fn padded_hex(n: nat, digits: nat) -> Seq<char>
    decreases digits,
{
    if digits == 0 {
        Seq::empty()
    } else {
        padded_hex(n / 16, (digits - 1) as nat).push(hex_char(n % 16))
    }
}

fn padded_hex_string(n: u64, digits: u32) -> (r: String)
    ensures
        r@ == padded_hex(n as nat, digits as nat),
    decreases digits,
{
    if digits == 0 {
        return String::new();
    }
    let mut r = padded_hex_string(n / 16, digits - 1);
    let d: u8 = (n % 16) as u8;
    let c = if d < 10 { ('0' as u8 + d) as char } else { ('a' as u8 + (d - 10)) as char };
    r.push(c);
    r
}

/// The key of a listener in the names of its upgrade files: its hash in sixteen
/// hexadecimal digits.
pub open spec fn listener_key(listener: Seq<char>) -> Seq<char> {
    padded_hex(fnv1a(encode_utf8(listener)) as nat, 16)
}

/// A short, filesystem-safe key for the upgrade files of one listener. An
/// address contains `:`, so it is hashed rather than escaped.
pub fn handoff_key(listener: &str) -> (r: String)
    ensures
        r@ == listener_key(listener@),
{
    padded_hex_string(stable_hash(listener.as_bytes()), 16)
}

/// Every key has sixteen characters, each a lower-case hexadecimal digit, so it
/// can stand in a file name.
pub proof fn keys_are_file_names(listener: Seq<char>)
    ensures
        listener_key(listener).len() == 16,
        forall|i: int|
            0 <= i < 16 ==> '0' <= #[trigger] listener_key(listener)[i] <= '9' || 'a'
                <= listener_key(listener)[i] <= 'f',
{
    lemma_padded_hex(fnv1a(encode_utf8(listener)) as nat, 16);
}

proof fn lemma_padded_hex(n: nat, digits: nat)
    ensures
        padded_hex(n, digits).len() == digits,
        forall|i: int|
            0 <= i < digits ==> '0' <= #[trigger] padded_hex(n, digits)[i] <= '9' || 'a'
                <= padded_hex(n, digits)[i] <= 'f',
    decreases digits,
{
    if digits > 0 {
        lemma_padded_hex(n / 16, (digits - 1) as nat);
        let front = padded_hex(n / 16, (digits - 1) as nat);
        assert forall|i: int| 0 <= i < digits implies '0' <= #[trigger] padded_hex(n, digits)[i]
            <= '9' || 'a' <= padded_hex(n, digits)[i] <= 'f' by {
            if i < digits - 1 {
                assert(padded_hex(n, digits)[i] == front[i]);
            }
        }
    }
}

/// The number that hexadecimal digits write.
pub open spec fn hex_number(digits: Seq<char>) -> nat
    decreases digits.len(),
{
    if digits.len() == 0 {
        0
    } else {
        let c = digits.last();
        hex_number(digits.drop_last()) * 16 + (if '0' <= c <= '9' {
            (c as nat - '0' as nat) as nat
        } else {
            (c as nat - 'a' as nat + 10) as nat
        })
    }
}

/// The key of a listener writes the FNV-1a hash of its address.
pub proof fn keys_are_hashes(listener: Seq<char>, h: ByteHash)
    requires
        is_fnv_1a(h),
    ensures
        hex_number(listener_key(listener)) == h(encode_utf8(listener)),
{
    let bytes = encode_utf8(listener);
    lemma_only_fnv_1a(h, bytes);
    reveal_with_fuel(sixteens, 17);
    assert(sixteens(16) == 0x1_0000_0000_0000_0000);
    lemma_hex_number(fnv1a(bytes) as nat, 16);
}

/// How many numbers there are of this many hexadecimal digits.
spec fn sixteens(digits: nat) -> nat
    decreases digits,
{
    if digits == 0 {
        1
    } else {
        16 * sixteens((digits - 1) as nat)
    }
}

proof fn lemma_hex_number(n: nat, digits: nat)
    requires
        n < sixteens(digits),
    ensures
        hex_number(padded_hex(n, digits)) == n,
    decreases digits,
{
    if digits > 0 {
        lemma_hex_number(n / 16, (digits - 1) as nat);
        let front = padded_hex(n / 16, (digits - 1) as nat);
        let all = padded_hex(n, digits);
        assert(all.drop_last() == front);
        assert(all.last() == hex_char(n % 16));
    }
}

} // verus!
