//! Block ciphers, digests, randomness and hexadecimal text.
use vstd::prelude::*;
use aes::cipher::generic_array::GenericArray;
use aes::cipher::{BlockDecrypt, BlockEncrypt, KeyInit};
use aes::Aes128;
use rand::RngCore;
use sha2::{Digest, Sha256};
use crate::bytes::append_bytes;

verus! {

// ---------------------------------------------------------------------------
// Outside functions
// ---------------------------------------------------------------------------
/// The block that AES-128 makes of `block` under `key`.
pub uninterp spec fn aes128_encrypt(key: Seq<u8>, block: Seq<u8>) -> Seq<u8>;

/// The block that AES-128 makes `block` of under `key`.
pub uninterp spec fn aes128_decrypt(key: Seq<u8>, block: Seq<u8>) -> Seq<u8>;

/// The SHA-256 digest of `data`.
pub uninterp spec fn sha256_digest(data: Seq<u8>) -> Seq<u8>;

/// `aes::Aes128::encrypt_block`: encrypts one block. Trusted: the result depends
/// on the key and the block alone, and decrypting it gives the block back.
#[verifier::external_body]
pub(crate) fn aes128_encrypt_block(key: &[u8; 16], block: &[u8; 16]) -> (out: [u8; 16])
    ensures
        out@ == aes128_encrypt(key@, block@),
        aes128_decrypt(key@, out@) == block@,
{
    let mut out = GenericArray::clone_from_slice(block);
    Aes128::new(GenericArray::from_slice(key)).encrypt_block(&mut out);
    out.into()
}

/// `aes::Aes128::decrypt_block`: decrypts one block. Trusted: the result depends
/// on the key and the block alone, and encrypting it gives the block back.
#[verifier::external_body]
pub(crate) fn aes128_decrypt_block(key: &[u8; 16], block: &[u8; 16]) -> (out: [u8; 16])
    ensures
        out@ == aes128_decrypt(key@, block@),
        aes128_encrypt(key@, out@) == block@,
{
    let mut out = GenericArray::clone_from_slice(block);
    Aes128::new(GenericArray::from_slice(key)).decrypt_block(&mut out);
    out.into()
}

/// `sha2::Sha256::digest`: the digest of a byte string. Trusted: it depends on
/// the bytes alone.
#[verifier::external_body]
pub(crate) fn sha256(data: &[u8]) -> (out: [u8; 32])
    ensures
        out@ == sha256_digest(data@),
{
    Sha256::digest(data).into()
}

/// `rand::RngCore::fill_bytes` on `rand::rng()`: sixteen random bytes, of which
/// nothing is known.
#[verifier::external_body]
pub(crate) fn random_16() -> [u8; 16] {
    let mut value = [0u8; 16];
    rand::rng().fill_bytes(&mut value);
    value
}

// ---------------------------------------------------------------------------
// Hexadecimal text
// ---------------------------------------------------------------------------
/// The digit for `n`, below sixteen, in upper case.
pub open spec fn upper_hex_digit(n: int) -> char {
    if n < 10 {
        (48 + n) as u8 as char
    } else {
        (55 + n) as u8 as char
    }
}

/// The digit for `n`, below sixteen, in lower case.
pub open spec fn lower_hex_digit(n: int) -> char {
    if n < 10 {
        (48 + n) as u8 as char
    } else {
        (87 + n) as u8 as char
    }
}

/// Two upper-case digits for each byte.
pub open spec fn hex_upper(data: Seq<u8>) -> Seq<char> {
    Seq::new(
        2 * data.len(),
        |i: int|
            upper_hex_digit(
                if i % 2 == 0 {
                    data[i / 2] / 16
                } else {
                    data[i / 2] % 16
                } as int,
            ),
    )
}

/// Two lower-case digits for each byte.
pub open spec fn hex_lower(data: Seq<u8>) -> Seq<char> {
    Seq::new(
        2 * data.len(),
        |i: int|
            lower_hex_digit(
                if i % 2 == 0 {
                    data[i / 2] / 16
                } else {
                    data[i / 2] % 16
                } as int,
            ),
    )
}

/// The value of a hexadecimal digit in either case.
pub open spec fn hex_value(c: char) -> Option<int> {
    if '0' <= c && c <= '9' {
        Some(c as u32 - 48)
    } else if 'A' <= c && c <= 'F' {
        Some(c as u32 - 55)
    } else if 'a' <= c && c <= 'f' {
        Some(c as u32 - 87)
    } else {
        None
    }
}

/// The bytes that pairs of hexadecimal digits stand for.
pub open spec fn hex_bytes(text: Seq<char>) -> Option<Seq<u8>> {
    if text.len() % 2 == 0 && (forall|i: int|
        0 <= i < text.len() ==> hex_value(#[trigger] text[i]) is Some) {
        Some(
            Seq::new(
                text.len() / 2,
                |i: int|
                    (16 * hex_value(text[2 * i])->0 + hex_value(text[2 * i + 1])->0) as u8,
            ),
        )
    } else {
        None
    }
}

/// `hex::decode`: the bytes that the text writes, where it holds an even number
/// of hexadecimal digits and nothing else.
#[verifier::external_body]
pub(crate) fn hex_decode(text: &str) -> (out: Option<Vec<u8>>)
    ensures
        match out {
            Some(bytes) => hex_bytes(text@) == Some(bytes@),
            None => hex_bytes(text@) is None,
        },
{
    hex::decode(text).ok()
}

/// `hex::encode_upper`: two upper-case digits for each byte.
#[verifier::external_body]
pub(crate) fn hex_encode_upper(data: &[u8]) -> (out: String)
    ensures
        out@ == hex_upper(data@),
{
    hex::encode_upper(data)
}

/// Hexadecimal text decodes to the bytes it was made of, in either case.
pub proof fn hex_round_trip(data: Seq<u8>)
    ensures
        hex_bytes(hex_upper(data)) == Some(data),
        hex_bytes(hex_lower(data)) == Some(data),
{
    let up = hex_upper(data);
    let low = hex_lower(data);
    assert forall|i: int| 0 <= i < up.len() implies hex_value(#[trigger] up[i]) == Some(
        if i % 2 == 0 {
            data[i / 2] / 16
        } else {
            data[i / 2] % 16
        } as int,
    ) by {}
    assert forall|i: int| 0 <= i < low.len() implies hex_value(#[trigger] low[i]) == Some(
        if i % 2 == 0 {
            data[i / 2] / 16
        } else {
            data[i / 2] % 16
        } as int,
    ) by {}
    assert(hex_bytes(up)->0 =~= data);
    assert(hex_bytes(low)->0 =~= data);
}

// ---------------------------------------------------------------------------
// Blocks
// ---------------------------------------------------------------------------
/// The `j`-th block of sixteen bytes.
pub open spec fn block(data: Seq<u8>, j: int) -> Seq<u8> {
    data.subrange(16 * j, 16 * j + 16)
}

/// Byte by byte exclusive or of two blocks.
pub open spec fn xor_block(a: Seq<u8>, b: Seq<u8>) -> Seq<u8> {
    Seq::new(16, |i: int| a[i] ^ b[i])
}

/// Every block of `data` encrypted on its own.
pub open spec fn ecb_encrypt(key: Seq<u8>, data: Seq<u8>) -> Seq<u8> {
    Seq::new(data.len(), |i: int| aes128_encrypt(key, block(data, i / 16))[i % 16])
}

/// Every block of `data` decrypted on its own.
pub open spec fn ecb_decrypt(key: Seq<u8>, data: Seq<u8>) -> Seq<u8> {
    Seq::new(data.len(), |i: int| aes128_decrypt(key, block(data, i / 16))[i % 16])
}

/// Cipher block chaining: each block is combined with the encrypted block before
/// it, the first with `iv`, and then encrypted.
pub open spec fn cbc_encrypt(key: Seq<u8>, iv: Seq<u8>, data: Seq<u8>) -> Seq<u8>
    decreases data.len(),
{
    if data.len() < 16 {
        Seq::empty()
    } else {
        let first = aes128_encrypt(key, xor_block(data.take(16), iv));
        first + cbc_encrypt(key, first, data.skip(16))
    }
}

/// Cipher block chaining undone: each block is decrypted and then combined with
/// the encrypted block before it, the first with `iv`.
pub open spec fn cbc_decrypt(key: Seq<u8>, iv: Seq<u8>, data: Seq<u8>) -> Seq<u8> {
    Seq::new(
        data.len(),
        |i: int|
            aes128_decrypt(key, block(data, i / 16))[i % 16] ^ (if i < 16 {
                iv[i]
            } else {
                data[i - 16]
            }),
    )
}

/// The sixteen bytes of `data` from `at` on.
fn block_of(data: &[u8], at: usize) -> (out: [u8; 16])
    requires
        at + 16 <= data@.len(),
    ensures
        out@ == data@.subrange(at as int, at + 16),
{
    let mut out: [u8; 16] = [0;16];
    let total: usize = data.len();
    let mut i: usize = 0;
    while i < 16
        invariant
            i <= 16,
            at + 16 <= data@.len() == total,
            forall|j: int| 0 <= j < i ==> out@[j] == data@[at + j],
        decreases 16 - i,
    {
        out[i] = data[at + i];
        i += 1;
    }
    assert(out@ =~= data@.subrange(at as int, at + 16));
    out
}

/// What to do with each block.
#[derive(Clone, Copy, Debug, PartialEq, Eq, Structural)]
pub enum CipherMode {
    Encrypt,
    Decrypt,
}

/// Encrypts or decrypts every block of `data` on its own. Data that is empty or
/// not a whole number of blocks is refused.
pub fn aes128_ecb_crypt(key: &[u8; 16], data: &[u8], mode: CipherMode) -> (out: Option<Vec<u8>>)
    ensures
        out is Some <==> data@.len() > 0 && data@.len() % 16 == 0,
        out matches Some(bytes) ==> {
            &&& mode is Encrypt ==> bytes@ == ecb_encrypt(key@, data@)
            &&& mode is Decrypt ==> bytes@ == ecb_decrypt(key@, data@)
            &&& mode is Encrypt ==> ecb_decrypt(key@, bytes@) == data@
            &&& mode is Decrypt ==> ecb_encrypt(key@, bytes@) == data@
        },
{
    let total: usize = data.len();
    if total == 0 || total % 16 != 0 {
        return None;
    }
    let mut out: Vec<u8> = Vec::new();
    let ghost forward = match mode {
        CipherMode::Encrypt => ecb_encrypt(key@, data@),
        CipherMode::Decrypt => ecb_decrypt(key@, data@),
    };
    let mut at: usize = 0;
    while at < total
        invariant
            total == data@.len(),
            total % 16 == 0,
            at % 16 == 0,
            at <= total,
            out@.len() == at,
            forward == match mode {
                CipherMode::Encrypt => ecb_encrypt(key@, data@),
                CipherMode::Decrypt => ecb_decrypt(key@, data@),
            },
            forall|i: int| 0 <= i < at ==> out@[i] == forward[i],
            forall|j: int|
                0 <= j < at / 16 ==> (match mode {
                    CipherMode::Encrypt => aes128_decrypt(key@, #[trigger] block(out@, j)),
                    CipherMode::Decrypt => aes128_encrypt(key@, block(out@, j)),
                }) == block(data@, j),
        decreases total - at,
    {
        let input = block_of(data, at);
        let output = match mode {
            CipherMode::Encrypt => aes128_encrypt_block(key, &input),
            CipherMode::Decrypt => aes128_decrypt_block(key, &input),
        };
        let ghost before = out@;
        append_bytes(&mut out, &output);
        proof {
            let k = at as int / 16;
            assert(input@ =~= block(data@, k));
            assert(block(out@, k) =~= output@);
            assert forall|i: int| 0 <= i < at + 16 implies out@[i] == forward[i] by {
                if i >= at {
                    assert(i / 16 == k && i % 16 == i - at);
                }
            }
            assert forall|j: int| 0 <= j < (at + 16) / 16 implies (match mode {
                CipherMode::Encrypt => aes128_decrypt(key@, #[trigger] block(out@, j)),
                CipherMode::Decrypt => aes128_encrypt(key@, block(out@, j)),
            }) == block(data@, j) by {
                if j < k {
                    assert(block(out@, j) =~= block(before, j));
                }
            }
        }
        at += 16;
    }
    assert(out@ =~= forward);
    proof {
        let undone = match mode {
            CipherMode::Encrypt => ecb_decrypt(key@, out@),
            CipherMode::Decrypt => ecb_encrypt(key@, out@),
        };
        assert forall|i: int| 0 <= i < total implies undone[i] == data@[i] by {
            assert(block(data@, i / 16)[i % 16] == data@[i]);
            assert(0 <= i / 16 < at / 16);
            assert((match mode {
                CipherMode::Encrypt => aes128_decrypt(key@, block(out@, i / 16)),
                CipherMode::Decrypt => aes128_encrypt(key@, block(out@, i / 16)),
            }) == block(data@, i / 16));
        }
        assert(undone =~= data@);
    }
    Some(out)
}

/// Encrypts `data`, a whole number of blocks, by cipher block chaining.
pub fn aes128_cbc_encrypt(key: &[u8; 16], iv: &[u8; 16], data: &[u8]) -> (out: Vec<u8>)
    requires
        data@.len() % 16 == 0,
    ensures
        out@ == cbc_encrypt(key@, iv@, data@),
        out@.len() == data@.len(),
        cbc_decrypt(key@, iv@, out@) == data@,
{
    let total: usize = data.len();
    let mut out: Vec<u8> = Vec::new();
    let mut previous: [u8; 16] = *iv;
    let mut at: usize = 0;
    assert(data@.skip(0) =~= data@);
    assert(out@ + cbc_encrypt(key@, iv@, data@) =~= cbc_encrypt(key@, iv@, data@));
    while at < total
        invariant
            total == data@.len(),
            total % 16 == 0,
            at % 16 == 0,
            at <= total,
            out@.len() == at,
            cbc_encrypt(key@, iv@, data@) == out@ + cbc_encrypt(
                key@,
                previous@,
                data@.skip(at as int),
            ),
            previous@ == if at == 0 {
                iv@
            } else {
                out@.subrange(at - 16, at as int)
            },
            forall|i: int| 0 <= i < at ==> #[trigger] cbc_decrypt(key@, iv@, out@)[i] == data@[i],
        decreases total - at,
    {
        let plain = block_of(data, at);
        let mut mixed: [u8; 16] = [0;16];
        let mut i: usize = 0;
        while i < 16
            invariant
                i <= 16,
                forall|j: int| 0 <= j < i ==> mixed@[j] == plain@[j] ^ previous@[j],
            decreases 16 - i,
        {
            mixed[i] = plain[i] ^ previous[i];
            i += 1;
        }
        assert(mixed@ =~= xor_block(plain@, previous@));
        let output = aes128_encrypt_block(key, &mixed);
        let ghost before = out@;
        append_bytes(&mut out, &output);
        proof {
            let k = at as int / 16;
            let rest = data@.skip(at as int);
            assert(rest.take(16) =~= plain@);
            assert(rest.skip(16) =~= data@.skip(at + 16));
            assert(out@ + cbc_encrypt(key@, output@, data@.skip(at + 16)) =~= before + (output@
                + cbc_encrypt(key@, output@, data@.skip(at + 16))));
            assert(out@.subrange(at as int, at + 16) =~= output@);
            assert forall|i: int| 0 <= i < at + 16 implies #[trigger] cbc_decrypt(
                key@,
                iv@,
                out@,
            )[i] == data@[i] by {
                if i < at {
                    assert(block(out@, i / 16) =~= block(before, i / 16));
                    assert(cbc_decrypt(key@, iv@, before)[i] == data@[i]);
                } else {
                    assert(i / 16 == k && i % 16 == i - at);
                    assert(block(out@, k) =~= output@);
                    let p = plain@[i - at];
                    let q = previous@[i - at];
                    assert((p ^ q) ^ q == p) by (bit_vector);
                }
            }
        }
        previous = output;
        at += 16;
    }
    assert(out@ + cbc_encrypt(key@, previous@, data@.skip(at as int)) =~= out@);
    assert(cbc_decrypt(key@, iv@, out@) =~= data@);
    out
}

// ---------------------------------------------------------------------------
// Padding
// ---------------------------------------------------------------------------
/// The number of bytes that complete the last block: 1 to 16.
pub open spec fn padding_len(len: int) -> int {
    16 - len % 16
}

/// `payload` completed to whole blocks; each byte added holds their number.
pub open spec fn padded(payload: Seq<u8>) -> Seq<u8> {
    let n = padding_len(payload.len() as int);
    payload + Seq::new(n as nat, |i: int| n as u8)
}

/// `data` without the bytes that its last byte says were added.
pub open spec fn unpadded(data: Seq<u8>) -> Seq<u8> {
    data.take(data.len() - data.last())
}

/// Completes `payload` to whole blocks.
pub fn pkcs7_pad(payload: &[u8]) -> (out: Vec<u8>)
    ensures
        out@ == padded(payload@),
{
    let count: usize = 16 - payload.len() % 16;
    let mut out: Vec<u8> = Vec::new();
    append_bytes(&mut out, payload);
    assert(out@ =~= payload@);
    let mut i: usize = 0;
    while i < count
        invariant
            1 <= count <= 16,
            i <= count,
            out@ =~= payload@ + Seq::new(i as nat, |j: int| count as u8),
        decreases count - i,
    {
        out.push(count as u8);
        i += 1;
    }
    out
}

/// Padded data is a whole number of blocks, and taking the padding off gives the
/// payload back.
pub proof fn padding_round_trip(payload: Seq<u8>)
    ensures
        padded(payload).len() > 0,
        padded(payload).len() % 16 == 0,
        unpadded(padded(payload)) == payload,
{
    assert(unpadded(padded(payload)) =~= payload);
}

/// Padding adds one to sixteen bytes, as many as complete the last block, and each of
/// them holds their number.
pub proof fn padding_tells_its_length(payload: &[u8], out: Vec<u8>)
    requires
        call_ensures(pkcs7_pad, (payload,), out),
    ensures
        out@.len() % 16 == 0,
        1 <= out@.len() - payload@.len() <= 16,
        out@.take(payload@.len() as int) == payload@,
        forall|i: int|
            payload@.len() <= i < out@.len() ==> #[trigger] out@[i] == out@.len() - payload@.len(),
{
    assert(out@.take(payload@.len() as int) =~= payload@);
}

/// Chained encryption combines each block with the encrypted one before it, and the
/// first with the initialisation vector, before it is encrypted.
pub proof fn blocks_are_chained(key: &[u8; 16], iv: &[u8; 16], data: &[u8], out: Vec<u8>, j: int)
    requires
        call_ensures(aes128_cbc_encrypt, (key, iv, data), out),
        data@.len() % 16 == 0,
        0 <= j < data@.len() / 16,
    ensures
        out@.len() == data@.len(),
        out@.subrange(16 * j, 16 * j + 16).len() == 16,
        forall|i: int|
            0 <= i < 16 ==> #[trigger] aes128_decrypt(
                key@,
                out@.subrange(16 * j, 16 * j + 16),
            )[i] ^ (if j == 0 {
                iv@[i]
            } else {
                out@[16 * j - 16 + i]
            }) == data@[16 * j + i],
{
    let b = out@.subrange(16 * j, 16 * j + 16);
    assert forall|i: int| 0 <= i < 16 implies #[trigger] aes128_decrypt(key@, b)[i] ^ (if j == 0 {
        iv@[i]
    } else {
        out@[16 * j - 16 + i]
    }) == data@[16 * j + i] by {
        let at = 16 * j + i;
        assert(at / 16 == j && at % 16 == i);
        assert(block(out@, j) == b);
        assert(cbc_decrypt(key@, iv@, out@)[at] == data@[at]);
    }
}

/// Without chaining, each block is encrypted or decrypted on its own; data that is empty
/// or not made of whole blocks is refused.
pub proof fn blocks_stand_on_their_own(
    key: &[u8; 16],
    data: &[u8],
    mode: CipherMode,
    out: Option<Vec<u8>>,
    j: int,
)
    requires
        call_ensures(aes128_ecb_crypt, (key, data, mode), out),
    ensures
        out is Some <==> data@.len() > 0 && data@.len() % 16 == 0,
        out is Some && 0 <= j < data@.len() / 16 ==> {
            let given = data@.subrange(16 * j, 16 * j + 16);
            let made = out->0@.subrange(16 * j, 16 * j + 16);
            &&& out->0@.len() == data@.len()
            &&& forall|i: int|
                0 <= i < 16 ==> #[trigger] made[i] == match mode {
                    CipherMode::Encrypt => aes128_encrypt(key@, given)[i],
                    CipherMode::Decrypt => aes128_decrypt(key@, given)[i],
                }
        },
{
    if out is Some && 0 <= j < data@.len() / 16 {
        let given = data@.subrange(16 * j, 16 * j + 16);
        let made = out->0@.subrange(16 * j, 16 * j + 16);
        assert(block(data@, j) == given);
        assert forall|i: int| 0 <= i < 16 implies #[trigger] made[i] == match mode {
            CipherMode::Encrypt => aes128_encrypt(key@, given)[i],
            CipherMode::Decrypt => aes128_decrypt(key@, given)[i],
        } by {
            let at = 16 * j + i;
            assert(at / 16 == j && at % 16 == i);
            assert(made[i] == out->0@[at]);
        }
    }
}

} // verus!
