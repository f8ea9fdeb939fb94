//! Reading fixed-width bit fields out of a byte slice, most significant bit first.

use bitreader::BitReader;
use vstd::arithmetic::div_mod::*;
use vstd::arithmetic::power2::*;
use vstd::prelude::*;

verus! {

/// Bit number `pos` of `bytes`, counting from the most significant bit of the first byte.
pub open spec fn bit_em(bytes: Seq<u8>, pos: int) -> nat {
    ((bytes[pos / 8] as nat / pow2((7 - pos % 8) as nat)) % 2) as nat
}

/// The unsigned big-endian value of the `n` bits of `bytes` that start at bit `pos`.
pub open spec fn valor_bits(bytes: Seq<u8>, pos: int, n: nat) -> nat
    decreases n,
{
    if n == 0 {
        0
    } else {
        2 * valor_bits(bytes, pos, (n - 1) as nat) + bit_em(bytes, pos + n - 1)
    }
}

/// Relies on bitreader's `BitReader::new`, `BitReader::skip` and `BitReader::read_u64`:
/// a reader placed `posicao` bits into `bytes` hands back the next `quantidade` bits,
/// most significant first (none at all gives 0), and fails when they run past the end,
/// when `posicao` is past the end, or when more than 64 bits are asked for.
#[verifier::external_body]
pub(crate) fn ler_bits(bytes: &[u8], posicao: u64, quantidade: u8) -> (r: Option<u64>)
    requires
        bytes@.len() * 8 + 256 <= u64::MAX,
    ensures
        r == (if quantidade <= 64 && posicao + quantidade <= bytes@.len() * 8 {
            Some(valor_bits(bytes@, posicao as int, quantidade as nat) as u64)
        } else {
            None
        }),
{
    let mut leitor = BitReader::new(bytes);
    leitor.skip(posicao).ok()?;
    leitor.read_u64(quantidade).ok()
}

/// Splitting a field: the first `n1` bits are the high part, the next `n2` the low part.
pub proof fn lemma_valor_bits_concat(bytes: Seq<u8>, pos: int, n1: nat, n2: nat)
    ensures
        valor_bits(bytes, pos, n1 + n2) == valor_bits(bytes, pos, n1) * pow2(n2) + valor_bits(
            bytes,
            pos + n1,
            n2,
        ),
    decreases n2,
{
    if n2 == 0 {
        lemma2_to64();
    } else {
        lemma_valor_bits_concat(bytes, pos, n1, (n2 - 1) as nat);
        lemma_pow2_unfold(n2);
        let hi = valor_bits(bytes, pos, n1);
        let p = pow2((n2 - 1) as nat);
        let lo = valor_bits(bytes, pos + n1, (n2 - 1) as nat);
        assert(2 * (hi * p + lo) == hi * (2 * p) + 2 * lo) by (nonlinear_arith);
        assert(pos + (n1 + n2) - 1 == (pos + n1) + n2 - 1);
    }
}

/// Within one byte: `j` bits that start `s` bits into byte `k`.
pub proof fn lemma_valor_bits_no_byte(bytes: Seq<u8>, k: int, s: nat, j: nat)
    requires
        0 <= k < bytes.len(),
        s + j <= 8,
    ensures
        valor_bits(bytes, 8 * k + s, j) == (bytes[k] as nat / pow2((8 - s - j) as nat)) % pow2(
            j,
        ),
    decreases j,
{
    lemma_pow2_pos(j);
    if j == 0 {
        lemma2_to64();
    } else {
        lemma_valor_bits_no_byte(bytes, k, s, (j - 1) as nat);
        let x = bytes[k] as int;
        let e = (8 - s - j) as nat;
        let pos = 8 * k + s + j - 1;
        assert(pos / 8 == k && pos % 8 == s + j - 1) by {
            lemma_fundamental_div_mod_converse(pos, 8, k, s + j - 1);
        }
        lemma_pow2_pos(e);
        lemma_pow2_unfold(e + 1);
        let y = x / pow2(e) as int;
        assert(x / pow2(e + 1) as int == y / 2) by {
            lemma_div_denominator(x, pow2(e) as int, 2);
        }
        lemma_pow2_unfold(j);
        lemma_pow2_pos((j - 1) as nat);
        assert(y >= 0) by {
            lemma_div_pos_is_pos(x, pow2(e) as int);
        }
        lemma_mod_breakdown(y, 2, pow2((j - 1) as nat) as int);
        assert((8 - s - (j - 1)) as nat == e + 1);
    }
}

/// A whole byte read at a byte boundary is that byte.
pub proof fn lemma_valor_bits_byte(bytes: Seq<u8>, k: int)
    requires
        0 <= k < bytes.len(),
    ensures
        valor_bits(bytes, 8 * k, 8) == bytes[k],
{
    lemma_valor_bits_no_byte(bytes, k, 0, 8);
    lemma2_to64();
    assert(8 * k + 0 == 8 * k);
}

/// The last `8 - s` bits of byte `k` followed by the whole of byte `k + 1`.
pub proof fn lemma_valor_bits_dois_bytes(bytes: Seq<u8>, k: int, s: nat)
    requires
        0 <= k,
        k + 1 < bytes.len(),
        s <= 8,
    ensures
        valor_bits(bytes, 8 * k + s, (16 - s) as nat) == (bytes[k] as nat % pow2(
            (8 - s) as nat,
        )) * 256 + bytes[k + 1],
{
    lemma_valor_bits_concat(bytes, 8 * k + s, (8 - s) as nat, 8);
    lemma_valor_bits_no_byte(bytes, k, s, (8 - s) as nat);
    lemma_valor_bits_byte(bytes, k + 1);
    lemma2_to64();
    assert((8 - s) as nat + 8 == (16 - s) as nat);
    assert(8 * k + s + (8 - s) as nat == 8 * (k + 1));
    assert((8 - s - (8 - s) as nat) as nat == 0);
}

/// The last `8 - s` bits of byte `k` followed by the whole of bytes `k + 1` and `k + 2`.
pub proof fn lemma_valor_bits_tres_bytes(bytes: Seq<u8>, k: int, s: nat)
    requires
        0 <= k,
        k + 2 < bytes.len(),
        s <= 8,
    ensures
        valor_bits(bytes, 8 * k + s, (24 - s) as nat) == (bytes[k] as nat % pow2(
            (8 - s) as nat,
        )) * 65536 + bytes[k + 1] * 256 + bytes[k + 2],
{
    lemma_valor_bits_concat(bytes, 8 * k + s, (16 - s) as nat, 8);
    lemma_valor_bits_dois_bytes(bytes, k, s);
    lemma_valor_bits_byte(bytes, k + 2);
    lemma2_to64();
    assert((16 - s) as nat + 8 == (24 - s) as nat);
    assert(8 * k + s + (16 - s) as nat == 8 * (k + 2));
}

} // verus!
