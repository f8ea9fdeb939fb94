//! Hexadecimal text: the digits that object records are written in, and the raw hex
//! format that programs are loaded from.

use crate::texto::{aparar, aparar_exec, caracteres, dividir_linhas, linhas, trecho, vistas};
use vstd::prelude::*;

verus! {

/// The upper-case hex digit for `d < 16`.
pub open spec fn digito_hex(d: nat) -> char {
    if d < 10 {
        ((48 + d) as u8) as char
    } else {
        ((55 + d) as u8) as char
    }
}

/// The value of a hex digit of either case.
pub open spec fn valor_digito(c: char) -> Option<nat> {
    if '0' <= c && c <= '9' {
        Some((c as u32 - '0' as u32) as nat)
    } else if 'a' <= c && c <= 'f' {
        Some((c as u32 - 'a' as u32 + 10) as nat)
    } else if 'A' <= c && c <= 'F' {
        Some((c as u32 - 'A' as u32 + 10) as nat)
    } else {
        None
    }
}

/// `v` in `n` hex digits, most significant first (higher digits are dropped).
pub open spec fn hex_n(v: nat, n: nat) -> Seq<char>
    decreases n,
{
    if n == 0 {
        seq![]
    } else {
        hex_n(v / 16, (n - 1) as nat).push(digito_hex(v % 16))
    }
}

/// Each byte as two hex digits.
pub open spec fn hex_bytes(b: Seq<u8>) -> Seq<char>
    decreases b.len(),
{
    if b.len() == 0 {
        seq![]
    } else {
        hex_bytes(b.drop_last()) + hex_n(b.last() as nat, 2)
    }
}

/// The value of a string of hex digits.
pub open spec fn valor_hex(s: Seq<char>) -> nat
    decreases s.len(),
{
    if s.len() == 0 {
        0
    } else {
        valor_hex(s.drop_last()) * 16 + match valor_digito(s.last()) {
            Some(d) => d,
            None => 0,
        }
    }
}

pub proof fn lemma_digito(d: nat)
    requires
        d < 16,
    ensures
        valor_digito(digito_hex(d)) == Some(d),
{
    let c = digito_hex(d);
    if d < 10 {
        assert(c as u32 == 48 + d);
    } else {
        assert(c as u32 == 55 + d);
    }
}

pub proof fn lemma_hex_n(v: nat, n: nat)
    ensures
        hex_n(v, n).len() == n,
        valor_hex(hex_n(v, n)) == v % vstd::arithmetic::power::pow(16, n) as nat,
    decreases n,
{
    reveal(vstd::arithmetic::power::pow);
    if n > 0 {
        lemma_hex_n(v / 16, (n - 1) as nat);
        lemma_digito(v % 16);
        let s = hex_n(v, n);
        assert(s.drop_last() =~= hex_n(v / 16, (n - 1) as nat));
        let p = vstd::arithmetic::power::pow(16, (n - 1) as nat);
        vstd::arithmetic::power::lemma_pow_positive(16, (n - 1) as nat);
        vstd::arithmetic::div_mod::lemma_mod_breakdown(v as int, 16, p);
    }
}

pub proof fn lemma_hex_bytes(b: Seq<u8>)
    ensures
        hex_bytes(b).len() == 2 * b.len(),
    decreases b.len(),
{
    if b.len() > 0 {
        lemma_hex_bytes(b.drop_last());
        lemma_hex_n(b.last() as nat, 2);
    }
}

pub fn digito_hex_exec(d: u64) -> (r: char)
    requires
        d < 16,
    ensures
        r == digito_hex(d as nat),
{
    if d < 10 {
        ((48 + d) as u8) as char
    } else {
        ((55 + d) as u8) as char
    }
}

/// `v` in `n` hex digits.
pub fn hex_n_exec(v: u64, n: usize) -> (r: Vec<char>)
    ensures
        r@ == hex_n(v as nat, n as nat),
    decreases n,
{
    if n == 0 {
        Vec::new()
    } else {
        let mut r = hex_n_exec(v / 16, n - 1);
        r.push(digito_hex_exec(v % 16));
        r
    }
}

/// Each byte as two hex digits.
pub fn hex_bytes_exec(b: &[u8]) -> (r: Vec<char>)
    ensures
        r@ == hex_bytes(b@),
{
    let mut r: Vec<char> = Vec::new();
    let mut i: usize = 0;
    while i < b.len()
        invariant
            i <= b@.len(),
            r@ == hex_bytes(b@.subrange(0, i as int)),
        decreases b@.len() - i,
    {
        let d = hex_n_exec(b[i] as u64, 2);
        let ghost antes = r@;
        let mut k: usize = 0;
        while k < d.len()
            invariant
                k <= d@.len(),
                r@ == antes + d@.subrange(0, k as int),
            decreases d@.len() - k,
        {
            r.push(d[k]);
            k = k + 1;
            assert(r@ =~= antes + d@.subrange(0, k as int));
        }
        assert(d@.subrange(0, d@.len() as int) =~= d@);
        assert(b@.subrange(0, i + 1).drop_last() =~= b@.subrange(0, i as int));
        i = i + 1;
    }
    assert(b@.subrange(0, b@.len() as int) =~= b@);
    r
}

pub fn valor_digito_exec(c: char) -> (r: Option<u8>)
    ensures
        match valor_digito(c) {
            Some(d) => r == Some(d as u8) && d < 16,
            None => r is None,
        },
{
    if '0' <= c && c <= '9' {
        Some((c as u32 - '0' as u32) as u8)
    } else if 'a' <= c && c <= 'f' {
        Some((c as u32 - 'a' as u32 + 10) as u8)
    } else if 'A' <= c && c <= 'F' {
        Some((c as u32 - 'A' as u32 + 10) as u8)
    } else {
        None
    }
}

/// The bytes of the first `k` character pairs of `t`, each read as an unsigned base-16
/// number: two hex digits, or `+` and one hex digit. Any other pair is skipped.
pub open spec fn pares_hex(t: Seq<char>, k: nat) -> Seq<u8>
    decreases k,
{
    if k == 0 {
        seq![]
    } else {
        let anteriores = pares_hex(t, (k - 1) as nat);
        let a = t[2 * k - 2];
        let b = t[2 * k - 1];
        if valor_digito(a) is Some && valor_digito(b) is Some {
            anteriores.push((valor_digito(a)->0 * 16 + valor_digito(b)->0) as u8)
        } else if a == '+' && valor_digito(b) is Some {
            anteriores.push(valor_digito(b)->0 as u8)
        } else {
            anteriores
        }
    }
}

/// The bytes that a raw hex text stands for: its whitespace-trimmed characters taken in
/// pairs, a trailing odd character ignored.
pub open spec fn bytes_de_hex(s: Seq<char>) -> Seq<u8> {
    let t = aparar(s);
    pares_hex(t, t.len() / 2)
}

/// Decodes a raw hex text into bytes.
pub fn decodificar_hex(hex: &str) -> (r: Vec<u8>)
    ensures
        r@ == bytes_de_hex(hex@),
{
    let cs = caracteres(hex);
    let t = aparar_exec(cs.as_slice());
    pares_exec(t.as_slice())
}

/// The code bytes of one object record: the payload of a text record (`T`, six digits of
/// address and two of count, then the code), nothing for any other line.
pub open spec fn codigo_do_registro(l: Seq<char>) -> Seq<u8> {
    if l.len() >= 9 && l[0] == 'T' {
        let p = l.subrange(9, l.len() as int);
        pares_hex(p, p.len() / 2)
    } else {
        seq![]
    }
}

/// The code bytes of the first `n` records, in order.
pub open spec fn codigo_ate(ls: Seq<Seq<char>>, n: nat) -> Seq<u8>
    decreases n,
{
    if n == 0 {
        seq![]
    } else {
        codigo_ate(ls, (n - 1) as nat) + codigo_do_registro(ls[n - 1])
    }
}

/// The code of an object text: the payloads of its text records, one after another.
pub open spec fn codigo_do_objeto_spec(objeto: Seq<char>) -> Seq<u8> {
    let ls = linhas(objeto);
    codigo_ate(ls, ls.len())
}

fn pares_exec(p: &[char]) -> (r: Vec<u8>)
    ensures
        r@ == pares_hex(p@, p@.len() / 2),
{
    let mut r: Vec<u8> = Vec::new();
    let mut k: usize = 0;
    while k < p.len() / 2
        invariant
            k <= p@.len() / 2,
            r@ == pares_hex(p@, k as nat),
        decreases p@.len() / 2 - k,
    {
        let a = valor_digito_exec(p[2 * k]);
        let b = valor_digito_exec(p[2 * k + 1]);
        match (a, b) {
            (Some(a), Some(b)) => r.push(a * 16 + b),
            (None, Some(b)) => {
                if p[2 * k] == '+' {
                    r.push(b);
                }
            },
            _ => {},
        }
        k = k + 1;
    }
    r
}

/// Extracts the code bytes that an object text's text records carry, ready to be loaded.
pub fn codigo_do_objeto(objeto: &str) -> (r: Vec<u8>)
    ensures
        r@ == codigo_do_objeto_spec(objeto@),
{
    let cs = caracteres(objeto);
    let ls = dividir_linhas(cs.as_slice());
    let ghost vl = vistas(ls@);
    let mut r: Vec<u8> = Vec::new();
    let mut i: usize = 0;
    while i < ls.len()
        invariant
            i <= ls@.len(),
            vl == vistas(ls@),
            r@ == codigo_ate(vl, i as nat),
        decreases ls@.len() - i,
    {
        assert(vl[i as int] == ls@[i as int]@);
        let l = &ls[i];
        if l.len() >= 9 && l[0] == 'T' {
            let p = trecho(l.as_slice(), 9, l.len());
            let bytes = pares_exec(p.as_slice());
            let ghost antes = r@;
            let mut k: usize = 0;
            while k < bytes.len()
                invariant
                    k <= bytes@.len(),
                    r@ == antes + bytes@.subrange(0, k as int),
                decreases bytes@.len() - k,
            {
                r.push(bytes[k]);
                k = k + 1;
                assert(r@ =~= antes + bytes@.subrange(0, k as int));
            }
            assert(bytes@.subrange(0, k as int) =~= bytes@);
        } else {
            assert(r@ + seq![] =~= r@);
        }
        i = i + 1;
    }
    r
}

} // verus!
