//! One fetch-decode-execute cycle of the SIC/XE machine.
//!
//! Behaviour worth knowing:
//! - after any instruction, jumps included, the program counter is advanced by the
//!   instruction's length, so a taken jump lands `length` bytes past its target;
//! - the condition code lives in bits 16-17 of `SW`: `00` equal, `01` greater and
//!   `11` less (both bits set); the conditional jumps read the same two bits;
//! - a division by zero in `DIVR` is reported as an error.

use crate::bits::{
    ler_bits,
    lemma_valor_bits_byte,
    lemma_valor_bits_dois_bytes,
    lemma_valor_bits_no_byte,
    lemma_valor_bits_tres_bytes,
    valor_bits,
};
use crate::opcodes;
use crate::registradores::{A, B, F, L, PC, SW, X};
use vstd::arithmetic::div_mod::*;
use vstd::arithmetic::power2::*;
use vstd::prelude::*;

verus! {

/// Size of the machine's memory in bytes.
pub const TAMANHO_MEMORIA: usize = 32768;

/// Why an instruction could not be executed.
#[derive(Debug, Clone, Copy, PartialEq, Eq, Structural)]
pub enum ErroExecucao {
    /// The program counter points outside memory.
    PcInvalido,
    /// A register field names no register.
    RegistradorDesconhecido,
    /// The flag nibble is not one the addressing mode accepts.
    ModoEnderecamentoInvalido,
    /// The instruction or its operand runs past the end of memory.
    EnderecoInvalido,
    /// The operation code is not one the machine executes.
    OpcodeDesconhecido,
    /// `DIVR` with a zero divisor.
    DivisaoPorZero,
}

/// The modulus of register slot `numero`: 2^48 for `F`, 2^24 for the others.
pub open spec fn largura(numero: int) -> int {
    if numero == F as int {
        0x1_0000_0000_0000
    } else {
        0x100_0000
    }
}

/// A register file: ten slots, each below its modulus.
pub open spec fn registradores_validos(r: Seq<u64>) -> bool {
    &&& r.len() == 10
    &&& forall|i: int| 0 <= i < 10 ==> #[trigger] r[i] < largura(i)
}

/// The register file after writing `valor` to slot `numero`, reduced modulo the
/// slot's width; a write to a slot that does not exist changes nothing.
pub open spec fn escrita(r: Seq<u64>, numero: int, valor: int) -> Seq<u64> {
    if 0 <= numero < r.len() {
        r.update(numero, (valor % largura(numero)) as u64)
    } else {
        r
    }
}

pub proof fn lemma_escrita_valida(r: Seq<u64>, numero: int, valor: int)
    requires
        registradores_validos(r),
    ensures
        registradores_validos(escrita(r, numero, valor)),
{
}

/// Writes `valor` to register `numero`, wrapping it to the register's width.
pub fn set_registrador(registradores: &mut [u64; 10], numero: usize, valor: u64)
    ensures
        final(registradores)@ == escrita(old(registradores)@, numero as int, valor as int),
{
    if numero < registradores.len() {
        registradores[numero] = if numero == F {
            valor % 0x1_0000_0000_0000
        } else {
            valor % 0x100_0000
        };
    }
}

/// The 12-bit field of a format 3 instruction at `pc`.
pub open spec fn campo12(m: Seq<u8>, pc: int) -> int {
    (m[pc + 1] % 16) as int * 256 + m[pc + 2]
}

/// The 20-bit field of a format 4 instruction at `pc`.
pub open spec fn campo20(m: Seq<u8>, pc: int) -> int {
    (m[pc + 1] % 16) as int * 65536 + m[pc + 2] * 256 + m[pc + 3]
}

/// The 15-bit address of a plain SIC instruction at `pc`.
pub open spec fn campo15(m: Seq<u8>, pc: int) -> int {
    (m[pc + 1] % 128) as int * 256 + m[pc + 2]
}

/// The big-endian 24-bit word at address `a`.
pub open spec fn palavra(m: Seq<u8>, a: int) -> int {
    m[a] * 65536 + m[a + 1] * 256 + m[a + 2]
}

pub open spec fn ler_palavra_spec(m: Seq<u8>, a: int) -> Result<u64, ErroExecucao> {
    if 0 <= a && a + 3 <= m.len() {
        Ok(palavra(m, a) as u64)
    } else {
        Err(ErroExecucao::EnderecoInvalido)
    }
}

/// The flag nibbles an addressing mode accepts. Its bits are: 8 indexed,
/// 4 base-relative, 2 PC-relative, 1 extended (20-bit field).
pub open spec fn flags_validas(modo: int, flags: int) -> bool {
    ||| flags == 0
    ||| flags == 1
    ||| flags == 2
    ||| flags == 4
    ||| (modo == 3 && (flags == 8 || flags == 9 || flags == 10 || flags == 12))
}

/// Length of a format 3 (3 bytes) or extended format 4 (4 bytes) instruction.
pub open spec fn tamanho_formato(flags: int) -> int {
    if flags % 2 == 1 {
        4
    } else {
        3
    }
}

/// The field of the instruction plus the registers that its flags select.
pub open spec fn endereco_alvo(r: Seq<u64>, m: Seq<u8>, pc: int, flags: int) -> int {
    (if flags % 2 == 1 {
        campo20(m, pc)
    } else {
        campo12(m, pc)
    }) + (if (flags / 2) % 2 == 1 {
        r[PC as int] as int
    } else {
        0
    }) + (if (flags / 4) % 2 == 1 {
        r[B as int] as int
    } else {
        0
    }) + (if flags / 8 == 1 {
        r[X as int] as int
    } else {
        0
    })
}

/// The operand value and the length of the format 3/4 (or plain SIC) instruction at `pc`.
/// Mode 1 takes the target itself, mode 3 the word at the target, mode 2 the word at the
/// address stored at the target; mode 0 reads a 15-bit address, indexed when its top bit is set.
pub open spec fn operando_spec(r: Seq<u64>, m: Seq<u8>, pc: int) -> Result<
    (u64, u64),
    ErroExecucao,
> {
    let modo: int = (m[pc] % 4) as int;
    if modo == 0 {
        if pc + 3 > m.len() {
            Err(ErroExecucao::EnderecoInvalido)
        } else {
            let endereco = if m[pc + 1] / 128 == 0 {
                campo15(m, pc)
            } else {
                r[X as int] + campo15(m, pc)
            };
            match ler_palavra_spec(m, endereco) {
                Ok(v) => Ok((v, 3)),
                Err(e) => Err(e),
            }
        }
    } else if pc + 2 > m.len() {
        Err(ErroExecucao::EnderecoInvalido)
    } else {
        let flags: int = (m[pc + 1] / 16) as int;
        if !flags_validas(modo, flags) {
            Err(ErroExecucao::ModoEnderecamentoInvalido)
        } else if pc + tamanho_formato(flags) > m.len() {
            Err(ErroExecucao::EnderecoInvalido)
        } else {
            let alvo = endereco_alvo(r, m, pc, flags);
            let t = tamanho_formato(flags) as u64;
            if modo == 1 {
                Ok((alvo as u64, t))
            } else if modo == 2 {
                match ler_palavra_spec(m, alvo) {
                    Ok(indireto) => match ler_palavra_spec(m, indireto as int) {
                        Ok(v) => Ok((v, t)),
                        Err(e) => Err(e),
                    },
                    Err(e) => Err(e),
                }
            } else {
                match ler_palavra_spec(m, alvo) {
                    Ok(v) => Ok((v, t)),
                    Err(e) => Err(e),
                }
            }
        }
    }
}

/// `SW` with its condition code set from comparing `a` with `b`.
pub open spec fn com_condicao(r: Seq<u64>, a: int, b: int) -> Seq<u64> {
    let sw = r[SW as int];
    if a > b {
        escrita(r, SW as int, ((sw & 0xFCFFFF) | 0x010000) as int)
    } else if a < b {
        escrita(r, SW as int, (sw | 0x030000) as int)
    } else {
        escrita(r, SW as int, (sw & 0xFCFFFF) as int)
    }
}

/// The two-byte register-register operation codes.
pub open spec fn eh_formato2(op: u8) -> bool {
    ||| op == opcodes::ADDR
    ||| op == opcodes::CLEAR
    ||| op == opcodes::COMPR
    ||| op == opcodes::DIVR
    ||| op == opcodes::MULR
    ||| op == opcodes::RMO
    ||| op == opcodes::SHIFTL
    ||| op == opcodes::SHIFTR
    ||| op == opcodes::SUBR
    ||| op == opcodes::TIXR
}

/// The effect of the format 2 instruction at `pc`, before the program counter moves.
/// The first register nibble is the high one. A register field that names no register
/// fails. `TIXR` increments `X`, then compares the incremented `X` with its operand; the
/// increment stays even when reading the operand fails.
pub open spec fn formato2_spec(r: Seq<u64>, m: Seq<u8>, pc: int) -> (
    Seq<u64>,
    Result<(), ErroExecucao>,
) {
    let op = m[pc];
    if op == opcodes::TIXR {
        let x = r[X as int];
        let r1 = escrita(r, X as int, x + 1);
        if pc + 2 > m.len() {
            (r1, Err(ErroExecucao::EnderecoInvalido))
        } else if m[pc + 1] / 16 >= 10 {
            (r1, Err(ErroExecucao::RegistradorDesconhecido))
        } else {
            (com_condicao(r1, r1[X as int] as int, r1[(m[pc + 1] / 16) as int] as int), Ok(()))
        }
    } else if pc + 2 > m.len() {
        (r, Err(ErroExecucao::EnderecoInvalido))
    } else {
        let i: int = (m[pc + 1] / 16) as int;
        let j: int = (m[pc + 1] % 16) as int;
        if i >= 10 {
            (r, Err(ErroExecucao::RegistradorDesconhecido))
        } else if op == opcodes::CLEAR {
            (escrita(r, i, 0), Ok(()))
        } else if op == opcodes::RMO {
            if j >= 10 {
                (r, Err(ErroExecucao::RegistradorDesconhecido))
            } else {
                (escrita(r, j, r[i] as int), Ok(()))
            }
        } else if op == opcodes::SHIFTL {
            (escrita(r, i, (r[i] << (j as u64)) as int), Ok(()))
        } else if op == opcodes::SHIFTR {
            (escrita(r, i, (r[i] >> (j as u64)) as int), Ok(()))
        } else if j >= 10 {
            (r, Err(ErroExecucao::RegistradorDesconhecido))
        } else if op == opcodes::ADDR {
            (escrita(r, j, r[i] + r[j]), Ok(()))
        } else if op == opcodes::SUBR {
            (escrita(r, j, r[i] - r[j]), Ok(()))
        } else if op == opcodes::MULR {
            (escrita(r, j, r[i] * r[j]), Ok(()))
        } else if op == opcodes::DIVR {
            if r[j] == 0 {
                (r, Err(ErroExecucao::DivisaoPorZero))
            } else {
                (escrita(r, j, (r[i] / r[j]) as int), Ok(()))
            }
        } else {
            (com_condicao(r, r[i] as int, r[j] as int), Ok(()))
        }
    }
}

/// The effect of a format 3/4 operation (its code with the mode bits cleared) on operand `v`.
pub open spec fn formato3_spec(r: Seq<u64>, op: u8, v: u64) -> Result<Seq<u64>, ErroExecucao> {
    if op == opcodes::ADD {
        Ok(escrita(r, A as int, r[A as int] + v))
    } else if op == opcodes::AND {
        Ok(escrita(r, A as int, (r[A as int] & v) as int))
    } else if op == opcodes::OR {
        Ok(escrita(r, A as int, (r[A as int] | v) as int))
    } else if op == opcodes::RSUB {
        Ok(escrita(r, PC as int, r[L as int] as int))
    } else if op == opcodes::J {
        Ok(escrita(r, PC as int, v as int))
    } else if op == opcodes::JEQ {
        Ok(
            if r[SW as int] & 0x030000 == 0 {
                escrita(r, PC as int, v as int)
            } else {
                r
            },
        )
    } else if op == opcodes::JGT {
        Ok(
            if r[SW as int] & 0x030000 == 0x010000 {
                escrita(r, PC as int, v as int)
            } else {
                r
            },
        )
    } else {
        Err(ErroExecucao::OpcodeDesconhecido)
    }
}

/// The registers with the program counter moved `n` bytes on.
pub open spec fn avancar(r: Seq<u64>, n: int) -> Seq<u64> {
    escrita(r, PC as int, r[PC as int] + n)
}

/// One step of the machine: the registers afterwards and the outcome. Memory is only read.
pub open spec fn passo_spec(r: Seq<u64>, m: Seq<u8>) -> (Seq<u64>, Result<(), ErroExecucao>) {
    let pc = r[PC as int] as int;
    if pc >= m.len() {
        (r, Err(ErroExecucao::PcInvalido))
    } else if eh_formato2(m[pc]) {
        let (r2, resultado) = formato2_spec(r, m, pc);
        if resultado is Ok {
            (avancar(r2, 2), Ok(()))
        } else {
            (r2, resultado)
        }
    } else {
        match operando_spec(r, m, pc) {
            Err(e) => (r, Err(e)),
            Ok((v, t)) => match formato3_spec(r, m[pc] & 0xFC, v) {
                Err(e) => (r, Err(e)),
                Ok(r2) => (avancar(r2, t as int), Ok(())),
            },
        }
    }
}

/// Reads `n` bits that start `desloc` bits into the instruction at `pc`.
fn ler_campo(memoria: &[u8; 32768], pc: u64, desloc: u64, n: u8) -> (r: Result<
    u64,
    ErroExecucao,
>)
    requires
        pc < 32768,
        desloc <= 16,
        n <= 24,
    ensures
        match r {
            Ok(v) => 8 * pc + desloc + n <= 8 * 32768 && v == valor_bits(
                memoria@,
                8 * pc + desloc,
                n as nat,
            ) as u64,
            Err(e) => 8 * pc + desloc + n > 8 * 32768 && e == ErroExecucao::EnderecoInvalido,
        },
{
    match ler_bits(memoria.as_slice(), 8 * pc + desloc, n) {
        Some(v) => Ok(v),
        None => Err(ErroExecucao::EnderecoInvalido),
    }
}

/// Reads the big-endian 24-bit word at `endereco`.
fn ler_palavra(memoria: &[u8; 32768], endereco: u64) -> (r: Result<u64, ErroExecucao>)
    ensures
        r == ler_palavra_spec(memoria@, endereco as int),
{
    if endereco <= 32765 {
        let a = endereco as usize;
        Ok((memoria[a] as u64) * 65536 + (memoria[a + 1] as u64) * 256 + memoria[a + 2] as u64)
    } else {
        Err(ErroExecucao::EnderecoInvalido)
    }
}

/// The instruction fields that the bit reader hands back, as byte arithmetic.
proof fn lemma_campos(m: Seq<u8>, pc: int)
    requires
        0 <= pc < m.len(),
    ensures
        valor_bits(m, 8 * pc, 8) == m[pc],
        pc + 1 < m.len() ==> {
            &&& valor_bits(m, 8 * pc + 8, 4) == m[pc + 1] / 16
            &&& valor_bits(m, 8 * pc + 12, 4) == m[pc + 1] % 16
            &&& valor_bits(m, 8 * pc + 8, 1) == m[pc + 1] / 128
        },
        pc + 2 < m.len() ==> {
            &&& valor_bits(m, 8 * pc + 12, 12) == campo12(m, pc)
            &&& valor_bits(m, 8 * pc + 9, 15) == campo15(m, pc)
        },
        pc + 3 < m.len() ==> valor_bits(m, 8 * pc + 12, 20) == campo20(m, pc),
{
    lemma_valor_bits_byte(m, pc);
    lemma2_to64();
    if pc + 1 < m.len() {
        lemma_valor_bits_no_byte(m, pc + 1, 0, 4);
        lemma_valor_bits_no_byte(m, pc + 1, 4, 4);
        lemma_valor_bits_no_byte(m, pc + 1, 0, 1);
        assert(8 * (pc + 1) + 0 == 8 * pc + 8);
        assert(8 * (pc + 1) + 4 == 8 * pc + 12);
        let x = m[pc + 1] as nat;
        lemma_div_basics_2(x as int);
        assert((x / 16) % 16 == x / 16);
        assert((x / 128) % 2 == x / 128);
        assert((8 - 0 - 4) as nat == 4 && (8 - 4 - 4) as nat == 0 && (8 - 0 - 1) as nat == 7);
    }
    if pc + 2 < m.len() {
        lemma_valor_bits_dois_bytes(m, pc + 1, 4);
        lemma_valor_bits_dois_bytes(m, pc + 1, 1);
        assert(8 * (pc + 1) + 4 == 8 * pc + 12);
        assert(8 * (pc + 1) + 1 == 8 * pc + 9);
    }
    if pc + 3 < m.len() {
        lemma_valor_bits_tres_bytes(m, pc + 1, 4);
        assert(8 * (pc + 1) + 4 == 8 * pc + 12);
    }
}

/// Decodes the operand of the format 3/4 (or plain SIC) instruction at `pc`.
fn ler_operando(registradores: &[u64; 10], memoria: &[u8; 32768], pc: u64) -> (r: Result<
    (u64, u64),
    ErroExecucao,
>)
    requires
        registradores_validos(registradores@),
        pc < 32768,
    ensures
        r == operando_spec(registradores@, memoria@, pc as int),
{
    proof {
        lemma_campos(memoria@, pc as int);
    }
    let modo = memoria[pc as usize] % 4;
    if modo == 0 {
        // Plain SIC format: an index bit and a 15-bit address.
        let indexado = ler_campo(memoria, pc, 8, 1)?;
        let endereco = ler_campo(memoria, pc, 9, 15)?;
        let endereco = if indexado == 0 {
            endereco
        } else {
            registradores[X] + endereco
        };
        let valor = ler_palavra(memoria, endereco)?;
        return Ok((valor, 3));
    }
    let flags = ler_campo(memoria, pc, 8, 4)?;
    let valida = flags == 0 || flags == 1 || flags == 2 || flags == 4 || (modo == 3 && (flags
        == 8 || flags == 9 || flags == 10 || flags == 12));
    if !valida {
        return Err(ErroExecucao::ModoEnderecamentoInvalido);
    }
    let (campo, tamanho): (u64, u64) = if flags % 2 == 1 {
        (ler_campo(memoria, pc, 12, 20)?, 4)
    } else {
        (ler_campo(memoria, pc, 12, 12)?, 3)
    };
    let mut alvo = campo;
    if (flags / 2) % 2 == 1 {
        alvo = alvo + registradores[PC];
    }
    if (flags / 4) % 2 == 1 {
        alvo = alvo + registradores[B];
    }
    if flags / 8 == 1 {
        alvo = alvo + registradores[X];
    }
    if modo == 1 {
        Ok((alvo, tamanho))
    } else if modo == 2 {
        let indireto = ler_palavra(memoria, alvo)?;
        let valor = ler_palavra(memoria, indireto)?;
        Ok((valor, tamanho))
    } else {
        let valor = ler_palavra(memoria, alvo)?;
        Ok((valor, tamanho))
    }
}

/// Sets the condition code from comparing `a` with `b`.
fn comparar(registradores: &mut [u64; 10], a: u64, b: u64)
    ensures
        final(registradores)@ == com_condicao(old(registradores)@, a as int, b as int),
{
    let sw = registradores[SW];
    if a > b {
        set_registrador(registradores, SW, (sw & 0xFCFFFF) | 0x010000);
    } else if a < b {
        set_registrador(registradores, SW, sw | 0x030000);
    } else {
        set_registrador(registradores, SW, sw & 0xFCFFFF);
    }
}

fn eh_formato2_exec(op: u8) -> (r: bool)
    ensures
        r == eh_formato2(op),
{
    op == opcodes::ADDR || op == opcodes::CLEAR || op == opcodes::COMPR || op == opcodes::DIVR
        || op == opcodes::MULR || op == opcodes::RMO || op == opcodes::SHIFTL || op
        == opcodes::SHIFTR || op == opcodes::SUBR || op == opcodes::TIXR
}

/// Executes the register-register instruction at `pc`, leaving the program counter alone.
fn executar_formato2(registradores: &mut [u64; 10], memoria: &[u8; 32768], pc: u64) -> (r: Result<
    (),
    ErroExecucao,
>)
    requires
        registradores_validos(old(registradores)@),
        pc < 32768,
    ensures
        (final(registradores)@, r) == formato2_spec(old(registradores)@, memoria@, pc as int),
        registradores_validos(final(registradores)@),
{
    proof {
        lemma_campos(memoria@, pc as int);
        lemma_escrita_valida(old(registradores)@, X as int, old(registradores)@[X as int] + 1);
    }
    let opcode = memoria[pc as usize];
    if opcode == opcodes::TIXR {
        let x = registradores[X];
        set_registrador(registradores, X, x + 1);
        let i = ler_campo(memoria, pc, 8, 4)?;
        if i >= 10 {
            return Err(ErroExecucao::RegistradorDesconhecido);
        }
        let valor = registradores[i as usize];
        let novo_x = registradores[X];
        proof {
            lemma_escrita_valida(registradores@, SW as int, 0);
        }
        comparar(registradores, novo_x, valor);
        return Ok(());
    }
    let i = ler_campo(memoria, pc, 8, 4)?;
    let j = ler_campo(memoria, pc, 12, 4)?;
    let ghost r0 = registradores@;
    if i >= 10 {
        return Err(ErroExecucao::RegistradorDesconhecido);
    }
    if opcode == opcodes::CLEAR {
        set_registrador(registradores, i as usize, 0);
        proof {
            lemma_escrita_valida(r0, i as int, 0);
        }
        return Ok(());
    }
    let valor_i = registradores[i as usize];
    if opcode == opcodes::RMO {
        if j >= 10 {
            return Err(ErroExecucao::RegistradorDesconhecido);
        }
        set_registrador(registradores, j as usize, valor_i);
        proof {
            lemma_escrita_valida(r0, j as int, valor_i as int);
        }
        return Ok(());
    }
    if opcode == opcodes::SHIFTL {
        set_registrador(registradores, i as usize, valor_i << j);
        proof {
            lemma_escrita_valida(r0, i as int, (valor_i << j) as int);
        }
        return Ok(());
    }
    if opcode == opcodes::SHIFTR {
        set_registrador(registradores, i as usize, valor_i >> j);
        proof {
            lemma_escrita_valida(r0, i as int, (valor_i >> j) as int);
        }
        return Ok(());
    }
    if j >= 10 {
        return Err(ErroExecucao::RegistradorDesconhecido);
    }
    let valor_j = registradores[j as usize];
    let destino = j as usize;
    if opcode == opcodes::ADDR {
        set_registrador(registradores, destino, valor_i + valor_j);
        proof {
            lemma_escrita_valida(r0, j as int, valor_i + valor_j);
        }
    } else if opcode == opcodes::SUBR {
        // Adding 2^48, a multiple of every register's width, keeps the difference non-negative.
        set_registrador(registradores, destino, valor_i + 0x1_0000_0000_0000 - valor_j);
        proof {
            let w = largura(j as int);
            let k: int = if j as int == F as int {
                1
            } else {
                0x100_0000
            };
            assert(w * k == 0x1_0000_0000_0000);
            lemma_mod_multiples_vanish(k, valor_i - valor_j, w);
            assert(w * k + (valor_i - valor_j) == valor_i + 0x1_0000_0000_0000 - valor_j);
            lemma_escrita_valida(r0, j as int, valor_i - valor_j);
        }
    } else if opcode == opcodes::MULR {
        let modulo: u128 = if destino == F {
            0x1_0000_0000_0000
        } else {
            0x100_0000
        };
        assert((valor_i as int) * (valor_j as int) <= 0x1_0000_0000_0000 * 0x1_0000_0000_0000)
            by (nonlinear_arith)
            requires
                valor_i < 0x1_0000_0000_0000,
                valor_j < 0x1_0000_0000_0000,
        ;
        let produto = (valor_i as u128) * (valor_j as u128) % modulo;
        set_registrador(registradores, destino, produto as u64);
        proof {
            lemma_mod_twice(valor_i * valor_j, largura(j as int));
            lemma_escrita_valida(r0, j as int, valor_i * valor_j);
        }
    } else if opcode == opcodes::DIVR {
        if valor_j == 0 {
            return Err(ErroExecucao::DivisaoPorZero);
        }
        set_registrador(registradores, destino, valor_i / valor_j);
        proof {
            lemma_escrita_valida(r0, j as int, (valor_i / valor_j) as int);
        }
    } else {
        proof {
            lemma_escrita_valida(r0, SW as int, 0);
        }
        comparar(registradores, valor_i, valor_j);
    }
    Ok(())
}

/// Applies a format 3/4 operation (mode bits cleared) to the operand `valor`.
fn aplicar_operacao(registradores: &mut [u64; 10], operacao: u8, valor: u64) -> (r: Result<
    (),
    ErroExecucao,
>)
    requires
        registradores_validos(old(registradores)@),
        valor < 0x1_0000_0000,
    ensures
        match formato3_spec(old(registradores)@, operacao, valor) {
            Ok(r2) => r is Ok && final(registradores)@ == r2,
            Err(e) => r == Err::<(), ErroExecucao>(e) && final(registradores)@ == old(
                registradores,
            )@,
        },
        registradores_validos(final(registradores)@),
{
    let ghost r0 = registradores@;
    let a = registradores[A];
    let sw = registradores[SW];
    if operacao == opcodes::ADD {
        set_registrador(registradores, A, a + valor);
    } else if operacao == opcodes::AND {
        set_registrador(registradores, A, a & valor);
    } else if operacao == opcodes::OR {
        set_registrador(registradores, A, a | valor);
    } else if operacao == opcodes::RSUB {
        let retorno = registradores[L];
        set_registrador(registradores, PC, retorno);
    } else if operacao == opcodes::J {
        set_registrador(registradores, PC, valor);
    } else if operacao == opcodes::JEQ {
        if sw & 0x030000 == 0 {
            set_registrador(registradores, PC, valor);
        }
    } else if operacao == opcodes::JGT {
        if sw & 0x030000 == 0x010000 {
            set_registrador(registradores, PC, valor);
        }
    } else {
        return Err(ErroExecucao::OpcodeDesconhecido);
    }
    proof {
        lemma_escrita_valida(r0, A as int, 0);
        lemma_escrita_valida(r0, PC as int, 0);
    }
    Ok(())
}

/// Reads, decodes and executes the instruction at the program counter.
pub fn executar_instrucao(registradores: &mut [u64; 10], memoria: &mut [u8; 32768]) -> (r: Result<
    (),
    ErroExecucao,
>)
    requires
        registradores_validos(old(registradores)@),
    ensures
        final(memoria)@ == old(memoria)@,
        (final(registradores)@, r) == passo_spec(old(registradores)@, old(memoria)@),
        registradores_validos(final(registradores)@),
{
    let pc = registradores[PC];
    if pc >= 32768 {
        return Err(ErroExecucao::PcInvalido);
    }
    proof {
        lemma_campos(memoria@, pc as int);
    }
    let opcode = ler_campo(memoria, pc, 0, 8)? as u8;
    let tamanho: u64;
    if eh_formato2_exec(opcode) {
        executar_formato2(registradores, memoria, pc)?;
        tamanho = 2;
    } else {
        let (valor, t) = ler_operando(registradores, memoria, pc)?;
        aplicar_operacao(registradores, opcode & 0xFC, valor)?;
        tamanho = t;
    }
    let ghost r1 = registradores@;
    let novo = registradores[PC] + tamanho;
    set_registrador(registradores, PC, novo);
    proof {
        lemma_escrita_valida(r1, PC as int, novo as int);
    }
    Ok(())
}

} // verus!
