//! The assembler's static tables: mnemonics of directives and instructions, and
//! register names.

use crate::opcodes;
use crate::registradores;
use crate::texto::igual;
use vstd::prelude::*;

verus! {

/// What a mnemonic stands for.
#[derive(Debug, Clone, Copy, PartialEq, Eq, Structural)]
pub enum Operacao {
    Start,
    End,
    Byte,
    Word,
    ReserveWord,
    ReserveBytes,
    /// A machine instruction: its operation code and its length in bytes (2, 3 or 4).
    Instrucao { hex: u8, tamanho: usize },
}

/// The assembler directives.
pub open spec fn diretiva(m: Seq<char>) -> Option<Operacao> {
    if m == seq!['S', 'T', 'A', 'R', 'T'] {
        Some(Operacao::Start)
    } else if m == seq!['E', 'N', 'D'] {
        Some(Operacao::End)
    } else if m == seq!['B', 'Y', 'T', 'E'] {
        Some(Operacao::Byte)
    } else if m == seq!['W', 'O', 'R', 'D'] {
        Some(Operacao::Word)
    } else if m == seq!['R', 'E', 'S', 'W'] {
        Some(Operacao::ReserveWord)
    } else if m == seq!['R', 'E', 'S', 'B'] {
        Some(Operacao::ReserveBytes)
    } else {
        None
    }
}

/// Operation codes of the two-byte register instructions.
pub open spec fn opcode_formato2(m: Seq<char>) -> Option<u8> {
    if m == seq!['A', 'D', 'D', 'R'] {
        Some(opcodes::ADDR)
    } else if m == seq!['C', 'L', 'E', 'A', 'R'] {
        Some(opcodes::CLEAR)
    } else if m == seq!['C', 'O', 'M', 'P', 'R'] {
        Some(opcodes::COMPR)
    } else if m == seq!['D', 'I', 'V', 'R'] {
        Some(opcodes::DIVR)
    } else if m == seq!['M', 'U', 'L', 'R'] {
        Some(opcodes::MULR)
    } else if m == seq!['R', 'M', 'O'] {
        Some(opcodes::RMO)
    } else if m == seq!['S', 'H', 'I', 'F', 'T', 'L'] {
        Some(opcodes::SHIFTL)
    } else if m == seq!['S', 'H', 'I', 'F', 'T', 'R'] {
        Some(opcodes::SHIFTR)
    } else if m == seq!['S', 'U', 'B', 'R'] {
        Some(opcodes::SUBR)
    } else if m == seq!['T', 'I', 'X', 'R'] {
        Some(opcodes::TIXR)
    } else {
        None
    }
}

/// Operation codes of the instructions with a memory operand (format 3, or 4 with `+`).
pub open spec fn opcode_formato3(m: Seq<char>) -> Option<u8> {
    if m == seq!['A', 'D', 'D'] {
        Some(opcodes::ADD)
    } else if m == seq!['A', 'N', 'D'] {
        Some(opcodes::AND)
    } else if m == seq!['C', 'O', 'M', 'P'] {
        Some(opcodes::COMP)
    } else if m == seq!['D', 'I', 'V'] {
        Some(opcodes::DIV)
    } else if m == seq!['J'] {
        Some(opcodes::J)
    } else if m == seq!['J', 'E', 'Q'] {
        Some(opcodes::JEQ)
    } else if m == seq!['J', 'G', 'T'] {
        Some(opcodes::JGT)
    } else if m == seq!['J', 'L', 'T'] {
        Some(opcodes::JLT)
    } else if m == seq!['J', 'S', 'U', 'B'] {
        Some(opcodes::JSUB)
    } else if m == seq!['L', 'D', 'A'] {
        Some(opcodes::LDA)
    } else if m == seq!['L', 'D', 'B'] {
        Some(opcodes::LDB)
    } else if m == seq!['L', 'D', 'C', 'H'] {
        Some(opcodes::LDCH)
    } else if m == seq!['L', 'D', 'L'] {
        Some(opcodes::LDL)
    } else if m == seq!['L', 'D', 'S'] {
        Some(opcodes::LDS)
    } else if m == seq!['L', 'D', 'T'] {
        Some(opcodes::LDT)
    } else if m == seq!['L', 'D', 'X'] {
        Some(opcodes::LDX)
    } else if m == seq!['M', 'U', 'L'] {
        Some(opcodes::MUL)
    } else if m == seq!['O', 'R'] {
        Some(opcodes::OR)
    } else if m == seq!['R', 'S', 'U', 'B'] {
        Some(opcodes::RSUB)
    } else if m == seq!['S', 'T', 'A'] {
        Some(opcodes::STA)
    } else if m == seq!['S', 'T', 'B'] {
        Some(opcodes::STB)
    } else if m == seq!['S', 'T', 'C', 'H'] {
        Some(opcodes::STCH)
    } else if m == seq!['S', 'T', 'L'] {
        Some(opcodes::STL)
    } else if m == seq!['S', 'T', 'S'] {
        Some(opcodes::STS)
    } else if m == seq!['S', 'T', 'T'] {
        Some(opcodes::STT)
    } else if m == seq!['S', 'T', 'X'] {
        Some(opcodes::STX)
    } else if m == seq!['S', 'U', 'B'] {
        Some(opcodes::SUB)
    } else if m == seq!['T', 'I', 'X'] {
        Some(opcodes::TIX)
    } else {
        None
    }
}

/// What a mnemonic stands for; a leading `+` asks for the extended (4-byte) form.
pub open spec fn operacao_de(m: Seq<char>) -> Option<Operacao> {
    if diretiva(m) is Some {
        diretiva(m)
    } else if opcode_formato2(m) is Some {
        Some(Operacao::Instrucao { hex: opcode_formato2(m)->0, tamanho: 2 })
    } else if opcode_formato3(m) is Some {
        Some(Operacao::Instrucao { hex: opcode_formato3(m)->0, tamanho: 3 })
    } else if m.len() > 0 && m[0] == '+' && opcode_formato3(m.drop_first()) is Some {
        Some(Operacao::Instrucao { hex: opcode_formato3(m.drop_first())->0, tamanho: 4 })
    } else {
        None
    }
}

/// Register numbers by name.
pub open spec fn registrador_de(m: Seq<char>) -> Option<u8> {
    if m == seq!['A'] {
        Some(registradores::A as u8)
    } else if m == seq!['X'] {
        Some(registradores::X as u8)
    } else if m == seq!['L'] {
        Some(registradores::L as u8)
    } else if m == seq!['B'] {
        Some(registradores::B as u8)
    } else if m == seq!['S'] {
        Some(registradores::S as u8)
    } else if m == seq!['T'] {
        Some(registradores::T as u8)
    } else if m == seq!['F'] {
        Some(registradores::F as u8)
    } else if m == seq!['P', 'C'] {
        Some(registradores::PC as u8)
    } else if m == seq!['S', 'W'] {
        Some(registradores::SW as u8)
    } else {
        None
    }
}

fn diretiva_exec(m: &[char]) -> (r: Option<Operacao>)
    ensures
        r == diretiva(m@),
{
    let k: [char; 5] = ['S', 'T', 'A', 'R', 'T'];
    proof {
        assert(k@ =~= seq!['S', 'T', 'A', 'R', 'T']);
    }
    if igual(m, k.as_slice()) {
        return Some(Operacao::Start);
    }
    let k: [char; 3] = ['E', 'N', 'D'];
    proof {
        assert(k@ =~= seq!['E', 'N', 'D']);
    }
    if igual(m, k.as_slice()) {
        return Some(Operacao::End);
    }
    let k: [char; 4] = ['B', 'Y', 'T', 'E'];
    proof {
        assert(k@ =~= seq!['B', 'Y', 'T', 'E']);
    }
    if igual(m, k.as_slice()) {
        return Some(Operacao::Byte);
    }
    let k: [char; 4] = ['W', 'O', 'R', 'D'];
    proof {
        assert(k@ =~= seq!['W', 'O', 'R', 'D']);
    }
    if igual(m, k.as_slice()) {
        return Some(Operacao::Word);
    }
    let k: [char; 4] = ['R', 'E', 'S', 'W'];
    proof {
        assert(k@ =~= seq!['R', 'E', 'S', 'W']);
    }
    if igual(m, k.as_slice()) {
        return Some(Operacao::ReserveWord);
    }
    let k: [char; 4] = ['R', 'E', 'S', 'B'];
    proof {
        assert(k@ =~= seq!['R', 'E', 'S', 'B']);
    }
    if igual(m, k.as_slice()) {
        return Some(Operacao::ReserveBytes);
    }
    None
}

fn opcode_formato2_exec(m: &[char]) -> (r: Option<u8>)
    ensures
        r == opcode_formato2(m@),
{
    let k: [char; 4] = ['A', 'D', 'D', 'R'];
    proof {
        assert(k@ =~= seq!['A', 'D', 'D', 'R']);
    }
    if igual(m, k.as_slice()) {
        return Some(opcodes::ADDR);
    }
    let k: [char; 5] = ['C', 'L', 'E', 'A', 'R'];
    proof {
        assert(k@ =~= seq!['C', 'L', 'E', 'A', 'R']);
    }
    if igual(m, k.as_slice()) {
        return Some(opcodes::CLEAR);
    }
    let k: [char; 5] = ['C', 'O', 'M', 'P', 'R'];
    proof {
        assert(k@ =~= seq!['C', 'O', 'M', 'P', 'R']);
    }
    if igual(m, k.as_slice()) {
        return Some(opcodes::COMPR);
    }
    let k: [char; 4] = ['D', 'I', 'V', 'R'];
    proof {
        assert(k@ =~= seq!['D', 'I', 'V', 'R']);
    }
    if igual(m, k.as_slice()) {
        return Some(opcodes::DIVR);
    }
    let k: [char; 4] = ['M', 'U', 'L', 'R'];
    proof {
        assert(k@ =~= seq!['M', 'U', 'L', 'R']);
    }
    if igual(m, k.as_slice()) {
        return Some(opcodes::MULR);
    }
    let k: [char; 3] = ['R', 'M', 'O'];
    proof {
        assert(k@ =~= seq!['R', 'M', 'O']);
    }
    if igual(m, k.as_slice()) {
        return Some(opcodes::RMO);
    }
    let k: [char; 6] = ['S', 'H', 'I', 'F', 'T', 'L'];
    proof {
        assert(k@ =~= seq!['S', 'H', 'I', 'F', 'T', 'L']);
    }
    if igual(m, k.as_slice()) {
        return Some(opcodes::SHIFTL);
    }
    let k: [char; 6] = ['S', 'H', 'I', 'F', 'T', 'R'];
    proof {
        assert(k@ =~= seq!['S', 'H', 'I', 'F', 'T', 'R']);
    }
    if igual(m, k.as_slice()) {
        return Some(opcodes::SHIFTR);
    }
    let k: [char; 4] = ['S', 'U', 'B', 'R'];
    proof {
        assert(k@ =~= seq!['S', 'U', 'B', 'R']);
    }
    if igual(m, k.as_slice()) {
        return Some(opcodes::SUBR);
    }
    let k: [char; 4] = ['T', 'I', 'X', 'R'];
    proof {
        assert(k@ =~= seq!['T', 'I', 'X', 'R']);
    }
    if igual(m, k.as_slice()) {
        return Some(opcodes::TIXR);
    }
    None
}

fn opcode_formato3_exec(m: &[char]) -> (r: Option<u8>)
    ensures
        r == opcode_formato3(m@),
{
    let k: [char; 3] = ['A', 'D', 'D'];
    proof {
        assert(k@ =~= seq!['A', 'D', 'D']);
    }
    if igual(m, k.as_slice()) {
        return Some(opcodes::ADD);
    }
    let k: [char; 3] = ['A', 'N', 'D'];
    proof {
        assert(k@ =~= seq!['A', 'N', 'D']);
    }
    if igual(m, k.as_slice()) {
        return Some(opcodes::AND);
    }
    let k: [char; 4] = ['C', 'O', 'M', 'P'];
    proof {
        assert(k@ =~= seq!['C', 'O', 'M', 'P']);
    }
    if igual(m, k.as_slice()) {
        return Some(opcodes::COMP);
    }
    let k: [char; 3] = ['D', 'I', 'V'];
    proof {
        assert(k@ =~= seq!['D', 'I', 'V']);
    }
    if igual(m, k.as_slice()) {
        return Some(opcodes::DIV);
    }
    let k: [char; 1] = ['J'];
    proof {
        assert(k@ =~= seq!['J']);
    }
    if igual(m, k.as_slice()) {
        return Some(opcodes::J);
    }
    let k: [char; 3] = ['J', 'E', 'Q'];
    proof {
        assert(k@ =~= seq!['J', 'E', 'Q']);
    }
    if igual(m, k.as_slice()) {
        return Some(opcodes::JEQ);
    }
    let k: [char; 3] = ['J', 'G', 'T'];
    proof {
        assert(k@ =~= seq!['J', 'G', 'T']);
    }
    if igual(m, k.as_slice()) {
        return Some(opcodes::JGT);
    }
    let k: [char; 3] = ['J', 'L', 'T'];
    proof {
        assert(k@ =~= seq!['J', 'L', 'T']);
    }
    if igual(m, k.as_slice()) {
        return Some(opcodes::JLT);
    }
    let k: [char; 4] = ['J', 'S', 'U', 'B'];
    proof {
        assert(k@ =~= seq!['J', 'S', 'U', 'B']);
    }
    if igual(m, k.as_slice()) {
        return Some(opcodes::JSUB);
    }
    let k: [char; 3] = ['L', 'D', 'A'];
    proof {
        assert(k@ =~= seq!['L', 'D', 'A']);
    }
    if igual(m, k.as_slice()) {
        return Some(opcodes::LDA);
    }
    let k: [char; 3] = ['L', 'D', 'B'];
    proof {
        assert(k@ =~= seq!['L', 'D', 'B']);
    }
    if igual(m, k.as_slice()) {
        return Some(opcodes::LDB);
    }
    let k: [char; 4] = ['L', 'D', 'C', 'H'];
    proof {
        assert(k@ =~= seq!['L', 'D', 'C', 'H']);
    }
    if igual(m, k.as_slice()) {
        return Some(opcodes::LDCH);
    }
    let k: [char; 3] = ['L', 'D', 'L'];
    proof {
        assert(k@ =~= seq!['L', 'D', 'L']);
    }
    if igual(m, k.as_slice()) {
        return Some(opcodes::LDL);
    }
    let k: [char; 3] = ['L', 'D', 'S'];
    proof {
        assert(k@ =~= seq!['L', 'D', 'S']);
    }
    if igual(m, k.as_slice()) {
        return Some(opcodes::LDS);
    }
    let k: [char; 3] = ['L', 'D', 'T'];
    proof {
        assert(k@ =~= seq!['L', 'D', 'T']);
    }
    if igual(m, k.as_slice()) {
        return Some(opcodes::LDT);
    }
    let k: [char; 3] = ['L', 'D', 'X'];
    proof {
        assert(k@ =~= seq!['L', 'D', 'X']);
    }
    if igual(m, k.as_slice()) {
        return Some(opcodes::LDX);
    }
    let k: [char; 3] = ['M', 'U', 'L'];
    proof {
        assert(k@ =~= seq!['M', 'U', 'L']);
    }
    if igual(m, k.as_slice()) {
        return Some(opcodes::MUL);
    }
    let k: [char; 2] = ['O', 'R'];
    proof {
        assert(k@ =~= seq!['O', 'R']);
    }
    if igual(m, k.as_slice()) {
        return Some(opcodes::OR);
    }
    let k: [char; 4] = ['R', 'S', 'U', 'B'];
    proof {
        assert(k@ =~= seq!['R', 'S', 'U', 'B']);
    }
    if igual(m, k.as_slice()) {
        return Some(opcodes::RSUB);
    }
    let k: [char; 3] = ['S', 'T', 'A'];
    proof {
        assert(k@ =~= seq!['S', 'T', 'A']);
    }
    if igual(m, k.as_slice()) {
        return Some(opcodes::STA);
    }
    let k: [char; 3] = ['S', 'T', 'B'];
    proof {
        assert(k@ =~= seq!['S', 'T', 'B']);
    }
    if igual(m, k.as_slice()) {
        return Some(opcodes::STB);
    }
    let k: [char; 4] = ['S', 'T', 'C', 'H'];
    proof {
        assert(k@ =~= seq!['S', 'T', 'C', 'H']);
    }
    if igual(m, k.as_slice()) {
        return Some(opcodes::STCH);
    }
    let k: [char; 3] = ['S', 'T', 'L'];
    proof {
        assert(k@ =~= seq!['S', 'T', 'L']);
    }
    if igual(m, k.as_slice()) {
        return Some(opcodes::STL);
    }
    let k: [char; 3] = ['S', 'T', 'S'];
    proof {
        assert(k@ =~= seq!['S', 'T', 'S']);
    }
    if igual(m, k.as_slice()) {
        return Some(opcodes::STS);
    }
    let k: [char; 3] = ['S', 'T', 'T'];
    proof {
        assert(k@ =~= seq!['S', 'T', 'T']);
    }
    if igual(m, k.as_slice()) {
        return Some(opcodes::STT);
    }
    let k: [char; 3] = ['S', 'T', 'X'];
    proof {
        assert(k@ =~= seq!['S', 'T', 'X']);
    }
    if igual(m, k.as_slice()) {
        return Some(opcodes::STX);
    }
    let k: [char; 3] = ['S', 'U', 'B'];
    proof {
        assert(k@ =~= seq!['S', 'U', 'B']);
    }
    if igual(m, k.as_slice()) {
        return Some(opcodes::SUB);
    }
    let k: [char; 3] = ['T', 'I', 'X'];
    proof {
        assert(k@ =~= seq!['T', 'I', 'X']);
    }
    if igual(m, k.as_slice()) {
        return Some(opcodes::TIX);
    }
    None
}

/// The number of the register named `m`.
pub fn buscar_registrador(m: &[char]) -> (r: Option<u8>)
    ensures
        r == registrador_de(m@),
{
    let k: [char; 1] = ['A'];
    proof {
        assert(k@ =~= seq!['A']);
    }
    if igual(m, k.as_slice()) {
        return Some(registradores::A as u8);
    }
    let k: [char; 1] = ['X'];
    proof {
        assert(k@ =~= seq!['X']);
    }
    if igual(m, k.as_slice()) {
        return Some(registradores::X as u8);
    }
    let k: [char; 1] = ['L'];
    proof {
        assert(k@ =~= seq!['L']);
    }
    if igual(m, k.as_slice()) {
        return Some(registradores::L as u8);
    }
    let k: [char; 1] = ['B'];
    proof {
        assert(k@ =~= seq!['B']);
    }
    if igual(m, k.as_slice()) {
        return Some(registradores::B as u8);
    }
    let k: [char; 1] = ['S'];
    proof {
        assert(k@ =~= seq!['S']);
    }
    if igual(m, k.as_slice()) {
        return Some(registradores::S as u8);
    }
    let k: [char; 1] = ['T'];
    proof {
        assert(k@ =~= seq!['T']);
    }
    if igual(m, k.as_slice()) {
        return Some(registradores::T as u8);
    }
    let k: [char; 1] = ['F'];
    proof {
        assert(k@ =~= seq!['F']);
    }
    if igual(m, k.as_slice()) {
        return Some(registradores::F as u8);
    }
    let k: [char; 2] = ['P', 'C'];
    proof {
        assert(k@ =~= seq!['P', 'C']);
    }
    if igual(m, k.as_slice()) {
        return Some(registradores::PC as u8);
    }
    let k: [char; 2] = ['S', 'W'];
    proof {
        assert(k@ =~= seq!['S', 'W']);
    }
    if igual(m, k.as_slice()) {
        return Some(registradores::SW as u8);
    }
    None
}

/// What the mnemonic `m` stands for.
pub fn buscar_operacao(m: &[char]) -> (r: Option<Operacao>)
    ensures
        r == operacao_de(m@),
{
    if let Some(d) = diretiva_exec(m) {
        return Some(d);
    }
    if let Some(op) = opcode_formato2_exec(m) {
        return Some(Operacao::Instrucao { hex: op, tamanho: 2 });
    }
    if let Some(op) = opcode_formato3_exec(m) {
        return Some(Operacao::Instrucao { hex: op, tamanho: 3 });
    }
    if m.len() > 0 && m[0] == '+' {
        let mut resto: Vec<char> = Vec::new();
        let mut i: usize = 1;
        while i < m.len()
            invariant
                1 <= i <= m@.len(),
                resto@ == m@.subrange(1, i as int),
            decreases m@.len() - i,
        {
            resto.push(m[i]);
            i = i + 1;
            assert(resto@ =~= m@.subrange(1, i as int));
        }
        assert(resto@ =~= m@.drop_first());
        if let Some(op) = opcode_formato3_exec(resto.as_slice()) {
            return Some(Operacao::Instrucao { hex: op, tamanho: 4 });
        }
    }
    None
}

} // verus!
