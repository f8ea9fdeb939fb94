//! The two-pass assembler: pass 1 builds the symbol table, pass 2 emits object code.
//!
//! The first line that is not a comment names the program; when its second word is
//! `START`, the third is the starting address (decimal), else the program starts at 0.
//! Every later line, cut at its first `.`, is `[label] mnemonic [operand]`: a first word
//! that is no mnemonic is a label. `END` ends the program.

use crate::executor::{
    campo12,
    campo20,
    eh_formato2,
    endereco_alvo,
    flags_validas,
    tamanho_formato,
};
use crate::hex::{
    hex_bytes,
    hex_bytes_exec,
    hex_n,
    hex_n_exec,
    lemma_hex_bytes,
    lemma_hex_n,
    pares_hex,
    valor_digito,
    valor_digito_exec,
    valor_hex,
};
use crate::registradores::X;
use vstd::arithmetic::div_mod::*;
use crate::tabela_operacoes::{buscar_operacao, buscar_registrador, operacao_de, registrador_de, Operacao};
use crate::texto::{
    anexar,
    antes_de,
    antes_de_exec,
    caracteres,
    dividir_linhas,
    igual,
    itens,
    linhas,
    numero,
    ler_numero,
    palavras,
    pedacos,
    separar_primeira,
    separar_primeira_exec,
    sem_nas_pontas,
    sem_nas_pontas_exec,
    texto,
    trecho,
    vistas,
};
use vstd::prelude::*;

verus! {

/// An assembly error as the contracts see it.
pub enum ModeloErroMontagem {
    SimboloDuplicado(Seq<char>),
    OperandoInvalido(Seq<char>),
    OperacaoDesconhecida(Seq<char>),
    OperandoGrandeDemais(Seq<char>),
    RegistradorInvalido(Seq<char>),
    NomeProgramaLongoDemais(Seq<char>),
    ProgramaGrandeDemais,
}

/// Why assembling failed.
#[derive(Debug, PartialEq, Eq)]
pub enum ErroMontagem {
    /// A label defined twice.
    SimboloDuplicado(String),
    /// An operand that is neither a known symbol nor a number, or is malformed.
    OperandoInvalido(String),
    /// A mnemonic that is neither a directive nor an instruction.
    OperacaoDesconhecida(String),
    /// A value too wide for its field: 12 bits in format 3, 20 in format 4, 24 in `WORD`.
    OperandoGrandeDemais(String),
    /// A register operand that is neither a register name nor a digit.
    RegistradorInvalido(String),
    /// A program name longer than six characters.
    NomeProgramaLongoDemais(String),
    /// Addresses or code that do not fit the object format's fields.
    ProgramaGrandeDemais,
}

impl ErroMontagem {
    pub open spec fn vista(&self) -> ModeloErroMontagem {
        match self {
            ErroMontagem::SimboloDuplicado(s) => ModeloErroMontagem::SimboloDuplicado(s@),
            ErroMontagem::OperandoInvalido(s) => ModeloErroMontagem::OperandoInvalido(s@),
            ErroMontagem::OperacaoDesconhecida(s) => ModeloErroMontagem::OperacaoDesconhecida(s@),
            ErroMontagem::OperandoGrandeDemais(s) => ModeloErroMontagem::OperandoGrandeDemais(s@),
            ErroMontagem::RegistradorInvalido(s) => ModeloErroMontagem::RegistradorInvalido(s@),
            ErroMontagem::NomeProgramaLongoDemais(s) => ModeloErroMontagem::NomeProgramaLongoDemais(
                s@,
            ),
            ErroMontagem::ProgramaGrandeDemais => ModeloErroMontagem::ProgramaGrandeDemais,
        }
    }
}

pub open spec fn palavra_start() -> Seq<char> {
    seq!['S', 'T', 'A', 'R', 'T']
}

/// A line whose first word starts with `.`.
pub open spec fn eh_linha_comentario(l: Seq<char>) -> bool {
    let w = palavras(l);
    w.len() > 0 && w[0].len() > 0 && w[0][0] == '.'
}

/// Index of the first line at or after `i` that is not a comment.
pub open spec fn primeira_nao_comentario(ls: Seq<Seq<char>>, i: int) -> int
    decreases ls.len() - i,
{
    if i < 0 || i >= ls.len() {
        ls.len() as int
    } else if !eh_linha_comentario(ls[i]) {
        i
    } else {
        primeira_nao_comentario(ls, i + 1)
    }
}

pub open spec fn numero_ou_zero(s: Seq<char>) -> nat {
    match numero(s) {
        Some(v) => v as nat,
        None => 0,
    }
}

/// The starting address that the header line gives.
pub open spec fn inicio_programa(l: Seq<char>) -> nat {
    let w = palavras(l);
    if w.len() >= 1 && w[0] != palavra_start() {
        if w.len() >= 3 && w[1] == palavra_start() {
            numero_ou_zero(w[2])
        } else {
            0
        }
    } else if w.len() >= 2 {
        numero_ou_zero(w[1])
    } else {
        0
    }
}

/// The program name that the header line gives.
pub open spec fn nome_programa(l: Seq<char>) -> Seq<char> {
    let w = palavras(l);
    if w.len() >= 1 && w[0] != palavra_start() {
        w[0]
    } else {
        seq![]
    }
}

/// `s` without the quotes at either end.
pub open spec fn sem_aspas(s: Seq<char>) -> Seq<char> {
    sem_nas_pontas(s, '\'')
}

/// Bytes taken by a `BYTE` operand: one per character of `C'...'`, one per two hex
/// digits (rounded up) of `X'...'`.
pub open spec fn tamanho_byte(operando: Seq<char>) -> nat {
    if operando.len() == 0 {
        0
    } else {
        let v = sem_aspas(operando.drop_first());
        if operando[0] == 'C' {
            v.len()
        } else if operando[0] == 'X' {
            (v.len() + 1) / 2
        } else {
            0
        }
    }
}

/// How far an operation moves the location counter; none for `END`.
pub open spec fn avanco(op: Operacao, operando: Seq<char>) -> Option<nat> {
    match op {
        Operacao::Start => Some(0),
        Operacao::End => None,
        Operacao::Byte => Some(tamanho_byte(operando)),
        Operacao::Word => Some(3),
        Operacao::ReserveWord => Some(3 * numero_ou_zero(operando)),
        Operacao::ReserveBytes => Some(numero_ou_zero(operando)),
        Operacao::Instrucao { hex, tamanho } => Some(tamanho as nat),
    }
}

/// Pass 1 after some lines: the location counter, the symbols in order of definition,
/// and whether `END` was seen.
pub struct EstadoPasso1 {
    pub contador: nat,
    pub simbolos: Seq<(Seq<char>, nat)>,
    pub terminado: bool,
}

/// The address of the first symbol named `nome`, searching from `i`.
pub open spec fn simbolo_desde(t: Seq<(Seq<char>, nat)>, i: int, nome: Seq<char>) -> Option<nat>
    decreases t.len() - i,
{
    if i < 0 || i >= t.len() {
        None
    } else if t[i].0 == nome {
        Some(t[i].1)
    } else {
        simbolo_desde(t, i + 1, nome)
    }
}

pub open spec fn simbolo(t: Seq<(Seq<char>, nat)>, nome: Seq<char>) -> Option<nat> {
    simbolo_desde(t, 0, nome)
}

/// The counter after an operation; addresses must fit in a `usize`.
pub open spec fn avancar_contador(e: EstadoPasso1, op: Operacao, operando: Seq<char>) -> Result<
    EstadoPasso1,
    ModeloErroMontagem,
> {
    match avanco(op, operando) {
        None => Ok(EstadoPasso1 { terminado: true, ..e }),
        Some(n) => if e.contador + n <= usize::MAX {
            Ok(EstadoPasso1 { contador: e.contador + n, ..e })
        } else {
            Err(ModeloErroMontagem::ProgramaGrandeDemais)
        },
    }
}

/// The effect of one line on pass 1.
pub open spec fn linha_passo1(e: EstadoPasso1, l: Seq<char>) -> Result<
    EstadoPasso1,
    ModeloErroMontagem,
> {
    if e.terminado {
        Ok(e)
    } else {
        match separar_primeira(antes_de(l, '.')) {
            None => Ok(e),
            Some((p, resto)) => match operacao_de(p) {
                Some(op) => avancar_contador(e, op, resto),
                None => if simbolo(e.simbolos, p) is Some {
                    Err(ModeloErroMontagem::SimboloDuplicado(p))
                } else {
                    let e2 = EstadoPasso1 { simbolos: e.simbolos.push((p, e.contador)), ..e };
                    match separar_primeira(resto) {
                        None => Ok(e2),
                        Some((m, operando)) => match operacao_de(m) {
                            None => Ok(e2),
                            Some(op) => avancar_contador(e2, op, operando),
                        },
                    }
                },
            },
        }
    }
}

pub open spec fn passo1_ate(ls: Seq<Seq<char>>, n: nat, e0: EstadoPasso1) -> Result<
    EstadoPasso1,
    ModeloErroMontagem,
>
    decreases n,
{
    if n == 0 {
        Ok(e0)
    } else {
        match passo1_ate(ls, (n - 1) as nat, e0) {
            Ok(e) => linha_passo1(e, ls[n - 1]),
            Err(x) => Err(x),
        }
    }
}

/// Index of the header line.
pub open spec fn linha_cabecalho(s: Seq<char>) -> int {
    primeira_nao_comentario(linhas(s), 0)
}

/// The lines after the header.
pub open spec fn corpo_programa(s: Seq<char>) -> Seq<Seq<char>> {
    let ls = linhas(s);
    let k = linha_cabecalho(s);
    if k < ls.len() {
        ls.subrange(k + 1, ls.len() as int)
    } else {
        seq![]
    }
}

pub open spec fn contador_inicial(s: Seq<char>) -> nat {
    let ls = linhas(s);
    let k = linha_cabecalho(s);
    if k < ls.len() {
        inicio_programa(ls[k])
    } else {
        0
    }
}

/// Pass 1 over a whole source text.
pub open spec fn passo1_spec(s: Seq<char>) -> Result<EstadoPasso1, ModeloErroMontagem> {
    let corpo = corpo_programa(s);
    passo1_ate(
        corpo,
        corpo.len(),
        EstadoPasso1 { contador: contador_inicial(s), simbolos: seq![], terminado: false },
    )
}

/// One symbol: a label and its address.
struct Simbolo {
    nome: Vec<char>,
    endereco: usize,
}

/// The symbol table that pass 1 builds: labels with their addresses, in order of definition,
/// no label twice.
pub struct TabelaSimbolos {
    simbolos: Vec<Simbolo>,
}

spec fn modelo_simbolos(v: Seq<Simbolo>) -> Seq<(Seq<char>, nat)> {
    v.map_values(|s: Simbolo| (s.nome@, s.endereco as nat))
}

impl TabelaSimbolos {
    /// The labels and their addresses, in order of definition.
    pub closed spec fn modelo(&self) -> Seq<(Seq<char>, nat)> {
        modelo_simbolos(self.simbolos@)
    }

    /// Number of symbols.
    pub fn len(&self) -> (r: usize)
        ensures
            r == self.modelo().len(),
    {
        self.simbolos.len()
    }

    /// The address of a label, if it is defined.
    pub fn get(&self, nome: &str) -> (r: Option<usize>)
        ensures
            match simbolo(self.modelo(), nome@) {
                Some(v) => r == Some(v as usize),
                None => r is None,
            },
    {
        let n = caracteres(nome);
        buscar_simbolo(&self.simbolos, &n)
    }
}

fn buscar_simbolo(simbolos: &Vec<Simbolo>, nome: &Vec<char>) -> (r: Option<usize>)
    ensures
        match simbolo(modelo_simbolos(simbolos@), nome@) {
            Some(v) => r == Some(v as usize) && v <= usize::MAX,
            None => r is None,
        },
{
    let ghost m = modelo_simbolos(simbolos@);
    let mut i: usize = 0;
    while i < simbolos.len()
        invariant
            i <= simbolos@.len(),
            m == modelo_simbolos(simbolos@),
            simbolo_desde(m, 0, nome@) == simbolo_desde(m, i as int, nome@),
        decreases simbolos@.len() - i,
    {
        assert(m[i as int] == (simbolos@[i as int].nome@, simbolos@[i as int].endereco as nat));
        if igual(simbolos[i].nome.as_slice(), nome.as_slice()) {
            return Some(simbolos[i].endereco);
        }
        i = i + 1;
    }
    None
}

struct EstadoP1Exec {
    contador: usize,
    simbolos: Vec<Simbolo>,
    terminado: bool,
}

spec fn vista_p1(e: EstadoP1Exec) -> EstadoPasso1 {
    EstadoPasso1 {
        contador: e.contador as nat,
        simbolos: modelo_simbolos(e.simbolos@),
        terminado: e.terminado,
    }
}

fn sem_aspas_exec(s: &[char]) -> (r: Vec<char>)
    ensures
        r@ == sem_aspas(s@),
{
    sem_nas_pontas_exec(s, '\'')
}

fn tamanho_byte_exec(operando: &[char]) -> (r: usize)
    ensures
        r as nat == tamanho_byte(operando@),
{
    if operando.len() == 0 {
        return 0;
    }
    let resto = trecho(operando, 1, operando.len());
    assert(resto@ =~= operando@.drop_first());
    let v = sem_aspas_exec(resto.as_slice());
    if operando[0] == 'C' {
        v.len()
    } else if operando[0] == 'X' {
        v.len() / 2 + v.len() % 2
    } else {
        0
    }
}

fn numero_ou_zero_exec(s: &[char]) -> (r: usize)
    ensures
        r as nat == numero_ou_zero(s@),
{
    match ler_numero(s) {
        Some(v) => v,
        None => 0,
    }
}

fn avanco_exec(op: Operacao, operando: &[char]) -> (r: Option<u128>)
    ensures
        match avanco(op, operando@) {
            None => r is None,
            Some(n) => r == Some(n as u128) && n <= 3 * (usize::MAX as nat),
        },
{
    match op {
        Operacao::Start => Some(0),
        Operacao::End => None,
        Operacao::Byte => Some(tamanho_byte_exec(operando) as u128),
        Operacao::Word => Some(3),
        Operacao::ReserveWord => Some(3 * (numero_ou_zero_exec(operando) as u128)),
        Operacao::ReserveBytes => Some(numero_ou_zero_exec(operando) as u128),
        Operacao::Instrucao { hex, tamanho } => Some(tamanho as u128),
    }
}

fn avancar_exec(e: &mut EstadoP1Exec, op: Operacao, operando: &[char]) -> (r: Result<(), ErroMontagem>)
    ensures
        match avancar_contador(vista_p1(*old(e)), op, operando@) {
            Ok(e2) => r is Ok && vista_p1(*final(e)) == e2,
            Err(x) => r is Err && r->Err_0.vista() == x,
        },
{
    match avanco_exec(op, operando) {
        None => {
            e.terminado = true;
            Ok(())
        },
        Some(n) => {
            if (e.contador as u128) + n <= usize::MAX as u128 {
                e.contador = ((e.contador as u128) + n) as usize;
                Ok(())
            } else {
                Err(ErroMontagem::ProgramaGrandeDemais)
            }
        },
    }
}

fn linha_passo1_exec(e: &mut EstadoP1Exec, l: &Vec<char>) -> (r: Result<(), ErroMontagem>)
    ensures
        match linha_passo1(vista_p1(*old(e)), l@) {
            Ok(e2) => r is Ok && vista_p1(*final(e)) == e2,
            Err(x) => r is Err && r->Err_0.vista() == x,
        },
{
    if e.terminado {
        return Ok(());
    }
    let sem_comentario = antes_de_exec(l.as_slice(), '.');
    match separar_primeira_exec(sem_comentario.as_slice()) {
        None => Ok(()),
        Some((p, resto)) => match buscar_operacao(p.as_slice()) {
            Some(op) => avancar_exec(e, op, resto.as_slice()),
            None => {
                if buscar_simbolo(&e.simbolos, &p).is_some() {
                    return Err(ErroMontagem::SimboloDuplicado(texto(p.as_slice())));
                }
                let ghost antes = e.simbolos@;
                e.simbolos.push(Simbolo { nome: p, endereco: e.contador });
                assert(modelo_simbolos(e.simbolos@) =~= modelo_simbolos(antes).push(
                    (p@, e.contador as nat),
                ));
                match separar_primeira_exec(resto.as_slice()) {
                    None => Ok(()),
                    Some((m, operando)) => match buscar_operacao(m.as_slice()) {
                        None => Ok(()),
                        Some(op) => avancar_exec(e, op, operando.as_slice()),
                    },
                }
            },
        },
    }
}

fn eh_linha_comentario_exec(l: &Vec<char>) -> (r: bool)
    ensures
        r == eh_linha_comentario(l@),
{
    let w = pedacos(l.as_slice(), false);
    if w.len() > 0 {
        assert(vistas(w@)[0] == w@[0]@);
    }
    w.len() > 0 && w[0].len() > 0 && w[0][0] == '.'
}

/// The header's starting address and program name.
fn ler_cabecalho(l: &Vec<char>) -> (r: (usize, Vec<char>))
    ensures
        r.0 as nat == inicio_programa(l@),
        r.1@ == nome_programa(l@),
{
    let w = pedacos(l.as_slice(), false);
    let kw: [char; 5] = ['S', 'T', 'A', 'R', 'T'];
    assert(kw@ =~= palavra_start());
    if w.len() >= 1 {
        assert(vistas(w@)[0] == w@[0]@);
    }
    if w.len() >= 2 {
        assert(vistas(w@)[1] == w@[1]@);
    }
    if w.len() >= 3 {
        assert(vistas(w@)[2] == w@[2]@);
    }
    if w.len() >= 1 && !igual(w[0].as_slice(), kw.as_slice()) {
        let nome = trecho(w[0].as_slice(), 0, w[0].len());
        assert(nome@ =~= w@[0]@);
        if w.len() >= 3 && igual(w[1].as_slice(), kw.as_slice()) {
            (numero_ou_zero_exec(w[2].as_slice()), nome)
        } else {
            (0, nome)
        }
    } else if w.len() >= 2 {
        (numero_ou_zero_exec(w[1].as_slice()), Vec::new())
    } else {
        (0, Vec::new())
    }
}

/// The lines of a source text and the index of its header line.
fn preparar(assembly: &str) -> (r: (Vec<Vec<char>>, usize))
    ensures
        vistas(r.0@) == linhas(assembly@),
        r.1 as int == linha_cabecalho(assembly@),
        r.1 <= r.0@.len(),
{
    let cs = caracteres(assembly);
    let ls = dividir_linhas(cs.as_slice());
    let ghost vl = vistas(ls@);
    let mut k: usize = 0;
    while k < ls.len() && eh_linha_comentario_exec(&ls[k])
        invariant
            k <= ls@.len(),
            vl == vistas(ls@),
            vl == linhas(assembly@),
            primeira_nao_comentario(vl, 0) == primeira_nao_comentario(vl, k as int),
        decreases ls@.len() - k,
    {
        assert(vl[k as int] == ls@[k as int]@);
        k = k + 1;
    }
    if k < ls.len() {
        assert(vl[k as int] == ls@[k as int]@);
    }
    (ls, k)
}

/// Pass 1: the labels of the program with their addresses.
pub fn primeiro_passo(assembly: &str) -> (r: Result<TabelaSimbolos, ErroMontagem>)
    ensures
        match passo1_spec(assembly@) {
            Ok(e) => r is Ok && r->Ok_0.modelo() == e.simbolos,
            Err(x) => r is Err && r->Err_0.vista() == x,
        },
{
    let (ls, k) = preparar(assembly);
    let ghost vl = vistas(ls@);
    let ghost corpo = corpo_programa(assembly@);
    let mut i: usize = ls.len();
    let mut contador: usize = 0;
    if k < ls.len() {
        assert(vl[k as int] == ls@[k as int]@);
        contador = ler_cabecalho(&ls[k]).0;
        i = k + 1;
        assert(corpo =~= vl.subrange(k + 1, vl.len() as int));
    } else {
        assert(corpo =~= seq![]);
    }
    let mut e = EstadoP1Exec { contador, simbolos: Vec::new(), terminado: false };
    let ghost e0 = vista_p1(e);
    assert(modelo_simbolos(e.simbolos@) =~= seq![]);
    assert(e0 == EstadoPasso1 {
        contador: contador_inicial(assembly@),
        simbolos: seq![],
        terminado: false,
    });
    while i < ls.len()
        invariant
            k < i <= ls@.len() || (i == ls@.len() && corpo.len() == 0),
            vl == vistas(ls@),
            corpo == corpo_programa(assembly@),
            e0 == (EstadoPasso1 {
                contador: contador_inicial(assembly@),
                simbolos: seq![],
                terminado: false,
            }),
            k < ls@.len() ==> corpo == vl.subrange(k + 1, vl.len() as int),
            corpo.len() == 0 || k < ls@.len(),
            passo1_ate(corpo, (if corpo.len() == 0 { 0 } else { i - k - 1 }) as nat, e0)
                == Ok::<EstadoPasso1, ModeloErroMontagem>(vista_p1(e)),
        decreases ls@.len() - i,
    {
        assert(corpo[i - k - 1] == ls@[i as int]@);
        let ghost antes = vista_p1(e);
        assert(corpo.len() > 0);
        assert(passo1_ate(corpo, (i - k) as nat, e0) == linha_passo1(antes, corpo[i - k - 1]));
        match linha_passo1_exec(&mut e, &ls[i]) {
            Ok(()) => {},
            Err(x) => {
                proof {
                    lemma_passo1_erro(corpo, (i - k) as nat, corpo.len(), e0);
                    assert(passo1_spec(assembly@) == passo1_ate(corpo, corpo.len(), e0));
                }
                return Err(x);
            },
        }
        i = i + 1;
    }
    assert(corpo.len() == 0 || i - k - 1 == corpo.len());
    Ok(TabelaSimbolos { simbolos: e.simbolos })
}

proof fn lemma_passo1_erro(ls: Seq<Seq<char>>, n: nat, m: nat, e0: EstadoPasso1)
    requires
        n <= m,
        passo1_ate(ls, n, e0) is Err,
    ensures
        passo1_ate(ls, m, e0) == passo1_ate(ls, n, e0),
    decreases m - n,
{
    if n < m {
        lemma_passo1_erro(ls, n, (m - 1) as nat, e0);
    }
}

/// The value of an operand: the address of a symbol of that name, else the number it spells.
pub open spec fn resolver(o: Seq<char>, t: Seq<(Seq<char>, nat)>) -> Option<nat> {
    match simbolo(t, o) {
        Some(v) => Some(v),
        None => match numero(o) {
            Some(v) => Some(v as nat),
            None => None,
        },
    }
}

/// A register operand: a register name, or a digit from 0 to 9.
pub open spec fn valor_registrador(nome: Seq<char>) -> Option<nat> {
    match registrador_de(nome) {
        Some(r) => Some(r as nat),
        None => match numero(nome) {
            Some(v) => if v <= 9 {
                Some(v as nat)
            } else {
                None
            },
            None => None,
        },
    }
}

/// A format 2 instruction: the operation code, then the first register in the high
/// nibble and the second, if any, in the low one.
pub open spec fn codificar_formato2(hex: u8, operando: Seq<char>) -> Result<
    Seq<u8>,
    ModeloErroMontagem,
> {
    let rs = itens(operando);
    if rs.len() == 0 || rs.len() > 2 {
        Err(ModeloErroMontagem::OperandoInvalido(operando))
    } else {
        match valor_registrador(rs[0]) {
            None => Err(ModeloErroMontagem::RegistradorInvalido(rs[0])),
            Some(r1) => if rs.len() == 1 {
                Ok(seq![hex, (r1 * 16) as u8])
            } else {
                match valor_registrador(rs[1]) {
                    None => Err(ModeloErroMontagem::RegistradorInvalido(rs[1])),
                    Some(r2) => Ok(seq![hex, (r1 * 16 + r2) as u8]),
                }
            },
        }
    }
}

/// Addressing mode chosen by an operand's sigil: `#` immediate (1), `@` indirect (2),
/// none simple (3).
pub open spec fn modo_enderecamento(o: Seq<char>) -> nat {
    if o.len() > 0 && o[0] == '#' {
        1
    } else if o.len() > 0 && o[0] == '@' {
        2
    } else {
        3
    }
}

pub open spec fn sem_sigilo(o: Seq<char>) -> Seq<char> {
    if modo_enderecamento(o) == 3 {
        o
    } else {
        o.drop_first()
    }
}

pub open spec fn eh_indexado(o: Seq<char>) -> bool {
    o.len() >= 2 && o[o.len() - 2] == ',' && o[o.len() - 1] == 'X'
}

pub open spec fn sem_indice(o: Seq<char>) -> Seq<char> {
    if eh_indexado(o) {
        o.subrange(0, o.len() - 2)
    } else {
        o
    }
}

/// The bytes of a format 3 (12-bit field) or extended format 4 (20-bit field) instruction:
/// the operation code with the mode in its low two bits, then the flag nibble (8 indexed,
/// 1 extended) followed by the field.
pub open spec fn bytes_formato34(hex: u8, modo: nat, indexado: bool, estendido: bool, v: nat) -> Seq<u8> {
    let b0 = ((hex & 0xFC) | (modo as u8)) as u8;
    let flags: nat = (if indexado {
        8nat
    } else {
        0nat
    }) + (if estendido {
        1nat
    } else {
        0nat
    });
    if estendido {
        seq![b0, (flags * 16 + v / 65536) as u8, ((v / 256) % 256) as u8, (v % 256) as u8]
    } else {
        seq![b0, (flags * 16 + v / 256) as u8, (v % 256) as u8]
    }
}

pub open spec fn codificar_formato34(
    hex: u8,
    tamanho: nat,
    operando: Seq<char>,
    t: Seq<(Seq<char>, nat)>,
) -> Result<Seq<u8>, ModeloErroMontagem> {
    let o1 = sem_sigilo(operando);
    let o2 = sem_indice(o1);
    let v = if o2.len() == 0 {
        Some(0nat)
    } else {
        resolver(o2, t)
    };
    match v {
        None => Err(ModeloErroMontagem::OperandoInvalido(o2)),
        Some(v) => if (tamanho == 4 && v > 0xFFFFF) || (tamanho != 4 && v > 0xFFF) {
            Err(ModeloErroMontagem::OperandoGrandeDemais(o2))
        } else {
            Ok(bytes_formato34(hex, modo_enderecamento(operando), eh_indexado(o1), tamanho == 4, v))
        },
    }
}

/// The hex digits of an `X'...'` literal, padded to an even count with a leading `0`.
pub open spec fn digitos_pares(v: Seq<char>) -> Seq<char> {
    if v.len() % 2 == 1 {
        seq!['0'] + v
    } else {
        v
    }
}

/// `BYTE C'text'` gives the code of each character (all must be below 256);
/// `BYTE X'hex'` gives the bytes the hex digits spell.
pub open spec fn codificar_byte(operando: Seq<char>) -> Result<Seq<u8>, ModeloErroMontagem> {
    if operando.len() == 0 {
        Err(ModeloErroMontagem::OperandoInvalido(operando))
    } else {
        let v = sem_aspas(operando.drop_first());
        if operando[0] == 'C' {
            if forall|k: int| 0 <= k < v.len() ==> (#[trigger] v[k] as u32) < 256 {
                Ok(Seq::new(v.len(), |k: int| (v[k] as u32) as u8))
            } else {
                Err(ModeloErroMontagem::OperandoInvalido(operando))
            }
        } else if operando[0] == 'X' {
            let d = digitos_pares(v);
            if forall|k: int| 0 <= k < d.len() ==> (#[trigger] valor_digito(d[k])) is Some {
                Ok(pares_hex(d, d.len() / 2))
            } else {
                Err(ModeloErroMontagem::OperandoInvalido(operando))
            }
        } else {
            Err(ModeloErroMontagem::OperandoInvalido(operando))
        }
    }
}

/// `WORD v` gives `v` as three big-endian bytes.
pub open spec fn codificar_word(operando: Seq<char>, t: Seq<(Seq<char>, nat)>) -> Result<
    Seq<u8>,
    ModeloErroMontagem,
> {
    match resolver(operando, t) {
        None => Err(ModeloErroMontagem::OperandoInvalido(operando)),
        Some(v) => if v > 0xFFFFFF {
            Err(ModeloErroMontagem::OperandoGrandeDemais(operando))
        } else {
            Ok(seq![(v / 65536) as u8, ((v / 256) % 256) as u8, (v % 256) as u8])
        },
    }
}

/// The object code of one operation.
pub open spec fn codigo_de(op: Operacao, operando: Seq<char>, t: Seq<(Seq<char>, nat)>) -> Result<
    Seq<u8>,
    ModeloErroMontagem,
> {
    match op {
        Operacao::Byte => codificar_byte(operando),
        Operacao::Word => codificar_word(operando, t),
        Operacao::Instrucao { hex, tamanho } => if tamanho == 2 {
            codificar_formato2(hex, operando)
        } else {
            codificar_formato34(hex, tamanho as nat, operando, t)
        },
        _ => Ok(seq![]),
    }
}

/// Pass 2 after some lines: the location counter, the code emitted, whether `END` was seen.
pub struct EstadoPasso2 {
    pub contador: nat,
    pub codigo: Seq<u8>,
    pub terminado: bool,
}

/// The effect of one line on pass 2; here an unknown mnemonic is an error.
pub open spec fn linha_passo2(e: EstadoPasso2, l: Seq<char>, t: Seq<(Seq<char>, nat)>) -> Result<
    EstadoPasso2,
    ModeloErroMontagem,
> {
    if e.terminado {
        Ok(e)
    } else {
        match separar_primeira(antes_de(l, '.')) {
            None => Ok(e),
            Some((p, resto)) => {
                let instrucao = if operacao_de(p) is Some {
                    Some((p, resto))
                } else {
                    separar_primeira(resto)
                };
                match instrucao {
                    None => Ok(e),
                    Some((m, operando)) => match operacao_de(m) {
                        None => Err(ModeloErroMontagem::OperacaoDesconhecida(m)),
                        Some(op) => match codigo_de(op, operando, t) {
                            Err(x) => Err(x),
                            Ok(bytes) => match avanco(op, operando) {
                                None => Ok(EstadoPasso2 { terminado: true, ..e }),
                                Some(n) => if e.contador + n <= usize::MAX {
                                    Ok(
                                        EstadoPasso2 {
                                            contador: e.contador + n,
                                            codigo: e.codigo + bytes,
                                            ..e
                                        },
                                    )
                                } else {
                                    Err(ModeloErroMontagem::ProgramaGrandeDemais)
                                },
                            },
                        },
                    },
                }
            },
        }
    }
}

pub open spec fn passo2_ate(
    ls: Seq<Seq<char>>,
    n: nat,
    e0: EstadoPasso2,
    t: Seq<(Seq<char>, nat)>,
) -> Result<EstadoPasso2, ModeloErroMontagem>
    decreases n,
{
    if n == 0 {
        Ok(e0)
    } else {
        match passo2_ate(ls, (n - 1) as nat, e0, t) {
            Ok(e) => linha_passo2(e, ls[n - 1], t),
            Err(x) => Err(x),
        }
    }
}

/// `H`, the name padded to six characters, start address and length in six hex digits.
pub open spec fn registro_h(nome: Seq<char>, inicio: nat, tamanho: nat) -> Seq<char> {
    seq!['H'] + nome + Seq::new((6 - nome.len()) as nat, |i: int| ' ') + hex_n(inicio, 6) + hex_n(
        tamanho,
        6,
    )
}

/// `T`, the start address in six hex digits, the byte count in two, then the code.
pub open spec fn registro_t(inicio: nat, codigo: Seq<u8>) -> Seq<char> {
    seq!['T'] + hex_n(inicio, 6) + hex_n(codigo.len(), 2) + hex_bytes(codigo)
}

/// `E` and the start address in six hex digits.
pub open spec fn registro_e(inicio: nat) -> Seq<char> {
    seq!['E'] + hex_n(inicio, 6)
}

pub open spec fn nome_do_programa(s: Seq<char>) -> Seq<char> {
    let ls = linhas(s);
    let k = linha_cabecalho(s);
    if k < ls.len() {
        nome_programa(ls[k])
    } else {
        seq![]
    }
}

/// Pass 2 over a whole source text with the symbol table `t`: the header, text and end
/// records.
pub open spec fn registros(s: Seq<char>, t: Seq<(Seq<char>, nat)>) -> Result<
    (Seq<char>, Seq<char>, Seq<char>),
    ModeloErroMontagem,
> {
    let nome = nome_do_programa(s);
    let inicio = contador_inicial(s);
    let corpo = corpo_programa(s);
    if nome.len() > 6 {
        Err(ModeloErroMontagem::NomeProgramaLongoDemais(nome))
    } else {
        match passo2_ate(
            corpo,
            corpo.len(),
            EstadoPasso2 { contador: inicio, codigo: seq![], terminado: false },
            t,
        ) {
            Err(x) => Err(x),
            Ok(e) => if inicio > 0xFFFFFF || e.contador - inicio > 0xFFFFFF || e.codigo.len()
                > 0xFF {
                Err(ModeloErroMontagem::ProgramaGrandeDemais)
            } else {
                Ok(
                    (
                        registro_h(nome, inicio, (e.contador - inicio) as nat),
                        registro_t(inicio, e.codigo),
                        registro_e(inicio),
                    ),
                )
            },
        }
    }
}

/// The object text: the three records, one per line.
pub open spec fn objeto(s: Seq<char>, t: Seq<(Seq<char>, nat)>) -> Result<
    Seq<char>,
    ModeloErroMontagem,
> {
    match registros(s, t) {
        Ok((h, tt, e)) => Ok(h + seq!['\n'] + tt + seq!['\n'] + e + seq!['\n']),
        Err(x) => Err(x),
    }
}

fn resolver_exec(o: &[char], tabela: &Vec<Simbolo>) -> (r: Option<usize>)
    ensures
        match resolver(o@, modelo_simbolos(tabela@)) {
            Some(v) => r == Some(v as usize) && v <= usize::MAX,
            None => r is None,
        },
{
    let nome = trecho(o, 0, o.len());
    assert(nome@ =~= o@);
    match buscar_simbolo(tabela, &nome) {
        Some(v) => Some(v),
        None => ler_numero(o),
    }
}

fn valor_registrador_exec(nome: &[char]) -> (r: Option<u8>)
    ensures
        match valor_registrador(nome@) {
            Some(v) => r == Some(v as u8) && v <= 9,
            None => r is None,
        },
{
    match buscar_registrador(nome) {
        Some(r) => Some(r),
        None => match ler_numero(nome) {
            Some(v) => if v <= 9 {
                Some(v as u8)
            } else {
                None
            },
            None => None,
        },
    }
}

fn codificar_formato2_exec(hex: u8, operando: &[char]) -> (r: Result<Vec<u8>, ErroMontagem>)
    ensures
        match codificar_formato2(hex, operando@) {
            Ok(b) => r is Ok && r->Ok_0@ == b,
            Err(x) => r is Err && r->Err_0.vista() == x,
        },
{
    let rs = pedacos(operando, true);
    if rs.len() == 0 || rs.len() > 2 {
        return Err(ErroMontagem::OperandoInvalido(texto(operando)));
    }
    assert(vistas(rs@)[0] == rs@[0]@);
    let r1 = match valor_registrador_exec(rs[0].as_slice()) {
        Some(r1) => r1,
        None => return Err(ErroMontagem::RegistradorInvalido(texto(rs[0].as_slice()))),
    };
    let mut b: Vec<u8> = Vec::new();
    b.push(hex);
    if rs.len() == 1 {
        b.push(r1 * 16);
        assert(b@ =~= seq![hex, (r1 * 16) as u8]);
        return Ok(b);
    }
    assert(vistas(rs@)[1] == rs@[1]@);
    let r2 = match valor_registrador_exec(rs[1].as_slice()) {
        Some(r2) => r2,
        None => return Err(ErroMontagem::RegistradorInvalido(texto(rs[1].as_slice()))),
    };
    b.push(r1 * 16 + r2);
    assert(b@ =~= seq![hex, (r1 * 16 + r2) as u8]);
    Ok(b)
}

fn codificar_formato34_exec(hex: u8, tamanho: usize, operando: &[char], tabela: &Vec<Simbolo>) -> (r:
    Result<Vec<u8>, ErroMontagem>)
    ensures
        match codificar_formato34(hex, tamanho as nat, operando@, modelo_simbolos(tabela@)) {
            Ok(b) => r is Ok && r->Ok_0@ == b,
            Err(x) => r is Err && r->Err_0.vista() == x,
        },
{
    let modo: u8 = if operando.len() > 0 && operando[0] == '#' {
        1
    } else if operando.len() > 0 && operando[0] == '@' {
        2
    } else {
        3
    };
    let o1 = if modo == 3 {
        trecho(operando, 0, operando.len())
    } else {
        trecho(operando, 1, operando.len())
    };
    assert(o1@ =~= sem_sigilo(operando@));
    let indexado = o1.len() >= 2 && o1[o1.len() - 2] == ',' && o1[o1.len() - 1] == 'X';
    let o2 = if indexado {
        trecho(o1.as_slice(), 0, o1.len() - 2)
    } else {
        trecho(o1.as_slice(), 0, o1.len())
    };
    assert(o2@ =~= sem_indice(o1@));
    let v: usize = if o2.len() == 0 {
        0
    } else {
        match resolver_exec(o2.as_slice(), tabela) {
            Some(v) => v,
            None => return Err(ErroMontagem::OperandoInvalido(texto(o2.as_slice()))),
        }
    };
    if (tamanho == 4 && v > 0xFFFFF) || (tamanho != 4 && v > 0xFFF) {
        return Err(ErroMontagem::OperandoGrandeDemais(texto(o2.as_slice())));
    }
    assert(modo as nat == modo_enderecamento(operando@));
    Ok(bytes_formato34_exec(hex, modo, indexado, tamanho == 4, v))
}

fn bytes_formato34_exec(hex: u8, modo: u8, indexado: bool, estendido: bool, v: usize) -> (r: Vec<u8>)
    requires
        modo <= 3,
        v <= 0xFFFFF,
    ensures
        r@ == bytes_formato34(hex, modo as nat, indexado, estendido, v as nat),
{
    let b0: u8 = (hex & 0xFC) | modo;
    let flags: usize = (if indexado {
        8
    } else {
        0
    }) + (if estendido {
        1
    } else {
        0
    });
    let mut b: Vec<u8> = Vec::new();
    b.push(b0);
    if estendido {
        b.push((flags * 16 + v / 65536) as u8);
        b.push(((v / 256) % 256) as u8);
        b.push((v % 256) as u8);
    } else {
        b.push((flags * 16 + v / 256) as u8);
        b.push((v % 256) as u8);
    }
    assert(b@ =~= bytes_formato34(hex, modo as nat, indexado, estendido, v as nat));
    b
}

fn codificar_byte_exec(operando: &[char]) -> (r: Result<Vec<u8>, ErroMontagem>)
    ensures
        match codificar_byte(operando@) {
            Ok(b) => r is Ok && r->Ok_0@ == b,
            Err(x) => r is Err && r->Err_0.vista() == x,
        },
{
    if operando.len() == 0 {
        return Err(ErroMontagem::OperandoInvalido(texto(operando)));
    }
    let resto = trecho(operando, 1, operando.len());
    assert(resto@ =~= operando@.drop_first());
    let v = sem_aspas_exec(resto.as_slice());
    if operando[0] == 'C' {
        let mut r: Vec<u8> = Vec::new();
        let mut i: usize = 0;
        while i < v.len()
            invariant
                i <= v@.len(),
                operando@.len() > 0 && operando@[0] == 'C',
                v@ == sem_aspas(operando@.drop_first()),
                r@ =~= Seq::new(i as nat, |k: int| (v@[k] as u32) as u8),
                forall|k: int| 0 <= k < i ==> (#[trigger] v@[k] as u32) < 256,
            decreases v@.len() - i,
        {
            if (v[i] as u32) >= 256 {
                assert(!((v@[i as int] as u32) < 256));
                return Err(ErroMontagem::OperandoInvalido(texto(operando)));
            }
            r.push((v[i] as u32) as u8);
            i = i + 1;
        }
        Ok(r)
    } else if operando[0] == 'X' {
        let mut d: Vec<char> = Vec::new();
        if v.len() % 2 == 1 {
            d.push('0');
        }
        let mut i: usize = 0;
        let ghost d0 = d@;
        while i < v.len()
            invariant
                i <= v@.len(),
                d@ == d0 + v@.subrange(0, i as int),
            decreases v@.len() - i,
        {
            d.push(v[i]);
            i = i + 1;
            assert(d@ =~= d0 + v@.subrange(0, i as int));
        }
        assert(d@ =~= digitos_pares(v@));
        assert(v@ == sem_aspas(operando@.drop_first()));
        let mut k: usize = 0;
        while k < d.len()
            invariant
                k <= d@.len(),
                operando@.len() > 0 && operando@[0] == 'X',
                d@ == digitos_pares(sem_aspas(operando@.drop_first())),
                forall|j: int| 0 <= j < k ==> (#[trigger] valor_digito(d@[j])) is Some,
            decreases d@.len() - k,
        {
            if valor_digito_exec(d[k]).is_none() {
                assert(valor_digito(d@[k as int]) is None);
                return Err(ErroMontagem::OperandoInvalido(texto(operando)));
            }
            k = k + 1;
        }
        let mut r: Vec<u8> = Vec::new();
        let mut j: usize = 0;
        while j < d.len() / 2
            invariant
                j <= d@.len() / 2,
                operando@.len() > 0 && operando@[0] == 'X',
                d@ == digitos_pares(sem_aspas(operando@.drop_first())),
                forall|q: int| 0 <= q < d@.len() ==> (#[trigger] valor_digito(d@[q])) is Some,
                r@ == pares_hex(d@, j as nat),
            decreases d@.len() / 2 - j,
        {
            let a = valor_digito_exec(d[2 * j]);
            let b = valor_digito_exec(d[2 * j + 1]);
            match (a, b) {
                (Some(a), Some(b)) => r.push(a * 16 + b),
                _ => {},
            }
            j = j + 1;
        }
        Ok(r)
    } else {
        Err(ErroMontagem::OperandoInvalido(texto(operando)))
    }
}

fn codificar_word_exec(operando: &[char], tabela: &Vec<Simbolo>) -> (r: Result<Vec<u8>, ErroMontagem>)
    ensures
        match codificar_word(operando@, modelo_simbolos(tabela@)) {
            Ok(b) => r is Ok && r->Ok_0@ == b,
            Err(x) => r is Err && r->Err_0.vista() == x,
        },
{
    let v = match resolver_exec(operando, tabela) {
        Some(v) => v,
        None => return Err(ErroMontagem::OperandoInvalido(texto(operando))),
    };
    if v > 0xFFFFFF {
        return Err(ErroMontagem::OperandoGrandeDemais(texto(operando)));
    }
    let mut b: Vec<u8> = Vec::new();
    b.push((v / 65536) as u8);
    b.push(((v / 256) % 256) as u8);
    b.push((v % 256) as u8);
    assert(b@ =~= seq![(v / 65536) as u8, ((v / 256) % 256) as u8, (v % 256) as u8]);
    Ok(b)
}

fn codigo_exec(op: Operacao, operando: &[char], tabela: &Vec<Simbolo>) -> (r: Result<
    Vec<u8>,
    ErroMontagem,
>)
    ensures
        match codigo_de(op, operando@, modelo_simbolos(tabela@)) {
            Ok(b) => r is Ok && r->Ok_0@ == b,
            Err(x) => r is Err && r->Err_0.vista() == x,
        },
{
    match op {
        Operacao::Byte => codificar_byte_exec(operando),
        Operacao::Word => codificar_word_exec(operando, tabela),
        Operacao::Instrucao { hex, tamanho } => if tamanho == 2 {
            codificar_formato2_exec(hex, operando)
        } else {
            codificar_formato34_exec(hex, tamanho, operando, tabela)
        },
        _ => {
            let b: Vec<u8> = Vec::new();
            assert(b@ =~= seq![]);
            Ok(b)
        },
    }
}

struct EstadoP2Exec {
    contador: usize,
    codigo: Vec<u8>,
    terminado: bool,
}

spec fn vista_p2(e: EstadoP2Exec) -> EstadoPasso2 {
    EstadoPasso2 { contador: e.contador as nat, codigo: e.codigo@, terminado: e.terminado }
}

fn linha_passo2_exec(e: &mut EstadoP2Exec, l: &Vec<char>, tabela: &Vec<Simbolo>) -> (r: Result<
    (),
    ErroMontagem,
>)
    ensures
        match linha_passo2(vista_p2(*old(e)), l@, modelo_simbolos(tabela@)) {
            Ok(e2) => r is Ok && vista_p2(*final(e)) == e2,
            Err(x) => r is Err && r->Err_0.vista() == x,
        },
        final(e).contador >= old(e).contador,
{
    if e.terminado {
        return Ok(());
    }
    let sem_comentario = antes_de_exec(l.as_slice(), '.');
    let (p, resto) = match separar_primeira_exec(sem_comentario.as_slice()) {
        None => return Ok(()),
        Some(x) => x,
    };
    let (m, operando) = if buscar_operacao(p.as_slice()).is_some() {
        (p, resto)
    } else {
        match separar_primeira_exec(resto.as_slice()) {
            None => return Ok(()),
            Some(x) => x,
        }
    };
    let op = match buscar_operacao(m.as_slice()) {
        None => return Err(ErroMontagem::OperacaoDesconhecida(texto(m.as_slice()))),
        Some(op) => op,
    };
    let bytes = codigo_exec(op, operando.as_slice(), tabela)?;
    match avanco_exec(op, operando.as_slice()) {
        None => {
            e.terminado = true;
            Ok(())
        },
        Some(n) => {
            if (e.contador as u128) + n <= usize::MAX as u128 {
                e.contador = ((e.contador as u128) + n) as usize;
                let ghost antes = e.codigo@;
                let mut i: usize = 0;
                while i < bytes.len()
                    invariant
                        i <= bytes@.len(),
                        e.contador == old(e).contador + n,
                        e.terminado == old(e).terminado,
                        e.codigo@ == antes + bytes@.subrange(0, i as int),
                    decreases bytes@.len() - i,
                {
                    e.codigo.push(bytes[i]);
                    i = i + 1;
                    assert(e.codigo@ =~= antes + bytes@.subrange(0, i as int));
                }
                assert(bytes@.subrange(0, bytes@.len() as int) =~= bytes@);
                Ok(())
            } else {
                Err(ErroMontagem::ProgramaGrandeDemais)
            }
        },
    }
}

proof fn lemma_passo2_erro(
    ls: Seq<Seq<char>>,
    n: nat,
    m: nat,
    e0: EstadoPasso2,
    t: Seq<(Seq<char>, nat)>,
)
    requires
        n <= m,
        passo2_ate(ls, n, e0, t) is Err,
    ensures
        passo2_ate(ls, m, e0, t) == passo2_ate(ls, n, e0, t),
    decreases m - n,
{
    if n < m {
        lemma_passo2_erro(ls, n, (m - 1) as nat, e0, t);
    }
}

/// Pass 2: the object text of the program, given the symbol table of pass 1.
pub fn segundo_passo(assembly: &str, tabela: &TabelaSimbolos) -> (r: Result<String, ErroMontagem>)
    ensures
        match objeto(assembly@, tabela.modelo()) {
            Ok(o) => r is Ok && r->Ok_0@ == o,
            Err(x) => r is Err && r->Err_0.vista() == x,
        },
{
    let ghost t = tabela.modelo();
    let (ls, k) = preparar(assembly);
    let ghost vl = vistas(ls@);
    let ghost corpo = corpo_programa(assembly@);
    let mut i: usize = ls.len();
    let mut inicio: usize = 0;
    let mut nome: Vec<char> = Vec::new();
    if k < ls.len() {
        assert(vl[k as int] == ls@[k as int]@);
        let (c, n) = ler_cabecalho(&ls[k]);
        inicio = c;
        nome = n;
        i = k + 1;
        assert(corpo =~= vl.subrange(k + 1, vl.len() as int));
    } else {
        assert(corpo =~= seq![]);
    }
    assert(nome@ == nome_do_programa(assembly@));
    if nome.len() > 6 {
        return Err(ErroMontagem::NomeProgramaLongoDemais(texto(nome.as_slice())));
    }
    let mut e = EstadoP2Exec { contador: inicio, codigo: Vec::new(), terminado: false };
    let ghost e0 = vista_p2(e);
    assert(e0 == EstadoPasso2 {
        contador: contador_inicial(assembly@),
        codigo: seq![],
        terminado: false,
    });
    while i < ls.len()
        invariant
            k < i <= ls@.len() || (i == ls@.len() && corpo.len() == 0),
            vl == vistas(ls@),
            t == tabela.modelo(),
            t == modelo_simbolos(tabela.simbolos@),
            corpo == corpo_programa(assembly@),
            e0 == (EstadoPasso2 {
                contador: contador_inicial(assembly@),
                codigo: seq![],
                terminado: false,
            }),
            inicio as nat == contador_inicial(assembly@),
            nome@ == nome_do_programa(assembly@),
            nome@.len() <= 6,
            e.contador >= inicio,
            k < ls@.len() ==> corpo == vl.subrange(k + 1, vl.len() as int),
            corpo.len() == 0 || k < ls@.len(),
            passo2_ate(corpo, (if corpo.len() == 0 { 0 } else { i - k - 1 }) as nat, e0, t)
                == Ok::<EstadoPasso2, ModeloErroMontagem>(vista_p2(e)),
        decreases ls@.len() - i,
    {
        assert(corpo[i - k - 1] == ls@[i as int]@);
        let ghost antes = vista_p2(e);
        assert(passo2_ate(corpo, (i - k) as nat, e0, t) == linha_passo2(
            antes,
            corpo[i - k - 1],
            t,
        ));
        match linha_passo2_exec(&mut e, &ls[i], &tabela.simbolos) {
            Ok(()) => {},
            Err(x) => {
                proof {
                    lemma_passo2_erro(corpo, (i - k) as nat, corpo.len(), e0, t);
                    assert(passo2_ate(corpo, corpo.len(), e0, t) is Err);
                }
                return Err(x);
            },
        }
        i = i + 1;
    }
    assert(corpo.len() == 0 || i - k - 1 == corpo.len());
    let tamanho = e.contador - inicio;
    if inicio > 0xFFFFFF || tamanho > 0xFFFFFF || e.codigo.len() > 0xFF {
        return Err(ErroMontagem::ProgramaGrandeDemais);
    }
    let mut saida: Vec<char> = Vec::new();
    saida.push('H');
    anexar(&mut saida, nome.as_slice());
    let mut j = nome.len();
    let ghost antes_espacos = saida@;
    while j < 6
        invariant
            nome@.len() <= j <= 6,
            saida@ == antes_espacos + Seq::new((j - nome@.len()) as nat, |q: int| ' '),
        decreases 6 - j,
    {
        saida.push(' ');
        j = j + 1;
        assert(saida@ =~= antes_espacos + Seq::new((j - nome@.len()) as nat, |q: int| ' '));
    }
    let inicio_hex = hex_n_exec(inicio as u64, 6);
    anexar(&mut saida, inicio_hex.as_slice());
    anexar(&mut saida, hex_n_exec(tamanho as u64, 6).as_slice());
    let ghost h = saida@;
    saida.push('\n');
    saida.push('T');
    anexar(&mut saida, inicio_hex.as_slice());
    anexar(&mut saida, hex_n_exec(e.codigo.len() as u64, 2).as_slice());
    anexar(&mut saida, hex_bytes_exec(e.codigo.as_slice()).as_slice());
    saida.push('\n');
    saida.push('E');
    anexar(&mut saida, inicio_hex.as_slice());
    saida.push('\n');
    proof {
        assert(h =~= registro_h(nome@, inicio as nat, tamanho as nat));
        assert(saida@ =~= h + seq!['\n'] + registro_t(inicio as nat, e.codigo@) + seq!['\n']
            + registro_e(inicio as nat) + seq!['\n']);
    }
    Ok(texto(saida.as_slice()))
}

/// Pass 1 followed by pass 2: the count field of the text record that pass 2 writes is
/// exactly half the number of hex digits in the record's payload.
pub proof fn lemma_contagem_registro_t(
    s: Seq<char>,
    e1: EstadoPasso1,
    h: Seq<char>,
    t: Seq<char>,
    e: Seq<char>,
)
    requires
        passo1_spec(s) == Ok::<EstadoPasso1, ModeloErroMontagem>(e1),
        registros(s, e1.simbolos) == Ok::<(Seq<char>, Seq<char>, Seq<char>), ModeloErroMontagem>(
            (h, t, e),
        ),
    ensures
        t.len() >= 9,
        t[0] == 'T',
        valor_hex(t.subrange(7, 9)) * 2 == t.len() - 9,
{
    let inicio = contador_inicial(s);
    let corpo = corpo_programa(s);
    let e0 = EstadoPasso2 { contador: inicio, codigo: seq![], terminado: false };
    let ep = passo2_ate(corpo, corpo.len(), e0, e1.simbolos)->Ok_0;
    let n = ep.codigo.len();
    assert(t == registro_t(inicio, ep.codigo));
    lemma_hex_n(inicio, 6);
    lemma_hex_n(n, 2);
    lemma_hex_bytes(ep.codigo);
    reveal_with_fuel(vstd::arithmetic::power::pow, 3);
    assert(vstd::arithmetic::power::pow(16, 2) == 256);
    assert(t.subrange(7, 9) =~= hex_n(n, 2));
    assert(n <= 0xFF);
    assert(n % 256 == n);
    assert(t.len() == 9 + hex_bytes(ep.codigo).len());
}

/// Encoding a format 3 or 4 instruction and decoding its bytes as the machine does gives
/// back the addressing mode, a flag nibble that the mode accepts, the length (3 bytes, or
/// 4 when extended) and the field, with `X` added when indexed.
pub proof fn lemma_codificacao_formato34(
    hex: u8,
    modo: nat,
    indexado: bool,
    estendido: bool,
    v: nat,
    r: Seq<u64>,
)
    requires
        hex % 4 == 0,
        1 <= modo <= 3,
        indexado ==> modo == 3,
        v <= (if estendido {
            0xFFFFFnat
        } else {
            0xFFFnat
        }),
        r.len() == 10,
    ensures
        ({
            let m = bytes_formato34(hex, modo, indexado, estendido, v);
            let flags = (m[1] / 16) as int;
            &&& !eh_formato2(m[0])
            &&& m[0] % 4 == modo
            &&& m[0] & 0xFC == hex
            &&& flags_validas(modo as int, flags)
            &&& m.len() == tamanho_formato(flags)
            &&& tamanho_formato(flags) == (if estendido {
                4int
            } else {
                3int
            })
            &&& endereco_alvo(r, m, 0, flags) == v + (if indexado {
                r[X as int] as int
            } else {
                0
            })
        }),
{
    let m = bytes_formato34(hex, modo, indexado, estendido, v);
    let md = modo as u8;
    let b0 = ((hex & 0xFC) | md) as u8;
    assert(b0 % 4 == md && b0 & 0xFC == hex) by (bit_vector)
        requires
            b0 == (hex & 0xFC) | md,
            md <= 3,
            hex % 4 == 0,
    ;
    let flags: nat = (if indexado {
        8nat
    } else {
        0nat
    }) + (if estendido {
        1nat
    } else {
        0nat
    });
    if estendido {
        let alto = v / 65536;
        assert(alto < 16);
        assert(m[1] == flags * 16 + alto);
        assert(m[1] / 16 == flags && m[1] % 16 == alto);
        lemma_fundamental_div_mod(v as int, 65536);
        lemma_mod_breakdown(v as int, 256, 256);
        assert(campo20(m, 0) == v);
    } else {
        let alto = v / 256;
        assert(alto < 16);
        assert(m[1] == flags * 16 + alto);
        assert(m[1] / 16 == flags && m[1] % 16 == alto);
        lemma_fundamental_div_mod(v as int, 256);
        assert(campo12(m, 0) == v);
    }
}

} // verus!
