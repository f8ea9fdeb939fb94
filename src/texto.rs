//! Text as sequences of characters: lines, whitespace- or comma-separated pieces,
//! and textual replacement.

use vstd::prelude::*;

verus! {

/// The characters that separate words: Unicode's White_Space property.
pub open spec fn eh_espaco(c: char) -> bool {
    ||| c == ' '
    ||| ('\t' <= c && c <= '\r')
    ||| c == '\u{85}'
    ||| c == '\u{A0}'
    ||| c == '\u{1680}'
    ||| ('\u{2000}' <= c && c <= '\u{200A}')
    ||| c == '\u{2028}'
    ||| c == '\u{2029}'
    ||| c == '\u{202F}'
    ||| c == '\u{205F}'
    ||| c == '\u{3000}'
}

pub fn eh_espaco_exec(c: char) -> (r: bool)
    ensures
        r == eh_espaco(c),
{
    c == ' ' || ('\t' <= c && c <= '\r') || c == '\u{85}' || c == '\u{A0}' || c == '\u{1680}' || (
    '\u{2000}' <= c && c <= '\u{200A}') || c == '\u{2028}' || c == '\u{2029}' || c == '\u{202F}'
        || c == '\u{205F}' || c == '\u{3000}'
}

/// The views of a vector of character vectors.
pub open spec fn vistas(v: Seq<Vec<char>>) -> Seq<Seq<char>> {
    v.map_values(|l: Vec<char>| l@)
}

pub proof fn lemma_vistas_push(v: Seq<Vec<char>>, x: Vec<char>)
    ensures
        vistas(v.push(x)) == vistas(v).push(x@),
{
    assert(vistas(v.push(x)) =~= vistas(v).push(x@));
}

pub fn igual(a: &[char], b: &[char]) -> (r: bool)
    ensures
        r == (a@ == b@),
{
    if a.len() != b.len() {
        return false;
    }
    let mut i: usize = 0;
    while i < a.len()
        invariant
            a@.len() == b@.len(),
            i <= a@.len(),
            forall|k: int| 0 <= k < i ==> a@[k] == b@[k],
        decreases a@.len() - i,
    {
        if a[i] != b[i] {
            return false;
        }
        i = i + 1;
    }
    assert(a@ =~= b@);
    true
}

/// The characters of `s`, in order.
pub fn caracteres(s: &str) -> (r: Vec<char>)
    ensures
        r@ == s@,
{
    let mut v: Vec<char> = Vec::new();
    for c in it: s.chars()
        invariant
            v@ == it.seq().subrange(0, it.index() as int),
    {
        v.push(c);
        assert(v@ =~= it.seq().subrange(0, it.index() + 1));
    }
    assert(v@ =~= s@);
    v
}

/// Relies on std's `String: FromIterator<char>`: the string holds the characters in order.
#[verifier::external_body]
pub(crate) fn texto(v: &[char]) -> (r: String)
    ensures
        r@ == v@,
{
    v.iter().collect()
}

/// Appends `t` to `saida`.
pub fn anexar(saida: &mut Vec<char>, t: &[char])
    ensures
        final(saida)@ == old(saida)@ + t@,
{
    let mut i: usize = 0;
    while i < t.len()
        invariant
            i <= t@.len(),
            saida@ == old(saida)@ + t@.subrange(0, i as int),
        decreases t@.len() - i,
    {
        saida.push(t[i]);
        i = i + 1;
        assert(saida@ =~= old(saida)@ + t@.subrange(0, i as int));
    }
    assert(t@.subrange(0, t@.len() as int) =~= t@);
}

/// A piece that has ended: none if it is empty.
pub open spec fn fechar(atual: Seq<char>) -> Seq<Seq<char>> {
    if atual.len() == 0 {
        seq![]
    } else {
        seq![atual]
    }
}

/// Whether `c` ends a piece: a comma, or else whitespace.
pub open spec fn separador(c: char, virgula: bool) -> bool {
    if virgula {
        c == ','
    } else {
        eh_espaco(c)
    }
}

/// The non-empty pieces of `s` from position `i` on, `atual` being the piece begun before `i`.
pub open spec fn pedacos_desde(s: Seq<char>, i: int, atual: Seq<char>, virgula: bool) -> Seq<
    Seq<char>,
>
    decreases s.len() - i,
{
    if i >= s.len() {
        fechar(atual)
    } else if separador(s[i], virgula) {
        fechar(atual) + pedacos_desde(s, i + 1, seq![], virgula)
    } else {
        pedacos_desde(s, i + 1, atual.push(s[i]), virgula)
    }
}

/// The words of `s`: its maximal runs of non-whitespace characters.
pub open spec fn palavras(s: Seq<char>) -> Seq<Seq<char>> {
    pedacos_desde(s, 0, seq![], false)
}

/// The non-empty comma-separated items of `s`.
pub open spec fn itens(s: Seq<char>) -> Seq<Seq<char>> {
    pedacos_desde(s, 0, seq![], true)
}

/// Splits `s` into its non-empty pieces, at commas or at whitespace.
pub fn pedacos(s: &[char], virgula: bool) -> (r: Vec<Vec<char>>)
    ensures
        vistas(r@) == pedacos_desde(s@, 0, seq![], virgula),
{
    let mut r: Vec<Vec<char>> = Vec::new();
    let mut atual: Vec<char> = Vec::new();
    let mut i: usize = 0;
    while i < s.len()
        invariant
            i <= s@.len(),
            vistas(r@) + pedacos_desde(s@, i as int, atual@, virgula) == pedacos_desde(
                s@,
                0,
                seq![],
                virgula,
            ),
        decreases s@.len() - i,
    {
        let c = s[i];
        let sep = if virgula {
            c == ','
        } else {
            eh_espaco_exec(c)
        };
        let ghost antes = vistas(r@);
        let ghost resto = pedacos_desde(s@, i + 1, seq![], virgula);
        if sep {
            if atual.len() > 0 {
                proof {
                    lemma_vistas_push(r@, atual);
                    assert(antes + (seq![atual@] + resto) =~= antes.push(atual@) + resto);
                }
                r.push(atual);
                atual = Vec::new();
            } else {
                assert(atual@ =~= seq![]);
                assert(antes + (seq![] + resto) =~= antes + resto);
            }
        } else {
            atual.push(c);
        }
        i = i + 1;
    }
    if atual.len() > 0 {
        proof {
            lemma_vistas_push(r@, atual);
        }
        r.push(atual);
    } else {
        assert(vistas(r@) + seq![] =~= vistas(r@));
    }
    r
}

/// A line without the carriage return that ended it.
pub open spec fn sem_cr(l: Seq<char>) -> Seq<char> {
    if l.len() > 0 && l.last() == '\r' {
        l.drop_last()
    } else {
        l
    }
}

/// The lines of `s` from position `i` on, `atual` being the line begun before `i`.
/// A line ends at `\n` (a `\r` before it is dropped); a last empty line is no line.
pub open spec fn linhas_desde(s: Seq<char>, i: int, atual: Seq<char>) -> Seq<Seq<char>>
    decreases s.len() - i,
{
    if i >= s.len() {
        fechar(atual)
    } else if s[i] == '\n' {
        seq![sem_cr(atual)] + linhas_desde(s, i + 1, seq![])
    } else {
        linhas_desde(s, i + 1, atual.push(s[i]))
    }
}

pub open spec fn linhas(s: Seq<char>) -> Seq<Seq<char>> {
    linhas_desde(s, 0, seq![])
}

/// Splits `s` into lines.
pub fn dividir_linhas(s: &[char]) -> (r: Vec<Vec<char>>)
    ensures
        vistas(r@) == linhas(s@),
{
    let mut r: Vec<Vec<char>> = Vec::new();
    let mut atual: Vec<char> = Vec::new();
    let mut i: usize = 0;
    while i < s.len()
        invariant
            i <= s@.len(),
            vistas(r@) + linhas_desde(s@, i as int, atual@) == linhas(s@),
        decreases s@.len() - i,
    {
        let c = s[i];
        let ghost antes = vistas(r@);
        let ghost resto = linhas_desde(s@, i + 1, seq![]);
        if c == '\n' {
            if atual.len() > 0 && atual[atual.len() - 1] == '\r' {
                atual.pop();
            }
            proof {
                lemma_vistas_push(r@, atual);
                assert(antes + (seq![atual@] + resto) =~= antes.push(atual@) + resto);
            }
            r.push(atual);
            atual = Vec::new();
        } else {
            atual.push(c);
        }
        i = i + 1;
    }
    if atual.len() > 0 {
        proof {
            lemma_vistas_push(r@, atual);
        }
        r.push(atual);
    } else {
        assert(vistas(r@) + seq![] =~= vistas(r@));
    }
    r
}

/// Whether `p` occurs in `s` at position `i`.
pub open spec fn casa_em(s: Seq<char>, i: int, p: Seq<char>) -> bool {
    0 <= i && i + p.len() <= s.len() && s.subrange(i, i + p.len()) == p
}

pub fn casa_em_exec(s: &[char], i: usize, p: &[char]) -> (r: bool)
    ensures
        r == casa_em(s@, i as int, p@),
{
    if i > s.len() || p.len() > s.len() - i {
        return false;
    }
    let mut k: usize = 0;
    while k < p.len()
        invariant
            i + p@.len() <= s@.len(),
            s@.len() <= usize::MAX,
            k <= p@.len(),
            forall|j: int| 0 <= j < k ==> s@[i + j] == p@[j],
        decreases p@.len() - k,
    {
        if s[i + k] != p[k] {
            return false;
        }
        k = k + 1;
    }
    assert(s@.subrange(i as int, i + p@.len()) =~= p@);
    true
}

/// `s` from position `i` on, with every occurrence of `p`, left to right, replaced by `t`.
pub open spec fn substituir_desde(s: Seq<char>, i: int, p: Seq<char>, t: Seq<char>) -> Seq<char>
    decreases s.len() - i,
{
    if i >= s.len() {
        seq![]
    } else if p.len() > 0 && casa_em(s, i, p) {
        t + substituir_desde(s, i + p.len(), p, t)
    } else {
        seq![s[i]] + substituir_desde(s, i + 1, p, t)
    }
}

/// `s` with every occurrence of `p`, left to right, replaced by `t`.
pub open spec fn substituido(s: Seq<char>, p: Seq<char>, t: Seq<char>) -> Seq<char> {
    substituir_desde(s, 0, p, t)
}

pub fn substituir(s: &[char], p: &[char], t: &[char]) -> (r: Vec<char>)
    ensures
        r@ == substituido(s@, p@, t@),
{
    let mut r: Vec<char> = Vec::new();
    let mut i: usize = 0;
    while i < s.len()
        invariant
            i <= s@.len(),
            r@ + substituir_desde(s@, i as int, p@, t@) == substituido(s@, p@, t@),
        decreases s@.len() - i,
    {
        let ghost antes = r@;
        if p.len() > 0 && casa_em_exec(s, i, p) {
            let ghost resto = substituir_desde(s@, i + p@.len(), p@, t@);
            anexar(&mut r, t);
            assert(antes + (t@ + resto) =~= (antes + t@) + resto);
            i = i + p.len();
        } else {
            let ghost resto = substituir_desde(s@, i + 1, p@, t@);
            r.push(s[i]);
            assert(antes + (seq![s@[i as int]] + resto) =~= antes.push(s@[i as int]) + resto);
            i = i + 1;
        }
    }
    assert(r@ + seq![] =~= r@);
    r
}

/// Position of the first non-whitespace character at or after `i` (the length if none).
pub open spec fn inicio_palavra(s: Seq<char>, i: int) -> int
    decreases s.len() - i,
{
    if i < 0 || i >= s.len() {
        s.len() as int
    } else if !eh_espaco(s[i]) {
        i
    } else {
        inicio_palavra(s, i + 1)
    }
}

/// Position of the first whitespace character at or after `i` (the length if none).
pub open spec fn fim_palavra(s: Seq<char>, i: int) -> int
    decreases s.len() - i,
{
    if i < 0 || i >= s.len() {
        s.len() as int
    } else if eh_espaco(s[i]) {
        i
    } else {
        fim_palavra(s, i + 1)
    }
}

/// Position just after the last non-whitespace character before `j` (0 if none).
pub open spec fn fim_aparado(s: Seq<char>, j: int) -> int
    decreases j,
{
    if j <= 0 || j > s.len() {
        0
    } else if !eh_espaco(s[j - 1]) {
        j
    } else {
        fim_aparado(s, j - 1)
    }
}

/// `s` without leading and trailing whitespace.
pub open spec fn aparar(s: Seq<char>) -> Seq<char> {
    let a = inicio_palavra(s, 0);
    let e = fim_aparado(s, s.len() as int);
    if a >= e {
        seq![]
    } else {
        s.subrange(a, e)
    }
}

/// The first word of `s` and the rest of `s` after it, trimmed; none for a blank `s`.
pub open spec fn separar_primeira(s: Seq<char>) -> Option<(Seq<char>, Seq<char>)> {
    let a = inicio_palavra(s, 0);
    if a >= s.len() {
        None
    } else {
        let b = fim_palavra(s, a);
        Some((s.subrange(a, b), aparar(s.subrange(b, s.len() as int))))
    }
}

/// Position of the first `c` at or after `i` (the length if none).
pub open spec fn posicao_de(s: Seq<char>, i: int, c: char) -> int
    decreases s.len() - i,
{
    if i < 0 || i >= s.len() {
        s.len() as int
    } else if s[i] == c {
        i
    } else {
        posicao_de(s, i + 1, c)
    }
}

/// `s` up to, not including, its first `c`.
pub open spec fn antes_de(s: Seq<char>, c: char) -> Seq<char> {
    s.subrange(0, posicao_de(s, 0, c))
}

fn inicio_palavra_exec(s: &[char], i: usize) -> (r: usize)
    requires
        i <= s@.len(),
    ensures
        r as int == inicio_palavra(s@, i as int),
        i <= r <= s@.len(),
{
    let mut k = i;
    while k < s.len() && eh_espaco_exec(s[k])
        invariant
            i <= k <= s@.len(),
            inicio_palavra(s@, i as int) == inicio_palavra(s@, k as int),
        decreases s@.len() - k,
    {
        k = k + 1;
    }
    k
}

fn fim_palavra_exec(s: &[char], i: usize) -> (r: usize)
    requires
        i <= s@.len(),
    ensures
        r as int == fim_palavra(s@, i as int),
        i <= r <= s@.len(),
{
    let mut k = i;
    while k < s.len() && !eh_espaco_exec(s[k])
        invariant
            i <= k <= s@.len(),
            fim_palavra(s@, i as int) == fim_palavra(s@, k as int),
        decreases s@.len() - k,
    {
        k = k + 1;
    }
    k
}

fn fim_aparado_exec(s: &[char]) -> (r: usize)
    ensures
        r as int == fim_aparado(s@, s@.len() as int),
        r <= s@.len(),
{
    let mut j = s.len();
    while j > 0 && eh_espaco_exec(s[j - 1])
        invariant
            j <= s@.len(),
            fim_aparado(s@, s@.len() as int) == fim_aparado(s@, j as int),
        decreases j,
    {
        j = j - 1;
    }
    j
}

/// Copies `s[a..b]`.
pub fn trecho(s: &[char], a: usize, b: usize) -> (r: Vec<char>)
    requires
        a <= b <= s@.len(),
    ensures
        r@ == s@.subrange(a as int, b as int),
{
    let mut r: Vec<char> = Vec::new();
    let mut k = a;
    while k < b
        invariant
            a <= k <= b <= s@.len(),
            r@ == s@.subrange(a as int, k as int),
        decreases b - k,
    {
        r.push(s[k]);
        k = k + 1;
        assert(r@ =~= s@.subrange(a as int, k as int));
    }
    r
}

pub fn aparar_exec(s: &[char]) -> (r: Vec<char>)
    ensures
        r@ == aparar(s@),
{
    let a = inicio_palavra_exec(s, 0);
    let e = fim_aparado_exec(s);
    if a >= e {
        Vec::new()
    } else {
        trecho(s, a, e)
    }
}

pub fn separar_primeira_exec(s: &[char]) -> (r: Option<(Vec<char>, Vec<char>)>)
    ensures
        match separar_primeira(s@) {
            Some((p, resto)) => match r {
                Some((a, b)) => a@ == p && b@ == resto,
                None => false,
            },
            None => r is None,
        },
{
    let a = inicio_palavra_exec(s, 0);
    if a >= s.len() {
        return None;
    }
    let b = fim_palavra_exec(s, a);
    let primeira = trecho(s, a, b);
    let depois = trecho(s, b, s.len());
    Some((primeira, aparar_exec(depois.as_slice())))
}

pub fn antes_de_exec(s: &[char], c: char) -> (r: Vec<char>)
    ensures
        r@ == antes_de(s@, c),
{
    let mut k: usize = 0;
    while k < s.len() && s[k] != c
        invariant
            k <= s@.len(),
            posicao_de(s@, 0, c) == posicao_de(s@, k as int, c),
        decreases s@.len() - k,
    {
        k = k + 1;
    }
    trecho(s, 0, k)
}

pub open spec fn eh_digito(c: char) -> bool {
    '0' <= c && c <= '9'
}

/// The decimal value of the first `n` characters of `s`, taken as digits.
pub open spec fn valor_decimal(s: Seq<char>, n: nat) -> nat
    decreases n,
{
    if n == 0 {
        0
    } else {
        valor_decimal(s, (n - 1) as nat) * 10 + ((s[n - 1] as u32 - '0' as u32) as nat)
    }
}

/// `s` without one leading `+`.
pub open spec fn sem_mais(s: Seq<char>) -> Seq<char> {
    if s.len() > 0 && s[0] == '+' {
        s.drop_first()
    } else {
        s
    }
}

/// The unsigned decimal number `s` spells, with an optional leading `+`, if it fits in a
/// `usize`.
pub open spec fn numero(s: Seq<char>) -> Option<usize> {
    let d = sem_mais(s);
    if d.len() > 0 && (forall|k: int| 0 <= k < d.len() ==> eh_digito(#[trigger] d[k]))
        && valor_decimal(d, d.len()) <= usize::MAX {
        Some(valor_decimal(d, d.len()) as usize)
    } else {
        None
    }
}

proof fn lemma_valor_decimal_cresce(s: Seq<char>, k: nat, n: nat)
    requires
        k <= n <= s.len(),
        forall|i: int| 0 <= i < s.len() ==> eh_digito(#[trigger] s[i]),
    ensures
        valor_decimal(s, k) <= valor_decimal(s, n),
    decreases n - k,
{
    if k < n {
        lemma_valor_decimal_cresce(s, k, (n - 1) as nat);
    }
}

/// Reads an unsigned decimal number.
pub fn ler_numero(s: &[char]) -> (r: Option<usize>)
    ensures
        r == numero(s@),
{
    let inicio: usize = if s.len() > 0 && s[0] == '+' {
        1
    } else {
        0
    };
    let d = trecho(s, inicio, s.len());
    assert(d@ =~= sem_mais(s@));
    if d.len() == 0 {
        return None;
    }
    let mut k: usize = 0;
    while k < d.len()
        invariant
            k <= d@.len(),
            d@ == sem_mais(s@),
            forall|i: int| 0 <= i < k ==> eh_digito(#[trigger] d@[i]),
        decreases d@.len() - k,
    {
        if !('0' <= d[k] && d[k] <= '9') {
            proof {
                let dd = sem_mais(s@);
                assert(dd[k as int] == d@[k as int]);
                assert(!eh_digito(dd[k as int]));
                assert(!(forall|j: int| 0 <= j < dd.len() ==> eh_digito(#[trigger] dd[j])));
                assert(numero(s@) is None);
            }
            return None;
        }
        k = k + 1;
    }
    let mut valor: usize = 0;
    let mut i: usize = 0;
    while i < d.len()
        invariant
            i <= d@.len(),
            d@ == sem_mais(s@),
            forall|j: int| 0 <= j < d@.len() ==> eh_digito(#[trigger] d@[j]),
            valor as nat == valor_decimal(d@, i as nat),
        decreases d@.len() - i,
    {
        let digito = (d[i] as u32 - '0' as u32) as usize;
        if valor > (usize::MAX - digito) / 10 {
            proof {
                assert(valor_decimal(d@, (i + 1) as nat) > usize::MAX) by (nonlinear_arith)
                    requires
                        valor_decimal(d@, (i + 1) as nat) == valor * 10 + digito,
                        valor > (usize::MAX - digito) / 10,
                        digito <= 9,
                ;
                lemma_valor_decimal_cresce(d@, (i + 1) as nat, d@.len());
                assert(sem_mais(s@) == d@);
                assert(valor_decimal(d@, d@.len()) > usize::MAX);
                assert(numero(s@) is None);
            }
            return None;
        }
        valor = valor * 10 + digito;
        i = i + 1;
    }
    Some(valor)
}

/// Position of the first character at or after `i` other than `c`.
pub open spec fn inicio_sem(s: Seq<char>, i: int, c: char) -> int
    decreases s.len() - i,
{
    if i < 0 || i >= s.len() {
        s.len() as int
    } else if s[i] != c {
        i
    } else {
        inicio_sem(s, i + 1, c)
    }
}

/// Position just after the last character before `j` other than `c`.
pub open spec fn fim_sem(s: Seq<char>, j: int, c: char) -> int
    decreases j,
{
    if j <= 0 || j > s.len() {
        0
    } else if s[j - 1] != c {
        j
    } else {
        fim_sem(s, j - 1, c)
    }
}

/// `s` without the characters `c` at either end.
pub open spec fn sem_nas_pontas(s: Seq<char>, c: char) -> Seq<char> {
    let a = inicio_sem(s, 0, c);
    let e = fim_sem(s, s.len() as int, c);
    if a >= e {
        seq![]
    } else {
        s.subrange(a, e)
    }
}

fn inicio_sem_exec(s: &[char], c: char) -> (r: usize)
    ensures
        r as int == inicio_sem(s@, 0, c),
        r <= s@.len(),
{
    let mut k: usize = 0;
    while k < s.len() && s[k] == c
        invariant
            k <= s@.len(),
            inicio_sem(s@, 0, c) == inicio_sem(s@, k as int, c),
        decreases s@.len() - k,
    {
        k = k + 1;
    }
    k
}

fn fim_sem_exec(s: &[char], c: char) -> (r: usize)
    ensures
        r as int == fim_sem(s@, s@.len() as int, c),
        r <= s@.len(),
{
    let mut j = s.len();
    while j > 0 && s[j - 1] == c
        invariant
            j <= s@.len(),
            fim_sem(s@, s@.len() as int, c) == fim_sem(s@, j as int, c),
        decreases j,
    {
        j = j - 1;
    }
    j
}

pub fn sem_nas_pontas_exec(s: &[char], c: char) -> (r: Vec<char>)
    ensures
        r@ == sem_nas_pontas(s@, c),
{
    let a = inicio_sem_exec(s, c);
    let e = fim_sem_exec(s, c);
    if a >= e {
        Vec::new()
    } else {
        trecho(s, a, e)
    }
}

} // verus!
