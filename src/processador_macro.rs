//! A single-level macro processor that keeps its definitions between runs.
//!
//! A definition starts with a line `MACRO name param...` (parameters separated by
//! whitespace or commas) and ends with a line that is exactly `MEND`; it replaces any
//! earlier definition of the same name. Once every definition of the input is collected,
//! each line whose first word names a macro is replaced by the macro's body, with each
//! use of a parameter (`&param`, whether declared as `&param` or `param`) replaced by the
//! matching argument, parameters taken in declared order.
//! Blank and comment lines (starting with `.`) are copied as they are. Bodies are not
//! expanded again. The output lines are joined with `\n`.

use crate::processador_macros::{busca, inserir, lemma_busca_nome, ErroMacro, ModeloDefinicao, ModeloErro, substituir_pares};
use crate::texto::{
    aparar,
    aparar_exec,
    caracteres,
    igual,
    itens,
    lemma_vistas_push,
    linhas,
    dividir_linhas,
    palavras,
    pedacos,
    sem_nas_pontas,
    sem_nas_pontas_exec,
    substituir,
    texto,
    vistas,
};
use vstd::prelude::*;

verus! {

/// A macro definition.
pub struct MacroDef {
    pub nome: String,
    pub param: Vec<String>,
    pub body: Vec<String>,
}

pub open spec fn textos(v: Seq<String>) -> Seq<Seq<char>> {
    v.map_values(|s: String| s@)
}

impl MacroDef {
    pub open spec fn vista(&self) -> ModeloDefinicao {
        ModeloDefinicao { nome: self.nome@, parametros: textos(self.param@), corpo: textos(self.body@) }
    }
}

/// A macro processor and the definitions it has collected.
pub struct MacroProcessador {
    macro_def: Vec<MacroDef>,
}

pub open spec fn vistas_defs(v: Seq<MacroDef>) -> Seq<ModeloDefinicao> {
    v.map_values(|d: MacroDef| d.vista())
}

/// The collecting pass after some lines: whether a definition is open, the definition
/// being read, the lines kept for expansion and the definitions known.
pub struct Coleta {
    pub definindo: Option<ModeloDefinicao>,
    pub saida: Seq<Seq<char>>,
    pub defs: Seq<ModeloDefinicao>,
}

pub open spec fn palavra_macro() -> Seq<char> {
    seq!['M', 'A', 'C', 'R', 'O']
}

pub open spec fn palavra_mend() -> Seq<char> {
    seq!['M', 'E', 'N', 'D']
}

/// Blank lines and comments.
pub open spec fn eh_livre(l: Seq<char>) -> bool {
    let t = aparar(l);
    t.len() == 0 || t[0] == '.'
}

/// The words from position `k` on, with commas at their ends removed.
pub open spec fn parametros_de(w: Seq<Seq<char>>, k: nat) -> Seq<Seq<char>>
    decreases w.len() - k,
{
    if k >= w.len() {
        seq![]
    } else {
        seq![sem_nas_pontas(w[k as int], ',')] + parametros_de(w, k + 1)
    }
}

pub open spec fn com_linha(d: Option<ModeloDefinicao>, l: Seq<char>) -> Option<ModeloDefinicao> {
    match d {
        Some(d) => Some(ModeloDefinicao { nome: d.nome, parametros: d.parametros, corpo: d.corpo.push(l) }),
        None => None,
    }
}

pub open spec fn coleta_linha(c: Coleta, l: Seq<char>) -> Coleta {
    if eh_livre(l) {
        if c.definindo is Some {
            Coleta { definindo: com_linha(c.definindo, l), ..c }
        } else {
            Coleta { saida: c.saida.push(l), ..c }
        }
    } else if c.definindo is None {
        let w = palavras(l);
        if w.len() >= 2 && w[0] == palavra_macro() {
            Coleta {
                definindo: Some(
                    ModeloDefinicao { nome: w[1], parametros: parametros_de(w, 2), corpo: seq![] },
                ),
                ..c
            }
        } else {
            Coleta { saida: c.saida.push(l), ..c }
        }
    } else if aparar(l) == palavra_mend() {
        Coleta { definindo: None, defs: inserir(c.defs, c.definindo->0), ..c }
    } else {
        Coleta { definindo: com_linha(c.definindo, l), ..c }
    }
}

pub open spec fn coleta_ate(ls: Seq<Seq<char>>, n: nat, defs: Seq<ModeloDefinicao>) -> Coleta
    decreases n,
{
    if n == 0 {
        Coleta { definindo: None, saida: seq![], defs }
    } else {
        coleta_linha(coleta_ate(ls, (n - 1) as nat, defs), ls[n - 1])
    }
}

/// The arguments of a call: the comma-separated items of the words after the first.
pub open spec fn argumentos_de(w: Seq<Seq<char>>, k: nat) -> Seq<Seq<char>>
    decreases k,
{
    if k <= 1 || k > w.len() {
        seq![]
    } else {
        argumentos_de(w, (k - 1) as nat) + itens(w[k - 1])
    }
}

/// How a parameter's uses are written in a body: the name as declared when it starts
/// with `&`, else the name after an `&`.
pub open spec fn marcado(p: Seq<char>) -> Seq<char> {
    if p.len() > 0 && p[0] == '&' {
        p
    } else {
        seq!['&'] + p
    }
}

pub open spec fn marcados(ps: Seq<Seq<char>>) -> Seq<Seq<char>> {
    ps.map_values(|p: Seq<char>| marcado(p))
}

/// The body of `d` with its parameters replaced by `args`.
pub open spec fn corpo_expandido(d: ModeloDefinicao, args: Seq<Seq<char>>) -> Seq<Seq<char>> {
    d.corpo.map_values(
        |l: Seq<char>| substituir_pares(l, marcados(d.parametros), args, d.parametros.len()),
    )
}

pub open spec fn expandir_linha(l: Seq<char>, defs: Seq<ModeloDefinicao>) -> Result<
    Seq<Seq<char>>,
    ModeloErro,
> {
    if eh_livre(l) {
        Ok(seq![l])
    } else {
        let w = palavras(l);
        if w.len() == 0 {
            Ok(seq![l])
        } else {
            match busca(defs, w[0]) {
            None => Ok(seq![l]),
            Some(i) => {
                let d = defs[i];
                let args = argumentos_de(w, w.len());
                if args.len() != d.parametros.len() {
                    Err(
                        ModeloErro::NumeroParametros {
                            nome: d.nome,
                            esperado: d.parametros.len(),
                            recebido: args.len(),
                        },
                    )
                } else {
                    Ok(corpo_expandido(d, args))
                }
            },
        }
        }
    }
}

pub open spec fn expandir_ate(ls: Seq<Seq<char>>, n: nat, defs: Seq<ModeloDefinicao>) -> Result<
    Seq<Seq<char>>,
    ModeloErro,
>
    decreases n,
{
    if n == 0 {
        Ok(seq![])
    } else {
        match expandir_ate(ls, (n - 1) as nat, defs) {
            Ok(antes) => match expandir_linha(ls[n - 1], defs) {
                Ok(novas) => Ok(antes + novas),
                Err(x) => Err(x),
            },
            Err(x) => Err(x),
        }
    }
}

/// Lines joined with `\n` between them.
pub open spec fn juntar(ls: Seq<Seq<char>>) -> Seq<char>
    decreases ls.len(),
{
    if ls.len() == 0 {
        seq![]
    } else if ls.len() == 1 {
        ls[0]
    } else {
        juntar(ls.drop_last()) + seq!['\n'] + ls.last()
    }
}

/// The definitions after collecting from `entrada` with `defs` known.
pub open spec fn definicoes_apos(entrada: Seq<char>, defs: Seq<ModeloDefinicao>) -> Seq<
    ModeloDefinicao,
> {
    let ls = linhas(entrada);
    coleta_ate(ls, ls.len(), defs).defs
}

/// The text produced from `entrada` with `defs` known.
pub open spec fn saida_de(entrada: Seq<char>, defs: Seq<ModeloDefinicao>) -> Result<
    Seq<char>,
    ModeloErro,
> {
    let ls = linhas(entrada);
    let c = coleta_ate(ls, ls.len(), defs);
    match expandir_ate(c.saida, c.saida.len(), c.defs) {
        Ok(out) => Ok(juntar(out)),
        Err(x) => Err(x),
    }
}

/// A call of a macro with `n` parameters that passes `m != n` arguments makes the run
/// fail with an error that names the macro and reports exactly `n` and `m`, whatever
/// lines follow: the call is a line kept for expansion (outside any definition) whose
/// first word names a macro known once the input's definitions are collected, after
/// lines that expand without error.
pub proof fn lemma_numero_parametros_incorreto(
    entrada: Seq<char>,
    defs: Seq<ModeloDefinicao>,
    k: nat,
    antes: Seq<Seq<char>>,
)
    requires
        ({
            let c = coleta_ate(linhas(entrada), linhas(entrada).len(), defs);
            let w = palavras(c.saida[k as int]);
            &&& k < c.saida.len()
            &&& expandir_ate(c.saida, k, c.defs) == Ok::<Seq<Seq<char>>, ModeloErro>(antes)
            &&& !eh_livre(c.saida[k as int])
            &&& w.len() > 0
            &&& busca(c.defs, w[0]) is Some
            &&& argumentos_de(w, w.len()).len() != c.defs[busca(c.defs, w[0])->0].parametros.len()
        }),
    ensures
        ({
            let c = coleta_ate(linhas(entrada), linhas(entrada).len(), defs);
            let w = palavras(c.saida[k as int]);
            saida_de(entrada, defs) == Err::<Seq<char>, ModeloErro>(
                ModeloErro::NumeroParametros {
                    nome: w[0],
                    esperado: c.defs[busca(c.defs, w[0])->0].parametros.len(),
                    recebido: argumentos_de(w, w.len()).len(),
                },
            )
        }),
{
    let c = coleta_ate(linhas(entrada), linhas(entrada).len(), defs);
    let w = palavras(c.saida[k as int]);
    lemma_busca_nome(c.defs, 0, w[0]);
    assert(expandir_ate(c.saida, k + 1, c.defs) is Err);
    lemma_expandir_erro(c.saida, k + 1, c.saida.len(), c.defs);
}

fn para_strings(v: &Vec<Vec<char>>) -> (r: Vec<String>)
    ensures
        textos(r@) == vistas(v@),
{
    let mut r: Vec<String> = Vec::new();
    let mut i: usize = 0;
    while i < v.len()
        invariant
            i <= v@.len(),
            textos(r@) == vistas(v@).subrange(0, i as int),
        decreases v@.len() - i,
    {
        let ghost antes = r@;
        let t = texto(v[i].as_slice());
        r.push(t);
        assert(textos(r@) =~= textos(antes).push(t@));
        assert(vistas(v@)[i as int] == v@[i as int]@);
        i = i + 1;
        assert(textos(r@) =~= vistas(v@).subrange(0, i as int));
    }
    assert(vistas(v@).subrange(0, i as int) =~= vistas(v@));
    r
}

fn para_caracteres(v: &Vec<String>) -> (r: Vec<Vec<char>>)
    ensures
        vistas(r@) == textos(v@),
{
    let mut r: Vec<Vec<char>> = Vec::new();
    let mut i: usize = 0;
    while i < v.len()
        invariant
            i <= v@.len(),
            vistas(r@) == textos(v@).subrange(0, i as int),
        decreases v@.len() - i,
    {
        let l = caracteres(v[i].as_str());
        proof {
            lemma_vistas_push(r@, l);
        }
        r.push(l);
        i = i + 1;
        assert(vistas(r@) =~= textos(v@).subrange(0, i as int));
    }
    assert(textos(v@).subrange(0, i as int) =~= textos(v@));
    r
}

fn buscar_def(defs: &Vec<MacroDef>, nome: &Vec<char>) -> (r: Option<usize>)
    ensures
        match r {
            Some(i) => busca(vistas_defs(defs@), nome@) == Some(i as int) && i < defs@.len(),
            None => busca(vistas_defs(defs@), nome@) is None,
        },
{
    let ghost t = vistas_defs(defs@);
    let mut i: usize = 0;
    while i < defs.len()
        invariant
            i <= defs@.len(),
            t == vistas_defs(defs@),
            busca(t, nome@) == crate::processador_macros::busca_desde(t, i as int, nome@),
        decreases defs@.len() - i,
    {
        let n = caracteres(defs[i].nome.as_str());
        assert(t[i as int].nome == defs@[i as int].nome@);
        if igual(n.as_slice(), nome.as_slice()) {
            return Some(i);
        }
        i = i + 1;
    }
    None
}

fn inserir_def(defs: &mut Vec<MacroDef>, d: MacroDef)
    ensures
        vistas_defs(final(defs)@) == inserir(vistas_defs(old(defs)@), d.vista()),
{
    let ghost dv = d.vista();
    let nome = caracteres(d.nome.as_str());
    match buscar_def(defs, &nome) {
        Some(i) => {
            defs.remove(i);
            defs.insert(i, d);
            assert(vistas_defs(defs@) =~= vistas_defs(old(defs)@).update(i as int, dv));
        },
        None => {
            defs.push(d);
            assert(vistas_defs(defs@) =~= vistas_defs(old(defs)@).push(dv));
        },
    }
}

fn eh_livre_exec(l: &Vec<char>) -> (r: bool)
    ensures
        r == eh_livre(l@),
{
    let t = aparar_exec(l.as_slice());
    t.len() == 0 || t[0] == '.'
}

fn parametros_exec(w: &Vec<Vec<char>>) -> (r: Vec<Vec<char>>)
    ensures
        vistas(r@) == parametros_de(vistas(w@), 2),
{
    let ghost vw = vistas(w@);
    let mut r: Vec<Vec<char>> = Vec::new();
    let mut i: usize = 2;
    if w.len() < 2 {
        i = w.len();
        assert(vistas(r@) =~= seq![]);
    }
    while i < w.len()
        invariant
            i <= w@.len(),
            vw == vistas(w@),
            w@.len() >= 2 ==> 2 <= i,
            vistas(r@) + parametros_de(vw, i as nat) == parametros_de(vw, 2),
        decreases w@.len() - i,
    {
        let p = sem_nas_pontas_exec(w[i].as_slice(), ',');
        assert(vw[i as int] == w@[i as int]@);
        let ghost antes = vistas(r@);
        proof {
            lemma_vistas_push(r@, p);
            assert(antes + (seq![p@] + parametros_de(vw, (i + 1) as nat)) =~= antes.push(p@)
                + parametros_de(vw, (i + 1) as nat));
        }
        r.push(p);
        i = i + 1;
    }
    assert(vistas(r@) + seq![] =~= vistas(r@));
    r
}

fn argumentos_exec(w: &Vec<Vec<char>>) -> (r: Vec<Vec<char>>)
    ensures
        vistas(r@) == argumentos_de(vistas(w@), w@.len()),
{
    let ghost vw = vistas(w@);
    let mut r: Vec<Vec<char>> = Vec::new();
    let mut i: usize = 1;
    if w.len() == 0 {
        return r;
    }
    assert(vistas(r@) =~= seq![]);
    while i < w.len()
        invariant
            1 <= i <= w@.len(),
            vw == vistas(w@),
            vistas(r@) == argumentos_de(vw, i as nat),
        decreases w@.len() - i,
    {
        let novos = pedacos(w[i].as_slice(), true);
        assert(vw[i as int] == w@[i as int]@);
        let ghost antes = vistas(r@);
        let mut k: usize = 0;
        while k < novos.len()
            invariant
                k <= novos@.len(),
                vistas(r@) == antes + vistas(novos@).subrange(0, k as int),
            decreases novos@.len() - k,
        {
            let item = trecho_linha(&novos[k]);
            proof {
                lemma_vistas_push(r@, item);
            }
            r.push(item);
            k = k + 1;
            assert(vistas(r@) =~= antes + vistas(novos@).subrange(0, k as int));
        }
        assert(vistas(novos@).subrange(0, k as int) =~= vistas(novos@));
        i = i + 1;
    }
    r
}

fn trecho_linha(l: &Vec<char>) -> (r: Vec<char>)
    ensures
        r@ == l@,
{
    let r = crate::texto::trecho(l.as_slice(), 0, l.len());
    assert(r@ =~= l@);
    r
}

fn corpo_expandido_exec(d: &MacroDef, args: &Vec<Vec<char>>) -> (r: Vec<Vec<char>>)
    requires
        args@.len() == d.param@.len(),
    ensures
        vistas(r@) == corpo_expandido(d.vista(), vistas(args@)),
{
    let ghost dv = d.vista();
    let ghost alvo = corpo_expandido(dv, vistas(args@));
    let params = para_caracteres(&d.param);
    let mut marcas: Vec<Vec<char>> = Vec::new();
    let mut j: usize = 0;
    while j < params.len()
        invariant
            j <= params@.len(),
            vistas(params@) == dv.parametros,
            vistas(marcas@) == marcados(dv.parametros).subrange(0, j as int),
        decreases params@.len() - j,
    {
        let mut m: Vec<char> = Vec::new();
        if !(params[j].len() > 0 && params[j][0] == '&') {
            m.push('&');
        }
        crate::texto::anexar(&mut m, params[j].as_slice());
        assert(m@ =~= marcado(params@[j as int]@));
        assert(vistas(params@)[j as int] == params@[j as int]@);
        proof {
            lemma_vistas_push(marcas@, m);
        }
        marcas.push(m);
        j = j + 1;
        assert(vistas(marcas@) =~= marcados(dv.parametros).subrange(0, j as int));
    }
    assert(marcados(dv.parametros).subrange(0, j as int) =~= marcados(dv.parametros));
    let corpo = para_caracteres(&d.body);
    let mut r: Vec<Vec<char>> = Vec::new();
    let mut k: usize = 0;
    while k < corpo.len()
        invariant
            k <= corpo@.len(),
            vistas(corpo@) == dv.corpo,
            vistas(marcas@) == marcados(dv.parametros),
            marcas@.len() == args@.len(),
            dv.parametros.len() == args@.len(),
            alvo == corpo_expandido(dv, vistas(args@)),
            vistas(r@) == alvo.subrange(0, k as int),
        decreases corpo@.len() - k,
    {
        let mut l = trecho_linha(&corpo[k]);
        let mut q: usize = 0;
        while q < marcas.len()
            invariant
                q <= marcas@.len() == args@.len(),
                vistas(marcas@) == marcados(dv.parametros),
                l@ == substituir_pares(corpo@[k as int]@, vistas(marcas@), vistas(args@), q as nat),
            decreases marcas@.len() - q,
        {
            assert(vistas(marcas@)[q as int] == marcas@[q as int]@);
            assert(vistas(args@)[q as int] == args@[q as int]@);
            l = substituir(l.as_slice(), marcas[q].as_slice(), args[q].as_slice());
            q = q + 1;
        }
        assert(vistas(corpo@)[k as int] == corpo@[k as int]@);
        proof {
            lemma_vistas_push(r@, l);
        }
        r.push(l);
        k = k + 1;
        assert(vistas(r@) =~= alvo.subrange(0, k as int));
    }
    assert(alvo.subrange(0, k as int) =~= alvo);
    r
}

fn expandir_linha_exec(l: &Vec<char>, defs: &Vec<MacroDef>) -> (r: Result<
    Vec<Vec<char>>,
    ErroMacro,
>)
    ensures
        match expandir_linha(l@, vistas_defs(defs@)) {
            Ok(novas) => r is Ok && vistas(r->Ok_0@) == novas,
            Err(x) => r is Err && r->Err_0.vista() == x,
        },
{
    let mut sozinha: Vec<Vec<char>> = Vec::new();
    let copia = trecho_linha(l);
    proof {
        lemma_vistas_push(sozinha@, copia);
        assert(vistas(sozinha@).push(copia@) =~= seq![l@]);
    }
    sozinha.push(copia);
    if eh_livre_exec(l) {
        return Ok(sozinha);
    }
    let w = pedacos(l.as_slice(), false);
    if w.len() == 0 {
        return Ok(sozinha);
    }
    assert(vistas(w@)[0] == w@[0]@);
    match buscar_def(defs, &w[0]) {
        None => Ok(sozinha),
        Some(i) => {
            proof {
                lemma_busca_nome(vistas_defs(defs@), 0, w@[0]@);
            }
            assert(vistas_defs(defs@)[i as int] == defs@[i as int].vista());
            let args = argumentos_exec(&w);
            if args.len() != defs[i].param.len() {
                return Err(
                    ErroMacro::NumeroParametrosIncorreto {
                        nome: texto(caracteres(defs[i].nome.as_str()).as_slice()),
                        esperado: defs[i].param.len(),
                        recebido: args.len(),
                    },
                );
            }
            Ok(corpo_expandido_exec(&defs[i], &args))
        },
    }
}

fn juntar_exec(ls: &Vec<Vec<char>>) -> (r: Vec<char>)
    ensures
        r@ == juntar(vistas(ls@)),
{
    let ghost vl = vistas(ls@);
    let mut r: Vec<char> = Vec::new();
    let mut i: usize = 0;
    while i < ls.len()
        invariant
            i <= ls@.len(),
            vl == vistas(ls@),
            r@ == juntar(vl.subrange(0, i as int)),
        decreases ls@.len() - i,
    {
        assert(vl[i as int] == ls@[i as int]@);
        assert(vl.subrange(0, i + 1).drop_last() =~= vl.subrange(0, i as int));
        if i > 0 {
            r.push('\n');
        } else {
            assert(r@ =~= seq![]);
        }
        crate::texto::anexar(&mut r, ls[i].as_slice());
        i = i + 1;
    }
    assert(vl.subrange(0, i as int) =~= vl);
    r
}

struct ColetaExec {
    definindo: bool,
    nome: Vec<char>,
    params: Vec<Vec<char>>,
    corpo: Vec<Vec<char>>,
    saida: Vec<Vec<char>>,
}

spec fn vista_coleta(c: ColetaExec, defs: Seq<MacroDef>) -> Coleta {
    Coleta {
        definindo: if c.definindo {
            Some(
                ModeloDefinicao {
                    nome: c.nome@,
                    parametros: vistas(c.params@),
                    corpo: vistas(c.corpo@),
                },
            )
        } else {
            None
        },
        saida: vistas(c.saida@),
        defs: vistas_defs(defs),
    }
}

fn coleta_linha_exec(c: &mut ColetaExec, defs: &mut Vec<MacroDef>, l: &Vec<char>)
    ensures
        vista_coleta(*final(c), final(defs)@) == coleta_linha(vista_coleta(*old(c), old(defs)@), l@),
{
    let kw_macro: [char; 5] = ['M', 'A', 'C', 'R', 'O'];
    let kw_mend: [char; 4] = ['M', 'E', 'N', 'D'];
    assert(kw_macro@ =~= palavra_macro());
    assert(kw_mend@ =~= palavra_mend());
    if eh_livre_exec(l) {
        let copia = trecho_linha(l);
        if c.definindo {
            proof {
                lemma_vistas_push(c.corpo@, copia);
            }
            c.corpo.push(copia);
        } else {
            proof {
                lemma_vistas_push(c.saida@, copia);
            }
            c.saida.push(copia);
        }
        return;
    }
    if !c.definindo {
        let w = pedacos(l.as_slice(), false);
        if w.len() >= 2 {
            assert(vistas(w@)[0] == w@[0]@);
            assert(vistas(w@)[1] == w@[1]@);
        }
        if w.len() >= 2 && igual(w[0].as_slice(), kw_macro.as_slice()) {
            c.definindo = true;
            c.nome = trecho_linha(&w[1]);
            c.params = parametros_exec(&w);
            c.corpo = Vec::new();
            assert(vistas(c.corpo@) =~= seq![]);
        } else {
            let copia = trecho_linha(l);
            proof {
                lemma_vistas_push(c.saida@, copia);
            }
            c.saida.push(copia);
        }
        return;
    }
    let t = aparar_exec(l.as_slice());
    if igual(t.as_slice(), kw_mend.as_slice()) {
        let d = MacroDef {
            nome: texto(c.nome.as_slice()),
            param: para_strings(&c.params),
            body: para_strings(&c.corpo),
        };
        inserir_def(defs, d);
        c.definindo = false;
    } else {
        let copia = trecho_linha(l);
        proof {
            lemma_vistas_push(c.corpo@, copia);
        }
        c.corpo.push(copia);
    }
}

impl MacroProcessador {
    /// The definitions collected so far.
    pub closed spec fn definicoes(&self) -> Seq<ModeloDefinicao> {
        vistas_defs(self.macro_def@)
    }

    pub fn new() -> (r: Self)
        ensures
            r.definicoes() == Seq::<ModeloDefinicao>::empty(),
    {
        let r = Self { macro_def: Vec::new() };
        assert(r.definicoes() =~= Seq::<ModeloDefinicao>::empty());
        r
    }

    /// Collects the definitions of `entrada`, keeping them, and expands its macro calls.
    pub fn processar(&mut self, entrada: &str) -> (r: Result<String, ErroMacro>)
        ensures
            final(self).definicoes() == definicoes_apos(entrada@, old(self).definicoes()),
            match saida_de(entrada@, old(self).definicoes()) {
                Ok(s) => r is Ok && r->Ok_0@ == s,
                Err(x) => r is Err && r->Err_0.vista() == x,
            },
    {
        let ghost defs0 = self.definicoes();
        let cs = caracteres(entrada);
        let ls = dividir_linhas(cs.as_slice());
        let ghost vl = vistas(ls@);
        let mut c = ColetaExec {
            definindo: false,
            nome: Vec::new(),
            params: Vec::new(),
            corpo: Vec::new(),
            saida: Vec::new(),
        };
        assert(vistas(c.saida@) =~= seq![]);
        assert(vista_coleta(c, self.macro_def@) == coleta_ate(vl, 0, defs0));
        let mut i: usize = 0;
        while i < ls.len()
            invariant
                i <= ls@.len(),
                vl == vistas(ls@),
                vl == linhas(entrada@),
                defs0 == old(self).definicoes(),
                vista_coleta(c, self.macro_def@) == coleta_ate(vl, i as nat, defs0),
            decreases ls@.len() - i,
        {
            assert(vl[i as int] == ls@[i as int]@);
            coleta_linha_exec(&mut c, &mut self.macro_def, &ls[i]);
            i = i + 1;
        }
        let ghost col = coleta_ate(vl, vl.len(), defs0);
        assert(vistas(c.saida@) == col.saida);
        let saida = self.expandir_macros(&c.saida)?;
        Ok(texto(juntar_exec(&saida).as_slice()))
    }

    /// Expands the macro calls among `saida` with the definitions collected.
    fn expandir_macros(&self, saida: &Vec<Vec<char>>) -> (r: Result<Vec<Vec<char>>, ErroMacro>)
        ensures
            match expandir_ate(vistas(saida@), saida@.len(), self.definicoes()) {
                Ok(o) => r is Ok && vistas(r->Ok_0@) == o,
                Err(x) => r is Err && r->Err_0.vista() == x,
            },
    {
        let ghost ls = vistas(saida@);
        let mut expandida: Vec<Vec<char>> = Vec::new();
        let mut j: usize = 0;
        assert(vistas(expandida@) =~= seq![]);
        while j < saida.len()
            invariant
                j <= saida@.len(),
                ls == vistas(saida@),
                expandir_ate(ls, j as nat, self.definicoes()) == Ok::<Seq<Seq<char>>, ModeloErro>(
                    vistas(expandida@),
                ),
            decreases saida@.len() - j,
        {
            assert(ls[j as int] == saida@[j as int]@);
            let novas = match expandir_linha_exec(&saida[j], &self.macro_def) {
                Ok(novas) => novas,
                Err(x) => {
                    proof {
                        lemma_expandir_erro(ls, (j + 1) as nat, ls.len(), self.definicoes());
                    }
                    return Err(x);
                },
            };
            let ghost antes = vistas(expandida@);
            let mut k: usize = 0;
            while k < novas.len()
                invariant
                    k <= novas@.len(),
                    vistas(expandida@) == antes + vistas(novas@).subrange(0, k as int),
                decreases novas@.len() - k,
            {
                let l = trecho_linha(&novas[k]);
                proof {
                    lemma_vistas_push(expandida@, l);
                }
                expandida.push(l);
                k = k + 1;
                assert(vistas(expandida@) =~= antes + vistas(novas@).subrange(0, k as int));
            }
            assert(vistas(novas@).subrange(0, k as int) =~= vistas(novas@));
            j = j + 1;
        }
        Ok(expandida)
    }

    /// Forgets every definition.
    pub fn limpar(&mut self)
        ensures
            final(self).definicoes() == Seq::<ModeloDefinicao>::empty(),
    {
        self.macro_def = Vec::new();
        assert(self.definicoes() =~= Seq::<ModeloDefinicao>::empty());
    }

    /// The names of the macros defined, in order of first definition.
    pub fn pegar_nome_macros(&self) -> (r: Vec<&str>)
        ensures
            r@.len() == self.definicoes().len(),
            forall|i: int| 0 <= i < r@.len() ==> (#[trigger] r@[i])@ == self.definicoes()[i].nome,
    {
        let mut r: Vec<&str> = Vec::new();
        let mut i: usize = 0;
        while i < self.macro_def.len()
            invariant
                i <= self.macro_def@.len(),
                r@.len() == i,
                forall|k: int| 0 <= k < i ==> (#[trigger] r@[k])@ == self.macro_def@[k].nome@,
            decreases self.macro_def@.len() - i,
        {
            r.push(self.macro_def[i].nome.as_str());
            i = i + 1;
        }
        r
    }
}

proof fn lemma_expandir_erro(ls: Seq<Seq<char>>, n: nat, m: nat, defs: Seq<ModeloDefinicao>)
    requires
        n <= m,
        expandir_ate(ls, n, defs) is Err,
    ensures
        expandir_ate(ls, m, defs) == expandir_ate(ls, n, defs),
    decreases m - n,
{
    if n < m {
        lemma_expandir_erro(ls, n, (m - 1) as nat, defs);
    }
}

} // verus!
