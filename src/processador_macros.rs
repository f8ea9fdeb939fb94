//! The macro preprocessor: expands `MACRO ... MEND` definitions and their calls into
//! plain assembly text.
//!
//! A line whose second word is `MACRO` opens a definition named by its first word, whose
//! parameters are the comma-separated items of the third word that start with `&`. Lines
//! up to the matching `MEND` form the body; definitions may nest, and an unmatched `MEND`
//! is ignored. A line whose first word names a macro, or whose second word does (the first
//! being a label, which is kept), is a call: its comma-separated arguments must match the
//! parameters in number, and the body is processed again with every parameter replaced by
//! its argument and every `->` removed. Comment lines, which start with `.`,
//! pass through untouched; blank lines are dropped. Expansion depth is bounded, so a macro
//! that calls itself ends in an error.

use crate::texto::{
    anexar,
    caracteres,
    dividir_linhas,
    igual,
    itens,
    lemma_vistas_push,
    linhas,
    palavras,
    pedacos,
    substituido,
    substituir,
    texto,
    vistas,
};
use vstd::prelude::*;

verus! {

/// Deepest nesting of macro expansions.
pub const PROFUNDIDADE_MAXIMA: usize = 64;

/// A macro definition as the contracts see it.
pub struct ModeloDefinicao {
    pub nome: Seq<char>,
    pub parametros: Seq<Seq<char>>,
    pub corpo: Seq<Seq<char>>,
}

/// An expansion error as the contracts see it.
pub enum ModeloErro {
    NumeroParametros { nome: Seq<char>, esperado: nat, recebido: nat },
    Profundidade { nome: Seq<char> },
}

/// The state of a pass over some lines: nesting level, the definition being read,
/// the text produced and the definitions known.
pub struct Estado {
    pub nivel: nat,
    pub definindo: Option<ModeloDefinicao>,
    pub saida: Seq<char>,
    pub tabela: Seq<ModeloDefinicao>,
}

/// Why macro expansion failed.
#[derive(Debug, PartialEq, Eq)]
pub enum ErroMacro {
    /// A call gave `recebido` arguments to a macro with `esperado` parameters.
    NumeroParametrosIncorreto { nome: String, esperado: usize, recebido: usize },
    /// Expansions nested deeper than `PROFUNDIDADE_MAXIMA`, as a macro that calls itself does.
    RecursaoProfundaDemais { nome: String },
}

impl ErroMacro {
    pub open spec fn vista(&self) -> ModeloErro {
        match self {
            ErroMacro::NumeroParametrosIncorreto { nome, esperado, recebido } =>
                ModeloErro::NumeroParametros {
                nome: nome@,
                esperado: *esperado as nat,
                recebido: *recebido as nat,
            },
            ErroMacro::RecursaoProfundaDemais { nome } => ModeloErro::Profundidade { nome: nome@ },
        }
    }
}

pub open spec fn palavra_macro() -> Seq<char> {
    seq!['M', 'A', 'C', 'R', 'O']
}

pub open spec fn palavra_mend() -> Seq<char> {
    seq!['M', 'E', 'N', 'D']
}

/// Position of the first definition named `nome`, searching from `i`.
pub open spec fn busca_desde(t: Seq<ModeloDefinicao>, i: int, nome: Seq<char>) -> Option<int>
    decreases t.len() - i,
{
    if i < 0 || i >= t.len() {
        None
    } else if t[i].nome == nome {
        Some(i)
    } else {
        busca_desde(t, i + 1, nome)
    }
}

pub open spec fn busca(t: Seq<ModeloDefinicao>, nome: Seq<char>) -> Option<int> {
    busca_desde(t, 0, nome)
}

/// The table with `d` stored: it replaces a definition of the same name, if any.
pub open spec fn inserir(t: Seq<ModeloDefinicao>, d: ModeloDefinicao) -> Seq<ModeloDefinicao> {
    match busca(t, d.nome) {
        Some(i) => t.update(i, d),
        None => t.push(d),
    }
}

/// The table with a pending definition, if any, stored.
pub open spec fn guardar(t: Seq<ModeloDefinicao>, d: Option<ModeloDefinicao>) -> Seq<
    ModeloDefinicao,
> {
    match d {
        Some(d) => inserir(t, d),
        None => t,
    }
}

/// The pending definition with one more body line.
pub open spec fn com_linha(d: Option<ModeloDefinicao>, l: Seq<char>) -> Option<ModeloDefinicao> {
    match d {
        Some(d) => Some(ModeloDefinicao { nome: d.nome, parametros: d.parametros, corpo: d.corpo.push(l) }),
        None => None,
    }
}

/// The items among the first `n` that start with `&`.
pub open spec fn so_parametros(itens: Seq<Seq<char>>, n: nat) -> Seq<Seq<char>>
    decreases n,
{
    if n == 0 {
        seq![]
    } else {
        so_parametros(itens, (n - 1) as nat) + (if itens[n - 1].len() > 0 && itens[n - 1][0]
            == '&' {
            seq![itens[n - 1]]
        } else {
            seq![]
        })
    }
}

/// `l` after replacing, in order, each of the first `n` parameters by its argument.
pub open spec fn substituir_pares(
    l: Seq<char>,
    ps: Seq<Seq<char>>,
    vs: Seq<Seq<char>>,
    n: nat,
) -> Seq<char>
    decreases n,
{
    if n == 0 {
        l
    } else {
        substituido(substituir_pares(l, ps, vs, (n - 1) as nat), ps[n - 1], vs[n - 1])
    }
}

/// A body line as an expansion sees it: parameters replaced, then `->` removed.
/// Outside any expansion the line is left as it is.
pub open spec fn aplicar(l: Seq<char>, ctx: Option<(Seq<Seq<char>>, Seq<Seq<char>>)>) -> Seq<char> {
    match ctx {
        None => l,
        Some((ps, vs)) => substituido(
            substituir_pares(l, ps, vs, ps.len()),
            seq!['-', '>'],
            seq![],
        ),
    }
}

/// A comment line: its first character is `.`.
pub open spec fn eh_comentario(l: Seq<char>) -> bool {
    l.len() > 0 && l[0] == '.'
}

pub open spec fn palavra_ou_vazia(t: Seq<Seq<char>>, k: int) -> Seq<char> {
    if 0 <= k < t.len() {
        t[k]
    } else {
        seq![]
    }
}

/// The effect of one source line.
pub open spec fn linha_spec(
    e: Estado,
    bruta: Seq<char>,
    ctx: Option<(Seq<Seq<char>>, Seq<Seq<char>>)>,
    fuel: nat,
) -> Result<Estado, ModeloErro>
    decreases fuel, 0nat, 0nat,
{
    let linha = if eh_comentario(bruta) {
        bruta
    } else {
        aplicar(bruta, ctx)
    };
    let t = palavras(linha);
    if t.len() == 0 {
        Ok(e)
    } else if eh_comentario(bruta) {
        if e.definindo is Some {
            Ok(Estado { definindo: com_linha(e.definindo, linha), ..e })
        } else {
            Ok(Estado { saida: e.saida + linha.push('\n'), ..e })
        }
    } else if t.len() >= 2 && t[1] == palavra_macro() {
        if e.nivel == 0 {
            let itens_param = itens(palavra_ou_vazia(t, 2));
            Ok(
                Estado {
                    nivel: 1,
                    definindo: Some(
                        ModeloDefinicao {
                            nome: t[0],
                            parametros: so_parametros(itens_param, itens_param.len()),
                            corpo: seq![],
                        },
                    ),
                    ..e
                },
            )
        } else {
            Ok(Estado { nivel: e.nivel + 1, definindo: com_linha(e.definindo, linha), ..e })
        }
    } else if t[0] == palavra_mend() || (t.len() >= 2 && t[1] == palavra_mend()) {
        if e.nivel == 0 {
            Ok(e)
        } else if e.nivel == 1 {
            Ok(Estado { nivel: 0, definindo: None, tabela: guardar(e.tabela, e.definindo), ..e })
        } else {
            Ok(
                Estado {
                    nivel: (e.nivel - 1) as nat,
                    definindo: com_linha(e.definindo, linha),
                    ..e
                },
            )
        }
    } else if e.definindo is Some {
        Ok(Estado { definindo: com_linha(e.definindo, linha), ..e })
    } else {
        let direto = busca(e.tabela, t[0]);
        let rotulado = if t.len() >= 2 {
            busca(e.tabela, t[1])
        } else {
            None
        };
        if direto is None && rotulado is None {
            Ok(Estado { saida: e.saida + linha.push('\n'), ..e })
        } else {
            let i = if direto is Some {
                direto->0
            } else {
                rotulado->0
            };
            let d = e.tabela[i];
            let prefixo = if direto is Some {
                seq![]
            } else {
                t[0].push(' ')
            };
            let args = itens(
                palavra_ou_vazia(
                    t,
                    if direto is Some {
                        1
                    } else {
                        2
                    },
                ),
            );
            if args.len() != d.parametros.len() {
                Err(
                    ModeloErro::NumeroParametros {
                        nome: d.nome,
                        esperado: d.parametros.len(),
                        recebido: args.len(),
                    },
                )
            } else if fuel == 0 {
                Err(ModeloErro::Profundidade { nome: d.nome })
            } else {
                match passo_spec(d.corpo, e.tabela, Some((d.parametros, args)), (fuel - 1) as nat) {
                    Ok((out, t2)) => Ok(Estado { saida: e.saida + prefixo + out, tabela: t2, ..e }),
                    Err(x) => Err(x),
                }
            }
        }
    }
}

/// The state after the first `n` lines.
pub open spec fn processar_ate(
    linhas: Seq<Seq<char>>,
    n: nat,
    e0: Estado,
    ctx: Option<(Seq<Seq<char>>, Seq<Seq<char>>)>,
    fuel: nat,
) -> Result<Estado, ModeloErro>
    decreases fuel, 1nat, n,
{
    if n == 0 {
        Ok(e0)
    } else {
        match processar_ate(linhas, (n - 1) as nat, e0, ctx, fuel) {
            Ok(e) => linha_spec(e, linhas[n - 1], ctx, fuel),
            Err(x) => Err(x),
        }
    }
}

pub open spec fn estado_inicial(tabela: Seq<ModeloDefinicao>) -> Estado {
    Estado { nivel: 0, definindo: None, saida: seq![], tabela }
}

/// Processes `linhas` with the definitions in `tabela`: the text produced and the
/// definitions known afterwards (a definition left open at the end is kept).
pub open spec fn passo_spec(
    linhas: Seq<Seq<char>>,
    tabela: Seq<ModeloDefinicao>,
    ctx: Option<(Seq<Seq<char>>, Seq<Seq<char>>)>,
    fuel: nat,
) -> Result<(Seq<char>, Seq<ModeloDefinicao>), ModeloErro>
    decreases fuel, 2nat, 0nat,
{
    match processar_ate(linhas, linhas.len(), estado_inicial(tabela), ctx, fuel) {
        Ok(e) => Ok((e.saida, guardar(e.tabela, e.definindo))),
        Err(x) => Err(x),
    }
}

/// The expansion of a whole source text.
pub open spec fn expansao(s: Seq<char>) -> Result<Seq<char>, ModeloErro> {
    match passo_spec(linhas(s), seq![], None, PROFUNDIDADE_MAXIMA as nat) {
        Ok((saida, _)) => Ok(saida),
        Err(x) => Err(x),
    }
}

pub proof fn lemma_busca_nome(t: Seq<ModeloDefinicao>, i: int, nome: Seq<char>)
    requires
        busca_desde(t, i, nome) is Some,
    ensures
        0 <= busca_desde(t, i, nome)->0 < t.len(),
        t[busca_desde(t, i, nome)->0].nome == nome,
    decreases t.len() - i,
{
    if 0 <= i < t.len() && t[i].nome != nome {
        lemma_busca_nome(t, i + 1, nome);
    }
}

/// A call, outside any definition, of a macro declared with `n` parameters that passes
/// `m != n` comma-separated arguments makes the whole pass fail with an error that names
/// the macro and reports exactly `n` and `m`, whatever lines follow.
pub proof fn lemma_numero_parametros_incorreto(
    linhas: Seq<Seq<char>>,
    tabela: Seq<ModeloDefinicao>,
    k: nat,
    e: Estado,
    fuel: nat,
)
    requires
        k < linhas.len(),
        processar_ate(linhas, k, estado_inicial(tabela), None, fuel) == Ok::<Estado, ModeloErro>(e),
        e.definindo is None,
        !eh_comentario(linhas[k as int]),
        palavras(linhas[k as int]).len() >= 1,
        palavras(linhas[k as int])[0] != palavra_mend(),
        palavras(linhas[k as int]).len() >= 2 ==> palavras(linhas[k as int])[1] != palavra_macro()
            && palavras(linhas[k as int])[1] != palavra_mend(),
        busca(e.tabela, palavras(linhas[k as int])[0]) is Some,
        itens(palavra_ou_vazia(palavras(linhas[k as int]), 1)).len() != e.tabela[busca(
            e.tabela,
            palavras(linhas[k as int])[0],
        )->0].parametros.len(),
    ensures
        passo_spec(linhas, tabela, None, fuel) == Err::<(Seq<char>, Seq<ModeloDefinicao>), ModeloErro>(
            ModeloErro::NumeroParametros {
                nome: palavras(linhas[k as int])[0],
                esperado: e.tabela[busca(e.tabela, palavras(linhas[k as int])[0])->0].parametros.len(),
                recebido: itens(palavra_ou_vazia(palavras(linhas[k as int]), 1)).len(),
            },
        ),
{
    let t = palavras(linhas[k as int]);
    lemma_busca_nome(e.tabela, 0, t[0]);
    assert(processar_ate(linhas, k + 1, estado_inicial(tabela), None, fuel) == linha_spec(
        e,
        linhas[k as int],
        None,
        fuel,
    ));
    lemma_erro_propaga(linhas, k + 1, linhas.len(), estado_inicial(tabela), None, fuel);
}

/// The same for a call after a label: a line whose first word names no macro and whose
/// second word names a macro declared with `n` parameters, passing `m != n` arguments in
/// its third word, makes the whole pass fail reporting exactly `n` and `m`.
pub proof fn lemma_numero_parametros_incorreto_rotulado(
    linhas: Seq<Seq<char>>,
    tabela: Seq<ModeloDefinicao>,
    k: nat,
    e: Estado,
    fuel: nat,
)
    requires
        k < linhas.len(),
        processar_ate(linhas, k, estado_inicial(tabela), None, fuel) == Ok::<Estado, ModeloErro>(e),
        e.definindo is None,
        !eh_comentario(linhas[k as int]),
        palavras(linhas[k as int]).len() >= 2,
        palavras(linhas[k as int])[0] != palavra_mend(),
        palavras(linhas[k as int])[1] != palavra_macro(),
        palavras(linhas[k as int])[1] != palavra_mend(),
        busca(e.tabela, palavras(linhas[k as int])[0]) is None,
        busca(e.tabela, palavras(linhas[k as int])[1]) is Some,
        itens(palavra_ou_vazia(palavras(linhas[k as int]), 2)).len() != e.tabela[busca(
            e.tabela,
            palavras(linhas[k as int])[1],
        )->0].parametros.len(),
    ensures
        passo_spec(linhas, tabela, None, fuel) == Err::<(Seq<char>, Seq<ModeloDefinicao>), ModeloErro>(
            ModeloErro::NumeroParametros {
                nome: palavras(linhas[k as int])[1],
                esperado: e.tabela[busca(e.tabela, palavras(linhas[k as int])[1])->0].parametros.len(),
                recebido: itens(palavra_ou_vazia(palavras(linhas[k as int]), 2)).len(),
            },
        ),
{
    let t = palavras(linhas[k as int]);
    lemma_busca_nome(e.tabela, 0, t[1]);
    assert(processar_ate(linhas, k + 1, estado_inicial(tabela), None, fuel) == linha_spec(
        e,
        linhas[k as int],
        None,
        fuel,
    ));
    lemma_erro_propaga(linhas, k + 1, linhas.len(), estado_inicial(tabela), None, fuel);
}

struct DefinicaoMacro {
    nome: Vec<char>,
    parametros: Vec<Vec<char>>,
    corpo: Vec<Vec<char>>,
}

impl DefinicaoMacro {
    spec fn vista(&self) -> ModeloDefinicao {
        ModeloDefinicao {
            nome: self.nome@,
            parametros: vistas(self.parametros@),
            corpo: vistas(self.corpo@),
        }
    }
}

spec fn vista_tabela(t: Seq<DefinicaoMacro>) -> Seq<ModeloDefinicao> {
    t.map_values(|d: DefinicaoMacro| d.vista())
}

struct EstadoExec {
    nivel: usize,
    definindo: bool,
    atual: DefinicaoMacro,
    saida: Vec<char>,
}

spec fn vista_estado(e: EstadoExec, t: Seq<DefinicaoMacro>) -> Estado {
    Estado {
        nivel: e.nivel as nat,
        definindo: if e.definindo {
            Some(e.atual.vista())
        } else {
            None
        },
        saida: e.saida@,
        tabela: vista_tabela(t),
    }
}

spec fn contexto(com_ctx: bool, params: Seq<Vec<char>>, args: Seq<Vec<char>>) -> Option<
    (Seq<Seq<char>>, Seq<Seq<char>>),
> {
    if com_ctx {
        Some((vistas(params), vistas(args)))
    } else {
        None
    }
}

fn copiar(v: &Vec<char>) -> (r: Vec<char>)
    ensures
        r@ == v@,
{
    let mut r: Vec<char> = Vec::new();
    anexar(&mut r, v.as_slice());
    r
}

fn copiar_linhas(v: &Vec<Vec<char>>) -> (r: Vec<Vec<char>>)
    ensures
        vistas(r@) == vistas(v@),
{
    let mut r: Vec<Vec<char>> = Vec::new();
    let mut i: usize = 0;
    while i < v.len()
        invariant
            i <= v@.len(),
            vistas(r@) == vistas(v@).subrange(0, i as int),
        decreases v@.len() - i,
    {
        let l = copiar(&v[i]);
        proof {
            lemma_vistas_push(r@, l);
        }
        r.push(l);
        i = i + 1;
        assert(vistas(r@) =~= vistas(v@).subrange(0, i as int));
    }
    assert(vistas(v@).subrange(0, i as int) =~= vistas(v@));
    r
}

fn so_parametros_exec(itens: &Vec<Vec<char>>) -> (r: Vec<Vec<char>>)
    ensures
        vistas(r@) == so_parametros(vistas(itens@), itens@.len()),
{
    let mut r: Vec<Vec<char>> = Vec::new();
    let mut i: usize = 0;
    while i < itens.len()
        invariant
            i <= itens@.len(),
            vistas(r@) == so_parametros(vistas(itens@), i as nat),
        decreases itens@.len() - i,
    {
        let ghost antes = vistas(r@);
        if itens[i].len() > 0 && itens[i][0] == '&' {
            let p = copiar(&itens[i]);
            proof {
                lemma_vistas_push(r@, p);
                assert(antes.push(p@) =~= antes + seq![p@]);
            }
            r.push(p);
        } else {
            assert(antes + seq![] =~= antes);
        }
        i = i + 1;
    }
    r
}

/// Position of the first definition named `nome`.
fn buscar(tabela: &Vec<DefinicaoMacro>, nome: &Vec<char>) -> (r: Option<usize>)
    ensures
        match r {
            Some(i) => busca(vista_tabela(tabela@), nome@) == Some(i as int) && i < tabela@.len(),
            None => busca(vista_tabela(tabela@), nome@) is None,
        },
{
    let ghost t = vista_tabela(tabela@);
    let mut i: usize = 0;
    while i < tabela.len()
        invariant
            i <= tabela@.len(),
            t == vista_tabela(tabela@),
            busca_desde(t, 0, nome@) == busca_desde(t, i as int, nome@),
        decreases tabela@.len() - i,
    {
        if igual(tabela[i].nome.as_slice(), nome.as_slice()) {
            return Some(i);
        }
        i = i + 1;
    }
    None
}

fn inserir_exec(tabela: &mut Vec<DefinicaoMacro>, d: DefinicaoMacro)
    ensures
        vista_tabela(final(tabela)@) == inserir(vista_tabela(old(tabela)@), d.vista()),
{
    let ghost dv = d.vista();
    match buscar(tabela, &d.nome) {
        Some(i) => {
            tabela.remove(i);
            tabela.insert(i, d);
            assert(vista_tabela(tabela@) =~= vista_tabela(old(tabela)@).update(i as int, dv));
        },
        None => {
            tabela.push(d);
            assert(vista_tabela(tabela@) =~= vista_tabela(old(tabela)@).push(dv));
        },
    }
}

fn aplicar_exec(bruta: &Vec<char>, com_ctx: bool, params: &Vec<Vec<char>>, args: &Vec<Vec<char>>) -> (r:
    Vec<char>)
    requires
        com_ctx ==> params@.len() == args@.len(),
    ensures
        r@ == aplicar(bruta@, contexto(com_ctx, params@, args@)),
{
    if !com_ctx {
        return copiar(bruta);
    }
    let mut l = copiar(bruta);
    let mut k: usize = 0;
    while k < params.len()
        invariant
            k <= params@.len() == args@.len(),
            l@ == substituir_pares(bruta@, vistas(params@), vistas(args@), k as nat),
        decreases params@.len() - k,
    {
        l = substituir(l.as_slice(), params[k].as_slice(), args[k].as_slice());
        k = k + 1;
    }
    let seta: [char; 2] = ['-', '>'];
    let nada: [char; 0] = [];
    proof {
        assert(nada@ =~= seq![]);
        assert(seta@ =~= seq!['-', '>']);
    }
    substituir(l.as_slice(), seta.as_slice(), nada.as_slice())
}

proof fn lemma_erro_propaga(
    linhas: Seq<Seq<char>>,
    n: nat,
    m: nat,
    e0: Estado,
    ctx: Option<(Seq<Seq<char>>, Seq<Seq<char>>)>,
    fuel: nat,
)
    requires
        n <= m,
        processar_ate(linhas, n, e0, ctx, fuel) is Err,
    ensures
        processar_ate(linhas, m, e0, ctx, fuel) == processar_ate(linhas, n, e0, ctx, fuel),
    decreases m - n,
{
    if n < m {
        lemma_erro_propaga(linhas, n, (m - 1) as nat, e0, ctx, fuel);
    }
}

/// Processes one source line.
fn processar_linha(
    estado: &mut EstadoExec,
    tabela: &mut Vec<DefinicaoMacro>,
    bruta: &Vec<char>,
    com_ctx: bool,
    params: &Vec<Vec<char>>,
    args: &Vec<Vec<char>>,
    fuel: usize,
) -> (r: Result<(), ErroMacro>)
    requires
        old(estado).nivel < usize::MAX,
        com_ctx ==> params@.len() == args@.len(),
    ensures
        match linha_spec(
            vista_estado(*old(estado), old(tabela)@),
            bruta@,
            contexto(com_ctx, params@, args@),
            fuel as nat,
        ) {
            Ok(e2) => {
                &&& r is Ok
                &&& vista_estado(*final(estado), final(tabela)@) == e2
                &&& final(estado).nivel <= old(estado).nivel + 1
            },
            Err(x) => r is Err && r->Err_0.vista() == x,
        },
    decreases fuel, 0nat,
{
    let ghost e = vista_estado(*estado, tabela@);
    let comentario = bruta.len() > 0 && bruta[0] == '.';
    let linha = if comentario {
        copiar(bruta)
    } else {
        aplicar_exec(bruta, com_ctx, params, args)
    };
    let t = pedacos(linha.as_slice(), false);
    if t.len() == 0 {
        return Ok(());
    }
    assert(vistas(t@)[0] == t@[0]@);
    if comentario {
        if estado.definindo {
            proof {
                lemma_vistas_push(estado.atual.corpo@, linha);
            }
            estado.atual.corpo.push(linha);
        } else {
            anexar(&mut estado.saida, linha.as_slice());
            estado.saida.push('\n');
        }
        return Ok(());
    }
    let kw_macro: [char; 5] = ['M', 'A', 'C', 'R', 'O'];
    let kw_mend: [char; 4] = ['M', 'E', 'N', 'D'];
    proof {
        assert(kw_macro@ =~= palavra_macro());
        assert(kw_mend@ =~= palavra_mend());
    }
    if t.len() >= 2 && igual(t[1].as_slice(), kw_macro.as_slice()) {
        assert(vistas(t@)[1] == t@[1]@);
        if estado.nivel == 0 {
            let itens_param = if t.len() >= 3 {
                assert(vistas(t@)[2] == t@[2]@);
                pedacos(t[2].as_slice(), true)
            } else {
                let nada: Vec<char> = Vec::new();
                pedacos(nada.as_slice(), true)
            };
            let parametros = so_parametros_exec(&itens_param);
            let nome = copiar(&t[0]);
            estado.nivel = 1;
            estado.definindo = true;
            estado.atual = DefinicaoMacro { nome, parametros, corpo: Vec::new() };
            proof {
                assert(vistas(estado.atual.corpo@) =~= seq![]);
            }
        } else {
            estado.nivel = estado.nivel + 1;
            if estado.definindo {
                proof {
                    lemma_vistas_push(estado.atual.corpo@, linha);
                }
                estado.atual.corpo.push(linha);
            }
        }
        return Ok(());
    }
    let eh_mend = igual(t[0].as_slice(), kw_mend.as_slice()) || (t.len() >= 2 && igual(
        t[1].as_slice(),
        kw_mend.as_slice(),
    ));
    if eh_mend {
        if t.len() >= 2 {
            assert(vistas(t@)[1] == t@[1]@);
        }
        if estado.nivel == 0 {
            return Ok(());
        }
        if estado.nivel == 1 {
            estado.nivel = 0;
            if estado.definindo {
                estado.definindo = false;
                let nome = copiar(&estado.atual.nome);
                let parametros = copiar_linhas(&estado.atual.parametros);
                let corpo = copiar_linhas(&estado.atual.corpo);
                inserir_exec(tabela, DefinicaoMacro { nome, parametros, corpo });
            }
            return Ok(());
        }
        estado.nivel = estado.nivel - 1;
        if estado.definindo {
            proof {
                lemma_vistas_push(estado.atual.corpo@, linha);
            }
            estado.atual.corpo.push(linha);
        }
        return Ok(());
    }
    if t.len() >= 2 {
        assert(vistas(t@)[1] == t@[1]@);
    }
    if estado.definindo {
        proof {
            lemma_vistas_push(estado.atual.corpo@, linha);
        }
        estado.atual.corpo.push(linha);
        return Ok(());
    }
    let direto = buscar(tabela, &t[0]);
    let rotulado = if t.len() >= 2 {
        buscar(tabela, &t[1])
    } else {
        None
    };
    let (i, k): (usize, usize) = match direto {
        Some(i) => (i, 1),
        None => match rotulado {
            Some(i) => (i, 2),
            None => {
                anexar(&mut estado.saida, linha.as_slice());
                estado.saida.push('\n');
                proof {
                    assert(estado.saida@ =~= e.saida + linha@.push('\n'));
                }
                return Ok(());
            },
        },
    };
    let mut prefixo: Vec<char> = Vec::new();
    if k == 2 {
        prefixo = copiar(&t[0]);
        prefixo.push(' ');
    }
    let argumentos = if k < t.len() {
        assert(vistas(t@)[k as int] == t@[k as int]@);
        pedacos(t[k].as_slice(), true)
    } else {
        let nada: Vec<char> = Vec::new();
        pedacos(nada.as_slice(), true)
    };
    assert(vista_tabela(tabela@)[i as int] == tabela@[i as int].vista());
    let esperado = tabela[i].parametros.len();
    if argumentos.len() != esperado {
        return Err(
            ErroMacro::NumeroParametrosIncorreto {
                nome: texto(tabela[i].nome.as_slice()),
                esperado,
                recebido: argumentos.len(),
            },
        );
    }
    if fuel == 0 {
        return Err(ErroMacro::RecursaoProfundaDemais { nome: texto(tabela[i].nome.as_slice()) });
    }
    let corpo = copiar_linhas(&tabela[i].corpo);
    let parametros = copiar_linhas(&tabela[i].parametros);
    let expandido = passo(&corpo, tabela, true, &parametros, &argumentos, fuel - 1)?;
    anexar(&mut estado.saida, prefixo.as_slice());
    anexar(&mut estado.saida, expandido.as_slice());
    proof {
        assert(estado.saida@ =~= e.saida + prefixo@ + expandido@);
    }
    Ok(())
}

/// Processes `linhas` with the definitions in `tabela`, which it updates.
fn passo(
    linhas: &Vec<Vec<char>>,
    tabela: &mut Vec<DefinicaoMacro>,
    com_ctx: bool,
    params: &Vec<Vec<char>>,
    args: &Vec<Vec<char>>,
    fuel: usize,
) -> (r: Result<Vec<char>, ErroMacro>)
    requires
        com_ctx ==> params@.len() == args@.len(),
    ensures
        match passo_spec(
            vistas(linhas@),
            vista_tabela(old(tabela)@),
            contexto(com_ctx, params@, args@),
            fuel as nat,
        ) {
            Ok((s, t2)) => r is Ok && r->Ok_0@ == s && vista_tabela(final(tabela)@) == t2,
            Err(x) => r is Err && r->Err_0.vista() == x,
        },
    decreases fuel, 1nat,
{
    let ghost ls = vistas(linhas@);
    let ghost ctx = contexto(com_ctx, params@, args@);
    let ghost e0 = estado_inicial(vista_tabela(tabela@));
    let mut estado = EstadoExec {
        nivel: 0,
        definindo: false,
        atual: DefinicaoMacro { nome: Vec::new(), parametros: Vec::new(), corpo: Vec::new() },
        saida: Vec::new(),
    };
    assert(vista_estado(estado, tabela@) =~= e0);
    let mut i: usize = 0;
    while i < linhas.len()
        invariant
            i <= linhas@.len(),
            estado.nivel <= i,
            ls == vistas(linhas@),
            ctx == contexto(com_ctx, params@, args@),
            com_ctx ==> params@.len() == args@.len(),
            e0 == estado_inicial(vista_tabela(old(tabela)@)),
            processar_ate(ls, i as nat, e0, ctx, fuel as nat) == Ok::<Estado, ModeloErro>(
                vista_estado(estado, tabela@),
            ),
        decreases linhas@.len() - i,
    {
        assert(ls[i as int] == linhas@[i as int]@);
        match processar_linha(&mut estado, tabela, &linhas[i], com_ctx, params, args, fuel) {
            Ok(()) => {},
            Err(x) => {
                proof {
                    lemma_erro_propaga(ls, (i + 1) as nat, ls.len(), e0, ctx, fuel as nat);
                }
                return Err(x);
            },
        }
        i = i + 1;
    }
    if estado.definindo {
        let nome = copiar(&estado.atual.nome);
        let parametros = copiar_linhas(&estado.atual.parametros);
        let corpo = copiar_linhas(&estado.atual.corpo);
        inserir_exec(tabela, DefinicaoMacro { nome, parametros, corpo });
    }
    Ok(estado.saida)
}

/// Expands the macros of an assembly source text.
pub fn processar(entrada: &str) -> (r: Result<String, ErroMacro>)
    ensures
        match expansao(entrada@) {
            Ok(s) => r is Ok && r->Ok_0@ == s,
            Err(x) => r is Err && r->Err_0.vista() == x,
        },
{
    let cs = caracteres(entrada);
    let ls = dividir_linhas(cs.as_slice());
    let mut tabela: Vec<DefinicaoMacro> = Vec::new();
    let vazio: Vec<Vec<char>> = Vec::new();
    assert(vista_tabela(tabela@) =~= seq![]);
    let saida = passo(&ls, &mut tabela, false, &vazio, &vazio, PROFUNDIDADE_MAXIMA)?;
    Ok(texto(saida.as_slice()))
}

} // verus!
