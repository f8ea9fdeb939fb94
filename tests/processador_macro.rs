use sicxe::processador_macro::MacroProcessador;
use sicxe::processador_macros::ErroMacro;

const ENTRADA: &str = "MACRO SOMA A, B
 ADD &A
 ADD &B
MEND
. comentario
INICIO LDA #0

SOMA #1,#2
";

#[test]
fn coleta_e_expande() {
    let mut p = MacroProcessador::new();
    assert!(p.pegar_nome_macros().is_empty());
    assert_eq!(
        p.processar(ENTRADA).unwrap(),
        ". comentario\nINICIO LDA #0\n\n ADD #1\n ADD #2"
    );
    assert_eq!(p.pegar_nome_macros(), vec!["SOMA"]);
}

#[test]
fn definicoes_ficam_entre_chamadas() {
    let mut p = MacroProcessador::new();
    p.processar(ENTRADA).unwrap();
    assert_eq!(p.processar("SOMA 5, 6").unwrap(), " ADD 5\n ADD 6");
    p.limpar();
    assert!(p.pegar_nome_macros().is_empty());
    assert_eq!(p.processar("SOMA 5, 6").unwrap(), "SOMA 5, 6");
}

#[test]
fn redefinicao_substitui() {
    let mut p = MacroProcessador::new();
    p.processar("MACRO M\n ADD #1\nMEND\nMACRO M\n ADD #2\nMEND\n").unwrap();
    assert_eq!(p.pegar_nome_macros(), vec!["M"]);
    assert_eq!(p.processar("M").unwrap(), " ADD #2");
}

#[test]
fn argumentos_em_numero_errado() {
    let mut p = MacroProcessador::new();
    assert_eq!(
        p.processar("MACRO SOMA A B\n ADD &A\nMEND\nSOMA 1\n"),
        Err(ErroMacro::NumeroParametrosIncorreto {
            nome: "SOMA".to_string(),
            esperado: 2,
            recebido: 1
        })
    );
    // The definition was kept all the same.
    assert_eq!(p.pegar_nome_macros(), vec!["SOMA"]);
}

#[test]
fn parametros_declarados_com_e_comercial() {
    let mut p = MacroProcessador::new();
    assert_eq!(p.processar("MACRO M &P\n ADD &P\nMEND\nM a\n").unwrap(), " ADD a");
}
