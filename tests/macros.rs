use sicxe::processador_macros::{processar, ErroMacro};

const SEM_PARAMETROS: &str = "PROG    START   1000
SOMA    MACRO
        ADD     #1
        ADD     #1
        MEND
INICIO  LDA     #0
        SOMA
        END     INICIO
";

const SAIDA_SEM_PARAMETROS: &str = "PROG    START   1000
INICIO  LDA     #0
        ADD     #1
        ADD     #1
        END     INICIO
";

const MACRO: &str = "PROG    START   1000
. soma um valor e guarda
SOMA    MACRO   &VAL,&REG
        LDA     &VAL
        ADD     #1
        STA     &REG
        MEND

INICIO  SOMA    #5,TOTAL
TOTAL   RESW    1
        END     INICIO
";

const SAIDA_MACRO: &str = "PROG    START   1000
. soma um valor e guarda
INICIO         LDA     #5
        ADD     #1
        STA     TOTAL
TOTAL   RESW    1
        END     INICIO
";

#[test]
fn sem_parametros() {
    assert_eq!(processar(SEM_PARAMETROS).unwrap(), SAIDA_SEM_PARAMETROS);
}

#[test]
fn com_parametros() {
    assert_eq!(processar(MACRO).unwrap(), SAIDA_MACRO);
}

#[test]
fn numero_de_parametros_incorreto() {
    let fonte = "M MACRO &A,&B\n ADD &A\n MEND\n M 1,2,3\n";
    assert_eq!(
        processar(fonte),
        Err(ErroMacro::NumeroParametrosIncorreto {
            nome: "M".to_string(),
            esperado: 2,
            recebido: 3
        })
    );
    let fonte = "M MACRO\n ADD #1\n MEND\n M 1\n";
    assert_eq!(
        processar(fonte),
        Err(ErroMacro::NumeroParametrosIncorreto {
            nome: "M".to_string(),
            esperado: 0,
            recebido: 1
        })
    );
}

#[test]
fn macro_dentro_de_macro_e_concatenacao() {
    let fonte = "INTERNA MACRO &X
 LD->&X #1
 MEND
EXTERNA MACRO &R
 INTERNA &R
 ADD &R
 MEND
 EXTERNA A
";
    assert_eq!(processar(fonte).unwrap(), " LDA #1\n ADD A\n");
}

#[test]
fn definicao_aninhada() {
    let fonte = "FAZ MACRO &N
&N MACRO
 ADD #2
 MEND
 MEND
 FAZ DOIS
 DOIS
";
    assert_eq!(processar(fonte).unwrap(), " ADD #2\n");
}

#[test]
fn mend_sem_par_e_ignorado() {
    assert_eq!(processar(" MEND\n ADD #1\n").unwrap(), " ADD #1\n");
}

#[test]
fn macro_recursiva() {
    let fonte = "LACO MACRO\n LACO\n MEND\n LACO\n";
    assert_eq!(
        processar(fonte),
        Err(ErroMacro::RecursaoProfundaDemais { nome: "LACO".to_string() })
    );
}

#[test]
fn comentario_recuado_dentro_de_expansao() {
    let fonte = "M MACRO &A\n . usa &A\n. fica &A\n MEND\n M 7\n";
    assert_eq!(processar(fonte).unwrap(), " . usa 7\n. fica &A\n");
}
