use sicxe::hex::{codigo_do_objeto, decodificar_hex};
use sicxe::maquina::Maquina;
use sicxe::montador::{primeiro_passo, segundo_passo, ErroMontagem};
use sicxe::registradores;
use sicxe::tabela_operacoes::{buscar_operacao, buscar_registrador, Operacao};

const ADD: &str = "ADD_PGM START 1000
INICIO  LDA     #1
        ADD     #1
STORE   STA     INICIO
        END     INICIO
";

const BYTE: &str = "BYTE_PGM START 1000
INICIO  BYTE    C'ABCD'
        BYTE    X'F1F2A'
ADD_1   ADD     #1
        END     INICIO
";

fn montar(fonte: &str) -> Result<String, ErroMontagem> {
    let tabela = primeiro_passo(fonte)?;
    segundo_passo(fonte, &tabela)
}

#[test]
fn primeiro_passo_add() {
    let simbolos = primeiro_passo(ADD).unwrap();
    assert_eq!(simbolos.len(), 2);
    assert_eq!(simbolos.get("INICIO"), Some(1000));
    assert_eq!(simbolos.get("STORE"), Some(1006));
}

#[test]
fn primeiro_passo_byte() {
    let simbolos = primeiro_passo(BYTE).unwrap();
    assert_eq!(simbolos.len(), 2);
    assert_eq!(simbolos.get("INICIO"), Some(1000));
    assert_eq!(simbolos.get("ADD_1"), Some(1007));
}

#[test]
fn primeiro_passo_comentarios_e_reservas() {
    let fonte = ". comentario inicial
. outro
PROG START 10
A1 RESW 2 . seis bytes
A2 RESB 5
A3 WORD 7
A4 +LDA #1
A5 CLEAR A
A6 RSUB
A7
A8 END A1
DEPOIS RESB 1
";
    let s = primeiro_passo(fonte).unwrap();
    assert_eq!(s.len(), 8);
    assert_eq!(s.get("A1"), Some(10));
    assert_eq!(s.get("A2"), Some(16));
    assert_eq!(s.get("A3"), Some(21));
    assert_eq!(s.get("A4"), Some(24));
    assert_eq!(s.get("A5"), Some(28));
    assert_eq!(s.get("A6"), Some(30));
    assert_eq!(s.get("A7"), Some(33));
    assert_eq!(s.get("A8"), Some(33));
    assert_eq!(s.get("DEPOIS"), None);
}

#[test]
fn primeiro_passo_sem_start() {
    let s = primeiro_passo("PROG\nX1 ADD #1\nX2 ADD #1\n").unwrap();
    assert_eq!(s.get("X1"), Some(0));
    assert_eq!(s.get("X2"), Some(3));
}

#[test]
fn simbolo_duplicado() {
    let fonte = "P START 0\nL1 ADD #1\nL1 ADD #2\n";
    assert_eq!(
        primeiro_passo(fonte).err(),
        Some(ErroMontagem::SimboloDuplicado("L1".to_string()))
    );
}

#[test]
fn nome_longo_demais() {
    // The header names the program ADD_PGM, seven characters.
    let tabela = primeiro_passo(ADD).unwrap();
    assert_eq!(
        segundo_passo(ADD, &tabela),
        Err(ErroMontagem::NomeProgramaLongoDemais("ADD_PGM".to_string()))
    );
}

#[test]
fn montar_programa_add() {
    let fonte = ADD.replace("ADD_PGM", "ADDPGM");
    let objeto = montar(&fonte).unwrap();
    assert_eq!(objeto, "HADDPGM0003E8000009\nT0003E809010001190001 0F03E8\nE0003E8\n".replace(' ', ""));
}

#[test]
fn montar_e_executar() {
    let fonte = "SOMA START 1000
INICIO  ADD     #1
        ADD     #2
STORE   STA     INICIO
        END     INICIO
";
    let objeto = montar(fonte).unwrap();
    let bytes = codigo_do_objeto(&objeto);
    assert_eq!(bytes, vec![0x19, 0x00, 0x01, 0x19, 0x00, 0x02, 0x0F, 0x03, 0xE8]);
    let mut maquina = Maquina::new();
    maquina.carregar(&bytes).unwrap();
    maquina.executar_instrucao().unwrap();
    maquina.executar_instrucao().unwrap();
    assert_eq!(maquina.registrador(registradores::A), Some(3));
}

#[test]
fn montar_programa_com_lda() {
    // LDA is assembled, but the machine does not execute it.
    let fonte = ADD.replace("ADD_PGM", "ADDPGM");
    let bytes = codigo_do_objeto(&montar(&fonte).unwrap());
    let mut maquina = Maquina::new();
    maquina.carregar(&bytes).unwrap();
    assert!(maquina.executar_instrucao().is_err());
}

#[test]
fn registro_t_conta_metade_dos_digitos() {
    let objeto = montar(BYTE.replace("BYTE_PGM", "BYTES").as_str()).unwrap();
    let t = objeto.lines().nth(1).unwrap();
    let contagem = usize::from_str_radix(&t[7..9], 16).unwrap();
    assert_eq!(contagem * 2, t.len() - 9);
    assert_eq!(t, "T0003E80A414243440F1F2A190001");
}

#[test]
fn formatos_de_instrucao() {
    let fonte = "P START 0
L1 ADDR S,T
   CLEAR X
   COMPR A,9
   +LDA #4096
   STA L1,X
   J @L1
   WORD 300
   BYTE X'0A'
   RSUB
   END L1
";
    let objeto = montar(fonte).unwrap();
    let t = objeto.lines().nth(1).unwrap();
    assert_eq!(
        &t[9..],
        "90450410A009011010000F80003E000000012C0A4F0000"
    );
    let h = objeto.lines().next().unwrap();
    assert_eq!(h, "HP     000000000017");
}

#[test]
fn erros_de_montagem() {
    let casos = [
        ("P START 0\nL FOO 1\n", ErroMontagem::OperacaoDesconhecida("FOO".to_string())),
        ("P START 0\n ADD 4096\n", ErroMontagem::OperandoGrandeDemais("4096".to_string())),
        ("P START 0\n ADD NADA\n", ErroMontagem::OperandoInvalido("NADA".to_string())),
        ("P START 0\n ADDR A,Q\n", ErroMontagem::RegistradorInvalido("Q".to_string())),
        ("P START 0\n ADDR A,12\n", ErroMontagem::RegistradorInvalido("12".to_string())),
        ("P START 0\n CLEAR\n", ErroMontagem::OperandoInvalido("".to_string())),
        ("P START 0\n WORD 16777216\n", ErroMontagem::OperandoGrandeDemais("16777216".to_string())),
        ("P START 0\n BYTE X'G1'\n", ErroMontagem::OperandoInvalido("X'G1'".to_string())),
        ("P START 16777216\n END\n", ErroMontagem::ProgramaGrandeDemais),
    ];
    for (fonte, erro) in casos {
        assert_eq!(montar(fonte), Err(erro), "{}", fonte);
    }
}

#[test]
fn tabela_de_operacoes() {
    let m: Vec<char> = "+JSUB".chars().collect();
    assert_eq!(buscar_operacao(&m), Some(Operacao::Instrucao { hex: 0x48, tamanho: 4 }));
    let m: Vec<char> = "RESW".chars().collect();
    assert_eq!(buscar_operacao(&m), Some(Operacao::ReserveWord));
    let m: Vec<char> = "+ADDR".chars().collect();
    assert_eq!(buscar_operacao(&m), None);
    let m: Vec<char> = "sw".chars().collect();
    assert_eq!(buscar_registrador(&m), None);
    let m: Vec<char> = "SW".chars().collect();
    assert_eq!(buscar_registrador(&m), Some(9));
}

#[test]
fn decodificar_hex_em_pares() {
    assert_eq!(decodificar_hex("  190001aBzz0\n"), vec![0x19, 0x00, 0x01, 0xAB]);
    assert_eq!(decodificar_hex(""), Vec::<u8>::new());
    assert_eq!(decodificar_hex("+F19-1++"), vec![0x0F, 0x19]);
}

#[test]
fn codigo_de_varios_registros_t() {
    let objeto = "HPROG  000000000005\nT00000003190001\nT0000030204\nE000000\n";
    assert_eq!(codigo_do_objeto(objeto), vec![0x19, 0x00, 0x01, 0x04]);
    assert_eq!(codigo_do_objeto("E000000"), Vec::<u8>::new());
}
