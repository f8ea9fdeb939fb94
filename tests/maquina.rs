use sicxe::executor::ErroExecucao;
use sicxe::maquina::{ErroCarga, Maquina};
use sicxe::registradores;

#[test]
fn add_imediato() {
    let mut maquina = Maquina::new();
    maquina.carregar(&[0x19, 0x00, 0x01]).unwrap();
    maquina.executar_instrucao().unwrap();
    assert_eq!(maquina.registrador(registradores::A), Some(1));
}

#[test]
fn clear() {
    let mut maquina = Maquina::new();
    maquina.carregar(&[0x19, 0x00, 0x01]).unwrap();
    maquina.executar_instrucao().unwrap();
    assert_eq!(maquina.registrador(registradores::A), Some(1));

    maquina.carregar(&[0x04, 0x00, 0x00]).unwrap();
    maquina.executar_instrucao().unwrap();
    assert_eq!(maquina.registrador(registradores::A), Some(0));
}

#[test]
fn programa_com_multiplas_instrucoes() {
    let mut maquina = Maquina::new();
    maquina
        .carregar(&[0x19, 0x00, 0x01, 0x19, 0x00, 0x01, 0x19, 0x00, 0x01])
        .unwrap();

    maquina.executar_instrucao().unwrap();
    assert_eq!(maquina.registrador(registradores::A), Some(1));

    maquina.executar_instrucao().unwrap();
    assert_eq!(maquina.registrador(registradores::A), Some(2));

    maquina.executar_instrucao().unwrap();
    assert_eq!(maquina.registrador(registradores::A), Some(3));

    assert!(maquina.executar_instrucao().is_err());
}

#[test]
fn clear_seguido_de_tres_adds() {
    let mut maquina = Maquina::new();
    maquina
        .carregar(&[0x04, 0x00, 0x19, 0x00, 0x01, 0x19, 0x00, 0x01, 0x19, 0x00, 0x01])
        .unwrap();
    for _ in 0..4 {
        maquina.executar_instrucao().unwrap();
    }
    assert_eq!(maquina.registrador(registradores::A), Some(3));
    assert_eq!(maquina.registrador(registradores::PC), Some(0x600B));
    // Past the loaded bytes memory is zero: opcode 0x00 (LDA) is not executed.
    assert_eq!(maquina.executar_instrucao(), Err(ErroExecucao::OpcodeDesconhecido));
}

#[test]
fn nova_maquina() {
    let maquina = Maquina::new();
    assert_eq!(maquina.registrador(registradores::PC), Some(0x6000));
    assert_eq!(maquina.registrador(registradores::A), Some(0));
    assert_eq!(maquina.registrador(7), Some(0));
    assert_eq!(maquina.registrador(10), None);
    assert_eq!(maquina.memoria().len(), 32768);
    assert!(maquina.memoria().iter().all(|b| *b == 0));
}

#[test]
fn carregar_tamanho_maximo() {
    let mut maquina = Maquina::new();
    let programa = vec![0xABu8; 0x2000];
    assert_eq!(maquina.carregar(&programa), Ok(()));
    assert!(maquina.memoria()[0x6000..].iter().all(|b| *b == 0xAB));
    assert_eq!(maquina.registrador(registradores::PC), Some(0x6000));
}

#[test]
fn carregar_grande_demais() {
    let mut maquina = Maquina::new();
    maquina.carregar(&[1, 2, 3]).unwrap();
    let programa = vec![0xABu8; 0x2001];
    assert_eq!(maquina.carregar(&programa), Err(ErroCarga::ProgramaGrandeDemais));
    // The program region was cleared all the same.
    assert!(maquina.memoria()[0x6000..].iter().all(|b| *b == 0));
}

#[test]
fn carregar_substitui_programa_anterior() {
    let mut maquina = Maquina::new();
    maquina.carregar(&[9, 9, 9, 9]).unwrap();
    maquina.carregar(&[1, 2]).unwrap();
    assert_eq!(&maquina.memoria()[0x6000..0x6004], &[1, 2, 0, 0]);
}

#[test]
fn resetar_e_recarregar() {
    let programa = [0x19, 0x00, 0x05, 0x19, 0x00, 0x07, 0x19, 0x00, 0x01];
    let mut maquina = Maquina::new();
    maquina.carregar(&programa).unwrap();
    maquina.executar_instrucao().unwrap();
    maquina.executar_instrucao().unwrap();
    assert_eq!(maquina.registrador(registradores::A), Some(12));

    maquina.resetar();
    for i in 0..10 {
        let esperado = if i == registradores::PC { 0x6000 } else { 0 };
        assert_eq!(maquina.registrador(i), Some(esperado));
    }
    maquina.carregar(&programa).unwrap();

    let mut nova = Maquina::new();
    nova.carregar(&programa).unwrap();
    assert_eq!(maquina.memoria(), nova.memoria());
    for i in 0..10 {
        assert_eq!(maquina.registrador(i), nova.registrador(i));
    }
}

#[test]
fn resetar_mantem_programa() {
    let mut maquina = Maquina::new();
    maquina.carregar(&[0x19, 0x00, 0x01]).unwrap();
    maquina.executar_instrucao().unwrap();
    maquina.resetar();
    assert_eq!(&maquina.memoria()[0x6000..0x6003], &[0x19, 0x00, 0x01]);
    maquina.executar_instrucao().unwrap();
    assert_eq!(maquina.registrador(registradores::A), Some(1));
}
