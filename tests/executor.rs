use sicxe::executor::{executar_instrucao, set_registrador, ErroExecucao};
use sicxe::registradores::{A, B, F, L, PC, S, SW, T, X};

fn memoria_com(programa: &[u8]) -> Box<[u8; 32768]> {
    let mut memoria = Box::new([0u8; 32768]);
    memoria[0x6000..0x6000 + programa.len()].copy_from_slice(programa);
    memoria
}

fn registradores_iniciais() -> [u64; 10] {
    let mut r = [0u64; 10];
    r[PC] = 0x6000;
    r
}

#[test]
fn set_registrador_reduz_a_largura() {
    let mut r = [0u64; 10];
    set_registrador(&mut r, A, 0x1234_5678);
    assert_eq!(r[A], 0x34_5678);
    set_registrador(&mut r, F, 0x1_2345_6789_ABCD);
    assert_eq!(r[F], 0x2345_6789_ABCD);
    set_registrador(&mut r, 10, 5);
    assert_eq!(r, {
        let mut e = [0u64; 10];
        e[A] = 0x34_5678;
        e[F] = 0x2345_6789_ABCD;
        e
    });
}

#[test]
fn addr_soma_no_segundo_registrador() {
    let mut r = registradores_iniciais();
    r[S] = 5;
    r[T] = 7;
    let mut m = memoria_com(&[0x90, 0x45]);
    assert_eq!(executar_instrucao(&mut r, &mut m), Ok(()));
    assert_eq!(r[T], 12);
    assert_eq!(r[PC], 0x6002);
}

#[test]
fn subr_da_a_volta() {
    let mut r = registradores_iniciais();
    r[S] = 1;
    r[T] = 3;
    let mut m = memoria_com(&[0x94, 0x45]);
    executar_instrucao(&mut r, &mut m).unwrap();
    assert_eq!(r[T], 0xFF_FFFE);
}

#[test]
fn mulr_e_divr() {
    let mut r = registradores_iniciais();
    r[S] = 0x1000;
    r[T] = 0x2000;
    let mut m = memoria_com(&[0x98, 0x45, 0x9C, 0x54]);
    executar_instrucao(&mut r, &mut m).unwrap();
    assert_eq!(r[T], 0x200_0000 % 0x100_0000);
    r[T] = 10;
    r[S] = 3;
    executar_instrucao(&mut r, &mut m).unwrap();
    assert_eq!(r[S], 3);
}

#[test]
fn divr_por_zero() {
    let mut r = registradores_iniciais();
    r[S] = 10;
    let mut m = memoria_com(&[0x9C, 0x45]);
    assert_eq!(executar_instrucao(&mut r, &mut m), Err(ErroExecucao::DivisaoPorZero));
    assert_eq!(r[PC], 0x6000);
}

#[test]
fn rmo_e_shifts() {
    let mut r = registradores_iniciais();
    r[A] = 0x81;
    let mut m = memoria_com(&[0xAC, 0x05, 0xA4, 0x54, 0xA8, 0x51]);
    executar_instrucao(&mut r, &mut m).unwrap();
    assert_eq!(r[T], 0x81);
    executar_instrucao(&mut r, &mut m).unwrap();
    assert_eq!(r[T], 0x810);
    executar_instrucao(&mut r, &mut m).unwrap();
    assert_eq!(r[T], 0x408);
    assert_eq!(r[PC], 0x6006);
}

#[test]
fn compr_define_codigo_de_condicao() {
    let mut m = memoria_com(&[0xA0, 0x45]);
    for (s, t, cc) in [(5u64, 3u64, 0x01_0000u64), (3, 5, 0x03_0000), (4, 4, 0)] {
        let mut r = registradores_iniciais();
        r[SW] = 0x02_0000;
        r[S] = s;
        r[T] = t;
        executar_instrucao(&mut r, &mut m).unwrap();
        assert_eq!(r[SW] & 0x03_0000, cc);
    }
    m[0x6001] = 0x4F;
    let mut r = registradores_iniciais();
    assert_eq!(executar_instrucao(&mut r, &mut m), Err(ErroExecucao::RegistradorDesconhecido));
}

#[test]
fn tixr_incrementa_x_e_compara() {
    let mut r = registradores_iniciais();
    r[X] = 2;
    r[T] = 5;
    let mut m = memoria_com(&[0xB8, 0x50]);
    executar_instrucao(&mut r, &mut m).unwrap();
    assert_eq!(r[X], 3);
    assert_eq!(r[SW] & 0x03_0000, 0x03_0000);
    // The incremented X is compared: X = 0 becomes 1, equal to T = 1.
    let mut r = registradores_iniciais();
    r[SW] = 0x03_0000;
    r[T] = 1;
    let mut m = memoria_com(&[0xB8, 0x50]);
    executar_instrucao(&mut r, &mut m).unwrap();
    assert_eq!(r[X], 1);
    assert_eq!(r[SW] & 0x03_0000, 0);
    // A register field that names no register fails after X was incremented.
    let mut r = registradores_iniciais();
    let mut m = memoria_com(&[0xB8, 0xF0]);
    assert_eq!(executar_instrucao(&mut r, &mut m), Err(ErroExecucao::RegistradorDesconhecido));
    assert_eq!(r[X], 1);
}

#[test]
fn modos_de_enderecamento() {
    // ADD with a direct operand at 0x6010, then indirect through 0x6013.
    let mut m = memoria_com(&[0x1B, 0x60, 0x10]);
    m[0x6010..0x6013].copy_from_slice(&[0x00, 0x00, 0x07]);
    let mut r = registradores_iniciais();
    // Direct with the 20-bit field: flags 1.
    m[0x6000..0x6004].copy_from_slice(&[0x1B, 0x10, 0x60, 0x10]);
    executar_instrucao(&mut r, &mut m).unwrap();
    assert_eq!(r[A], 7);
    assert_eq!(r[PC], 0x6004);
    // Indirect: the word at 0x6013 is the address 0x6010.
    m[0x6013..0x6016].copy_from_slice(&[0x00, 0x60, 0x10]);
    m[0x6004..0x6008].copy_from_slice(&[0x1A, 0x10, 0x60, 0x13]);
    executar_instrucao(&mut r, &mut m).unwrap();
    assert_eq!(r[A], 14);
    // PC-relative immediate: flags 2 adds the instruction's own address.
    m[0x6008..0x600B].copy_from_slice(&[0x19, 0x20, 0x01]);
    executar_instrucao(&mut r, &mut m).unwrap();
    assert_eq!(r[A], 14 + 0x6008 + 1);
    // Base-relative indexed direct: flags 12 adds B and X.
    r[A] = 0;
    r[B] = 0x6000;
    r[X] = 0x10;
    m[0x600B..0x600E].copy_from_slice(&[0x1B, 0xC0, 0x00]);
    executar_instrucao(&mut r, &mut m).unwrap();
    assert_eq!(r[A], 7);
}

#[test]
fn modo_sic_indexado() {
    let mut m = memoria_com(&[0x18, 0x80, 0x10]);
    m[0x20..0x23].copy_from_slice(&[0x00, 0x01, 0x00]);
    let mut r = registradores_iniciais();
    r[X] = 0x10;
    executar_instrucao(&mut r, &mut m).unwrap();
    assert_eq!(r[A], 0x100);
    assert_eq!(r[PC], 0x6003);
}

#[test]
fn and_or() {
    let mut r = registradores_iniciais();
    r[A] = 0b1100;
    let mut m = memoria_com(&[0x41, 0x00, 0x0A, 0x45, 0x00, 0x01]);
    executar_instrucao(&mut r, &mut m).unwrap();
    assert_eq!(r[A], 0b1000);
    executar_instrucao(&mut r, &mut m).unwrap();
    assert_eq!(r[A], 0b1001);
}

#[test]
fn saltos_somam_o_tamanho_ao_alvo() {
    let mut r = registradores_iniciais();
    let mut m = memoria_com(&[0x3D, 0x10, 0x70, 0x00]);
    executar_instrucao(&mut r, &mut m).unwrap();
    assert_eq!(r[PC], 0x7004);

    // JEQ taken when CC is equal, JGT not.
    let mut r = registradores_iniciais();
    let mut m = memoria_com(&[0x31, 0x01, 0x00, 0x35, 0x02, 0x00]);
    executar_instrucao(&mut r, &mut m).unwrap();
    assert_eq!(r[PC], 0x103);
    let mut r = registradores_iniciais();
    r[PC] = 0x6003;
    executar_instrucao(&mut r, &mut m).unwrap();
    assert_eq!(r[PC], 0x6006);

    // RSUB returns to L.
    let mut r = registradores_iniciais();
    r[L] = 0x6100;
    let mut m = memoria_com(&[0x4F, 0x00, 0x00]);
    executar_instrucao(&mut r, &mut m).unwrap();
    assert_eq!(r[PC], 0x6103);
}

#[test]
fn erros_de_execucao() {
    let mut r = registradores_iniciais();
    r[PC] = 40000;
    let mut m = memoria_com(&[]);
    assert_eq!(executar_instrucao(&mut r, &mut m), Err(ErroExecucao::PcInvalido));

    let mut r = registradores_iniciais();
    let mut m = memoria_com(&[0x19, 0x30, 0x00]);
    assert_eq!(
        executar_instrucao(&mut r, &mut m),
        Err(ErroExecucao::ModoEnderecamentoInvalido)
    );

    let mut r = registradores_iniciais();
    let mut m = memoria_com(&[0x1B, 0x1F, 0xFF, 0xFF]);
    assert_eq!(executar_instrucao(&mut r, &mut m), Err(ErroExecucao::EnderecoInvalido));

    let mut r = registradores_iniciais();
    r[PC] = 32767;
    let mut m = memoria_com(&[]);
    m[32767] = 0x90;
    assert_eq!(executar_instrucao(&mut r, &mut m), Err(ErroExecucao::EnderecoInvalido));

    let mut r = registradores_iniciais();
    let mut m = memoria_com(&[0x01, 0x00, 0x01]);
    assert_eq!(executar_instrucao(&mut r, &mut m), Err(ErroExecucao::OpcodeDesconhecido));
    assert_eq!(r, registradores_iniciais());
}

#[test]
fn clear_e_rmo_com_registrador_inexistente() {
    let mut r = registradores_iniciais();
    let mut m = memoria_com(&[0x04, 0xA0]);
    assert_eq!(executar_instrucao(&mut r, &mut m), Err(ErroExecucao::RegistradorDesconhecido));
    assert_eq!(r, registradores_iniciais());

    let mut r = registradores_iniciais();
    let mut m = memoria_com(&[0xAC, 0x0C]);
    assert_eq!(executar_instrucao(&mut r, &mut m), Err(ErroExecucao::RegistradorDesconhecido));
    assert_eq!(r, registradores_iniciais());
}
