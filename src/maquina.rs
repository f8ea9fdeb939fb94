//! The SIC/XE machine: a register file and a 32 KiB memory holding one program at 0x6000.

use crate::executor::{
    self,
    escrita,
    passo_spec,
    registradores_validos,
    ErroExecucao,
    TAMANHO_MEMORIA,
};
use crate::registradores::PC;
use vstd::prelude::*;

verus! {

/// Address at which a program is loaded and execution starts.
pub const INICIO_PROGRAMA: usize = 0x6000;

/// Largest program that fits between `INICIO_PROGRAMA` and the end of memory.
pub const TAMANHO_MAXIMO_PROGRAMA: usize = 0x2000;

/// Why a program could not be loaded.
#[derive(Debug, Clone, Copy, PartialEq, Eq, Structural)]
pub enum ErroCarga {
    /// The program does not fit in memory from `INICIO_PROGRAMA` on.
    ProgramaGrandeDemais,
}

/// Registers of a machine that has just been created or reset: all zero but the
/// program counter, which points at `INICIO_PROGRAMA`.
pub open spec fn registradores_iniciais() -> Seq<u64> {
    escrita(Seq::new(10, |i: int| 0u64), PC as int, INICIO_PROGRAMA as int)
}

/// Memory after loading `programa` over `memoria`: what lies below `INICIO_PROGRAMA`
/// stays, then the program, then zeros up to the end.
pub open spec fn memoria_carregada(memoria: Seq<u8>, programa: Seq<u8>) -> Seq<u8> {
    memoria.subrange(0, INICIO_PROGRAMA as int) + programa + Seq::new(
        (TAMANHO_MAXIMO_PROGRAMA - programa.len()) as nat,
        |i: int| 0u8,
    )
}

/// Memory after a load that did not fit: the program region is cleared.
pub open spec fn memoria_limpa(memoria: Seq<u8>) -> Seq<u8> {
    memoria.subrange(0, INICIO_PROGRAMA as int) + Seq::new(
        TAMANHO_MAXIMO_PROGRAMA as nat,
        |i: int| 0u8,
    )
}

/// Memory after a reset: the region below `INICIO_PROGRAMA` is cleared, the program kept.
pub open spec fn memoria_reiniciada(memoria: Seq<u8>) -> Seq<u8> {
    Seq::new(INICIO_PROGRAMA as nat, |i: int| 0u8) + memoria.subrange(
        INICIO_PROGRAMA as int,
        TAMANHO_MEMORIA as int,
    )
}

/// Resetting a machine, whatever it ran, and loading a program leaves it as a fresh
/// machine that loads the same program: every register zero but the program counter,
/// which holds `INICIO_PROGRAMA`, and the same memory byte for byte.
pub proof fn lemma_resetar_e_recarregar(memoria: Seq<u8>, programa: Seq<u8>)
    requires
        memoria.len() == TAMANHO_MEMORIA,
        programa.len() <= TAMANHO_MAXIMO_PROGRAMA,
    ensures
        memoria_carregada(memoria_reiniciada(memoria), programa) == memoria_carregada(
            Seq::new(TAMANHO_MEMORIA as nat, |i: int| 0u8),
            programa,
        ),
        escrita(registradores_iniciais(), PC as int, INICIO_PROGRAMA as int)
            == registradores_iniciais(),
        registradores_iniciais()[PC as int] == INICIO_PROGRAMA,
        forall|i: int| 0 <= i < 10 && i != PC ==> registradores_iniciais()[i] == 0,
{
    assert(memoria_reiniciada(memoria).subrange(0, INICIO_PROGRAMA as int) =~= Seq::new(
        TAMANHO_MEMORIA as nat,
        |i: int| 0u8,
    ).subrange(0, INICIO_PROGRAMA as int));
    assert(escrita(registradores_iniciais(), PC as int, INICIO_PROGRAMA as int)
        =~= registradores_iniciais());
}

/// A SIC/XE machine.
pub struct Maquina {
    registradores: [u64; 10],
    memoria: [u8; 32768],
}

impl Maquina {
    /// The register file.
    pub closed spec fn regs(&self) -> Seq<u64> {
        self.registradores@
    }

    /// The memory.
    pub closed spec fn mem(&self) -> Seq<u8> {
        self.memoria@
    }

    /// Every register holds a value below its width, and memory has its full size.
    pub open spec fn valida(&self) -> bool {
        &&& registradores_validos(self.regs())
        &&& self.mem().len() == TAMANHO_MEMORIA
    }

    pub fn new() -> (r: Self)
        ensures
            r.valida(),
            r.regs() == registradores_iniciais(),
            r.mem() == Seq::new(TAMANHO_MEMORIA as nat, |i: int| 0u8),
    {
        let mut registradores = [0u64; 10];
        executor::set_registrador(&mut registradores, PC, INICIO_PROGRAMA as u64);
        let r = Self { registradores, memoria: [0u8; 32768] };
        proof {
            assert(registradores@ =~= registradores_iniciais());
            assert(r.mem() =~= Seq::new(TAMANHO_MEMORIA as nat, |i: int| 0u8));
        }
        r
    }

    /// Loads a program at `INICIO_PROGRAMA` and points the program counter at it.
    /// The program region is cleared first, also when the program does not fit.
    pub fn carregar(&mut self, programa: &[u8]) -> (r: Result<(), ErroCarga>)
        requires
            old(self).valida(),
        ensures
            final(self).valida(),
            programa@.len() <= TAMANHO_MAXIMO_PROGRAMA ==> {
                &&& r is Ok
                &&& final(self).mem() == memoria_carregada(old(self).mem(), programa@)
                &&& final(self).regs() == escrita(old(self).regs(), PC as int, INICIO_PROGRAMA as int)
            },
            programa@.len() > TAMANHO_MAXIMO_PROGRAMA ==> {
                &&& r == Err::<(), ErroCarga>(ErroCarga::ProgramaGrandeDemais)
                &&& final(self).mem() == memoria_limpa(old(self).mem())
                &&& final(self).regs() == old(self).regs()
            },
    {
        let ghost antes = self.memoria@;
        let mut i: usize = INICIO_PROGRAMA;
        while i < TAMANHO_MEMORIA
            invariant
                INICIO_PROGRAMA <= i <= TAMANHO_MEMORIA,
                self.memoria@.len() == TAMANHO_MEMORIA,
                self.registradores@ == old(self).registradores@,
                forall|k: int| 0 <= k < INICIO_PROGRAMA ==> self.memoria@[k] == antes[k],
                forall|k: int| INICIO_PROGRAMA <= k < i ==> self.memoria@[k] == 0,
            decreases TAMANHO_MEMORIA - i,
        {
            self.memoria[i] = 0;
            i = i + 1;
        }
        if programa.len() > TAMANHO_MAXIMO_PROGRAMA {
            proof {
                assert(self.memoria@ =~= memoria_limpa(antes));
            }
            return Err(ErroCarga::ProgramaGrandeDemais);
        }
        let mut j: usize = 0;
        while j < programa.len()
            invariant
                j <= programa@.len() <= TAMANHO_MAXIMO_PROGRAMA,
                self.memoria@.len() == TAMANHO_MEMORIA,
                self.registradores@ == old(self).registradores@,
                forall|k: int| 0 <= k < INICIO_PROGRAMA ==> self.memoria@[k] == antes[k],
                forall|k: int| 0 <= k < j ==> self.memoria@[INICIO_PROGRAMA + k] == programa@[k],
                forall|k: int| INICIO_PROGRAMA + j <= k < TAMANHO_MEMORIA ==> self.memoria@[k] == 0,
            decreases programa@.len() - j,
        {
            self.memoria[INICIO_PROGRAMA + j] = programa[j];
            j = j + 1;
        }
        executor::set_registrador(&mut self.registradores, PC, INICIO_PROGRAMA as u64);
        proof {
            assert(self.memoria@ =~= memoria_carregada(antes, programa@));
            executor::lemma_escrita_valida(old(self).registradores@, PC as int, INICIO_PROGRAMA as int);
        }
        Ok(())
    }

    /// The value of register `numero`, if there is such a register.
    pub fn registrador(&self, numero: usize) -> (r: Option<u64>)
        ensures
            r == (if numero < self.regs().len() {
                Some(self.regs()[numero as int])
            } else {
                None
            }),
    {
        if numero < self.registradores.len() {
            Some(self.registradores[numero])
        } else {
            None
        }
    }

    /// The whole memory.
    pub fn memoria(&self) -> (r: &[u8])
        ensures
            r@ == self.mem(),
    {
        self.memoria.as_slice()
    }

    /// Reads, decodes and executes one instruction.
    pub fn executar_instrucao(&mut self) -> (r: Result<(), ErroExecucao>)
        requires
            old(self).valida(),
        ensures
            final(self).valida(),
            final(self).mem() == old(self).mem(),
            (final(self).regs(), r) == passo_spec(old(self).regs(), old(self).mem()),
    {
        executor::executar_instrucao(&mut self.registradores, &mut self.memoria)
    }

    /// Resets the registers and clears the memory below the program; the loaded
    /// program stays in place.
    pub fn resetar(&mut self)
        requires
            old(self).valida(),
        ensures
            final(self).valida(),
            final(self).regs() == registradores_iniciais(),
            final(self).mem() == memoria_reiniciada(old(self).mem()),
    {
        let ghost antes = self.memoria@;
        let mut i: usize = 0;
        while i < INICIO_PROGRAMA
            invariant
                i <= INICIO_PROGRAMA,
                self.memoria@.len() == TAMANHO_MEMORIA,
                forall|k: int| 0 <= k < i ==> self.memoria@[k] == 0,
                forall|k: int| INICIO_PROGRAMA <= k < TAMANHO_MEMORIA ==> self.memoria@[k] == antes[k],
            decreases INICIO_PROGRAMA - i,
        {
            self.memoria[i] = 0;
            i = i + 1;
        }
        self.registradores = [0u64; 10];
        executor::set_registrador(&mut self.registradores, PC, INICIO_PROGRAMA as u64);
        proof {
            assert(self.memoria@ =~= memoria_reiniciada(antes));
            assert(self.registradores@ =~= registradores_iniciais());
        }
    }
}

} // verus!
