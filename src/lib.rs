//! A small toolchain for the SIC/XE teaching machine: a macro preprocessor,
//! a two-pass assembler that writes object records, and a virtual machine that
//! loads and executes the code.

// Machine constants: register numbers and operation codes.
pub mod opcodes;
pub mod registradores;

// Text and hex helpers shared by the preprocessor and the assembler.
pub mod hex;
pub mod texto;

// The macro preprocessors.
pub mod processador_macro;
pub mod processador_macros;

// The assembler and its tables.
pub mod montador;
pub mod tabela_operacoes;

// The machine: bit fields, one execution step, and the machine itself.
pub mod bits;
pub mod executor;
pub mod maquina;
