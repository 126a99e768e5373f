pub mod alu;
pub mod bits;
pub mod bitset;
pub mod bitvecutils;
pub mod bus;
pub mod clock;
pub mod computer;
pub mod config;
pub mod control;
pub mod decoder;
pub mod link;
pub mod memory;
pub mod pc;
pub mod word;
