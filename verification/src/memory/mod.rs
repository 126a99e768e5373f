pub mod memory;
pub mod register;
