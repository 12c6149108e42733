pub mod arch;
pub mod hash;
