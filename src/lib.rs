//! A small on-chain program: it reads two big-endian 32-bit integers from the
//! instruction input and stores their quotient in the data of an account that
//! the program owns.

pub mod account;
pub mod instruction;
pub mod processor;
pub mod record;
