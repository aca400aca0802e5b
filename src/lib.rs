//! Recovery of AES key material from memory images: windows of a dump are
//! filtered by entropy and by known file signatures, ranked in bounded sets,
//! and checked for the presence of their expanded AES-256 round-key schedule.
pub mod aes;
pub mod coordinator;
pub mod entropy;
pub mod oracle;
pub mod progress;
pub mod ranked;
pub mod scanner;
pub mod search;
pub mod sniffer;
