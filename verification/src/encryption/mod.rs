pub mod aes;
pub mod codec;
pub mod digest;
