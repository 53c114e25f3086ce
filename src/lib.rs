//! Vigenère cipher over the English alphabet, as a staged builder and a
//! pull-based engine whose output is proved against a mathematical model.
pub mod alphabet;
pub mod cipher;
pub mod key;
pub mod laws;

pub use alphabet::Mode;
pub use cipher::{
    Transformer, VigenereBuilder, VigenereCipher, VigenereWantsKey, VigenereWantsMode,
    VigenereWantsText,
};
pub use key::{ConfigError, KeySource};
