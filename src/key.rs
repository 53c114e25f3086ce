//! The key: a finite, non-empty byte sequence replayed cyclically.
use vstd::prelude::*;
use vstd::slice::slice_to_vec;
use vstd::string::StringSliceAdditionalSpecFns;

verus! {

/// Errors in configuring a cipher.
#[derive(Clone, Copy, Debug, PartialEq, Eq, Structural)]
pub enum ConfigError {
    /// The key holds no byte, so it cannot be cycled.
    EmptyKey,
    /// No form was supplied for one of key, mode or text.
    MissingInput,
}

/// A cyclic cursor over the bytes of a key.
pub struct KeySource {
    bytes: Vec<u8>,
    pos: usize,
}

impl KeySource {
    /// The bytes of the key, in order.
    pub closed spec fn key(&self) -> Seq<u8> {
        self.bytes@
    }

    /// Index of the byte that the next draw returns.
    pub closed spec fn cursor(&self) -> nat {
        self.pos as nat
    }

    /// The key is not empty and the cursor lies inside it.
    pub closed spec fn wf(&self) -> bool {
        self.bytes@.len() > 0 && self.pos < self.bytes@.len()
    }

    /// A well-formed key source has a byte under its cursor.
    pub proof fn lemma_bounds(&self)
        requires
            self.wf(),
        ensures
            self.key().len() > 0,
            self.cursor() < self.key().len(),
    {
    }

    /// A key source over `bytes`, starting at the first byte; an empty key is
    /// refused.
    pub fn from_bytes(bytes: Vec<u8>) -> (r: Result<KeySource, ConfigError>)
        ensures
            bytes@.len() > 0 <==> r is Ok,
            bytes@.len() == 0 <==> r == Err::<KeySource, ConfigError>(ConfigError::EmptyKey),
            r matches Ok(ks) ==> ks.wf() && ks.key() == bytes@ && ks.cursor() == 0,
    {
        if bytes.len() == 0 {
            Err(ConfigError::EmptyKey)
        } else {
            Ok(KeySource { bytes, pos: 0 })
        }
    }

    /// A key source over the UTF-8 bytes of `key`; an empty key is refused.
    pub fn from_string(key: &str) -> (r: Result<KeySource, ConfigError>)
        ensures
            key.spec_bytes().len() > 0 <==> r is Ok,
            key.spec_bytes().len() == 0 <==> r == Err::<KeySource, ConfigError>(
                ConfigError::EmptyKey,
            ),
            r matches Ok(ks) ==> ks.wf() && ks.key() == key.spec_bytes() && ks.cursor() == 0,
    {
        KeySource::from_bytes(slice_to_vec(key.as_bytes()))
    }

    /// An independent cursor over the same key, at its first byte.
    pub fn restart(&self) -> (r: KeySource)
        requires
            self.wf(),
        ensures
            r.wf(),
            r.key() == self.key(),
            r.cursor() == 0,
    {
        KeySource { bytes: self.bytes.clone(), pos: 0 }
    }

    /// The byte under the cursor; the cursor moves one on, wrapping to the
    /// start after the last byte.
    pub fn next_byte(&mut self) -> (r: u8)
        requires
            old(self).wf(),
        ensures
            final(self).wf(),
            final(self).key() == old(self).key(),
            r == old(self).key()[old(self).cursor() as int],
            final(self).cursor() == (old(self).cursor() + 1) % old(self).key().len(),
    {
        let b = self.bytes[self.pos];
        let n = self.bytes.len();
        if self.pos == n - 1 {
            self.pos = 0;
            assert(n as int % n as int == 0) by {
                vstd::arithmetic::div_mod::lemma_mod_self_0(n as int);
            }
        } else {
            self.pos = self.pos + 1;
            assert(self.pos as int % n as int == self.pos as int) by {
                vstd::arithmetic::div_mod::lemma_small_mod(self.pos as nat, n as nat);
            }
        }
        b
    }
}

} // verus!
