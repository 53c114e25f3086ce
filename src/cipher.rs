//! The transform engine and the staged builder that assembles it.
use vstd::prelude::*;
use vstd::slice::slice_to_vec;
use vstd::string::StringSliceAdditionalSpecFns;

use crate::alphabet::{byte_to_char, cipher_byte, is_alpha, is_alphabetic, transform_byte, Mode};
use crate::key::{ConfigError, KeySource};

verus! {

/// Output of the cipher on text `t` when the key cursor stands at `start`:
/// each letter is shifted by the key byte under the cursor, which then moves
/// on; any other byte passes through and leaves the cursor where it is.
pub open spec fn cipher_text(mode: Mode, key: Seq<u8>, start: nat, t: Seq<u8>) -> Seq<u8>
    decreases t.len(),
{
    if t.len() == 0 {
        Seq::empty()
    } else if is_alpha(t[0]) {
        seq![cipher_byte(mode, t[0], key[(start % key.len()) as int])] + cipher_text(
            mode,
            key,
            start + 1,
            t.drop_first(),
        )
    } else {
        seq![t[0]] + cipher_text(mode, key, start, t.drop_first())
    }
}

/// Output of the cipher on text `t` with key `key` read from its first byte.
pub open spec fn vigenere(mode: Mode, key: Seq<u8>, t: Seq<u8>) -> Seq<u8> {
    cipher_text(mode, key, 0, t)
}

/// Each byte read as the character of the same code.
pub open spec fn as_chars(s: Seq<u8>) -> Seq<char> {
    s.map_values(|b: u8| b as char)
}

/// The cipher yields one byte per text byte.
pub proof fn lemma_cipher_text_len(mode: Mode, key: Seq<u8>, start: nat, t: Seq<u8>)
    ensures
        cipher_text(mode, key, start, t).len() == t.len(),
    decreases t.len(),
{
    if t.len() > 0 {
        if is_alpha(t[0]) {
            lemma_cipher_text_len(mode, key, start + 1, t.drop_first());
        } else {
            lemma_cipher_text_len(mode, key, start, t.drop_first());
        }
    }
}

/// Only the key cursor's position modulo the key length matters.
pub proof fn lemma_cipher_text_mod(mode: Mode, key: Seq<u8>, start: nat, t: Seq<u8>)
    requires
        key.len() > 0,
    ensures
        cipher_text(mode, key, start, t) == cipher_text(mode, key, start % key.len(), t),
    decreases t.len(),
{
    let n = key.len();
    if t.len() > 0 {
        let r = start % n;
        assert(r % n == start % n) by {
            vstd::arithmetic::div_mod::lemma_mod_twice(start as int, n as int);
        }
        if is_alpha(t[0]) {
            lemma_cipher_text_mod(mode, key, start + 1, t.drop_first());
            lemma_cipher_text_mod(mode, key, r + 1, t.drop_first());
            assert((start + 1) % n == (r + 1) % n) by {
                vstd::arithmetic::div_mod::lemma_add_mod_noop(start as int, 1, n as int);
                vstd::arithmetic::div_mod::lemma_add_mod_noop(r as int, 1, n as int);
                vstd::arithmetic::div_mod::lemma_mod_twice(start as int, n as int);
            }
        } else {
            lemma_cipher_text_mod(mode, key, start, t.drop_first());
            lemma_cipher_text_mod(mode, key, r, t.drop_first());
        }
    }
}

/// Relies on `String::push`: the character is appended at the end.
#[verifier::external_body]
fn push_char(s: &mut String, c: char)
    ensures
        final(s)@ == old(s)@.push(c),
{
    s.push(c)
}

/// A key cursor bound to a mode: the cipher applied to a stream of bytes
/// handed in one at a time.
pub struct Transformer {
    key: KeySource,
    mode: Mode,
}

impl Transformer {
    /// The bytes of the key, in order.
    pub closed spec fn key(&self) -> Seq<u8> {
        self.key.key()
    }

    /// Index of the key byte that the next letter draws.
    pub closed spec fn cursor(&self) -> nat {
        self.key.cursor()
    }

    pub closed spec fn mode(&self) -> Mode {
        self.mode
    }

    pub closed spec fn wf(&self) -> bool {
        self.key.wf()
    }

    /// Enciphers or deciphers one text byte. A letter draws the next key byte;
    /// any other byte is returned as it is and draws nothing.
    pub fn apply(&mut self, c: u8) -> (r: u8)
        requires
            old(self).wf(),
        ensures
            final(self).wf(),
            final(self).key() == old(self).key(),
            final(self).mode() == old(self).mode(),
            r == cipher_byte(old(self).mode(), c, old(self).key()[old(self).cursor() as int]),
            final(self).cursor() == if is_alpha(c) {
                (old(self).cursor() + 1) % old(self).key().len()
            } else {
                old(self).cursor()
            },
            cipher_text(old(self).mode(), old(self).key(), old(self).cursor(), seq![c]) == seq![r],
    {
        proof {
            self.key.lemma_bounds();
            reveal_with_fuel(cipher_text, 2);
            assert(seq![c].drop_first() =~= Seq::<u8>::empty());
            assert(self.cursor() % self.key().len() == self.cursor()) by {
                vstd::arithmetic::div_mod::lemma_small_mod(self.cursor(), self.key().len());
            }
        }
        if is_alphabetic(c) {
            let k = self.key.next_byte();
            transform_byte(self.mode, c, k)
        } else {
            c
        }
    }

    /// Enciphers or deciphers one text byte and reads the result as a character.
    pub fn apply_char(&mut self, c: u8) -> (r: char)
        requires
            old(self).wf(),
        ensures
            final(self).wf(),
            final(self).key() == old(self).key(),
            final(self).mode() == old(self).mode(),
            r == cipher_byte(old(self).mode(), c, old(self).key()[old(self).cursor() as int]) as char,
            final(self).cursor() == if is_alpha(c) {
                (old(self).cursor() + 1) % old(self).key().len()
            } else {
                old(self).cursor()
            },
    {
        byte_to_char(self.apply(c))
    }
}

/// A ready engine: a key cursor, a mode, and a text consumed once, front to
/// back, one output character per pull.
pub struct VigenereCipher {
    shift: Transformer,
    text: Vec<u8>,
    pos: usize,
}

impl VigenereCipher {
    pub closed spec fn wf(&self) -> bool {
        self.shift.wf() && self.pos <= self.text@.len()
    }

    pub closed spec fn mode(&self) -> Mode {
        self.shift.mode()
    }

    pub closed spec fn key(&self) -> Seq<u8> {
        self.shift.key()
    }

    /// The output that the pulls still to come will yield, as bytes.
    pub closed spec fn remaining(&self) -> Seq<u8> {
        cipher_text(
            self.shift.mode(),
            self.shift.key(),
            self.shift.cursor(),
            self.text@.subrange(self.pos as int, self.text@.len() as int),
        )
    }

    /// The first stage of the builder.
    pub fn build() -> (r: VigenereWantsKey) {
        VigenereBuilder::build()
    }

    /// The next output character, or `None` once the text is exhausted.
    pub fn next(&mut self) -> (r: Option<char>)
        requires
            old(self).wf(),
        ensures
            final(self).wf(),
            final(self).mode() == old(self).mode(),
            final(self).key() == old(self).key(),
            r is None <==> old(self).remaining().len() == 0,
            r is None ==> final(self).remaining() == old(self).remaining(),
            r matches Some(c) ==> c == old(self).remaining()[0] as char
                && final(self).remaining() == old(self).remaining().drop_first(),
    {
        let ghost t = self.text@.subrange(self.pos as int, self.text@.len() as int);
        proof {
            self.shift.key.lemma_bounds();
            lemma_cipher_text_len(self.mode(), self.key(), self.shift.cursor(), t);
        }
        if self.pos >= self.text.len() {
            return None;
        }
        let ghost m = self.mode();
        let ghost k = self.key();
        let ghost s = self.shift.cursor();
        let b = self.text[self.pos];
        let out = self.shift.apply_char(b);
        self.pos = self.pos + 1;
        proof {
            let rest = self.text@.subrange(self.pos as int, self.text@.len() as int);
            assert(t.drop_first() =~= rest);
            assert(t[0] == b);
            assert(s % k.len() == s) by {
                vstd::arithmetic::div_mod::lemma_small_mod(s, k.len());
            }
            if is_alpha(b) {
                lemma_cipher_text_mod(m, k, s + 1, rest);
            }
            assert(cipher_text(m, k, s, t).drop_first() =~= self.remaining());
        }
        Some(out)
    }

    /// Drives the engine to exhaustion and gathers all that it yields.
    pub fn collect(self) -> (r: String)
        requires
            self.wf(),
        ensures
            r@ == as_chars(self.remaining()),
    {
        let ghost whole = as_chars(self.remaining());
        let mut engine = self;
        let mut out = String::new();
        loop
            invariant
                engine.wf(),
                out@ + as_chars(engine.remaining()) == whole,
            ensures
                out@ == whole,
            decreases engine.remaining().len(),
        {
            let ghost before = engine.remaining();
            match engine.next() {
                Some(c) => {
                    assert(as_chars(before) =~= seq![before[0] as char] + as_chars(
                        before.drop_first(),
                    ));
                    push_char(&mut out, c);
                    assert(out@ + as_chars(engine.remaining()) =~= whole);
                },
                None => {
                    assert(out@ =~= whole);
                    break ;
                },
            }
        }
        out
    }
}

/// The builder before a key is bound.
pub struct VigenereBuilder;

/// The first stage of the builder: it takes a key.
pub type VigenereWantsKey = VigenereBuilder;

impl VigenereBuilder {
    pub fn build() -> (r: VigenereBuilder) {
        VigenereBuilder
    }

    /// Binds the bytes of `key`; an empty key is refused.
    pub fn with_key_bytes(self, key: Vec<u8>) -> (r: Result<VigenereWantsMode, ConfigError>)
        ensures
            key@.len() > 0 <==> r is Ok,
            key@.len() == 0 <==> r == Err::<VigenereWantsMode, ConfigError>(ConfigError::EmptyKey),
            r matches Ok(w) ==> w.wf() && w.key() == key@,
    {
        match KeySource::from_bytes(key) {
            Ok(ks) => Ok(VigenereWantsMode { key: ks }),
            Err(e) => Err(e),
        }
    }

    /// Binds the UTF-8 bytes of `key`; an empty key is refused.
    pub fn with_key_string(self, key: &str) -> (r: Result<VigenereWantsMode, ConfigError>)
        ensures
            key.spec_bytes().len() > 0 <==> r is Ok,
            key.spec_bytes().len() == 0 <==> r == Err::<VigenereWantsMode, ConfigError>(
                ConfigError::EmptyKey,
            ),
            r matches Ok(w) ==> w.wf() && w.key() == key.spec_bytes(),
    {
        self.with_key_bytes(slice_to_vec(key.as_bytes()))
    }
}

/// The builder with a key bound: it takes a mode.
pub struct VigenereWantsMode {
    key: KeySource,
}

impl VigenereWantsMode {
    pub closed spec fn key(&self) -> Seq<u8> {
        self.key.key()
    }

    pub closed spec fn wf(&self) -> bool {
        self.key.wf()
    }

    /// Selects encryption, with the key read from its first byte.
    pub fn encrypt(&self) -> (r: VigenereWantsText)
        requires
            self.wf(),
        ensures
            r.wf(),
            r.key() == self.key(),
            r.mode() == Mode::Encrypt,
    {
        VigenereWantsText { key: self.key.restart(), mode: Mode::Encrypt }
    }

    /// Selects decryption, with the key read from its first byte.
    pub fn decrypt(&self) -> (r: VigenereWantsText)
        requires
            self.wf(),
        ensures
            r.wf(),
            r.key() == self.key(),
            r.mode() == Mode::Decrypt,
    {
        VigenereWantsText { key: self.key.restart(), mode: Mode::Decrypt }
    }
}

/// The builder with key and mode bound: it takes the text.
pub struct VigenereWantsText {
    key: KeySource,
    mode: Mode,
}

impl VigenereWantsText {
    pub closed spec fn key(&self) -> Seq<u8> {
        self.key.key()
    }

    pub closed spec fn mode(&self) -> Mode {
        self.mode
    }

    pub closed spec fn wf(&self) -> bool {
        self.key.wf() && self.key.cursor() == 0
    }

    /// An engine over the bytes of `text`.
    pub fn with_text_bytes(self, text: Vec<u8>) -> (r: VigenereCipher)
        requires
            self.wf(),
        ensures
            r.wf(),
            r.mode() == self.mode(),
            r.key() == self.key(),
            r.remaining() == vigenere(self.mode(), self.key(), text@),
    {
        let r = VigenereCipher { shift: Transformer { key: self.key, mode: self.mode }, text, pos: 0 };
        assert(r.text@.subrange(0, r.text@.len() as int) =~= text@);
        r
    }

    /// An engine over the UTF-8 bytes of `text`.
    pub fn with_text_string(self, text: &str) -> (r: VigenereCipher)
        requires
            self.wf(),
        ensures
            r.wf(),
            r.mode() == self.mode(),
            r.key() == self.key(),
            r.remaining() == vigenere(self.mode(), self.key(), text.spec_bytes()),
    {
        self.with_text_bytes(slice_to_vec(text.as_bytes()))
    }

    /// The bare transformer, for text that arrives a byte at a time.
    pub fn into_transformer(self) -> (r: Transformer)
        requires
            self.wf(),
        ensures
            r.wf(),
            r.mode() == self.mode(),
            r.key() == self.key(),
            r.cursor() == 0,
    {
        Transformer { key: self.key, mode: self.mode }
    }
}

} // verus!
