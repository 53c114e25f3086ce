//! Properties of the cipher model that every engine inherits.
use vstd::prelude::*;

use crate::alphabet::{cipher_byte, is_alpha, is_lower, is_upper, Mode};
use crate::cipher::{as_chars, cipher_text, lemma_cipher_text_len, vigenere};
use vstd::utf8::{encode_utf8, is_ascii_chars, is_ascii_chars_encode_utf8};

verus! {

/// Number of letters in `t`.
pub open spec fn alpha_count(t: Seq<u8>) -> nat
    decreases t.len(),
{
    if t.len() == 0 {
        0
    } else {
        (if is_alpha(t[0]) {
            1nat
        } else {
            0nat
        }) + alpha_count(t.drop_first())
    }
}

/// One byte: a letter keeps its case and stays a letter, any other byte is
/// left alone, and deciphering undoes enciphering.
pub proof fn lemma_cipher_byte(c: u8, k: u8)
    ensures
        forall|m: Mode| is_upper(#[trigger] cipher_byte(m, c, k)) == is_upper(c),
        forall|m: Mode| is_lower(#[trigger] cipher_byte(m, c, k)) == is_lower(c),
        forall|m: Mode| !is_alpha(c) ==> #[trigger] cipher_byte(m, c, k) == c,
        cipher_byte(Mode::Decrypt, cipher_byte(Mode::Encrypt, c, k), k) == c,
{
}

/// Processing two texts in a row is processing their concatenation: the key
/// cursor goes on from where the first text left it.
pub proof fn lemma_concat(mode: Mode, key: Seq<u8>, start: nat, a: Seq<u8>, b: Seq<u8>)
    ensures
        cipher_text(mode, key, start, a + b) == cipher_text(mode, key, start, a) + cipher_text(
            mode,
            key,
            start + alpha_count(a),
            b,
        ),
    decreases a.len(),
{
    if a.len() > 0 {
        assert((a + b).drop_first() =~= a.drop_first() + b);
        assert((a + b)[0] == a[0]);
        if is_alpha(a[0]) {
            lemma_concat(mode, key, start + 1, a.drop_first(), b);
        } else {
            lemma_concat(mode, key, start, a.drop_first(), b);
        }
    } else {
        assert(a + b =~= b);
    }
}

/// A byte that is not a letter comes out unchanged and the text after it is
/// processed with the key cursor where it stood before it.
pub proof fn lemma_passthrough(
    mode: Mode,
    key: Seq<u8>,
    start: nat,
    before: Seq<u8>,
    c: u8,
    after: Seq<u8>,
)
    requires
        !is_alpha(c),
    ensures
        cipher_text(mode, key, start, before + seq![c] + after) == cipher_text(
            mode,
            key,
            start,
            before,
        ) + seq![c] + cipher_text(mode, key, start + alpha_count(before), after),
{
    let s = start + alpha_count(before);
    lemma_concat(mode, key, start, before, seq![c] + after);
    assert(before + seq![c] + after =~= before + (seq![c] + after));
    assert((seq![c] + after).drop_first() =~= after);
    assert(cipher_text(mode, key, s, seq![c] + after) == seq![c] + cipher_text(mode, key, s, after));
}

/// Byte `j` of the output: the letter `t[j]` is shifted by the key byte at
/// the count of letters before it, read cyclically from `start`; any other
/// byte is copied.
pub proof fn lemma_cipher_text_index(mode: Mode, key: Seq<u8>, start: nat, t: Seq<u8>, j: int)
    requires
        key.len() > 0,
        0 <= j < t.len(),
    ensures
        cipher_text(mode, key, start, t)[j] == cipher_byte(
            mode,
            t[j],
            key[((start + alpha_count(t.take(j))) % key.len()) as int],
        ),
    decreases t.len(),
{
    let step: nat = if is_alpha(t[0]) {
        1
    } else {
        0
    };
    lemma_cipher_text_len(mode, key, start + step, t.drop_first());
    if j == 0 {
        assert(t.take(0) =~= Seq::<u8>::empty());
        lemma_cipher_byte(t[0], key[(start % key.len()) as int]);
    } else {
        lemma_cipher_text_index(mode, key, start + step, t.drop_first(), j - 1);
        assert(t.take(j).drop_first() =~= t.drop_first().take(j - 1));
        assert(t.take(j)[0] == t[0]);
    }
}

/// Deciphering with a key what was enciphered with it, from the same key
/// position, gives the text back.
pub proof fn lemma_round_trip_from(key: Seq<u8>, start: nat, t: Seq<u8>)
    ensures
        cipher_text(Mode::Decrypt, key, start, cipher_text(Mode::Encrypt, key, start, t)) == t,
    decreases t.len(),
{
    if t.len() > 0 {
        let k = key[(start % key.len()) as int];
        lemma_cipher_byte(t[0], k);
        let e = cipher_text(Mode::Encrypt, key, start, t);
        if is_alpha(t[0]) {
            lemma_round_trip_from(key, start + 1, t.drop_first());
            assert(e.drop_first() =~= cipher_text(Mode::Encrypt, key, start + 1, t.drop_first()));
        } else {
            lemma_round_trip_from(key, start, t.drop_first());
            assert(e.drop_first() =~= cipher_text(Mode::Encrypt, key, start, t.drop_first()));
        }
        assert(cipher_text(Mode::Decrypt, key, start, e) =~= t);
    }
}

/// Round trip: for every text and every non-empty key, deciphering the
/// enciphered text with the same key gives the text back.
pub proof fn lemma_round_trip(key: Seq<u8>, text: Seq<u8>)
    requires
        key.len() > 0,
    ensures
        vigenere(Mode::Decrypt, key, vigenere(Mode::Encrypt, key, text)) == text,
{
    lemma_round_trip_from(key, 0, text);
}

/// Bytes below 128 stay below 128 under the cipher.
pub proof fn lemma_ascii_kept(mode: Mode, key: Seq<u8>, t: Seq<u8>)
    requires
        key.len() > 0,
        forall|i: int| 0 <= i < t.len() ==> #[trigger] t[i] < 128,
    ensures
        cipher_text(mode, key, 0, t).len() == t.len(),
        forall|i: int|
            0 <= i < t.len() ==> #[trigger] cipher_text(mode, key, 0, t)[i] < 128,
{
    lemma_cipher_text_len(mode, key, 0, t);
    assert forall|i: int| 0 <= i < t.len() implies #[trigger] cipher_text(mode, key, 0, t)[i]
        < 128 by {
        lemma_cipher_text_index(mode, key, 0, t, i);
    }
}

/// Round trip through characters: for every ASCII text and every non-empty
/// key, deciphering the characters that enciphering the text's UTF-8 bytes
/// yields gives the text back.
pub proof fn lemma_round_trip_ascii(key: Seq<u8>, text: Seq<char>)
    requires
        key.len() > 0,
        is_ascii_chars(text),
    ensures
        as_chars(
            vigenere(Mode::Decrypt, key, encode_utf8(as_chars(vigenere(Mode::Encrypt, key, encode_utf8(text))))),
        ) == text,
{
    let b = encode_utf8(text);
    is_ascii_chars_encode_utf8(text);
    assert forall|i: int| 0 <= i < b.len() implies #[trigger] b[i] < 128 by {
        assert(text[i] as u8 == b[i]);
    }
    let e = vigenere(Mode::Encrypt, key, b);
    lemma_ascii_kept(Mode::Encrypt, key, b);
    let enc = as_chars(e);
    assert(is_ascii_chars(enc)) by {
        assert forall|i: int| 0 <= i < enc.len() implies '\0' <= #[trigger] enc[i] <= '\u{7f}' by {
            assert(e[i] < 128);
        }
    }
    is_ascii_chars_encode_utf8(enc);
    assert(encode_utf8(enc) =~= e) by {
        assert forall|i: int| 0 <= i < e.len() implies #[trigger] encode_utf8(enc)[i] == e[i] by {
            assert(enc[i] as u8 == encode_utf8(enc)[i]);
        }
    }
    lemma_round_trip(key, b);
    lemma_cipher_text_len(Mode::Decrypt, key, 0, e);
    assert(as_chars(vigenere(Mode::Decrypt, key, e)) =~= text) by {
        assert forall|i: int| 0 <= i < text.len() implies #[trigger] as_chars(b)[i] == text[i] by {
            assert(text[i] as u8 == b[i]);
        }
    }
}

/// Passthrough: every byte of the text that is not a letter stands unchanged
/// at its place in the output, and spends no key byte.
pub proof fn lemma_non_letters_unchanged(mode: Mode, key: Seq<u8>, text: Seq<u8>, j: int)
    requires
        key.len() > 0,
        0 <= j < text.len(),
        !is_alpha(text[j]),
    ensures
        vigenere(mode, key, text)[j] == text[j],
        alpha_count(text.take(j + 1)) == alpha_count(text.take(j)),
{
    lemma_cipher_text_len(mode, key, 0, text);
    lemma_cipher_text_index(mode, key, 0, text, j);
    lemma_concat_count(text.take(j), seq![text[j]]);
    assert(text.take(j + 1) =~= text.take(j) + seq![text[j]]);
    assert(seq![text[j]].drop_first() =~= Seq::<u8>::empty());
    reveal_with_fuel(alpha_count, 2);
}

/// Letters are counted piecewise over a concatenation.
pub proof fn lemma_concat_count(a: Seq<u8>, b: Seq<u8>)
    ensures
        alpha_count(a + b) == alpha_count(a) + alpha_count(b),
    decreases a.len(),
{
    if a.len() > 0 {
        assert((a + b).drop_first() =~= a.drop_first() + b);
        assert((a + b)[0] == a[0]);
        lemma_concat_count(a.drop_first(), b);
    } else {
        assert(a + b =~= b);
    }
}

/// Case preservation: each letter of the text comes out as a letter of the
/// same case, whatever the case of the key byte applied to it.
pub proof fn lemma_case_preserved(mode: Mode, key: Seq<u8>, text: Seq<u8>, j: int)
    requires
        key.len() > 0,
        0 <= j < text.len(),
        is_alpha(text[j]),
    ensures
        is_upper(vigenere(mode, key, text)[j]) == is_upper(text[j]),
        is_lower(vigenere(mode, key, text)[j]) == is_lower(text[j]),
{
    lemma_cipher_text_len(mode, key, 0, text);
    lemma_cipher_text_index(mode, key, 0, text, j);
    lemma_cipher_byte(text[j], key[(alpha_count(text.take(j)) % key.len()) as int]);
}

/// Key cycling: the letter that has `i` letters before it in the text is
/// shifted by key byte `i mod n`, for a key of length `n`.
pub proof fn lemma_key_cycling(mode: Mode, key: Seq<u8>, text: Seq<u8>, j: int)
    requires
        key.len() > 0,
        0 <= j < text.len(),
        is_alpha(text[j]),
    ensures
        vigenere(mode, key, text)[j] == cipher_byte(
            mode,
            text[j],
            key[(alpha_count(text.take(j)) % key.len()) as int],
        ),
{
    lemma_cipher_text_len(mode, key, 0, text);
    lemma_cipher_text_index(mode, key, 0, text, j);
}

} // verus!
