use vigenere::VigenereCipher;

#[test]
fn test_encryption() {
    let clear_text = "Hello, Friend";
    let key = "MrRobot";
    let cipher = VigenereCipher::build()
        .with_key_string(key)
        .unwrap()
        .encrypt()
        .with_text_string(clear_text);
    let cipher_text: String = cipher.collect();

    assert_eq!(cipher_text, "Tvczp, Tkuver");
}

#[test]
fn test_decryption() {
    let cipher_text = "Tvczp, Tkuver";
    let key = "MrRobot";
    let cipher = VigenereCipher::build()
        .with_key_string(key)
        .unwrap()
        .decrypt()
        .with_text_string(cipher_text);
    let clear_text: String = cipher.collect();

    assert_eq!(clear_text, "Hello, Friend");
}

/// Full pipeline: encryption then decryption
#[test]
fn test_full_cipher() {
    let original_text = "Hello, Friend";
    let key = "MrRobot";
    let cipher = VigenereCipher::build().with_key_string(key).unwrap();

    let encrypted_text: String = cipher.encrypt().with_text_string(original_text).collect();
    let decrypted_text: String = cipher.decrypt().with_text_string(&encrypted_text).collect();

    assert_eq!(original_text, decrypted_text);
}
