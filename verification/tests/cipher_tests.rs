use auto_obfuscate::cipher::{decrypt_string, xor_cipher};
use auto_obfuscate::flow::run_dummy_loop;

#[test]
fn test_encrypt_macro() {
    let encrypted = xor_cipher("Hello World", "xnasff3wcedj");
    let decrypted = decrypt_string(&encrypted, "xnasff3wcedj");
    assert_eq!("Hello World", decrypted);
}

#[test]
fn test_flow_macro() {
    run_dummy_loop(7, 3, 100);
    assert_eq!(1, 1);
}

#[test]
fn test_xor_cipher_and_decrypt() {
    let key = "xnasff3wcedj";
    let test_strings = ["Hello", "World", "1234", "!@#$%^&*()"];
    for &original in &test_strings {
        let encrypted = xor_cipher(original, key);
        let decrypted = decrypt_string(&encrypted, key);
        assert_eq!(original, decrypted, "Failed for string: {}", original);
    }
}

#[test]
fn test_xor_cipher_and_decrypt_customkey() {
    let key = "testkey".to_string();
    assert_eq!(key, "testkey");
    let test_strings = ["Hello", "World", "1234", "!@#$%^&*()"];
    for &original in &test_strings {
        let encrypted = xor_cipher(original, &key);
        let decrypted = decrypt_string(&encrypted, &key);
        assert_eq!(original, decrypted, "Failed for string: {}", original);
    }
}

#[test]
fn round_trip_empty_text_and_short_key() {
    assert_eq!(xor_cipher("", "k"), "");
    let enc = xor_cipher("abc xyz", "k");
    assert_ne!(enc, "abc xyz");
    assert_eq!(decrypt_string(&enc, "k"), "abc xyz");
}

#[test]
fn cipher_exact_byte_value() {
    // 'a' is 0x61 and 'k' is 0x6b; their XOR is 0x0a
    let enc = xor_cipher("a", "k");
    assert_eq!(enc.chars().next().unwrap() as u32, 0x0a);
}

#[test]
fn dummy_loop_exact_iteration_counts() {
    // (bound - initial) / increment + 1 raising passes, and it always breaks
    assert_eq!(run_dummy_loop(1, 1, 100), 100);
    assert_eq!(run_dummy_loop(10, 5, 100), 19);
    assert_eq!(run_dummy_loop(7, 3, 100), 32);
    assert_eq!(run_dummy_loop(1, 5, 100), 20);
}
