use libruntime::names::{generate_anonymous_volume_name, name_from_bytes};
use std::collections::HashSet;

fn is_lower_hex(name: &str) -> bool {
    name.chars().all(|c| matches!(c, '0'..='9' | 'a'..='f'))
}

#[test]
fn generated_name_is_64_lowercase_hex_digits() {
    for _ in 0..100 {
        let name = generate_anonymous_volume_name();
        assert_eq!(name.len(), 64);
        assert!(is_lower_hex(&name), "{}", name);
    }
}

#[test]
fn ten_thousand_generated_names_are_all_different() {
    let mut seen: HashSet<String> = HashSet::new();
    for _ in 0..10_000 {
        assert!(seen.insert(generate_anonymous_volume_name()));
    }
    assert_eq!(seen.len(), 10_000);
}

#[test]
fn name_of_given_bytes() {
    let mut bytes = [0u8; 32];
    for (i, b) in bytes.iter_mut().enumerate() {
        *b = i as u8;
    }
    assert_eq!(
        name_from_bytes(&bytes),
        "000102030405060708090a0b0c0d0e0f101112131415161718191a1b1c1d1e1f"
    );
}

#[test]
fn name_of_extreme_bytes() {
    assert_eq!(name_from_bytes(&[0u8; 32]), "0".repeat(64));
    assert_eq!(name_from_bytes(&[0xffu8; 32]), "f".repeat(64));
    let mut bytes = [0u8; 32];
    bytes[0] = 0xa5;
    bytes[31] = 0x5a;
    let name = name_from_bytes(&bytes);
    assert!(name.starts_with("a500"));
    assert!(name.ends_with("005a"));
    assert_ne!(name.as_bytes(), &bytes[..]);
}
