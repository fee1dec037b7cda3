use caxton::cache_key::{cache_key, cache_key_input};

#[test]
fn key_input_appends_settings_and_salt() {
    let input = cache_key_input(b"font", b" 1 2");
    assert_eq!(input, b"font 1 2\xE6\x26\x69\x11".to_vec());
}

#[test]
fn key_of_font_and_settings() {
    assert_eq!(
        cache_key(b"font", b"32 8 4 false 4096"),
        "ZCXXDBh9udV4wQxZbpCtgOPZiU34cobthvMMqR2By20="
    );
}

#[test]
fn key_of_empty_input_is_the_salt_digest() {
    assert_eq!(cache_key(b"", b""), "4clYyZjNDq5adT8FWYLgXRU2XtvR0HB47Tyt4y5XT9s=");
}

#[test]
fn settings_change_the_key() {
    assert_ne!(cache_key(b"font", b"32 8 4 false 4096"), cache_key(b"font", b"32 8 4 true 4096"));
}
