use kwork_parser::util::fingerprint;

#[test]
fn fingerprints_are_stable() {
    assert_eq!(fingerprint("hello"), "a430d84680aabd0b");
    assert_ne!(fingerprint("hello"), fingerprint("hello!"));
}

#[test]
fn fingerprint_is_sixteen_hex_digits() {
    assert_eq!(fingerprint(""), "cbf29ce484222325");
    for input in ["", "a", "привет", "🙂🙂"] {
        let f = fingerprint(input);
        assert_eq!(f.len(), 16);
        assert!(f.chars().all(|c| c.is_ascii_hexdigit() && !c.is_ascii_uppercase()));
    }
}
