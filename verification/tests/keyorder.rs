use dao_contracts::keyorder::{bytes_less, key_less};

#[test]
fn keys_compare_by_their_bytes() {
    assert!(key_less(&"a".to_string(), &"ab".to_string()));
    assert!(!key_less(&"ab".to_string(), &"a".to_string()));
    assert!(!key_less(&"a".to_string(), &"a".to_string()));
    assert!(key_less(&"Z".to_string(), &"a".to_string()));
    assert!(key_less(&"z".to_string(), &"é".to_string()));
    assert!(key_less(&String::new(), &"a".to_string()));
    assert!(bytes_less(&[1, 2], &[1, 3]));
    assert!(!bytes_less(&[2], &[1, 3]));
    assert!(!bytes_less(&[], &[]));
}
