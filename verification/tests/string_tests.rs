use secure_types::SecureString;

#[test]
fn string_test_clone() {
    let hello_world = "Hello, world!".to_string();
    let mut secure1 = SecureString::from_string(hello_world.clone());
    let mut secure2 = secure1.clone();

    secure2.str_scope(|str| {
        assert_eq!(str, hello_world);
    });
    secure1.str_scope(|str| {
        assert_eq!(str, hello_world);
    });
}

#[test]
fn test_insert_text_at_char_idx() {
    let hello_world = "My name is ";
    let mut secure = SecureString::from(hello_world);
    secure.insert_text_at_char_idx(12, "Mike");
    secure.str_scope(|str| {
        assert_eq!(str, "My name is Mike");
    });
}

#[test]
fn test_insert_text_in_middle() {
    let mut secure = SecureString::from("ab");
    let inserted = secure.insert_text_at_char_idx(1, "XY");
    assert_eq!(inserted, 2);
    secure.str_scope(|str| {
        assert_eq!(str, "aXYb");
    });
}

#[test]
fn test_delete_text_char_range() {
    let hello_world = "My name is Mike";
    let mut secure = SecureString::from(hello_world);
    secure.delete_text_char_range(10, 17);
    secure.str_scope(|str| {
        assert_eq!(str, "My name is");
    });
}

#[test]
fn string_test_drain() {
    let hello_world = "Hello, world!";
    let mut secure = SecureString::from(hello_world);
    secure.drain(0, 7);
    secure.str_scope(|str| {
        assert_eq!(str, "world!");
    });
}

#[test]
fn test_str_scope() {
    let hello_word = "Hello, world!";
    let mut string = SecureString::from(hello_word);
    let _exposed_string = string.str_scope(|str| {
        assert_eq!(str, hello_word);
        String::from(str)
    });
}

#[test]
fn test_push_str() {
    let hello_world = "Hello, world!";

    let mut string = SecureString::new().unwrap();
    string.push_str(hello_world);
    string.str_scope(|str| {
        assert_eq!(str, hello_world);
    });
}

#[test]
fn test_erase_string() {
    let mut secure = SecureString::from("open sesame");
    let before = secure.capacity();
    secure.erase();
    assert_eq!(secure.len(), 0);
    assert_eq!(secure.char_len(), 0);
    assert_eq!(secure.capacity(), before);
    secure.str_scope(|str| {
        assert_eq!(str, "");
    });
}

#[test]
fn test_char_len_multibyte() {
    let secure = SecureString::from("héllo \u{1F600}");
    assert_eq!(secure.char_len(), 7);
    assert_eq!(secure.len(), 11);
}

#[test]
fn test_char_to_byte_idx_scan() {
    let text = "h\u{e9}llo";
    let bytes = text.as_bytes();
    assert_eq!(secure_types::string::char_to_byte_idx(bytes, 0), 0);
    assert_eq!(secure_types::string::char_to_byte_idx(bytes, 1), 1);
    assert_eq!(secure_types::string::char_to_byte_idx(bytes, 2), 3);
    assert_eq!(secure_types::string::char_to_byte_idx(bytes, 5), 6);
    assert_eq!(secure_types::string::char_to_byte_idx(bytes, 9), 6);
}

#[test]
fn test_char_count_of_scan() {
    assert_eq!(secure_types::string::char_count_of(b""), 0);
    assert_eq!(secure_types::string::char_count_of("abc".as_bytes()), 3);
    assert_eq!(secure_types::string::char_count_of("h\u{e9}llo".as_bytes()), 5);
}

#[test]
fn test_delete_multibyte_range() {
    let mut secure = SecureString::from("a\u{e9}b\u{e9}c");
    secure.delete_text_char_range(1, 4);
    secure.str_scope(|str| {
        assert_eq!(str, "ac");
    });
}

#[test]
fn test_insert_at_zero() {
    let mut secure = SecureString::from("world");
    secure.insert_text_at_char_idx(0, "hello ");
    secure.str_scope(|str| {
        assert_eq!(str, "hello world");
    });
}
