use playfair::{decrypt, encrypt, generate_key};

#[test]
fn test_generate_key() {
    for (key, keyword) in &[
        ("abcdefghiklmnopqrstuvwxyz", "abcdefg"),
        ("abcdefghiklmnopqrstuvwxyz", "aabbccddee"),
        ("playfirexmbcdghknoqstuvwz", "playfire example"),
        ("abcdefghiklmnopqrstuvwxyz", "aabbccddee"),
        ("playfirexmbcdghknoqstuvwz", "play!!!fa123ir ex^&*ample"),
        ("iabcdefghklmnopqrstuvwxyz", "iiiiiiiiiiiiiiiiiiiiiiiiiiiii"),
    ] {
        assert_eq!(25, key.len());
        let want: Vec<char> = key.chars().collect();
        assert_eq!(want, generate_key(keyword));
    }
}

#[test]
fn test_encrypt() {
    for (keyword, plaintext, encrypted) in &[
        (
            "playfair test",
            "never gonna give you up",
            "otxrecqowtbexrexvzpi",
        ),
        ("test", "testing example", "esaekidayskrks"),
        (
            "playfair example",
            "hide the gold in the tree stump",
            "bmodzbxdnabekudmuixmmouvif",
        ),
        ("secretj", "rust is awesomej", "tqesgiheceuhsa"),
        ("1t2Q4GOrzPE", "mgk", "wenu"),
    ] {
        assert_eq!(*encrypted, encrypt(keyword, plaintext, 'x').unwrap());
    }
}

#[test]
fn test_decrypt() {
    for (keyword, plaintext, encrypted) in &[
        (
            "playfair test",
            "nevergonnagiveyouxup",
            "otxrecqowtbexrexvzpi",
        ),
        ("test", "testingexample", "esaekidayskrks"),
        (
            "playfair example",
            "hidethegoldinthetrexestump",
            "bmodzbxdnabekudmuixmmouvif",
        ),
        ("secretj", "rustisawesomei", "tqesgiheceuhsa"),
        ("1t2Q4GOrzPE", "mgkx", "wenu"),
    ] {
        assert_eq!(*plaintext, decrypt(keyword, encrypted).unwrap());
    }
    assert!(decrypt("playfair", "oddnumberofchar").is_none());
}

#[test]
fn key_square_is_a_permutation() {
    for keyword in &[
        "",
        "jjjj",
        "The Quick Brown Fox Jumps Over The Lazy Dog",
        "zzyyxx",
        "42 !!",
        "playfair example",
    ] {
        let key = generate_key(keyword);
        assert_eq!(25, key.len());
        for (i, c) in key.iter().enumerate() {
            assert!(c.is_ascii_lowercase());
            assert_ne!('j', *c);
            assert!(!key[..i].contains(c));
        }
    }
}

#[test]
fn empty_keyword_gives_plain_alphabet() {
    let want: Vec<char> = "abcdefghiklmnopqrstuvwxyz".chars().collect();
    assert_eq!(want, generate_key(""));
    assert_eq!(want, generate_key("123 .!?"));
}

#[test]
fn round_trip_of_clean_plaintext() {
    for (keyword, plaintext) in &[
        ("playfair example", "playfair"),
        ("secret", "goldmine"),
        ("", "workload"),
    ] {
        let ct = encrypt(keyword, plaintext, 'x').unwrap();
        assert_eq!(*plaintext, decrypt(keyword, &ct).unwrap());
    }
    let ct = encrypt("monarchy", "instruments", 'z').unwrap();
    assert_eq!("instrumentsz", decrypt("monarchy", &ct).unwrap());
}

#[test]
fn case_and_punctuation_do_not_matter() {
    assert_eq!(
        encrypt("playfair example", "Hide The Gold!", 'x'),
        encrypt("playfair example", "hidethegold", 'x'),
    );
    assert_eq!(
        encrypt("KEY word", "a-B c", 'q'),
        encrypt("key WORD", "abc", 'q'),
    );
}

#[test]
fn encrypt_fails_only_on_an_unfit_pad_in_use() {
    assert!(encrypt("key", "aab", 'J').is_none());
    assert!(encrypt("key", "balloon", 'j').is_none());
    assert!(encrypt("key", "aa", '1').is_none());
    assert_eq!("bk", encrypt("key", "ab", '!').unwrap());
}

#[test]
fn decrypt_fails_on_odd_stream_or_unknown_letter() {
    assert!(decrypt("key", "abc!").is_none());
    assert!(decrypt("key", "aj").is_none());
    assert_eq!("", decrypt("key", "").unwrap());
    assert_eq!("", encrypt("key", "", 'x').unwrap());
}

#[test]
fn padding_splits_double_letters() {
    assert_eq!(
        encrypt("playfair example", "tree", 'x').unwrap(),
        encrypt("playfair example", "tre xe", 'x').unwrap(),
    );
    let ct = encrypt("", "aaaa", 'x').unwrap();
    assert_eq!("axaxaxax".len(), ct.len());
    assert_eq!("axaxaxax", decrypt("", &ct).unwrap());
}
