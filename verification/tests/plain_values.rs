use oo7_keyring::attributes::Attributes;
use oo7_keyring::crypto::error::{Error, GpgError, Source, NO_PUBKEY};
use oo7_keyring::crypto::gpg::{
    generate_session_key, get_key_fingerprint, list_gpg_keys, validate_key_id, PublicKeyStatus,
    SecretKeyEntry, SessionKey,
};
use oo7_keyring::file::error::Error as FileError;
use oo7_keyring::io_error::{IoError, IoErrorKind};
use oo7_keyring::object_path::{checked_path, child_path, path_or_root, root_path};
use oo7_keyring::text::{capitalize, decimal_text, sanitize, sentence};

fn attributes(pairs: &[(&str, &str)]) -> Attributes {
    let mut attributes = Attributes::new();
    for (name, value) in pairs {
        attributes = attributes.with(name.to_string(), value.to_string());
    }
    attributes
}

#[test]
fn attributes_are_a_map() {
    let a = attributes(&[("one", "1"), ("two", "2"), ("one", "I")]);
    assert_eq!(a.get(&"one".to_string()), Some(&"I".to_string()));
    assert_eq!(a.get(&"two".to_string()), Some(&"2".to_string()));
    assert_eq!(a.get(&"three".to_string()), None);
    assert!(a.contains_key(&"two".to_string()));
    assert!(!a.contains_key(&"".to_string()));
    assert_eq!(a.entries().len(), 2);
    assert_eq!(a.duplicate().entries(), a.entries());
}

#[test]
fn attributes_lie_within_others() {
    let some = attributes(&[("one", "1")]);
    let more = attributes(&[("one", "1"), ("two", "2")]);
    let other = attributes(&[("one", "2"), ("two", "2")]);
    assert!(some.within(&more));
    assert!(!more.within(&some));
    assert!(!some.within(&other));
    assert!(Attributes::new().within(&some));
    assert!(more.within(&more));
}

#[test]
fn numbers_are_written_in_decimal() {
    assert_eq!(decimal_text(0), "0");
    assert_eq!(decimal_text(7), "7");
    assert_eq!(decimal_text(10), "10");
    assert_eq!(decimal_text(907), "907");
    assert_eq!(decimal_text(u32::MAX), "4294967295");
}

#[test]
fn texts_are_put_together() {
    assert_eq!(sentence("a", "b", "c"), "abc");
    assert_eq!(sentence("", "é", ""), "é");
}

#[test]
fn names_are_capitalized() {
    assert_eq!(capitalize(""), "");
    assert_eq!(capitalize("login"), "Login");
    assert_eq!(capitalize("Login"), "Login");
    assert_eq!(capitalize("1st"), "1st");
    assert_eq!(capitalize("élan"), "Élan");
    assert_eq!(capitalize("ß"), "SS");
}

#[test]
fn labels_are_sanitized() {
    assert_eq!(sanitize("My Keys-2_x"), "My_Keys_2_x");
    assert_eq!(sanitize(""), "");
    assert_eq!(sanitize("é/è"), "___");
    assert_eq!(sanitize("a→b"), "a_b");
}

#[test]
fn object_paths_are_checked() {
    for good in ["/", "/a", "/a/b_9/Z"] {
        assert_eq!(checked_path(good.to_string()), Some(good.to_string()));
        assert_eq!(path_or_root(good.to_string()), good);
    }
    for bad in ["", "a", "/a/", "//", "/a//b", "/a b", "/é", "/a-b"] {
        assert_eq!(checked_path(bad.to_string()), None, "{bad}");
        assert_eq!(path_or_root(bad.to_string()), "/");
    }
    assert_eq!(root_path(), "/");
    assert_eq!(child_path("/a/b", 0), "/a/b/0");
    assert_eq!(child_path("/a/b", 12), "/a/b/12");
    assert_eq!(zvariant::OwnedObjectPath::default().as_str(), "/");
}

#[test]
fn errors_are_shown() {
    let gpg = Error::from(GpgError { code: 11, description: "Bad passphrase".to_string() });
    assert_eq!(gpg.display(), "GPG error: Bad passphrase (gpg error 11)");
    assert!(matches!(gpg.source(), Some(Source::Gpg(e)) if e.code == 11));

    let io = Error::from(IoError::new(IoErrorKind::Other, "broken pipe"));
    assert_eq!(io.display(), "GPG I/O error: broken pipe");
    assert!(matches!(io.source(), Some(Source::Io(_))));

    assert_eq!(Error::NoKey.display(), "No decryption key available");
    assert_eq!(format!("{:?}", Error::NoKey), "NoKey");
    assert!(Error::NoKey.source().is_none());

    let stack = openssl::error::ErrorStack::get();
    let shown = format!("Openssl error: {}", stack);
    let openssl = Error::from(stack);
    assert_eq!(openssl.display(), shown);
    assert!(matches!(openssl.source(), Some(Source::Openssl(_))));

    let unpad = Error::from(cipher::block_padding::UnpadError);
    assert_eq!(unpad.display(), "Wrong padding error: Unpad Error");
    assert!(unpad.source().is_none());

    let pad = Error::from(cipher::inout::PadError);
    assert_eq!(pad.display(), "Wrong padding error: Padding error");
    assert!(pad.source().is_none());
}

#[test]
fn file_errors_are_shown() {
    let crypto = FileError::from(Error::NoKey);
    assert_eq!(crypto.display(), "No decryption key available");
    let io = FileError::from(IoError::new(IoErrorKind::NotFound, "not there"));
    assert_eq!(io.display(), "not there");
    assert_eq!(FileError::NotGpgEncrypted.display(), "The keyring uses another kind of encryption");
    assert_eq!(FileError::NotPasswordBased.display(), "The keyring is not based on a password");
    assert_eq!(FileError::IncorrectSecret.display(), "The secret is incorrect");
    assert_eq!(FileError::PromptDismissed.display(), "The prompt was dismissed");
    assert_eq!(FileError::Malformed("odd".to_string()).display(), "odd");
}

#[test]
fn session_keys_are_random() {
    let Ok(first) = generate_session_key(16) else { panic!() };
    let Ok(second) = generate_session_key(16) else { panic!() };
    assert_eq!(first.to_vec().len(), 16);
    assert_ne!(first.to_vec(), second.to_vec());
    let Ok(empty) = generate_session_key(0) else { panic!() };
    assert!(empty.to_vec().is_empty());
    assert_eq!(SessionKey::new(vec![1, 2]).to_vec(), vec![1, 2]);
}

#[test]
fn unusable_keys_are_found_out() {
    let good = PublicKeyStatus { expired: false, revoked: false, invalid: false, can_encrypt: true };
    assert!(matches!(validate_key_id(Ok(good)), Ok(true)));
    assert!(matches!(validate_key_id(Ok(PublicKeyStatus { expired: true, ..good })), Ok(false)));
    assert!(matches!(validate_key_id(Ok(PublicKeyStatus { revoked: true, ..good })), Ok(false)));
    assert!(matches!(validate_key_id(Ok(PublicKeyStatus { invalid: true, ..good })), Ok(false)));
    assert!(matches!(
        validate_key_id(Ok(PublicKeyStatus { can_encrypt: false, ..good })),
        Ok(false)
    ));
    assert!(matches!(validate_key_id(Err(GpgError::no_pubkey())), Err(Error::Gpg(_))));
}

#[test]
fn fingerprints_are_looked_up() {
    let found = get_key_fingerprint(Ok(Some("ABCD".to_string())));
    assert!(matches!(found, Ok(text) if text == "ABCD"));
    match get_key_fingerprint(Ok(None)) {
        Err(Error::Gpg(e)) => {
            assert_eq!(e.code, NO_PUBKEY);
            assert_eq!(e.display(), "No public key (gpg error 9)");
        }
        _ => panic!("the key has no fingerprint"),
    }
    let failed = GpgError { code: 1, description: "General error".to_string() };
    assert!(matches!(get_key_fingerprint(Err(failed)), Err(Error::Gpg(e)) if e.code == 1));
}

#[test]
fn keys_are_listed() {
    let text = |s: &str| Some(s.to_string());
    let found = vec![
        Ok(SecretKeyEntry {
            fingerprint: text("AAAA"),
            user_ids: vec![text("alice"), text("alice2")],
            subkeys_on_card: vec![false, true],
        }),
        Err(GpgError { code: 1, description: "General error".to_string() }),
        Ok(SecretKeyEntry {
            fingerprint: None,
            user_ids: vec![None, text("bob")],
            subkeys_on_card: vec![false],
        }),
        Ok(SecretKeyEntry {
            fingerprint: text("CCCC"),
            user_ids: vec![],
            subkeys_on_card: vec![],
        }),
    ];
    let Ok(rows) = list_gpg_keys(Ok(found)) else { panic!() };
    assert_eq!(
        rows,
        vec![
            ("AAAA".to_string(), "alice".to_string(), true),
            ("<no fingerprint>".to_string(), "<no user ID>".to_string(), false),
            ("CCCC".to_string(), "<no user ID>".to_string(), false),
        ]
    );
    let failed = GpgError { code: 1, description: "General error".to_string() };
    assert!(list_gpg_keys(Err(failed)).is_err());
}
