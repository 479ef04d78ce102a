//! Names: which are allowed, and what paths they make.

use filesystem_store::error::ErrorKind;
use filesystem_store::namespace::{check_namespace_key_validity, is_valid_kvstore_str};
use filesystem_store::path::{classify_name, get_dest_dir_path, Artifact, StorePath};
use filesystem_store::store::FilesystemStore;
use lightning::util::persist::{KVSTORE_NAMESPACE_KEY_ALPHABET, KVSTORE_NAMESPACE_KEY_MAX_LEN};

fn parts(path: &StorePath) -> Vec<Vec<u8>> {
    (0..path.len()).map(|i| path.component(i).clone()).collect()
}

fn refusal(p: &str, s: &str, key: Option<&str>) -> String {
    let error = check_namespace_key_validity(p, s, key, "test").unwrap_err();
    assert_eq!(error.kind, ErrorKind::Other);
    error.message.unwrap()
}

#[test]
fn exactly_the_alphabet_is_allowed() {
    for c in 0..0x300u32 {
        let c = char::from_u32(c).unwrap();
        let text = format!("a{}b", c);
        assert_eq!(is_valid_kvstore_str(&text), KVSTORE_NAMESPACE_KEY_ALPHABET.contains(c));
    }
    assert!(is_valid_kvstore_str(KVSTORE_NAMESPACE_KEY_ALPHABET));
    assert!(is_valid_kvstore_str(""));
}

#[test]
fn the_longest_name_has_120_characters() {
    assert_eq!(KVSTORE_NAMESPACE_KEY_MAX_LEN, 120);
    assert!(is_valid_kvstore_str(&"A".repeat(120)));
    assert!(!is_valid_kvstore_str(&"A".repeat(121)));
}

#[test]
fn namespaces_and_keys_are_checked() {
    assert!(check_namespace_key_validity("p", "s", Some("k"), "test").is_ok());
    assert!(check_namespace_key_validity("p", "", Some("k"), "test").is_ok());
    assert!(check_namespace_key_validity("", "", Some("k"), "test").is_ok());
    assert!(check_namespace_key_validity("", "", None, "test").is_ok());
    assert!(check_namespace_key_validity("p", "s", None, "test").is_ok());
    assert_eq!(refusal("p", "s", Some("")), "Failed to test p/s/: key may not be empty.");
    assert_eq!(refusal("", "s", Some("")), "Failed to test /s/: key may not be empty.");
    assert_eq!(
        refusal("", "s", Some("k")),
        "Failed to test /s/k: primary namespace may not be empty if a non-empty secondary \
         namespace is given.",
    );
    assert_eq!(
        refusal("", "s", None),
        "Failed to test /s: primary namespace may not be empty if a non-empty secondary namespace \
         is given.",
    );
    let invalid = "primary namespace, secondary namespace, and key must be valid.";
    assert_eq!(refusal("p.", "s", Some("k")), format!("Failed to test p./s/k: {}", invalid));
    assert_eq!(refusal("p", "s/", Some("k")), format!("Failed to test p/s//k: {}", invalid));
    assert_eq!(refusal("p", "s", Some("k ")), format!("Failed to test p/s/k : {}", invalid));
    assert_eq!(
        refusal("p.", "s", None),
        "Failed to test p./s: primary namespace and secondary namespace must be valid.",
    );
}

#[test]
fn messages_show_only_printable_characters() {
    assert_eq!(
        refusal("p\n", "s", Some("\u{1F496}\t")),
        "Failed to test p\u{FFFD}/s/\u{1F496}\u{FFFD}: primary namespace, secondary namespace, and \
         key must be valid.",
    );
}

#[test]
fn paths_have_a_component_for_each_name() {
    assert_eq!(parts(&StorePath::root()), Vec::<Vec<u8>>::new());
    assert_eq!(parts(&get_dest_dir_path("", "")), Vec::<Vec<u8>>::new());
    assert_eq!(parts(&get_dest_dir_path("p", "")), vec![b"p".to_vec()]);
    assert_eq!(parts(&get_dest_dir_path("p", "s")), vec![b"p".to_vec(), b"s".to_vec()]);
    let path =
        FilesystemStore::get_checked_dest_file_path("p", "s", Some("key"), "read").unwrap();
    assert_eq!(parts(&path), vec![b"p".to_vec(), b"s".to_vec(), b"key".to_vec()]);
    assert_eq!(parts(&path.parent()), vec![b"p".to_vec(), b"s".to_vec()]);
    let dir = FilesystemStore::get_checked_dest_file_path("p", "", None, "list").unwrap();
    assert_eq!(parts(&dir), vec![b"p".to_vec()]);
    assert!(FilesystemStore::get_checked_dest_file_path("", "s", None, "list").is_err());
}

#[test]
fn paths_are_compared_by_their_components() {
    let path = get_dest_dir_path("p", "s");
    assert!(path.same_as(&path.duplicate()));
    assert!(!path.same_as(&path.parent()));
    assert!(!path.same_as(&get_dest_dir_path("p", "t")));
    assert!(!get_dest_dir_path("ps", "").same_as(&path));
}

#[test]
fn artifacts_are_known_by_their_extension() {
    assert_eq!(classify_name(b"key.0.tmp"), Some(Artifact::Temporary));
    assert_eq!(classify_name(b"key.17.trash"), Some(Artifact::Trash));
    assert_eq!(classify_name(b"key.tmp"), Some(Artifact::Temporary));
    assert_eq!(classify_name(b"..tmp"), Some(Artifact::Temporary));
    assert_eq!(classify_name(b"key"), None);
    assert_eq!(classify_name(b"tmp"), None);
    assert_eq!(classify_name(b".tmp"), None);
    assert_eq!(classify_name(b".trash"), None);
    assert_eq!(classify_name(b".."), None);
    assert_eq!(classify_name(b""), None);
    assert_eq!(classify_name(b"key.tmp.0"), None);
    assert_eq!(classify_name(b"key.TMP"), None);
    assert_eq!(classify_name(b"key.tmp."), None);
    assert_eq!(classify_name(b"\xff.trash"), Some(Artifact::Trash));
}
