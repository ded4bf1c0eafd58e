use oflh::path::{clean, contains, normalize, Target};

#[test]
fn lexical_cleaning() {
    assert_eq!(clean(b"/a/./b/../c//"), b"/a/c".to_vec());
    assert_eq!(clean(b"/../x"), b"/x".to_vec());
    assert_eq!(clean(b"a/../../b"), b"b".to_vec());
    assert_eq!(clean(b""), b"".to_vec());
    assert_eq!(clean(b"/"), b"/".to_vec());
    assert_eq!(normalize(b"/build//out/."), b"/build/out".to_vec());
    let once = clean(b"x/./y/../../z");
    assert_eq!(clean(&once), once);
}

#[test]
fn containment_is_by_component() {
    assert!(contains(b"/build", b"/build/out/file.dll"));
    assert!(contains(b"/build", b"/build"));
    assert!(contains(b"/build/", b"/build/./x"));
    assert!(!contains(b"/build", b"/builder/x"));
    assert!(!contains(b"/build/out", b"/build"));
    assert!(!contains(b"/build", b"build/x"));
}

#[test]
fn target_matching() {
    let dir = Target { path: b"/build".to_vec(), directory: true, identity: Some((1, 2)) };
    assert!(dir.matches(b"/build/a", None));
    assert!(!dir.matches(b"/other/a", Some((1, 2))));
    let file = Target { path: b"/build/a.dll".to_vec(), directory: false, identity: Some((8, 9)) };
    assert!(file.matches(b"/elsewhere/alias", Some((8, 9))));
    assert!(!file.matches(b"/build/a.dll", Some((8, 10))));
    assert!(file.matches(b"/build/./a.dll", None));
    let unknown = Target { path: b"/build/a.dll".to_vec(), directory: false, identity: None };
    assert!(unknown.matches(b"/build//a.dll", Some((8, 9))));
    assert!(!unknown.matches(b"/build/b.dll", None));
    assert_eq!(unknown.clone().path, b"/build/a.dll".to_vec());
}

#[test]
fn mappings_match_by_identity_or_path() {
    let dir = Target { path: b"/build".to_vec(), directory: true, identity: Some((1, 2)) };
    assert!(dir.keeps_mapping(b"/build/lib.so", 7, 7));
    assert!(!dir.keeps_mapping(b"/other/lib.so", 1, 2));
    let file = Target { path: b"/build/lib.so".to_vec(), directory: false, identity: Some((8, 9)) };
    assert!(file.keeps_mapping(b"/elsewhere", 8, 9));
    assert!(!file.keeps_mapping(b"/build/lib.so", 8, 10));
    let unknown = Target { path: b"/build/lib.so".to_vec(), directory: false, identity: None };
    assert!(unknown.keeps_mapping(b"/build/./lib.so", 0, 0));
    assert!(!unknown.keeps_mapping(b"/build/other.so", 0, 0));
}

#[test]
fn containment_chains_and_cleaning_settles() {
    assert!(contains(b"/a", b"/a/./b"));
    assert!(contains(b"/a/./b", b"/a/b/c/../d"));
    assert!(contains(b"/a", b"/a/b/c/../d"));
    assert!(contains(b"", b"/anything"));
    for raw in [&b"/x/../y//./z/"[..], b"../a/./b", b"/..", b"./", b"a//b/../../c"] {
        let once = clean(raw);
        assert_eq!(clean(&once), once);
    }
}

#[test]
fn cleaning_examples() {
    assert_eq!(clean(b"/a/./b/../c"), b"/a/c".to_vec());
    assert_eq!(clean(b"a/../../b"), b"b".to_vec());
    assert_eq!(clean(b"/.."), b"/".to_vec());
}
