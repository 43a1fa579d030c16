use pnpm_lock::keys::parse_dep_path;

#[test]
fn legacy_plain_key() {
    let dp = parse_dep_path("/is-number/6.0.0").unwrap();
    assert_eq!(dp.name, "is-number");
    assert_eq!(dp.version, "6.0.0");
    assert_eq!(dp.peer_suffix, None);
    assert_eq!(dp.patch_hash, None);
}

#[test]
fn legacy_key_with_one_suffix_chunk() {
    let dp = parse_dep_path("/is-odd/3.0.1_nrrwwz7lemethtlvvm75r5bmhq").unwrap();
    assert_eq!(dp.name, "is-odd");
    assert_eq!(dp.version, "3.0.1");
    assert_eq!(dp.peer_suffix, Some("nrrwwz7lemethtlvvm75r5bmhq"));
    assert_eq!(dp.patch_hash, Some("nrrwwz7lemethtlvvm75r5bmhq"));
}

#[test]
fn legacy_key_with_peer_and_patch_chunks() {
    let dp = parse_dep_path(
        "/moleculer/0.14.28_5pk7ojv7qbqha75ozglk4y4f74_kumip57h7zlinbhp4gz3jrbqry",
    )
    .unwrap();
    assert_eq!(dp.name, "moleculer");
    assert_eq!(dp.version, "0.14.28");
    assert_eq!(
        dp.peer_suffix,
        Some("5pk7ojv7qbqha75ozglk4y4f74_kumip57h7zlinbhp4gz3jrbqry")
    );
    assert_eq!(dp.patch_hash, Some("kumip57h7zlinbhp4gz3jrbqry"));
}

#[test]
fn legacy_scoped_key() {
    let dp = parse_dep_path("/@babel/core/7.20.12_3hyn7hbvzkemudbydlwjmrb65y").unwrap();
    assert_eq!(dp.name, "@babel/core");
    assert_eq!(dp.version, "7.20.12");
    assert_eq!(dp.patch_hash, Some("3hyn7hbvzkemudbydlwjmrb65y"));
}

#[test]
fn legacy_scoped_key_without_suffix() {
    let dp = parse_dep_path("/@scope/child/1.0.0").unwrap();
    assert_eq!(dp.name, "@scope/child");
    assert_eq!(dp.version, "1.0.0");
    assert_eq!(dp.peer_suffix, None);
    assert_eq!(dp.patch_hash, None);
}

#[test]
fn modern_key_with_patch_annotation() {
    let dp = parse_dep_path("/lodash@4.17.21(patch_hash=lgum37zgng4nfkynzh3cs7wdeq)").unwrap();
    assert_eq!(dp.name, "lodash");
    assert_eq!(dp.version, "4.17.21");
    assert_eq!(dp.peer_suffix, Some("(patch_hash=lgum37zgng4nfkynzh3cs7wdeq)"));
    assert_eq!(dp.patch_hash, Some("lgum37zgng4nfkynzh3cs7wdeq"));
}

#[test]
fn modern_scoped_key_with_patch_and_peer_annotations() {
    let dp = parse_dep_path(
        "/@babel/helper-string-parser@7.19.4(patch_hash=wjhgmpzh47qmycrzgpeyoyh3ce)(@babel/core@7.21.0)",
    )
    .unwrap();
    assert_eq!(dp.name, "@babel/helper-string-parser");
    assert_eq!(dp.version, "7.19.4");
    assert_eq!(
        dp.peer_suffix,
        Some("(patch_hash=wjhgmpzh47qmycrzgpeyoyh3ce)(@babel/core@7.21.0)")
    );
    assert_eq!(dp.patch_hash, Some("wjhgmpzh47qmycrzgpeyoyh3ce"));
}

#[test]
fn modern_key_with_peers_only_has_no_patch_hash() {
    let dp = parse_dep_path("/next@13.0.4(react-dom@18.2.0)(react@18.2.0)").unwrap();
    assert_eq!(dp.name, "next");
    assert_eq!(dp.version, "13.0.4");
    assert_eq!(dp.peer_suffix, Some("(react-dom@18.2.0)(react@18.2.0)"));
    assert_eq!(dp.patch_hash, None);
}

#[test]
fn malformed_keys_do_not_parse() {
    assert!(parse_dep_path("").is_none());
    assert!(parse_dep_path("/").is_none());
    assert!(parse_dep_path("lodash@4.17.21").is_none());
    assert!(parse_dep_path("/lodash").is_none());
    assert!(parse_dep_path("/@scope").is_none());
    assert!(parse_dep_path("//1.0.0").is_none());
    assert!(parse_dep_path("github.com/owner/repo/commitsha").is_none());
}
