use abridged_block::dirs::{hex_str, join_path, Algorithm, Directories};

#[test]
fn test_default_directories() {
    let expected = Directories {
        db: "$HOME/.parity".to_string(),
        keys: "$HOME/.parity/keys".to_string(),
        signer: "$HOME/.parity/signer".to_string(),
        dapps: "$HOME/.parity/dapps".to_string(),
    };
    assert_eq!(expected, Directories::default());
}

#[test]
fn ipc_path_under_db() {
    let dirs = Directories::default();
    assert_eq!(dirs.ipc_path(), "$HOME/.parity/ipc".to_string());
}

#[test]
fn user_defaults_path_with_and_without_fork() {
    let dirs = Directories::default();
    assert_eq!(
        dirs.user_defaults_path(&None),
        "$HOME/.parity/user_defaults".to_string()
    );
    assert_eq!(
        dirs.user_defaults_path(&Some("morden".to_string())),
        "$HOME/.parity/user_defaults_morden".to_string()
    );
}

#[test]
fn db_version_path_layout() {
    let mut dirs = Directories::default();
    dirs.db = "/data".to_string();
    let mut genesis = vec![0u8; 32];
    genesis[..8].copy_from_slice(&[0x01, 0x23, 0x45, 0x67, 0x89, 0xab, 0xcd, 0xef]);
    assert_eq!(
        dirs.db_version_path(&genesis, None, Algorithm::Archive),
        "/data/0123456789abcdef/v5.3-sec-archive".to_string()
    );
    let fork = "frontier".to_string();
    assert_eq!(
        dirs.db_version_path(&genesis, Some(&fork), Algorithm::OverlayRecent),
        "/data/0123456789abcdef-frontier/v5.3-sec-overlayrecent".to_string()
    );
}

#[test]
fn client_path_appends_db() {
    let mut dirs = Directories::default();
    dirs.db = "/data".to_string();
    let genesis = vec![0u8; 32];
    assert_eq!(
        dirs.client_path(&genesis, None, Algorithm::EarlyMerge),
        "/data/0000000000000000/v5.3-sec-earlymerge/db".to_string()
    );
}

#[test]
fn pruning_algorithm_names() {
    assert_eq!(Algorithm::Archive.as_internal_name_str(), "archive");
    assert_eq!(Algorithm::EarlyMerge.as_internal_name_str(), "earlymerge");
    assert_eq!(Algorithm::OverlayRecent.as_internal_name_str(), "overlayrecent");
    assert_eq!(Algorithm::RefCounted.as_internal_name_str(), "refcounted");
}

#[test]
fn hex_spelling_is_exact() {
    assert_eq!(hex_str(&[]), "".to_string());
    assert_eq!(hex_str(&[0x0f, 0xa0, 0x00, 0xff]), "0fa000ff".to_string());
}

#[test]
fn with_home_substitutes_prefix_only() {
    let dirs = Directories::default();
    let at_home = dirs.with_home("/home/user");
    assert_eq!(at_home.db, "/home/user/.parity".to_string());
    assert_eq!(at_home.keys, "/home/user/.parity/keys".to_string());
    assert_eq!(at_home.signer, "/home/user/.parity/signer".to_string());
    assert_eq!(at_home.dapps, "/home/user/.parity/dapps".to_string());

    let mut fixed = Directories::default();
    fixed.db = "/var/lib/node".to_string();
    let fixed_at_home = fixed.with_home("/home/user");
    assert_eq!(fixed_at_home.db, "/var/lib/node".to_string());
}

#[test]
fn should_resolve_dapp() {
    // The closest library surface to dapp resolution: a dapp named by its
    // 64-digit content hash resolves to a path under the dapps directory.
    let dirs = Directories::default();
    let dapp = "1472a9e190620cdf6b31f383373e45efcfe869a820c91f9ccd7eb9fb45e4985d";
    let path = join_path(&dirs.dapps, dapp);
    assert_eq!(
        path,
        "$HOME/.parity/dapps/1472a9e190620cdf6b31f383373e45efcfe869a820c91f9ccd7eb9fb45e4985d"
            .to_string()
    );
    assert_eq!(dapp.len(), 64);
}
