use std::path::Path;

use sitevik::config::{bind_addr_from_value, root_from_value, spa_from_value};
use sitevik::{Config, SocketAddress};

/// The bytes of a path, as the environment would hand them over.
fn path_bytes(path: &Path) -> Vec<u8> {
    path.to_str().unwrap().as_bytes().to_vec()
}

/// Whether `path` is a readable directory, as startup checks it.
fn readable_dir(path: &Path) -> bool {
    path.read_dir().is_ok() && path.is_dir()
}

/// `0.0.0.0:8080`, the default bind address, as a socket address.
fn default_socket_address() -> SocketAddress {
    SocketAddress::V4 { octets: [0, 0, 0, 0], port: 8080 }
}

#[test]
fn root_value_defaults_to_dist() {
    assert_eq!(root_from_value(None), b"./dist".to_vec());
}

#[test]
fn bind_and_spa_defaults_are_applied() {
    let root = tempfile::tempdir().unwrap();
    assert_eq!(bind_addr_from_value(None), b"0.0.0.0:8080".to_vec());
    let config = Config::from_values(
        Some(path_bytes(root.path())),
        readable_dir(root.path()),
        Some(default_socket_address()),
        None,
    )
    .unwrap();

    assert_eq!(config.root, path_bytes(root.path()));
    assert_eq!(config.bind_addr, default_socket_address());
    assert!(!config.spa);
}

#[test]
fn spa_boolean_is_strict() {
    let root = tempfile::tempdir().unwrap();
    let error = Config::from_values(
        Some(path_bytes(root.path())),
        readable_dir(root.path()),
        Some(default_socket_address()),
        Some(b"yes".to_vec()),
    )
    .unwrap_err();

    assert!(error.message().contains("SITEVIK_SPA"));
}

#[test]
fn spa_true_is_accepted() {
    let root = tempfile::tempdir().unwrap();
    let config = Config::from_values(
        Some(path_bytes(root.path())),
        readable_dir(root.path()),
        Some(default_socket_address()),
        Some(b"true".to_vec()),
    )
    .unwrap();

    assert!(config.spa);
}

#[test]
fn non_unicode_spa_value_is_rejected() {
    let root = tempfile::tempdir().unwrap();
    let error = Config::from_values(
        Some(path_bytes(root.path())),
        readable_dir(root.path()),
        Some(default_socket_address()),
        Some(vec![0xff]),
    )
    .unwrap_err();

    assert!(error.message().contains("SITEVIK_SPA"));
}

#[test]
fn invalid_bind_address_is_rejected() {
    let root = tempfile::tempdir().unwrap();
    assert_eq!(bind_addr_from_value(Some(b"localhost".to_vec())), b"localhost".to_vec());
    let error = Config::from_values(
        Some(path_bytes(root.path())),
        readable_dir(root.path()),
        // `localhost` is a host name, not a socket address: the server reads none.
        None,
        None,
    )
    .unwrap_err();

    assert!(error.message().contains("BIND_ADDR"));
}

#[test]
fn non_directory_root_is_rejected() {
    let root = tempfile::NamedTempFile::new().unwrap();
    let error = Config::from_values(
        Some(path_bytes(root.path())),
        readable_dir(root.path()),
        Some(default_socket_address()),
        None,
    )
    .unwrap_err();

    assert!(error.message().contains("SITEVIK_ROOT"));
}

#[test]
fn given_root_value_is_kept() {
    assert_eq!(root_from_value(Some(b"/srv/site".to_vec())), b"/srv/site".to_vec());
}

#[test]
fn given_bind_addr_value_is_kept() {
    assert_eq!(bind_addr_from_value(Some(b"127.0.0.1:3000".to_vec())), b"127.0.0.1:3000".to_vec());
}

#[test]
fn spa_values_read_strictly() {
    assert!(matches!(spa_from_value(None), Ok(false)));
    assert!(matches!(spa_from_value(Some(b"false".to_vec())), Ok(false)));
    assert!(matches!(spa_from_value(Some(b"true".to_vec())), Ok(true)));
    for bad in [&b"TRUE"[..], b"1", b"", b"true ", b" false", b"yes"] {
        let error = spa_from_value(Some(bad.to_vec())).unwrap_err();
        assert_eq!(error.message(), "invalid SITEVIK_SPA");
    }
}

#[test]
fn root_error_comes_before_other_errors() {
    let error = Config::from_values(None, false, None, Some(b"yes".to_vec())).unwrap_err();
    assert_eq!(error.message(), "invalid SITEVIK_ROOT");
}

#[test]
fn bind_addr_error_comes_before_spa_error() {
    let error = Config::from_values(None, true, None, Some(b"yes".to_vec())).unwrap_err();
    assert_eq!(error.message(), "invalid BIND_ADDR");
}

#[test]
fn unset_root_defaults_in_the_config() {
    let v6 = SocketAddress::V6 { segments: [0, 0, 0, 0, 0, 0, 0, 1], port: 80, flowinfo: 0, scope_id: 0 };
    let config = Config::from_values(None, true, Some(v6), Some(b"false".to_vec())).unwrap();
    assert_eq!(config.root, b"./dist".to_vec());
    assert_eq!(config.bind_addr, v6);
    assert!(!config.spa);
}

