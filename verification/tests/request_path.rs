use sitevik::{hex_value, safe_request_path};

#[test]
fn hex_digits_have_their_values() {
    assert_eq!(hex_value(b'0'), Some(0));
    assert_eq!(hex_value(b'9'), Some(9));
    assert_eq!(hex_value(b'a'), Some(10));
    assert_eq!(hex_value(b'f'), Some(15));
    assert_eq!(hex_value(b'A'), Some(10));
    assert_eq!(hex_value(b'F'), Some(15));
    assert_eq!(hex_value(b'e'), hex_value(b'E'));
}

#[test]
fn non_hex_bytes_have_no_value() {
    for byte in [b'g', b'G', b'/', b'.', b'%', b' ', 0u8, 0xff] {
        assert_eq!(hex_value(byte), None, "{byte}");
    }
}

#[test]
fn ordinary_paths_are_safe() {
    for path in ["/", "", "/about", "/about/", "/assets/app.js", "/.site-meta", "/a..b", "/...", "/..a", "/%41bout", "/caf%C3%A9"] {
        assert!(safe_request_path(path), "{path}");
    }
}

#[test]
fn traversal_paths_are_unsafe() {
    for path in [
        "/../private/secret.txt",
        "/%2e%2e/private/secret.txt",
        "/%2E%2E/private/secret.txt",
        "/%2e%2e%2fprivate/secret.txt",
        "..",
        "/a/..",
        "/a/../b",
        "/.%2e/x",
    ] {
        assert!(!safe_request_path(path), "{path}");
    }
}

#[test]
fn nul_characters_are_unsafe() {
    assert!(!safe_request_path("/%00"));
    assert!(!safe_request_path("/a\0b"));
}

#[test]
fn malformed_escapes_are_unsafe() {
    for path in ["/%", "/%2", "/a%2", "/%zz", "/%2g", "/%g2"] {
        assert!(!safe_request_path(path), "{path}");
    }
}

#[test]
fn escapes_that_decode_to_invalid_utf8_are_unsafe() {
    assert!(!safe_request_path("/%ff"));
    assert!(!safe_request_path("/%C3"));
    assert!(!safe_request_path("/%c0%af"));
}

#[test]
fn escape_at_the_very_end_is_read() {
    assert!(safe_request_path("/a%41"));
    assert!(!safe_request_path("/a%4"));
}
