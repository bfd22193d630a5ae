use librtbit_lsd::addr::{SocketAddr, SocketAddrV4, SocketAddrV6};
use librtbit_lsd::id20::Id20;
use librtbit_lsd::text::{decimal_text, eq_bytes, eq_ignore_ascii_case};

#[test]
fn identifiers_are_read_in_either_case() {
    let lower = Id20::from_str("00ff10abcdef0123456789abcdef0123456789ab").unwrap();
    let upper = Id20::from_str("00FF10ABCDEF0123456789ABCDEF0123456789AB").unwrap();
    assert_eq!(lower, upper);
    assert_eq!(&lower.0[..4], &[0x00, 0xff, 0x10, 0xab]);
    assert_eq!(upper.as_string(), "00ff10abcdef0123456789abcdef0123456789ab");
}

#[test]
fn other_texts_are_no_identifiers() {
    for text in [
        "",
        "00",
        "g0ff10abcdef0123456789abcdef0123456789ab",
        "00ff10abcdef0123456789abcdef0123456789a",
        "00ff10abcdef0123456789abcdef0123456789abc",
        "aaaqeayeaudaocajbifqydiob4ibceqt",
        "AAAQEAYEAUDAOCAJBIFQYDIOB4IBCEQ1",
        "AAAQEAYEAUDAOCAJBIFQYDIOB4IBCEQ=",
        "================================",
    ] {
        assert!(Id20::from_str(text).is_err(), "{text}");
    }
}

#[test]
fn errors_of_identifiers_have_words() {
    let words = |text: &str| Id20::from_str(text).unwrap_err().0;
    assert_eq!(words("00"), "expected a hex string of length 40 or 32");
    let short = "base32 string of fewer than 20 bytes";
    let decoded = |text: &str, fault: &str| {
        assert_eq!(words(text), format!("fail to decode base32 string {text}: {fault}"));
    };
    // Blocks of one, two, three and four bytes.
    assert_eq!(words("AAAQEAYEAUDAOCAJBIFQYDIOB4======"), short);
    assert_eq!(words("AAAQEAYEAUDAOCAJBIFQYDIOAAAA===="), short);
    assert_eq!(words("AAAQEAYEAUDAOCAJBIFQYDIOAAAAC==="), short);
    assert_eq!(words("AAAQEAYEAUDAOCAJBIFQYDIOAAAAAAI="), short);
    assert_eq!(words("AA======AAAQEAYEAUDAOCAJBIFQYDIO"), short);
    assert_eq!(words("AA======AA======AA======AA======"), short);
    // Bits beyond the last whole byte.
    decoded("AAAQEAYEAUDAOCAJBIFQYDIOAB======", "non-zero trailing bits at 25");
    decoded("AAAQEAYEAUDAOCAJBIFQYDIOAAAI====", "non-zero trailing bits at 27");
    decoded("AAAQEAYEAUDAOCAJBIFQYDIOAAAAB===", "non-zero trailing bits at 28");
    decoded("AAAQEAYEAUDAOCAJBIFQYDIOAAAAAAE=", "non-zero trailing bits at 30");
    // Other numbers of padding characters, and padding in the wrong place.
    decoded("AAAQEAYEAUDAOCAJBIFQYDIOA=======", "invalid padding length at 25");
    decoded("AAAQEAYEAUDAOCAJBIFQYDIOAAA=====", "invalid padding length at 27");
    decoded("AAAQEAYEAUDAOCAJBIFQYDIOAAAAAA==", "invalid padding length at 30");
    decoded("AAAQEAYEAUDAOCAJBIFQYDIO========", "invalid padding length at 24");
    decoded("AAAQEAYEAUDAOCAJBIFQYDIOA=A=====", "invalid padding length at 27");
    decoded("AAAQEAYEAUDAOCAJBIFQYDIO=AAAAAAA", "invalid symbol at 24");
    decoded("AA======AAAQEAYEAUDAOCAJBIFQYDI1", "invalid symbol at 31");
    // Bytes that are no base32 digits, beside padding.
    decoded("aaaqeayeaudaocajbifqydiob4======", "invalid symbol at 0");
}

#[test]
fn identifiers_read_back() {
    let mut bytes = [0u8; 20];
    for i in 0..20 {
        bytes[i] = (i * 13 + 7) as u8;
    }
    let id = Id20(bytes);
    assert_eq!(Id20::from_str(&id.as_string()), Ok(id));
    bytes[0] = bytes[0].wrapping_add(1);
    assert_ne!(Id20(bytes), id);
}

#[test]
fn base32_of_ones_is_all_ones() {
    let id = Id20::from_str("77777777777777777777777777777777").unwrap();
    assert_eq!(id, Id20([0xff; 20]));
}

#[test]
fn letters_are_compared_without_case() {
    assert!(eq_ignore_ascii_case(b"InfoHash", b"infohash"));
    assert!(!eq_ignore_ascii_case(b"infohash", b"infohas"));
    assert!(!eq_ignore_ascii_case(b"@", b"`"));
    assert!(!eq_ignore_ascii_case(b"[", b"{"));
    assert!(!eq_ignore_ascii_case(b"\xc0", b"\xe0"));
    assert!(eq_ignore_ascii_case(b"", b""));
}

#[test]
fn bytes_are_compared_with_case() {
    assert!(eq_bytes(b"abc", b"abc"));
    assert!(!eq_bytes(b"abc", b"abC"));
    assert!(!eq_bytes(b"abc", b"ab"));
}

#[test]
fn numbers_are_written_in_decimal() {
    for n in [0u32, 9, 10, 99, 100, 6771, 65535, 4294967295] {
        assert_eq!(decimal_text(n), n.to_string());
    }
}

#[test]
fn a_port_is_set_and_nothing_else() {
    let mut v4 = SocketAddr::V4(SocketAddrV4 { ip: 5, port: 1 });
    v4.set_port(2);
    assert_eq!(v4, SocketAddr::V4(SocketAddrV4 { ip: 5, port: 2 }));
    assert_eq!(v4.port(), 2);
    assert!(v4.is_ipv4() && !v4.is_ipv6());
    let mut v6 = SocketAddr::V6(SocketAddrV6 { ip: 5, port: 1, flowinfo: 3, scope_id: 4 });
    v6.set_port(2);
    assert_eq!(v6, SocketAddr::V6(SocketAddrV6 { ip: 5, port: 2, flowinfo: 3, scope_id: 4 }));
    assert!(v6.is_ipv6() && !v6.is_ipv4());
}
