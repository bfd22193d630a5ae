use librtbit_lsd::addr::{
    lsd_ipv4, lsd_ipv6, SocketAddr, SocketAddrV4, LSD_IPV4_BITS, LSD_IPV6_BITS, LSD_PORT,
};
use librtbit_lsd::announce::{
    announce_message, LSD_IPV4_HOST, LSD_IPV6_HOST, RECV_BUFFER_LEN,
};
use librtbit_lsd::id20::Id20;
use librtbit_lsd::message::{
    read_announcement, try_parse_bt_search, BtSearchAnnounceMessage, ParseError, MAX_HEADERS,
};
use librtbit_lsd::request::{Header, Request};

/// The addresses that the texts in these tests stand for.
fn parse_host(text: &str) -> Result<SocketAddr, String> {
    match text {
        "239.192.152.143:6771" => Ok(SocketAddr::V4(lsd_ipv4())),
        "[ff15::efc0:988f]:6771" => Ok(SocketAddr::V6(lsd_ipv6())),
        "10.0.0.1:80" => Ok(SocketAddr::V4(SocketAddrV4 { ip: 0x0a00_0001, port: 80 })),
        _ => Err(format!("no address: {text}")),
    }
}

fn parse(buf: &[u8]) -> Result<BtSearchAnnounceMessage, ParseError> {
    try_parse_bt_search(buf, MAX_HEADERS, &parse_host)
}

/// A message with these parts.
fn build_bt_search_msg(host: &str, port: u16, infohash: &str, cookie: Option<u32>) -> Vec<u8> {
    let mut msg = String::new();
    msg.push_str("BT-SEARCH * HTTP/1.1\r\n");
    msg.push_str(&format!("Host: {host}\r\n"));
    msg.push_str(&format!("Port: {port}\r\n"));
    msg.push_str(&format!("Infohash: {infohash}\r\n"));
    if let Some(c) = cookie {
        msg.push_str(&format!("cookie: {c}\r\n"));
    }
    msg.push_str("\r\n");
    msg.into_bytes()
}

/// A message with these header lines.
fn with_lines(lines: &[&str]) -> Vec<u8> {
    let mut msg = String::from("BT-SEARCH * HTTP/1.1\r\n");
    for line in lines {
        msg.push_str(line);
        msg.push_str("\r\n");
    }
    msg.push_str("\r\n");
    msg.into_bytes()
}

const HOST: &str = "Host: 239.192.152.143:6771";
const PORT: &str = "Port: 6881";
const INFOHASH: &str = "Infohash: aabbccddee11223344556677889900aabbccddee";

#[test]
fn test_lsd_announce_message_format() {
    let info_hash = Id20::from_str("0123456789abcdef0123456789abcdef01234567").unwrap();
    let port = 6881u16;
    let cookie = 42u32;
    let info_hash_hex = info_hash.as_string();

    let expected_host_v4 = "239.192.152.143:6771";
    let expected = format!(
        "BT-SEARCH * HTTP/1.1\r\n\
         Host: {expected_host_v4}\r\n\
         Port: {port}\r\n\
         Infohash: {info_hash_hex}\r\n\
         cookie: {cookie}\r\n\
         \r\n\
         \r\n"
    );
    assert_eq!(announce_message(cookie, &info_hash, port, false), expected);

    let parsed = parse(expected.as_bytes()).unwrap();
    assert_eq!(parsed.hash, info_hash);
    assert_eq!(parsed.port, port);
    assert_eq!(parsed.our_cookie, Some(cookie));
    assert_eq!(parsed.host, SocketAddr::V4(lsd_ipv4()));
}

#[test]
fn test_lsd_parse_announcement() {
    let info_hash_hex = "aabbccddee11223344556677889900aabbccddee";
    let info_hash = Id20::from_str(info_hash_hex).unwrap();
    let buf = build_bt_search_msg("239.192.152.143:6771", 51413, info_hash_hex, Some(99));

    let parsed = parse(&buf).unwrap();
    assert_eq!(parsed.hash, info_hash);
    assert_eq!(parsed.port, 51413);
    assert_eq!(parsed.our_cookie, Some(99));
    assert_eq!(parsed.host, SocketAddr::V4(SocketAddrV4 { ip: 0xefc0_988f, port: 6771 }));
}

#[test]
fn test_lsd_parse_announcement_ipv6_host() {
    let info_hash_hex = "0000000000000000000000000000000000000001";
    let info_hash = Id20::from_str(info_hash_hex).unwrap();
    let ipv6_host = "[ff15::efc0:988f]:6771";
    let buf = build_bt_search_msg(ipv6_host, 8080, info_hash_hex, None);

    let parsed = parse(&buf).unwrap();
    assert_eq!(parsed.hash, info_hash);
    assert_eq!(parsed.port, 8080);
    assert_eq!(parsed.our_cookie, None);
    assert_eq!(parsed.host, SocketAddr::V6(lsd_ipv6()));
}

#[test]
fn test_lsd_parse_invalid_announcement_wrong_method() {
    let msg = b"GET * HTTP/1.1\r\n\
                 Host: 239.192.152.143:6771\r\n\
                 Port: 6881\r\n\
                 Infohash: aabbccddee11223344556677889900aabbccddee\r\n\
                 \r\n";
    let result = parse(msg);
    assert!(result.is_err());
    assert!(result.unwrap_err().message().contains("expecting BT-SEARCH"));
}

#[test]
fn test_lsd_parse_invalid_announcement_missing_host() {
    let msg = b"BT-SEARCH * HTTP/1.1\r\n\
                 Port: 6881\r\n\
                 Infohash: aabbccddee11223344556677889900aabbccddee\r\n\
                 \r\n";
    let result = parse(msg);
    assert!(result.is_err());
}

#[test]
fn test_lsd_parse_invalid_announcement_missing_port() {
    let msg = b"BT-SEARCH * HTTP/1.1\r\n\
                 Host: 239.192.152.143:6771\r\n\
                 Infohash: aabbccddee11223344556677889900aabbccddee\r\n\
                 \r\n";
    let result = parse(msg);
    assert!(result.is_err());
}

#[test]
fn test_lsd_parse_invalid_announcement_missing_infohash() {
    let msg = b"BT-SEARCH * HTTP/1.1\r\n\
                 Host: 239.192.152.143:6771\r\n\
                 Port: 6881\r\n\
                 \r\n";
    let result = parse(msg);
    assert!(result.is_err());
}

#[test]
fn test_lsd_parse_invalid_announcement_bad_infohash() {
    let msg = b"BT-SEARCH * HTTP/1.1\r\n\
                 Host: 239.192.152.143:6771\r\n\
                 Port: 6881\r\n\
                 Infohash: not_a_valid_hash\r\n\
                 \r\n";
    let result = parse(msg);
    assert!(result.is_err());
}

#[test]
fn test_lsd_parse_invalid_announcement_bad_port() {
    let msg = b"BT-SEARCH * HTTP/1.1\r\n\
                 Host: 239.192.152.143:6771\r\n\
                 Port: notaport\r\n\
                 Infohash: aabbccddee11223344556677889900aabbccddee\r\n\
                 \r\n";
    let result = parse(msg);
    assert!(result.is_err());
}

#[test]
fn test_lsd_info_hash_matching() {
    let info_hash_hex = "deadbeefdeadbeefdeadbeefdeadbeefdeadbeef";
    let expected = Id20::from_str(info_hash_hex).unwrap();
    let buf = build_bt_search_msg("239.192.152.143:6771", 6881, info_hash_hex, None);

    let parsed = parse(&buf).unwrap();
    assert_eq!(parsed.hash, expected);
    assert_eq!(parsed.hash.as_string(), info_hash_hex);
}

#[test]
fn test_lsd_port_extraction() {
    for port in [1u16, 80, 443, 6881, 51413, 65535] {
        let buf = build_bt_search_msg(
            "239.192.152.143:6771",
            port,
            "0000000000000000000000000000000000000000",
            None,
        );
        let parsed = parse(&buf).unwrap();
        assert_eq!(parsed.port, port, "failed for port {port}");
    }
}

#[test]
fn test_lsd_cookie_handling() {
    let buf = build_bt_search_msg(
        "239.192.152.143:6771",
        6881,
        "0123456789abcdef0123456789abcdef01234567",
        Some(987654321),
    );
    let parsed = parse(&buf).unwrap();
    assert_eq!(parsed.our_cookie, Some(987654321));

    let buf = build_bt_search_msg(
        "239.192.152.143:6771",
        6881,
        "0123456789abcdef0123456789abcdef01234567",
        None,
    );
    let parsed = parse(&buf).unwrap();
    assert_eq!(parsed.our_cookie, None);
}

#[test]
fn test_lsd_cookie_non_numeric() {
    let mut msg = String::new();
    msg.push_str("BT-SEARCH * HTTP/1.1\r\n");
    msg.push_str("Host: 239.192.152.143:6771\r\n");
    msg.push_str("Port: 6881\r\n");
    msg.push_str("Infohash: 0123456789abcdef0123456789abcdef01234567\r\n");
    msg.push_str("cookie: not_a_number\r\n");
    msg.push_str("\r\n");

    let buf = msg.into_bytes();
    let parsed = parse(&buf).unwrap();
    assert_eq!(parsed.our_cookie, None);
}

#[test]
fn test_lsd_case_insensitive_headers() {
    let mut msg = String::new();
    msg.push_str("BT-SEARCH * HTTP/1.1\r\n");
    msg.push_str("HOST: 239.192.152.143:6771\r\n");
    msg.push_str("PORT: 6881\r\n");
    msg.push_str("INFOHASH: aabbccddee11223344556677889900aabbccddee\r\n");
    msg.push_str("COOKIE: 42\r\n");
    msg.push_str("\r\n");

    let buf = msg.into_bytes();
    let parsed = parse(&buf).unwrap();
    assert_eq!(
        parsed.hash,
        Id20::from_str("aabbccddee11223344556677889900aabbccddee").unwrap()
    );
    assert_eq!(parsed.port, 6881);
    assert_eq!(parsed.our_cookie, Some(42));
}

#[test]
fn test_lsd_constants() {
    assert_eq!(LSD_PORT, 6771);
    assert_eq!(lsd_ipv4().ip, u32::from_be_bytes([239, 192, 152, 143]));
    assert_eq!(lsd_ipv4().port, 6771);
    let groups: [u16; 8] = [0xff15, 0, 0, 0, 0, 0, 0xefc0, 0x988f];
    let ip = groups.iter().fold(0u128, |ip, group| (ip << 16) | u128::from(*group));
    assert_eq!(lsd_ipv6().ip, ip);
    assert_eq!(lsd_ipv6().port, 6771);
}

#[test]
fn group_addresses_are_written_as_they_are() {
    let [a, b, c, d] = LSD_IPV4_BITS.to_be_bytes();
    assert_eq!(LSD_IPV4_HOST, format!("{a}.{b}.{c}.{d}:{LSD_PORT}"));
    let first = LSD_IPV6_BITS >> 112;
    let seventh = (LSD_IPV6_BITS >> 16) & 0xffff;
    let eighth = LSD_IPV6_BITS & 0xffff;
    assert_eq!(LSD_IPV6_BITS, (first << 112) | (seventh << 16) | eighth);
    assert_eq!(LSD_IPV6_HOST, format!("[{first:x}::{seventh:x}:{eighth:x}]:{LSD_PORT}"));
    assert_eq!((lsd_ipv6().flowinfo, lsd_ipv6().scope_id), (0, 0));
}

#[test]
fn ipv6_announcement_has_its_text() {
    let hash = Id20([0xab; 20]);
    assert_eq!(
        announce_message(4294967295, &hash, 0, true),
        "BT-SEARCH * HTTP/1.1\r\n\
         Host: [ff15::efc0:988f]:6771\r\n\
         Port: 0\r\n\
         Infohash: abababababababababababababababababababab\r\n\
         cookie: 4294967295\r\n\
         \r\n\
         \r\n"
    );
}

#[test]
fn announcements_read_back() {
    let hash = Id20::from_str("0123456789abcdef0123456789abcdef01234567").unwrap();
    for is_v6 in [false, true] {
        for port in [0u16, 9, 10, 65535] {
            for cookie in [0u32, 7, 1_000_000, u32::MAX] {
                let text = announce_message(cookie, &hash, port, is_v6);
                let host = if is_v6 {
                    SocketAddr::V6(lsd_ipv6())
                } else {
                    SocketAddr::V4(lsd_ipv4())
                };
                let expected =
                    BtSearchAnnounceMessage { hash, our_cookie: Some(cookie), host, port };
                assert_eq!(parse(text.as_bytes()).unwrap(), expected);
            }
        }
    }
}

#[test]
fn announcements_fit_the_buffer() {
    assert_eq!(RECV_BUFFER_LEN, 4096);
    let longest = announce_message(u32::MAX, &Id20([0xff; 20]), u16::MAX, true);
    assert!(longest.len() <= RECV_BUFFER_LEN);
    assert_eq!(longest.len(), 141);
}

#[test]
fn names_in_any_case_are_the_same() {
    let a = parse(&with_lines(&[HOST, PORT, INFOHASH, "cookie: 5"])).unwrap();
    let b = parse(&with_lines(&[
        "hOsT: 239.192.152.143:6771",
        "pORT: 6881",
        "iNFOhash: aabbccddee11223344556677889900aabbccddee",
        "Cookie: 5",
    ]))
    .unwrap();
    assert_eq!(a, b);
}

#[test]
fn the_order_of_headers_does_not_matter() {
    let lines = [HOST, PORT, INFOHASH, "cookie: 5"];
    let expected = parse(&with_lines(&lines)).unwrap();
    for a in 0..4 {
        for b in 0..4 {
            for c in 0..4 {
                if a != b && b != c && a != c {
                    let order = [lines[a], lines[b], lines[c], lines[6 - a - b - c]];
                    assert_eq!(parse(&with_lines(&order)).unwrap(), expected);
                }
            }
        }
    }
}

#[test]
fn reordered_renamed_and_extended_messages_are_the_same() {
    let plain = parse(&with_lines(&[HOST, PORT, INFOHASH])).unwrap();
    let other = parse(&with_lines(&[
        "X-One: some words",
        "INFOHASH: aabbccddee11223344556677889900aabbccddee",
        "hOST: 239.192.152.143:6771",
        "x_two!: ",
        "port: 6881",
    ]))
    .unwrap();
    assert_eq!(plain, other);
    let faulty = parse(&with_lines(&["Port: ?", HOST, INFOHASH]));
    let moved = parse(&with_lines(&[INFOHASH, "A: b", HOST, "PORT: ?"]));
    assert!(faulty.is_err() && moved.is_err());
}

#[test]
fn the_method_is_not_taken_in_another_case() {
    let msg = "bt-search * HTTP/1.1\r\n\r\n";
    assert!(matches!(parse(msg.as_bytes()), Err(ParseError::ExpectingBtSearch)));
}

#[test]
fn other_headers_are_passed_over() {
    let plain = parse(&with_lines(&[HOST, PORT, INFOHASH])).unwrap();
    for at in 0..4 {
        let mut lines = vec![HOST, PORT, INFOHASH];
        lines.insert(at, "X-Extra: anything at all");
        assert_eq!(parse(&with_lines(&lines)).unwrap(), plain);
    }
}

#[test]
fn a_cookie_header_changes_the_cookie_alone() {
    let plain = parse(&with_lines(&[HOST, PORT, INFOHASH])).unwrap();
    for (line, cookie) in [
        ("cookie: 12", Some(12)),
        ("cookie: x", None),
        ("cookie: 4294967296", None),
        ("cookie: 12abc", Some(12)),
    ] {
        for at in 0..4 {
            let mut lines = vec![HOST, PORT, INFOHASH];
            lines.insert(at, line);
            let parsed = parse(&with_lines(&lines)).unwrap();
            assert_eq!(parsed, BtSearchAnnounceMessage { our_cookie: cookie, ..plain });
        }
    }
}

#[test]
fn the_last_header_of_a_name_counts() {
    let parsed = parse(&with_lines(&[
        HOST,
        PORT,
        INFOHASH,
        "cookie: 1",
        "Host: 10.0.0.1:80",
        "Port: 7",
        "Infohash: 0000000000000000000000000000000000000001",
        "cookie: 2",
    ]))
    .unwrap();
    let mut bytes = [0u8; 20];
    bytes[19] = 1;
    assert_eq!(
        parsed,
        BtSearchAnnounceMessage {
            hash: Id20(bytes),
            our_cookie: Some(2),
            host: SocketAddr::V4(SocketAddrV4 { ip: 0x0a00_0001, port: 80 }),
            port: 7,
        }
    );
}

#[test]
fn the_last_cookie_may_be_no_number() {
    let parsed = parse(&with_lines(&[HOST, PORT, INFOHASH, "cookie: 1", "cookie: none"])).unwrap();
    assert_eq!(parsed.our_cookie, None);
}

#[test]
fn the_first_fault_is_reported() {
    let port_first = parse(&with_lines(&["Port: x", "Infohash: x"]));
    assert!(matches!(port_first, Err(ParseError::PortNotANumber)));
    let hash_first = parse(&with_lines(&["Infohash: x", "Port: x"]));
    assert!(matches!(hash_first, Err(ParseError::InvalidInfohash(_))));
}

#[test]
fn ports_are_read_from_the_start_of_the_value() {
    let port_of = |value: &str| {
        parse(&with_lines(&[HOST, &format!("Port: {value}"), INFOHASH])).map(|parsed| parsed.port)
    };
    assert_eq!(port_of("80abc").unwrap(), 80);
    assert_eq!(port_of("+80").unwrap(), 80);
    assert_eq!(port_of("-0").unwrap(), 0);
    assert_eq!(port_of("00080").unwrap(), 80);
    assert_eq!(port_of("+").unwrap(), 0);
    assert!(matches!(port_of("-1"), Err(ParseError::PortNotANumber)));
    assert!(matches!(port_of("65536"), Err(ParseError::PortNotANumber)));
    assert!(matches!(port_of("abc80"), Err(ParseError::PortNotANumber)));
}

#[test]
fn errors_say_what_is_wrong() {
    let fault = |lines: &[&str]| parse(&with_lines(lines)).unwrap_err().message();
    assert_eq!(fault(&["Host: nowhere", PORT, INFOHASH]), "invalid IP in host header: no address: nowhere");
    assert_eq!(fault(&[HOST, "Port: ?", INFOHASH]), "port is not a number");
    assert_eq!(
        fault(&[HOST, PORT, "Infohash: ?"]),
        "invalid infohash header: expected a hex string of length 40 or 32"
    );
    assert_eq!(
        fault(&[HOST, PORT, "Infohash: g0ff10abcdef0123456789abcdef0123456789ab"]),
        "invalid infohash header: Invalid character 'g' at position 0"
    );
    assert_eq!(fault(&[HOST, PORT]), "not all of host, man and st are set");
    assert_eq!(fault(&[]), "not all of host, man and st are set");
}

#[test]
fn values_that_are_not_utf8_are_refused() {
    let with_value = |name: &str| {
        let mut msg = format!("BT-SEARCH * HTTP/1.1\r\n{name}: ").into_bytes();
        msg.extend_from_slice(b"\xff\xfe\r\n\r\n");
        parse(&msg).unwrap_err()
    };
    let host = with_value("Host");
    assert!(matches!(host, ParseError::HostNotUtf8(_)));
    assert_eq!(
        host.message(),
        "invalid utf-8 in host header: invalid utf-8 sequence of 1 bytes from index 0"
    );
    let infohash = with_value("Infohash");
    assert!(matches!(infohash, ParseError::InfohashNotUtf8(_)));
    assert_eq!(
        infohash.message(),
        "infohash isn't utf-8: invalid utf-8 sequence of 1 bytes from index 0"
    );
    assert!(matches!(with_value("Port"), ParseError::PortNotANumber));
    assert!(matches!(with_value("cookie"), ParseError::MissingHeaders));
}

#[test]
fn what_is_no_request_is_refused() {
    let error = parse(b"\x00\x01\x02").unwrap_err();
    assert!(matches!(error, ParseError::Request(_)));
    assert_eq!(error.message(), "error parsing request: invalid token");
}

#[test]
fn at_most_sixteen_headers_are_read() {
    let mut lines = vec![HOST, PORT, INFOHASH];
    while lines.len() < 16 {
        lines.push("X: y");
    }
    assert!(parse(&with_lines(&lines)).is_ok());
    lines.push("X: y");
    let error = parse(&with_lines(&lines)).unwrap_err();
    assert_eq!(error.message(), "error parsing request: too many headers");
}

#[test]
fn the_room_for_headers_can_be_chosen() {
    let message = with_lines(&[HOST, PORT, INFOHASH]);
    assert!(try_parse_bt_search(&message, 3, &parse_host).is_ok());
    for room in 0..3 {
        let error = try_parse_bt_search(&message, room, &parse_host).unwrap_err();
        assert_eq!(error.message(), "error parsing request: too many headers");
    }
    let mut lines = vec![HOST, PORT, INFOHASH];
    while lines.len() < 40 {
        lines.push("X: y");
    }
    assert!(try_parse_bt_search(&with_lines(&lines), 40, &parse_host).is_ok());
    assert_eq!(MAX_HEADERS, 16);
}

#[test]
fn a_datagram_that_ends_early_is_read_up_to_there() {
    let whole = with_lines(&[HOST, PORT, INFOHASH, "cookie: 3"]);
    let without_end = &whole[..whole.len() - 2];
    assert_eq!(parse(without_end).unwrap(), parse(&whole).unwrap());
    let within_port = b"BT-SEARCH * HTTP/1.1\r\nHost: 10.0.0.1:80\r\nPort: 68";
    assert!(matches!(parse(within_port), Err(ParseError::MissingHeaders)));
    assert!(matches!(parse(b"BT-SEA"), Err(ParseError::ExpectingBtSearch)));
    assert!(matches!(parse(b""), Err(ParseError::ExpectingBtSearch)));
}

#[test]
fn base32_infohashes_are_read() {
    let parsed = parse(&with_lines(&[HOST, PORT, "Infohash: AAAQEAYEAUDAOCAJBIFQYDIOB4IBCEQT"]));
    let mut bytes = [0u8; 20];
    for (i, byte) in bytes.iter_mut().enumerate() {
        *byte = i as u8;
    }
    assert_eq!(parsed.unwrap().hash, Id20(bytes));
}

#[test]
fn padded_base32_infohashes_are_refused() {
    let parsed = parse(&with_lines(&[HOST, PORT, "Infohash: AAAQEAYEAUDAOCAJBIFQYDIOB4======"]));
    let error = parsed.unwrap_err();
    assert!(matches!(error, ParseError::InvalidInfohash(_)));
    assert_eq!(
        error.message(),
        "invalid infohash header: base32 string of fewer than 20 bytes"
    );
}

#[test]
fn other_faults_in_padding_have_their_own_words() {
    let text = "=".repeat(32);
    let line = format!("Infohash: {text}");
    let error = parse(&with_lines(&[HOST, PORT, &line])).unwrap_err();
    assert_eq!(
        error.message(),
        format!(
            "invalid infohash header: fail to decode base32 string {text}: \
             invalid padding length at 0"
        )
    );
}

#[test]
fn a_request_is_read_by_itself() {
    let header = |name: &str, value: &str| Header {
        name: name.as_bytes().to_vec(),
        value: value.as_bytes().to_vec(),
    };
    let request = Request {
        method: Some(b"BT-SEARCH".to_vec()),
        headers: vec![
            header("Port", "12"),
            header("Infohash", "00000000000000000000000000000000000000ff"),
            header("Host", "10.0.0.1:80"),
        ],
    };
    let parsed = read_announcement(&request, &parse_host).unwrap();
    assert_eq!(parsed.port, 12);
    assert_eq!(parsed.hash.0[19], 0xff);
    assert_eq!(parsed.our_cookie, None);
    let none = Request { method: None, headers: vec![] };
    assert!(matches!(
        read_announcement(&none, &parse_host),
        Err(ParseError::ExpectingBtSearch)
    ));
}
