use librtbit_lsd::addr::{lsd_ipv4, lsd_ipv6, SocketAddr, SocketAddrV4, SocketAddrV6};
use librtbit_lsd::id20::Id20;
use librtbit_lsd::message::ParseError;
use librtbit_lsd::service::{
    LocalServiceDiscovery, LocalServiceDiscoveryOptions, Received, ANNOUNCE_PERIOD_SECS,
};

const HASH: Id20 = Id20([0x11; 20]);
const OTHER: Id20 = Id20([0x22; 20]);

fn parse_host(text: &str) -> Result<SocketAddr, String> {
    match text {
        "239.192.152.143:6771" => Ok(SocketAddr::V4(lsd_ipv4())),
        "[ff15::efc0:988f]:6771" => Ok(SocketAddr::V6(lsd_ipv6())),
        _ => Err(format!("no address: {text}")),
    }
}

fn service(cookie: u32) -> LocalServiceDiscovery<&'static str> {
    LocalServiceDiscovery::new(LocalServiceDiscoveryOptions { cookie: Some(cookie) })
}

fn v4(port: u16) -> SocketAddr {
    SocketAddr::V4(SocketAddrV4 { ip: 0xc0a8_0107, port })
}

fn v6(port: u16) -> SocketAddr {
    SocketAddr::V6(SocketAddrV6 { ip: 0xfe80 << 112, port, flowinfo: 0, scope_id: 2 })
}

#[test]
fn a_given_cookie_is_kept() {
    assert_eq!(service(77).cookie(), 77);
}

#[test]
fn cookies_are_drawn_at_random() {
    let draw = || {
        LocalServiceDiscovery::<u8>::new(LocalServiceDiscoveryOptions::default()).cookie()
    };
    let first = draw();
    assert!((0..16).any(|_| draw() != first));
}

#[test]
fn announcements_carry_the_cookie() {
    let text = service(77).gen_announce_msg(&HASH, 6881, false);
    assert_eq!(
        text,
        "BT-SEARCH * HTTP/1.1\r\n\
         Host: 239.192.152.143:6771\r\n\
         Port: 6881\r\n\
         Infohash: 1111111111111111111111111111111111111111\r\n\
         cookie: 77\r\n\
         \r\n\
         \r\n"
    );
    let text = service(77).gen_announce_msg(&HASH, 6881, true);
    assert!(text.contains("\r\nHost: [ff15::efc0:988f]:6771\r\n"));
}

#[test]
fn a_search_with_a_port_is_announced() {
    let mut lsd = service(1);
    let task = lsd.announce(HASH, Some(6881), "a").unwrap();
    assert_eq!(task.info_hash, HASH);
    assert_eq!(task.port, 6881);
    assert_eq!(task.period_secs, ANNOUNCE_PERIOD_SECS);
    assert_eq!(ANNOUNCE_PERIOD_SECS, 300);
    assert!(lsd.announce(OTHER, None, "b").is_none());
    assert_eq!(lsd.announced_port(&HASH), Some(6881));
    assert_eq!(lsd.announced_port(&OTHER), None);
    assert_eq!(lsd.announced_port(&Id20([0; 20])), None);
}

#[test]
fn a_peer_reaches_the_one_who_looks_for_it() {
    let mut lsd = service(1);
    let peer = service(2);
    lsd.announce(HASH, None, "a");
    for from in [v4(6771), v6(6771)] {
        let text = peer.gen_announce_msg(&HASH, 51413, from.is_ipv6());
        let mut expected = from;
        expected.set_port(51413);
        match lsd.on_datagram(text.as_bytes(), from, &parse_host) {
            Received::Deliver { message, addr } => {
                assert_eq!(message.hash, HASH);
                assert_eq!(message.our_cookie, Some(2));
                assert_eq!(addr, expected);
                assert_eq!(lsd.sender(&message.hash), Some(&"a"));
            }
            other => panic!("{other:?}"),
        }
    }
}

#[test]
fn own_announcements_are_ignored() {
    let mut lsd = service(1);
    lsd.announce(HASH, Some(6881), "a");
    let text = lsd.gen_announce_msg(&HASH, 6881, false);
    let received = lsd.on_datagram(text.as_bytes(), v4(6771), &parse_host);
    assert!(matches!(received, Received::OwnMessage(message) if message.port == 6881));
}

#[test]
fn announcements_without_a_cookie_are_not_own_ones() {
    let mut lsd = service(0);
    lsd.announce(HASH, None, "a");
    let msg = b"BT-SEARCH * HTTP/1.1\r\n\
                Host: 239.192.152.143:6771\r\n\
                Port: 5\r\n\
                Infohash: 1111111111111111111111111111111111111111\r\n\
                \r\n";
    let received = lsd.on_datagram(msg, v4(6771), &parse_host);
    assert!(matches!(received, Received::Deliver { addr, .. } if addr == v4(5)));
}

#[test]
fn nobody_looks_for_other_torrents() {
    let mut lsd = service(1);
    lsd.announce(HASH, None, "a");
    let text = service(2).gen_announce_msg(&OTHER, 1, false);
    let received = lsd.on_datagram(text.as_bytes(), v4(6771), &parse_host);
    assert!(matches!(received, Received::NotLookedFor(message) if message.hash == OTHER));
    assert_eq!(lsd.sender(&OTHER), None);
}

#[test]
fn other_datagrams_are_malformed() {
    let lsd = service(1);
    let received = lsd.on_datagram(b"GET / HTTP/1.1\r\n\r\n", v4(6771), &parse_host);
    assert!(matches!(received, Received::Malformed(ParseError::ExpectingBtSearch)));
    let text = service(2).gen_announce_msg(&HASH, 1, false);
    let received = lsd.on_datagram(text.as_bytes(), v4(6771), &|_: &str| {
        Err(String::from("none"))
    });
    assert!(matches!(
        received,
        Received::Malformed(ParseError::InvalidHost(cause)) if cause == "none"
    ));
}

#[test]
fn a_forgotten_torrent_is_not_looked_for() {
    let mut lsd = service(1);
    lsd.announce(HASH, None, "a");
    lsd.announce(OTHER, None, "b");
    lsd.forget(&HASH);
    assert_eq!(lsd.sender(&HASH), None);
    assert_eq!(lsd.sender(&OTHER), Some(&"b"));
    lsd.forget(&HASH);
    assert_eq!(lsd.sender(&OTHER), Some(&"b"));
}

#[test]
fn a_later_search_replaces_the_earlier_one() {
    let mut lsd = service(1);
    lsd.announce(HASH, Some(1), "a");
    assert!(lsd.on_delivered_at(&HASH, &v4(9), true, Some(10)).is_some());
    lsd.announce(HASH, Some(2), "b");
    assert_eq!(lsd.sender(&HASH), Some(&"b"));
    let reply = lsd.on_delivered_at(&HASH, &v4(9), true, Some(10)).unwrap();
    assert_eq!(reply, lsd.gen_announce_msg(&HASH, 2, false));
    lsd.forget(&HASH);
    assert_eq!(lsd.sender(&HASH), None);
}

#[test]
fn a_delivered_peer_is_answered_in_its_family() {
    let mut lsd = service(1);
    lsd.announce(HASH, Some(6881), "a");
    let reply = lsd.on_delivered_at(&HASH, &v4(9), true, Some(10));
    assert_eq!(reply, Some(lsd.gen_announce_msg(&HASH, 6881, false)));
    let reply = lsd.on_delivered_at(&HASH, &v6(9), true, Some(10));
    assert_eq!(reply, Some(lsd.gen_announce_msg(&HASH, 6881, true)));
}

#[test]
fn the_first_answer_goes_out_on_every_clock() {
    for now in [None, Some(0), Some(1), Some(u64::MAX)] {
        let mut lsd = service(1);
        lsd.announce(HASH, Some(6881), "a");
        assert!(lsd.on_delivered_at(&HASH, &v4(9), true, now).is_some());
    }
}

#[test]
fn a_second_answer_waits_for_the_next_second() {
    let mut lsd = service(1);
    lsd.announce(HASH, Some(6881), "a");
    lsd.announce(OTHER, Some(6881), "b");
    assert!(lsd.on_delivered_at(&HASH, &v4(9), true, Some(10)).is_some());
    assert!(lsd.on_delivered_at(&HASH, &v4(8), true, Some(10)).is_none());
    assert!(lsd.on_delivered_at(&OTHER, &v4(8), true, Some(10)).is_some());
    assert!(lsd.on_delivered_at(&HASH, &v4(9), true, Some(11)).is_some());
}

#[test]
fn undelivered_peers_are_not_answered() {
    let mut lsd = service(1);
    lsd.announce(HASH, Some(6881), "a");
    assert!(lsd.on_delivered_at(&HASH, &v4(9), false, Some(10)).is_none());
    assert!(lsd.on_delivered_at(&HASH, &v4(9), true, Some(10)).is_some());
}

#[test]
fn without_a_port_there_is_no_answer() {
    let mut lsd = service(1);
    lsd.announce(HASH, None, "a");
    assert!(lsd.on_delivered_at(&HASH, &v4(9), true, Some(10)).is_none());
    assert!(lsd.on_delivered_at(&HASH, &v4(9), true, None).is_none());
    assert!(lsd.on_delivered_at(&OTHER, &v4(9), true, Some(10)).is_none());
}

#[test]
fn answers_go_by_the_system_clock() {
    let mut lsd = service(1);
    lsd.announce(HASH, Some(6881), "a");
    assert!(lsd.on_delivered(&HASH, &v4(9), true).is_some());
    assert!(lsd.on_delivered_at(&HASH, &v4(9), true, Some(1)).is_none());
    assert!(lsd.on_delivered_at(&HASH, &v4(9), true, Some(u64::MAX)).is_some());
    assert!(lsd.on_delivered(&HASH, &v4(9), true).is_none());
}
