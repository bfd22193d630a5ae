//! The text of the announcements that are sent.

use vstd::prelude::*;
use vstd::string::*;
use vstd::utf8::*;

use crate::addr::{
    has_inner_zeros, ipv4_text, ipv6_text, SocketAddr, SocketAddrV4, SocketAddrV6, LSD_IPV4_BITS,
    LSD_IPV6_BITS, LSD_PORT,
};
use crate::id20::{hex_text, law_hex_text_reads_back, lemma_hex_text_bytes, lemma_id_of, Id20};
use crate::message::{
    announcement, is_named, no_fields, read_header, read_headers, reads_as, resolves, resolves_to,
    Answer, Fields, MessageView, ParseErrorView,
};
use crate::request::{
    header_line, header_lines, is_plain_header, is_plain_request, is_token, is_value,
    request_bytes, HeaderView, RequestView,
};
use crate::text::{
    ascii, ascii_lower, decimal, decimal_text, hexadecimal, law_decimal_reads_back,
    lemma_ascii_is_utf8, lemma_decimal_bytes, lemma_decimal_is_short, same_but_case,
};

verus! {

/// The address of the IPv4 group and the port, as they stand in an announcement.
pub const LSD_IPV4_HOST: &'static str = "239.192.152.143:6771";

/// The address of the IPv6 group and the port, as they stand in an announcement.
pub const LSD_IPV6_HOST: &'static str = "[ff15::efc0:988f]:6771";

/// The size of the buffer that datagrams are received in.
pub const RECV_BUFFER_LEN: usize = 4096;

/// The text of the group's address in either family.
pub open spec fn host_text(is_v6: bool) -> Seq<char> {
    if is_v6 {
        LSD_IPV6_HOST@
    } else {
        LSD_IPV4_HOST@
    }
}

/// A header line: what stands before the value, the value and the end of the line.
pub open spec fn line(label: Seq<char>, value: Seq<char>) -> Seq<char> {
    label + value + "\r\n"@
}

/// The announcement of the torrent `hash`, for which the sender with `cookie` takes
/// connections at `port`.
pub open spec fn announce_text(cookie: u32, hash: Seq<u8>, port: u16, is_v6: bool) -> Seq<char> {
    "BT-SEARCH * HTTP/1.1\r\n"@ + line("Host: "@, host_text(is_v6)) + line(
        "Port: "@,
        decimal(port as nat),
    ) + line("Infohash: "@, hex_text(hash)) + line("cookie: "@, decimal(cookie as nat)) + "\r\n\r\n"@
}

fn append_line(text: &mut String, label: &str, value: &str)
    ensures
        final(text)@ == old(text)@ + line(label@, value@),
{
    text.append(label);
    text.append(value);
    text.append("\r\n");
    assert(text@ =~= old(text)@ + line(label@, value@));
}

/// Writes the announcement of the torrent `hash`.
pub fn announce_message(cookie: u32, hash: &Id20, port: u16, is_v6: bool) -> (r: String)
    ensures
        r@ == announce_text(cookie, hash@, port, is_v6),
{
    let host: &str = if is_v6 {
        LSD_IPV6_HOST
    } else {
        LSD_IPV4_HOST
    };
    let mut text = String::new();
    text.append("BT-SEARCH * HTTP/1.1\r\n");
    assert(text@ =~= "BT-SEARCH * HTTP/1.1\r\n"@);
    append_line(&mut text, "Host: ", host);
    append_line(&mut text, "Port: ", decimal_text(port as u32).as_str());
    append_line(&mut text, "Infohash: ", hash.as_string().as_str());
    append_line(&mut text, "cookie: ", decimal_text(cookie).as_str());
    text.append("\r\n\r\n");
    text
}

/// The headers of that announcement.
pub open spec fn announce_headers(cookie: u32, hash: Seq<u8>, port: u16, is_v6: bool) -> Seq<
    HeaderView,
> {
    seq![
        HeaderView { name: ascii("Host"@), value: ascii(host_text(is_v6)) },
        HeaderView { name: ascii("Port"@), value: ascii(decimal(port as nat)) },
        HeaderView { name: ascii("Infohash"@), value: ascii(hex_text(hash)) },
        HeaderView { name: ascii("cookie"@), value: ascii(decimal(cookie as nat)) },
    ]
}

/// What a receiver makes of that announcement, where the text of its host stands for `host`.
pub open spec fn announced(
    cookie: u32,
    hash: Seq<u8>,
    port: u16,
    host: Answer,
) -> Result<MessageView, ParseErrorView> {
    match host {
        Ok(host) => Ok(MessageView { hash, our_cookie: Some(cookie), host, port }),
        Err(cause) => Err(ParseErrorView::InvalidHost(cause)),
    }
}

/// That announcement as a request.
pub open spec fn announce_request(
    cookie: u32,
    hash: Seq<u8>,
    port: u16,
    is_v6: bool,
) -> RequestView {
    RequestView {
        method: Some(ascii("BT-SEARCH"@)),
        headers: announce_headers(cookie, hash, port, is_v6),
    }
}

/// `result` is what that announcement was written from, its host standing for the address
/// that `parse_host` answered.
pub open spec fn reads_as_announced<F: Fn(&str) -> Result<SocketAddr, String>>(
    parse_host: F,
    cookie: u32,
    hash: Seq<u8>,
    port: u16,
    is_v6: bool,
    result: Result<MessageView, ParseErrorView>,
) -> bool {
    exists|host: Answer| #[trigger]
        resolves_to(parse_host, encode_utf8(host_text(is_v6)), host) && result == announced(
            cookie,
            hash,
            port,
            host,
        )
}

proof fn lemma_ascii_of_line(name: Seq<char>, label: Seq<char>, value: Seq<char>)
    requires
        label == name + ": "@,
    ensures
        ascii(line(label, value)) == header_line(
            HeaderView { name: ascii(name), value: ascii(value) },
        ),
{
    assert(ascii(line(label, value)) =~= header_line(
        HeaderView { name: ascii(name), value: ascii(value) },
    ));
}

/// The texts that are part of every announcement are ASCII, and its names are tokens.
proof fn lemma_labels()
    ensures
        "Host: "@ == "Host"@ + ": "@,
        "Port: "@ == "Port"@ + ": "@,
        "Infohash: "@ == "Infohash"@ + ": "@,
        "cookie: "@ == "cookie"@ + ": "@,
        is_ascii_chars("Host: "@),
        is_ascii_chars("Port: "@),
        is_ascii_chars("Infohash: "@),
        is_ascii_chars("cookie: "@),
        is_token(ascii("Host"@)),
        is_token(ascii("Port"@)),
        is_token(ascii("Infohash"@)),
        is_token(ascii("cookie"@)),
        is_token(ascii("BT-SEARCH"@)),
{
    reveal_strlit("Host: ");
    reveal_strlit("Port: ");
    reveal_strlit("Infohash: ");
    reveal_strlit("cookie: ");
    reveal_strlit("Host");
    reveal_strlit("Port");
    reveal_strlit("Infohash");
    reveal_strlit("cookie");
    reveal_strlit(": ");
    reveal_strlit("BT-SEARCH");
    reveal_strlit("!#$%&'*+-.^_`|~");
    assert(ascii("!#$%&'*+-.^_`|~"@)[8] == 0x2d);
    assert("Host: "@ =~= "Host"@ + ": "@);
    assert("Port: "@ =~= "Port"@ + ": "@);
    assert("Infohash: "@ =~= "Infohash"@ + ": "@);
    assert("cookie: "@ =~= "cookie"@ + ": "@);
}

proof fn lemma_host_text(is_v6: bool)
    ensures
        is_ascii_chars(host_text(is_v6)),
        is_value(ascii(host_text(is_v6))),
{
    reveal_strlit("239.192.152.143:6771");
    reveal_strlit("[ff15::efc0:988f]:6771");
}

/// The texts of the groups' addresses are the texts of the addresses that datagrams are sent to.
pub proof fn law_host_texts_are_the_groups(v4: SocketAddrV4, v6: SocketAddrV6)
    requires
        v4.ip == LSD_IPV4_BITS && v4.port == LSD_PORT,
        v6.ip == LSD_IPV6_BITS && v6.port == LSD_PORT,
    ensures
        host_text(false) == ipv4_text(v4),
        has_inner_zeros(v6),
        host_text(true) == ipv6_text(v6),
{
    reveal_strlit("239.192.152.143:6771");
    reveal_strlit("[ff15::efc0:988f]:6771");
    reveal_strlit(".");
    reveal_strlit(":");
    reveal_strlit("[");
    reveal_strlit("::");
    reveal_strlit("]:");
    reveal_with_fuel(decimal, 4);
    reveal_with_fuel(hexadecimal, 4);
    assert(decimal(239) =~= seq!['2', '3', '9']);
    assert(decimal(192) =~= seq!['1', '9', '2']);
    assert(decimal(152) =~= seq!['1', '5', '2']);
    assert(decimal(143) =~= seq!['1', '4', '3']);
    assert(decimal(6771) =~= seq!['6', '7', '7', '1']);
    assert(host_text(false) =~= ipv4_text(v4));
    assert(hexadecimal(0xff15) =~= seq!['f', 'f', '1', '5']);
    assert(hexadecimal(0xefc0) =~= seq!['e', 'f', 'c', '0']);
    assert(hexadecimal(0x988f) =~= seq!['9', '8', '8', 'f']);
    assert(host_text(true) =~= ipv6_text(v6));
}

/// An announcement is ASCII, and as bytes it is a request with those headers, followed by
/// another empty line.
pub proof fn lemma_announce_is_request(cookie: u32, hash: Seq<u8>, port: u16, is_v6: bool)
    ensures
        is_ascii_chars(announce_text(cookie, hash, port, is_v6)),
        encode_utf8(announce_text(cookie, hash, port, is_v6)) == request_bytes(
            ascii("BT-SEARCH"@),
            announce_headers(cookie, hash, port, is_v6),
        ) + ascii("\r\n"@),
{
    let host = host_text(is_v6);
    let first = "BT-SEARCH * HTTP/1.1\r\n"@;
    let l1 = line("Host: "@, host);
    let l2 = line("Port: "@, decimal(port as nat));
    let l3 = line("Infohash: "@, hex_text(hash));
    let l4 = line("cookie: "@, decimal(cookie as nat));
    let text = announce_text(cookie, hash, port, is_v6);
    lemma_labels();
    lemma_host_text(is_v6);
    lemma_decimal_bytes(port as nat);
    lemma_decimal_bytes(cookie as nat);
    lemma_hex_text_bytes(hash);
    reveal_strlit("BT-SEARCH * HTTP/1.1\r\n");
    reveal_strlit("BT-SEARCH");
    reveal_strlit(" * HTTP/1.1\r\n");
    reveal_strlit("\r\n");
    reveal_strlit("\r\n\r\n");
    assert(first =~= "BT-SEARCH"@ + " * HTTP/1.1\r\n"@);
    assert("\r\n\r\n"@ =~= "\r\n"@ + "\r\n"@);
    assert(is_ascii_chars(text));
    lemma_ascii_is_utf8(text);
    lemma_ascii_of_line("Host"@, "Host: "@, host);
    lemma_ascii_of_line("Port"@, "Port: "@, decimal(port as nat));
    lemma_ascii_of_line("Infohash"@, "Infohash: "@, hex_text(hash));
    lemma_ascii_of_line("cookie"@, "cookie: "@, decimal(cookie as nat));
    assert(ascii(text) =~= ascii("BT-SEARCH"@) + ascii(" * HTTP/1.1\r\n"@) + ascii(l1) + ascii(l2)
        + ascii(l3) + ascii(l4) + ascii("\r\n"@) + ascii("\r\n"@));
    let headers = announce_headers(cookie, hash, port, is_v6);
    reveal_with_fuel(header_lines, 5);
    assert(headers.drop_last().drop_last().drop_last().drop_last() =~= Seq::empty());
    assert(header_lines(headers) =~= ascii(l1) + ascii(l2) + ascii(l3) + ascii(l4));
    assert(ascii(text) =~= request_bytes(ascii("BT-SEARCH"@), headers) + ascii("\r\n"@));
}

/// An announcement is a plain request.
pub proof fn lemma_announce_is_plain(cookie: u32, hash: Seq<u8>, port: u16, is_v6: bool)
    requires
        hash.len() == 20,
    ensures
        is_plain_request(ascii("BT-SEARCH"@), announce_headers(cookie, hash, port, is_v6)),
{
    let headers = announce_headers(cookie, hash, port, is_v6);
    lemma_labels();
    lemma_host_text(is_v6);
    lemma_decimal_bytes(port as nat);
    lemma_decimal_bytes(cookie as nat);
    lemma_hex_text_bytes(hash);
    lemma_ascii_is_utf8(decimal(port as nat));
    lemma_ascii_is_utf8(decimal(cookie as nat));
    lemma_ascii_is_utf8(hex_text(hash));
    assert(is_value(headers[1].value));
    assert(is_value(headers[2].value));
    assert(is_value(headers[3].value));
    assert forall|i: int| 0 <= i < headers.len() implies is_plain_header(#[trigger] headers[i]) by {
        assert(i == 0 || i == 1 || i == 2 || i == 3);
    }
}

/// Each header of an announcement bears its own name and no other.
proof fn lemma_names()
    ensures
        same_but_case(ascii("Host"@), ascii("host"@)),
        !same_but_case(ascii("Port"@), ascii("host"@)),
        same_but_case(ascii("Port"@), ascii("port"@)),
        !same_but_case(ascii("Infohash"@), ascii("host"@)),
        !same_but_case(ascii("Infohash"@), ascii("port"@)),
        same_but_case(ascii("Infohash"@), ascii("infohash"@)),
        !same_but_case(ascii("cookie"@), ascii("host"@)),
        !same_but_case(ascii("cookie"@), ascii("port"@)),
        !same_but_case(ascii("cookie"@), ascii("infohash"@)),
        same_but_case(ascii("cookie"@), ascii("cookie"@)),
{
    reveal_strlit("Host");
    reveal_strlit("Port");
    reveal_strlit("Infohash");
    reveal_strlit("host");
    reveal_strlit("port");
    reveal_strlit("infohash");
    reveal_strlit("cookie");
    let lower = |text: Seq<char>| ascii(text).map_values(|c: u8| ascii_lower(c));
    assert(lower("Host"@) =~= lower("host"@));
    assert(lower("Port"@)[0] != lower("host"@)[0]);
    assert(lower("Port"@) =~= lower("port"@));
    assert(lower("Infohash"@).len() != lower("host"@).len());
    assert(lower("Infohash"@).len() != lower("port"@).len());
    assert(lower("Infohash"@) =~= lower("infohash"@));
    assert(lower("cookie"@).len() != lower("host"@).len());
    assert(lower("cookie"@).len() != lower("port"@).len());
    assert(lower("cookie"@).len() != lower("infohash"@).len());
}

/// The headers of an announcement say what it was written from.
proof fn lemma_announce_headers_read(
    cookie: u32,
    hash: Seq<u8>,
    port: u16,
    is_v6: bool,
    hosts: Seq<Answer>,
)
    requires
        hash.len() == 20,
        hosts.len() == 4,
    ensures
        announcement(announce_headers(cookie, hash, port, is_v6), hosts) == announced(
            cookie,
            hash,
            port,
            hosts[0],
        ),
{
    let headers = announce_headers(cookie, hash, port, is_v6);
    lemma_names();
    lemma_host_text(is_v6);
    lemma_ascii_is_utf8(host_text(is_v6));
    encode_utf8_valid_utf8(host_text(is_v6));
    lemma_decimal_bytes(port as nat);
    lemma_ascii_is_utf8(decimal(port as nat));
    law_decimal_reads_back(port as nat, u16::MAX as nat);
    lemma_hex_text_bytes(hash);
    lemma_ascii_is_utf8(hex_text(hash));
    encode_utf8_valid_utf8(hex_text(hash));
    law_hex_text_reads_back(hash);
    lemma_id_of(encode_utf8(hex_text(hash)), hash);
    lemma_decimal_bytes(cookie as nat);
    lemma_ascii_is_utf8(decimal(cookie as nat));
    law_decimal_reads_back(cookie as nat, u32::MAX as nat);
    let h3 = headers.drop_last();
    let h2 = h3.drop_last();
    let h1 = h2.drop_last();
    let o3 = hosts.drop_last();
    let o2 = o3.drop_last();
    let o1 = o2.drop_last();
    assert(read_headers(h1.drop_last(), o1.drop_last()) == Ok::<Fields, ParseErrorView>(no_fields()));
    assert(read_headers(h1, o1) == read_header(no_fields(), headers[0], hosts[0]));
    if hosts[0] is Ok {
        assert(read_headers(h2, o2) is Ok);
        assert(read_headers(h3, o3) is Ok);
        assert(read_headers(headers, hosts) is Ok);
    } else {
        assert(read_headers(h2, o2) is Err);
        assert(read_headers(h3, o3) is Err);
        assert(read_headers(headers, hosts) is Err);
    }
}

/// Every announcement fits whole in the buffer that datagrams are received in.
pub proof fn law_announcement_fits_the_buffer(cookie: u32, hash: Seq<u8>, port: u16, is_v6: bool)
    requires
        hash.len() == 20,
    ensures
        encode_utf8(announce_text(cookie, hash, port, is_v6)).len() <= RECV_BUFFER_LEN,
{
    lemma_announce_is_request(cookie, hash, port, is_v6);
    lemma_ascii_is_utf8(announce_text(cookie, hash, port, is_v6));
    lemma_decimal_is_short(cookie);
    lemma_decimal_is_short(port as u32);
    reveal_strlit("BT-SEARCH * HTTP/1.1\r\n");
    reveal_strlit("Host: ");
    reveal_strlit("Port: ");
    reveal_strlit("Infohash: ");
    reveal_strlit("cookie: ");
    reveal_strlit("\r\n");
    reveal_strlit("\r\n\r\n");
    reveal_strlit("239.192.152.143:6771");
    reveal_strlit("[ff15::efc0:988f]:6771");
}

/// An announcement reads as what it was written from, if its host stands for an address.
pub proof fn law_announcement_reads_back<F: Fn(&str) -> Result<SocketAddr, String>>(
    parse_host: F,
    cookie: u32,
    hash: Seq<u8>,
    port: u16,
    is_v6: bool,
    result: Result<MessageView, ParseErrorView>,
)
    requires
        hash.len() == 20,
        reads_as(parse_host, announce_request(cookie, hash, port, is_v6), result),
    ensures
        reads_as_announced(parse_host, cookie, hash, port, is_v6, result),
{
    let headers = announce_headers(cookie, hash, port, is_v6);
    let hosts = choose|hosts: Seq<Answer>| #[trigger]
        resolves(parse_host, headers, hosts) && result == announcement(headers, hosts);
    lemma_announce_headers_read(cookie, hash, port, is_v6, hosts);
    lemma_names();
    lemma_host_text(is_v6);
    lemma_ascii_is_utf8(host_text(is_v6));
    encode_utf8_valid_utf8(host_text(is_v6));
    assert(headers.take(0) =~= Seq::empty());
    assert(is_named(headers[0], "host"@));
    assert(resolves_to(parse_host, headers[0].value, hosts[0]));
}

/// The text of an announcement: the request line, the headers for the host, the port, the
/// torrent and the cookie, in this order, and two empty lines.
pub proof fn law_announcement_text(cookie: u32, hash: Seq<u8>, port: u16, is_v6: bool)
    ensures
        announce_text(cookie, hash, port, is_v6) == "BT-SEARCH * HTTP/1.1\r\nHost: "@ + (if is_v6 {
            "[ff15::efc0:988f]:6771"@
        } else {
            "239.192.152.143:6771"@
        }) + "\r\nPort: "@ + decimal(port as nat) + "\r\nInfohash: "@ + hex_text(hash)
            + "\r\ncookie: "@ + decimal(cookie as nat) + "\r\n\r\n\r\n"@,
{
    reveal_strlit("BT-SEARCH * HTTP/1.1\r\nHost: ");
    reveal_strlit("\r\nPort: ");
    reveal_strlit("\r\nInfohash: ");
    reveal_strlit("\r\ncookie: ");
    reveal_strlit("\r\n\r\n\r\n");
    reveal_strlit("BT-SEARCH * HTTP/1.1\r\n");
    reveal_strlit("Host: ");
    reveal_strlit("Port: ");
    reveal_strlit("Infohash: ");
    reveal_strlit("cookie: ");
    reveal_strlit("\r\n");
    reveal_strlit("\r\n\r\n");
    assert("BT-SEARCH * HTTP/1.1\r\nHost: "@ =~= "BT-SEARCH * HTTP/1.1\r\n"@ + "Host: "@);
    assert("\r\nPort: "@ =~= "\r\n"@ + "Port: "@);
    assert("\r\nInfohash: "@ =~= "\r\n"@ + "Infohash: "@);
    assert("\r\ncookie: "@ =~= "\r\n"@ + "cookie: "@);
    assert("\r\n\r\n\r\n"@ =~= "\r\n"@ + "\r\n\r\n"@);
    assert(announce_text(cookie, hash, port, is_v6) =~= "BT-SEARCH * HTTP/1.1\r\nHost: "@
        + host_text(is_v6) + "\r\nPort: "@ + decimal(port as nat) + "\r\nInfohash: "@ + hex_text(
        hash,
    ) + "\r\ncookie: "@ + decimal(cookie as nat) + "\r\n\r\n\r\n"@);
}

/// What a receiver makes of an announcement is what it was written from.
pub proof fn law_announced_is_what_was_written(
    cookie: u32,
    hash: Seq<u8>,
    port: u16,
    host: Answer,
)
    ensures
        host matches Ok(addr) ==> (announced(cookie, hash, port, host) matches Ok(message)
            && message.hash == hash && message.port == port && message.our_cookie == Some(cookie)
            && message.host == addr),
        host is Err ==> announced(cookie, hash, port, host) is Err,
{
}

} // verus!
