//! The `BT-SEARCH` message and how it is read.

use vstd::prelude::*;
use vstd::string::*;
use vstd::utf8::*;

use crate::addr::SocketAddr;
use crate::announce::{
    announce_headers, announce_request, announce_text, law_announcement_reads_back,
    lemma_announce_is_plain, lemma_announce_is_request, reads_as_announced,
};
use crate::id20::{id_error, id_of, Id20, InvalidId20};
use crate::request::{
    gives_back_plain_request, httparse_request, is_plain_request, parse_request, request_bytes,
    request_outcome, HeaderView, Request, RequestView,
};
use crate::text::{
    ascii, atoi_u16, atoi_u32, eq_bytes, eq_ignore_ascii_case, leading_number,
    lemma_ascii_is_utf8, same_but_case, utf8_error, utf8_text,
};

verus! {

/// The number of headers that a datagram may have.
pub const MAX_HEADERS: u16 = 16;

/// A message that announces a torrent.
#[derive(Clone, Copy, Debug, PartialEq, Eq)]
pub struct BtSearchAnnounceMessage {
    /// The infohash of the torrent.
    pub hash: Id20,
    /// The cookie of the sender, where the message has one that is a number.
    pub our_cookie: Option<u32>,
    /// The address in the `Host` header.
    pub host: SocketAddr,
    /// The port at which the sender takes connections.
    pub port: u16,
}

/// What a message holds.
#[verifier::ext_equal]
pub struct MessageView {
    pub hash: Seq<u8>,
    pub our_cookie: Option<u32>,
    pub host: SocketAddr,
    pub port: u16,
}

impl View for BtSearchAnnounceMessage {
    type V = MessageView;

    open spec fn view(&self) -> MessageView {
        MessageView {
            hash: self.hash@,
            our_cookie: self.our_cookie,
            host: self.host,
            port: self.port,
        }
    }
}

/// Why a datagram is no announcement, with the words for the cause where there is one.
#[derive(Debug)]
pub enum ParseError {
    /// It is no HTTP request.
    Request(String),
    ExpectingBtSearch,
    HostNotUtf8(String),
    InvalidHost(String),
    PortNotANumber,
    InfohashNotUtf8(String),
    InvalidInfohash(String),
    MissingHeaders,
}

/// What an error holds.
#[verifier::ext_equal]
pub enum ParseErrorView {
    Request(Seq<char>),
    ExpectingBtSearch,
    HostNotUtf8(Seq<char>),
    InvalidHost(Seq<char>),
    PortNotANumber,
    InfohashNotUtf8(Seq<char>),
    InvalidInfohash(Seq<char>),
    MissingHeaders,
}

impl View for ParseError {
    type V = ParseErrorView;

    open spec fn view(&self) -> ParseErrorView {
        match *self {
            ParseError::Request(cause) => ParseErrorView::Request(cause@),
            ParseError::ExpectingBtSearch => ParseErrorView::ExpectingBtSearch,
            ParseError::HostNotUtf8(cause) => ParseErrorView::HostNotUtf8(cause@),
            ParseError::InvalidHost(cause) => ParseErrorView::InvalidHost(cause@),
            ParseError::PortNotANumber => ParseErrorView::PortNotANumber,
            ParseError::InfohashNotUtf8(cause) => ParseErrorView::InfohashNotUtf8(cause@),
            ParseError::InvalidInfohash(cause) => ParseErrorView::InvalidInfohash(cause@),
            ParseError::MissingHeaders => ParseErrorView::MissingHeaders,
        }
    }
}

/// The words for an error.
pub open spec fn error_text(error: ParseErrorView) -> Seq<char> {
    match error {
        ParseErrorView::Request(cause) => "error parsing request: "@ + cause,
        ParseErrorView::ExpectingBtSearch => "expecting BT-SEARCH"@,
        ParseErrorView::HostNotUtf8(cause) => "invalid utf-8 in host header: "@ + cause,
        ParseErrorView::InvalidHost(cause) => "invalid IP in host header: "@ + cause,
        ParseErrorView::PortNotANumber => "port is not a number"@,
        ParseErrorView::InfohashNotUtf8(cause) => "infohash isn't utf-8: "@ + cause,
        ParseErrorView::InvalidInfohash(cause) => "invalid infohash header: "@ + cause,
        ParseErrorView::MissingHeaders => "not all of host, man and st are set"@,
    }
}

impl ParseError {
    /// The words for the error.
    pub fn message(&self) -> (r: String)
        ensures
            r@ == error_text(self@),
    {
        let mut text = String::new();
        match self {
            ParseError::Request(cause) => {
                text.append("error parsing request: ");
                text.append(cause.as_str());
            },
            ParseError::ExpectingBtSearch => text.append("expecting BT-SEARCH"),
            ParseError::HostNotUtf8(cause) => {
                text.append("invalid utf-8 in host header: ");
                text.append(cause.as_str());
            },
            ParseError::InvalidHost(cause) => {
                text.append("invalid IP in host header: ");
                text.append(cause.as_str());
            },
            ParseError::PortNotANumber => text.append("port is not a number"),
            ParseError::InfohashNotUtf8(cause) => {
                text.append("infohash isn't utf-8: ");
                text.append(cause.as_str());
            },
            ParseError::InvalidInfohash(cause) => {
                text.append("invalid infohash header: ");
                text.append(cause.as_str());
            },
            ParseError::MissingHeaders => text.append("not all of host, man and st are set"),
        }
        assert(text@ =~= error_text(self@));
        text
    }
}

/// A result with message and error taken for what they hold.
pub open spec fn outcome(r: Result<BtSearchAnnounceMessage, ParseError>) -> Result<
    MessageView,
    ParseErrorView,
> {
    match r {
        Ok(message) => Ok(message@),
        Err(error) => Err(error@),
    }
}

/// What the text of a `Host` header stands for: an address, or the words for why it stands
/// for none.
pub type Answer = Result<SocketAddr, Seq<char>>;

/// An answer taken for what it holds.
pub open spec fn answer_of(r: Result<SocketAddr, String>) -> Answer {
    match r {
        Ok(host) => Ok(host),
        Err(text) => Err(text@),
    }
}

/// What the headers of a message have said so far.
#[verifier::ext_equal]
pub struct Fields {
    pub host: Option<SocketAddr>,
    pub port: Option<u16>,
    pub hash: Option<Seq<u8>>,
    pub our_cookie: Option<u32>,
}

pub open spec fn no_fields() -> Fields {
    Fields { host: None, port: None, hash: None, our_cookie: None }
}

/// `header` bears the name `name`, in whatever case.
pub open spec fn is_named(header: HeaderView, name: Seq<char>) -> bool {
    same_but_case(header.name, ascii(name))
}

/// The cookie that `value` starts with, if it starts with one.
pub open spec fn cookie_of(value: Seq<u8>) -> Option<u32> {
    match leading_number(value, u32::MAX as nat) {
        Some(cookie) => Some(cookie as u32),
        None => None,
    }
}

/// What is known once `header` has been read too. Where it is a `Host` header, `host` is what
/// its text stands for.
pub open spec fn read_header(
    fields: Fields,
    header: HeaderView,
    host: Answer,
) -> Result<Fields, ParseErrorView> {
    if is_named(header, "host"@) {
        if !valid_utf8(header.value) {
            Err(ParseErrorView::HostNotUtf8(utf8_error(header.value)))
        } else {
            match host {
                Ok(host) => Ok(Fields { host: Some(host), ..fields }),
                Err(cause) => Err(ParseErrorView::InvalidHost(cause)),
            }
        }
    } else if is_named(header, "port"@) {
        match leading_number(header.value, u16::MAX as nat) {
            Some(port) => Ok(Fields { port: Some(port as u16), ..fields }),
            None => Err(ParseErrorView::PortNotANumber),
        }
    } else if is_named(header, "infohash"@) {
        if !valid_utf8(header.value) {
            Err(ParseErrorView::InfohashNotUtf8(utf8_error(header.value)))
        } else {
            match id_of(header.value) {
                Some(hash) => Ok(Fields { hash: Some(hash), ..fields }),
                None => Err(ParseErrorView::InvalidInfohash(id_error(header.value))),
            }
        }
    } else if is_named(header, "cookie"@) {
        Ok(Fields { our_cookie: cookie_of(header.value), ..fields })
    } else {
        Ok(fields)
    }
}

/// What `headers` say, read in their order up to the first fault; `hosts[i]` is the address
/// that header `i` stands for where it is a `Host` header.
pub open spec fn read_headers(
    headers: Seq<HeaderView>,
    hosts: Seq<Answer>,
) -> Result<Fields, ParseErrorView>
    decreases headers.len(),
{
    if headers.len() == 0 {
        Ok(no_fields())
    } else {
        match read_headers(headers.drop_last(), hosts.drop_last()) {
            Ok(fields) => read_header(fields, headers.last(), hosts.last()),
            Err(error) => Err(error),
        }
    }
}

/// The message that `fields` make up.
pub open spec fn message_of(fields: Fields) -> Result<MessageView, ParseErrorView> {
    match (fields.host, fields.port, fields.hash) {
        (Some(host), Some(port), Some(hash)) => Ok(
            MessageView { hash, our_cookie: fields.our_cookie, host, port },
        ),
        _ => Err(ParseErrorView::MissingHeaders),
    }
}

/// The announcement that `headers` make up, its `Host` headers standing for `hosts`.
pub open spec fn announcement(
    headers: Seq<HeaderView>,
    hosts: Seq<Answer>,
) -> Result<MessageView, ParseErrorView> {
    match read_headers(headers, hosts) {
        Ok(fields) => message_of(fields),
        Err(error) => Err(error),
    }
}

/// `parse_host` may answer `host` to the text that `value` is the UTF-8 form of.
pub open spec fn resolves_to<F: Fn(&str) -> Result<SocketAddr, String>>(
    parse_host: F,
    value: Seq<u8>,
    host: Answer,
) -> bool {
    exists|text: &str, answer: Result<SocketAddr, String>|
        {
            &&& text.spec_bytes() == value
            &&& #[trigger] call_ensures(parse_host, (text,), answer)
            &&& host == answer_of(answer)
        }
}

/// `parse_host` may answer that the text stands for no address.
pub open spec fn resolves_to_none<F: Fn(&str) -> Result<SocketAddr, String>>(
    parse_host: F,
    value: Seq<u8>,
) -> bool {
    exists|cause: Seq<char>| #[trigger] resolves_to(parse_host, value, Err(cause))
}

/// `hosts` holds what `parse_host` answered to the `Host` headers that were read.
pub open spec fn resolves<F: Fn(&str) -> Result<SocketAddr, String>>(
    parse_host: F,
    headers: Seq<HeaderView>,
    hosts: Seq<Answer>,
) -> bool {
    &&& hosts.len() == headers.len()
    &&& forall|i: int|
        #![trigger headers[i]]
        {
            &&& 0 <= i < headers.len()
            &&& is_named(headers[i], "host"@)
            &&& valid_utf8(headers[i].value)
            &&& read_headers(headers.take(i), hosts.take(i)) is Ok
        } ==> resolves_to(parse_host, headers[i].value, hosts[i])
}

/// `result` is what `request` says, with the answers that `parse_host` gave.
pub open spec fn reads_as<F: Fn(&str) -> Result<SocketAddr, String>>(
    parse_host: F,
    request: RequestView,
    result: Result<MessageView, ParseErrorView>,
) -> bool {
    if request.method == Some(ascii("BT-SEARCH"@)) {
        exists|hosts: Seq<Answer>| #[trigger]
            resolves(parse_host, request.headers, hosts) && result == announcement(
                request.headers,
                hosts,
            )
    } else {
        result == Err::<MessageView, ParseErrorView>(ParseErrorView::ExpectingBtSearch)
    }
}

/// `result` is what the datagram `buf` says, read with room for `room` headers, with the
/// answers that `parse_host` gave.
pub open spec fn parses_as<F: Fn(&str) -> Result<SocketAddr, String>>(
    parse_host: F,
    buf: Seq<u8>,
    room: u16,
    result: Result<MessageView, ParseErrorView>,
) -> bool {
    match httparse_request(buf, room as nat) {
        Ok(request) => reads_as(parse_host, request, result),
        Err(text) => result == Err::<MessageView, ParseErrorView>(ParseErrorView::Request(text)),
    }
}

/// Where `buf` starts with a plain request of no more than `room` headers, `result` is what
/// that request says.
pub open spec fn says_plain_request<F: Fn(&str) -> Result<SocketAddr, String>>(
    parse_host: F,
    buf: Seq<u8>,
    room: u16,
    result: Result<MessageView, ParseErrorView>,
) -> bool {
    forall|method: Seq<u8>, headers: Seq<HeaderView>|
        {
            &&& is_plain_request(method, headers)
            &&& headers.len() <= room
            &&& (#[trigger] request_bytes(method, headers)).is_prefix_of(buf)
        } ==> reads_as(parse_host, RequestView { method: Some(method), headers }, result)
}

/// A fault ends the reading: headers after it change nothing.
pub proof fn lemma_fault_stays(
    headers: Seq<HeaderView>,
    hosts: Seq<Answer>,
    n: int,
    error: ParseErrorView,
)
    requires
        0 <= n <= headers.len() == hosts.len(),
        read_headers(headers.take(n), hosts.take(n)) == Err::<Fields, ParseErrorView>(error),
    ensures
        read_headers(headers, hosts) == Err::<Fields, ParseErrorView>(error),
    decreases headers.len(),
{
    if n == headers.len() {
        assert(headers.take(n) =~= headers);
        assert(hosts.take(n) =~= hosts);
    } else {
        assert(headers.drop_last().take(n) =~= headers.take(n));
        assert(hosts.drop_last().take(n) =~= hosts.take(n));
        lemma_fault_stays(headers.drop_last(), hosts.drop_last(), n, error);
    }
}

/// The first `n` headers have been read without a fault, and `hosts` holds what `parse_host`
/// answered on the way.
spec fn has_read<F: Fn(&str) -> Result<SocketAddr, String>>(
    parse_host: F,
    headers: Seq<HeaderView>,
    hosts: Seq<Answer>,
    n: int,
    fields: Fields,
) -> bool {
    &&& resolves(parse_host, headers.take(n), hosts)
    &&& read_headers(headers.take(n), hosts) == Ok::<Fields, ParseErrorView>(fields)
}

/// One header more, with the answer to it, has been read.
proof fn lemma_read_on<F: Fn(&str) -> Result<SocketAddr, String>>(
    parse_host: F,
    headers: Seq<HeaderView>,
    hosts: Seq<Answer>,
    n: int,
    fields: Fields,
    host: Answer,
)
    requires
        0 <= n < headers.len(),
        has_read(parse_host, headers, hosts, n, fields),
        is_named(headers[n], "host"@) && valid_utf8(headers[n].value) ==> resolves_to(
            parse_host,
            headers[n].value,
            host,
        ),
    ensures
        resolves(parse_host, headers.take(n + 1), hosts.push(host)),
        read_headers(headers.take(n + 1), hosts.push(host)) == read_header(
            fields,
            headers[n],
            host,
        ),
{
    let seen = headers.take(n + 1);
    let answers = hosts.push(host);
    assert(seen.drop_last() =~= headers.take(n));
    assert(answers.drop_last() =~= hosts);
    assert forall|i: int|
        #![trigger seen[i]]
        {
            &&& 0 <= i < seen.len()
            &&& is_named(seen[i], "host"@)
            &&& valid_utf8(seen[i].value)
            &&& read_headers(seen.take(i), answers.take(i)) is Ok
        } implies resolves_to(parse_host, seen[i].value, answers[i]) by {
        if i < n {
            assert(headers.take(n)[i] == seen[i]);
            assert(seen.take(i) =~= headers.take(n).take(i));
            assert(answers.take(i) =~= hosts.take(i));
        }
    }
}

/// A fault in header `n` is the outcome of the whole.
proof fn lemma_read_fault<F: Fn(&str) -> Result<SocketAddr, String>>(
    parse_host: F,
    headers: Seq<HeaderView>,
    hosts: Seq<Answer>,
    n: int,
    fields: Fields,
    host: Answer,
    error: ParseErrorView,
) -> (all: Seq<Answer>)
    requires
        0 <= n < headers.len(),
        has_read(parse_host, headers, hosts, n, fields),
        is_named(headers[n], "host"@) && valid_utf8(headers[n].value) ==> resolves_to(
            parse_host,
            headers[n].value,
            host,
        ),
        read_header(fields, headers[n], host) == Err::<Fields, ParseErrorView>(error),
    ensures
        resolves(parse_host, headers, all),
        read_headers(headers, all) == Err::<Fields, ParseErrorView>(error),
{
    lemma_read_on(parse_host, headers, hosts, n, fields, host);
    let answers = hosts.push(host);
    let all = answers + Seq::new((headers.len() - n - 1) as nat, |i: int| Err(Seq::empty()));
    assert(all.take(n + 1) =~= answers);
    lemma_fault_stays(headers, all, n + 1, error);
    assert forall|i: int|
        #![trigger headers[i]]
        {
            &&& 0 <= i < headers.len()
            &&& is_named(headers[i], "host"@)
            &&& valid_utf8(headers[i].value)
            &&& read_headers(headers.take(i), all.take(i)) is Ok
        } implies resolves_to(parse_host, headers[i].value, all[i]) by {
        if i <= n {
            let seen = headers.take(n + 1);
            assert(seen[i] == headers[i]);
            assert(seen.take(i) =~= headers.take(i));
            assert(answers.take(i) =~= all.take(i));
        } else {
            assert(headers.take(i).take(n + 1) =~= headers.take(n + 1));
            assert(all.take(i).take(n + 1) =~= answers);
            lemma_fault_stays(headers.take(i), all.take(i), n + 1, error);
        }
    }
    all
}

/// Whether `name` is `expected`, in whatever case.
fn bears_name(name: &[u8], expected: &str) -> (r: bool)
    requires
        is_ascii_chars(expected@),
    ensures
        r == same_but_case(name@, ascii(expected@)),
{
    proof {
        lemma_ascii_is_utf8(expected@);
    }
    eq_ignore_ascii_case(name, expected.as_bytes())
}

/// Whether the method of a request is `BT-SEARCH`.
fn is_bt_search(request: &Request) -> (r: bool)
    ensures
        r == (request@.method == Some(ascii("BT-SEARCH"@))),
{
    proof {
        reveal_strlit("BT-SEARCH");
        lemma_ascii_is_utf8("BT-SEARCH"@);
    }
    match &request.method {
        Some(method) => eq_bytes(method.as_slice(), "BT-SEARCH".as_bytes()),
        None => false,
    }
}

/// Reads the announcement that `request` carries. `parse_host` says which address the text of
/// a `Host` header stands for.
pub fn read_announcement<F: Fn(&str) -> Result<SocketAddr, String>>(
    request: &Request,
    parse_host: &F,
) -> (r: Result<BtSearchAnnounceMessage, ParseError>)
    requires
        forall|text: &str| call_requires(*parse_host, (text,)),
    ensures
        reads_as(*parse_host, request@, outcome(r)),
{
    if !is_bt_search(request) {
        return Err(ParseError::ExpectingBtSearch);
    }
    proof {
        reveal_strlit("host");
        reveal_strlit("port");
        reveal_strlit("infohash");
        reveal_strlit("cookie");
    }
    let mut host: Option<SocketAddr> = None;
    let mut port: Option<u16> = None;
    let mut infohash: Option<Id20> = None;
    let mut our_cookie: Option<u32> = None;
    let ghost headers = request@.headers;
    let ghost mut hosts: Seq<Answer> = Seq::empty();
    let ghost mut fields = no_fields();
    let mut i: usize = 0;
    proof {
        assert(headers.take(0) =~= Seq::empty());
    }
    while i < request.headers.len()
        invariant
            i <= request.headers@.len(),
            headers == request@.headers,
            request@.method == Some(ascii("BT-SEARCH"@)),
            forall|text: &str| call_requires(*parse_host, (text,)),
            has_read(*parse_host, headers, hosts, i as int, fields),
            fields == (Fields {
                host,
                port,
                hash: match infohash {
                    Some(id) => Some(id@),
                    None => None,
                },
                our_cookie,
            }),
            is_ascii_chars("host"@),
            is_ascii_chars("port"@),
            is_ascii_chars("infohash"@),
            is_ascii_chars("cookie"@),
        decreases request.headers@.len() - i,
    {
        let name = request.headers[i].name.as_slice();
        let value = request.headers[i].value.as_slice();
        let ghost header = headers[i as int];
        assert(header.name == name@ && header.value == value@);
        let ghost mut answer: Answer = Err(Seq::empty());
        if bears_name(name, "host") {
            let text = match utf8_text(value) {
                Ok(text) => text,
                Err(cause) => {
                    let error = ParseError::HostNotUtf8(cause);
                    proof {
                        lemma_read_fault(
                            *parse_host,
                            headers,
                            hosts,
                            i as int,
                            fields,
                            answer,
                            error@,
                        );
                    }
                    return Err(error);
                },
            };
            let resolved = parse_host(text);
            proof {
                answer = answer_of(resolved);
                assert(text.spec_bytes() == value@);
            }
            match resolved {
                Ok(addr) => {
                    host = Some(addr);
                },
                Err(cause) => {
                    let error = ParseError::InvalidHost(cause);
                    proof {
                        lemma_read_fault(
                            *parse_host,
                            headers,
                            hosts,
                            i as int,
                            fields,
                            answer,
                            error@,
                        );
                    }
                    return Err(error);
                },
            }
        } else if bears_name(name, "port") {
            port = atoi_u16(value);
            if port.is_none() {
                proof {
                    lemma_read_fault(
                        *parse_host,
                        headers,
                        hosts,
                        i as int,
                        fields,
                        answer,
                        ParseErrorView::PortNotANumber,
                    );
                }
                return Err(ParseError::PortNotANumber);
            }
        } else if bears_name(name, "infohash") {
            let text = match utf8_text(value) {
                Ok(text) => text,
                Err(cause) => {
                    let error = ParseError::InfohashNotUtf8(cause);
                    proof {
                        lemma_read_fault(
                            *parse_host,
                            headers,
                            hosts,
                            i as int,
                            fields,
                            answer,
                            error@,
                        );
                    }
                    return Err(error);
                },
            };
            match Id20::from_str(text) {
                Ok(id) => {
                    infohash = Some(id);
                },
                Err(InvalidId20(cause)) => {
                    let error = ParseError::InvalidInfohash(cause);
                    proof {
                        lemma_read_fault(
                            *parse_host,
                            headers,
                            hosts,
                            i as int,
                            fields,
                            answer,
                            error@,
                        );
                    }
                    return Err(error);
                },
            }
        } else if bears_name(name, "cookie") {
            our_cookie = atoi_u32(value);
        }
        proof {
            lemma_read_on(*parse_host, headers, hosts, i as int, fields, answer);
            hosts = hosts.push(answer);
            fields = read_header(fields, header, answer)->Ok_0;
        }
        i = i + 1;
    }
    proof {
        assert(headers.take(i as int) =~= headers);
        assert(resolves(*parse_host, headers, hosts));
    }
    match (host, port, infohash) {
        (Some(host), Some(port), Some(hash)) => Ok(
            BtSearchAnnounceMessage { hash, our_cookie, host, port },
        ),
        _ => Err(ParseError::MissingHeaders),
    }
}

/// Reads the announcement that a datagram holds, with room for `room` headers. `parse_host` says
/// which address the text of a `Host` header stands for.
pub fn try_parse_bt_search<F: Fn(&str) -> Result<SocketAddr, String>>(
    buf: &[u8],
    room: u16,
    parse_host: &F,
) -> (r: Result<BtSearchAnnounceMessage, ParseError>)
    requires
        forall|text: &str| call_requires(*parse_host, (text,)),
    ensures
        parses_as(*parse_host, buf@, room, outcome(r)),
        says_plain_request(*parse_host, buf@, room, outcome(r)),
        forall|cookie: u32, hash: Seq<u8>, port: u16, is_v6: bool|
            room >= 4 && hash.len() == 20 && buf@ == encode_utf8(
                #[trigger] announce_text(cookie, hash, port, is_v6),
            ) ==> reads_as_announced(*parse_host, cookie, hash, port, is_v6, outcome(r)),
{
    let parsed = parse_request(buf, room);
    let ghost found = request_outcome(parsed);
    let r = match parsed {
        Ok(request) => read_announcement(&request, parse_host),
        Err(text) => Err(ParseError::Request(text)),
    };
    proof {
        assert(gives_back_plain_request(buf@, room as nat, found));
        assert(says_plain_request(*parse_host, buf@, room, outcome(r)));
        assert forall|cookie: u32, hash: Seq<u8>, port: u16, is_v6: bool|
            room >= 4 && hash.len() == 20 && buf@ == encode_utf8(
                #[trigger] announce_text(cookie, hash, port, is_v6),
            ) implies reads_as_announced(
            *parse_host,
            cookie,
            hash,
            port,
            is_v6,
            outcome(r),
        ) by {
            let method = ascii("BT-SEARCH"@);
            let headers = announce_headers(cookie, hash, port, is_v6);
            lemma_announce_is_plain(cookie, hash, port, is_v6);
            lemma_announce_is_request(cookie, hash, port, is_v6);
            assert(request_bytes(method, headers).is_prefix_of(buf@));
            assert(reads_as(
                *parse_host,
                announce_request(cookie, hash, port, is_v6),
                outcome(r),
            ));
            law_announcement_reads_back(*parse_host, cookie, hash, port, is_v6, outcome(r));
        }
    }
    r
}

} // verus!
