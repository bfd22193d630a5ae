//! What a message says, by the names and values of its headers.

use vstd::prelude::*;
use vstd::string::*;
use vstd::utf8::*;

use crate::addr::{
    ipv4_text, ipv6_text, SocketAddr, SocketAddrV4, SocketAddrV6, LSD_IPV4_BITS, LSD_IPV6_BITS,
    LSD_PORT,
};
use crate::announce::{
    announce_headers, announce_text, host_text, law_announcement_reads_back,
    law_host_texts_are_the_groups, lemma_announce_is_plain, lemma_announce_is_request,
};
use crate::equivalence::{lemma_all_sound, lemma_start_is_read};
use crate::id20::{
    denotes, id_error, is_id_text, law_every_text_denotes_its_identifier,
    lemma_id_text_is_utf8,
};
use crate::message::{
    announcement, answer_of, error_text, is_named, lemma_fault_stays, outcome, parses_as,
    read_headers, reads_as, resolves, resolves_to, resolves_to_none, says_plain_request, Answer,
    BtSearchAnnounceMessage, Fields, MessageView, ParseError, ParseErrorView,
};
use crate::message_laws::{
    has_header, is_last_named, is_sound, law_complete_message_is_read,
    law_last_header_of_a_name_counts, lemma_fields_have_headers, lemma_headers_make_fields,
    lemma_names_differ,
};
use crate::request::{
    httparse_request, is_plain_request, request_bytes, HeaderView, RequestView,
};
use crate::text::{
    ascii, law_case_differs_letter_by_letter, leading_number, same_but_case, utf8_error,
};

verus! {

/// The value of `header` is what its name asks for: a host in UTF-8 that stands for an address,
/// a port that is a number of sixteen bits, an infohash that is a text of an identifier.
pub open spec fn is_well(header: HeaderView, host: Answer) -> bool {
    &&& same_but_case(header.name, ascii("host"@)) ==> valid_utf8(header.value) && host is Ok
    &&& same_but_case(header.name, ascii("port"@)) ==> leading_number(header.value, 0xffff) is Some
    &&& same_but_case(header.name, ascii("infohash"@)) ==> is_id_text(header.value)
}

/// A header bears a name exactly where it has the letters of the name, in whatever case.
pub proof fn law_names_are_letters_in_any_case(header: HeaderView, name: Seq<char>)
    ensures
        is_named(header, name) <==> header.name.len() == name.len() && forall|i: int|
            0 <= i < name.len() ==> {
                let want = #[trigger] name[i] as u8;
                ||| header.name[i] == want
                ||| 0x41 <= header.name[i] <= 0x5a && want == header.name[i] + 0x20
                ||| 0x41 <= want <= 0x5a && header.name[i] == want + 0x20
            },
{
    let a = header.name;
    let b = ascii(name);
    law_case_differs_letter_by_letter(a, b);
    if is_named(header, name) {
        assert forall|i: int| 0 <= i < name.len() implies {
            let want = #[trigger] name[i] as u8;
            ||| header.name[i] == want
            ||| 0x41 <= header.name[i] <= 0x5a && want == header.name[i] + 0x20
            ||| 0x41 <= want <= 0x5a && header.name[i] == want + 0x20
        } by {
            assert(b[i] == name[i] as u8);
        }
    } else if a.len() == b.len() {
        let i = choose|i: int|
            0 <= i < a.len() && !{
                ||| #[trigger] a[i] == b[i]
                ||| 0x41 <= a[i] <= 0x5a && b[i] == a[i] + 0x20
                ||| 0x41 <= b[i] <= 0x5a && a[i] == b[i] + 0x20
            };
        assert(b[i] == name[i] as u8);
    }
}

proof fn lemma_well_is_sound(header: HeaderView, host: Answer)
    ensures
        is_well(header, host) <==> is_sound(header, host),
{
    lemma_names_differ(header.name);
    if is_id_text(header.value) {
        lemma_id_text_is_utf8(header.value);
    }
}

/// A message is read if and only if it has a host, a port and an infohash and each value is what
/// its name asks for: a port may be any number of sixteen bits, and an infohash may be in
/// hexadecimal of either case or in base32.
pub proof fn law_message_is_read_by_its_values(headers: Seq<HeaderView>, hosts: Seq<Answer>)
    requires
        headers.len() == hosts.len(),
    ensures
        announcement(headers, hosts) is Ok <==> {
            &&& has_header(headers, "host"@)
            &&& has_header(headers, "port"@)
            &&& has_header(headers, "infohash"@)
            &&& forall|i: int| 0 <= i < headers.len() ==> is_well(#[trigger] headers[i], hosts[i])
        },
{
    assert forall|i: int| 0 <= i < headers.len() implies is_well(#[trigger] headers[i], hosts[i])
        == is_sound(headers[i], hosts[i]) by {
        lemma_well_is_sound(headers[i], hosts[i]);
    }
    if announcement(headers, hosts) is Ok {
        lemma_fields_have_headers(headers, hosts);
        lemma_all_sound(headers, hosts);
        assert forall|i: int| 0 <= i < headers.len() implies is_well(
            #[trigger] headers[i],
            hosts[i],
        ) by {
            assert(is_sound(headers[i], hosts[i]));
        }
    }
    if {
        &&& has_header(headers, "host"@)
        &&& has_header(headers, "port"@)
        &&& has_header(headers, "infohash"@)
        &&& forall|i: int| 0 <= i < headers.len() ==> is_well(#[trigger] headers[i], hosts[i])
    } {
        assert forall|i: int| 0 <= i < headers.len() implies is_sound(
            #[trigger] headers[i],
            hosts[i],
        ) by {
            assert(is_well(headers[i], hosts[i]));
        }
        law_complete_message_is_read(headers, hosts);
    }
}

/// What a message says is what the last header of each name says: the address that the host
/// stands for, the number that the port starts with, the identifier that the infohash denotes,
/// and the number that the cookie starts with, if it starts with one.
pub proof fn law_message_says_its_values(
    headers: Seq<HeaderView>,
    hosts: Seq<Answer>,
    message: MessageView,
    i: int,
)
    requires
        headers.len() == hosts.len(),
        announcement(headers, hosts) == Ok::<MessageView, ParseErrorView>(message),
    ensures
        is_last_named(headers, "host"@, i) ==> hosts[i] == Ok::<SocketAddr, Seq<char>>(
            message.host,
        ),
        is_last_named(headers, "port"@, i) ==> leading_number(headers[i].value, 0xffff) == Some(
            message.port as nat,
        ),
        is_last_named(headers, "infohash"@, i) ==> denotes(headers[i].value, message.hash),
        is_last_named(headers, "cookie"@, i) ==> {
            &&& message.our_cookie is Some <==> leading_number(headers[i].value, 0xffff_ffff)
                is Some
            &&& message.our_cookie matches Some(cookie) ==> leading_number(
                headers[i].value,
                0xffff_ffff,
            ) == Some(cookie as nat)
        },
        !has_header(headers, "cookie"@) ==> message.our_cookie is None,
{
    law_last_header_of_a_name_counts(headers, hosts, message, i);
    if is_last_named(headers, "infohash"@, i) {
        law_message_is_read_by_its_values(headers, hosts);
        assert(is_well(headers[i], hosts[i]));
        let id = law_every_text_denotes_its_identifier(headers[i].value);
    }
}

/// The first header whose value is not what its name asks for decides on the error, whatever
/// follows it.
pub proof fn law_first_bad_value_is_the_error(
    headers: Seq<HeaderView>,
    hosts: Seq<Answer>,
    n: int,
)
    requires
        0 <= n < headers.len() == hosts.len(),
        !is_well(headers[n], hosts[n]),
        forall|i: int| 0 <= i < n ==> is_well(#[trigger] headers[i], hosts[i]),
    ensures
        ({
            let value = headers[n].value;
            let result = announcement(headers, hosts);
            let refused = |error: ParseErrorView| result == Err::<MessageView, _>(error);
            &&& is_named(headers[n], "host"@) && !valid_utf8(value) ==> refused(
                ParseErrorView::HostNotUtf8(utf8_error(value)),
            )
            &&& is_named(headers[n], "host"@) && valid_utf8(value) ==> hosts[n] is Err && refused(
                ParseErrorView::InvalidHost(hosts[n]->Err_0),
            )
            &&& is_named(headers[n], "port"@) ==> refused(ParseErrorView::PortNotANumber)
            &&& is_named(headers[n], "infohash"@) && !valid_utf8(value) ==> refused(
                ParseErrorView::InfohashNotUtf8(utf8_error(value)),
            )
            &&& is_named(headers[n], "infohash"@) && valid_utf8(value) ==> refused(
                ParseErrorView::InvalidInfohash(id_error(value)),
            )
            &&& is_named(headers[n], "host"@) || is_named(headers[n], "port"@) || is_named(
                headers[n],
                "infohash"@,
            )
        }),
{
    let start = headers.take(n);
    let start_hosts = hosts.take(n);
    assert forall|i: int| 0 <= i < n implies is_sound(#[trigger] start[i], start_hosts[i]) by {
        assert(is_well(headers[i], hosts[i]));
        lemma_well_is_sound(headers[i], hosts[i]);
    }
    lemma_headers_make_fields(start, start_hosts);
    lemma_names_differ(headers[n].name);
    lemma_well_is_sound(headers[n], hosts[n]);
    assert(headers.take(n + 1).drop_last() =~= start);
    assert(hosts.take(n + 1).drop_last() =~= start_hosts);
    assert(headers.take(n + 1).last() == headers[n]);
    let error = read_headers(headers.take(n + 1), hosts.take(n + 1))->Err_0;
    lemma_fault_stays(headers, hosts, n + 1, error);
}

/// A message without bad values that lacks one of the three headers is refused for that.
pub proof fn law_missing_headers_are_the_error(headers: Seq<HeaderView>, hosts: Seq<Answer>)
    requires
        headers.len() == hosts.len(),
        forall|i: int| 0 <= i < headers.len() ==> is_well(#[trigger] headers[i], hosts[i]),
        !has_header(headers, "host"@) || !has_header(headers, "port"@) || !has_header(
            headers,
            "infohash"@,
        ),
    ensures
        announcement(headers, hosts) == Err::<MessageView, ParseErrorView>(
            ParseErrorView::MissingHeaders,
        ),
{
    assert forall|i: int| 0 <= i < headers.len() implies is_sound(
        #[trigger] headers[i],
        hosts[i],
    ) by {
        lemma_well_is_sound(headers[i], hosts[i]);
        assert(is_well(headers[i], hosts[i]));
    }
    lemma_headers_make_fields(headers, hosts);
    lemma_fields_have_headers(headers, hosts);
}

/// The value of `header` is what its name asks for, whatever `parse_host` answers.
pub open spec fn is_surely_well<F: Fn(&str) -> Result<SocketAddr, String>>(
    parse_host: F,
    header: HeaderView,
) -> bool {
    &&& same_but_case(header.name, ascii("host"@)) ==> valid_utf8(header.value)
        && !resolves_to_none(parse_host, header.value)
    &&& same_but_case(header.name, ascii("port"@)) ==> leading_number(header.value, 0xffff) is Some
    &&& same_but_case(header.name, ascii("infohash"@)) ==> is_id_text(header.value)
}

proof fn lemma_surely_well<F: Fn(&str) -> Result<SocketAddr, String>>(
    parse_host: F,
    headers: Seq<HeaderView>,
    hosts: Seq<Answer>,
    n: int,
)
    requires
        0 <= n <= headers.len(),
        resolves(parse_host, headers, hosts),
        forall|i: int|
            0 <= i < headers.len() ==> is_surely_well(parse_host, #[trigger] headers[i]),
    ensures
        forall|i: int| 0 <= i < n ==> is_well(#[trigger] headers[i], hosts[i]),
    decreases n,
{
    if n > 0 {
        lemma_surely_well(parse_host, headers, hosts, n - 1);
        let start = headers.take(n - 1);
        let start_hosts = hosts.take(n - 1);
        assert forall|i: int| 0 <= i < n - 1 implies is_sound(
            #[trigger] start[i],
            start_hosts[i],
        ) by {
            assert(is_well(headers[i], hosts[i]));
            lemma_well_is_sound(headers[i], hosts[i]);
        }
        lemma_headers_make_fields(start, start_hosts);
        let header = headers[n - 1];
        assert(is_surely_well(parse_host, header));
        if same_but_case(header.name, ascii("host"@)) {
            assert(is_named(header, "host"@));
            assert(resolves_to(parse_host, header.value, hosts[n - 1]));
            if hosts[n - 1] is Err {
                let cause = hosts[n - 1]->Err_0;
                assert(resolves_to(parse_host, header.value, Err(cause)));
            }
        }
    }
}

/// A `BT-SEARCH` request with a host that stands for an address, a port that is a number and an
/// infohash that is a text of an identifier, in hexadecimal of either case or in base32, is an
/// announcement.
pub proof fn law_request_with_good_values_is_read<F: Fn(&str) -> Result<SocketAddr, String>>(
    parse_host: F,
    request: RequestView,
    result: Result<MessageView, ParseErrorView>,
)
    requires
        request.method == Some(ascii("BT-SEARCH"@)),
        has_header(request.headers, "host"@),
        has_header(request.headers, "port"@),
        has_header(request.headers, "infohash"@),
        forall|i: int|
            0 <= i < request.headers.len() ==> is_surely_well(
                parse_host,
                #[trigger] request.headers[i],
            ),
        reads_as(parse_host, request, result),
    ensures
        result is Ok,
{
    let headers = request.headers;
    let hosts = choose|hosts: Seq<Answer>| #[trigger]
        resolves(parse_host, headers, hosts) && result == announcement(headers, hosts);
    lemma_surely_well(parse_host, headers, hosts, headers.len() as int);
    law_message_is_read_by_its_values(headers, hosts);
}

/// A request that is an announcement says what the last header of each name says, and each of
/// its values is what its name asks for.
pub proof fn law_request_says_its_values<F: Fn(&str) -> Result<SocketAddr, String>>(
    parse_host: F,
    request: RequestView,
    message: MessageView,
    i: int,
)
    requires
        reads_as(parse_host, request, Ok(message)),
        0 <= i < request.headers.len(),
    ensures
        request.method == Some(ascii("BT-SEARCH"@)),
        has_header(request.headers, "host"@),
        has_header(request.headers, "port"@),
        has_header(request.headers, "infohash"@),
        is_named(request.headers[i], "host"@) ==> valid_utf8(request.headers[i].value),
        is_named(request.headers[i], "port"@) ==> leading_number(request.headers[i].value, 0xffff)
            is Some,
        is_named(request.headers[i], "infohash"@) ==> is_id_text(request.headers[i].value),
        is_last_named(request.headers, "host"@, i) ==> resolves_to(
            parse_host,
            request.headers[i].value,
            Ok(message.host),
        ),
        is_last_named(request.headers, "port"@, i) ==> leading_number(
            request.headers[i].value,
            0xffff,
        ) == Some(message.port as nat),
        is_last_named(request.headers, "infohash"@, i) ==> denotes(
            request.headers[i].value,
            message.hash,
        ),
        is_last_named(request.headers, "cookie"@, i) ==> {
            &&& message.our_cookie is Some <==> leading_number(
                request.headers[i].value,
                0xffff_ffff,
            ) is Some
            &&& message.our_cookie matches Some(cookie) ==> leading_number(
                request.headers[i].value,
                0xffff_ffff,
            ) == Some(cookie as nat)
        },
        !has_header(request.headers, "cookie"@) ==> message.our_cookie is None,
{
    let headers = request.headers;
    let result = Ok::<MessageView, ParseErrorView>(message);
    let hosts = choose|hosts: Seq<Answer>| #[trigger]
        resolves(parse_host, headers, hosts) && result == announcement(headers, hosts);
    law_message_says_its_values(headers, hosts, message, i);
    law_message_is_read_by_its_values(headers, hosts);
    assert(is_well(headers[i], hosts[i]));
    lemma_start_is_read(headers, hosts, i);
}

/// A request is refused where its method is another one or one of its values is not what its
/// name asks for.
pub proof fn law_request_with_a_bad_value_is_refused<F: Fn(&str) -> Result<SocketAddr, String>>(
    parse_host: F,
    request: RequestView,
    result: Result<MessageView, ParseErrorView>,
    i: int,
)
    requires
        reads_as(parse_host, request, result),
    ensures
        request.method != Some(ascii("BT-SEARCH"@)) ==> result == Err::<MessageView, _>(
            ParseErrorView::ExpectingBtSearch,
        ),
        result matches Err(ParseErrorView::ExpectingBtSearch) ==> request.method != Some(
            ascii("BT-SEARCH"@),
        ),
        result !is Err || result->Err_0 !is Request,
        0 <= i < request.headers.len() ==> {
            let header = request.headers[i];
            &&& is_named(header, "host"@) && !valid_utf8(header.value) ==> result is Err
            &&& is_named(header, "host"@) && (forall|host: SocketAddr|
                !#[trigger] resolves_to(parse_host, header.value, Ok(host))) ==> result is Err
            &&& is_named(header, "port"@) && leading_number(header.value, 0xffff) is None
                ==> result is Err
            &&& is_named(header, "infohash"@) && !is_id_text(header.value) ==> result is Err
        },
{
    if request.method == Some(ascii("BT-SEARCH"@)) {
        let headers = request.headers;
        let hosts = choose|hosts: Seq<Answer>| #[trigger]
            resolves(parse_host, headers, hosts) && result == announcement(headers, hosts);
        lemma_errors_of_headers(headers, hosts);
        if result is Ok && 0 <= i < headers.len() {
            law_message_is_read_by_its_values(headers, hosts);
            assert(is_well(headers[i], hosts[i]));
            lemma_start_is_read(headers, hosts, i);
            if is_named(headers[i], "host"@) {
                assert(resolves_to(parse_host, headers[i].value, hosts[i]));
                assert(resolves_to(parse_host, headers[i].value, Ok(hosts[i]->Ok_0)));
            }
        }
    }
}

proof fn lemma_errors_of_headers(headers: Seq<HeaderView>, hosts: Seq<Answer>)
    ensures
        read_headers(headers, hosts) matches Err(error) ==> error !is ExpectingBtSearch && error
            !is Request,
    decreases headers.len(),
{
    if headers.len() > 0 {
        lemma_errors_of_headers(headers.drop_last(), hosts.drop_last());
    }
}

/// Where a host is refused, `parse_host` was asked for the value of a host header and gave just
/// that cause.
pub proof fn law_refused_host_was_answered_so<F: Fn(&str) -> Result<SocketAddr, String>>(
    parse_host: F,
    request: RequestView,
    cause: Seq<char>,
)
    requires
        reads_as(parse_host, request, Err(ParseErrorView::InvalidHost(cause))),
    ensures
        exists|i: int|
            0 <= i < request.headers.len() && is_named(#[trigger] request.headers[i], "host"@)
                && resolves_to(parse_host, request.headers[i].value, Err(cause)),
{
    let headers = request.headers;
    let result = Err::<MessageView, ParseErrorView>(ParseErrorView::InvalidHost(cause));
    let hosts = choose|hosts: Seq<Answer>| #[trigger]
        resolves(parse_host, headers, hosts) && result == announcement(headers, hosts);
    let i = lemma_refused_host(headers, hosts, cause);
    assert(resolves_to(parse_host, headers[i].value, hosts[i]));
}

proof fn lemma_refused_host(headers: Seq<HeaderView>, hosts: Seq<Answer>, cause: Seq<char>) -> (i:
    int)
    requires
        headers.len() == hosts.len(),
        read_headers(headers, hosts) == Err::<Fields, ParseErrorView>(
            ParseErrorView::InvalidHost(cause),
        ),
    ensures
        0 <= i < headers.len(),
        is_named(headers[i], "host"@),
        valid_utf8(headers[i].value),
        hosts[i] == Err::<SocketAddr, Seq<char>>(cause),
        read_headers(headers.take(i), hosts.take(i)) is Ok,
    decreases headers.len(),
{
    let rest = headers.drop_last();
    let rest_hosts = hosts.drop_last();
    if read_headers(rest, rest_hosts) is Err {
        let i = lemma_refused_host(rest, rest_hosts, cause);
        assert(rest.take(i) =~= headers.take(i));
        assert(rest_hosts.take(i) =~= hosts.take(i));
        i
    } else {
        let i = headers.len() - 1;
        assert(rest =~= headers.take(i));
        assert(rest_hosts =~= hosts.take(i));
        i
    }
}

/// A datagram that starts with a plain `BT-SEARCH` request, with room for its headers, is an
/// announcement where its values are what their names ask for; and it says what the last header
/// of each name says.
pub proof fn law_datagram_with_good_values_is_read<F: Fn(&str) -> Result<SocketAddr, String>>(
    parse_host: F,
    buf: Seq<u8>,
    room: u16,
    headers: Seq<HeaderView>,
    result: Result<MessageView, ParseErrorView>,
    i: int,
)
    requires
        is_plain_request(ascii("BT-SEARCH"@), headers),
        headers.len() <= room,
        request_bytes(ascii("BT-SEARCH"@), headers).is_prefix_of(buf),
        has_header(headers, "host"@),
        has_header(headers, "port"@),
        has_header(headers, "infohash"@),
        forall|k: int|
            0 <= k < headers.len() ==> is_surely_well(parse_host, #[trigger] headers[k]),
        says_plain_request(parse_host, buf, room, result),
        0 <= i < headers.len(),
    ensures
        result matches Ok(message) && {
            &&& is_last_named(headers, "host"@, i) ==> resolves_to(
                parse_host,
                headers[i].value,
                Ok(message.host),
            )
            &&& is_last_named(headers, "port"@, i) ==> leading_number(headers[i].value, 0xffff)
                == Some(message.port as nat)
            &&& is_last_named(headers, "infohash"@, i) ==> denotes(
                headers[i].value,
                message.hash,
            )
            &&& is_last_named(headers, "cookie"@, i) && message.our_cookie is Some
                ==> leading_number(headers[i].value, 0xffff_ffff) == Some(
                message.our_cookie->0 as nat,
            )
            &&& is_last_named(headers, "cookie"@, i) && message.our_cookie is None
                ==> leading_number(headers[i].value, 0xffff_ffff) is None
            &&& !has_header(headers, "cookie"@) ==> message.our_cookie is None
        },
{
    let request = RequestView { method: Some(ascii("BT-SEARCH"@)), headers };
    assert(reads_as(parse_host, request, result));
    law_request_with_good_values_is_read(parse_host, request, result);
    law_request_says_its_values(parse_host, request, result->Ok_0, i);
}

/// What a datagram says is what the request in it says; where there is none, the words of the
/// error are handed on.
pub proof fn law_datagram_says_its_request<F: Fn(&str) -> Result<SocketAddr, String>>(
    parse_host: F,
    buf: Seq<u8>,
    room: u16,
    result: Result<MessageView, ParseErrorView>,
)
    ensures
        parses_as(parse_host, buf, room, result) ==> (match httparse_request(buf, room as nat) {
            Ok(request) => reads_as(parse_host, request, result),
            Err(text) => result == Err::<MessageView, _>(ParseErrorView::Request(text)),
        }),
{
}

/// The answer to the text of a host is the one that `parse_host` gave to exactly that text.
pub proof fn law_hosts_are_answered_as_they_stand<F: Fn(&str) -> Result<SocketAddr, String>>(
    parse_host: F,
    text: &str,
    answer: Result<SocketAddr, String>,
    value: Seq<u8>,
    host: Answer,
)
    ensures
        call_ensures(parse_host, (text,), answer) ==> resolves_to(
            parse_host,
            text.spec_bytes(),
            answer_of(answer),
        ),
        resolves_to(parse_host, value, host) ==> exists|t: &str, a: Result<SocketAddr, String>|
            t.spec_bytes() == value && #[trigger] call_ensures(parse_host, (t,), a) && (match a {
                Ok(addr) => host == Ok::<SocketAddr, Seq<char>>(addr),
                Err(words) => host == Err::<SocketAddr, Seq<char>>(words@),
            }),
        answer matches Ok(addr) ==> answer_of(answer) == Ok::<SocketAddr, Seq<char>>(addr),
        answer matches Err(words) ==> answer_of(answer) == Err::<SocketAddr, Seq<char>>(words@),
{
}

/// A message holds what stands in it, and so does the result of reading one.
pub proof fn law_message_holds_its_parts(message: BtSearchAnnounceMessage, error: ParseError)
    ensures
        message@.hash == message.hash@,
        message@.our_cookie == message.our_cookie,
        message@.host == message.host,
        message@.port == message.port,
        outcome(Ok(message)) == Ok::<MessageView, ParseErrorView>(message@),
        outcome(Err(error)) == Err::<MessageView, ParseErrorView>(error@),
        error matches ParseError::Request(cause) ==> error@ == ParseErrorView::Request(cause@),
        error is ExpectingBtSearch <==> error@ is ExpectingBtSearch,
        error matches ParseError::HostNotUtf8(cause) ==> error@ == ParseErrorView::HostNotUtf8(
            cause@,
        ),
        error matches ParseError::InvalidHost(cause) ==> error@ == ParseErrorView::InvalidHost(
            cause@,
        ),
        error is PortNotANumber <==> error@ is PortNotANumber,
        error matches ParseError::InfohashNotUtf8(cause) ==> error@
            == ParseErrorView::InfohashNotUtf8(cause@),
        error matches ParseError::InvalidInfohash(cause) ==> error@
            == ParseErrorView::InvalidInfohash(cause@),
        error is MissingHeaders <==> error@ is MissingHeaders,
{
}

/// The words for an error end in the words for its cause, whatever they are.
pub proof fn law_words_of_the_cause_are_kept(cause: Seq<char>)
    ensures
        error_text(ParseErrorView::Request(cause)) == "error parsing request: "@ + cause,
        error_text(ParseErrorView::HostNotUtf8(cause)) == "invalid utf-8 in host header: "@ + cause,
        error_text(ParseErrorView::InvalidHost(cause)) == "invalid IP in host header: "@ + cause,
        error_text(ParseErrorView::InfohashNotUtf8(cause)) == "infohash isn't utf-8: "@ + cause,
        error_text(ParseErrorView::InvalidInfohash(cause)) == "invalid infohash header: "@ + cause,
{
}

/// The IPv4 group of local service discovery.
pub open spec fn group_v4() -> SocketAddrV4 {
    SocketAddrV4 { ip: LSD_IPV4_BITS, port: LSD_PORT }
}

/// The IPv6 group of local service discovery.
pub open spec fn group_v6() -> SocketAddrV6 {
    SocketAddrV6 { ip: LSD_IPV6_BITS, port: LSD_PORT, flowinfo: 0, scope_id: 0 }
}

/// An announcement that was written is read, by whoever knows the address of the group: the
/// torrent, the port and the cookie are those that it was written with, and the host is the
/// address of the group in that family.
pub proof fn law_written_announcement_is_read<F: Fn(&str) -> Result<SocketAddr, String>>(
    parse_host: F,
    cookie: u32,
    hash: Seq<u8>,
    port: u16,
    is_v6: bool,
    room: u16,
    group: Seq<char>,
    result: Result<MessageView, ParseErrorView>,
)
    requires
        hash.len() == 20,
        room >= 4,
        is_v6 ==> group == ipv6_text(group_v6()),
        !is_v6 ==> group == ipv4_text(group_v4()),
        !resolves_to_none(parse_host, encode_utf8(group)),
        says_plain_request(
            parse_host,
            encode_utf8(announce_text(cookie, hash, port, is_v6)),
            room,
            result,
        ),
    ensures
        result matches Ok(message) && {
            &&& message.hash == hash
            &&& message.port == port
            &&& message.our_cookie == Some(cookie)
            &&& resolves_to(parse_host, encode_utf8(group), Ok(message.host))
        },
{
    let buf = encode_utf8(announce_text(cookie, hash, port, is_v6));
    let method = ascii("BT-SEARCH"@);
    let headers = announce_headers(cookie, hash, port, is_v6);
    law_host_texts_are_the_groups(group_v4(), group_v6());
    assert(group == host_text(is_v6));
    lemma_announce_is_plain(cookie, hash, port, is_v6);
    lemma_announce_is_request(cookie, hash, port, is_v6);
    assert(request_bytes(method, headers).is_prefix_of(buf));
    assert(reads_as(parse_host, RequestView { method: Some(method), headers }, result));
    law_announcement_reads_back(parse_host, cookie, hash, port, is_v6, result);
}

} // verus!
