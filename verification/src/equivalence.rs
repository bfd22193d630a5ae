//! Requests that say the same: the order of headers, the case of their names and headers of
//! other names do not matter.

use vstd::prelude::*;
use vstd::utf8::*;

use crate::addr::SocketAddr;
use crate::message::{
    announcement, is_named, lemma_fault_stays, parses_as, read_headers, reads_as, resolves,
    resolves_to, says_plain_request, Answer, MessageView, ParseErrorView,
};
use crate::message_laws::{
    has_header, is_last_named, is_sound, is_unknown, law_complete_message_is_read,
    law_last_header_of_a_name_counts, lemma_fields_have_headers,
};
use crate::request::{
    httparse_request, is_plain_request, request_bytes, HeaderView, RequestView,
};
use crate::text::{ascii, same_but_case};

verus! {

/// `parse_host` gives one answer to one text.
pub open spec fn gives_one_answer<F: Fn(&str) -> Result<SocketAddr, String>>(
    parse_host: F,
) -> bool {
    forall|value: Seq<u8>, x: Answer, y: Answer| #[trigger]
        resolves_to(parse_host, value, x) && #[trigger] resolves_to(parse_host, value, y) ==> x
            == y
}

/// At most one of `headers` bears the name `name`.
pub open spec fn is_once(headers: Seq<HeaderView>, name: Seq<char>) -> bool {
    forall|i: int, j: int|
        0 <= i < j < headers.len() && is_named(#[trigger] headers[i], name) ==> !is_named(
            #[trigger] headers[j],
            name,
        )
}

/// Each of the four names occurs at most once.
pub open spec fn names_are_once(headers: Seq<HeaderView>) -> bool {
    &&& is_once(headers, "host"@)
    &&& is_once(headers, "port"@)
    &&& is_once(headers, "infohash"@)
    &&& is_once(headers, "cookie"@)
}

/// The two headers have the same name, in whatever case, and the same value.
pub open spec fn agree(x: HeaderView, y: HeaderView) -> bool {
    same_but_case(x.name, y.name) && x.value == y.value
}

/// Each header of `a` that bears one of the four names stands in `b` too.
pub open spec fn is_covered(a: Seq<HeaderView>, b: Seq<HeaderView>) -> bool {
    forall|i: int|
        0 <= i < a.len() && !is_unknown(#[trigger] a[i]) ==> exists|j: int|
            0 <= j < b.len() && agree(a[i], #[trigger] b[j])
}

/// `a` and `b` have each of the four names at most once, with the same values; the order of
/// the headers, the case of their names and the headers of other names may differ.
pub open spec fn are_alike(a: Seq<HeaderView>, b: Seq<HeaderView>) -> bool {
    &&& names_are_once(a)
    &&& names_are_once(b)
    &&& is_covered(a, b)
    &&& is_covered(b, a)
}

/// Where there is no fault, each header could be read.
pub proof fn lemma_all_sound(headers: Seq<HeaderView>, hosts: Seq<Answer>)
    requires
        headers.len() == hosts.len(),
        read_headers(headers, hosts) is Ok,
    ensures
        forall|i: int| 0 <= i < headers.len() ==> is_sound(#[trigger] headers[i], hosts[i]),
    decreases headers.len(),
{
    if headers.len() > 0 {
        let rest = headers.drop_last();
        let rest_hosts = hosts.drop_last();
        lemma_all_sound(rest, rest_hosts);
        assert forall|i: int| 0 <= i < headers.len() implies is_sound(
            #[trigger] headers[i],
            hosts[i],
        ) by {
            if i < rest.len() {
                assert(is_sound(rest[i], rest_hosts[i]));
            }
        }
    }
}

/// Where there is no fault, there is none at the start.
pub proof fn lemma_start_is_read(headers: Seq<HeaderView>, hosts: Seq<Answer>, n: int)
    requires
        0 <= n <= headers.len() == hosts.len(),
        read_headers(headers, hosts) is Ok,
    ensures
        read_headers(headers.take(n), hosts.take(n)) is Ok,
{
    match read_headers(headers.take(n), hosts.take(n)) {
        Ok(_) => {},
        Err(error) => {
            lemma_fault_stays(headers, hosts, n, error);
        },
    }
}

/// The place of the header of `a` that agrees with header `j` of `b`.
proof fn lemma_place(a: Seq<HeaderView>, b: Seq<HeaderView>, name: Seq<char>, j: int) -> (i: int)
    requires
        is_covered(b, a),
        is_once(a, name),
        0 <= j < b.len(),
        is_named(b[j], name),
        !is_unknown(b[j]),
    ensures
        agree(b[j], a[i]),
        is_last_named(a, name, i),
{
    let i = choose|i: int| 0 <= i < a.len() && agree(b[j], #[trigger] a[i]);
    assert(is_named(a[i], name));
    i
}

/// Headers that are like the headers of a message make up the same message.
proof fn lemma_alike<F: Fn(&str) -> Result<SocketAddr, String>>(
    parse_host: F,
    a: Seq<HeaderView>,
    b: Seq<HeaderView>,
    hosts: Seq<Answer>,
    message: MessageView,
) -> (answers: Seq<Answer>)
    requires
        are_alike(a, b),
        resolves(parse_host, a, hosts),
        announcement(a, hosts) == Ok::<MessageView, ParseErrorView>(message),
    ensures
        resolves(parse_host, b, answers),
        announcement(b, answers) == Ok::<MessageView, ParseErrorView>(message),
{
    let answers = Seq::new(b.len(), |j: int| Ok::<SocketAddr, Seq<char>>(message.host));
    lemma_all_sound(a, hosts);
    lemma_fields_have_headers(a, hosts);
    assert forall|j: int| #![trigger b[j]] 0 <= j < b.len() && is_named(b[j], "host"@) implies {
        &&& resolves_to(parse_host, b[j].value, answers[j])
        &&& valid_utf8(b[j].value)
    } by {
        let i = lemma_place(a, b, "host"@, j);
        law_last_header_of_a_name_counts(a, hosts, message, i);
        lemma_start_is_read(a, hosts, i);
        assert(is_sound(a[i], hosts[i]));
        assert(is_named(a[i], "host"@));
    }
    assert(resolves(parse_host, b, answers));
    assert forall|j: int| 0 <= j < b.len() implies is_sound(#[trigger] b[j], answers[j]) by {
        if !is_unknown(b[j]) && !is_named(b[j], "host"@) {
            let i = choose|i: int| 0 <= i < a.len() && agree(b[j], #[trigger] a[i]);
            assert(is_sound(a[i], hosts[i]));
        }
    }
    assert forall|name: Seq<char>|
        {
            &&& #[trigger] has_header(a, name)
            &&& name == "host"@ || name == "port"@ || name == "infohash"@ || name == "cookie"@
        } implies has_header(b, name) by {
        let i = choose|i: int| 0 <= i < a.len() && is_named(#[trigger] a[i], name);
        let j = choose|j: int| 0 <= j < b.len() && agree(a[i], #[trigger] b[j]);
        assert(is_named(b[j], name));
    }
    law_complete_message_is_read(b, answers);
    let found = announcement(b, answers)->Ok_0;
    lemma_parts_agree(a, b, hosts, answers, message, found);
    answers
}

proof fn lemma_parts_agree(
    a: Seq<HeaderView>,
    b: Seq<HeaderView>,
    hosts: Seq<Answer>,
    answers: Seq<Answer>,
    message: MessageView,
    found: MessageView,
)
    requires
        are_alike(a, b),
        a.len() == hosts.len(),
        b.len() == answers.len(),
        announcement(a, hosts) == Ok::<MessageView, ParseErrorView>(message),
        announcement(b, answers) == Ok::<MessageView, ParseErrorView>(found),
        forall|j: int|
            0 <= j < b.len() ==> #[trigger] answers[j] == Ok::<SocketAddr, Seq<char>>(message.host),
    ensures
        found == message,
{
    lemma_fields_have_headers(b, answers);
    let h = choose|j: int| 0 <= j < b.len() && is_named(#[trigger] b[j], "host"@);
    law_last_header_of_a_name_counts(b, answers, found, h);
    let p = choose|j: int| 0 <= j < b.len() && is_named(#[trigger] b[j], "port"@);
    law_last_header_of_a_name_counts(b, answers, found, p);
    let i = lemma_place(a, b, "port"@, p);
    law_last_header_of_a_name_counts(a, hosts, message, i);
    let q = choose|j: int| 0 <= j < b.len() && is_named(#[trigger] b[j], "infohash"@);
    law_last_header_of_a_name_counts(b, answers, found, q);
    let i = lemma_place(a, b, "infohash"@, q);
    law_last_header_of_a_name_counts(a, hosts, message, i);
    if has_header(b, "cookie"@) {
        let c = choose|j: int| 0 <= j < b.len() && is_named(#[trigger] b[j], "cookie"@);
        law_last_header_of_a_name_counts(b, answers, found, c);
        let i = lemma_place(a, b, "cookie"@, c);
        law_last_header_of_a_name_counts(a, hosts, message, i);
    } else if has_header(a, "cookie"@) {
        let i = choose|i: int| 0 <= i < a.len() && is_named(#[trigger] a[i], "cookie"@);
        let j = choose|j: int| 0 <= j < b.len() && agree(a[i], #[trigger] b[j]);
        assert(is_named(b[j], "cookie"@));
    } else {
        law_last_header_of_a_name_counts(a, hosts, message, 0);
    }
}

/// Where a request with each of the four names at most once is a message, every request that
/// is like it, but for the order of the headers, the case of their names and headers of other
/// names, is the same message.
pub proof fn law_like_requests_say_the_same<F: Fn(&str) -> Result<SocketAddr, String>>(
    parse_host: F,
    method: Option<Seq<u8>>,
    a: Seq<HeaderView>,
    b: Seq<HeaderView>,
    result: Result<MessageView, ParseErrorView>,
)
    requires
        are_alike(a, b),
        reads_as(parse_host, RequestView { method, headers: a }, result),
        result is Ok,
    ensures
        reads_as(parse_host, RequestView { method, headers: b }, result),
{
    let hosts = choose|hosts: Seq<Answer>| #[trigger]
        resolves(parse_host, a, hosts) && result == announcement(a, hosts);
    let answers = lemma_alike(parse_host, a, b, hosts, result->Ok_0);
    assert(resolves(parse_host, b, answers));
}

/// The order of headers that bear different names does not matter.
pub proof fn law_order_of_headers_does_not_matter<F: Fn(&str) -> Result<SocketAddr, String>>(
    parse_host: F,
    method: Option<Seq<u8>>,
    a: Seq<HeaderView>,
    b: Seq<HeaderView>,
    result: Result<MessageView, ParseErrorView>,
)
    requires
        a.to_multiset() == b.to_multiset(),
        names_are_once(a),
        reads_as(parse_host, RequestView { method, headers: a }, result),
        result is Ok,
    ensures
        reads_as(parse_host, RequestView { method, headers: b }, result),
{
    a.to_multiset_ensures();
    b.to_multiset_ensures();
    lemma_once_in_any_order(a, b, "host"@);
    lemma_once_in_any_order(a, b, "port"@);
    lemma_once_in_any_order(a, b, "infohash"@);
    lemma_once_in_any_order(a, b, "cookie"@);
    assert forall|i: int| 0 <= i < a.len() && !is_unknown(#[trigger] a[i]) implies exists|j: int|
        0 <= j < b.len() && agree(a[i], #[trigger] b[j]) by {
        assert(a.contains(a[i]));
        assert(a.to_multiset().count(a[i]) > 0);
        assert(b.contains(a[i]));
    }
    assert forall|i: int| 0 <= i < b.len() && !is_unknown(#[trigger] b[i]) implies exists|j: int|
        0 <= j < a.len() && agree(b[i], #[trigger] a[j]) by {
        assert(b.contains(b[i]));
        assert(b.to_multiset().count(b[i]) > 0);
        assert(a.contains(b[i]));
    }
    law_like_requests_say_the_same(parse_host, method, a, b, result);
}

proof fn lemma_once_in_any_order(a: Seq<HeaderView>, b: Seq<HeaderView>, name: Seq<char>)
    requires
        a.to_multiset() == b.to_multiset(),
        is_once(a, name),
    ensures
        is_once(b, name),
{
    a.to_multiset_ensures();
    b.to_multiset_ensures();
    assert forall|j: int, k: int|
        0 <= j < k < b.len() && is_named(#[trigger] b[j], name) implies !is_named(
        #[trigger] b[k],
        name,
    ) by {
        if is_named(b[k], name) {
            assert(b.contains(b[j]));
            assert(b.to_multiset().count(b[j]) > 0);
            assert(a.contains(b[j]));
            let i = choose|i: int| 0 <= i < a.len() && a[i] == b[j];
            let rest = b.remove(j);
            rest.to_multiset_ensures();
            assert(rest[k - 1] == b[k]);
            assert(rest.contains(b[k]));
            assert(rest.to_multiset().count(b[k]) > 0);
            let others = a.remove(i);
            others.to_multiset_ensures();
            assert(others.to_multiset() == rest.to_multiset());
            assert(others.contains(b[k]));
            let m = choose|m: int| 0 <= m < others.len() && others[m] == b[k];
            let l = if m < i { m } else { m + 1 };
            assert(a[l] == b[k]);
            if i < l {
                assert(!is_named(a[l], name));
            } else {
                assert(!is_named(a[i], name));
            }
        }
    }
}

proof fn lemma_read_alike<F: Fn(&str) -> Result<SocketAddr, String>>(
    parse_host: F,
    headers: Seq<HeaderView>,
    x: Seq<Answer>,
    y: Seq<Answer>,
    n: int,
)
    requires
        gives_one_answer(parse_host),
        resolves(parse_host, headers, x),
        resolves(parse_host, headers, y),
        0 <= n <= headers.len(),
    ensures
        read_headers(headers.take(n), x.take(n)) == read_headers(headers.take(n), y.take(n)),
    decreases n,
{
    if n > 0 {
        lemma_read_alike(parse_host, headers, x, y, n - 1);
        assert(headers.take(n).drop_last() =~= headers.take(n - 1));
        assert(x.take(n).drop_last() =~= x.take(n - 1));
        assert(y.take(n).drop_last() =~= y.take(n - 1));
        let header = headers[n - 1];
        assert(headers.take(n).last() == header);
        if is_named(header, "host"@) && valid_utf8(header.value) && read_headers(
            headers.take(n - 1),
            x.take(n - 1),
        ) is Ok {
            assert(resolves_to(parse_host, header.value, x[n - 1]));
            assert(resolves_to(parse_host, header.value, y[n - 1]));
        }
    }
}

/// Where one text has one answer, a request says one thing.
pub proof fn law_reading_is_determined<F: Fn(&str) -> Result<SocketAddr, String>>(
    parse_host: F,
    request: RequestView,
    r1: Result<MessageView, ParseErrorView>,
    r2: Result<MessageView, ParseErrorView>,
)
    requires
        gives_one_answer(parse_host),
        reads_as(parse_host, request, r1),
        reads_as(parse_host, request, r2),
    ensures
        r1 == r2,
{
    if request.method == Some(ascii("BT-SEARCH"@)) {
        let headers = request.headers;
        let x = choose|hosts: Seq<Answer>| #[trigger]
            resolves(parse_host, headers, hosts) && r1 == announcement(headers, hosts);
        let y = choose|hosts: Seq<Answer>| #[trigger]
            resolves(parse_host, headers, hosts) && r2 == announcement(headers, hosts);
        let n = headers.len() as int;
        lemma_read_alike(parse_host, headers, x, y, n);
        assert(headers.take(n) =~= headers);
        assert(x.take(n) =~= x);
        assert(y.take(n) =~= y);
    }
}

/// Where one text has one answer, a datagram says one thing.
pub proof fn law_datagram_is_determined<F: Fn(&str) -> Result<SocketAddr, String>>(
    parse_host: F,
    buf: Seq<u8>,
    room: u16,
    r1: Result<MessageView, ParseErrorView>,
    r2: Result<MessageView, ParseErrorView>,
)
    requires
        gives_one_answer(parse_host),
        parses_as(parse_host, buf, room, r1),
        parses_as(parse_host, buf, room, r2),
    ensures
        r1 == r2,
{
    match httparse_request(buf, room as nat) {
        Ok(request) => law_reading_is_determined(parse_host, request, r1, r2),
        Err(_) => {},
    }
}

/// Two datagrams whose headers are alike are both messages or neither is, and as messages they
/// are the same: reordering the header lines, changing the case of their names and adding
/// headers of other names changes nothing.
pub proof fn law_like_datagrams_say_the_same<F: Fn(&str) -> Result<SocketAddr, String>>(
    parse_host: F,
    method: Seq<u8>,
    a: Seq<HeaderView>,
    b: Seq<HeaderView>,
    buf1: Seq<u8>,
    buf2: Seq<u8>,
    room: u16,
    r1: Result<MessageView, ParseErrorView>,
    r2: Result<MessageView, ParseErrorView>,
)
    requires
        gives_one_answer(parse_host),
        is_plain_request(method, a),
        is_plain_request(method, b),
        a.len() <= room,
        b.len() <= room,
        are_alike(a, b),
        request_bytes(method, a).is_prefix_of(buf1),
        request_bytes(method, b).is_prefix_of(buf2),
        says_plain_request(parse_host, buf1, room, r1),
        says_plain_request(parse_host, buf2, room, r2),
    ensures
        r1 is Ok <==> r2 is Ok,
        r1 is Ok ==> r1 == r2,
{
    let x = RequestView { method: Some(method), headers: a };
    let y = RequestView { method: Some(method), headers: b };
    assert(reads_as(parse_host, x, r1));
    assert(reads_as(parse_host, y, r2));
    if r1 is Ok {
        law_like_requests_say_the_same(parse_host, Some(method), a, b, r1);
        law_reading_is_determined(parse_host, y, r1, r2);
    }
    if r2 is Ok {
        law_like_requests_say_the_same(parse_host, Some(method), b, a, r2);
        law_reading_is_determined(parse_host, x, r1, r2);
    }
}

} // verus!
