//! What holds of every message, whatever its headers.

use vstd::prelude::*;
use vstd::utf8::*;

use crate::addr::SocketAddr;
use crate::id20::id_of;
use crate::message::{
    announcement, cookie_of, is_named, no_fields, read_header, read_headers, reads_as, resolves,
    resolves_to, Answer, Fields, MessageView, ParseErrorView,
};
use crate::request::{HeaderView, RequestView};
use crate::text::{ascii, ascii_lower, leading_number, same_but_case};

verus! {

/// The four names are different names.
pub proof fn lemma_names_differ(name: Seq<u8>)
    ensures
        same_but_case(name, ascii("host"@)) ==> !same_but_case(name, ascii("port"@))
            && !same_but_case(name, ascii("infohash"@)) && !same_but_case(name, ascii("cookie"@)),
        same_but_case(name, ascii("port"@)) ==> !same_but_case(name, ascii("infohash"@))
            && !same_but_case(name, ascii("cookie"@)),
        same_but_case(name, ascii("infohash"@)) ==> !same_but_case(name, ascii("cookie"@)),
{
    reveal_strlit("host");
    reveal_strlit("port");
    reveal_strlit("infohash");
    reveal_strlit("cookie");
    let lower = |text: Seq<char>| ascii(text).map_values(|c: u8| ascii_lower(c));
    assert(lower("host"@)[0] != lower("port"@)[0]);
    assert(lower("host"@).len() == 4 && lower("port"@).len() == 4);
    assert(lower("infohash"@).len() == 8 && lower("cookie"@).len() == 6);
}

/// The headers `a` and `b` differ at most in the case of their names.
pub open spec fn same_but_name_case(a: Seq<HeaderView>, b: Seq<HeaderView>) -> bool {
    &&& a.len() == b.len()
    &&& forall|i: int|
        0 <= i < a.len() ==> same_but_case((#[trigger] a[i]).name, b[i].name) && a[i].value
            == b[i].value
}

/// The case of the headers' names does not matter: what a request says, it says too with the
/// names in another case.
pub proof fn law_names_ignore_case<F: Fn(&str) -> Result<SocketAddr, String>>(
    parse_host: F,
    method: Option<Seq<u8>>,
    a: Seq<HeaderView>,
    b: Seq<HeaderView>,
    result: Result<MessageView, ParseErrorView>,
)
    requires
        same_but_name_case(a, b),
        reads_as(parse_host, RequestView { method, headers: a }, result),
    ensures
        reads_as(parse_host, RequestView { method, headers: b }, result),
{
    if method == Some(ascii("BT-SEARCH"@)) {
        let hosts = choose|hosts: Seq<Answer>| #[trigger]
            resolves(parse_host, a, hosts) && result == announcement(a, hosts);
        lemma_names_ignore_case(a, b, hosts);
        assert forall|i: int|
            #![trigger b[i]]
            {
                &&& 0 <= i < b.len()
                &&& is_named(b[i], "host"@)
                &&& valid_utf8(b[i].value)
                &&& read_headers(b.take(i), hosts.take(i)) is Ok
            } implies resolves_to(parse_host, b[i].value, hosts[i]) by {
            assert(same_but_case(a[i].name, b[i].name));
            assert forall|j: int| 0 <= j < i implies same_but_case(
                (#[trigger] a.take(i)[j]).name,
                b.take(i)[j].name,
            ) && a.take(i)[j].value == b.take(i)[j].value by {
                assert(a.take(i)[j] == a[j]);
            }
            lemma_names_ignore_case(a.take(i), b.take(i), hosts.take(i));
        }
        assert(resolves(parse_host, b, hosts));
    }
}

proof fn lemma_names_ignore_case(
    a: Seq<HeaderView>,
    b: Seq<HeaderView>,
    hosts: Seq<Answer>,
)
    requires
        same_but_name_case(a, b),
    ensures
        read_headers(a, hosts) == read_headers(b, hosts),
    decreases a.len(),
{
    if a.len() > 0 {
        assert forall|i: int| 0 <= i < a.len() - 1 implies same_but_case(
            (#[trigger] a.drop_last()[i]).name,
            b.drop_last()[i].name,
        ) && a.drop_last()[i].value == b.drop_last()[i].value by {
            assert(a.drop_last()[i] == a[i]);
        }
        lemma_names_ignore_case(a.drop_last(), b.drop_last(), hosts.drop_last());
        let n = a.len() - 1;
        assert(same_but_case(a[n].name, b[n].name));
    }
}

/// `header` bears none of the four names.
pub open spec fn is_unknown(header: HeaderView) -> bool {
    &&& !is_named(header, "host"@)
    &&& !is_named(header, "port"@)
    &&& !is_named(header, "infohash"@)
    &&& !is_named(header, "cookie"@)
}

/// A header with another name changes nothing, wherever it stands: a request says with it what
/// it says without it.
pub proof fn law_unknown_header_is_passed_over<F: Fn(&str) -> Result<SocketAddr, String>>(
    parse_host: F,
    method: Option<Seq<u8>>,
    before: Seq<HeaderView>,
    header: HeaderView,
    after: Seq<HeaderView>,
    result: Result<MessageView, ParseErrorView>,
)
    requires
        is_unknown(header),
    ensures
        reads_as(parse_host, RequestView { method, headers: before.push(header) + after }, result)
            <==> reads_as(parse_host, RequestView { method, headers: before + after }, result),
{
    let with = RequestView { method, headers: before.push(header) + after };
    let without = RequestView { method, headers: before + after };
    if method == Some(ascii("BT-SEARCH"@)) {
        if reads_as(parse_host, with, result) {
            lemma_without_unknown_header(parse_host, before, header, after, result);
        }
        if reads_as(parse_host, without, result) {
            lemma_with_unknown_header(parse_host, before, header, after, result);
        }
    }
}

proof fn lemma_without_unknown_header<F: Fn(&str) -> Result<SocketAddr, String>>(
    parse_host: F,
    before: Seq<HeaderView>,
    header: HeaderView,
    after: Seq<HeaderView>,
    result: Result<MessageView, ParseErrorView>,
)
    requires
        is_unknown(header),
        exists|hosts: Seq<Answer>| #[trigger]
            resolves(parse_host, before.push(header) + after, hosts) && result == announcement(
                before.push(header) + after,
                hosts,
            ),
    ensures
        exists|hosts: Seq<Answer>| #[trigger]
            resolves(parse_host, before + after, hosts) && result == announcement(
                before + after,
                hosts,
            ),
{
    let with = before.push(header) + after;
    let n = before.len() as int;
    let hosts = choose|hosts: Seq<Answer>| #[trigger]
        resolves(parse_host, with, hosts) && result == announcement(with, hosts);
    let hosts_before = hosts.take(n);
    let hosts_after = hosts.skip(n + 1);
    assert(hosts_before.push(hosts[n]) + hosts_after =~= hosts);
    assert forall|k: int| 0 <= k <= after.len() implies #[trigger] read_headers(
        before.push(header) + after.take(k),
        hosts_before.push(hosts[n]) + hosts_after.take(k),
    ) is Ok == read_headers(before + after.take(k), hosts_before + hosts_after.take(k)) is Ok by {
        lemma_unknown_header(
            before,
            header,
            after.take(k),
            hosts_before,
            hosts[n],
            hosts_after.take(k),
        );
    }
    lemma_resolves_without(parse_host, before, header, after, hosts_before, hosts[n], hosts_after);
    lemma_unknown_header(before, header, after, hosts_before, hosts[n], hosts_after);
    assert(resolves(parse_host, before + after, hosts_before + hosts_after));
}

proof fn lemma_with_unknown_header<F: Fn(&str) -> Result<SocketAddr, String>>(
    parse_host: F,
    before: Seq<HeaderView>,
    header: HeaderView,
    after: Seq<HeaderView>,
    result: Result<MessageView, ParseErrorView>,
)
    requires
        is_unknown(header),
        exists|hosts: Seq<Answer>| #[trigger]
            resolves(parse_host, before + after, hosts) && result == announcement(
                before + after,
                hosts,
            ),
    ensures
        exists|hosts: Seq<Answer>| #[trigger]
            resolves(parse_host, before.push(header) + after, hosts) && result == announcement(
                before.push(header) + after,
                hosts,
            ),
{
    let with = before.push(header) + after;
    let without = before + after;
    let n = before.len() as int;
    let hosts = choose|hosts: Seq<Answer>| #[trigger]
        resolves(parse_host, without, hosts) && result == announcement(without, hosts);
    let hosts_before = hosts.take(n);
    let hosts_after = hosts.skip(n);
    let none = Err::<SocketAddr, Seq<char>>(Seq::empty());
    let all = hosts_before.push(none) + hosts_after;
    assert(hosts_before + hosts_after =~= hosts);
    assert forall|i: int|
        #![trigger with[i]]
        {
            &&& 0 <= i < with.len()
            &&& is_named(with[i], "host"@)
            &&& valid_utf8(with[i].value)
            &&& read_headers(with.take(i), all.take(i)) is Ok
        } implies resolves_to(parse_host, with[i].value, all[i]) by {
        if i < n {
            assert(with[i] == without[i]);
            assert(with.take(i) =~= without.take(i));
            assert(all.take(i) =~= hosts.take(i));
        } else {
            assert(i != n);
            let k = i - n - 1;
            assert(with[i] == without[i - 1]);
            assert(all[i] == hosts[i - 1]);
            assert(with.take(i) =~= before.push(header) + after.take(k));
            assert(all.take(i) =~= hosts_before.push(none) + hosts_after.take(k));
            assert(without.take(i - 1) =~= before + after.take(k));
            assert(hosts.take(i - 1) =~= hosts_before + hosts_after.take(k));
            lemma_unknown_header(
                before,
                header,
                after.take(k),
                hosts_before,
                none,
                hosts_after.take(k),
            );
        }
    }
    lemma_unknown_header(before, header, after, hosts_before, none, hosts_after);
    assert(resolves(parse_host, with, all));
}

/// Where a header does not decide on whether the reading goes on, what `parse_host` answered
/// to the others it answered too without that header.
proof fn lemma_resolves_without<F: Fn(&str) -> Result<SocketAddr, String>>(
    parse_host: F,
    before: Seq<HeaderView>,
    header: HeaderView,
    after: Seq<HeaderView>,
    hosts_before: Seq<Answer>,
    host: Answer,
    hosts_after: Seq<Answer>,
)
    requires
        before.len() == hosts_before.len(),
        resolves(parse_host, before.push(header) + after, hosts_before.push(host) + hosts_after),
        forall|k: int|
            0 <= k <= after.len() ==> #[trigger] read_headers(
                before.push(header) + after.take(k),
                hosts_before.push(host) + hosts_after.take(k),
            ) is Ok == read_headers(before + after.take(k), hosts_before + hosts_after.take(k)) is Ok,
    ensures
        resolves(parse_host, before + after, hosts_before + hosts_after),
{
    let n = before.len() as int;
    let with = before.push(header) + after;
    let hosts = hosts_before.push(host) + hosts_after;
    let without = before + after;
    let left = hosts_before + hosts_after;
    assert forall|i: int|
        #![trigger without[i]]
        {
            &&& 0 <= i < without.len()
            &&& is_named(without[i], "host"@)
            &&& valid_utf8(without[i].value)
            &&& read_headers(without.take(i), left.take(i)) is Ok
        } implies resolves_to(parse_host, without[i].value, left[i]) by {
        if i < n {
            assert(with[i] == without[i]);
            assert(with.take(i) =~= without.take(i));
            assert(hosts.take(i) =~= left.take(i));
        } else {
            let k = i - n;
            assert(with[i + 1] == without[i]);
            assert(hosts[i + 1] == left[i]);
            assert(without.take(i) =~= before + after.take(k));
            assert(left.take(i) =~= hosts_before + hosts_after.take(k));
            assert(with.take(i + 1) =~= before.push(header) + after.take(k));
            assert(hosts.take(i + 1) =~= hosts_before.push(host) + hosts_after.take(k));
        }
    }
}

proof fn lemma_unknown_header(
    before: Seq<HeaderView>,
    header: HeaderView,
    after: Seq<HeaderView>,
    hosts_before: Seq<Answer>,
    host: Answer,
    hosts_after: Seq<Answer>,
)
    requires
        is_unknown(header),
        before.len() == hosts_before.len(),
        after.len() == hosts_after.len(),
    ensures
        read_headers(before.push(header) + after, hosts_before.push(host) + hosts_after)
            == read_headers(before + after, hosts_before + hosts_after),
    decreases after.len(),
{
    let with = before.push(header) + after;
    let with_hosts = hosts_before.push(host) + hosts_after;
    let without = before + after;
    let without_hosts = hosts_before + hosts_after;
    if after.len() == 0 {
        assert(with.drop_last() =~= before);
        assert(with_hosts.drop_last() =~= hosts_before);
        assert(without =~= before);
        assert(without_hosts =~= hosts_before);
    } else {
        assert(with.drop_last() =~= before.push(header) + after.drop_last());
        assert(with_hosts.drop_last() =~= hosts_before.push(host) + hosts_after.drop_last());
        assert(without.drop_last() =~= before + after.drop_last());
        assert(without_hosts.drop_last() =~= hosts_before + hosts_after.drop_last());
        lemma_unknown_header(
            before,
            header,
            after.drop_last(),
            hosts_before,
            host,
            hosts_after.drop_last(),
        );
    }
}

/// The two results differ at most in the cookie.
pub open spec fn same_but_cookie(
    a: Result<MessageView, ParseErrorView>,
    b: Result<MessageView, ParseErrorView>,
) -> bool {
    match (a, b) {
        (Ok(a), Ok(b)) => a.hash == b.hash && a.host == b.host && a.port == b.port,
        (Err(a), Err(b)) => a == b,
        _ => false,
    }
}

/// A cookie header, whatever its value, makes no message fail and touches nothing but the
/// cookie, wherever it stands.
pub proof fn law_cookie_header_never_fails<F: Fn(&str) -> Result<SocketAddr, String>>(
    parse_host: F,
    method: Option<Seq<u8>>,
    before: Seq<HeaderView>,
    header: HeaderView,
    after: Seq<HeaderView>,
    result: Result<MessageView, ParseErrorView>,
) -> (without: Result<MessageView, ParseErrorView>)
    requires
        is_named(header, "cookie"@),
        reads_as(parse_host, RequestView { method, headers: before.push(header) + after }, result),
    ensures
        reads_as(parse_host, RequestView { method, headers: before + after }, without),
        same_but_cookie(result, without),
{
    if method == Some(ascii("BT-SEARCH"@)) {
        let with = before.push(header) + after;
        let n = before.len() as int;
        let hosts = choose|hosts: Seq<Answer>| #[trigger]
            resolves(parse_host, with, hosts) && result == announcement(with, hosts);
        let hosts_before = hosts.take(n);
        let hosts_after = hosts.skip(n + 1);
        assert(hosts_before.push(hosts[n]) + hosts_after =~= hosts);
        assert forall|k: int| 0 <= k <= after.len() implies #[trigger] read_headers(
            before.push(header) + after.take(k),
            hosts_before.push(hosts[n]) + hosts_after.take(k),
        ) is Ok == read_headers(before + after.take(k), hosts_before + hosts_after.take(k)) is Ok by {
            lemma_cookie_header(
                before,
                header,
                after.take(k),
                hosts_before,
                hosts[n],
                hosts_after.take(k),
            );
        }
        lemma_resolves_without(
            parse_host,
            before,
            header,
            after,
            hosts_before,
            hosts[n],
            hosts_after,
        );
        lemma_cookie_header(before, header, after, hosts_before, hosts[n], hosts_after);
        assert(resolves(parse_host, before + after, hosts_before + hosts_after));
        announcement(before + after, hosts_before + hosts_after)
    } else {
        result
    }
}

spec fn fields_but_cookie(
    a: Result<Fields, ParseErrorView>,
    b: Result<Fields, ParseErrorView>,
) -> bool {
    match (a, b) {
        (Ok(a), Ok(b)) => a.hash == b.hash && a.host == b.host && a.port == b.port,
        (Err(a), Err(b)) => a == b,
        _ => false,
    }
}

proof fn lemma_cookie_header(
    before: Seq<HeaderView>,
    header: HeaderView,
    after: Seq<HeaderView>,
    hosts_before: Seq<Answer>,
    host: Answer,
    hosts_after: Seq<Answer>,
)
    requires
        is_named(header, "cookie"@),
        before.len() == hosts_before.len(),
        after.len() == hosts_after.len(),
    ensures
        fields_but_cookie(
            read_headers(before.push(header) + after, hosts_before.push(host) + hosts_after),
            read_headers(before + after, hosts_before + hosts_after),
        ),
    decreases after.len(),
{
    let with = before.push(header) + after;
    let with_hosts = hosts_before.push(host) + hosts_after;
    let without = before + after;
    let without_hosts = hosts_before + hosts_after;
    lemma_names_differ(header.name);
    if after.len() == 0 {
        assert(with.drop_last() =~= before);
        assert(with_hosts.drop_last() =~= hosts_before);
        assert(without =~= before);
        assert(without_hosts =~= hosts_before);
    } else {
        assert(with.drop_last() =~= before.push(header) + after.drop_last());
        assert(with_hosts.drop_last() =~= hosts_before.push(host) + hosts_after.drop_last());
        assert(without.drop_last() =~= before + after.drop_last());
        assert(without_hosts.drop_last() =~= hosts_before + hosts_after.drop_last());
        lemma_cookie_header(
            before,
            header,
            after.drop_last(),
            hosts_before,
            host,
            hosts_after.drop_last(),
        );
    }
}

/// One of `headers` bears the name `name`.
pub open spec fn has_header(headers: Seq<HeaderView>, name: Seq<char>) -> bool {
    exists|i: int| 0 <= i < headers.len() && is_named(#[trigger] headers[i], name)
}

/// A request without a host, a port or an infohash is refused.
pub proof fn law_all_three_headers_are_needed<F: Fn(&str) -> Result<SocketAddr, String>>(
    parse_host: F,
    request: RequestView,
    result: Result<MessageView, ParseErrorView>,
)
    requires
        reads_as(parse_host, request, result),
        !has_header(request.headers, "host"@) || !has_header(request.headers, "port"@)
            || !has_header(request.headers, "infohash"@),
    ensures
        result is Err,
{
    if request.method == Some(ascii("BT-SEARCH"@)) {
        let hosts = choose|hosts: Seq<Answer>| #[trigger]
            resolves(parse_host, request.headers, hosts) && result == announcement(
                request.headers,
                hosts,
            );
        lemma_fields_have_headers(request.headers, hosts);
    }
}

/// What is known of a message without a fault comes from headers of those names.
pub proof fn lemma_fields_have_headers(headers: Seq<HeaderView>, hosts: Seq<Answer>)
    ensures
        read_headers(headers, hosts) matches Ok(fields) ==> {
            &&& fields.host is Some ==> has_header(headers, "host"@)
            &&& fields.port is Some ==> has_header(headers, "port"@)
            &&& fields.hash is Some ==> has_header(headers, "infohash"@)
        },
    decreases headers.len(),
{
    if headers.len() > 0 {
        let rest = headers.drop_last();
        lemma_fields_have_headers(rest, hosts.drop_last());
        assert forall|name: Seq<char>| #[trigger] has_header(rest, name) implies has_header(
            headers,
            name,
        ) by {
            let i = choose|i: int| 0 <= i < rest.len() && is_named(#[trigger] rest[i], name);
            assert(is_named(headers[i], name));
        }
        let n = headers.len() - 1;
        assert(headers[n] == headers.last());
    }
}

/// `header` can be read, its text standing for `host` where it is a `Host` header.
pub open spec fn is_sound(header: HeaderView, host: Answer) -> bool {
    read_header(no_fields(), header, host) is Ok
}

/// A message with all three headers is read if each of its headers can be.
pub proof fn law_complete_message_is_read(
    headers: Seq<HeaderView>,
    hosts: Seq<Answer>,
)
    requires
        headers.len() == hosts.len(),
        has_header(headers, "host"@),
        has_header(headers, "port"@),
        has_header(headers, "infohash"@),
        forall|i: int| 0 <= i < headers.len() ==> is_sound(#[trigger] headers[i], hosts[i]),
    ensures
        announcement(headers, hosts) is Ok,
{
    lemma_headers_make_fields(headers, hosts);
}

/// Headers that can be read make up what is known of a message.
pub proof fn lemma_headers_make_fields(headers: Seq<HeaderView>, hosts: Seq<Answer>)
    requires
        headers.len() == hosts.len(),
        forall|i: int| 0 <= i < headers.len() ==> is_sound(#[trigger] headers[i], hosts[i]),
    ensures
        read_headers(headers, hosts) matches Ok(fields) && {
            &&& has_header(headers, "host"@) ==> fields.host is Some
            &&& has_header(headers, "port"@) ==> fields.port is Some
            &&& has_header(headers, "infohash"@) ==> fields.hash is Some
        },
    decreases headers.len(),
{
    if headers.len() > 0 {
        let rest = headers.drop_last();
        let n = headers.len() - 1;
        assert forall|i: int| 0 <= i < n implies is_sound(
            #[trigger] rest[i],
            hosts.drop_last()[i],
        ) by {
            assert(rest[i] == headers[i]);
        }
        lemma_headers_make_fields(rest, hosts.drop_last());
        assert(is_sound(headers[n], hosts[n]));
        lemma_names_differ(headers[n].name);
        assert forall|name: Seq<char>| #[trigger] has_header(headers, name) implies has_header(
            rest,
            name,
        ) || is_named(headers[n], name) by {
            let i = choose|i: int| 0 <= i < headers.len() && is_named(#[trigger] headers[i], name);
            if i < n {
                assert(is_named(rest[i], name));
            }
        }
    }
}

/// Header `i` is the last one that bears the name `name`.
pub open spec fn is_last_named(headers: Seq<HeaderView>, name: Seq<char>, i: int) -> bool {
    &&& 0 <= i < headers.len()
    &&& is_named(headers[i], name)
    &&& forall|j: int| i < j < headers.len() ==> !is_named(#[trigger] headers[j], name)
}

/// Each part of a message comes from the last header of its name; without a cookie header
/// there is no cookie.
pub proof fn law_last_header_of_a_name_counts(
    headers: Seq<HeaderView>,
    hosts: Seq<Answer>,
    message: MessageView,
    i: int,
)
    requires
        headers.len() == hosts.len(),
        announcement(headers, hosts) == Ok::<MessageView, ParseErrorView>(message),
    ensures
        is_last_named(headers, "host"@, i) ==> hosts[i] == Ok::<SocketAddr, Seq<char>>(message.host),
        is_last_named(headers, "port"@, i) ==> leading_number(headers[i].value, u16::MAX as nat)
            == Some(message.port as nat),
        is_last_named(headers, "infohash"@, i) ==> id_of(headers[i].value) == Some(message.hash),
        is_last_named(headers, "cookie"@, i) ==> message.our_cookie == cookie_of(headers[i].value),
        !has_header(headers, "cookie"@) ==> message.our_cookie is None,
{
    lemma_last_header(headers, hosts, i);
    if !has_header(headers, "cookie"@) {
        lemma_no_cookie_header(headers, hosts);
    }
}

proof fn lemma_last_header(headers: Seq<HeaderView>, hosts: Seq<Answer>, i: int)
    requires
        headers.len() == hosts.len(),
    ensures
        read_headers(headers, hosts) matches Ok(fields) ==> {
            &&& is_last_named(headers, "host"@, i) ==> fields.host is Some && hosts[i] == Ok::<
                SocketAddr,
                Seq<char>,
            >(fields.host->0)
            &&& is_last_named(headers, "port"@, i) ==> fields.port is Some && leading_number(
                headers[i].value,
                u16::MAX as nat,
            ) == Some(fields.port->0 as nat)
            &&& is_last_named(headers, "infohash"@, i) ==> fields.hash is Some && fields.hash
                == id_of(headers[i].value)
            &&& is_last_named(headers, "cookie"@, i) ==> fields.our_cookie == cookie_of(
                headers[i].value,
            )
        },
    decreases headers.len(),
{
    if headers.len() > 0 {
        let rest = headers.drop_last();
        let n = headers.len() - 1;
        lemma_last_header(rest, hosts.drop_last(), i);
        lemma_names_differ(headers[n].name);
        if 0 <= i < n {
            assert(rest[i] == headers[i]);
            assert(hosts.drop_last()[i] == hosts[i]);
            assert forall|name: Seq<char>| #[trigger] is_last_named(
                headers,
                name,
                i,
            ) implies is_last_named(rest, name, i) && !is_named(headers[n], name) by {
                assert forall|j: int| i < j < rest.len() implies !is_named(
                    #[trigger] rest[j],
                    name,
                ) by {
                    assert(rest[j] == headers[j]);
                }
            }
        }
    }
}

proof fn lemma_no_cookie_header(headers: Seq<HeaderView>, hosts: Seq<Answer>)
    requires
        !has_header(headers, "cookie"@),
    ensures
        read_headers(headers, hosts) matches Ok(fields) ==> fields.our_cookie is None,
    decreases headers.len(),
{
    if headers.len() > 0 {
        let rest = headers.drop_last();
        let n = headers.len() - 1;
        assert(!is_named(headers[n], "cookie"@));
        if has_header(rest, "cookie"@) {
            let i = choose|i: int| 0 <= i < rest.len() && is_named(#[trigger] rest[i], "cookie"@);
            assert(is_named(headers[i], "cookie"@));
        }
        lemma_no_cookie_header(rest, hosts.drop_last());
    }
}

} // verus!
