//! The HTTP request that a datagram holds.

use vstd::prelude::*;

use crate::text::ascii;

verus! {

/// A header of a request.
pub struct Header {
    pub name: Vec<u8>,
    pub value: Vec<u8>,
}

/// A request: its method, where one was found, and its headers in their order.
pub struct Request {
    pub method: Option<Vec<u8>>,
    pub headers: Vec<Header>,
}

/// What a header holds.
#[verifier::ext_equal]
pub struct HeaderView {
    pub name: Seq<u8>,
    pub value: Seq<u8>,
}

/// What a request holds.
#[verifier::ext_equal]
pub struct RequestView {
    pub method: Option<Seq<u8>>,
    pub headers: Seq<HeaderView>,
}

impl View for Header {
    type V = HeaderView;

    open spec fn view(&self) -> HeaderView {
        HeaderView { name: self.name@, value: self.value@ }
    }
}

impl View for Request {
    type V = RequestView;

    open spec fn view(&self) -> RequestView {
        RequestView {
            method: match self.method {
                Some(method) => Some(method@),
                None => None,
            },
            headers: self.headers@.map_values(|header: Header| header@),
        }
    }
}

/// A byte that can stand in a method or a header's name: an ASCII letter, a digit or one of
/// fifteen marks.
pub open spec fn is_token_byte(b: u8) -> bool {
    ||| 0x30 <= b <= 0x39
    ||| 0x41 <= b <= 0x5a
    ||| 0x61 <= b <= 0x7a
    ||| ascii("!#$%&'*+-.^_`|~"@).contains(b)
}

/// A byte that can stand in a header's value: a tab, or any but a control character.
pub open spec fn is_value_byte(b: u8) -> bool {
    b == 0x09 || (b >= 0x20 && b != 0x7f)
}

/// A space or a tab.
pub open spec fn is_blank(b: u8) -> bool {
    b == 0x20 || b == 0x09
}

/// A text that can stand as a method or a header's name.
pub open spec fn is_token(text: Seq<u8>) -> bool {
    text.len() > 0 && forall|i: int| 0 <= i < text.len() ==> is_token_byte(#[trigger] text[i])
}

/// A text that can stand as a header's value, without blanks at either end.
pub open spec fn is_value(text: Seq<u8>) -> bool {
    &&& forall|i: int| 0 <= i < text.len() ==> is_value_byte(#[trigger] text[i])
    &&& text.len() > 0 ==> !is_blank(text[0]) && !is_blank(text.last())
}

/// A header that a header line can carry as it is.
pub open spec fn is_plain_header(header: HeaderView) -> bool {
    is_token(header.name) && is_value(header.value)
}

/// A method and headers that a request line and header lines can carry as they are.
pub open spec fn is_plain_request(method: Seq<u8>, headers: Seq<HeaderView>) -> bool {
    &&& is_token(method)
    &&& forall|i: int| 0 <= i < headers.len() ==> is_plain_header(#[trigger] headers[i])
}

/// The line of a header.
pub open spec fn header_line(header: HeaderView) -> Seq<u8> {
    header.name + ascii(": "@) + header.value + ascii("\r\n"@)
}

/// The lines of the headers, one after another.
pub open spec fn header_lines(headers: Seq<HeaderView>) -> Seq<u8>
    decreases headers.len(),
{
    if headers.len() == 0 {
        Seq::empty()
    } else {
        header_lines(headers.drop_last()) + header_line(headers.last())
    }
}

/// A request for `*` as it is sent: the request line, the header lines and an empty line.
pub open spec fn request_bytes(method: Seq<u8>, headers: Seq<HeaderView>) -> Seq<u8> {
    method + ascii(" * HTTP/1.1\r\n"@) + header_lines(headers) + ascii("\r\n"@)
}

/// What `httparse::Request::parse` makes of `buf`, with room for `capacity` headers: the
/// method and the headers that it leaves in the request, also where `buf` ends too early, or
/// the text of its error.
pub uninterp spec fn httparse_request(buf: Seq<u8>, capacity: nat) -> Result<
    RequestView,
    Seq<char>,
>;

/// A result with request and error text taken for what they hold.
pub open spec fn request_outcome(r: Result<Request, String>) -> Result<RequestView, Seq<char>> {
    match r {
        Ok(request) => Ok(request@),
        Err(text) => Err(text@),
    }
}

/// Where `buf` starts with a plain request of no more than `capacity` headers, `outcome` is
/// that request.
pub open spec fn gives_back_plain_request(
    buf: Seq<u8>,
    capacity: nat,
    outcome: Result<RequestView, Seq<char>>,
) -> bool {
    forall|method: Seq<u8>, headers: Seq<HeaderView>|
        {
            &&& is_plain_request(method, headers)
            &&& headers.len() <= capacity
            &&& (#[trigger] request_bytes(method, headers)).is_prefix_of(buf)
        } ==> outcome == Ok::<RequestView, Seq<char>>(
            RequestView { method: Some(method), headers },
        )
}

/// `httparse::Request::parse`, with room for `capacity` headers. Its result is named; and
/// where `buf` starts with a plain request of no more than `capacity` headers, it is that
/// request, whatever follows.
#[verifier::external_body]
pub(crate) fn parse_request(buf: &[u8], capacity: u16) -> (r: Result<Request, String>)
    ensures
        request_outcome(r) == httparse_request(buf@, capacity as nat),
        gives_back_plain_request(buf@, capacity as nat, request_outcome(r)),
{
    let mut headers = vec![httparse::EMPTY_HEADER; usize::from(capacity)];
    let mut request = httparse::Request::new(&mut headers);
    match request.parse(buf) {
        Ok(_) => Ok(Request {
            method: request.method.map(|m| m.as_bytes().to_vec()),
            headers: request.headers.iter().map(
                |h| Header { name: h.name.as_bytes().to_vec(), value: h.value.to_vec() },
            ).collect(),
        }),
        Err(e) => Err(e.to_string()),
    }
}

} // verus!
