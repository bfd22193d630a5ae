//! Local service discovery: what to do with a datagram, and what to send.

use vstd::prelude::*;
use vstd::utf8::*;

use crate::addr::{is_at_port, SocketAddr};
use crate::announce::{
    announce_message, announce_text, announced, host_text, reads_as_announced,
};
use crate::id20::Id20;
use crate::limiter::{clock_shows, now_secs, secs_of, RateLimiter};
use crate::message::{
    outcome, parses_as, resolves_to, resolves_to_none, says_plain_request, try_parse_bt_search,
    Answer, BtSearchAnnounceMessage, MessageView, ParseError, ParseErrorView,
    MAX_HEADERS,
};
use crate::receivers::{after_asking, reply_port, Announce, AnnounceView, Receivers};

verus! {

/// The number of seconds between two announcements of one torrent.
pub const ANNOUNCE_PERIOD_SECS: u64 = 300;

/// How a discovery service is set up.
#[derive(Clone, Copy, Debug)]
pub struct LocalServiceDiscoveryOptions {
    /// The cookie that marks the service's own messages; a random one where there is none.
    pub cookie: Option<u32>,
}

impl Default for LocalServiceDiscoveryOptions {
    fn default() -> (r: Self)
        ensures
            r.cookie is None,
    {
        LocalServiceDiscoveryOptions { cookie: None }
    }
}

/// `rand::random`: any number at all.
#[verifier::external_body]
pub(crate) fn random_cookie() -> u32 {
    rand::random()
}

/// `cookie` is what the random number generator gave when it was asked.
pub closed spec fn is_drawn(cookie: u32) -> bool {
    call_ensures(random_cookie, (), cookie)
}

/// What is drawn is what the generator gave, whole.
pub(crate) proof fn law_drawn_is_what_the_generator_gave(cookie: u32)
    ensures
        is_drawn(cookie) <==> call_ensures(random_cookie, (), cookie),
{
}

/// Asks `generator`.
fn draw<G: Fn() -> u32>(generator: G) -> (r: u32)
    requires
        call_requires(generator, ()),
    ensures
        call_ensures(generator, (), r),
{
    generator()
}

/// A discovery service. `T` stands for where the addresses of peers go.
pub struct LocalServiceDiscovery<T> {
    cookie: u32,
    receivers: Receivers<T>,
}

/// What a service holds: its cookie and the torrents whose peers are looked for.
#[verifier::ext_equal]
pub struct ServiceView<T> {
    pub cookie: u32,
    pub receivers: Map<Seq<u8>, AnnounceView<T>>,
}

impl<T> View for LocalServiceDiscovery<T> {
    type V = ServiceView<T>;

    closed spec fn view(&self) -> ServiceView<T> {
        ServiceView { cookie: self.cookie, receivers: self.receivers@ }
    }
}

/// A torrent to announce again and again.
#[derive(Clone, Copy, Debug)]
pub struct AnnounceTask {
    pub info_hash: Id20,
    pub port: u16,
    /// The number of seconds from one announcement to the next.
    pub period_secs: u64,
}

/// What is to be done with a datagram.
#[derive(Debug)]
pub enum Received {
    /// It is no announcement.
    Malformed(ParseError),
    /// It is an announcement of the service's own.
    OwnMessage(BtSearchAnnounceMessage),
    /// Nobody looks for peers of its torrent.
    NotLookedFor(BtSearchAnnounceMessage),
    /// The address goes to the one who looks for peers of the message's torrent.
    Deliver { message: BtSearchAnnounceMessage, addr: SocketAddr },
}

/// What a `Received` holds.
#[verifier::ext_equal]
pub enum ReceivedView {
    Malformed(ParseErrorView),
    OwnMessage(MessageView),
    NotLookedFor(MessageView),
    Deliver { message: MessageView, addr: SocketAddr },
}

impl View for Received {
    type V = ReceivedView;

    open spec fn view(&self) -> ReceivedView {
        match *self {
            Received::Malformed(error) => ReceivedView::Malformed(error@),
            Received::OwnMessage(message) => ReceivedView::OwnMessage(message@),
            Received::NotLookedFor(message) => ReceivedView::NotLookedFor(message@),
            Received::Deliver { message, addr } => ReceivedView::Deliver {
                message: message@,
                addr,
            },
        }
    }
}

impl<T> ServiceView<T> {
    /// What is to be done with a datagram from `from` that reads as `parsed`.
    pub open spec fn received(
        self,
        parsed: Result<MessageView, ParseErrorView>,
        from: SocketAddr,
    ) -> ReceivedView {
        match parsed {
            Err(error) => ReceivedView::Malformed(error),
            Ok(message) => if message.our_cookie == Some(self.cookie) {
                ReceivedView::OwnMessage(message)
            } else if !self.receivers.contains_key(message.hash) {
                ReceivedView::NotLookedFor(message)
            } else {
                ReceivedView::Deliver { message, addr: from.with_port(message.port) }
            },
        }
    }

    /// The answer to an address that went out for the torrent `hash` at `now`.
    pub open spec fn reply(
        self,
        hash: Seq<u8>,
        from: SocketAddr,
        delivered: bool,
        now: Option<u64>,
    ) -> Option<Seq<char>> {
        match reply_port(self.receivers, hash, from is V6, now) {
            Some(port) if delivered => Some(announce_text(self.cookie, hash, port, from is V6)),
            _ => None,
        }
    }

    /// The service after that answer.
    pub open spec fn replied(
        self,
        hash: Seq<u8>,
        from: SocketAddr,
        delivered: bool,
        now: Option<u64>,
    ) -> ServiceView<T> {
        if delivered {
            ServiceView {
                receivers: after_asking(self.receivers, hash, from is V6, now),
                ..self
            }
        } else {
            self
        }
    }

    /// The service once it looks for peers of the torrent `hash`, with fresh limits.
    pub open spec fn searching(self, hash: Seq<u8>, port: Option<u16>, tx: T) -> ServiceView<T> {
        ServiceView {
            receivers: self.receivers.insert(
                hash,
                AnnounceView { tx, port, last_reply_ipv4: None, last_reply_ipv6: None },
            ),
            ..self
        }
    }

    /// The service once it no longer looks for peers of the torrent `hash`.
    pub open spec fn forgot(self, hash: Seq<u8>) -> ServiceView<T> {
        ServiceView { receivers: self.receivers.remove(hash), ..self }
    }

    /// `action` is what is to be done with the announcement that a service with `cookie` wrote,
    /// its host standing for the address that `parse_host` answered.
    pub open spec fn receives_announced<F: Fn(&str) -> Result<SocketAddr, String>>(
        self,
        parse_host: F,
        cookie: u32,
        hash: Seq<u8>,
        port: u16,
        is_v6: bool,
        from: SocketAddr,
        action: ReceivedView,
    ) -> bool {
        exists|host: Answer| #[trigger]
            resolves_to(parse_host, encode_utf8(host_text(is_v6)), host) && action
                == self.received(announced(cookie, hash, port, host), from)
    }
}

/// A text taken for what it holds.
pub open spec fn text_of(text: Option<String>) -> Option<Seq<char>> {
    match text {
        Some(text) => Some(text@),
        None => None,
    }
}

impl<T> LocalServiceDiscovery<T> {
    /// A service that looks for nothing yet.
    pub fn new(opts: LocalServiceDiscoveryOptions) -> (r: Self)
        ensures
            opts.cookie matches Some(cookie) ==> r@.cookie == cookie,
            opts.cookie is None ==> is_drawn(r@.cookie),
            r@.receivers == Map::<Seq<u8>, AnnounceView<T>>::empty(),
    {
        let cookie = match opts.cookie {
            Some(cookie) => cookie,
            None => draw(random_cookie),
        };
        LocalServiceDiscovery { cookie, receivers: Receivers::new() }
    }

    /// The cookie of the service's own messages.
    pub fn cookie(&self) -> (r: u32)
        ensures
            r == self@.cookie,
    {
        self.cookie
    }

    /// The announcement of the torrent `info_hash`, at `port`.
    pub fn gen_announce_msg(&self, info_hash: &Id20, port: u16, is_v6: bool) -> (r: String)
        ensures
            r@ == announce_text(self@.cookie, info_hash@, port, is_v6),
    {
        announce_message(self.cookie, info_hash, port, is_v6)
    }

    /// Starts to look for peers of the torrent `info_hash`, whose addresses go to `tx`, in place
    /// of an earlier search for the same torrent. Where there is a port, the torrent is to be
    /// announced at it.
    pub fn announce(&mut self, info_hash: Id20, announce_port: Option<u16>, tx: T) -> (r: Option<
        AnnounceTask,
    >)
        ensures
            final(self)@ == old(self)@.searching(info_hash@, announce_port, tx),
            match announce_port {
                Some(port) => r == Some(
                    AnnounceTask { info_hash, port, period_secs: ANNOUNCE_PERIOD_SECS },
                ),
                None => r is None,
            },
    {
        self.receivers.insert(
            info_hash,
            Announce {
                tx,
                port: announce_port,
                last_reply_ipv4: RateLimiter::default(),
                last_reply_ipv6: RateLimiter::default(),
            },
        );
        match announce_port {
            Some(port) => Some(
                AnnounceTask { info_hash, port, period_secs: ANNOUNCE_PERIOD_SECS },
            ),
            None => None,
        }
    }

    /// Stops to look for peers of the torrent `info_hash`, whoever started it.
    pub fn forget(&mut self, info_hash: &Id20)
        ensures
            final(self)@ == old(self)@.forgot(info_hash@),
    {
        self.receivers.remove(info_hash)
    }

    /// Where the addresses of peers of the torrent `info_hash` go.
    pub fn sender(&self, info_hash: &Id20) -> (r: Option<&T>)
        ensures
            r is Some <==> self@.receivers.contains_key(info_hash@),
            r matches Some(tx) ==> *tx == self@.receivers[info_hash@].tx,
    {
        match self.receivers.get(info_hash) {
            Some(announce) => Some(&announce.tx),
            None => None,
        }
    }

    /// The port at which the torrent `info_hash` is announced, if it is.
    pub fn announced_port(&self, info_hash: &Id20) -> (r: Option<u16>)
        ensures
            r == if self@.receivers.contains_key(info_hash@) {
                self@.receivers[info_hash@].port
            } else {
                None
            },
    {
        match self.receivers.get(info_hash) {
            Some(announce) => announce.port,
            None => None,
        }
    }

    /// What is to be done with the datagram `buf` from `from`. `parse_host` says which address
    /// the text of a `Host` header stands for.
    pub fn on_datagram<F: Fn(&str) -> Result<SocketAddr, String>>(
        &self,
        buf: &[u8],
        from: SocketAddr,
        parse_host: &F,
    ) -> (r: Received)
        requires
            forall|text: &str| call_requires(*parse_host, (text,)),
        ensures
            exists|parsed: Result<MessageView, ParseErrorView>| #[trigger]
                parses_as(*parse_host, buf@, MAX_HEADERS, parsed) && says_plain_request(
                    *parse_host,
                    buf@,
                    MAX_HEADERS,
                    parsed,
                ) && r@ == self@.received(parsed, from),
            forall|cookie: u32, hash: Seq<u8>, port: u16, is_v6: bool|
                hash.len() == 20 && buf@ == encode_utf8(
                    #[trigger] announce_text(cookie, hash, port, is_v6),
                ) ==> self@.receives_announced(
                    *parse_host,
                    cookie,
                    hash,
                    port,
                    is_v6,
                    from,
                    r@,
                ),
    {
        let parsed = try_parse_bt_search(buf, MAX_HEADERS, parse_host);
        let ghost message = outcome(parsed);
        let r = self.on_message(parsed, from);
        proof {
            assert(parses_as(*parse_host, buf@, MAX_HEADERS, message));
            assert forall|cookie: u32, hash: Seq<u8>, port: u16, is_v6: bool|
                hash.len() == 20 && buf@ == encode_utf8(
                    #[trigger] announce_text(cookie, hash, port, is_v6),
                ) implies self@.receives_announced(
                *parse_host,
                cookie,
                hash,
                port,
                is_v6,
                from,
                r@,
            ) by {
                assert(reads_as_announced(*parse_host, cookie, hash, port, is_v6, message));
            }
        }
        r
    }

    /// What is to be done with a datagram from `from` that reads as `parsed`.
    pub fn on_message(
        &self,
        parsed: Result<BtSearchAnnounceMessage, ParseError>,
        from: SocketAddr,
    ) -> (r: Received)
        ensures
            r@ == self@.received(outcome(parsed), from),
            parsed matches Err(error) <==> r is Malformed,
            r is OwnMessage <==> (parsed matches Ok(message) && message.our_cookie == Some(
                self@.cookie,
            )),
            r is Deliver <==> (parsed matches Ok(message) && message.our_cookie != Some(
                self@.cookie,
            ) && self@.receivers.contains_key(message.hash@)),
            r matches Received::Malformed(error) ==> parsed matches Err(found) && error == found,
            r matches Received::OwnMessage(message) ==> parsed == Ok::<_, ParseError>(message),
            r matches Received::NotLookedFor(message) ==> parsed == Ok::<_, ParseError>(message),
            r matches Received::Deliver { message, addr } ==> parsed == Ok::<_, ParseError>(message)
                && is_at_port(addr, from, message.port),
    {
        let message = match parsed {
            Ok(message) => message,
            Err(error) => {
                return Received::Malformed(error);
            },
        };
        let own = match message.our_cookie {
            Some(cookie) => cookie == self.cookie,
            None => false,
        };
        if own {
            return Received::OwnMessage(message);
        }
        if self.receivers.get(&message.hash).is_none() {
            return Received::NotLookedFor(message);
        }
        let mut addr = from;
        addr.set_port(message.port);
        Received::Deliver { message, addr }
    }

    /// The reply, if any, once the address `addr` has gone to the one who looks for peers of
    /// the torrent `hash`, or has failed to. The first peer of a search that announces a port is
    /// answered, whatever the clock shows.
    pub fn on_delivered(&mut self, hash: &Id20, addr: &SocketAddr, delivered: bool) -> (r: Option<
        String,
    >)
        ensures
            delivered && old(self)@.receivers.contains_key(hash@)
                && old(self)@.receivers[hash@].last_reply(*addr is V6) is None ==> text_of(r)
                == old(self)@.reply(hash@, *addr, true, None),
            exists|reading: Option<(u64, u32)>|
                {
                    &&& #[trigger] clock_shows(reading)
                    &&& text_of(r) == old(self)@.reply(hash@, *addr, delivered, secs_of(reading))
                    &&& final(self)@ == old(self)@.replied(
                        hash@,
                        *addr,
                        delivered,
                        secs_of(reading),
                    )
                },
    {
        let now = now_secs();
        self.on_delivered_at(hash, addr, delivered, now)
    }

    /// The reply at `now`, in seconds since the Unix epoch.
    pub fn on_delivered_at(
        &mut self,
        hash: &Id20,
        addr: &SocketAddr,
        delivered: bool,
        now: Option<u64>,
    ) -> (r: Option<String>)
        ensures
            text_of(r) == old(self)@.reply(hash@, *addr, delivered, now),
            final(self)@ == old(self)@.replied(hash@, *addr, delivered, now),
            r is Some <==> {
                let search = old(self)@.receivers[hash@];
                let last = if *addr is V6 { search.last_reply_ipv6 } else { search.last_reply_ipv4 };
                &&& delivered
                &&& old(self)@.receivers.contains_key(hash@)
                &&& search.port is Some
                &&& last is None || now is None || now->0 > last->0
            },
            r matches Some(text) ==> text@ == announce_text(
                old(self)@.cookie,
                hash@,
                old(self)@.receivers[hash@].port->0,
                *addr is V6,
            ),
    {
        if !delivered {
            return None;
        }
        let is_v6 = addr.is_ipv6();
        match self.receivers.ask_reply_at(hash, is_v6, now) {
            Some(port) => Some(self.gen_announce_msg(hash, port, is_v6)),
            None => None,
        }
    }
}

/// A service takes no notice of its own announcements, whatever it looks for.
pub proof fn law_own_announcements_are_ignored<T, F: Fn(&str) -> Result<SocketAddr, String>>(
    service: ServiceView<T>,
    parse_host: F,
    hash: Seq<u8>,
    port: u16,
    is_v6: bool,
    from: SocketAddr,
    action: ReceivedView,
)
    requires
        service.receives_announced(
            parse_host,
            service.cookie,
            hash,
            port,
            is_v6,
            from,
            action,
        ),
    ensures
        action is OwnMessage || action is Malformed,
        action is Malformed ==> resolves_to_none(parse_host, encode_utf8(host_text(is_v6))),
{
}

/// The announcement of another service reaches the one who looks for the torrent, as the
/// sender's address with the announced port. Nothing is done with it where nobody looks.
pub proof fn law_announcements_reach_their_searcher<T, F: Fn(&str) -> Result<SocketAddr, String>>(
    service: ServiceView<T>,
    parse_host: F,
    cookie: u32,
    hash: Seq<u8>,
    port: u16,
    is_v6: bool,
    from: SocketAddr,
    action: ReceivedView,
)
    requires
        cookie != service.cookie,
        !resolves_to_none(parse_host, encode_utf8(host_text(is_v6))),
        service.receives_announced(parse_host, cookie, hash, port, is_v6, from, action),
    ensures
        service.receivers.contains_key(hash) ==> (action matches ReceivedView::Deliver {
            message,
            addr,
        } && message.hash == hash && message.port == port && message.our_cookie == Some(cookie)
            && addr == from.with_port(port) && addr.spec_port() == port && is_at_port(
            addr,
            from,
            port,
        )),
        !service.receivers.contains_key(hash) ==> action is NotLookedFor,
{
}

/// What is delivered is the address of the sender with another port, for a torrent that is
/// looked for.
pub proof fn law_delivery_keeps_the_sender<T>(
    service: ServiceView<T>,
    parsed: Result<MessageView, ParseErrorView>,
    from: SocketAddr,
)
    ensures
        service.received(parsed, from) matches ReceivedView::Deliver { message, addr } ==> {
            &&& service.receivers.contains_key(message.hash)
            &&& addr.with_port(from.spec_port()) == from
            &&& addr is V6 == from is V6
        },
{
}

/// A search can be ended: what it has added is gone, and nothing else.
pub proof fn law_forgetting_undoes_a_search<T>(
    service: ServiceView<T>,
    hash: Seq<u8>,
    port: Option<u16>,
    tx: T,
)
    ensures
        service.searching(hash, port, tx).forgot(hash) == service.forgot(hash),
        !service.receivers.contains_key(hash) ==> service.searching(hash, port, tx).forgot(hash)
            == service,
{
    assert(service.searching(hash, port, tx).forgot(hash) =~= service.forgot(hash));
    if !service.receivers.contains_key(hash) {
        assert(service.forgot(hash) =~= service);
    }
}

/// A later search for the same torrent takes the place of the earlier one. To end either of
/// them ends the later one.
pub proof fn law_later_search_replaces_the_earlier<T>(
    service: ServiceView<T>,
    hash: Seq<u8>,
    port1: Option<u16>,
    tx1: T,
    port2: Option<u16>,
    tx2: T,
)
    ensures
        service.searching(hash, port1, tx1).searching(hash, port2, tx2) == service.searching(
            hash,
            port2,
            tx2,
        ),
        !service.searching(hash, port1, tx1).searching(hash, port2, tx2).forgot(
            hash,
        ).receivers.contains_key(hash),
{
    assert(service.searching(hash, port1, tx1).searching(hash, port2, tx2)
        =~= service.searching(hash, port2, tx2));
}

/// What is done for one torrent leaves the searches for all others, and the cookie, alone.
pub proof fn law_torrents_are_independent<T>(
    service: ServiceView<T>,
    hash: Seq<u8>,
    other: Seq<u8>,
    port: Option<u16>,
    tx: T,
    from: SocketAddr,
    delivered: bool,
    now: Option<u64>,
)
    requires
        hash != other,
    ensures
        same_search(service.searching(hash, port, tx), service, other),
        same_search(service.forgot(hash), service, other),
        same_search(service.replied(hash, from, delivered, now), service, other),
{
}

/// Both services have the same cookie and do the same for the torrent `hash`.
pub open spec fn same_search<T>(a: ServiceView<T>, b: ServiceView<T>, hash: Seq<u8>) -> bool {
    &&& a.cookie == b.cookie
    &&& a.receivers.contains_key(hash) == b.receivers.contains_key(hash)
    &&& a.receivers.contains_key(hash) ==> a.receivers[hash] == b.receivers[hash]
}

/// Where no port is announced, or the address did not go out, there is no reply and nothing
/// changes.
pub proof fn law_no_port_no_reply<T>(
    service: ServiceView<T>,
    hash: Seq<u8>,
    from: SocketAddr,
    delivered: bool,
    now: Option<u64>,
)
    requires
        !delivered || !service.receivers.contains_key(hash) || service.receivers[hash].port is None,
    ensures
        service.reply(hash, from, delivered, now) is None,
        service.replied(hash, from, delivered, now) == service,
{
}

/// A new search with a port replies to the first peer at once, in either family, on every
/// clock. The reply announces the port of the search.
pub proof fn law_new_search_replies<T>(
    service: ServiceView<T>,
    hash: Seq<u8>,
    port: u16,
    tx: T,
    from: SocketAddr,
    now: Option<u64>,
)
    ensures
        service.searching(hash, Some(port), tx).reply(hash, from, true, now) == Some(
            announce_text(service.cookie, hash, port, from is V6),
        ),
{
}

/// After a reply at `now`, the same torrent has no other in the same family until the clock
/// has moved past that second.
pub proof fn law_second_reply_is_held_back<T>(
    service: ServiceView<T>,
    hash: Seq<u8>,
    from: SocketAddr,
    now: u64,
    next: SocketAddr,
    delivered: bool,
    later: u64,
)
    requires
        service.reply(hash, from, true, Some(now)) is Some,
        from is V6 == next is V6,
        later <= now,
    ensures
        service.replied(hash, from, true, Some(now)).reply(hash, next, delivered, Some(later))
            is None,
        service.replied(hash, from, true, Some(now)).replied(hash, next, delivered, Some(later))
            == service.replied(hash, from, true, Some(now)),
{
    let once = service.replied(hash, from, true, Some(now));
    assert(once.replied(hash, next, delivered, Some(later)) =~= once) by {
        assert(once.receivers.insert(hash, once.receivers[hash]) =~= once.receivers);
    }
}

/// The two families do not share a limit: a reply in one leaves the other's as it was.
pub proof fn law_families_are_independent<T>(
    service: ServiceView<T>,
    hash: Seq<u8>,
    from: SocketAddr,
    delivered: bool,
    now: Option<u64>,
    next: SocketAddr,
    later: Option<u64>,
)
    requires
        from is V6 != next is V6,
    ensures
        service.replied(hash, from, delivered, now).reply(hash, next, true, later)
            == service.reply(hash, next, true, later),
{
}

/// A message that was read is the service's own if and only if it has a cookie and that is the
/// service's; a message without a cookie never is.
pub proof fn law_own_messages_are_known_by_the_cookie<T>(
    service: ServiceView<T>,
    message: MessageView,
    from: SocketAddr,
)
    ensures
        service.received(Ok(message), from) is OwnMessage <==> message.our_cookie == Some(
            service.cookie,
        ),
        message.our_cookie is None ==> service.received(Ok(message), from) !is OwnMessage,
        service.received(Ok(message), from) matches ReceivedView::OwnMessage(own) ==> own
            == message,
{
}

/// Every message of another sender, with or without a cookie, is delivered if its torrent is
/// looked for: as the sender's address, in family, IP, flow label and scope, with the port that
/// the message announces. If its torrent is not looked for, it is passed over.
pub proof fn law_messages_of_others_are_delivered<T>(
    service: ServiceView<T>,
    message: MessageView,
    from: SocketAddr,
)
    requires
        message.our_cookie != Some(service.cookie),
    ensures
        service.receivers.contains_key(message.hash) ==> (service.received(
            Ok(message),
            from,
        ) matches ReceivedView::Deliver { message: delivered, addr } && delivered == message
            && addr.spec_port() == message.port && is_at_port(addr, from, message.port)),
        !service.receivers.contains_key(message.hash) ==> service.received(Ok(message), from)
            == ReceivedView::NotLookedFor(message),
{
}

/// What was not read is never delivered; the error is handed on.
pub proof fn law_errors_are_handed_on<T>(
    service: ServiceView<T>,
    error: ParseErrorView,
    from: SocketAddr,
)
    ensures
        service.received(Err(error), from) == ReceivedView::Malformed(error),
{
}

/// A `Received` holds what stands in it.
pub proof fn law_received_holds_its_parts(
    error: ParseError,
    message: BtSearchAnnounceMessage,
    addr: SocketAddr,
)
    ensures
        Received::Malformed(error)@ == ReceivedView::Malformed(error@),
        Received::OwnMessage(message)@ == ReceivedView::OwnMessage(message@),
        Received::NotLookedFor(message)@ == ReceivedView::NotLookedFor(message@),
        (Received::Deliver { message, addr })@ == (ReceivedView::Deliver {
            message: message@,
            addr,
        }),
{
}

/// Every reply, the first of a search and all others, is the announcement of the service's
/// cookie, the torrent and the port of the search, in the family of the peer.
pub proof fn law_every_reply_announces_the_search<T>(
    service: ServiceView<T>,
    hash: Seq<u8>,
    from: SocketAddr,
    delivered: bool,
    now: Option<u64>,
)
    ensures
        service.reply(hash, from, delivered, now) matches Some(text) ==> delivered
            && service.receivers.contains_key(hash) && (service.receivers[hash].port matches Some(
            port,
        ) && text == announce_text(service.cookie, hash, port, from is V6)),
{
}

/// A delivered peer of a search with a port is answered exactly where its family has had no
/// reply yet, the clock cannot be read, or the clock has moved past the second of the last reply.
pub proof fn law_replies_are_owed_once_a_second<T>(
    service: ServiceView<T>,
    hash: Seq<u8>,
    from: SocketAddr,
    now: Option<u64>,
)
    requires
        service.receivers.contains_key(hash),
        service.receivers[hash].port is Some,
    ensures
        ({
            let search = service.receivers[hash];
            let last = if from is V6 { search.last_reply_ipv6 } else { search.last_reply_ipv4 };
            service.reply(hash, from, true, now) is Some <==> last is None || now is None || now->0
                > last->0
        }),
{
}

/// A reply is timed in its family; nothing else of the service changes: neither the cookie nor
/// any search, its port or where its addresses go.
pub proof fn law_replies_are_timed<T>(
    service: ServiceView<T>,
    hash: Seq<u8>,
    from: SocketAddr,
    delivered: bool,
    now: Option<u64>,
    other: Seq<u8>,
)
    ensures
        ({
            let after = service.replied(hash, from, delivered, now);
            let timed = other == hash && now is Some && service.reply(
                hash,
                from,
                delivered,
                now,
            ) is Some;
            &&& after.cookie == service.cookie
            &&& after.receivers.contains_key(other) <==> service.receivers.contains_key(other)
            &&& service.receivers.contains_key(other) ==> {
                let before = service.receivers[other];
                let search = after.receivers[other];
                &&& search.tx == before.tx
                &&& search.port == before.port
                &&& search.last_reply_ipv4 == if timed && from is V4 {
                    now
                } else {
                    before.last_reply_ipv4
                }
                &&& search.last_reply_ipv6 == if timed && from is V6 {
                    now
                } else {
                    before.last_reply_ipv6
                }
            }
        }),
{
}

/// A new search has the port and the receiver that it was started with, and has sent no reply.
pub proof fn law_search_holds_what_it_was_started_with<T>(
    service: ServiceView<T>,
    hash: Seq<u8>,
    port: Option<u16>,
    tx: T,
)
    ensures
        ({
            let after = service.searching(hash, port, tx);
            &&& after.cookie == service.cookie
            &&& after.receivers.contains_key(hash)
            &&& after.receivers[hash].port == port
            &&& after.receivers[hash].tx == tx
            &&& after.receivers[hash].last_reply_ipv4 is None
            &&& after.receivers[hash].last_reply_ipv6 is None
        }),
{
}

/// Once a torrent is forgotten, nothing of it is delivered or answered, whoever announces it.
pub proof fn law_forgotten_torrents_are_silent<T>(
    service: ServiceView<T>,
    hash: Seq<u8>,
    message: MessageView,
    from: SocketAddr,
    now: Option<u64>,
)
    requires
        message.hash == hash,
    ensures
        service.forgot(hash).cookie == service.cookie,
        !service.forgot(hash).receivers.contains_key(hash),
        service.forgot(hash).received(Ok(message), from) !is Deliver,
        service.forgot(hash).reply(hash, from, true, now) is None,
{
}

/// A text is taken for its characters.
pub proof fn law_text_is_its_characters(text: String)
    ensures
        text_of(Some(text)) == Some(text@),
        text_of(None) is None,
{
}

} // verus!
