//! The torrents whose peers are looked for, each with the one who asked.

use vstd::prelude::*;

use crate::id20::Id20;
use crate::limiter::{last_after, lets_through, RateLimiter};

verus! {

/// One who asked for the peers of a torrent.
pub struct Announce<T> {
    /// Where the addresses of peers go.
    pub tx: T,
    /// The port that is announced, if any.
    pub port: Option<u16>,
    pub last_reply_ipv4: RateLimiter,
    pub last_reply_ipv6: RateLimiter,
}

/// What an `Announce` holds, the limiters as the times of their last replies.
#[verifier::ext_equal]
pub struct AnnounceView<T> {
    pub tx: T,
    pub port: Option<u16>,
    pub last_reply_ipv4: Option<u64>,
    pub last_reply_ipv6: Option<u64>,
}

impl<T> View for Announce<T> {
    type V = AnnounceView<T>;

    open spec fn view(&self) -> AnnounceView<T> {
        AnnounceView {
            tx: self.tx,
            port: self.port,
            last_reply_ipv4: self.last_reply_ipv4@,
            last_reply_ipv6: self.last_reply_ipv6@,
        }
    }
}

impl<T> AnnounceView<T> {
    /// The time of the last reply in one of the two families.
    pub open spec fn last_reply(self, is_v6: bool) -> Option<u64> {
        if is_v6 {
            self.last_reply_ipv6
        } else {
            self.last_reply_ipv4
        }
    }

    /// After a reply in one family has been asked for at `now`.
    pub open spec fn asked(self, is_v6: bool, now: Option<u64>) -> AnnounceView<T> {
        if is_v6 {
            AnnounceView { last_reply_ipv6: last_after(self.last_reply_ipv6, now), ..self }
        } else {
            AnnounceView { last_reply_ipv4: last_after(self.last_reply_ipv4, now), ..self }
        }
    }
}

struct Entry<T> {
    info_hash: Id20,
    announce: Announce<T>,
}

/// The torrents whose peers are looked for; each stands here once.
pub struct Receivers<T> {
    entries: Vec<Entry<T>>,
}

spec fn distinct<T>(entries: Seq<Entry<T>>) -> bool {
    forall|i: int, j: int|
        0 <= i < j < entries.len() ==> #[trigger] entries[i].info_hash@
            != #[trigger] entries[j].info_hash@
}

spec fn holds<T>(entries: Seq<Entry<T>>, hash: Seq<u8>) -> bool {
    exists|i: int| 0 <= i < entries.len() && #[trigger] entries[i].info_hash@ == hash
}

spec fn place<T>(entries: Seq<Entry<T>>, hash: Seq<u8>) -> int {
    choose|i: int| 0 <= i < entries.len() && #[trigger] entries[i].info_hash@ == hash
}

spec fn as_map<T>(entries: Seq<Entry<T>>) -> Map<Seq<u8>, AnnounceView<T>> {
    Map::new(
        |hash: Seq<u8>| holds(entries, hash),
        |hash: Seq<u8>| entries[place(entries, hash)].announce@,
    )
}

proof fn lemma_place<T>(entries: Seq<Entry<T>>, i: int)
    requires
        distinct(entries),
        0 <= i < entries.len(),
    ensures
        holds(entries, entries[i].info_hash@),
        place(entries, entries[i].info_hash@) == i,
{
    let hash = entries[i].info_hash@;
    assert(holds(entries, hash));
    let j = place(entries, hash);
    assert(0 <= j < entries.len() && entries[j].info_hash@ == hash);
    if i < j {
        assert(entries[i].info_hash@ != entries[j].info_hash@);
    } else if j < i {
        assert(entries[j].info_hash@ != entries[i].info_hash@);
    }
}

/// Replacing the entry at `i` by one of the same torrent replaces its value in the map.
proof fn lemma_replaced<T>(before: Seq<Entry<T>>, after: Seq<Entry<T>>, i: int)
    requires
        distinct(before),
        0 <= i < before.len(),
        after.len() == before.len(),
        after[i].info_hash@ == before[i].info_hash@,
        forall|j: int| 0 <= j < before.len() && j != i ==> #[trigger] after[j] == before[j],
    ensures
        distinct(after),
        as_map(after) == as_map(before).insert(after[i].info_hash@, after[i].announce@),
{
    assert forall|j: int, k: int| 0 <= j < k < after.len() implies #[trigger] after[j].info_hash@
        != #[trigger] after[k].info_hash@ by {
        assert(before[j].info_hash@ != before[k].info_hash@);
    }
    let expected = as_map(before).insert(after[i].info_hash@, after[i].announce@);
    assert forall|hash: Seq<u8>| as_map(after).dom().contains(hash) == expected.dom().contains(
        hash,
    ) by {
        if holds(after, hash) {
            let k = place(after, hash);
            lemma_place(before, k);
        }
        if holds(before, hash) {
            let k = place(before, hash);
            lemma_place(after, k);
        }
        lemma_place(after, i);
    }
    assert forall|hash: Seq<u8>| as_map(after).dom().contains(hash) implies #[trigger] as_map(
        after,
    )[hash] == expected[hash] by {
        let k = place(after, hash);
        assert(after[k].info_hash@ == hash);
        lemma_place(before, k);
        lemma_place(after, i);
    }
    assert(as_map(after) =~= expected);
}

impl<T> View for Receivers<T> {
    type V = Map<Seq<u8>, AnnounceView<T>>;

    closed spec fn view(&self) -> Map<Seq<u8>, AnnounceView<T>> {
        as_map(self.entries@)
    }
}

impl<T> Receivers<T> {
    #[verifier::type_invariant]
    spec fn well_formed(self) -> bool {
        distinct(self.entries@)
    }

    /// No torrents.
    pub fn new() -> (r: Self)
        ensures
            r@ == Map::<Seq<u8>, AnnounceView<T>>::empty(),
    {
        let r = Receivers { entries: Vec::new() };
        assert(r@ =~= Map::empty());
        r
    }

    fn find(&self, hash: &Id20) -> (r: Option<usize>)
        ensures
            match r {
                Some(i) => i < self.entries@.len() && self.entries@[i as int].info_hash@ == hash@,
                None => !holds(self.entries@, hash@),
            },
    {
        let mut i: usize = 0;
        while i < self.entries.len()
            invariant
                i <= self.entries@.len(),
                forall|j: int| 0 <= j < i ==> #[trigger] self.entries@[j].info_hash@ != hash@,
            decreases self.entries@.len() - i,
        {
            if self.entries[i].info_hash == *hash {
                return Some(i);
            }
            i = i + 1;
        }
        None
    }

    /// The one who asked for the torrent `hash`, if there is one.
    pub fn get(&self, hash: &Id20) -> (r: Option<&Announce<T>>)
        ensures
            r is Some <==> self@.contains_key(hash@),
            r matches Some(announce) ==> announce@ == self@[hash@],
    {
        proof {
            use_type_invariant(self);
        }
        match self.find(hash) {
            Some(i) => {
                proof {
                    lemma_place(self.entries@, i as int);
                }
                Some(&self.entries[i].announce)
            },
            None => None,
        }
    }

    /// Enters the torrent `hash`, in place of an earlier entry of the same torrent.
    pub fn insert(&mut self, hash: Id20, announce: Announce<T>)
        ensures
            final(self)@ == old(self)@.insert(hash@, announce@),
    {
        proof {
            use_type_invariant(&*self);
        }
        let found = self.find(&hash);
        let mut entries: Vec<Entry<T>> = Vec::new();
        std::mem::swap(&mut entries, &mut self.entries);
        let ghost before = entries@;
        match found {
            Some(i) => {
                entries[i] = Entry { info_hash: hash, announce };
                proof {
                    lemma_replaced(before, entries@, i as int);
                }
            },
            None => {
                entries.push(Entry { info_hash: hash, announce });
                proof {
                    assert(entries@.drop_last() =~= before);
                    lemma_added(before, entries@);
                }
            },
        }
        self.entries = entries;
    }

    /// Strikes the torrent `hash` out, if it is entered.
    pub fn remove(&mut self, hash: &Id20)
        ensures
            final(self)@ == old(self)@.remove(hash@),
    {
        proof {
            use_type_invariant(&*self);
        }
        match self.find(hash) {
            Some(i) => {
                let mut entries: Vec<Entry<T>> = Vec::new();
                std::mem::swap(&mut entries, &mut self.entries);
                let ghost before = entries@;
                let _removed = entries.remove(i);
                proof {
                    lemma_removed(before, entries@, i as int);
                }
                self.entries = entries;
            },
            None => {
                assert(self@.remove(hash@) =~= self@);
            },
        }
    }

    /// Asks at `now` for a reply on the torrent `hash` in one family. The port to reply with,
    /// where one is announced and the limit lets the reply through.
    pub fn ask_reply_at(&mut self, hash: &Id20, is_v6: bool, now: Option<u64>) -> (r: Option<u16>)
        ensures
            r == reply_port(old(self)@, hash@, is_v6, now),
            final(self)@ == after_asking(old(self)@, hash@, is_v6, now),
    {
        proof {
            use_type_invariant(&*self);
        }
        let i = match self.find(hash) {
            Some(i) => i,
            None => {
                return None;
            },
        };
        proof {
            lemma_place(self.entries@, i as int);
        }
        let port = match self.entries[i].announce.port {
            Some(port) => port,
            None => {
                return None;
            },
        };
        let mut entries: Vec<Entry<T>> = Vec::new();
        std::mem::swap(&mut entries, &mut self.entries);
        let ghost before = entries@;
        let granted = if is_v6 {
            entries[i].announce.last_reply_ipv6.check_at(now)
        } else {
            entries[i].announce.last_reply_ipv4.check_at(now)
        };
        proof {
            lemma_replaced(before, entries@, i as int);
        }
        self.entries = entries;
        match granted {
            Some(()) => Some(port),
            None => None,
        }
    }
}

/// The port to reply with on the torrent `hash` at `now`: the one announced, where there is
/// one and the limit of the family lets a reply through.
pub open spec fn reply_port<T>(
    receivers: Map<Seq<u8>, AnnounceView<T>>,
    hash: Seq<u8>,
    is_v6: bool,
    now: Option<u64>,
) -> Option<u16> {
    if receivers.contains_key(hash) && lets_through(receivers[hash].last_reply(is_v6), now) {
        receivers[hash].port
    } else {
        None
    }
}

/// What is entered once a reply on the torrent `hash` has been asked for at `now`: without a
/// port to announce the limit is not touched.
pub open spec fn after_asking<T>(
    receivers: Map<Seq<u8>, AnnounceView<T>>,
    hash: Seq<u8>,
    is_v6: bool,
    now: Option<u64>,
) -> Map<Seq<u8>, AnnounceView<T>> {
    if receivers.contains_key(hash) && receivers[hash].port is Some {
        receivers.insert(hash, receivers[hash].asked(is_v6, now))
    } else {
        receivers
    }
}

proof fn lemma_removed<T>(before: Seq<Entry<T>>, after: Seq<Entry<T>>, i: int)
    requires
        distinct(before),
        0 <= i < before.len(),
        after == before.remove(i),
    ensures
        distinct(after),
        as_map(after) == as_map(before).remove(before[i].info_hash@),
{
    assert forall|j: int, k: int| 0 <= j < k < after.len() implies #[trigger] after[j].info_hash@
        != #[trigger] after[k].info_hash@ by {
        let j0 = if j < i { j } else { j + 1 };
        let k0 = if k < i { k } else { k + 1 };
        assert(after[j] == before[j0] && after[k] == before[k0]);
        assert(before[j0].info_hash@ != before[k0].info_hash@);
    }
    let expected = as_map(before).remove(before[i].info_hash@);
    lemma_place(before, i);
    assert forall|hash: Seq<u8>| as_map(after).dom().contains(hash) == expected.dom().contains(
        hash,
    ) by {
        if holds(after, hash) {
            let k = place(after, hash);
            let k0 = if k < i { k } else { k + 1 };
            assert(after[k] == before[k0]);
            lemma_place(before, k0);
        }
        if holds(before, hash) && hash != before[i].info_hash@ {
            let k = place(before, hash);
            let k1 = if k < i { k } else { k - 1 };
            assert(after[k1] == before[k]);
            lemma_place(after, k1);
        }
    }
    assert forall|hash: Seq<u8>| as_map(after).dom().contains(hash) implies #[trigger] as_map(
        after,
    )[hash] == expected[hash] by {
        let k = place(after, hash);
        assert(after[k].info_hash@ == hash);
        let k0 = if k < i { k } else { k + 1 };
        assert(after[k] == before[k0]);
        lemma_place(before, k0);
    }
    assert(as_map(after) =~= expected);
}

proof fn lemma_added<T>(before: Seq<Entry<T>>, after: Seq<Entry<T>>)
    requires
        distinct(before),
        after.len() == before.len() + 1,
        after.drop_last() == before,
        !holds(before, after.last().info_hash@),
    ensures
        distinct(after),
        as_map(after) == as_map(before).insert(after.last().info_hash@, after.last().announce@),
{
    let n = before.len() as int;
    assert forall|j: int| 0 <= j < n implies #[trigger] after[j] == before[j] by {
        assert(after.drop_last()[j] == after[j]);
    }
    assert forall|j: int, k: int| 0 <= j < k < after.len() implies #[trigger] after[j].info_hash@
        != #[trigger] after[k].info_hash@ by {
        if k < n {
            assert(before[j].info_hash@ != before[k].info_hash@);
        } else {
            assert(before[j].info_hash@ != after[n].info_hash@);
        }
    }
    let expected = as_map(before).insert(after[n].info_hash@, after[n].announce@);
    lemma_place(after, n);
    assert forall|hash: Seq<u8>| as_map(after).dom().contains(hash) == expected.dom().contains(
        hash,
    ) by {
        if holds(after, hash) {
            let k = place(after, hash);
            if k < n {
                lemma_place(before, k);
            }
        }
        if holds(before, hash) {
            let k = place(before, hash);
            lemma_place(after, k);
        }
    }
    assert forall|hash: Seq<u8>| as_map(after).dom().contains(hash) implies #[trigger] as_map(
        after,
    )[hash] == expected[hash] by {
        let k = place(after, hash);
        assert(after[k].info_hash@ == hash);
        if k < n {
            lemma_place(before, k);
        }
    }
    assert(as_map(after) =~= expected);
}

/// Every reply is with the port that the search announces, the first one and all others; and
/// there is one exactly where the torrent is entered with a port and its family has had no
/// reply yet, the clock cannot be read, or a second has passed since the last reply.
pub proof fn law_replies_are_with_the_announced_port<T>(
    receivers: Map<Seq<u8>, AnnounceView<T>>,
    hash: Seq<u8>,
    is_v6: bool,
    now: Option<u64>,
)
    ensures
        reply_port(receivers, hash, is_v6, now) matches Some(port) ==> receivers.contains_key(hash)
            && receivers[hash].port == Some(port),
        reply_port(receivers, hash, is_v6, now) is Some <==> {
            let search = receivers[hash];
            let last = if is_v6 { search.last_reply_ipv6 } else { search.last_reply_ipv4 };
            &&& receivers.contains_key(hash)
            &&& search.port is Some
            &&& last is None || now is None || now->0 > last->0
        },
{
}

/// To ask for a reply changes the time of the last reply in that family alone, and only to the
/// time of a reply that was due.
pub proof fn law_asking_touches_one_time_alone<T>(
    receivers: Map<Seq<u8>, AnnounceView<T>>,
    hash: Seq<u8>,
    is_v6: bool,
    now: Option<u64>,
    other: Seq<u8>,
)
    ensures
        ({
            let after = after_asking(receivers, hash, is_v6, now);
            let due = reply_port(receivers, hash, is_v6, now) is Some;
            &&& after.contains_key(other) <==> receivers.contains_key(other)
            &&& receivers.contains_key(other) ==> {
                let old_search = receivers[other];
                let search = after[other];
                &&& search.tx == old_search.tx
                &&& search.port == old_search.port
                &&& search.last_reply_ipv4 == if other == hash && !is_v6 && due && now is Some {
                    now
                } else {
                    old_search.last_reply_ipv4
                }
                &&& search.last_reply_ipv6 == if other == hash && is_v6 && due && now is Some {
                    now
                } else {
                    old_search.last_reply_ipv6
                }
            }
        }),
{
}

/// What an `Announce` holds stands in it: where the addresses go, the port, and the times of
/// the last replies in the two families.
pub proof fn law_announce_holds_its_parts<T>(announce: Announce<T>)
    ensures
        announce@.tx == announce.tx,
        announce@.port == announce.port,
        announce@.last_reply_ipv4 == announce.last_reply_ipv4@,
        announce@.last_reply_ipv6 == announce.last_reply_ipv6@,
        announce@.last_reply(false) == announce.last_reply_ipv4@,
        announce@.last_reply(true) == announce.last_reply_ipv6@,
{
}

} // verus!
