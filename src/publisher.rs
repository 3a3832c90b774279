//! Bookkeeping of commit dissemination: how many committed entries there are, which
//! subscribers are connected, and the next index that each of them is owed. The
//! delivery rounds are planned here; sending the batches is left to the caller, who
//! reports back which sends succeeded.
use vstd::prelude::*;

verus! {

/// A connected subscriber and the next index owed to it.
pub struct Subscriber {
    pub addr: String,
    pub cursor: u64,
}

/// One batch to send: the entries with indices `from` to `to`, both included.
pub struct Delivery {
    pub addr: String,
    pub from: u64,
    pub to: u64,
}

pub struct SubscriberView {
    pub addr: Seq<char>,
    pub cursor: u64,
}

pub struct DeliveryView {
    pub addr: Seq<char>,
    pub from: u64,
    pub to: u64,
}

impl View for Subscriber {
    type V = SubscriberView;

    open spec fn view(&self) -> SubscriberView {
        SubscriberView { addr: self.addr@, cursor: self.cursor }
    }
}

impl View for Delivery {
    type V = DeliveryView;

    open spec fn view(&self) -> DeliveryView {
        DeliveryView { addr: self.addr@, from: self.from, to: self.to }
    }
}

/// The abstract values of a sequence of subscribers.
pub open spec fn subscribers_view(s: Seq<Subscriber>) -> Seq<SubscriberView> {
    s.map_values(|x: Subscriber| x@)
}

/// The abstract values of a sequence of deliveries.
pub open spec fn deliveries_view(s: Seq<Delivery>) -> Seq<DeliveryView> {
    s.map_values(|x: Delivery| x@)
}

/// The batches of a round whose last index is `last`: one for each subscriber, in
/// registry order, whose cursor is at most `last`, covering its cursor to `last`.
pub open spec fn plan(subs: Seq<SubscriberView>, last: u64) -> Seq<DeliveryView>
    decreases subs.len(),
{
    if subs.len() == 0 {
        Seq::empty()
    } else {
        let p = plan(subs.drop_last(), last);
        let s = subs.last();
        if s.cursor <= last {
            p.push(DeliveryView { addr: s.addr, from: s.cursor, to: last })
        } else {
            p
        }
    }
}

/// The registry without the subscribers at `addr`.
pub open spec fn without(subs: Seq<SubscriberView>, addr: Seq<char>) -> Seq<SubscriberView>
    decreases subs.len(),
{
    if subs.len() == 0 {
        Seq::empty()
    } else {
        let p = without(subs.drop_last(), addr);
        if subs.last().addr == addr {
            p
        } else {
            p.push(subs.last())
        }
    }
}

/// The registry with the cursor of the subscribers at `addr` set to `cursor`.
pub open spec fn advanced(subs: Seq<SubscriberView>, addr: Seq<char>, cursor: u64) -> Seq<
    SubscriberView,
> {
    subs.map_values(
        |s: SubscriberView|
            if s.addr == addr {
                SubscriberView { addr: s.addr, cursor }
            } else {
                s
            },
    )
}

/// Some subscriber of the registry is at `addr`.
pub open spec fn registered(subs: Seq<SubscriberView>, addr: Seq<char>) -> bool {
    exists|i: int| 0 <= i < subs.len() && #[trigger] subs[i].addr == addr
}

/// The dissemination state: the number of committed entries and the subscriber registry.
pub struct Publisher {
    committed: u64,
    subscribers: Vec<Subscriber>,
}

impl Publisher {
    /// How many committed entries there are; their indices run from 0.
    pub closed spec fn committed_count(&self) -> nat {
        self.committed as nat
    }

    /// The registry, in order of registration.
    pub closed spec fn registry(&self) -> Seq<SubscriberView> {
        subscribers_view(self.subscribers@)
    }

    /// A publisher that starts from `committed` entries already applied, with no
    /// subscriber.
    pub fn new(committed: u64) -> (r: Publisher)
        ensures
            r.committed_count() == committed,
            r.registry() == Seq::<SubscriberView>::empty(),
    {
        let r = Publisher { committed, subscribers: Vec::new() };
        assert(r.registry() =~= Seq::<SubscriberView>::empty());
        r
    }

    pub fn committed(&self) -> (r: u64)
        ensures
            r == self.committed_count(),
    {
        self.committed
    }

    pub fn subscriber_count(&self) -> (r: usize)
        ensures
            r == self.registry().len(),
    {
        self.subscribers.len()
    }

    /// Whether a subscriber at `addr` is registered.
    pub fn is_registered(&self, addr: &String) -> (r: bool)
        ensures
            r == registered(self.registry(), addr@),
    {
        let mut i: usize = 0;
        while i < self.subscribers.len()
            invariant
                i <= self.subscribers@.len(),
                forall|j: int| 0 <= j < i ==> #[trigger] self.registry()[j].addr != addr@,
            decreases self.subscribers@.len() - i,
        {
            assert(self.registry()[i as int] == self.subscribers@[i as int]@);
            if self.subscribers[i].addr == *addr {
                assert(self.registry()[i as int].addr == addr@);
                return true;
            }
            i = i + 1;
        }
        false
    }

    /// The cursor of the first subscriber registered at `addr`, if there is one.
    pub fn cursor(&self, addr: &String) -> (r: Option<u64>)
        ensures
            r is None <==> !registered(self.registry(), addr@),
            r matches Some(c) ==> exists|i: int|
                0 <= i < self.registry().len() && #[trigger] self.registry()[i] == (SubscriberView {
                    addr: addr@,
                    cursor: c,
                }) && forall|j: int| 0 <= j < i ==> self.registry()[j].addr != addr@,
    {
        let mut i: usize = 0;
        while i < self.subscribers.len()
            invariant
                i <= self.subscribers@.len(),
                forall|j: int| 0 <= j < i ==> #[trigger] self.registry()[j].addr != addr@,
            decreases self.subscribers@.len() - i,
        {
            assert(self.registry()[i as int] == self.subscribers@[i as int]@);
            if self.subscribers[i].addr == *addr {
                assert(self.registry()[i as int].addr == addr@);
                return Some(self.subscribers[i].cursor);
            }
            i = i + 1;
        }
        None
    }

    /// Registers a subscriber at `addr` with cursor 0, unless one is registered there
    /// already, whose cursor then stays.
    pub fn register(&mut self, addr: String)
        ensures
            final(self).committed_count() == old(self).committed_count(),
            registered(old(self).registry(), addr@) ==> final(self).registry() == old(
                self,
            ).registry(),
            !registered(old(self).registry(), addr@) ==> final(self).registry() == old(
                self,
            ).registry().push(SubscriberView { addr: addr@, cursor: 0 }),
    {
        if self.is_registered(&addr) {
            return;
        }
        let ghost prev = self.subscribers@;
        self.subscribers.push(Subscriber { addr, cursor: 0 });
        assert(subscribers_view(self.subscribers@) =~= subscribers_view(prev).push(
            SubscriberView { addr: addr@, cursor: 0 },
        ));
    }

    /// Sets the cursor of the subscriber at `addr` to `cursor`. Serves both the index
    /// that a client reports it has applied and the advance after a successful send.
    pub fn set_cursor(&mut self, addr: &String, cursor: u64)
        ensures
            final(self).committed_count() == old(self).committed_count(),
            final(self).registry() == advanced(old(self).registry(), addr@, cursor),
    {
        let mut i: usize = 0;
        while i < self.subscribers.len()
            invariant
                i <= self.subscribers@.len(),
                self.subscribers@.len() == old(self).subscribers@.len(),
                self.committed == old(self).committed,
                forall|j: int|
                    0 <= j < i ==> #[trigger] self.subscribers@[j]@ == advanced(
                        old(self).registry(),
                        addr@,
                        cursor,
                    )[j],
                forall|j: int|
                    i <= j < self.subscribers@.len() ==> #[trigger] self.subscribers@[j]
                        == old(self).subscribers@[j],
            decreases self.subscribers@.len() - i,
        {
            if self.subscribers[i].addr == *addr {
                let a = self.subscribers[i].addr.clone();
                self.subscribers.set(i, Subscriber { addr: a, cursor });
            }
            assert(old(self).registry()[i as int] == old(self).subscribers@[i as int]@);
            i = i + 1;
        }
        assert forall|j: int| 0 <= j < self.registry().len() implies self.registry()[j] == advanced(
            old(self).registry(),
            addr@,
            cursor,
        )[j] by {
            assert(self.registry()[j] == self.subscribers@[j]@);
        }
        assert(self.registry() =~= advanced(old(self).registry(), addr@, cursor));
    }

    /// Records a successful send of a batch that ended at index `to`: the subscriber at
    /// `addr` is next owed `to + 1`.
    pub fn delivered(&mut self, addr: &String, to: u64)
        requires
            to < u64::MAX,
        ensures
            final(self).committed_count() == old(self).committed_count(),
            final(self).registry() == advanced(old(self).registry(), addr@, (to + 1) as u64),
    {
        self.set_cursor(addr, to + 1);
    }

    /// Removes the subscriber at `addr` after a failed send.
    pub fn evict(&mut self, addr: &String)
        ensures
            final(self).committed_count() == old(self).committed_count(),
            final(self).registry() == without(old(self).registry(), addr@),
    {
        let mut kept: Vec<Subscriber> = Vec::new();
        let n = self.subscribers.len();
        let mut i: usize = 0;
        while i < n
            invariant
                n == self.subscribers@.len(),
                i <= n,
                self.subscribers@ == old(self).subscribers@,
                self.committed == old(self).committed,
                subscribers_view(kept@) == without(self.registry().take(i as int), addr@),
            decreases n - i,
        {
            assert(self.registry().take(i + 1).drop_last() =~= self.registry().take(i as int));
            assert(self.registry()[i as int] == self.subscribers@[i as int]@);
            if self.subscribers[i].addr != *addr {
                let s = Subscriber {
                    addr: self.subscribers[i].addr.clone(),
                    cursor: self.subscribers[i].cursor,
                };
                let ghost prev = kept@;
                kept.push(s);
                assert(subscribers_view(kept@) =~= subscribers_view(prev).push(s@));
            }
            i = i + 1;
        }
        assert(self.registry().take(n as int) =~= self.registry());
        self.subscribers = kept;
    }

    fn plan_round(&self, last: u64) -> (r: Vec<Delivery>)
        ensures
            deliveries_view(r@) == plan(self.registry(), last),
    {
        let mut out: Vec<Delivery> = Vec::new();
        let n = self.subscribers.len();
        let mut i: usize = 0;
        while i < n
            invariant
                n == self.subscribers@.len(),
                i <= n,
                deliveries_view(out@) == plan(self.registry().take(i as int), last),
            decreases n - i,
        {
            assert(self.registry().take(i + 1).drop_last() =~= self.registry().take(i as int));
            assert(self.registry()[i as int] == self.subscribers@[i as int]@);
            let cursor = self.subscribers[i].cursor;
            if cursor <= last {
                let d = Delivery { addr: self.subscribers[i].addr.clone(), from: cursor, to: last };
                let ghost prev = out@;
                out.push(d);
                assert(deliveries_view(out@) =~= deliveries_view(prev).push(d@));
            }
            i = i + 1;
        }
        assert(self.registry().take(n as int) =~= self.registry());
        out
    }

    /// Takes in one more committed entry and plans the event-driven round: a batch for
    /// each subscriber that is owed entries up to the new last index.
    pub fn on_commit(&mut self) -> (r: Vec<Delivery>)
        requires
            old(self).committed_count() < u64::MAX,
        ensures
            final(self).committed_count() == old(self).committed_count() + 1,
            final(self).registry() == old(self).registry(),
            deliveries_view(r@) == plan(old(self).registry(), old(self).committed_count() as u64),
    {
        let last = self.committed;
        self.committed = self.committed + 1;
        self.plan_round(last)
    }

    /// Plans the periodic catch-up round: nothing while no entry is committed, else a
    /// batch for each subscriber owed entries up to the last committed index.
    pub fn periodic_round(&self) -> (r: Vec<Delivery>)
        ensures
            self.committed_count() == 0 ==> r@.len() == 0,
            self.committed_count() > 0 ==> deliveries_view(r@) == plan(
                self.registry(),
                (self.committed_count() - 1) as u64,
            ),
    {
        if self.committed == 0 {
            return Vec::new();
        }
        self.plan_round(self.committed - 1)
    }
}

/// Every batch of a round goes to a registered subscriber and covers its cursor up to
/// the round's last index.
pub proof fn lemma_plan_registered(subs: Seq<SubscriberView>, last: u64, k: int)
    requires
        0 <= k < plan(subs, last).len(),
    ensures
        exists|i: int|
            0 <= i < subs.len() && #[trigger] subs[i] == (SubscriberView {
                addr: plan(subs, last)[k].addr,
                cursor: plan(subs, last)[k].from,
            }),
        plan(subs, last)[k].from <= plan(subs, last)[k].to,
        plan(subs, last)[k].to == last,
    decreases subs.len(),
{
    let p = plan(subs.drop_last(), last);
    if k < p.len() {
        lemma_plan_registered(subs.drop_last(), last, k);
        let i = choose|i: int|
            0 <= i < subs.drop_last().len() && #[trigger] subs.drop_last()[i] == (
            SubscriberView { addr: p[k].addr, cursor: p[k].from });
        assert(subs[i] == subs.drop_last()[i]);
    } else {
        assert(subs[subs.len() - 1] == subs.last());
    }
}

proof fn lemma_without_absent(subs: Seq<SubscriberView>, addr: Seq<char>)
    ensures
        !registered(without(subs, addr), addr),
    decreases subs.len(),
{
    if subs.len() > 0 {
        lemma_without_absent(subs.drop_last(), addr);
        let w = without(subs, addr);
        let p = without(subs.drop_last(), addr);
        assert forall|i: int| 0 <= i < w.len() implies #[trigger] w[i].addr != addr by {
            if i < p.len() {
                assert(w[i] == p[i]);
                assert(!(0 <= i < p.len() && p[i].addr == addr));
            }
        }
    }
}

/// An evicted subscriber gets no further batch: once the subscriber at `addr` is
/// removed, no round planned over the remaining registry, whatever its last index,
/// holds a batch for `addr`.
pub proof fn lemma_evicted_gets_nothing(subs: Seq<SubscriberView>, addr: Seq<char>, last: u64)
    ensures
        forall|k: int|
            0 <= k < plan(without(subs, addr), last).len() ==> #[trigger] plan(
                without(subs, addr),
                last,
            )[k].addr != addr,
{
    lemma_without_absent(subs, addr);
    assert forall|k: int| 0 <= k < plan(without(subs, addr), last).len() implies #[trigger] plan(
        without(subs, addr),
        last,
    )[k].addr != addr by {
        let w = without(subs, addr);
        lemma_plan_registered(w, last, k);
        let i = choose|i: int|
            0 <= i < w.len() && #[trigger] w[i] == (SubscriberView {
                addr: plan(w, last)[k].addr,
                cursor: plan(w, last)[k].from,
            });
        assert(w[i].addr != addr);
    }
}

} // verus!
