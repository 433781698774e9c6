use vstd::prelude::*;

use crate::models::{opt_str_view, opt_string_view, Broker, Subscription, Topic};

verus! {

/// Number of values a history query returns when its caller names no limit.
pub const DEFAULT_VALUES_LIMIT: usize = 10;

/// One retained value of a topic, with its ingestion time in milliseconds.
#[derive(Debug, Clone)]
pub struct StoredValue {
    pub value: String,
    pub timestamp: u64,
}

/// Why the store refused an operation.
#[derive(Debug, Clone, Copy, PartialEq, Eq)]
pub enum StoreError {
    /// A retention cap of zero was asked for; every topic keeps at least one value.
    InvalidMaxValues,
    /// No broker of that name is registered.
    UnknownBroker,
    /// No topic of that name is registered.
    UnknownTopic,
    /// No further row identifier is available.
    CapacityExhausted,
}

/// A stored value as text and timestamp.
pub open spec fn value_view(v: StoredValue) -> (Seq<char>, u64) {
    (v.value@, v.timestamp)
}

/// A history as texts and timestamps, oldest first.
pub open spec fn history_view(h: Seq<StoredValue>) -> Seq<(Seq<char>, u64)> {
    h.map_values(|v: StoredValue| value_view(v))
}

/// The last `n` entries of `h`, or the whole of `h` when it holds no more than `n`.
pub open spec fn retain<A>(h: Seq<A>, n: nat) -> Seq<A> {
    if h.len() <= n {
        h
    } else {
        h.subrange(h.len() - n, h.len() as int)
    }
}

/// At most `limit` entries of `h`, newest (last) first.
pub open spec fn newest_first<A>(h: Seq<A>, limit: nat) -> Seq<A> {
    Seq::new(
        if h.len() <= limit { h.len() } else { limit },
        |k: int| h[h.len() - 1 - k],
    )
}

/// Timestamps never decrease from the oldest entry to the newest.
pub open spec fn stamps_sorted(h: Seq<(Seq<char>, u64)>) -> bool {
    forall|i: int, j: int| 0 <= i <= j < h.len() ==> h[i].1 <= h[j].1
}

/// Timestamp given to a value that arrives at `now` in a store whose newest
/// value carries `clock`: ingestion times never run backwards.
pub open spec fn ingestion_stamp(clock: u64, now: u64) -> u64 {
    if now < clock {
        clock
    } else {
        now
    }
}

/// An answer entry as text and timestamp.
pub open spec fn pair_view(p: (String, u64)) -> (Seq<char>, u64) {
    (p.0@, p.1)
}

/// A topic's history respects its cap, is in ingestion order and holds no
/// stamp later than `clock`.
pub open spec fn history_ok(t: Topic, h: Seq<StoredValue>, clock: u64) -> bool {
    let v = history_view(h);
    &&& t.max_values >= 1
    &&& v.len() <= t.max_values
    &&& stamps_sorted(v)
    &&& forall|k: int| 0 <= k < v.len() ==> v[k].1 <= clock
}

/// Topic metadata and bounded per-topic value history.
///
/// Topic names are unique. Each topic keeps at most `max_values` values,
/// oldest evicted first, with timestamps in ingestion order.
pub struct DatabaseService {
    topics: Vec<Topic>,
    histories: Vec<Vec<StoredValue>>,
    clock: u64,
    brokers: Vec<Broker>,
    subscriptions: Vec<Subscription>,
    next_subscription_id: i64,
}

/// Some row of `subs` links broker `b` to topic `t`.
pub open spec fn has_pair(subs: Seq<Subscription>, b: i64, t: i64) -> bool {
    exists|k: int| 0 <= k < subs.len() && #[trigger] subs[k].broker_id == b && subs[k].topic_id == t
}

impl DatabaseService {
    /// The store's internal invariant.
    pub closed spec fn wf(&self) -> bool {
        &&& self.topics@.len() == self.histories@.len()
        &&& self.topics@.len() < i64::MAX
        &&& forall|i: int, j: int|
            0 <= i < j < self.topics@.len() ==> #[trigger] self.topics@[i].topic@
                != #[trigger] self.topics@[j].topic@
        &&& forall|i: int| 0 <= i < self.topics@.len() ==> #[trigger] self.topics@[i].id == i + 1
        &&& forall|i: int|
            0 <= i < self.topics@.len() ==> history_ok(
                self.topics@[i],
                #[trigger] self.histories@[i]@,
                self.clock,
            )
        &&& self.brokers_ok()
    }

    /// Broker names are unique, broker ids follow the rows, and the next
    /// subscription id is fresh.
    closed spec fn brokers_ok(&self) -> bool {
        &&& self.brokers@.len() < i64::MAX
        &&& forall|i: int, j: int|
            0 <= i < j < self.brokers@.len() ==> #[trigger] self.brokers@[i].name@
                != #[trigger] self.brokers@[j].name@
        &&& forall|i: int| 0 <= i < self.brokers@.len() ==> #[trigger] self.brokers@[i].id == i + 1
        &&& 1 <= self.next_subscription_id
        &&& forall|k: int|
            0 <= k < self.subscriptions@.len() ==> #[trigger] self.subscriptions@[k].id
                < self.next_subscription_id
        &&& forall|k: int|
            0 <= k < self.subscriptions@.len() ==> 1 <= #[trigger] self.subscriptions@[k].broker_id
                <= self.brokers@.len()
        &&& forall|k: int|
            0 <= k < self.subscriptions@.len() ==> 1 <= #[trigger] self.subscriptions@[k].topic_id
                <= self.topics@.len()
    }

    /// Position of the broker named `name`, or -1 when there is none.
    pub closed spec fn broker_slot(&self, name: Seq<char>) -> int {
        if exists|i: int| 0 <= i < self.brokers@.len() && #[trigger] self.brokers@[i].name@ == name {
            choose|i: int| 0 <= i < self.brokers@.len() && #[trigger] self.brokers@[i].name@ == name
        } else {
            -1
        }
    }

    /// Whether a broker named `name` is registered.
    pub open spec fn broker_registered(&self, name: Seq<char>) -> bool {
        self.broker_slot(name) >= 0
    }

    /// The row of broker `name`; meaningful only where it is registered.
    pub closed spec fn broker_row(&self, name: Seq<char>) -> Broker {
        self.brokers@[self.broker_slot(name)]
    }

    /// Number of broker rows.
    pub closed spec fn broker_count(&self) -> nat {
        self.brokers@.len()
    }

    /// Whether another subscription row can be given an identifier.
    pub closed spec fn subscription_ids_left(&self) -> bool {
        self.next_subscription_id < i64::MAX
    }

    /// Whether broker `b` serves topic `t`: both are registered and a
    /// subscription row links them.
    pub closed spec fn linked(&self, b: Seq<char>, t: Seq<char>) -> bool {
        &&& self.broker_registered(b)
        &&& self.registered(t)
        &&& has_pair(self.subscriptions@, self.broker_row(b).id, self.topic_row(t).id)
    }

    /// Topic rows, histories and the clock are the same in `new` as in `old`.
    pub open spec fn topics_kept(old: Self, new: Self) -> bool {
        &&& new.topic_count() == old.topic_count()
        &&& new.clock() == old.clock()
        &&& forall|n: Seq<char>| #[trigger] new.slot(n) == old.slot(n)
        &&& forall|n: Seq<char>| #[trigger] new.topic_row(n) == old.topic_row(n)
        &&& forall|n: Seq<char>| #[trigger] new.history(n) == old.history(n)
    }

    /// Broker rows are the same in `new` as in `old`.
    pub open spec fn brokers_kept(old: Self, new: Self) -> bool {
        &&& new.broker_count() == old.broker_count()
        &&& forall|n: Seq<char>| #[trigger] new.broker_slot(n) == old.broker_slot(n)
        &&& forall|n: Seq<char>| #[trigger] new.broker_row(n) == old.broker_row(n)
    }

    proof fn lemma_broker_slot_at(&self, name: Seq<char>, i: int)
        requires
            self.wf(),
            0 <= i < self.brokers@.len(),
            self.brokers@[i].name@ == name,
        ensures
            self.broker_slot(name) == i,
    {
        let j = self.broker_slot(name);
        assert(0 <= j < self.brokers@.len() && self.brokers@[j].name@ == name);
        if j < i {
            assert(self.brokers@[j].name@ != self.brokers@[i].name@);
        } else if i < j {
            assert(self.brokers@[i].name@ != self.brokers@[j].name@);
        }
    }

    proof fn lemma_ids(&self, b: Seq<char>, t: Seq<char>)
        requires
            self.wf(),
        ensures
            self.broker_registered(b) ==> self.broker_row(b).id == self.broker_slot(b) + 1
                && self.broker_slot(b) < self.brokers@.len(),
            self.registered(t) ==> self.topic_row(t).id == self.slot(t) + 1 && self.slot(t)
                < self.topics@.len(),
    {
        if self.broker_registered(b) {
            assert(self.brokers@[self.broker_slot(b)].id == self.broker_slot(b) + 1);
        }
        if self.registered(t) {
            assert(self.topics@[self.slot(t)].id == self.slot(t) + 1);
        }
    }

    /// Position of the row of topic `name`, or -1 when no such row exists.
    pub closed spec fn slot(&self, name: Seq<char>) -> int {
        if exists|i: int| 0 <= i < self.topics@.len() && #[trigger] self.topics@[i].topic@ == name {
            choose|i: int| 0 <= i < self.topics@.len() && #[trigger] self.topics@[i].topic@ == name
        } else {
            -1
        }
    }

    /// Whether a topic row named `name` exists.
    pub open spec fn registered(&self, name: Seq<char>) -> bool {
        self.slot(name) >= 0
    }

    /// Positions of the rows named `name`.
    pub closed spec fn rows_named(&self, name: Seq<char>) -> Set<int> {
        Set::new(|i: int| 0 <= i < self.topics@.len() && self.topics@[i].topic@ == name)
    }

    /// Number of topic rows.
    pub closed spec fn topic_count(&self) -> nat {
        self.topics@.len()
    }

    /// The row of topic `name`; meaningful only where it is registered.
    pub closed spec fn topic_row(&self, name: Seq<char>) -> Topic {
        self.topics@[self.slot(name)]
    }

    /// Retention cap of topic `name`; meaningful only where it is registered.
    pub open spec fn max_values_of(&self, name: Seq<char>) -> nat {
        self.topic_row(name).max_values as nat
    }

    /// Retained values of topic `name`, oldest first; empty where it is not registered.
    pub closed spec fn history(&self, name: Seq<char>) -> Seq<(Seq<char>, u64)> {
        if self.slot(name) >= 0 {
            history_view(self.histories@[self.slot(name)]@)
        } else {
            Seq::empty()
        }
    }

    /// Timestamp of the newest value ever stored (0 before the first).
    pub closed spec fn clock(&self) -> u64 {
        self.clock
    }

    /// `new` is `old` after topic `name` was created or updated with these
    /// settings: one row for the name, holding the new settings, with its
    /// history cut to the new cap; every other topic untouched.
    pub open spec fn upserted(
        old: Self,
        new: Self,
        name: Seq<char>,
        parent: Option<Seq<char>>,
        max_values: nat,
        query_frequency_ms: u64,
    ) -> bool {
        &&& new.registered(name)
        &&& new.topic_row(name).topic@ == name
        &&& opt_string_view(new.topic_row(name).parent_topic) == parent
        &&& new.max_values_of(name) == max_values
        &&& new.topic_row(name).query_frequency_ms == query_frequency_ms
        &&& new.topic_count() == old.topic_count() + if old.registered(name) {
            0int
        } else {
            1int
        }
        &&& old.registered(name) ==> new.topic_row(name).id == old.topic_row(name).id
        &&& new.history(name) == retain(old.history(name), max_values)
        &&& new.clock() == old.clock()
        &&& Self::others_unchanged(old, new, name)
        &&& Self::brokers_kept(old, new)
        &&& forall|b: Seq<char>, t: Seq<char>| #[trigger] new.linked(b, t) == old.linked(b, t)
    }

    /// `new` is `old` after a value `value` arrived at `now` for the registered
    /// topic `name`: the value was appended with its ingestion stamp and the
    /// history cut back to the topic's cap; nothing else changed.
    pub open spec fn inserted(old: Self, new: Self, name: Seq<char>, value: Seq<char>, now: u64) -> bool {
        &&& new.wf()
        &&& old.registered(name)
        &&& new.topic_count() == old.topic_count()
        &&& forall|n: Seq<char>| #[trigger] new.slot(n) == old.slot(n)
        &&& forall|n: Seq<char>| #[trigger] new.topic_row(n) == old.topic_row(n)
        &&& forall|n: Seq<char>| n != name ==> #[trigger] new.history(n) == old.history(n)
        &&& new.history(name) == retain(
            old.history(name).push((value, ingestion_stamp(old.clock(), now))),
            old.max_values_of(name),
        )
        &&& new.clock() == ingestion_stamp(old.clock(), now)
        &&& Self::brokers_kept(old, new)
        &&& forall|b: Seq<char>, t: Seq<char>| #[trigger] new.linked(b, t) == old.linked(b, t)
    }

    /// Every topic but `name` has the same row and history in `new` as in `old`.
    pub open spec fn others_unchanged(old: Self, new: Self, name: Seq<char>) -> bool {
        &&& forall|n: Seq<char>| n != name ==> #[trigger] new.registered(n) == old.registered(n)
        &&& forall|n: Seq<char>|
            n != name && old.registered(n) ==> #[trigger] new.topic_row(n) == old.topic_row(n)
        &&& forall|n: Seq<char>| n != name ==> #[trigger] new.history(n) == old.history(n)
    }

    proof fn lemma_others_unchanged(old: Self, new: Self, name: Seq<char>)
        requires
            forall|n: Seq<char>|
                n != name ==> {
                    &&& #[trigger] new.registered(n) == old.registered(n)
                    &&& old.registered(n) ==> new.topic_row(n) == old.topic_row(n)
                    &&& new.history(n) == old.history(n)
                },
        ensures
            Self::others_unchanged(old, new, name),
    {
        assert forall|n: Seq<char>| n != name && old.registered(n) implies #[trigger] new.topic_row(n)
            == old.topic_row(n) by {
            assert(new.registered(n) == old.registered(n));
        }
        assert forall|n: Seq<char>| n != name implies #[trigger] new.history(n) == old.history(n) by {
            assert(new.registered(n) == old.registered(n));
        }
    }

    proof fn lemma_slot_at(&self, name: Seq<char>, i: int)
        requires
            self.wf(),
            0 <= i < self.topics@.len(),
            self.topics@[i].topic@ == name,
        ensures
            self.slot(name) == i,
    {
        let j = self.slot(name);
        assert(0 <= j < self.topics@.len() && self.topics@[j].topic@ == name);
        if j < i {
            assert(self.topics@[j].topic@ != self.topics@[i].topic@);
        } else if i < j {
            assert(self.topics@[i].topic@ != self.topics@[j].topic@);
        }
    }

    proof fn lemma_slot_none(&self, name: Seq<char>)
        requires
            forall|i: int| 0 <= i < self.topics@.len() ==> #[trigger] self.topics@[i].topic@ != name,
        ensures
            self.slot(name) == -1,
    {
    }

    /// An empty store.
    pub fn new() -> (r: Self)
        ensures
            r.wf(),
            r.topic_count() == 0,
            r.clock() == 0,
            forall|n: Seq<char>| !r.registered(n),
            forall|n: Seq<char>| #[trigger] r.history(n).len() == 0,
            r.broker_count() == 0,
            forall|b: Seq<char>| !r.broker_registered(b),
            forall|b: Seq<char>, t: Seq<char>| !r.linked(b, t),
    {
        let r = DatabaseService {
            topics: Vec::new(),
            histories: Vec::new(),
            clock: 0,
            brokers: Vec::new(),
            subscriptions: Vec::new(),
            next_subscription_id: 1,
        };
        assert forall|n: Seq<char>| !r.registered(n) by {
            r.lemma_slot_none(n);
        }
        r
    }

    fn find_topic(&self, name: &str) -> (r: Option<usize>)
        requires
            self.wf(),
        ensures
            match r {
                Some(i) => i < self.topics@.len() && self.slot(name@) == i,
                None => self.slot(name@) == -1,
            },
    {
        let key = name.to_owned();
        let mut i: usize = 0;
        while i < self.topics.len()
            invariant
                self.wf(),
                key@ == name@,
                i <= self.topics@.len(),
                forall|k: int| 0 <= k < i ==> #[trigger] self.topics@[k].topic@ != name@,
            decreases self.topics@.len() - i,
        {
            if self.topics[i].topic == key {
                proof {
                    self.lemma_slot_at(name@, i as int);
                }
                return Some(i);
            }
            i = i + 1;
        }
        proof {
            self.lemma_slot_none(name@);
        }
        None
    }

    /// Number of topic rows.
    pub fn topic_rows(&self) -> (r: usize)
        requires
            self.wf(),
        ensures
            r == self.topic_count(),
    {
        self.topics.len()
    }

    /// A copy of the row of topic `name`, or `None` where it is not registered.
    pub fn topic(&self, name: &str) -> (r: Option<Topic>)
        requires
            self.wf(),
        ensures
            r is Some <==> self.registered(name@),
            r is Some ==> r->Some_0.id == self.topic_row(name@).id
                && r->Some_0.topic@ == self.topic_row(name@).topic@
                && opt_string_view(r->Some_0.parent_topic) == opt_string_view(self.topic_row(name@).parent_topic)
                && r->Some_0.max_values == self.topic_row(name@).max_values
                && r->Some_0.query_frequency_ms == self.topic_row(name@).query_frequency_ms,
    {
        match self.find_topic(name) {
            None => None,
            Some(i) => {
                let t = &self.topics[i];
                let parent_topic = match &t.parent_topic {
                    Some(p) => Some(p.clone()),
                    None => None,
                };
                Some(
                    Topic {
                        id: t.id,
                        topic: t.topic.clone(),
                        parent_topic,
                        max_values: t.max_values,
                        query_frequency_ms: t.query_frequency_ms,
                    },
                )
            },
        }
    }

    fn find_broker(&self, name: &str) -> (r: Option<usize>)
        requires
            self.wf(),
        ensures
            match r {
                Some(i) => i < self.brokers@.len() && self.broker_slot(name@) == i,
                None => self.broker_slot(name@) == -1,
            },
    {
        let key = name.to_owned();
        let mut i: usize = 0;
        while i < self.brokers.len()
            invariant
                self.wf(),
                key@ == name@,
                i <= self.brokers@.len(),
                forall|k: int| 0 <= k < i ==> #[trigger] self.brokers@[k].name@ != name@,
            decreases self.brokers@.len() - i,
        {
            if self.brokers[i].name == key {
                proof {
                    self.lemma_broker_slot_at(name@, i as int);
                }
                return Some(i);
            }
            i = i + 1;
        }
        None
    }

    fn pair_exists(subs: &Vec<Subscription>, b: i64, t: i64) -> (r: bool)
        ensures
            r == has_pair(subs@, b, t),
    {
        let mut i: usize = 0;
        while i < subs.len()
            invariant
                i <= subs@.len(),
                forall|k: int| 0 <= k < i ==> !(#[trigger] subs@[k].broker_id == b && subs@[k].topic_id == t),
            decreases subs@.len() - i,
        {
            if subs[i].broker_id == b && subs[i].topic_id == t {
                return true;
            }
            i = i + 1;
        }
        false
    }

    /// A copy of the row of broker `name`, or `None` where it is not registered.
    pub fn broker(&self, name: &str) -> (r: Option<Broker>)
        requires
            self.wf(),
        ensures
            r is Some <==> self.broker_registered(name@),
            r is Some ==> ({
                let b = r->Some_0;
                let row = self.broker_row(name@);
                &&& b.id == row.id
                &&& b.name@ == row.name@
                &&& b.host@ == row.host@
                &&& b.port == row.port
                &&& opt_string_view(b.username) == opt_string_view(row.username)
                &&& opt_string_view(b.password) == opt_string_view(row.password)
                &&& b.tls_enabled == row.tls_enabled
            }),
    {
        match self.find_broker(name) {
            None => None,
            Some(i) => {
                let b = &self.brokers[i];
                let username = match &b.username {
                    Some(u) => Some(u.clone()),
                    None => None,
                };
                let password = match &b.password {
                    Some(p) => Some(p.clone()),
                    None => None,
                };
                Some(
                    Broker {
                        id: b.id,
                        name: b.name.clone(),
                        host: b.host.clone(),
                        port: b.port,
                        username,
                        password,
                        tls_enabled: b.tls_enabled,
                    },
                )
            },
        }
    }

    /// Registers broker `broker_name` with these settings or, where a broker
    /// of that name exists, replaces its settings (last write wins) and keeps
    /// its identifier and its topics.
    pub fn validate_or_add_broker(
        &mut self,
        broker_name: &str,
        broker_host: &str,
        broker_port: u16,
        username: Option<&str>,
        password: Option<&str>,
        tls_enabled: bool,
    ) -> (r: Result<(), StoreError>)
        requires
            old(self).wf(),
        ensures
            final(self).wf(),
            r == Err::<(), StoreError>(StoreError::CapacityExhausted) <==> (!old(
                self,
            ).broker_registered(broker_name@) && old(self).broker_count() + 1 >= i64::MAX),
            r is Err ==> r == Err::<(), StoreError>(StoreError::CapacityExhausted),
            r is Err ==> *final(self) == *old(self),
            r is Ok ==> ({
                let row = final(self).broker_row(broker_name@);
                &&& final(self).broker_registered(broker_name@)
                &&& row.name@ == broker_name@
                &&& row.host@ == broker_host@
                &&& row.port == broker_port
                &&& opt_string_view(row.username) == opt_str_view(username)
                &&& opt_string_view(row.password) == opt_str_view(password)
                &&& row.tls_enabled == tls_enabled
                &&& old(self).broker_registered(broker_name@) ==> row.id == old(self).broker_row(
                    broker_name@,
                ).id
                &&& final(self).broker_count() == old(self).broker_count() + (if old(
                    self,
                ).broker_registered(broker_name@) {
                    0int
                } else {
                    1int
                })
                &&& Self::topics_kept(*old(self), *final(self))
                &&& forall|b: Seq<char>|
                    b != broker_name@ ==> #[trigger] final(self).broker_registered(b) == old(
                        self,
                    ).broker_registered(b)
                &&& forall|b: Seq<char>|
                    b != broker_name@ && old(self).broker_registered(b)
                        ==> #[trigger] final(self).broker_row(b) == old(self).broker_row(b)
                &&& forall|b: Seq<char>, t: Seq<char>|
                    #[trigger] final(self).linked(b, t) == old(self).linked(b, t)
            }),
    {
        let username = match username {
            Some(u) => Some(u.to_owned()),
            None => None,
        };
        let password = match password {
            Some(p) => Some(p.to_owned()),
            None => None,
        };
        if let Some(i) = self.find_broker(broker_name) {
            let row = Broker {
                id: self.brokers[i].id,
                name: broker_name.to_owned(),
                host: broker_host.to_owned(),
                port: broker_port,
                username,
                password,
                tls_enabled,
            };
            self.brokers.set(i, row);
            proof {
                let name = broker_name@;
                let ii = i as int;
                assert forall|a: int, b: int|
                    0 <= a < b < self.brokers@.len() implies #[trigger] self.brokers@[a].name@
                    != #[trigger] self.brokers@[b].name@ by {
                    assert(old(self).brokers@[a].name@ != old(self).brokers@[b].name@);
                }
                assert forall|k: int| 0 <= k < self.brokers@.len() implies #[trigger] self.brokers@[k].id
                    == k + 1 by {
                    assert(old(self).brokers@[k].id == k + 1);
                }
                assert(self.brokers_ok());
                assert forall|b: Seq<char>| #[trigger] self.broker_slot(b) == old(self).broker_slot(b) by {
                    if old(self).broker_registered(b) {
                        let j = old(self).broker_slot(b);
                        assert(old(self).brokers@[j].name@ == b);
                        self.lemma_broker_slot_at(b, j);
                    } else if self.broker_registered(b) {
                        let j = self.broker_slot(b);
                        assert(self.brokers@[j].name@ == b);
                        assert(old(self).brokers@[j].name@ == b);
                    }
                }
                assert(self.broker_slot(name) == ii);
                assert forall|b: Seq<char>|
                    b != name && old(self).broker_registered(b) implies #[trigger] self.broker_row(b)
                    == old(self).broker_row(b) by {
                    assert(self.broker_slot(b) == old(self).broker_slot(b));
                    assert(old(self).brokers@[old(self).broker_slot(b)].name@ == b);
                }
                assert forall|b: Seq<char>, t: Seq<char>| #[trigger] self.linked(b, t) == old(self).linked(b, t) by {
                    assert(self.broker_slot(b) == old(self).broker_slot(b));
                }
            }
            return Ok(());
        }
        if self.brokers.len() as u64 >= (i64::MAX - 1) as u64 {
            return Err(StoreError::CapacityExhausted);
        }
        let id = (self.brokers.len() as u64 + 1) as i64;
        let row = Broker {
            id,
            name: broker_name.to_owned(),
            host: broker_host.to_owned(),
            port: broker_port,
            username,
            password,
            tls_enabled,
        };
        self.brokers.push(row);
        proof {
            let name = broker_name@;
            let last = self.brokers@.len() - 1;
            assert forall|a: int, b: int|
                0 <= a < b < self.brokers@.len() implies #[trigger] self.brokers@[a].name@
                != #[trigger] self.brokers@[b].name@ by {
                if b < last {
                    assert(old(self).brokers@[a].name@ != old(self).brokers@[b].name@);
                } else {
                    assert(old(self).brokers@[a].name@ != name);
                }
            }
            assert forall|k: int| 0 <= k < self.brokers@.len() implies #[trigger] self.brokers@[k].id
                == k + 1 by {
                if k < last {
                    assert(old(self).brokers@[k].id == k + 1);
                }
            }
            assert forall|k: int|
                0 <= k < self.subscriptions@.len() implies 1 <= #[trigger] self.subscriptions@[k].broker_id
                <= self.brokers@.len() by {
                assert(old(self).subscriptions@[k].broker_id <= old(self).brokers@.len());
            }
            assert(self.brokers_ok());
            self.lemma_broker_slot_at(name, last);
            assert forall|b: Seq<char>| b != name && #[trigger] old(self).broker_registered(b) implies self.broker_slot(b)
                == old(self).broker_slot(b) && self.broker_row(b) == old(self).broker_row(b) by {
                let j = old(self).broker_slot(b);
                assert(old(self).brokers@[j].name@ == b);
                self.lemma_broker_slot_at(b, j);
            }
            assert forall|b: Seq<char>| b != name implies #[trigger] self.broker_registered(b)
                == old(self).broker_registered(b) by {
                if self.broker_registered(b) {
                    let j = self.broker_slot(b);
                    assert(self.brokers@[j].name@ == b);
                    assert(j != last);
                    if !old(self).broker_registered(b) {
                        assert(old(self).brokers@[j].name@ == b);
                    }
                }
            }
            assert forall|b: Seq<char>, t: Seq<char>| #[trigger] self.linked(b, t) == old(self).linked(b, t) by {
                self.lemma_ids(b, t);
                old(self).lemma_ids(b, t);
                if b == name {
                    if has_pair(self.subscriptions@, self.broker_row(b).id, self.topic_row(t).id) {
                        let k = choose|k: int|
                            0 <= k < self.subscriptions@.len()
                                && #[trigger] self.subscriptions@[k].broker_id == self.broker_row(b).id
                                && self.subscriptions@[k].topic_id == self.topic_row(t).id;
                        assert(self.subscriptions@[k].broker_id <= old(self).brokers@.len());
                    }
                }
            }
        }
        Ok(())
    }

    /// Whether topic `topic` is served by broker `broker_name`.
    pub fn validate_topic(&self, topic: &str, broker_name: &str) -> (r: bool)
        requires
            self.wf(),
        ensures
            r == self.linked(broker_name@, topic@),
    {
        match (self.find_broker(broker_name), self.find_topic(topic)) {
            (Some(b), Some(t)) => Self::pair_exists(&self.subscriptions, self.brokers[b].id, self.topics[t].id),
            _ => false,
        }
    }

    /// Links broker `broker_name` to topic `topic`; nothing changes where they
    /// are linked already.
    pub fn add_subscription(&mut self, broker_name: &str, topic: &str) -> (r: Result<(), StoreError>)
        requires
            old(self).wf(),
        ensures
            final(self).wf(),
            !old(self).broker_registered(broker_name@) ==> r == Err::<(), StoreError>(
                StoreError::UnknownBroker,
            ),
            old(self).broker_registered(broker_name@) && !old(self).registered(topic@) ==> r == Err::<
                (),
                StoreError,
            >(StoreError::UnknownTopic),
            old(self).linked(broker_name@, topic@) ==> r is Ok,
            old(self).broker_registered(broker_name@) && old(self).registered(topic@) && !old(
                self,
            ).linked(broker_name@, topic@) ==> if old(self).subscription_ids_left() {
                r is Ok
            } else {
                r == Err::<(), StoreError>(StoreError::CapacityExhausted)
            },
            (r is Err || old(self).linked(broker_name@, topic@)) ==> *final(self) == *old(self),
            r is Ok ==> ({
                &&& final(self).linked(broker_name@, topic@)
                &&& Self::topics_kept(*old(self), *final(self))
                &&& Self::brokers_kept(*old(self), *final(self))
                &&& forall|b: Seq<char>, t: Seq<char>|
                    (b != broker_name@ || t != topic@) ==> #[trigger] final(self).linked(b, t) == old(
                        self,
                    ).linked(b, t)
            }),
    {
        let b = match self.find_broker(broker_name) {
            Some(b) => b,
            None => return Err(StoreError::UnknownBroker),
        };
        let t = match self.find_topic(topic) {
            Some(t) => t,
            None => return Err(StoreError::UnknownTopic),
        };
        let bid = self.brokers[b].id;
        let tid = self.topics[t].id;
        if Self::pair_exists(&self.subscriptions, bid, tid) {
            return Ok(());
        }
        if self.next_subscription_id == i64::MAX {
            return Err(StoreError::CapacityExhausted);
        }
        let id = self.next_subscription_id;
        self.subscriptions.push(Subscription { id, broker_id: bid, topic_id: tid, is_active: true });
        self.next_subscription_id = id + 1;
        proof {
            assert(self.brokers@[b as int].id == b + 1);
            assert forall|k: int|
                0 <= k < self.subscriptions@.len() implies 1 <= #[trigger] self.subscriptions@[k].broker_id
                <= self.brokers@.len() by {
                if k < old(self).subscriptions@.len() {
                    assert(old(self).subscriptions@[k] == self.subscriptions@[k]);
                }
            }
            assert forall|k: int|
                0 <= k < self.subscriptions@.len() implies #[trigger] self.subscriptions@[k].id
                < self.next_subscription_id by {
                if k < old(self).subscriptions@.len() {
                    assert(old(self).subscriptions@[k] == self.subscriptions@[k]);
                }
            }
            assert(self.brokers_ok());
            let last = self.subscriptions@.len() - 1;
            assert(self.subscriptions@[last].broker_id == bid && self.subscriptions@[last].topic_id == tid);
            assert forall|x: i64, y: i64| #[trigger] has_pair(self.subscriptions@, x, y) == (has_pair(
                old(self).subscriptions@,
                x,
                y,
            ) || (x == bid && y == tid)) by {
                if has_pair(old(self).subscriptions@, x, y) {
                    let k = choose|k: int|
                        0 <= k < old(self).subscriptions@.len()
                            && #[trigger] old(self).subscriptions@[k].broker_id == x
                            && old(self).subscriptions@[k].topic_id == y;
                    assert(self.subscriptions@[k] == old(self).subscriptions@[k]);
                }
                if has_pair(self.subscriptions@, x, y) {
                    let k = choose|k: int|
                        0 <= k < self.subscriptions@.len()
                            && #[trigger] self.subscriptions@[k].broker_id == x
                            && self.subscriptions@[k].topic_id == y;
                    if k < last {
                        assert(self.subscriptions@[k] == old(self).subscriptions@[k]);
                    }
                }
            }
            assert forall|bn: Seq<char>, tn: Seq<char>|
                (bn != broker_name@ || tn != topic@) implies #[trigger] self.linked(bn, tn) == old(
                self,
            ).linked(bn, tn) by {
                old(self).lemma_ids(bn, tn);
                old(self).lemma_ids(broker_name@, topic@);
                if old(self).broker_registered(bn) && old(self).registered(tn) {
                    if bn != broker_name@ {
                        assert(old(self).brokers@[old(self).broker_slot(bn)].name@ == bn);
                    } else {
                        assert(old(self).topics@[old(self).slot(tn)].topic@ == tn);
                    }
                }
            }
        }
        Ok(())
    }

    /// Moves every topic of broker `old_name` to broker `new_name`; a topic
    /// that both serve stays once, with `new_name`.
    pub fn update_broker_for_topics(&mut self, old_name: &str, new_name: &str) -> (r: Result<(), StoreError>)
        requires
            old(self).wf(),
        ensures
            final(self).wf(),
            r is Ok <==> old(self).broker_registered(old_name@) && old(self).broker_registered(new_name@),
            r is Err ==> r == Err::<(), StoreError>(StoreError::UnknownBroker),
            (r is Err || old_name@ == new_name@) ==> *final(self) == *old(self),
            r is Ok ==> Self::topics_kept(*old(self), *final(self)) && Self::brokers_kept(
                *old(self),
                *final(self),
            ),
            r is Ok && old_name@ != new_name@ ==> forall|b: Seq<char>, t: Seq<char>|
                #[trigger] final(self).linked(b, t) == if b == old_name@ {
                    false
                } else if b == new_name@ {
                    old(self).linked(new_name@, t) || old(self).linked(old_name@, t)
                } else {
                    old(self).linked(b, t)
                },
    {
        let ob = match self.find_broker(old_name) {
            Some(b) => b,
            None => return Err(StoreError::UnknownBroker),
        };
        let nb = match self.find_broker(new_name) {
            Some(b) => b,
            None => return Err(StoreError::UnknownBroker),
        };
        if ob == nb {
            return Ok(());
        }
        let oid = self.brokers[ob].id;
        let nid = self.brokers[nb].id;
        let ghost orig = self.subscriptions@;
        let mut out: Vec<Subscription> = Vec::new();
        let mut i: usize = 0;
        while i < self.subscriptions.len()
            invariant
                self.subscriptions@ == orig,
                i <= orig.len(),
                oid != nid,
                1 <= oid <= self.brokers@.len(),
                1 <= nid <= self.brokers@.len(),
                self.brokers_ok(),
                forall|k: int|
                    0 <= k < out@.len() ==> #[trigger] out@[k].id < self.next_subscription_id
                        && 1 <= out@[k].broker_id <= self.brokers@.len()
                        && 1 <= out@[k].topic_id <= self.topics@.len(),
                forall|x: i64, y: i64| #[trigger] has_pair(out@, x, y) == if x == oid {
                    false
                } else if x == nid {
                    has_pair(orig.subrange(0, i as int), nid, y) || (has_pair(
                        orig.subrange(0, i as int),
                        oid,
                        y,
                    ) && !has_pair(orig, nid, y))
                } else {
                    has_pair(orig.subrange(0, i as int), x, y)
                },
            decreases orig.len() - i,
        {
            let sub = self.subscriptions[i];
            let ghost pre = orig.subrange(0, i as int);
            let ghost pre1 = orig.subrange(0, i as int + 1);
            let ghost before = out@;
            proof {
                assert(pre1 == pre.push(sub));
                assert(self.subscriptions@[i as int].id < self.next_subscription_id);
                assert(1 <= self.subscriptions@[i as int].broker_id <= self.brokers@.len());
                assert(1 <= self.subscriptions@[i as int].topic_id <= self.topics@.len());
                assert forall|x: i64, y: i64| #[trigger] has_pair(pre1, x, y) == (has_pair(pre, x, y) || (
                    sub.broker_id == x && sub.topic_id == y)) by {
                    if sub.broker_id == x && sub.topic_id == y {
                        assert(pre1[pre.len() as int] == sub);
                    }
                    if has_pair(pre, x, y) {
                        let k = choose|k: int|
                            0 <= k < pre.len() && #[trigger] pre[k].broker_id == x && pre[k].topic_id == y;
                        assert(pre1[k] == pre[k]);
                    }
                    if has_pair(pre1, x, y) {
                        let k = choose|k: int|
                            0 <= k < pre1.len() && #[trigger] pre1[k].broker_id == x && pre1[k].topic_id == y;
                        if k < pre.len() {
                            assert(pre1[k] == pre[k]);
                        }
                    }
                }
            }
            let keep: Option<Subscription> = if sub.broker_id == oid {
                if Self::pair_exists(&self.subscriptions, nid, sub.topic_id) {
                    None
                } else {
                    Some(Subscription { broker_id: nid, ..sub })
                }
            } else {
                Some(sub)
            };
            if let Some(row) = keep {
                out.push(row);
                proof {
                    assert forall|x: i64, y: i64| #[trigger] has_pair(out@, x, y) == (has_pair(before, x, y)
                        || (row.broker_id == x && row.topic_id == y)) by {
                        if row.broker_id == x && row.topic_id == y {
                            assert(out@[before.len() as int] == row);
                        }
                        if has_pair(before, x, y) {
                            let k = choose|k: int|
                                0 <= k < before.len() && #[trigger] before[k].broker_id == x
                                    && before[k].topic_id == y;
                            assert(out@[k] == before[k]);
                        }
                        if has_pair(out@, x, y) {
                            let k = choose|k: int|
                                0 <= k < out@.len() && #[trigger] out@[k].broker_id == x
                                    && out@[k].topic_id == y;
                            if k < before.len() {
                                assert(out@[k] == before[k]);
                            }
                        }
                    }
                    assert forall|k: int| 0 <= k < out@.len() implies #[trigger] out@[k].id
                        < self.next_subscription_id && 1 <= out@[k].broker_id <= self.brokers@.len()
                        && 1 <= out@[k].topic_id <= self.topics@.len() by {
                        if k < before.len() {
                            assert(out@[k] == before[k]);
                        }
                    }
                }
            }
            proof {
                if sub.broker_id == nid {
                    assert(has_pair(orig, nid, sub.topic_id)) by {
                        assert(orig[i as int] == sub);
                    }
                }
            }
            i = i + 1;
        }
        proof {
            assert(orig.subrange(0, i as int) =~= orig);
        }
        self.subscriptions = out;
        proof {
            assert forall|k: int|
                0 <= k < self.subscriptions@.len() implies 1 <= #[trigger] self.subscriptions@[k].broker_id
                <= self.brokers@.len() by {
                assert(self.subscriptions@[k].id < self.next_subscription_id);
            }
            assert forall|k: int|
                0 <= k < self.subscriptions@.len() implies 1 <= #[trigger] self.subscriptions@[k].topic_id
                <= self.topics@.len() by {
                assert(self.subscriptions@[k].id < self.next_subscription_id);
            }
            assert(self.brokers_ok());
            assert(self.wf());
            assert(self.brokers@[ob as int].id == ob + 1);
            assert(self.brokers@[nb as int].id == nb + 1);
            self.lemma_broker_slot_at(old_name@, ob as int);
            self.lemma_broker_slot_at(new_name@, nb as int);
            assert forall|b: Seq<char>, t: Seq<char>| #[trigger] self.linked(b, t) == if b == old_name@ {
                false
            } else if b == new_name@ {
                old(self).linked(new_name@, t) || old(self).linked(old_name@, t)
            } else {
                old(self).linked(b, t)
            } by {
                old(self).lemma_ids(b, t);
                if old(self).broker_registered(b) && b != old_name@ && b != new_name@ {
                    assert(old(self).brokers@[old(self).broker_slot(b)].name@ == b);
                }
            }
        }
        Ok(())
    }

    /// Stores `value` for `topic`, stamped with ingestion time `now_ms` (or the
    /// newest stamp so far, if that is later), then evicts the oldest values of
    /// the topic beyond its cap. A value for an unregistered topic is dropped:
    /// the store is left as it was and `false` comes back.
    pub fn insert_value(&mut self, topic: &str, value: &str, now_ms: u64) -> (stored: bool)
        requires
            old(self).wf(),
        ensures
            final(self).wf(),
            stored == old(self).registered(topic@),
            stored ==> Self::inserted(*old(self), *final(self), topic@, value@, now_ms),
            !stored ==> *final(self) == *old(self),
    {
        match self.find_topic(topic) {
            None => false,
            Some(i) => {
                let max = self.topics[i].max_values;
                let stamp = if now_ms < self.clock {
                    self.clock
                } else {
                    now_ms
                };
                let ghost old_h = self.histories@[i as int]@;
                let entry = StoredValue { value: value.to_owned(), timestamp: stamp };
                self.histories[i].push(entry);
                let len = self.histories[i].len();
                if len > max {
                    let kept = self.histories[i].split_off(len - max);
                    self.histories[i] = kept;
                }
                self.clock = stamp;
                proof {
                    let pushed = old_h.push(entry);
                    assert(history_view(pushed) =~= history_view(old_h).push(
                        (value@, stamp),
                    ));
                    let nh = self.histories@[i as int]@;
                    if pushed.len() > max {
                        assert(nh =~= pushed.subrange(pushed.len() - max, pushed.len() as int));
                        assert(history_view(nh) =~= history_view(pushed).subrange(
                            pushed.len() - max,
                            pushed.len() as int,
                        ));
                    } else {
                        assert(nh =~= pushed);
                    }
                    assert(history_view(nh) == retain(history_view(pushed), max as nat));
                    assert forall|k: int| 0 <= k < self.topics@.len() implies history_ok(
                        self.topics@[k],
                        #[trigger] self.histories@[k]@,
                        self.clock,
                    ) by {
                        if k != i {
                            assert(self.histories@[k] == old(self).histories@[k]);
                            assert(history_ok(old(self).topics@[k], old(self).histories@[k]@, old(self).clock));
                        } else {
                            assert(history_ok(old(self).topics@[k], old(self).histories@[k]@, old(self).clock));
                            let oh = history_view(old(self).histories@[k]@);
                            assert(oh == history_view(old_h));
                            let hp = history_view(pushed);
                            assert forall|a: int, b: int| 0 <= a <= b < hp.len() implies hp[a].1
                                <= hp[b].1 by {
                                if b < hp.len() - 1 {
                                    assert(hp[a] == oh[a] && hp[b] == oh[b]);
                                } else if a < hp.len() - 1 {
                                    assert(hp[a] == oh[a]);
                                }
                            }
                            assert forall|m: int| 0 <= m < hp.len() implies hp[m].1 <= stamp by {
                                if m < hp.len() - 1 {
                                    assert(hp[m] == oh[m]);
                                }
                            }
                            let h = history_view(self.histories@[k]@);
                            assert(h == retain(hp, max as nat));
                            assert(h.len() <= max);
                            let off = hp.len() - h.len();
                            assert forall|a: int| 0 <= a < h.len() implies h[a] == hp[a + off] by {}
                            assert(stamps_sorted(h)) by {
                                assert forall|a: int, b: int| 0 <= a <= b < h.len() implies h[a].1
                                    <= h[b].1 by {
                                    assert(h[a] == hp[a + off] && h[b] == hp[b + off]);
                                }
                            }
                            assert forall|m: int| 0 <= m < h.len() implies h[m].1 <= self.clock by {
                                assert(h[m] == hp[m + off]);
                            }
                        }
                    }
                }
                true
            },
        }
    }

    /// Creates topic `topic` or, where it exists, replaces its settings (last
    /// write wins). Lowering the cap evicts the oldest values beyond it at once.
    pub fn add_or_update_topic(
        &mut self,
        topic: &str,
        parent_topic: Option<&str>,
        max_values: usize,
        query_frequency_ms: u64,
    ) -> (r: Result<(), StoreError>)
        requires
            old(self).wf(),
        ensures
            final(self).wf(),
            r is Ok <==> (max_values > 0 && (old(self).registered(topic@) || old(self).topic_count()
                + 1 < i64::MAX)),
            max_values == 0 ==> r == Err::<(), StoreError>(StoreError::InvalidMaxValues),
            r == Err::<(), StoreError>(StoreError::CapacityExhausted) <==> (max_values > 0
                && !old(self).registered(topic@) && old(self).topic_count() + 1 >= i64::MAX),
            r is Err ==> *final(self) == *old(self),
            r is Ok ==> Self::upserted(
                *old(self),
                *final(self),
                topic@,
                opt_str_view(parent_topic),
                max_values as nat,
                query_frequency_ms,
            ),
    {
        if max_values == 0 {
            return Err(StoreError::InvalidMaxValues);
        }
        let parent: Option<String> = match parent_topic {
            Some(p) => Some(p.to_owned()),
            None => None,
        };
        let ghost name = topic@;
        match self.find_topic(topic) {
            Some(i) => {
                let id = self.topics[i].id;
                let row = Topic {
                    id,
                    topic: topic.to_owned(),
                    parent_topic: parent,
                    max_values,
                    query_frequency_ms,
                };
                self.topics[i] = row;
                let ghost old_h = self.histories@[i as int]@;
                let len = self.histories[i].len();
                if len > max_values {
                    let kept = self.histories[i].split_off(len - max_values);
                    self.histories[i] = kept;
                }
                proof {
                    let nh = self.histories@[i as int]@;
                    let ov = history_view(old_h);
                    let v = history_view(nh);
                    if old_h.len() > max_values {
                        assert(nh =~= old_h.subrange(old_h.len() - max_values, old_h.len() as int));
                        assert(v =~= ov.subrange(old_h.len() - max_values, old_h.len() as int));
                    } else {
                        assert(nh =~= old_h);
                    }
                    assert(v == retain(ov, max_values as nat));
                    assert(history_ok(old(self).topics@[i as int], old_h, self.clock));
                    let off = ov.len() - v.len();
                    assert forall|a: int| 0 <= a < v.len() implies v[a] == ov[a + off] by {}
                    assert(history_ok(self.topics@[i as int], nh, self.clock)) by {
                        assert forall|a: int, b: int| 0 <= a <= b < v.len() implies v[a].1
                            <= v[b].1 by {
                            assert(v[a] == ov[a + off] && v[b] == ov[b + off]);
                        }
                        assert forall|m: int| 0 <= m < v.len() implies v[m].1 <= self.clock by {
                            assert(v[m] == ov[m + off]);
                        }
                    }
                    assert forall|a: int, b: int|
                        0 <= a < b < self.topics@.len() implies #[trigger] self.topics@[a].topic@
                        != #[trigger] self.topics@[b].topic@ by {
                        assert(old(self).topics@[a].topic@ != old(self).topics@[b].topic@);
                    }
                    assert forall|k: int| 0 <= k < self.topics@.len() implies history_ok(
                        self.topics@[k],
                        #[trigger] self.histories@[k]@,
                        self.clock,
                    ) by {
                        if k != i {
                            assert(history_ok(
                                old(self).topics@[k],
                                old(self).histories@[k]@,
                                old(self).clock,
                            ));
                        }
                    }
                    assert forall|k: int| 0 <= k < self.topics@.len() implies #[trigger] self.topics@[k].id
                        == k + 1 by {
                        assert(old(self).topics@[k].id == k + 1);
                    }
                    self.lemma_slot_at(name, i as int);
                    assert forall|n: Seq<char>| n != name implies {
                        &&& #[trigger] self.registered(n) == old(self).registered(n)
                        &&& old(self).registered(n) ==> self.topic_row(n) == old(self).topic_row(n)
                        &&& self.history(n) == old(self).history(n)
                    } by {
                        let j = old(self).slot(n);
                        if j >= 0 {
                            assert(old(self).topics@[j].topic@ == n);
                            assert(j != i);
                            self.lemma_slot_at(n, j);
                            assert(self.histories@[j] == old(self).histories@[j]);
                            assert(self.topics@[j] == old(self).topics@[j]);
                        } else {
                            assert forall|k: int| 0 <= k < self.topics@.len() implies #[trigger] self.topics@[k].topic@
                                != n by {
                                if k != i {
                                    if old(self).topics@[k].topic@ == n {
                                        old(self).lemma_slot_at(n, k);
                                    }
                                }
                            }
                            self.lemma_slot_none(n);
                        }
                    }
                    Self::lemma_others_unchanged(*old(self), *self, name);
                    assert(opt_string_view(self.topic_row(name).parent_topic) == opt_str_view(parent_topic));
                    assert(Self::upserted(
                        *old(self),
                        *self,
                        name,
                        opt_str_view(parent_topic),
                        max_values as nat,
                        query_frequency_ms,
                    ));
                }
                Ok(())
            },
            None => {
                if self.topics.len() as u64 >= (i64::MAX - 1) as u64 {
                    return Err(StoreError::CapacityExhausted);
                }
                let id = (self.topics.len() as u64 + 1) as i64;
                let row = Topic {
                    id,
                    topic: topic.to_owned(),
                    parent_topic: parent,
                    max_values,
                    query_frequency_ms,
                };
                self.topics.push(row);
                self.histories.push(Vec::new());
                proof {
                    let last = self.topics@.len() - 1;
                    assert forall|a: int, b: int|
                        0 <= a < b < self.topics@.len() implies #[trigger] self.topics@[a].topic@
                        != #[trigger] self.topics@[b].topic@ by {
                        if b < last {
                            assert(old(self).topics@[a].topic@ != old(self).topics@[b].topic@);
                        } else {
                            assert(old(self).topics@[a].topic@ != name);
                        }
                    }
                    assert forall|k: int| 0 <= k < self.topics@.len() implies history_ok(
                        self.topics@[k],
                        #[trigger] self.histories@[k]@,
                        self.clock,
                    ) by {
                        if k < last {
                            assert(history_ok(
                                old(self).topics@[k],
                                old(self).histories@[k]@,
                                old(self).clock,
                            ));
                        } else {
                            assert(history_view(self.histories@[k]@) =~= Seq::empty());
                        }
                    }
                    assert forall|k: int| 0 <= k < self.topics@.len() implies #[trigger] self.topics@[k].id
                        == k + 1 by {
                        if k < last {
                            assert(old(self).topics@[k].id == k + 1);
                        }
                    }
                    self.lemma_slot_at(name, last);
                    assert(history_view(self.histories@[last]@) =~= Seq::empty());
                    assert forall|n: Seq<char>| n != name implies {
                        &&& #[trigger] self.registered(n) == old(self).registered(n)
                        &&& old(self).registered(n) ==> self.topic_row(n) == old(self).topic_row(n)
                        &&& self.history(n) == old(self).history(n)
                    } by {
                        let j = old(self).slot(n);
                        if j >= 0 {
                            assert(old(self).topics@[j].topic@ == n);
                            self.lemma_slot_at(n, j);
                        } else {
                            assert forall|k: int| 0 <= k < self.topics@.len() implies #[trigger] self.topics@[k].topic@
                                != n by {
                                if k < last {
                                    if old(self).topics@[k].topic@ == n {
                                        old(self).lemma_slot_at(n, k);
                                    }
                                }
                            }
                            self.lemma_slot_none(n);
                        }
                    }
                    Self::lemma_others_unchanged(*old(self), *self, name);
                    assert(opt_string_view(self.topic_row(name).parent_topic) == opt_str_view(parent_topic));
                    assert(Self::upserted(
                        *old(self),
                        *self,
                        name,
                        opt_str_view(parent_topic),
                        max_values as nat,
                        query_frequency_ms,
                    ));
                }
                Ok(())
            },
        }
    }

    /// The newest `limit` values of `topic` with their timestamps, newest
    /// first, `DEFAULT_VALUES_LIMIT` of them where no limit is given; empty
    /// where the topic is unregistered or holds no value.
    pub fn get_last_values(&self, topic: &str, limit: Option<usize>) -> (r: Vec<(String, u64)>)
        requires
            self.wf(),
        ensures
            r@.map_values(|p: (String, u64)| pair_view(p)) == newest_first(
                self.history(topic@),
                match limit {
                    Some(l) => l as nat,
                    None => DEFAULT_VALUES_LIMIT as nat,
                },
            ),
    {
        let limit = match limit {
            Some(l) => l,
            None => DEFAULT_VALUES_LIMIT,
        };
        let mut out: Vec<(String, u64)> = Vec::new();
        match self.find_topic(topic) {
            None => {
                assert(out@.map_values(|p: (String, u64)| pair_view(p)) =~= newest_first(
                    self.history(topic@),
                    limit as nat,
                ));
            },
            Some(i) => {
                let h = &self.histories[i];
                let len = h.len();
                let n = if len <= limit {
                    len
                } else {
                    limit
                };
                let ghost hv = history_view(h@);
                let mut k: usize = 0;
                while k < n
                    invariant
                        n <= len,
                        len == h@.len(),
                        hv == history_view(h@),
                        k <= n,
                        out@.len() == k,
                        forall|a: int| 0 <= a < k ==> pair_view(#[trigger] out@[a]) == hv[len - 1 - a],
                    decreases n - k,
                {
                    let e = &h[len - 1 - k];
                    out.push((e.value.clone(), e.timestamp));
                    k = k + 1;
                }
                assert(out@.map_values(|p: (String, u64)| pair_view(p)) =~= newest_first(
                    self.history(topic@),
                    limit as nat,
                ));
            },
        }
        out
    }

    /// The newest value of `topic` with its timestamp; `None` where the topic
    /// is unregistered or holds no value.
    pub fn get_last_value(&self, topic: &str) -> (r: Option<(String, u64)>)
        requires
            self.wf(),
        ensures
            r is None <==> self.history(topic@).len() == 0,
            r is Some ==> pair_view(r->Some_0) == self.history(topic@).last(),
    {
        match self.find_topic(topic) {
            None => None,
            Some(i) => {
                let h = &self.histories[i];
                if h.len() == 0 {
                    None
                } else {
                    let e = &h[h.len() - 1];
                    Some((e.value.clone(), e.timestamp))
                }
            },
        }
    }
}

/// Keeping the last `n` of a history and then appending and keeping the last
/// `n` again is the same as appending to the whole history.
pub proof fn lemma_retain_push<A>(h: Seq<A>, x: A, n: nat)
    requires
        n >= 1,
    ensures
        retain(retain(h, n).push(x), n) == retain(h.push(x), n),
{
    if h.len() > n {
        assert(retain(retain(h, n).push(x), n) =~= retain(h.push(x), n));
    }
}

/// The texts of a history, without their timestamps.
pub open spec fn payloads(h: Seq<(Seq<char>, u64)>) -> Seq<Seq<char>> {
    h.map_values(|e: (Seq<char>, u64)| e.0)
}

proof fn lemma_payloads_retain(h: Seq<(Seq<char>, u64)>, n: nat)
    ensures
        payloads(retain(h, n)) == retain(payloads(h), n),
{
    assert(payloads(retain(h, n)) =~= retain(payloads(h), n));
}

impl DatabaseService {
    /// In a well-formed store every history is in timestamp order, holds no
    /// more than its topic's cap (at least 1), and is empty where the topic
    /// is not registered.
    pub proof fn lemma_history_sorted(&self, name: Seq<char>)
        requires
            self.wf(),
        ensures
            stamps_sorted(self.history(name)),
            !self.registered(name) ==> self.history(name).len() == 0,
            self.registered(name) ==> self.history(name).len() <= self.max_values_of(name),
            self.registered(name) ==> self.max_values_of(name) >= 1,
    {
        let j = self.slot(name);
        if j >= 0 {
            assert(history_ok(self.topics@[j], self.histories@[j]@, self.clock));
        }
    }

    /// Retention window: for a topic registered with cap `N` and holding no
    /// value, after any sequence of `k` inserts into it the topic holds
    /// `min(N, k)` values, which are the last ones inserted, oldest first,
    /// with timestamps that never decrease, so they are the most recent ones.
    pub proof fn lemma_retention_window(
        states: Seq<DatabaseService>,
        name: Seq<char>,
        values: Seq<Seq<char>>,
        nows: Seq<u64>,
    )
        requires
            states.len() == values.len() + 1,
            nows.len() == values.len(),
            states[0].wf(),
            states[0].registered(name),
            states[0].history(name).len() == 0,
            forall|j: int|
                0 <= j < values.len() ==> #[trigger] Self::inserted(
                    states[j],
                    states[j + 1],
                    name,
                    values[j],
                    nows[j],
                ),
        ensures
            states.last().registered(name),
            states.last().max_values_of(name) == states[0].max_values_of(name),
            states.last().history(name).len() == if values.len() <= states[0].max_values_of(name) {
                values.len()
            } else {
                states[0].max_values_of(name)
            },
            payloads(states.last().history(name)) == retain(values, states[0].max_values_of(name)),
            stamps_sorted(states.last().history(name)),
        decreases values.len(),
    {
        let n = states[0].max_values_of(name);
        states[0].lemma_history_sorted(name);
        if values.len() == 0 {
            assert(payloads(states[0].history(name)) =~= retain(values, n));
        } else {
            let k = values.len() - 1;
            let ps = states.drop_last();
            let vs = values.drop_last();
            let ns = nows.drop_last();
            assert forall|j: int| 0 <= j < vs.len() implies #[trigger] Self::inserted(
                ps[j],
                ps[j + 1],
                name,
                vs[j],
                ns[j],
            ) by {
                assert(Self::inserted(states[j], states[j + 1], name, values[j], nows[j]));
            }
            Self::lemma_retention_window(ps, name, vs, ns);
            assert(Self::inserted(states[k], states[k + 1], name, values[k], nows[k]));
            let prev = states[k].history(name);
            let e = (values[k], ingestion_stamp(states[k].clock(), nows[k]));
            let cur = states[k + 1].history(name);
            assert(cur == retain(prev.push(e), n));
            states[k + 1].lemma_history_sorted(name);
            lemma_payloads_retain(prev.push(e), n);
            assert(payloads(prev.push(e)) =~= payloads(prev).push(values[k]));
            lemma_retain_push(vs, values[k], n);
            assert(vs.push(values[k]) =~= values);
        }
    }

    /// Upserting one topic name twice leaves exactly one row for it, and that
    /// row holds the settings of the second call. After the first upsert the
    /// name is registered, so by the contract of `add_or_update_topic` a
    /// second call with any cap of at least 1 succeeds.
    pub proof fn lemma_upsert_twice(
        s0: DatabaseService,
        s1: DatabaseService,
        s2: DatabaseService,
        name: Seq<char>,
        parent1: Option<Seq<char>>,
        max1: nat,
        freq1: u64,
        parent2: Option<Seq<char>>,
        max2: nat,
        freq2: u64,
    )
        requires
            s2.wf(),
            Self::upserted(s0, s1, name, parent1, max1, freq1),
            Self::upserted(s1, s2, name, parent2, max2, freq2),
        ensures
            s1.registered(name),
            s2.rows_named(name) == set![s2.slot(name)],
            s2.topic_count() == s0.topic_count() + if s0.registered(name) {
                0int
            } else {
                1int
            },
            opt_string_view(s2.topic_row(name).parent_topic) == parent2,
            s2.max_values_of(name) == max2,
            s2.topic_row(name).query_frequency_ms == freq2,
    {
        let j = s2.slot(name);
        assert(s2.rows_named(name) =~= set![j]) by {
            assert forall|i: int| s2.rows_named(name).contains(i) implies i == j by {
                s2.lemma_slot_at(name, i);
            }
        }
    }
}

} // verus!
