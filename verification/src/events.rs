//! The event registry: one subscription per event name, scope-based filtering
//! of the source string on every inbound delivery, and queues that consumers
//! drain. Decoding failures drop the event silently: events are
//! fire-and-forget.
use vstd::prelude::*;

use crate::wire;

verus! {

/// Scope of a subscription. Local events cannot be triggered from the
/// network.
#[derive(Debug, Clone, Copy, PartialEq, Eq, Structural)]
pub enum EventScope {
    Local,
    Network,
}

/// A raw event as handed over by the host: source and payload bytes.
#[derive(Debug)]
pub struct RawEvent {
    /// Logical sender, already stripped of any scope marker.
    pub source: Vec<u8>,
    /// Payload bytes in the wire format.
    pub payload: Vec<u8>,
}

impl View for RawEvent {
    type V = (Seq<u8>, Seq<u8>);

    open spec fn view(&self) -> (Seq<u8>, Seq<u8>) {
        (self.source@, self.payload@)
    }
}

/// A borrowed raw event.
pub struct RawEventRef<'a> {
    pub source: &'a Vec<u8>,
    pub payload: &'a Vec<u8>,
}

impl<'a> RawEventRef<'a> {
    /// An owning copy of this event.
    pub fn to_raw_event(&self) -> (r: RawEvent)
        ensures
            r.source@ == self.source@,
            r.payload@ == self.payload@,
    {
        RawEvent {
            source: wire::copy_range(self.source, 0, self.source.len()),
            payload: wire::copy_range(self.payload, 0, self.payload.len()),
        }
    }
}

/// A decoded inbound event.
pub struct Event<T> {
    source: Vec<u8>,
    payload: T,
}

impl<T> Event<T> {
    /// The sender, in the model.
    pub closed spec fn spec_source(&self) -> Seq<u8> {
        self.source@
    }

    /// The payload, in the model.
    pub closed spec fn spec_payload(&self) -> T {
        self.payload
    }

    /// An event from `source` carrying `payload`.
    pub fn new(source: Vec<u8>, payload: T) -> (r: Event<T>)
        ensures
            r.spec_source() == source@,
            r.spec_payload() == payload,
    {
        Event { source, payload }
    }

    /// The sender that triggered this event.
    pub fn source(&self) -> (r: &Vec<u8>)
        ensures
            r@ == self.spec_source(),
    {
        &self.source
    }

    /// The decoded payload.
    pub fn payload(&self) -> (r: &T)
        ensures
            r == self.spec_payload(),
    {
        &self.payload
    }

    /// Consumes the event and yields the payload.
    pub fn into_inner(self) -> (r: T)
        ensures
            r == self.spec_payload(),
    {
        self.payload
    }
}

/// The marker prefix of an event that originated over the network: `net:`.
pub open spec fn net_marker() -> Seq<u8> {
    seq![110u8, 101u8, 116u8, 58u8]
}

/// The marker prefix of an internally relayed network event:
/// `internal-net:`.
pub open spec fn internal_net_marker() -> Seq<u8> {
    seq![105u8, 110u8, 116u8, 101u8, 114u8, 110u8, 97u8, 108u8, 45u8, 110u8, 101u8, 116u8, 58u8]
}

/// Whether `p` is a prefix of `s`.
pub open spec fn has_prefix(s: Seq<u8>, p: Seq<u8>) -> bool {
    p.len() <= s.len() && s.subrange(0, p.len() as int) == p
}

/// How an inbound source string classifies, and the logical sender after
/// stripping the marker.
pub enum SourceClass {
    /// Carried the network marker.
    Network(Vec<u8>),
    /// Carried the internal-relay marker: accepted regardless of scope.
    Relayed(Vec<u8>),
    /// No recognizable marker: a purely local event; the sender string is
    /// discarded and the logical source is empty.
    Local,
}

/// The classification of a source string, in the model.
pub open spec fn classify(s: Seq<u8>) -> SourceClassView {
    if has_prefix(s, net_marker()) {
        SourceClassView::Network(s.skip(net_marker().len() as int))
    } else if has_prefix(s, internal_net_marker()) {
        SourceClassView::Relayed(s.skip(internal_net_marker().len() as int))
    } else {
        SourceClassView::Local
    }
}

/// Model-level counterpart of [`SourceClass`].
pub enum SourceClassView {
    Network(Seq<u8>),
    Relayed(Seq<u8>),
    Local,
}

impl View for SourceClass {
    type V = SourceClassView;

    open spec fn view(&self) -> SourceClassView {
        match self {
            SourceClass::Network(s) => SourceClassView::Network(s@),
            SourceClass::Relayed(s) => SourceClassView::Relayed(s@),
            SourceClass::Local => SourceClassView::Local,
        }
    }
}

/// Whether `s` starts with the byte `p`.
fn starts_with(s: &Vec<u8>, p: &Vec<u8>) -> (r: bool)
    ensures
        r == has_prefix(s@, p@),
{
    if p.len() > s.len() {
        assert(!has_prefix(s@, p@));
        return false;
    }
    let n = p.len();
    let mut i: usize = 0;
    while i < n
        invariant
            i <= n,
            n == p@.len(),
            n <= s@.len(),
            forall|j: int| 0 <= j < i ==> s@[j] == p@[j],
        decreases n - i,
    {
        if s[i] != p[i] {
            assert(s@.subrange(0, p@.len() as int)[i as int] == s@[i as int]);
            return false;
        }
        i = i + 1;
    }
    proof {
        assert(s@.subrange(0, p@.len() as int) =~= p@);
    }
    true
}

/// The `net:` marker as bytes.
fn net_marker_bytes() -> (r: Vec<u8>)
    ensures
        r@ == net_marker(),
{
    let mut v: Vec<u8> = Vec::new();
    v.push(110);
    v.push(101);
    v.push(116);
    v.push(58);
    assert(v@ =~= net_marker());
    v
}

/// The `internal-net:` marker as bytes.
fn internal_net_marker_bytes() -> (r: Vec<u8>)
    ensures
        r@ == internal_net_marker(),
{
    let mut v: Vec<u8> = Vec::new();
    v.push(105);
    v.push(110);
    v.push(116);
    v.push(101);
    v.push(114);
    v.push(110);
    v.push(97);
    v.push(108);
    v.push(45);
    v.push(110);
    v.push(101);
    v.push(116);
    v.push(58);
    assert(v@ =~= internal_net_marker());
    v
}

/// Classifies an inbound source string and strips its marker.
pub fn classify_source(source: &Vec<u8>) -> (r: SourceClass)
    ensures
        r@ == classify(source@),
{
    let net = net_marker_bytes();
    if starts_with(source, &net) {
        let rest = wire::copy_range(source, net.len(), source.len() - net.len());
        assert(rest@ =~= source@.skip(net_marker().len() as int));
        return SourceClass::Network(rest);
    }
    let relay = internal_net_marker_bytes();
    if starts_with(source, &relay) {
        let rest = wire::copy_range(source, relay.len(), source.len() - relay.len());
        assert(rest@ =~= source@.skip(internal_net_marker().len() as int));
        return SourceClass::Relayed(rest);
    }
    SourceClass::Local
}

/// One registered subscription: its scope and the queue of accepted events
/// not yet consumed.
pub struct EventSub {
    pub scope: EventScope,
    pub queue: Vec<RawEvent>,
}

/// The subscription registered under `name`, if any: the first entry whose
/// key matches.
pub open spec fn lookup(subs: Seq<(Vec<u8>, EventSub)>, name: Seq<u8>) -> Option<EventSub>
    decreases subs.len(),
{
    if subs.len() == 0 {
        None
    } else if subs[0].0@ == name {
        Some(subs[0].1)
    } else {
        lookup(subs.drop_first(), name)
    }
}

/// The registry of event subscriptions, keyed by event name. One slot per
/// name: a later subscription under the same name replaces the earlier one.
pub struct EventRegistry {
    subs: Vec<(Vec<u8>, EventSub)>,
}

impl EventRegistry {
    /// Keys are unique, so the first match is the only match.
    pub closed spec fn wf(&self) -> bool {
        forall|i: int, j: int|
            0 <= i < j < self.subs@.len() ==> self.subs@[i].0@ != self.subs@[j].0@
    }

    /// The subscription registered under `name`, if any.
    pub closed spec fn sub_of(&self, name: Seq<u8>) -> Option<EventSub> {
        lookup(self.subs@, name)
    }

    /// An empty registry.
    pub fn new() -> (r: EventRegistry)
        ensures
            r.wf(),
            forall|n: Seq<u8>| r.sub_of(n) is None,
    {
        EventRegistry { subs: Vec::new() }
    }
}

proof fn lemma_lookup_found(subs: Seq<(Vec<u8>, EventSub)>, name: Seq<u8>, i: int)
    requires
        0 <= i < subs.len(),
        subs[i].0@ == name,
        forall|k: int| 0 <= k < i ==> subs[k].0@ != name,
    ensures
        lookup(subs, name) == Some(subs[i].1),
    decreases i,
{
    if i > 0 {
        assert(subs.drop_first()[i - 1] == subs[i]);
        assert forall|k: int| 0 <= k < i - 1 implies subs.drop_first()[k].0@ != name by {
            assert(subs.drop_first()[k] == subs[k + 1]);
        }
        lemma_lookup_found(subs.drop_first(), name, i - 1);
    }
}

proof fn lemma_lookup_absent(subs: Seq<(Vec<u8>, EventSub)>, name: Seq<u8>)
    requires
        forall|k: int| 0 <= k < subs.len() ==> subs[k].0@ != name,
    ensures
        lookup(subs, name) is None,
    decreases subs.len(),
{
    if subs.len() > 0 {
        assert forall|k: int| 0 <= k < subs.len() - 1 implies subs.drop_first()[k].0@ != name by {
            assert(subs.drop_first()[k] == subs[k + 1]);
        }
        lemma_lookup_absent(subs.drop_first(), name);
    }
}

} // verus!

verus! {

proof fn lemma_lookup_update_same_key(
    subs: Seq<(Vec<u8>, EventSub)>,
    i: int,
    entry: (Vec<u8>, EventSub),
    n: Seq<u8>,
)
    requires
        0 <= i < subs.len(),
        subs[i].0@ == entry.0@,
        n != entry.0@,
    ensures
        lookup(subs.update(i, entry), n) == lookup(subs, n),
    decreases subs.len(),
{
    let upd = subs.update(i, entry);
    if subs.len() > 0 {
        if i == 0 {
            assert(upd[0] == entry);
            assert(upd.drop_first() =~= subs.drop_first());
        } else {
            assert(upd[0] == subs[0]);
            assert(upd.drop_first() =~= subs.drop_first().update(i - 1, entry));
            assert(subs.drop_first()[i - 1] == subs[i]);
            lemma_lookup_update_same_key(subs.drop_first(), i - 1, entry, n);
        }
    }
}

proof fn lemma_lookup_push(subs: Seq<(Vec<u8>, EventSub)>, entry: (Vec<u8>, EventSub), n: Seq<u8>)
    ensures
        lookup(subs.push(entry), n) == if lookup(subs, n) is Some {
            lookup(subs, n)
        } else if n == entry.0@ {
            Some(entry.1)
        } else {
            None
        },
    decreases subs.len(),
{
    let p = subs.push(entry);
    if subs.len() == 0 {
        assert(p[0] == entry);
        assert(p.drop_first() =~= Seq::<(Vec<u8>, EventSub)>::empty());
    } else {
        assert(p[0] == subs[0]);
        assert(p.drop_first() =~= subs.drop_first().push(entry));
        lemma_lookup_push(subs.drop_first(), entry, n);
    }
}

/// Whether a subscription of scope `scope` accepts an event whose raw source
/// string is `src`: a network-marked event only under `Network` scope, a
/// relayed event under any scope, an unmarked event only under `Local` scope.
pub open spec fn accepts(scope: EventScope, src: Seq<u8>) -> bool {
    match classify(src) {
        SourceClassView::Network(_) => scope == EventScope::Network,
        SourceClassView::Relayed(_) => true,
        SourceClassView::Local => scope == EventScope::Local,
    }
}

/// The logical sender of an event whose raw source string is `src`: the
/// string behind the marker, or empty for an unmarked (local) event.
pub open spec fn logical_source(src: Seq<u8>) -> Seq<u8> {
    match classify(src) {
        SourceClassView::Network(s) => s,
        SourceClassView::Relayed(s) => s,
        SourceClassView::Local => Seq::empty(),
    }
}

impl EventRegistry {
    /// Index of the subscription under `name`, if any.
    fn find_index(&self, name: &Vec<u8>) -> (r: Option<usize>)
        ensures
            match r {
                Some(i) => i < self.subs@.len() && self.subs@[i as int].0@ == name@ && self.sub_of(
                    name@,
                ) == Some(self.subs@[i as int].1) && forall|k: int|
                    0 <= k < i ==> self.subs@[k].0@ != name@,
                None => self.sub_of(name@) is None && forall|k: int|
                    0 <= k < self.subs@.len() ==> self.subs@[k].0@ != name@,
            },
    {
        let n = self.subs.len();
        let mut i: usize = 0;
        while i < n
            invariant
                i <= n,
                n == self.subs@.len(),
                forall|k: int| 0 <= k < i ==> self.subs@[k].0@ != name@,
            decreases n - i,
        {
            if wire::bytes_eq(&self.subs[i].0, name) {
                proof {
                    lemma_lookup_found(self.subs@, name@, i as int);
                }
                return Some(i);
            }
            i = i + 1;
        }
        proof {
            lemma_lookup_absent(self.subs@, name@);
        }
        None
    }

    /// Registers (or replaces) the subscription under `name`. The registry
    /// holds one slot per name: subscribing again under the same name makes
    /// the new subscription the only active one, with a fresh, empty queue.
    pub fn subscribe(&mut self, name: &Vec<u8>, scope: EventScope)
        requires
            old(self).wf(),
        ensures
            final(self).wf(),
            final(self).sub_of(name@) matches Some(s) && s.scope == scope && s.queue@.len() == 0,
            forall|n: Seq<u8>| n != name@ ==> final(self).sub_of(n) == old(self).sub_of(n),
    {
        let key = wire::copy_range(name, 0, name.len());
        proof {
            assert(key@ =~= name@);
        }
        let sub = EventSub { scope, queue: Vec::new() };
        match self.find_index(name) {
            Some(i) => {
                let ghost oldsubs = self.subs@;
                let prev = self.subs.remove(i);
                self.subs.insert(i, (key, sub));
                proof {
                    assert(self.subs@ =~= oldsubs.update(i as int, self.subs@[i as int]));
                    lemma_lookup_found(self.subs@, name@, i as int);
                    assert forall|n: Seq<u8>| n != name@ implies lookup(self.subs@, n) == lookup(
                        oldsubs,
                        n,
                    ) by {
                        lemma_lookup_update_same_key(
                            oldsubs,
                            i as int,
                            self.subs@[i as int],
                            n,
                        );
                    }
                }
            },
            None => {
                let ghost oldsubs = self.subs@;
                self.subs.push((key, sub));
                proof {
                    assert(self.subs@ =~= oldsubs.push(self.subs@[oldsubs.len() as int]));
                    lemma_lookup_found(self.subs@, name@, oldsubs.len() as int);
                    assert forall|n: Seq<u8>| n != name@ implies lookup(self.subs@, n) == lookup(
                        oldsubs,
                        n,
                    ) by {
                        lemma_lookup_push(oldsubs, self.subs@[oldsubs.len() as int], n);
                    }
                }
            },
        }
    }

    /// Delivers an inbound raw event: looks the name up, filters by scope
    /// against the source marker, and appends the accepted event (with its
    /// logical source) to the subscription's queue. An event for an unknown
    /// name, or one whose scope does not fit, is dropped silently.
    pub fn on_event(&mut self, name: &Vec<u8>, payload: &Vec<u8>, source: &Vec<u8>) -> (delivered:
        bool)
        requires
            old(self).wf(),
        ensures
            final(self).wf(),
            delivered == (old(self).sub_of(name@) matches Some(s) && accepts(s.scope, source@)),
            forall|n: Seq<u8>| n != name@ ==> final(self).sub_of(n) == old(self).sub_of(n),
            !delivered ==> final(self).sub_of(name@) == old(self).sub_of(name@),
            delivered ==> (old(self).sub_of(name@) matches Some(s1) && final(self).sub_of(name@)
                matches Some(s2) && s2.scope == s1.scope && s2.queue@.len() == s1.queue@.len() + 1
                && s2.queue@.take(s1.queue@.len() as int) == s1.queue@ && s2.queue@.last()@ == (
            logical_source(source@),
            payload@,
            )),
    {
        let i = match self.find_index(name) {
            Some(i) => i,
            None => {
                return false;
            },
        };
        let logical: Vec<u8> = match classify_source(source) {
            SourceClass::Network(s) => {
                if self.subs[i].1.scope != EventScope::Network {
                    return false;
                }
                s
            },
            SourceClass::Relayed(s) => s,
            SourceClass::Local => {
                if self.subs[i].1.scope != EventScope::Local {
                    return false;
                }
                Vec::new()
            },
        };
        let ghost oldsubs = self.subs@;
        let (key, mut sub) = self.subs.remove(i);
        let ghost oldqueue = sub.queue@;
        sub.queue.push(
            RawEvent { source: logical, payload: wire::copy_range(payload, 0, payload.len()) },
        );
        self.subs.insert(i, (key, sub));
        proof {
            assert(self.subs@ =~= oldsubs.update(i as int, self.subs@[i as int]));
            assert(self.subs@[i as int].1.queue@.take(oldqueue.len() as int) =~= oldqueue);
            lemma_lookup_found(self.subs@, name@, i as int);
            assert forall|n: Seq<u8>| n != name@ implies lookup(self.subs@, n) == lookup(
                oldsubs,
                n,
            ) by {
                lemma_lookup_update_same_key(oldsubs, i as int, self.subs@[i as int], n);
            }
        }
        true
    }

    /// Removes and returns every queued event under `name`, oldest first.
    pub fn drain(&mut self, name: &Vec<u8>) -> (r: Vec<RawEvent>)
        requires
            old(self).wf(),
        ensures
            final(self).wf(),
            forall|n: Seq<u8>| n != name@ ==> final(self).sub_of(n) == old(self).sub_of(n),
            match old(self).sub_of(name@) {
                Some(s1) => r@ == s1.queue@ && (final(self).sub_of(name@) matches Some(s2)
                    && s2.scope == s1.scope && s2.queue@.len() == 0),
                None => r@.len() == 0 && final(self).sub_of(name@) is None,
            },
    {
        let i = match self.find_index(name) {
            Some(i) => i,
            None => {
                return Vec::new();
            },
        };
        let ghost oldsubs = self.subs@;
        let (key, sub) = self.subs.remove(i);
        let EventSub { scope, queue } = sub;
        self.subs.insert(i, (key, EventSub { scope, queue: Vec::new() }));
        proof {
            assert(self.subs@ =~= oldsubs.update(i as int, self.subs@[i as int]));
            lemma_lookup_found(self.subs@, name@, i as int);
            assert forall|n: Seq<u8>| n != name@ implies lookup(self.subs@, n) == lookup(
                oldsubs,
                n,
            ) by {
                lemma_lookup_update_same_key(oldsubs, i as int, self.subs@[i as int], n);
            }
        }
        queue
    }
}

/// Decodes one queued raw event's payload. A payload that is not exactly one
/// well-formed wire value yields `None`: such an event is dropped silently.
pub fn decode_event(ev: &RawEvent) -> (r: Option<Event<crate::wire::MpValue>>)
    ensures
        match r {
            Some(e) => crate::wire::dec_val(ev.payload@, 0, ev.payload@.len()) == Some(
                (e.spec_payload()@, ev.payload@.len() as int),
            ) && e.spec_source() == ev.source@,
            None => !(crate::wire::dec_val(ev.payload@, 0, ev.payload@.len()) matches Some((_, p))
                && p == ev.payload@.len()),
        },
{
    match crate::wire::decode(&ev.payload) {
        Some(v) => Some(
            Event::new(wire::copy_range(&ev.source, 0, ev.source.len()), v),
        ),
        None => None,
    }
}

/// Wrapper that adapts a plain function into an event handler object.
pub struct HandlerFn<T> {
    func: T,
}

impl<T> HandlerFn<T> {
    /// The wrapped function, in the model.
    pub closed spec fn spec_func(&self) -> T {
        self.func
    }

    /// A reference to the wrapped function.
    pub fn get(&self) -> (r: &T)
        ensures
            r == self.spec_func(),
    {
        &self.func
    }

    /// Consumes the wrapper and yields the function.
    pub fn into_inner(self) -> (r: T)
        ensures
            r == self.spec_func(),
    {
        self.func
    }
}

/// Wraps a function into a [`HandlerFn`] handler object.
pub fn handler_fn<T>(func: T) -> (r: HandlerFn<T>)
    ensures
        r.spec_func() == func,
{
    HandlerFn { func }
}

} // verus!
