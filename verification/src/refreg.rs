//! The callback-handle ("ref function") registry: guest closures exposed to
//! the host by a monotonically assigned index plus a canonical name, and kept
//! alive by an explicit reference count. Creation leaves the count at zero;
//! the count saturates at the machine limit; removing a reference erases the
//! entry once the count would reach zero or below, and indices are never
//! reassigned.
use vstd::prelude::*;

use crate::wire;
use crate::wire::MpValue;

verus! {

/// One registered callback: its index, the handler, and the live-reference
/// count the host maintains through duplicate/remove signals.
pub struct InnerRefFunction<F> {
    pub idx: u32,
    pub func: F,
    pub refs: i64,
}

impl<F> InnerRefFunction<F> {
    /// The stored handler, to be invoked on the raw argument bytes.
    pub fn handle(&self) -> (r: &F)
        ensures
            r == self.func,
    {
        &self.func
    }
}

/// The entry registered under `idx`, if any: the first entry whose index
/// matches.
pub open spec fn entry_lookup<F>(entries: Seq<InnerRefFunction<F>>, idx: u32) -> Option<
    InnerRefFunction<F>,
>
    decreases entries.len(),
{
    if entries.len() == 0 {
        None
    } else if entries[0].idx == idx {
        Some(entries[0])
    } else {
        entry_lookup(entries.drop_first(), idx)
    }
}

proof fn lemma_entry_found<F>(entries: Seq<InnerRefFunction<F>>, idx: u32, i: int)
    requires
        0 <= i < entries.len(),
        entries[i].idx == idx,
        forall|k: int| 0 <= k < i ==> entries[k].idx != idx,
    ensures
        entry_lookup(entries, idx) == Some(entries[i]),
    decreases i,
{
    if i > 0 {
        assert(entries.drop_first()[i - 1] == entries[i]);
        assert forall|k: int| 0 <= k < i - 1 implies entries.drop_first()[k].idx != idx by {
            assert(entries.drop_first()[k] == entries[k + 1]);
        }
        lemma_entry_found(entries.drop_first(), idx, i - 1);
    }
}

proof fn lemma_entry_absent<F>(entries: Seq<InnerRefFunction<F>>, idx: u32)
    requires
        forall|k: int| 0 <= k < entries.len() ==> entries[k].idx != idx,
    ensures
        entry_lookup(entries, idx) is None,
    decreases entries.len(),
{
    if entries.len() > 0 {
        assert forall|k: int| 0 <= k < entries.len() - 1 implies entries.drop_first()[k].idx
            != idx by {
            assert(entries.drop_first()[k] == entries[k + 1]);
        }
        lemma_entry_absent(entries.drop_first(), idx);
    }
}

proof fn lemma_entry_update_same_idx<F>(
    entries: Seq<InnerRefFunction<F>>,
    i: int,
    entry: InnerRefFunction<F>,
    n: u32,
)
    requires
        0 <= i < entries.len(),
        entries[i].idx == entry.idx,
        n != entry.idx,
    ensures
        entry_lookup(entries.update(i, entry), n) == entry_lookup(entries, n),
    decreases entries.len(),
{
    let upd = entries.update(i, entry);
    if entries.len() > 0 {
        if i == 0 {
            assert(upd[0] == entry);
            assert(upd.drop_first() =~= entries.drop_first());
        } else {
            assert(upd[0] == entries[0]);
            assert(upd.drop_first() =~= entries.drop_first().update(i - 1, entry));
            assert(entries.drop_first()[i - 1] == entries[i]);
            lemma_entry_update_same_idx(entries.drop_first(), i - 1, entry, n);
        }
    }
}

proof fn lemma_entry_push<F>(entries: Seq<InnerRefFunction<F>>, entry: InnerRefFunction<F>, n: u32)
    ensures
        entry_lookup(entries.push(entry), n) == if entry_lookup(entries, n) is Some {
            entry_lookup(entries, n)
        } else if n == entry.idx {
            Some(entry)
        } else {
            None
        },
    decreases entries.len(),
{
    let p = entries.push(entry);
    if entries.len() == 0 {
        assert(p[0] == entry);
        assert(p.drop_first() =~= Seq::<InnerRefFunction<F>>::empty());
    } else {
        assert(p[0] == entries[0]);
        assert(p.drop_first() =~= entries.drop_first().push(entry));
        lemma_entry_push(entries.drop_first(), entry, n);
    }
}

proof fn lemma_entry_remove<F>(entries: Seq<InnerRefFunction<F>>, i: int, n: u32)
    requires
        0 <= i < entries.len(),
        forall|k: int| 0 <= k < entries.len() ==> k != i ==> entries[k].idx != entries[i].idx,
    ensures
        entry_lookup(entries.remove(i), entries[i].idx) is None,
        n != entries[i].idx ==> entry_lookup(entries.remove(i), n) == entry_lookup(entries, n),
    decreases entries.len(),
{
    let rem = entries.remove(i);
    assert forall|k: int| 0 <= k < rem.len() implies rem[k].idx != entries[i].idx by {
        if k < i {
            assert(rem[k] == entries[k]);
        } else {
            assert(rem[k] == entries[k + 1]);
        }
    }
    lemma_entry_absent(rem, entries[i].idx);
    if n != entries[i].idx {
        if i == 0 {
            assert(rem =~= entries.drop_first());
        } else {
            assert(rem[0] == entries[0]);
            assert(rem.drop_first() =~= entries.drop_first().remove(i - 1));
            assert(entries.drop_first()[i - 1] == entries[i]);
            assert forall|k: int|
                0 <= k < entries.drop_first().len() && k != i - 1 implies (
                #[trigger] entries.drop_first()[k]).idx != entries.drop_first()[i - 1].idx by {
                assert(entries.drop_first()[k] == entries[k + 1]);
            }
            lemma_entry_remove(entries.drop_first(), i - 1, n);
        }
    }
}

/// The table of live callback handles, keyed by index. Indices grow
/// monotonically and are never reassigned.
pub struct RefRegistry<F> {
    entries: Vec<InnerRefFunction<F>>,
    next_idx: u32,
}

impl<F> RefRegistry<F> {
    /// Indices are unique, at most `next_idx`, and counts are non-negative.
    pub closed spec fn wf(&self) -> bool {
        &&& forall|i: int, j: int|
            0 <= i < j < self.entries@.len() ==> self.entries@[i].idx != self.entries@[j].idx
        &&& forall|i: int|
            0 <= i < self.entries@.len() ==> 1 <= #[trigger] self.entries@[i].idx
                <= self.next_idx
        &&& forall|i: int| 0 <= i < self.entries@.len() ==> #[trigger] self.entries@[i].refs >= 0
    }

    /// The entry registered under `idx`, if any.
    pub closed spec fn entry_of(&self, idx: u32) -> Option<InnerRefFunction<F>> {
        entry_lookup(self.entries@, idx)
    }

    /// The index the next registration will receive, plus one.
    pub closed spec fn spec_next_idx(&self) -> u32 {
        self.next_idx
    }

    /// An empty registry: no handle lives, and indices start above zero.
    pub fn new() -> (r: RefRegistry<F>)
        ensures
            r.wf(),
            r.spec_next_idx() == 0,
            forall|idx: u32| r.entry_of(idx) is None,
    {
        let r = RefRegistry { entries: Vec::new(), next_idx: 0 };
        proof {
            assert forall|idx: u32| r.entry_of(idx) is None by {
                lemma_entry_absent(r.entries@, idx);
            }
        }
        r
    }

    /// Index of the entry under `idx`, if any.
    fn find_index(&self, idx: u32) -> (r: Option<usize>)
        requires
            self.wf(),
        ensures
            match r {
                Some(i) => i < self.entries@.len() && self.entries@[i as int].idx == idx
                    && self.entry_of(idx) == Some(self.entries@[i as int]) && forall|k: int|
                    0 <= k < self.entries@.len() && k != i ==> self.entries@[k].idx != idx,
                None => self.entry_of(idx) is None && forall|k: int|
                    0 <= k < self.entries@.len() ==> self.entries@[k].idx != idx,
            },
    {
        let n = self.entries.len();
        let mut i: usize = 0;
        while i < n
            invariant
                i <= n,
                n == self.entries@.len(),
                self.wf(),
                forall|k: int| 0 <= k < i ==> self.entries@[k].idx != idx,
            decreases n - i,
        {
            if self.entries[i].idx == idx {
                proof {
                    lemma_entry_found(self.entries@, idx, i as int);
                }
                return Some(i);
            }
            i = i + 1;
        }
        proof {
            lemma_entry_absent(self.entries@, idx);
        }
        None
    }

    /// Registers a new callback handler. The handle receives the next
    /// monotonic index and starts with a reference count of zero: creation
    /// itself does not count as a reference.
    pub fn register(&mut self, func: F) -> (idx: u32)
        requires
            old(self).wf(),
            old(self).spec_next_idx() < u32::MAX,
        ensures
            final(self).wf(),
            idx == old(self).spec_next_idx() + 1,
            final(self).spec_next_idx() == idx,
            final(self).entry_of(idx) matches Some(e) && e.refs == 0 && e.func == func && e.idx
                == idx,
            forall|n: u32| n != idx ==> final(self).entry_of(n) == old(self).entry_of(n),
            old(self).entry_of(idx) is None,
    {
        let idx = self.next_idx + 1;
        self.next_idx = idx;
        proof {
            assert forall|k: int|
                0 <= k < self.entries@.len() implies self.entries@[k].idx != idx by {}
            lemma_entry_absent(self.entries@, idx);
        }
        let ghost oldentries = self.entries@;
        self.entries.push(InnerRefFunction { idx, func, refs: 0 });
        proof {
            assert(self.entries@ =~= oldentries.push(self.entries@[oldentries.len() as int]));
            assert forall|n: u32| #![auto] true implies entry_lookup(self.entries@, n) == (
            if n == idx {
                Some(self.entries@[oldentries.len() as int])
            } else {
                entry_lookup(oldentries, n)
            }) by {
                lemma_entry_push(oldentries, self.entries@[oldentries.len() as int], n);
                if n == idx {
                    lemma_entry_absent(oldentries, n);
                }
            }
        }
        idx
    }

    /// The live-reference count of the handle under `idx`, if it is still
    /// registered.
    pub fn ref_count(&self, idx: u32) -> (r: Option<i64>)
        requires
            self.wf(),
        ensures
            match r {
                Some(c) => self.entry_of(idx) matches Some(e) && c == e.refs,
                None => self.entry_of(idx) is None,
            },
    {
        match self.find_index(idx) {
            Some(i) => Some(self.entries[i].refs),
            None => None,
        }
    }

    /// A reference to the handler under `idx`: what the host's call-by-index
    /// reaches. An erased or never-assigned index yields no handler (and no
    /// panic).
    pub fn call_ref(&self, idx: u32) -> (r: Option<&F>)
        requires
            self.wf(),
        ensures
            match r {
                Some(f) => self.entry_of(idx) matches Some(e) && *f == e.func,
                None => self.entry_of(idx) is None,
            },
    {
        match self.find_index(idx) {
            Some(i) => Some(self.entries[i].handle()),
            None => None,
        }
    }

    /// The host signals that it took one more reference to the handle:
    /// increments the count (saturating at the machine limit). The index is
    /// handed back, present or not, as the host expects it echoed.
    pub fn duplicate_ref(&mut self, idx: u32) -> (r: u32)
        requires
            old(self).wf(),
        ensures
            final(self).wf(),
            r == idx,
            final(self).spec_next_idx() == old(self).spec_next_idx(),
            forall|n: u32| n != idx ==> final(self).entry_of(n) == old(self).entry_of(n),
            match old(self).entry_of(idx) {
                Some(e) => final(self).entry_of(idx) matches Some(e2) && e2.idx == e.idx
                    && e2.func == e.func && e2.refs == if e.refs < i64::MAX {
                    e.refs + 1
                } else {
                    e.refs as int
                },
                None => final(self).entry_of(idx) == old(self).entry_of(idx),
            },
    {
        match self.find_index(idx) {
            Some(i) => {
                let ghost oldentries = self.entries@;
                let mut e = self.entries.remove(i);
                if e.refs < i64::MAX {
                    e.refs = e.refs + 1;
                }
                self.entries.insert(i, e);
                proof {
                    assert(self.entries@ =~= oldentries.update(i as int, self.entries@[i as int]));
                    lemma_entry_found(self.entries@, idx, i as int);
                    assert forall|n: u32| n != idx implies entry_lookup(self.entries@, n)
                        == entry_lookup(oldentries, n) by {
                        lemma_entry_update_same_idx(
                            oldentries,
                            i as int,
                            self.entries@[i as int],
                            n,
                        );
                    }
                }
            },
            None => {},
        }
        idx
    }

    /// The host signals that it dropped one reference: decrements the count,
    /// and erases the entry (dropping the handler) when the count reaches
    /// zero or below. A missing index is ignored.
    pub fn remove_ref(&mut self, idx: u32)
        requires
            old(self).wf(),
        ensures
            final(self).wf(),
            final(self).spec_next_idx() == old(self).spec_next_idx(),
            forall|n: u32| n != idx ==> final(self).entry_of(n) == old(self).entry_of(n),
            match old(self).entry_of(idx) {
                Some(e) => if e.refs <= 1 {
                    final(self).entry_of(idx) is None
                } else {
                    final(self).entry_of(idx) matches Some(e2) && e2.idx == e.idx && e2.func
                        == e.func && e2.refs == e.refs - 1
                },
                None => final(self).entry_of(idx) is None,
            },
    {
        match self.find_index(idx) {
            Some(i) => {
                let ghost oldentries = self.entries@;
                if self.entries[i].refs <= 1 {
                    let _ = self.entries.remove(i);
                    proof {
                        lemma_entry_remove(oldentries, i as int, idx);
                        assert forall|n: u32| n != idx implies entry_lookup(self.entries@, n)
                            == entry_lookup(oldentries, n) by {
                            lemma_entry_remove(oldentries, i as int, n);
                        }
                    }
                } else {
                    let mut e = self.entries.remove(i);
                    e.refs = e.refs - 1;
                    self.entries.insert(i, e);
                    proof {
                        assert(self.entries@ =~= oldentries.update(
                            i as int,
                            self.entries@[i as int],
                        ));
                        lemma_entry_found(self.entries@, idx, i as int);
                        assert forall|n: u32| n != idx implies entry_lookup(self.entries@, n)
                            == entry_lookup(oldentries, n) by {
                            lemma_entry_update_same_idx(
                                oldentries,
                                i as int,
                                self.entries@[i as int],
                                n,
                            );
                        }
                    }
                }
            },
            None => {
                proof {
                    lemma_entry_absent(self.entries@, idx);
                }
            },
        }
    }
}

/// A guest-held callback handle: the canonical external name the host
/// resolves it by, and the index of its registry entry.
#[derive(Debug)]
pub struct RefFunction {
    name: Vec<u8>,
    idx: u32,
}

impl RefFunction {
    /// The canonical name, in the model.
    pub closed spec fn spec_name(&self) -> Seq<u8> {
        self.name@
    }

    /// The registry index, in the model.
    pub closed spec fn spec_idx(&self) -> u32 {
        self.idx
    }

    /// A handle for the registry entry `idx` under the canonical `name`.
    pub fn new_handle(name: Vec<u8>, idx: u32) -> (r: RefFunction)
        ensures
            r.spec_name() == name@,
            r.spec_idx() == idx,
    {
        RefFunction { name, idx }
    }

    /// The canonical external name of this handle.
    pub fn name(&self) -> (r: &Vec<u8>)
        ensures
            r@ == self.spec_name(),
    {
        &self.name
    }

    /// The registry index of this handle.
    pub fn index(&self) -> (r: u32)
        ensures
            r == self.spec_idx(),
    {
        self.idx
    }

    /// The serializable counterpart of this handle.
    pub fn as_extern_ref_func(&self) -> (r: ExternRefFunction)
        ensures
            r.spec_name() == self.spec_name(),
    {
        let d = wire::copy_range(&self.name, 0, self.name.len());
        proof {
            assert(d@ =~= self.name@);
        }
        ExternRefFunction::new(d)
    }
}

/// The wire-transmissible counterpart of a callback handle: just the
/// canonical name, carried inside structured messages as the reserved
/// extension type so a decoder recognizes it unambiguously.
#[derive(Debug)]
pub struct ExternRefFunction {
    name: Vec<u8>,
}

impl ExternRefFunction {
    /// The canonical name, in the model.
    pub closed spec fn spec_name(&self) -> Seq<u8> {
        self.name@
    }

    /// An external reference to the callback canonically named `name`.
    pub fn new(name: Vec<u8>) -> (r: ExternRefFunction)
        ensures
            r.spec_name() == name@,
    {
        ExternRefFunction { name }
    }

    /// The canonical name.
    pub fn name(&self) -> (r: &Vec<u8>)
        ensures
            r@ == self.spec_name(),
    {
        &self.name
    }

    /// This reference as a wire value: the reserved callback extension
    /// carrying the name bytes.
    pub fn to_value(&self) -> (r: MpValue)
        ensures
            r@ == crate::wire::SpecValue::Ext(crate::wire::CALLBACK_EXT_TYPE, self.spec_name()),
    {
        let d = wire::copy_range(&self.name, 0, self.name.len());
        proof {
            assert(d@ =~= self.name@);
        }
        MpValue::Ext(crate::wire::CALLBACK_EXT_TYPE, d)
    }

    /// Reads a wire value back as a callback reference: exactly the values
    /// carrying the reserved callback extension tag are recognized.
    pub fn from_value(v: &MpValue) -> (r: Option<ExternRefFunction>)
        ensures
            match r {
                Some(e) => v@ == crate::wire::SpecValue::Ext(
                    crate::wire::CALLBACK_EXT_TYPE,
                    e.spec_name(),
                ),
                None => forall|n: Seq<u8>|
                    v@ != crate::wire::SpecValue::Ext(crate::wire::CALLBACK_EXT_TYPE, n),
            },
    {
        match v {
            MpValue::Ext(t, d) => {
                if *t == crate::wire::CALLBACK_EXT_TYPE {
                    let nm = wire::copy_range(d, 0, d.len());
                    proof {
                        assert(nm@ =~= d@);
                    }
                    Some(ExternRefFunction { name: nm })
                } else {
                    None
                }
            },
            _ => None,
        }
    }
}

} // verus!
