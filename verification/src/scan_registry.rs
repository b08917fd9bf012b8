//! Registry of the background metadata scans in flight, one per list key
//! (project and cursor). A new scan for a key displaces the old one, which
//! the caller aborts; a scan that ends removes its registration only while
//! the registration is still its own; a context change aborts every scan of
//! that context, or of a backend kind. The handles are whatever the caller
//! aborts a scan with.

use vstd::prelude::*;

use crate::context::{ContextId, FsKind};
use crate::scan_cache::{bump, CtxV};
use crate::text::str_eq;

verus! {

/// One registered scan: its key, the generation it was given, the context
/// it reads and its handle.
pub struct ScanRecord<H> {
    pub key: Seq<char>,
    pub generation: u64,
    pub ctx: CtxV,
    pub handle: H,
}

struct ScanSlot<H> {
    key: String,
    generation: u64,
    ctx: ContextId,
    handle: H,
}

spec fn slot_record<H>(s: ScanSlot<H>) -> ScanRecord<H> {
    ScanRecord { key: s.key@, generation: s.generation, ctx: s.ctx@, handle: s.handle }
}

/// Which scans a context change aborts.
pub enum ScanSelector {
    /// The scans of one context.
    Context(ContextId),
    /// The scans of every context of one backend kind.
    Kind(FsKind),
}

/// Whether `sel` picks scan `r`.
pub open spec fn selects<H>(sel: ScanSelector, r: ScanRecord<H>) -> bool {
    match sel {
        ScanSelector::Context(c) => r.ctx == c@,
        ScanSelector::Kind(k) => r.ctx.0 == k,
    }
}

/// The scans of `s` that `sel` picks, in order.
pub open spec fn picked<H>(s: Seq<ScanRecord<H>>, sel: ScanSelector) -> Seq<ScanRecord<H>>
    decreases s.len(),
{
    if s.len() == 0 {
        s
    } else if selects(sel, s.last()) {
        picked(s.drop_last(), sel).push(s.last())
    } else {
        picked(s.drop_last(), sel)
    }
}

/// The scans of `s` that `sel` does not pick, in order.
pub open spec fn unpicked<H>(s: Seq<ScanRecord<H>>, sel: ScanSelector) -> Seq<ScanRecord<H>>
    decreases s.len(),
{
    if s.len() == 0 {
        s
    } else if selects(sel, s.last()) {
        unpicked(s.drop_last(), sel)
    } else {
        unpicked(s.drop_last(), sel).push(s.last())
    }
}

/// The handles of a list of scans.
pub open spec fn handles<H>(s: Seq<ScanRecord<H>>) -> Seq<H> {
    s.map_values(|r: ScanRecord<H>| r.handle)
}

/// No key is registered twice.
pub open spec fn keys_distinct<H>(s: Seq<ScanRecord<H>>) -> bool {
    forall|i: int, j: int| 0 <= i < s.len() && 0 <= j < s.len() && i != j ==> #[trigger] s[i].key != #[trigger] s[j].key
}

/// The registration of `key` in `s`, if any.
pub open spec fn record_of<H>(s: Seq<ScanRecord<H>>, key: Seq<char>) -> Option<ScanRecord<H>> {
    if exists|i: int| 0 <= i < s.len() && #[trigger] s[i].key == key {
        Some(s[choose|i: int| 0 <= i < s.len() && #[trigger] s[i].key == key])
    } else {
        None
    }
}

/// `s` without the registration of `key`.
pub open spec fn without_key<H>(s: Seq<ScanRecord<H>>, key: Seq<char>) -> Seq<ScanRecord<H>>
    decreases s.len(),
{
    if s.len() == 0 {
        s
    } else if s.last().key == key {
        without_key(s.drop_last(), key)
    } else {
        without_key(s.drop_last(), key).push(s.last())
    }
}

proof fn lemma_without_key_absent<H>(s: Seq<ScanRecord<H>>, key: Seq<char>)
    requires
        forall|i: int| 0 <= i < s.len() ==> #[trigger] s[i].key != key,
    ensures
        without_key(s, key) == s,
    decreases s.len(),
{
    if s.len() > 0 {
        lemma_without_key_absent(s.drop_last(), key);
        assert(s.drop_last().push(s.last()) =~= s);
    }
}

proof fn lemma_without_key_remove<H>(s: Seq<ScanRecord<H>>, i: int)
    requires
        keys_distinct(s),
        0 <= i < s.len(),
    ensures
        without_key(s, s[i].key) == s.remove(i),
    decreases s.len(),
{
    let key = s[i].key;
    if i == s.len() - 1 {
        assert forall|j: int| 0 <= j < s.drop_last().len() implies #[trigger] s.drop_last()[j].key != key by {
            assert(s.drop_last()[j] == s[j]);
        }
        lemma_without_key_absent(s.drop_last(), key);
        assert(s.remove(i) =~= s.drop_last());
    } else {
        assert(keys_distinct(s.drop_last())) by {
            assert forall|a: int, b: int|
                0 <= a < s.drop_last().len() && 0 <= b < s.drop_last().len() && a != b implies #[trigger] s.drop_last()[a].key
                != #[trigger] s.drop_last()[b].key by {
                assert(s.drop_last()[a] == s[a]);
                assert(s.drop_last()[b] == s[b]);
            }
        }
        assert(s.drop_last()[i] == s[i]);
        lemma_without_key_remove(s.drop_last(), i);
        assert(s.last().key != key);
        assert(s.drop_last().remove(i).push(s.last()) =~= s.remove(i));
    }
}

pub(crate) proof fn lemma_without_key_distinct<H>(s: Seq<ScanRecord<H>>, key: Seq<char>)
    requires
        keys_distinct(s),
    ensures
        keys_distinct(without_key(s, key)),
        forall|i: int| 0 <= i < without_key(s, key).len() ==> #[trigger] without_key(s, key)[i].key != key,
        forall|i: int| 0 <= i < without_key(s, key).len() ==> s.contains(#[trigger] without_key(s, key)[i]),
    decreases s.len(),
{
    if s.len() > 0 {
        let t = s.drop_last();
        assert(keys_distinct(t)) by {
            assert forall|a: int, b: int| 0 <= a < t.len() && 0 <= b < t.len() && a != b implies #[trigger] t[a].key
                != #[trigger] t[b].key by {
                assert(t[a] == s[a]);
                assert(t[b] == s[b]);
            }
        }
        lemma_without_key_distinct(t, key);
        let u = without_key(t, key);
        assert forall|i: int| 0 <= i < u.len() implies s.contains(#[trigger] u[i]) by {
            assert(t.contains(u[i]));
            let j = choose|j: int| 0 <= j < t.len() && t[j] == u[i];
            assert(s[j] == t[j]);
        }
        if s.last().key != key {
            let w = u.push(s.last());
            assert(w == without_key(s, key));
            assert forall|i: int| 0 <= i < w.len() implies s.contains(#[trigger] w[i]) by {
                if i == u.len() {
                    assert(s[s.len() - 1] == w[i]);
                } else {
                    assert(w[i] == u[i]);
                }
            }
            assert forall|a: int, b: int| 0 <= a < w.len() && 0 <= b < w.len() && a != b implies #[trigger] w[a].key
                != #[trigger] w[b].key by {
                if a == u.len() || b == u.len() {
                    let o = if a == u.len() {
                        b
                    } else {
                        a
                    };
                    assert(t.contains(u[o]));
                    let j = choose|j: int| 0 <= j < t.len() && t[j] == u[o];
                    assert(s[j] == t[j]);
                    assert(s[j].key != s[s.len() - 1].key);
                    assert(w[o] == u[o]);
                } else {
                    assert(w[a] == u[a]);
                    assert(w[b] == u[b]);
                }
            }
            assert forall|i: int| 0 <= i < w.len() implies #[trigger] w[i].key != key by {
                if i < u.len() {
                    assert(w[i] == u[i]);
                }
            }
        }
    }
}

proof fn lemma_unpicked_subset<H>(s: Seq<ScanRecord<H>>, sel: ScanSelector, r: ScanRecord<H>)
    requires
        unpicked(s, sel).contains(r),
    ensures
        s.contains(r),
    decreases s.len(),
{
    if s.len() > 0 {
        let u = unpicked(s.drop_last(), sel);
        if !selects(sel, s.last()) && r == s.last() {
            assert(s[s.len() - 1] == r);
        } else {
            if !selects(sel, s.last()) {
                let k = choose|k: int| 0 <= k < unpicked(s, sel).len() && unpicked(s, sel)[k] == r;
                assert(k < u.len());
                assert(u[k] == r);
            }
            lemma_unpicked_subset(s.drop_last(), sel, r);
            let j = choose|j: int| 0 <= j < s.drop_last().len() && s.drop_last()[j] == r;
            assert(s[j] == r);
        }
    }
}

proof fn lemma_unpicked_distinct<H>(s: Seq<ScanRecord<H>>, sel: ScanSelector)
    requires
        keys_distinct(s),
    ensures
        keys_distinct(unpicked(s, sel)),
    decreases s.len(),
{
    if s.len() > 0 {
        let t = s.drop_last();
        assert(keys_distinct(t)) by {
            assert forall|a: int, b: int| 0 <= a < t.len() && 0 <= b < t.len() && a != b implies #[trigger] t[a].key
                != #[trigger] t[b].key by {
                assert(t[a] == s[a]);
                assert(t[b] == s[b]);
            }
        }
        lemma_unpicked_distinct(t, sel);
        if !selects(sel, s.last()) {
            let u = unpicked(t, sel);
            assert forall|a: int, b: int| 0 <= a < u.push(s.last()).len() && 0 <= b < u.push(s.last()).len() && a != b implies #[trigger] u.push(s.last())[a].key
                != #[trigger] u.push(s.last())[b].key by {
                if a == u.len() || b == u.len() {
                    let o = if a == u.len() {
                        b
                    } else {
                        a
                    };
                    assert(u.contains(u[o]));
                    lemma_unpicked_subset(t, sel, u[o]);
                    let j = choose|j: int| 0 <= j < t.len() && t[j] == u[o];
                    assert(s[j] == t[j]);
                    assert(s[j].key != s[s.len() - 1].key);
                }
            }
        }
    }
}

/// Registry of the scans in flight, with the generation the next scan gets.
pub struct ScanRegistry<H> {
    slots: Vec<ScanSlot<H>>,
    next_generation: u64,
}

impl<H> ScanRegistry<H> {
    /// The registered scans, in registration order.
    pub closed spec fn records(&self) -> Seq<ScanRecord<H>> {
        self.slots@.map_values(|s: ScanSlot<H>| slot_record(s))
    }

    /// The generation the next registered scan gets.
    pub closed spec fn next_gen(&self) -> u64 {
        self.next_generation
    }

    /// Every key is registered at most once.
    pub open spec fn wf(&self) -> bool {
        keys_distinct(self.records())
    }

    /// An empty registry; the first scan gets generation 0.
    pub fn new() -> (r: Self)
        ensures
            r.wf(),
            r.records() == Seq::<ScanRecord<H>>::empty(),
            r.next_gen() == 0,
    {
        let r = ScanRegistry { slots: Vec::new(), next_generation: 0 };
        assert(r.records() =~= Seq::<ScanRecord<H>>::empty());
        r
    }

    /// The generation the next registered scan gets.
    pub fn next_generation(&self) -> (r: u64)
        ensures
            r == self.next_gen(),
    {
        self.next_generation
    }

    /// Number of scans in flight.
    pub fn len(&self) -> (r: usize)
        ensures
            r == self.records().len(),
    {
        self.slots.len()
    }

    fn find(&self, key: &str) -> (r: Option<usize>)
        ensures
            r matches Some(i) ==> i < self.records().len() && self.records()[i as int].key == key@,
            r is None ==> forall|j: int| 0 <= j < self.records().len() ==> #[trigger] self.records()[j].key != key@,
    {
        let mut i: usize = 0;
        while i < self.slots.len()
            invariant
                i <= self.slots@.len(),
                forall|j: int| 0 <= j < i ==> #[trigger] self.slots@[j].key@ != key@,
            decreases self.slots@.len() - i,
        {
            if str_eq(self.slots[i].key.as_str(), key) {
                return Some(i);
            }
            i = i + 1;
        }
        proof {
            assert forall|j: int| 0 <= j < self.records().len() implies #[trigger] self.records()[j].key != key@ by {
                assert(self.records()[j] == slot_record(self.slots@[j]));
            }
        }
        None
    }

    /// The generation of the scan registered under `key`, if any.
    pub fn generation_of(&self, key: &str) -> (r: Option<u64>)
        requires
            self.wf(),
        ensures
            r == match record_of(self.records(), key@) {
                Some(rec) => Some(rec.generation),
                None => None,
            },
    {
        match self.find(key) {
            Some(i) => {
                proof {
                    let s = self.records();
                    let c = choose|j: int| 0 <= j < s.len() && #[trigger] s[j].key == key@;
                    assert(s[i as int].key == key@);
                    assert(c == i);
                    assert(s[i as int] == slot_record(self.slots@[i as int]));
                }
                Some(self.slots[i].generation)
            },
            None => None,
        }
    }

    /// Registers a new scan of `ctx` under `key`: it gets the next
    /// generation (which then advances, wrapping), replaces any scan
    /// registered under `key`, and that scan's handle is returned for the
    /// caller to abort.
    pub fn register(&mut self, key: &str, ctx: ContextId, handle: H) -> (r: (u64, Option<H>))
        requires
            old(self).wf(),
        ensures
            final(self).wf(),
            r.0 == old(self).next_gen(),
            final(self).next_gen() == bump(old(self).next_gen()),
            r.1 == match record_of(old(self).records(), key@) {
                Some(rec) => Some(rec.handle),
                None => None,
            },
            final(self).records() == without_key(old(self).records(), key@).push(
                ScanRecord { key: key@, generation: old(self).next_gen(), ctx: ctx@, handle },
            ),
    {
        let ghost s0 = self.records();
        let generation = self.next_generation;
        let displaced = match self.find(key) {
            Some(i) => {
                proof {
                    let c = choose|j: int| 0 <= j < s0.len() && #[trigger] s0[j].key == key@;
                    assert(s0[i as int].key == key@);
                    assert(c == i);
                    assert(s0[i as int] == slot_record(self.slots@[i as int]));
                    lemma_without_key_remove(s0, i as int);
                }
                let old_slot = self.slots.remove(i);
                proof {
                    assert(self.records() =~= s0.remove(i as int));
                }
                Some(old_slot.handle)
            },
            None => {
                proof {
                    lemma_without_key_absent(s0, key@);
                }
                None
            },
        };
        proof {
            assert(self.records() == without_key(s0, key@));
            lemma_without_key_distinct(s0, key@);
        }
        let ghost s1 = self.records();
        self.slots.push(ScanSlot { key: String::from_str(key), generation, ctx, handle });
        self.next_generation = if generation == u64::MAX {
            0
        } else {
            generation + 1
        };
        proof {
            let rec = ScanRecord { key: key@, generation, ctx: ctx@, handle };
            assert(self.records() =~= s1.push(rec));
            assert forall|a: int, b: int|
                0 <= a < s1.push(rec).len() && 0 <= b < s1.push(rec).len() && a != b implies #[trigger] s1.push(rec)[a].key
                != #[trigger] s1.push(rec)[b].key by {
                if a < s1.len() {
                    assert(s1.push(rec)[a] == s1[a]);
                }
                if b < s1.len() {
                    assert(s1.push(rec)[b] == s1[b]);
                }
            }
        }
        (generation, displaced)
    }

    /// Ends the registration of a scan that finished or was aborted: it is
    /// removed only while `key` is still registered with the scan's own
    /// `generation`, so a scan that was displaced cannot remove its
    /// successor. Returns whether it was removed.
    pub fn finish(&mut self, key: &str, generation: u64) -> (r: bool)
        requires
            old(self).wf(),
        ensures
            final(self).wf(),
            final(self).next_gen() == old(self).next_gen(),
            r == (record_of(old(self).records(), key@) matches Some(rec) && rec.generation == generation),
            r ==> final(self).records() == without_key(old(self).records(), key@),
            !r ==> final(self).records() == old(self).records(),
    {
        let ghost s0 = self.records();
        match self.find(key) {
            Some(i) => {
                proof {
                    let c = choose|j: int| 0 <= j < s0.len() && #[trigger] s0[j].key == key@;
                    assert(s0[i as int].key == key@);
                    assert(c == i);
                    assert(s0[i as int] == slot_record(self.slots@[i as int]));
                }
                if self.slots[i].generation == generation {
                    proof {
                        lemma_without_key_remove(s0, i as int);
                        lemma_without_key_distinct(s0, key@);
                    }
                    let _removed = self.slots.remove(i);
                    proof {
                        assert(self.records() =~= s0.remove(i as int));
                    }
                    true
                } else {
                    false
                }
            },
            None => false,
        }
    }

    /// Removes every scan that `sel` picks and returns their handles, in
    /// registration order, for the caller to abort; the other scans stay
    /// registered in order.
    pub fn abort_matching(&mut self, sel: &ScanSelector) -> (r: Vec<H>)
        requires
            old(self).wf(),
        ensures
            final(self).wf(),
            final(self).next_gen() == old(self).next_gen(),
            final(self).records() == unpicked(old(self).records(), *sel),
            r@ == handles(picked(old(self).records(), *sel)),
    {
        let ghost s0 = self.records();
        let mut out: Vec<H> = Vec::new();
        let mut i: usize = 0;
        let ghost mut n: int = 0;
        proof {
            assert(s0.take(0) =~= Seq::<ScanRecord<H>>::empty());
            assert(s0.skip(0) =~= s0);
            assert(self.records() =~= unpicked(s0.take(0), *sel) + s0.skip(0));
            assert(handles(picked(s0.take(0), *sel)) =~= out@);
        }
        while i < self.slots.len()
            invariant
                0 <= n <= s0.len(),
                self.next_generation == old(self).next_generation,
                s0 == old(self).records(),
                self.records() == unpicked(s0.take(n), *sel) + s0.skip(n),
                i == unpicked(s0.take(n), *sel).len(),
                handles(picked(s0.take(n), *sel)) == out@,
            decreases self.slots@.len() - i,
        {
            let ghost u = unpicked(s0.take(n), *sel);
            let ghost p = picked(s0.take(n), *sel);
            proof {
                assert(self.records()[i as int] == s0[n]);
                assert(self.records()[i as int] == slot_record(self.slots@[i as int]));
                assert(s0.take(n + 1).drop_last() =~= s0.take(n));
                assert(s0.take(n + 1).last() == s0[n]);
            }
            let hit = match sel {
                ScanSelector::Context(c) => self.slots[i].ctx.same_as(c),
                ScanSelector::Kind(k) => self.slots[i].ctx.kind == *k,
            };
            if hit {
                let ghost before = self.records();
                let slot = self.slots.remove(i);
                out.push(slot.handle);
                proof {
                    assert(self.records() =~= before.remove(i as int));
                    assert(before.remove(i as int) =~= u + s0.skip(n + 1));
                    assert(handles(p.push(s0[n])) =~= handles(p).push(s0[n].handle));
                }
            } else {
                i = i + 1;
                proof {
                    assert(self.records() =~= u.push(s0[n]) + s0.skip(n + 1));
                }
            }
            proof {
                n = n + 1;
            }
        }
        proof {
            assert(n == s0.len());
            assert(s0.take(n) =~= s0);
            lemma_unpicked_distinct(s0, *sel);
        }
        out
    }
}

/// A background scan publishes a session's metadata only while the root
/// directory and the active context are the ones it was started under:
/// neither generation moved since the listing that started it.
pub open spec fn publish_ok(expected_root: u64, current_root: u64, expected_context: u64, current_context: u64) -> bool {
    expected_root == current_root && expected_context == current_context
}

/// Whether a scan may publish a metadata update now (see [`publish_ok`]).
pub fn may_publish_metadata(expected_root: u64, current_root: u64, expected_context: u64, current_context: u64) -> (r:
    bool)
    ensures
        r == publish_ok(expected_root, current_root, expected_context, current_context),
{
    expected_root == current_root && expected_context == current_context
}

} // verus!
