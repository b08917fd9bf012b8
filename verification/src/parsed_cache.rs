//! LRU cache of parsed session files, keyed by (context, file path) and
//! validated by the file's signature, so repeated tool-output and image
//! lookups skip re-parsing a whole JSONL file.

use std::sync::Arc;

use vstd::prelude::*;

use crate::assoc::{
    has_key, key_index, keys_unique, lemma_drop_last_keys, lemma_key_index, lemma_prepend_unique,
    lemma_remove_keys, move_to_front,
};
use crate::context::ContextId;
use crate::scan_cache::CtxV;
use crate::paths::{path_comps, same_path};

verus! {

/// Default capacity: a parsed file is large, so few are kept.
pub const PARSED_MESSAGE_CACHE_CAPACITY: usize = 50;

/// Identity of a file on disk.
#[derive(Debug, Clone, Copy, PartialEq, Eq, Structural)]
pub enum FileIdentity {
    Unix { dev: u64, ino: u64 },
    /// The platform gives no stable identity.
    Absent,
}

/// What a cached parse is validated against: modification time, size and
/// identity of the file at the time it was read.
#[derive(Debug, Clone, Copy, PartialEq, Eq, Structural)]
pub struct FileSignature {
    pub mtime_secs: i64,
    pub mtime_nanos: u32,
    pub size: u64,
    pub identity: FileIdentity,
}

/// Cache key: a context and a file path within it, the path taken by its
/// components (so `a/b` and `a//b` are one key, as std compares paths).
pub type ParsedKey = (CtxV, Seq<Seq<char>>);

struct LruSlot<M> {
    ctx: ContextId,
    path: String,
    signature: FileSignature,
    messages: Arc<Vec<M>>,
}

spec fn lru_seq<M>(s: Seq<LruSlot<M>>) -> Seq<(ParsedKey, (FileSignature, Seq<M>))> {
    s.map_values(|x: LruSlot<M>| ((x.ctx@, path_comps(x.path@)), (x.signature, x.messages@)))
}

/// The order after writing `v` under `k` into `s` with room for `cap`
/// entries: `k` goes to the front; an existing `k` is replaced in place of
/// its old position; a new key at or over capacity evicts the last entry.
pub open spec fn lru_insert<V>(s: Seq<(ParsedKey, V)>, cap: nat, k: ParsedKey, v: V) -> Seq<(ParsedKey, V)> {
    if has_key(s, k) {
        seq![(k, v)] + s.remove(key_index(s, k))
    } else if s.len() >= cap && s.len() > 0 {
        seq![(k, v)] + s.drop_last()
    } else {
        seq![(k, v)] + s
    }
}

/// The most recently used entry first.
pub struct ParsedMessageCache<M> {
    slots: Vec<LruSlot<M>>,
    capacity: usize,
}

impl<M> ParsedMessageCache<M> {
    /// Entries from most to least recently used: key, signature, messages.
    pub closed spec fn order(&self) -> Seq<(ParsedKey, (FileSignature, Seq<M>))> {
        lru_seq(self.slots@)
    }

    /// Capacity given at construction.
    pub closed spec fn cap(&self) -> nat {
        self.capacity as nat
    }

    /// Keys are unique and the size never exceeds the capacity (or one,
    /// for a capacity of zero).
    pub open spec fn wf(&self) -> bool {
        &&& keys_unique(self.order())
        &&& self.order().len() <= if self.cap() == 0 { 1 } else { self.cap() }
    }

    /// An empty cache that holds at most `capacity` entries.
    pub fn new(capacity: usize) -> (r: Self)
        ensures
            r.wf(),
            r.order() == Seq::<(ParsedKey, (FileSignature, Seq<M>))>::empty(),
            r.cap() == capacity,
    {
        let r = ParsedMessageCache { slots: Vec::new(), capacity };
        assert(r.order() =~= Seq::<(ParsedKey, (FileSignature, Seq<M>))>::empty());
        r
    }

    fn find(&self, ctx: &ContextId, path: &str) -> (r: Option<usize>)
        requires
            self.wf(),
        ensures
            r matches Some(i) ==> has_key(self.order(), (ctx@, path_comps(path@))) && i == key_index(self.order(), (ctx@, path_comps(path@))),
            r is None ==> !has_key(self.order(), (ctx@, path_comps(path@))),
    {
        let ghost s = self.order();
        let mut i: usize = 0;
        while i < self.slots.len()
            invariant
                i <= self.slots@.len(),
                s == self.order(),
                self.wf(),
                forall|j: int| 0 <= j < i ==> #[trigger] s[j].0 != (ctx@, path_comps(path@)),
            decreases self.slots@.len() - i,
        {
            assert(s[i as int].0 == (self.slots@[i as int].ctx@, path_comps(self.slots@[i as int].path@)));
            if self.slots[i].ctx.same_as(ctx) && same_path(self.slots[i].path.as_str(), path) {
                proof {
                    assert(has_key(s, (ctx@, path_comps(path@))));
                    lemma_key_index(s, (ctx@, path_comps(path@)));
                }
                return Some(i);
            }
            i = i + 1;
        }
        proof {
            if has_key(s, (ctx@, path_comps(path@))) {
                let j = choose|j: int| 0 <= j < s.len() && #[trigger] s[j].0 == (ctx@, path_comps(path@));
            }
        }
        None
    }

    fn bump_to_front(&mut self, i: usize)
        requires
            old(self).wf(),
            i < old(self).order().len(),
        ensures
            final(self).wf(),
            final(self).cap() == old(self).cap(),
            final(self).order() == move_to_front(old(self).order(), i as int),
    {
        let ghost s = self.order();
        let slot = self.slots.remove(i);
        proof {
            lemma_remove_keys(s, i as int);
            assert(lru_seq(self.slots@) =~= s.remove(i as int));
        }
        self.slots.insert(0, slot);
        proof {
            assert(self.order() =~= move_to_front(s, i as int));
            lemma_prepend_unique(s.remove(i as int), s[i as int]);
        }
    }

    /// Looks up (`ctx`, `path`); on a hit the entry becomes the most recently
    /// used and its signature and messages are returned.
    pub fn lookup(&mut self, ctx: &ContextId, path: &str) -> (r: Option<(FileSignature, Arc<Vec<M>>)>)
        requires
            old(self).wf(),
        ensures
            final(self).wf(),
            final(self).cap() == old(self).cap(),
            r is Some <==> has_key(old(self).order(), (ctx@, path_comps(path@))),
            r matches Some(e) ==> {
                let i = key_index(old(self).order(), (ctx@, path_comps(path@)));
                &&& e.0 == old(self).order()[i].1.0
                &&& e.1@ == old(self).order()[i].1.1
                &&& final(self).order() == move_to_front(old(self).order(), i)
            },
            r is None ==> final(self).order() == old(self).order(),
    {
        match self.find(ctx, path) {
            None => None,
            Some(i) => {
                let sig = self.slots[i].signature;
                let msgs = self.slots[i].messages.clone();
                self.bump_to_front(i);
                Some((sig, msgs))
            },
        }
    }

    /// Looks up (`ctx`, `path`) and serves it only if its signature equals
    /// `signature`; only a served entry becomes the most recently used.
    pub fn lookup_with_known_signature(&mut self, ctx: &ContextId, path: &str, signature: &FileSignature) -> (r: Option<Arc<Vec<M>>>)
        requires
            old(self).wf(),
        ensures
            final(self).wf(),
            final(self).cap() == old(self).cap(),
            r is Some <==> (has_key(old(self).order(), (ctx@, path_comps(path@)))
                && old(self).order()[key_index(old(self).order(), (ctx@, path_comps(path@)))].1.0 == *signature),
            r matches Some(m) ==> {
                let i = key_index(old(self).order(), (ctx@, path_comps(path@)));
                &&& m@ == old(self).order()[i].1.1
                &&& final(self).order() == move_to_front(old(self).order(), i)
            },
            r is None ==> final(self).order() == old(self).order(),
    {
        match self.find(ctx, path) {
            None => None,
            Some(i) => {
                if self.slots[i].signature != *signature {
                    return None;
                }
                let msgs = self.slots[i].messages.clone();
                self.bump_to_front(i);
                Some(msgs)
            },
        }
    }

    /// Looks up (`ctx`, `path`) without checking the signature; a hit
    /// becomes the most recently used.
    pub fn lookup_trust_cached(&mut self, ctx: &ContextId, path: &str) -> (r: Option<Arc<Vec<M>>>)
        requires
            old(self).wf(),
        ensures
            final(self).wf(),
            final(self).cap() == old(self).cap(),
            r is Some <==> has_key(old(self).order(), (ctx@, path_comps(path@))),
            r matches Some(m) ==> {
                let i = key_index(old(self).order(), (ctx@, path_comps(path@)));
                &&& m@ == old(self).order()[i].1.1
                &&& final(self).order() == move_to_front(old(self).order(), i)
            },
            r is None ==> final(self).order() == old(self).order(),
    {
        match self.lookup(ctx, path) {
            Some(e) => Some(e.1),
            None => None,
        }
    }

    /// Writes an entry for (`ctx`, `path`) as the most recently used one;
    /// an old entry for the key is replaced, and writing a new key into a
    /// full cache evicts the least recently used entry.
    pub fn insert(&mut self, ctx: ContextId, path: String, signature: FileSignature, messages: Arc<Vec<M>>)
        requires
            old(self).wf(),
        ensures
            final(self).wf(),
            final(self).cap() == old(self).cap(),
            final(self).order() == lru_insert(
                old(self).order(),
                old(self).cap(),
                (ctx@, path_comps(path@)),
                (signature, messages@),
            ),
    {
        let ghost s = self.order();
        let ghost k = (ctx@, path_comps(path@));
        let ghost v = (signature, messages@);
        match self.find(&ctx, path.as_str()) {
            Some(i) => {
                let _old = self.slots.remove(i);
                proof {
                    lemma_remove_keys(s, i as int);
                    assert(lru_seq(self.slots@) =~= s.remove(i as int));
                }
                self.slots.insert(0, LruSlot { ctx, path, signature, messages });
                proof {
                    lemma_prepend_unique(s.remove(i as int), (k, v));
                    assert(self.order() =~= seq![(k, v)] + s.remove(i as int));
                }
            },
            None => {
                if self.slots.len() >= self.capacity && self.slots.len() > 0 {
                    let _evicted = self.slots.pop();
                    proof {
                        lemma_drop_last_keys(s);
                        assert(lru_seq(self.slots@) =~= s.drop_last());
                    }
                    self.slots.insert(0, LruSlot { ctx, path, signature, messages });
                    proof {
                        lemma_prepend_unique(s.drop_last(), (k, v));
                        assert(self.order() =~= seq![(k, v)] + s.drop_last());
                    }
                } else {
                    self.slots.insert(0, LruSlot { ctx, path, signature, messages });
                    proof {
                        lemma_prepend_unique(s, (k, v));
                        assert(self.order() =~= seq![(k, v)] + s);
                    }
                }
            },
        }
    }

    /// Drops the entry of (`ctx`, `path`) if there is one.
    pub fn remove(&mut self, ctx: &ContextId, path: &str)
        requires
            old(self).wf(),
        ensures
            final(self).wf(),
            final(self).cap() == old(self).cap(),
            final(self).order() == (if has_key(old(self).order(), (ctx@, path_comps(path@))) {
                old(self).order().remove(key_index(old(self).order(), (ctx@, path_comps(path@))))
            } else {
                old(self).order()
            }),
            !has_key(final(self).order(), (ctx@, path_comps(path@))),
            forall|k: ParsedKey| k != (ctx@, path_comps(path@)) ==> #[trigger] has_key(final(self).order(), k) == has_key(
                old(self).order(),
                k,
            ),
            final(self).order().len() == old(self).order().len() - (if has_key(old(self).order(), (ctx@, path_comps(path@))) {
                1int
            } else {
                0int
            }),
    {
        let ghost s = self.order();
        match self.find(ctx, path) {
            Some(i) => {
                let _gone = self.slots.remove(i);
                proof {
                    lemma_remove_keys(s, i as int);
                    lemma_key_index(s, (ctx@, path_comps(path@)));
                    assert(self.order() =~= s.remove(i as int));
                }
            },
            None => {},
        }
    }

    /// Drops the entry of (`ctx`, `path`) only when its signature differs
    /// from `current`; returns whether an entry was dropped.
    pub fn remove_if_signature_mismatch(&mut self, ctx: &ContextId, path: &str, current: &FileSignature) -> (r: bool)
        requires
            old(self).wf(),
        ensures
            final(self).wf(),
            final(self).cap() == old(self).cap(),
            r == (has_key(old(self).order(), (ctx@, path_comps(path@)))
                && old(self).order()[key_index(old(self).order(), (ctx@, path_comps(path@)))].1.0 != *current),
            r ==> final(self).order() == old(self).order().remove(key_index(old(self).order(), (ctx@, path_comps(path@)))),
            r ==> !has_key(final(self).order(), (ctx@, path_comps(path@))),
            r ==> forall|k: ParsedKey| k != (ctx@, path_comps(path@)) ==> #[trigger] has_key(final(self).order(), k) == has_key(
                old(self).order(),
                k,
            ),
            r ==> final(self).order().len() == old(self).order().len() - 1,
            !r ==> final(self).order() == old(self).order(),
    {
        match self.find(ctx, path) {
            None => false,
            Some(i) => {
                if self.slots[i].signature == *current {
                    return false;
                }
                self.remove(ctx, path);
                true
            },
        }
    }

    /// Number of entries.
    pub fn len(&self) -> (r: usize)
        ensures
            r == self.order().len(),
    {
        self.slots.len()
    }

    /// Whether there are no entries.
    pub fn is_empty(&self) -> (r: bool)
        ensures
            r == (self.order().len() == 0),
    {
        self.slots.len() == 0
    }
}

impl<M> Default for ParsedMessageCache<M> {
    /// An empty cache of the default capacity.
    fn default() -> (r: Self)
        ensures
            r.wf(),
            r.order() == Seq::<(ParsedKey, (FileSignature, Seq<M>))>::empty(),
            r.cap() == PARSED_MESSAGE_CACHE_CAPACITY,
    {
        ParsedMessageCache::new(PARSED_MESSAGE_CACHE_CAPACITY)
    }
}

} // verus!
