//! The field-name interning cache: one deferred cache cell per literal field
//! name, resolved against a store at most once and reused for every later
//! lookup of that field on any value of the same store.

use vstd::prelude::*;
use vstd::string::*;
use crate::store::{inc, InternedStringId, ValueStore};

verus! {

/// A deferred cache cell for one literal field name. Constructing it costs
/// nothing; the first resolution against a store interns the literal and
/// remembers the token together with the store's identity, so that a token is
/// never trusted against a different store.
pub struct CachedInternedStringId {
    literal: String,
    cached: Option<(u64, InternedStringId)>,
}

impl CachedInternedStringId {
    /// The literal field name this cell is for.
    pub closed spec fn spec_literal(self) -> Seq<char> {
        self.literal@
    }

    pub closed spec fn spec_cached(self) -> Option<(u64, InternedStringId)> {
        self.cached
    }

    /// The cell holds a token bound to this store's identity.
    pub open spec fn hit(self, store: ValueStore) -> bool {
        match self.spec_cached() {
            Some((id, _)) => id == store.spec_store_id(),
            None => false,
        }
    }

    /// Cache coherence against a store: whatever token is bound to this
    /// store's identity really is this literal's token there. Holds only as
    /// long as at most one live store carries a given identity.
    pub open spec fn wf_for(self, store: ValueStore) -> bool {
        match self.spec_cached() {
            Some((id, tok)) => id == store.spec_store_id() ==> tok.wf_for(store)
                && store.key_view(tok) == self.spec_literal(),
            None => true,
        }
    }

    /// A fresh, unresolved cell: no host interaction happens here.
    pub fn new(literal: &str) -> (r: CachedInternedStringId)
        ensures
            r.spec_literal() == literal@,
            r.spec_cached() is None,
    {
        CachedInternedStringId { literal: literal.to_owned(), cached: None }
    }

    /// Resolve the literal's token against a store. The first call per store
    /// interns the literal — one counted host call; every later call answers
    /// from the cache and leaves the store's counters untouched.
    pub fn load_from_value(&mut self, store: &mut ValueStore) -> (r: InternedStringId)
        requires
            old(store).wf(),
            old(self).wf_for(*old(store)),
        ensures
            final(store).wf(),
            final(store).extends(*old(store)),
            final(store).spec_nodes() == old(store).spec_nodes(),
            r.wf_for(*final(store)),
            final(store).key_view(r) == old(self).spec_literal(),
            final(self).spec_literal() == old(self).spec_literal(),
            final(self).wf_for(*final(store)),
            final(self).hit(*final(store)),
            old(self).hit(*old(store)) ==> {
                &&& final(store).same_counters(*old(store))
                &&& final(store).same_content(*old(store))
                &&& *final(self) == *old(self)
            },
            !old(self).hit(*old(store)) ==> {
                &&& final(store).spec_interns() == inc(old(store).spec_interns())
                &&& final(store).spec_string_lookups() == old(store).spec_string_lookups()
                &&& final(store).spec_token_lookups() == old(store).spec_token_lookups()
            },
    {
        match &self.cached {
            Some(pair) => {
                if pair.0 == store.id() {
                    proof {
                        crate::store::lemma_extends_refl(*store);
                    }
                    return pair.1;
                }
            },
            None => {},
        }
        let tok = store.intern_utf8_str(self.literal.as_str());
        self.cached = Some((store.id(), tok));
        tok
    }
}

/// A cache cell stays coherent as its store grows: tokens keep their keys.
pub proof fn lemma_cell_wf_extends(cell: CachedInternedStringId, s1: ValueStore, s2: ValueStore)
    requires
        cell.wf_for(s1),
        s2.extends(s1),
    ensures
        cell.wf_for(s2),
{
    match cell.spec_cached() {
        Some((id, tok)) => {
            if id == s2.spec_store_id() {
                assert(id == s1.spec_store_id());
                assert(tok.wf_for(s1));
                assert(0 <= tok.spec_tok() < s1.key_views().len());
                assert(s2.key_views().take(s1.key_views().len() as int) == s1.key_views());
                assert(s2.key_views()[tok.spec_tok()] == s2.key_views().take(
                    s1.key_views().len() as int,
                )[tok.spec_tok()]);
                assert(s2.key_view(tok) == s1.key_view(tok));
            }
        },
        None => {},
    }
}

} // verus!
