//! A scoped name binding store, shared by the normalizer and the evaluator.
//!
//! Bindings are kept as a stack of entries. Entering a scope pushes an entry —
//! a binding of a name to a value, or a mask that hides every outer binding of
//! the name — and leaving the scope pops it, which restores the enclosing
//! bindings exactly. The innermost entry for a name wins, so shadowing behaves
//! as lambda scoping demands.

use vstd::prelude::*;

verus! {

/// The model of one entry: the name, and the bound value or `None` for a
/// mask.
pub open spec fn entry_view<V: View>(p: (String, Option<V>)) -> (Seq<char>, Option<V::V>) {
    (
        p.0@,
        match p.1 {
            Option::Some(v) => Option::Some(v@),
            Option::None => Option::None,
        },
    )
}

/// The map an entry stack denotes: entries apply oldest-first, a binding
/// inserts its value and a mask removes the name, so the newest entry for a
/// name decides.
pub open spec fn scope_map<T>(s: Seq<(Seq<char>, Option<T>)>) -> Map<Seq<char>, T>
    decreases s.len(),
{
    if s.len() == 0 {
        Map::empty()
    } else {
        match s.last().1 {
            Option::Some(v) => scope_map(s.drop_last()).insert(s.last().0, v),
            Option::None => scope_map(s.drop_last()).remove(s.last().0),
        }
    }
}

/// A stack of name bindings with save/restore scoping.
pub struct Scope<V> {
    entries: Vec<(String, Option<V>)>,
}

impl<V: View> View for Scope<V> {
    type V = Seq<(Seq<char>, Option<V::V>)>;

    closed spec fn view(&self) -> Seq<(Seq<char>, Option<V::V>)> {
        self.entries@.map(|i: int, p: (String, Option<V>)| entry_view(p))
    }
}

impl<V: View> Scope<V> {
    /// The map the scope currently denotes.
    pub open spec fn as_map(&self) -> Map<Seq<char>, V::V> {
        scope_map(self@)
    }

    /// An empty scope: no name is bound.
    pub fn new() -> (r: Self)
        ensures
            r@ == Seq::<(Seq<char>, Option<V::V>)>::empty(),
    {
        let r = Scope { entries: Vec::new() };
        proof {
            assert(r@ =~= Seq::<(Seq<char>, Option<V::V>)>::empty());
        }
        r
    }

    /// Bind `key` to `val`, shadowing any outer binding until the matching
    /// [`Self::pop`].
    pub fn push(&mut self, key: String, val: V)
        ensures
            final(self)@ == old(self)@.push((key@, Option::Some(val@))),
    {
        let ghost k = key@;
        let ghost v = val@;
        self.entries.push((key, Option::Some(val)));
        proof {
            assert(final(self)@ =~= old(self)@.push((k, Option::Some(v))));
        }
    }

    /// Mask `key`: until the matching [`Self::pop`], the name reads as
    /// unbound even if an outer scope binds it.
    pub fn mask(&mut self, key: String)
        ensures
            final(self)@ == old(self)@.push((key@, Option::None)),
    {
        let ghost k = key@;
        self.entries.push((key, Option::None));
        proof {
            assert(final(self)@ =~= old(self)@.push((k, Option::None)));
        }
    }

    /// Leave the innermost scope, restoring what the name meant outside it.
    pub fn pop(&mut self)
        requires
            old(self)@.len() > 0,
        ensures
            final(self)@ == old(self)@.drop_last(),
    {
        self.entries.pop();
        proof {
            assert(final(self)@ =~= old(self)@.drop_last());
        }
    }

    /// Look the name up among the first `j` entries, newest first.
    fn get_prefix(&self, j: usize, key: &String) -> (r: Option<&V>)
        requires
            j <= self@.len(),
        ensures
            scope_map(self@.take(j as int)).contains_key(key@) ==> (r matches Some(v) && v@
                == scope_map(self@.take(j as int))[key@]),
            !scope_map(self@.take(j as int)).contains_key(key@) ==> r is None,
        decreases j,
    {
        if j == 0 {
            proof {
                assert(self@.take(0) =~= Seq::<(Seq<char>, Option<V::V>)>::empty());
            }
            None
        } else {
            let entry = &self.entries[j - 1];
            proof {
                assert(self@.take(j as int).drop_last() =~= self@.take(j as int - 1));
                assert(self@.take(j as int).last() == entry_view(self.entries@[j as int - 1]));
            }
            if entry.0 == *key {
                match &entry.1 {
                    Some(v) => Some(v),
                    None => None,
                }
            } else {
                self.get_prefix(j - 1, key)
            }
        }
    }

    /// The value the innermost live binding of `key` carries, if the scope
    /// binds the name at all.
    pub fn get(&self, key: &String) -> (r: Option<&V>)
        ensures
            self.as_map().contains_key(key@) ==> (r matches Some(v) && v@ == self.as_map().index(
                key@,
            )),
            !self.as_map().contains_key(key@) ==> r is None,
    {
        let n = self.entries.len();
        proof {
            assert(self@.take(n as int) =~= self@);
        }
        self.get_prefix(n, key)
    }
}

} // verus!
