//! Name-to-value scopes: function-local variables and captured closures.
//!
//! A scope is an association list with unique keys.  Its model is the
//! sequence of (name, value-model) pairs; lookups are specified by
//! [`assoc_find`], the first entry with a matching name.

use vstd::prelude::*;

verus! {

use crate::values::{Value, ValueModel};

/// A binding scope mapping variable names to runtime values.
#[derive(Debug, PartialEq)]
pub struct Scope {
    entries: Vec<(String, Value)>,
}

/// The models of a sequence of scope entries, element by element.
pub open spec fn entry_models_of(s: Seq<(String, Value)>) -> Seq<(Seq<char>, ValueModel)>
    decreases s,
{
    if s.len() == 0 {
        Seq::empty()
    } else {
        entry_models_of(s.drop_last()).push((s.last().0@, s.last().1.model()))
    }
}

/// `entry_models_of` maps each entry to its model.
pub proof fn lemma_entry_models_of(s: Seq<(String, Value)>)
    ensures
        entry_models_of(s).len() == s.len(),
        forall|i: int| 0 <= i < s.len() ==> #[trigger] entry_models_of(s)[i] == (
        s[i].0@,
        s[i].1.model(),
        ),
    decreases s,
{
    if s.len() > 0 {
        lemma_entry_models_of(s.drop_last());
        assert forall|i: int| 0 <= i < s.len() implies #[trigger] entry_models_of(s)[i] == (
        s[i].0@,
        s[i].1.model(),
        ) by {
            if i < s.len() - 1 {
                assert(s.drop_last()[i] == s[i]);
            } else {
                assert(s[i] == s.last());
            }
        }
    }
}

/// Whether the names of an association sequence are unique.
pub open spec fn assoc_unique(s: Seq<(Seq<char>, ValueModel)>) -> bool {
    forall|i: int, j: int| 0 <= i < j < s.len() ==> (#[trigger] s[i]).0 != (#[trigger] s[j]).0
}

/// The first value bound to `k` in an association sequence, if any.
pub open spec fn assoc_find(s: Seq<(Seq<char>, ValueModel)>, k: Seq<char>) -> Option<ValueModel>
    decreases s,
{
    if s.len() == 0 {
        None
    } else if s[0].0 == k {
        Some(s[0].1)
    } else {
        assoc_find(s.drop_first(), k)
    }
}

/// A found value is one of the sequence's entries.
pub proof fn lemma_assoc_find_some(s: Seq<(Seq<char>, ValueModel)>, k: Seq<char>)
    ensures
        assoc_find(s, k) matches Some(v) ==> exists|i: int|
            0 <= i < s.len() && #[trigger] s[i] == (k, v),
    decreases s,
{
    if s.len() > 0 {
        if s[0].0 == k {
            match assoc_find(s, k) {
                Some(v) => {
                    assert(s[0] == (k, v));
                },
                None => {},
            }
        } else {
            lemma_assoc_find_some(s.drop_first(), k);
            match assoc_find(s, k) {
                Some(v) => {
                    let j = choose|j: int|
                        0 <= j < s.drop_first().len() && #[trigger] s.drop_first()[j] == (k, v);
                    assert(s[j + 1] == (k, v));
                },
                None => {},
            }
        }
    }
}

/// With unique names, every entry is found under its own name.
pub proof fn lemma_assoc_unique_find(s: Seq<(Seq<char>, ValueModel)>)
    requires
        assoc_unique(s),
    ensures
        forall|i: int|
            0 <= i < s.len() ==> assoc_find(s, (#[trigger] s[i]).0) == Some(s[i].1),
    decreases s,
{
    if s.len() > 0 {
        assert forall|i: int, j: int|
            0 <= i < j < s.drop_first().len() implies (#[trigger] s.drop_first()[i]).0 != (
        #[trigger] s.drop_first()[j]).0 by {
            assert(s.drop_first()[i] == s[i + 1]);
            assert(s.drop_first()[j] == s[j + 1]);
        }
        lemma_assoc_unique_find(s.drop_first());
        assert forall|i: int| 0 <= i < s.len() implies assoc_find(s, (#[trigger] s[i]).0) == Some(
            s[i].1,
        ) by {
            if i > 0 {
                assert(s[0].0 != s[i].0);
                assert(s.drop_first()[i - 1] == s[i]);
            }
        }
    }
}

/// If no entry of `s` is named `k`, lookup finds nothing.
pub proof fn lemma_assoc_find_absent(s: Seq<(Seq<char>, ValueModel)>, k: Seq<char>)
    requires
        forall|j: int| 0 <= j < s.len() ==> (#[trigger] s[j]).0 != k,
    ensures
        assoc_find(s, k) is None,
    decreases s,
{
    if s.len() > 0 {
        assert forall|j: int| 0 <= j < s.drop_first().len() implies (#[trigger] s.drop_first()[j]).0
            != k by {
            assert(s.drop_first()[j] == s[j + 1]);
        }
        lemma_assoc_find_absent(s.drop_first(), k);
    }
}

/// Replacing the first entry named `key` changes only that name's lookup.
proof fn lemma_assoc_find_update(s: Seq<(Seq<char>, ValueModel)>, i: int, v: ValueModel)
    requires
        0 <= i < s.len(),
        forall|j: int| 0 <= j < i ==> (#[trigger] s[j]).0 != s[i].0,
    ensures
        assoc_find(s.update(i, (s[i].0, v)), s[i].0) == Some(v),
        forall|k: Seq<char>|
            k != s[i].0 ==> assoc_find(s.update(i, (s[i].0, v)), k) == assoc_find(s, k),
    decreases s,
{
    let t = s.update(i, (s[i].0, v));
    assert(t.len() == s.len());
    if i == 0 {
        assert(t[0] == (s[0].0, v));
        assert(t.drop_first() =~= s.drop_first());
        assert forall|k: Seq<char>| k != s[i].0 implies assoc_find(t, k) == assoc_find(
            s,
            k,
        ) by {
            assert(assoc_find(t, k) == assoc_find(t.drop_first(), k));
            assert(assoc_find(s, k) == assoc_find(s.drop_first(), k));
        }
    } else {
        assert(t[0] == s[0]);
        assert(t.drop_first() =~= s.drop_first().update(i - 1, (s.drop_first()[i - 1].0, v)));
        assert forall|j: int| 0 <= j < i - 1 implies (#[trigger] s.drop_first()[j]).0
            != s.drop_first()[i - 1].0 by {
            assert(s.drop_first()[j] == s[j + 1]);
        }
        lemma_assoc_find_update(s.drop_first(), i - 1, v);
        assert(s.drop_first()[i - 1] == s[i]);
        assert forall|k: Seq<char>| k != s[i].0 implies assoc_find(t, k) == assoc_find(
            s,
            k,
        ) by {
            if s[0].0 != k {
                assert(assoc_find(t, k) == assoc_find(t.drop_first(), k));
                assert(assoc_find(s, k) == assoc_find(s.drop_first(), k));
            }
        }
    }
}

/// Appending an entry under a fresh name changes only that name's lookup.
proof fn lemma_assoc_find_push(s: Seq<(Seq<char>, ValueModel)>, k: Seq<char>, v: ValueModel)
    requires
        assoc_find(s, k) is None,
    ensures
        assoc_find(s.push((k, v)), k) == Some(v),
        forall|k2: Seq<char>| k2 != k ==> assoc_find(s.push((k, v)), k2) == assoc_find(s, k2),
    decreases s,
{
    let t = s.push((k, v));
    if s.len() == 0 {
        assert(t[0] == (k, v));
        assert(t.drop_first() =~= Seq::<(Seq<char>, ValueModel)>::empty());
        assert forall|k2: Seq<char>| k2 != k implies assoc_find(t, k2) == assoc_find(
            s,
            k2,
        ) by {
            assert(assoc_find(t, k2) == assoc_find(t.drop_first(), k2));
        }
    } else {
        assert(t[0] == s[0]);
        assert(s[0].0 != k);
        assert(t.drop_first() =~= s.drop_first().push((k, v)));
        lemma_assoc_find_push(s.drop_first(), k, v);
        assert forall|k2: Seq<char>| k2 != k implies assoc_find(t, k2) == assoc_find(
            s,
            k2,
        ) by {
            if s[0].0 != k2 {
                assert(assoc_find(t, k2) == assoc_find(t.drop_first(), k2));
                assert(assoc_find(s, k2) == assoc_find(s.drop_first(), k2));
            }
        }
    }
}

impl Scope {
    /// Well-formedness: entry names are unique.
    pub open spec fn wf(&self) -> bool {
        assoc_unique(self@)
    }

    /// An empty scope.
    pub fn new() -> (r: Scope)
        ensures
            r@ == Seq::<(Seq<char>, ValueModel)>::empty(),
            r.wf(),
    {
        let r = Scope { entries: Vec::new() };
        proof {
            lemma_entry_models_of(r.entries@);
            assert(r@ =~= Seq::<(Seq<char>, ValueModel)>::empty());
        }
        r
    }

    /// The value bound to `name`, if any.
    pub fn get(&self, name: &String) -> (r: Option<&Value>)
        ensures
            match r {
                Some(v) => assoc_find(self@, name@) == Some(v.model()),
                None => assoc_find(self@, name@) is None,
            },
    {
        let n = self.entries.len();
        proof {
            lemma_entry_models_of(self.entries@);
            assert(self@.skip(0) =~= self@);
        }
        let mut i: usize = 0;
        while i < n
            invariant
                n == self.entries@.len(),
                i <= n,
                assoc_find(self@, name@) == assoc_find(self@.skip(i as int), name@),
                self@.len() == n,
            decreases n - i,
        {
            proof {
                lemma_entry_models_of(self.entries@);
                let entry = self.entries@[i as int];
                assert(self@[i as int] == (entry.0@, entry.1.model()));
                assert(self@.skip(i as int)[0] == self@[i as int]);
            }
            if self.entries[i].0 == *name {
                return Some(&self.entries[i].1);
            }
            proof {
                assert(self@.skip(i as int).drop_first() =~= self@.skip(i as int + 1));
            }
            i += 1;
        }
        proof {
            assert(self@.skip(n as int) =~= Seq::<(Seq<char>, ValueModel)>::empty());
        }
        None
    }
}

impl Scope {
    /// Binds `name` to `value`: replaces the existing entry of that name,
    /// or appends a new one.
    pub fn insert(&mut self, name: String, value: Value)
        requires
            old(self).wf(),
        ensures
            final(self).wf(),
            assoc_find(final(self)@, name@) == Some(value@),
            forall|k: Seq<char>|
                k != name@ ==> assoc_find(final(self)@, k) == assoc_find(old(self)@, k),
    {
        let n = self.entries.len();
        proof {
            lemma_entry_models_of(self.entries@);
        }
        let mut i: usize = 0;
        while i < n
            invariant
                *self == *old(self),
                old(self).wf(),
                n == self.entries@.len(),
                self@.len() == n,
                i <= n,
                forall|j: int| 0 <= j < i ==> (#[trigger] self@[j]).0 != name@,
            decreases n - i,
        {
            proof {
                lemma_entry_models_of(self.entries@);
                let entry = self.entries@[i as int];
                assert(self@[i as int] == (entry.0@, entry.1.model()));
            }
            if self.entries[i].0 == name {
                let ghost old_model = self@;
                let ghost vm = value@;
                self.entries.set(i, (name, value));
                proof {
                    lemma_entry_models_of(old(self).entries@);
                    lemma_entry_models_of(self.entries@);
                    assert forall|l: int| 0 <= l < n implies self@[l] == old_model.update(
                        i as int,
                        (old_model[i as int].0, vm),
                    )[l] by {
                        let e_new = self.entries@[l];
                        let e_old = old(self).entries@[l];
                        assert(self@[l] == (e_new.0@, e_new.1.model()));
                        assert(old_model[l] == (e_old.0@, e_old.1.model()));
                    }
                    assert(self@ =~= old_model.update(i as int, (old_model[i as int].0, vm)));
                    lemma_assoc_find_update(old_model, i as int, vm);
                }
                return ;
            }
            i += 1;
        }
        let ghost old_model = self@;
        let ghost vm = value@;
        proof {
            lemma_assoc_find_absent(old_model, name@);
            lemma_entry_models_of(self.entries@);
        }
        self.entries.push((name, value));
        proof {
            lemma_entry_models_of(old(self).entries@);
            lemma_entry_models_of(self.entries@);
            assert forall|l: int| 0 <= l < n + 1 implies self@[l] == old_model.push(
                (name@, vm),
            )[l] by {
                let e_new = self.entries@[l];
                assert(self@[l] == (e_new.0@, e_new.1.model()));
                if l < n {
                    let e_old = old(self).entries@[l];
                    assert(old_model[l] == (e_old.0@, e_old.1.model()));
                }
            }
            assert(self@ =~= old_model.push((name@, vm)));
            lemma_assoc_find_push(old_model, name@, vm);
        }
    }
}

impl Scope {
    /// A deep structural copy with the same model.
    pub(crate) fn dup(&self) -> (r: Scope)
        ensures
            r@ == self@,
        decreases *self,
    {
        let mut out: Vec<(String, Value)> = Vec::new();
        let n = self.entries.len();
        let mut i: usize = 0;
        while i < n
            invariant
                n == self.entries@.len(),
                out@.len() == i <= n,
                forall|j: int|
                    0 <= j < i ==> (#[trigger] out@[j]).0@ == self.entries@[j].0@ && out@[j].1.model()
                        == self.entries@[j].1.model(),
            decreases n - i,
        {
            let name = self.entries[i].0.clone();
            let value = self.entries[i].1.dup();
            out.push((name, value));
            i += 1;
        }
        let r = Scope { entries: out };
        proof {
            lemma_entry_models_of(out@);
            lemma_entry_models_of(self.entries@);
            assert forall|j: int| 0 <= j < n implies entry_models_of(out@)[j] == entry_models_of(
                self.entries@,
            )[j] by {
                assert(entry_models_of(out@)[j] == (out@[j].0@, out@[j].1.model()));
                assert(entry_models_of(self.entries@)[j] == (
                    self.entries@[j].0@,
                    self.entries@[j].1.model(),
                ));
            }
            assert(r@ =~= self@);
        }
        r
    }
}

impl View for Scope {
    type V = Seq<(Seq<char>, ValueModel)>;

    /// The model of this scope: its entries as (name, value) models.
    closed spec fn view(&self) -> Seq<(Seq<char>, ValueModel)>
        decreases self,
    {
        entry_models_of(self.entries@)
    }
}

} // verus!
