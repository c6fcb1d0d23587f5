//! Identifier-keyed registries: owned stores of effects, settings and
//! connections, passed explicitly into the scheduler.  Keys are the
//! stable integer identifiers chosen at setup time.

use vstd::prelude::*;

verus! {

/// An owned registry keyed by integer identifier.  Keys are unique.
pub struct Registry<T> {
    pub entries: Vec<(i32, T)>,
}

impl<T> Registry<T> {
    /// No identifier occurs twice.
    pub open spec fn wf(&self) -> bool {
        forall|i: int, j: int|
            0 <= i < j < self.entries@.len() ==> (#[trigger] self.entries@[i]).0 != (
            #[trigger] self.entries@[j]).0
    }

    /// Whether some entry carries identifier `k`.
    pub open spec fn contains_key(&self, k: i32) -> bool {
        exists|i: int| 0 <= i < self.entries@.len() && (#[trigger] self.entries@[i]).0 == k
    }

    /// Whether identifier `k` maps to exactly the value `v`.
    pub open spec fn has_pair(&self, k: i32, v: T) -> bool {
        exists|i: int| 0 <= i < self.entries@.len() && #[trigger] self.entries@[i] == (k, v)
    }

    /// The value bound to `k`, as a spec-level lookup (the latest entry
    /// carrying `k`; with unique keys, the only one).
    pub open spec fn spec_get(&self, k: i32) -> Option<T> {
        seq_find(self.entries@, k)
    }

    /// An empty registry.
    pub fn new() -> (r: Self)
        ensures
            r.wf(),
            forall|k: i32| !r.contains_key(k),
            r.entries@.len() == 0,
    {
        Registry { entries: Vec::new() }
    }

    /// Looks an identifier up.
    pub fn get(&self, k: i32) -> (r: Option<&T>)
        ensures
            r is Some <==> self.contains_key(k),
            r matches Some(v) ==> self.has_pair(k, *v),
    {
        let mut i: usize = 0;
        while i < self.entries.len()
            invariant
                i <= self.entries@.len(),
                forall|j: int| 0 <= j < i ==> (#[trigger] self.entries@[j]).0 != k,
            decreases self.entries@.len() - i,
        {
            if self.entries[i].0 == k {
                return Some(&self.entries[i].1);
            }
            i = i + 1;
        }
        None
    }

    /// Removes the entry carrying `k`, handing its value out; the other
    /// entries keep their pairings.
    pub fn take(&mut self, k: i32) -> (r: Option<T>)
        requires
            old(self).wf(),
        ensures
            final(self).wf(),
            r is Some <==> old(self).contains_key(k),
            r matches Some(v) ==> old(self).has_pair(k, v),
            !final(self).contains_key(k),
            forall|k2: i32, v2: T|
                k2 != k ==> (final(self).has_pair(k2, v2) <==> old(self).has_pair(k2, v2)),
            forall|k2: i32|
                k2 != k ==> (final(self).contains_key(k2) <==> old(self).contains_key(k2)),
            r is None ==> final(self).entries@ == old(self).entries@,
    {
        let ghost olds = self.entries@;
        let mut i: usize = 0;
        while i < self.entries.len()
            invariant
                i <= self.entries@.len(),
                self.entries@ == olds,
                olds == old(self).entries@,
                old(self).wf(),
                forall|j: int| 0 <= j < i ==> (#[trigger] olds[j]).0 != k,
            decreases self.entries@.len() - i,
        {
            if self.entries[i].0 == k {
                let (_, v) = self.entries.remove(i);
                proof {
                    assert(olds[i as int].0 == k);
                    assert(old(self).contains_key(k));
                    assert(olds[i as int] == (k, v));
                    assert(old(self).has_pair(k, v));
                    lemma_remove_wf(olds, i as int, k);
                    assert forall|k2: i32, v2: T| k2 != k implies (self.has_pair(k2, v2)
                        <==> old(self).has_pair(k2, v2)) by {
                        lemma_remove_pair(olds, i as int, k, k2, v2);
                    }
                    assert forall|k2: i32| k2 != k implies (self.contains_key(k2) <==> old(
                        self,
                    ).contains_key(k2)) by {
                        lemma_remove_key(olds, i as int, k, k2);
                    }
                }
                return Some(v);
            }
            i = i + 1;
        }
        None
    }

    /// Removes the entry carrying `k`, if any.
    pub fn remove(&mut self, k: i32)
        requires
            old(self).wf(),
        ensures
            final(self).wf(),
            !final(self).contains_key(k),
            forall|k2: i32, v2: T|
                k2 != k ==> (final(self).has_pair(k2, v2) <==> old(self).has_pair(k2, v2)),
            forall|k2: i32|
                k2 != k ==> (final(self).contains_key(k2) <==> old(self).contains_key(k2)),
    {
        let _ = self.take(k);
    }

    /// Binds `k` to `v`, replacing whatever `k` was bound to before.
    pub fn insert(&mut self, k: i32, v: T)
        requires
            old(self).wf(),
        ensures
            final(self).wf(),
            final(self).contains_key(k),
            final(self).has_pair(k, v),
            forall|v2: T| final(self).has_pair(k, v2) ==> v2 == v,
            forall|k2: i32, v2: T|
                k2 != k ==> (final(self).has_pair(k2, v2) <==> old(self).has_pair(k2, v2)),
            forall|k2: i32|
                k2 != k ==> (final(self).contains_key(k2) <==> old(self).contains_key(k2)),
    {
        self.remove(k);
        let ghost pre = self.entries@;
        let ghost nokey = !(exists|i: int|
            0 <= i < pre.len() && (#[trigger] pre[i]).0 == k);
        self.entries.push((k, v));
        proof {
            assert(self.entries@ == pre.push((k, v)));
            assert(nokey);
            assert forall|i: int, j: int|
                0 <= i < j < self.entries@.len() implies (#[trigger] self.entries@[i]).0 != (
            #[trigger] self.entries@[j]).0 by {
                assert(self.entries@[i] == pre[i]);
                if j == pre.len() {
                    assert(self.entries@[j] == (k, v));
                    assert(pre[i].0 != k);
                } else {
                    assert(self.entries@[j] == pre[j]);
                }
            }
            assert forall|k2: i32, v2: T| k2 != k implies (self.has_pair(k2, v2) <==> exists|i: int|
                0 <= i < pre.len() && #[trigger] pre[i] == (k2, v2)) by {
                if exists|i: int| 0 <= i < pre.len() && #[trigger] pre[i] == (k2, v2) {
                    let i = choose|i: int| 0 <= i < pre.len() && #[trigger] pre[i] == (k2, v2);
                    assert(self.entries@[i] == (k2, v2));
                }
                if self.has_pair(k2, v2) {
                    let i = choose|i: int|
                        0 <= i < self.entries@.len() && #[trigger] self.entries@[i] == (k2, v2);
                    assert(i < pre.len());
                    assert(pre[i] == (k2, v2));
                }
            }
            assert forall|k2: i32| k2 != k implies (self.contains_key(k2) <==> exists|i: int|
                0 <= i < pre.len() && (#[trigger] pre[i]).0 == k2) by {
                if exists|i: int| 0 <= i < pre.len() && (#[trigger] pre[i]).0 == k2 {
                    let i = choose|i: int| 0 <= i < pre.len() && (#[trigger] pre[i]).0 == k2;
                    assert(self.entries@[i].0 == k2);
                }
                if self.contains_key(k2) {
                    let i = choose|i: int|
                        0 <= i < self.entries@.len() && (#[trigger] self.entries@[i]).0 == k2;
                    assert(i < pre.len());
                    assert(pre[i].0 == k2);
                }
            }
            assert forall|v2: T| self.has_pair(k, v2) implies v2 == v by {
                let i = choose|i: int|
                    0 <= i < self.entries@.len() && #[trigger] self.entries@[i] == (k, v2);
                if i < pre.len() {
                    assert(pre[i].0 == k);
                }
            }
            assert(self.entries@[self.entries@.len() - 1] == (k, v));
        }
    }

    /// How many bindings the registry holds.
    pub fn len(&self) -> (n: usize)
        ensures
            n == self.entries@.len(),
    {
        self.entries.len()
    }

    /// Every bound identifier, in entry order.
    pub fn keys(&self) -> (ks: Vec<i32>)
        ensures
            ks@.len() == self.entries@.len(),
            forall|i: int| 0 <= i < ks@.len() ==> ks@[i] == (#[trigger] self.entries@[i]).0,
    {
        let mut ks: Vec<i32> = Vec::new();
        let mut i: usize = 0;
        while i < self.entries.len()
            invariant
                i <= self.entries@.len(),
                ks@.len() == i,
                forall|j: int| 0 <= j < i ==> ks@[j] == (#[trigger] self.entries@[j]).0,
            decreases self.entries@.len() - i,
        {
            ks.push(self.entries[i].0);
            i = i + 1;
        }
        ks
    }
}

/// Removing the entry at `at` keeps the remaining keys unique and leaves
/// the removed key unbound.
proof fn lemma_remove_wf<T>(s: Seq<(i32, T)>, at: int, k: i32)
    requires
        0 <= at < s.len(),
        s[at].0 == k,
        forall|i: int, j: int| 0 <= i < j < s.len() ==> (#[trigger] s[i]).0 != (#[trigger] s[j]).0,
    ensures
        forall|i: int, j: int|
            0 <= i < j < s.remove(at).len() ==> (#[trigger] s.remove(at)[i]).0 != (
            #[trigger] s.remove(at)[j]).0,
        !(exists|i: int| 0 <= i < s.remove(at).len() && (#[trigger] s.remove(at)[i]).0 == k),
{
    let t = s.remove(at);
    assert forall|i: int| 0 <= i < t.len() implies (#[trigger] t[i]).0 != k by {
        if i < at {
            assert(t[i] == s[i]);
        } else {
            assert(t[i] == s[i + 1]);
        }
    }
}

/// Removing the entry of one key neither adds nor drops the pairings of
/// any other key.
proof fn lemma_remove_pair<T>(s: Seq<(i32, T)>, at: int, k: i32, k2: i32, v2: T)
    requires
        0 <= at < s.len(),
        s[at].0 == k,
        k2 != k,
    ensures
        (exists|i: int| 0 <= i < s.remove(at).len() && #[trigger] s.remove(at)[i] == (k2, v2))
            <==> (exists|i: int| 0 <= i < s.len() && #[trigger] s[i] == (k2, v2)),
{
    let t = s.remove(at);
    if exists|i: int| 0 <= i < t.len() && #[trigger] t[i] == (k2, v2) {
        let i = choose|i: int| 0 <= i < t.len() && #[trigger] t[i] == (k2, v2);
        if i < at {
            assert(s[i] == (k2, v2));
        } else {
            assert(s[i + 1] == (k2, v2));
        }
    }
    if exists|i: int| 0 <= i < s.len() && #[trigger] s[i] == (k2, v2) {
        let i = choose|i: int| 0 <= i < s.len() && #[trigger] s[i] == (k2, v2);
        if i < at {
            assert(t[i] == (k2, v2));
        } else {
            assert(i != at);
            assert(t[i - 1] == (k2, v2));
        }
    }
}

/// Removing the entry of one key leaves every other key bound or unbound
/// as it was.
proof fn lemma_remove_key<T>(s: Seq<(i32, T)>, at: int, k: i32, k2: i32)
    requires
        0 <= at < s.len(),
        s[at].0 == k,
        k2 != k,
    ensures
        (exists|i: int| 0 <= i < s.remove(at).len() && (#[trigger] s.remove(at)[i]).0 == k2) <==> (
        exists|i: int| 0 <= i < s.len() && (#[trigger] s[i]).0 == k2),
{
    let t = s.remove(at);
    if exists|i: int| 0 <= i < t.len() && (#[trigger] t[i]).0 == k2 {
        let i = choose|i: int| 0 <= i < t.len() && (#[trigger] t[i]).0 == k2;
        if i < at {
            assert(s[i].0 == k2);
        } else {
            assert(s[i + 1].0 == k2);
        }
    }
    if exists|i: int| 0 <= i < s.len() && (#[trigger] s[i]).0 == k2 {
        let i = choose|i: int| 0 <= i < s.len() && (#[trigger] s[i]).0 == k2;
        if i < at {
            assert(t[i].0 == k2);
        } else {
            assert(i != at);
            assert(t[i - 1].0 == k2);
        }
    }
}

/// The value of the latest entry carrying `k`, if any.
pub open spec fn seq_find<T>(s: Seq<(i32, T)>, k: i32) -> Option<T>
    decreases s.len(),
{
    if s.len() == 0 {
        None
    } else if s.last().0 == k {
        Some(s.last().1)
    } else {
        seq_find(s.drop_last(), k)
    }
}

/// With unique keys, the spec lookup agrees with `contains_key` and
/// `has_pair`: it finds the key's one value, or nothing.
pub proof fn lemma_spec_get_agrees<T>(r: Registry<T>, k: i32)
    requires
        r.wf(),
    ensures
        r.contains_key(k) <==> r.spec_get(k) is Some,
        forall|v: T| r.has_pair(k, v) ==> r.spec_get(k) == Some(v),
        r.spec_get(k) matches Some(v) ==> r.has_pair(k, v),
{
    lemma_seq_find_props(r.entries@, k);
}

/// The inductive core of `lemma_spec_get_agrees`, over the raw entry
/// sequence.
proof fn lemma_seq_find_props<T>(s: Seq<(i32, T)>, k: i32)
    requires
        forall|i: int, j: int| 0 <= i < j < s.len() ==> (#[trigger] s[i]).0 != (#[trigger] s[j]).0,
    ensures
        (seq_find(s, k) is Some) <==> exists|i: int|
            0 <= i < s.len() && (#[trigger] s[i]).0 == k,
        seq_find(s, k) matches Some(v) ==> exists|i: int|
            0 <= i < s.len() && #[trigger] s[i] == (k, v),
        forall|v: T|
            (exists|i: int| 0 <= i < s.len() && #[trigger] s[i] == (k, v)) ==> seq_find(s, k)
                == Some(v),
    decreases s.len(),
{
    if s.len() > 0 {
        let t = s.drop_last();
        assert forall|i: int, j: int|
            0 <= i < j < t.len() implies (#[trigger] t[i]).0 != (#[trigger] t[j]).0 by {
            assert(t[i] == s[i]);
            assert(t[j] == s[j]);
        }
        lemma_seq_find_props(t, k);
        let last = s.last();
        if last.0 == k {
            assert(s[s.len() - 1].0 == k);
            assert forall|v: T|
                (exists|i: int| 0 <= i < s.len() && #[trigger] s[i] == (k, v)) implies seq_find(
                s,
                k,
            ) == Some(v) by {
                let i = choose|i: int| 0 <= i < s.len() && #[trigger] s[i] == (k, v);
                if i < s.len() - 1 {
                    assert(s[i].0 != s[s.len() - 1].0);
                }
            }
        } else {
            assert(seq_find(s, k) == seq_find(t, k));
            assert forall|i: int|
                0 <= i < s.len() && (#[trigger] s[i]).0 == k implies exists|i2: int|
                0 <= i2 < t.len() && (#[trigger] t[i2]).0 == k by {
                assert(i != s.len() - 1);
                assert(t[i] == s[i]);
            }
            assert forall|i: int|
                0 <= i < t.len() && (#[trigger] t[i]).0 == k implies exists|i2: int|
                0 <= i2 < s.len() && (#[trigger] s[i2]).0 == k by {
                assert(s[i] == t[i]);
            }
            if seq_find(t, k) is Some {
                let v = seq_find(t, k)->Some_0;
                let i = choose|i: int| 0 <= i < t.len() && #[trigger] t[i] == (k, v);
                assert(s[i] == (k, v));
            }
            assert forall|v: T|
                (exists|i: int| 0 <= i < s.len() && #[trigger] s[i] == (k, v)) implies seq_find(
                s,
                k,
            ) == Some(v) by {
                let i = choose|i: int| 0 <= i < s.len() && #[trigger] s[i] == (k, v);
                assert(i != s.len() - 1);
                assert(t[i] == (k, v));
            }
        }
    }
}

} // verus!
