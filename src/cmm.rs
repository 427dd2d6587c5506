//! A map from a key to a list of values, with conditional insert,
//! predicate-based removal and per-key traversal.
use vstd::prelude::*;
use vstd::pervasive::VecAdditionalExecFns;

verus! {

/// The contents of a multimap: each key with its list, in the order the keys
/// first appeared.
pub type Entries<V> = Seq<(Seq<char>, Seq<V>)>;

/// No key appears twice.
pub open spec fn keys_distinct<V>(m: Entries<V>) -> bool {
    forall|i: int, j: int|
        0 <= i < m.len() && 0 <= j < m.len() && i != j ==> #[trigger] m[i].0 != #[trigger] m[j].0
}

/// Whether `k` has an entry.
pub open spec fn has_key<V>(m: Entries<V>, k: Seq<char>) -> bool {
    exists|i: int| 0 <= i < m.len() && #[trigger] m[i].0 == k
}

/// The position of `k`'s entry, or -1.
pub open spec fn key_index<V>(m: Entries<V>, k: Seq<char>) -> int {
    if has_key(m, k) {
        choose|i: int| 0 <= i < m.len() && #[trigger] m[i].0 == k
    } else {
        -1
    }
}

/// The list held under `k`; empty where `k` has no entry.
pub open spec fn values_of<V>(m: Entries<V>, k: Seq<char>) -> Seq<V> {
    if has_key(m, k) {
        m[key_index(m, k)].1
    } else {
        Seq::empty()
    }
}

/// `m` with `k`'s list replaced by `vs`; unchanged where `k` has no entry.
pub open spec fn with_values<V>(m: Entries<V>, k: Seq<char>, vs: Seq<V>) -> Entries<V> {
    if has_key(m, k) {
        m.update(key_index(m, k), (k, vs))
    } else {
        m
    }
}

/// `m` with an entry for `k`, created empty at the end where it was missing.
pub open spec fn touched<V>(m: Entries<V>, k: Seq<char>) -> Entries<V> {
    if has_key(m, k) {
        m
    } else {
        m.push((k, Seq::empty()))
    }
}

/// The elements of `s` whose flag in `keep` is set, in their order.
pub open spec fn selected<V>(s: Seq<V>, keep: Seq<bool>) -> Seq<V>
    decreases s.len(),
{
    if s.len() == 0 {
        Seq::empty()
    } else {
        let pre = selected(s.drop_last(), keep);
        if keep[s.len() - 1] {
            pre.push(s.last())
        } else {
            pre
        }
    }
}

/// With distinct keys, the entry found at `i` is the one `key_index` names.
pub proof fn lemma_key_index<V>(m: Entries<V>, i: int)
    requires
        keys_distinct(m),
        0 <= i < m.len(),
    ensures
        has_key(m, m[i].0),
        key_index(m, m[i].0) == i,
        values_of(m, m[i].0) == m[i].1,
{
    assert(has_key(m, m[i].0));
}

/// Creating an entry keeps the keys distinct and the lists as they were.
pub proof fn lemma_touched<V>(m: Entries<V>, k: Seq<char>)
    requires
        keys_distinct(m),
    ensures
        keys_distinct(touched(m, k)),
        has_key(touched(m, k), k),
        values_of(touched(m, k), k) == values_of(m, k),
        forall|k2: Seq<char>| k2 != k ==> values_of(#[trigger] touched(m, k), k2) == values_of(m, k2),
{
    if !has_key(m, k) {
        let t = m.push((k, Seq::empty()));
        lemma_key_index(t, m.len() as int);
        assert forall|k2: Seq<char>| k2 != k implies values_of(t, k2) == values_of(m, k2) by {
            if has_key(m, k2) {
                let i = key_index(m, k2);
                lemma_key_index(m, i);
                lemma_key_index(t, i);
            } else {
                assert(!has_key(t, k2)) by {
                    if has_key(t, k2) {
                        let j = choose|j: int| 0 <= j < t.len() && #[trigger] t[j].0 == k2;
                        assert(j < m.len());
                        assert(m[j].0 == k2);
                    }
                }
            }
        }
    }
}

/// Replacing one list keeps the keys distinct and leaves the other lists alone.
pub proof fn lemma_with_values<V>(m: Entries<V>, k: Seq<char>, vs: Seq<V>)
    requires
        keys_distinct(m),
        has_key(m, k),
    ensures
        keys_distinct(with_values(m, k, vs)),
        has_key(with_values(m, k, vs), k),
        key_index(with_values(m, k, vs), k) == key_index(m, k),
        values_of(with_values(m, k, vs), k) == vs,
        with_values(m, k, vs).len() == m.len(),
        forall|i: int| 0 <= i < m.len() ==> (#[trigger] with_values(m, k, vs)[i]).0 == m[i].0,
        forall|i: int|
            0 <= i < m.len() && i != key_index(m, k) ==> #[trigger] with_values(m, k, vs)[i]
                == m[i],
        forall|k2: Seq<char>|
            k2 != k ==> values_of(#[trigger] with_values(m, k, vs), k2) == values_of(m, k2),
{
    let i = key_index(m, k);
    lemma_key_index(m, i);
    let w = with_values(m, k, vs);
    assert forall|a: int, b: int| 0 <= a < w.len() && 0 <= b < w.len() && a != b implies w[a].0
        != w[b].0 by {
        assert(w[a].0 == m[a].0);
        assert(w[b].0 == m[b].0);
    }
    lemma_key_index(w, i);
    assert forall|k2: Seq<char>| k2 != k implies values_of(#[trigger] with_values(m, k, vs), k2)
        == values_of(m, k2) by {
        if has_key(m, k2) {
            let j = key_index(m, k2);
            lemma_key_index(m, j);
            lemma_key_index(w, j);
        } else {
            assert(!has_key(w, k2)) by {
                if has_key(w, k2) {
                    let j = choose|j: int| 0 <= j < w.len() && #[trigger] w[j].0 == k2;
                    assert(m[j].0 == k2);
                }
            }
        }
    }
}

/// What holds of every flagged element holds of every selected one.
pub proof fn lemma_selected_all<V>(s: Seq<V>, keep: Seq<bool>, p: spec_fn(V) -> bool)
    requires
        forall|i: int| 0 <= i < s.len() && keep[i] ==> p(#[trigger] s[i]),
    ensures
        selected(s, keep).len() <= s.len(),
        forall|a: int| 0 <= a < selected(s, keep).len() ==> p(#[trigger] selected(s, keep)[a]),
    decreases s.len(),
{
    if s.len() > 0 {
        let d = s.drop_last();
        assert forall|i: int| 0 <= i < d.len() && keep[i] implies p(#[trigger] d[i]) by {
            assert(d[i] == s[i]);
        }
        lemma_selected_all(d, keep, p);
        let pre = selected(d, keep);
        let sel = selected(s, keep);
        assert forall|a: int| 0 <= a < sel.len() implies p(#[trigger] sel[a]) by {
            if a < pre.len() {
                assert(sel[a] == pre[a]);
            } else {
                assert(keep[s.len() - 1]);
                assert(sel[a] == s[s.len() - 1]);
            }
        }
    }
}

/// Flags that agree on the first `s.len()` positions select the same elements.
proof fn lemma_selected_agree<V>(s: Seq<V>, k1: Seq<bool>, k2: Seq<bool>)
    requires
        forall|j: int| 0 <= j < s.len() ==> k1[j] == k2[j],
    ensures
        selected(s, k1) == selected(s, k2),
    decreases s.len(),
{
    if s.len() > 0 {
        lemma_selected_agree(s.drop_last(), k1, k2);
    }
}

/// Deciding one more element extends the selection of the prefix.
proof fn lemma_selected_step<V>(s: Seq<V>, keep: Seq<bool>, b: bool)
    requires
        keep.len() < s.len(),
    ensures
        selected(s.subrange(0, keep.len() + 1 as int), keep.push(b)) == if b {
            selected(s.subrange(0, keep.len() as int), keep).push(s[keep.len() as int])
        } else {
            selected(s.subrange(0, keep.len() as int), keep)
        },
{
    let m = keep.len() as int;
    let t = s.subrange(0, m + 1);
    assert(t.drop_last() =~= s.subrange(0, m));
    lemma_selected_agree(s.subrange(0, m), keep, keep.push(b));
}

/// A map from a channel-like key to a list of values.
pub struct ConcurrentMultiMap<V> {
    entries: Vec<(String, Vec<V>)>,
}

impl<V> View for ConcurrentMultiMap<V> {
    type V = Entries<V>;

    closed spec fn view(&self) -> Entries<V> {
        self.entries@.map_values(|e: (String, Vec<V>)| (e.0@, e.1@))
    }
}

impl<V> ConcurrentMultiMap<V> {
    /// Whether the map's keys are pairwise distinct.
    pub open spec fn wf(&self) -> bool {
        keys_distinct(self@)
    }

    /// An empty map.
    pub fn new() -> (r: ConcurrentMultiMap<V>)
        ensures
            r@ == Seq::<(Seq<char>, Seq<V>)>::empty(),
            r.wf(),
    {
        let r = ConcurrentMultiMap { entries: Vec::new() };
        assert(r@ =~= Seq::<(Seq<char>, Seq<V>)>::empty());
        r
    }

    /// The position of `k`'s entry.
    fn find(&self, k: &String) -> (r: Option<usize>)
        requires
            self.wf(),
        ensures
            r matches Some(i) ==> i < self@.len() && key_index(self@, k@) == i
                && has_key(self@, k@),
            r is None ==> !has_key(self@, k@),
    {
        let mut i: usize = 0;
        while i < self.entries.len()
            invariant
                i <= self.entries.len(),
                self@.len() == self.entries.len(),
                self.wf(),
                forall|j: int| 0 <= j < i ==> #[trigger] self@[j].0 != k@,
            decreases self.entries.len() - i,
        {
            if self.entries[i].0 == *k {
                proof {
                    lemma_key_index(self@, i as int);
                }
                return Some(i);
            }
            i = i + 1;
        }
        None
    }

    /// Makes sure `k` has an entry, and returns its position.
    fn touch(&mut self, k: &String) -> (r: usize)
        requires
            old(self).wf(),
        ensures
            final(self).wf(),
            final(self)@ == touched(old(self)@, k@),
            r < final(self)@.len(),
            has_key(final(self)@, k@),
            key_index(final(self)@, k@) == r,
            final(self)@[r as int].0 == k@,
            values_of(final(self)@, k@) == values_of(old(self)@, k@),
    {
        match self.find(k) {
            Some(i) => {
                proof {
                    lemma_key_index(self@, i as int);
                }
                i
            },
            None => {
                let ghost before = self@;
                self.entries.push((k.clone(), Vec::new()));
                assert(self@ =~= before.push((k@, Seq::empty())));
                let i = self.entries.len() - 1;
                proof {
                    lemma_key_index(self@, i as int);
                }
                i
            },
        }
    }

    /// Replaces the list at `i` with `list`, and hands back the old one.
    fn swap_list(&mut self, i: usize, list: Vec<V>) -> (r: Vec<V>)
        requires
            i < old(self)@.len(),
            old(self).wf(),
        ensures
            final(self).wf(),
            final(self)@ == old(self)@.update(i as int, (old(self)@[i as int].0, list@)),
            r@ == old(self)@[i as int].1,
    {
        let ghost before = self@;
        let mut e: (String, Vec<V>) = (String::new(), Vec::new());
        self.entries.set_and_swap(i, &mut e);
        let (key, old_list) = e;
        self.entries.set(i, (key, list));
        assert(self@ =~= before.update(i as int, (before[i as int].0, list@)));
        assert forall|a: int, b: int|
            0 <= a < self@.len() && 0 <= b < self@.len() && a != b implies self@[a].0
            != self@[b].0 by {
            assert(self@[a].0 == before[a].0);
            assert(self@[b].0 == before[b].0);
        }
        old_list
    }

    /// Appends `v` to `k`'s list unless an element `e` of it has `eq(e, v)`;
    /// `k`'s entry is created first where it is missing.
    pub fn append_if_absent(&mut self, k: &str, v: V, eq: impl Fn(&V, &V) -> bool)
        requires
            old(self).wf(),
            forall|a: &V, b: &V| eq.requires((a, b)),
        ensures
            final(self).wf(),
            ({
                let before = values_of(old(self)@, k@);
                ||| (final(self)@ == with_values(touched(old(self)@, k@), k@, before.push(v))
                    && forall|i: int|
                    0 <= i < before.len() ==> eq.ensures((&before[i], &v), false))
                ||| (final(self)@ == touched(old(self)@, k@) && exists|i: int|
                    0 <= i < before.len() && eq.ensures((&before[i], &v), true))
            }),
    {
        let key = k.to_owned();
        let ghost before = values_of(old(self)@, k@);
        let i = self.touch(&key);
        let ghost t = self@;
        proof {
            lemma_key_index(t, i as int);
        }
        let mut list = self.swap_list(i, Vec::new());
        assert(list@ == before);
        let mut found = false;
        let mut j: usize = 0;
        while j < list.len() && !found
            invariant
                j <= list.len(),
                list@ == before,
                forall|a: &V, b: &V| eq.requires((a, b)),
                !found ==> forall|jj: int| 0 <= jj < j ==> eq.ensures((&before[jj], &v), false),
                found ==> j < list.len() && eq.ensures((&before[j as int], &v), true),
            decreases (list.len() - j) * 2 + if found { 0int } else { 1int },
        {
            if eq(&list[j], &v) {
                found = true;
            } else {
                j = j + 1;
            }
        }
        if !found {
            list.push(v);
        }
        self.swap_list(i, list);
        if found {
            assert(self@ =~= t);
        }
    }

    /// Appends `v` to `k`'s list; `k`'s entry is created first where it is missing.
    pub fn append(&mut self, k: &str, v: V)
        requires
            old(self).wf(),
        ensures
            final(self).wf(),
            final(self)@ == with_values(
                touched(old(self)@, k@),
                k@,
                values_of(old(self)@, k@).push(v),
            ),
    {
        let key = k.to_owned();
        let i = self.touch(&key);
        proof {
            lemma_key_index(self@, i as int);
        }
        let mut list = self.swap_list(i, Vec::new());
        list.push(v);
        self.swap_list(i, list);
    }

    /// Calls `callback` once on each element of `k`'s list, in order, and
    /// returns what the calls returned.
    pub fn for_each<R>(&self, k: &str, callback: impl Fn(&V) -> R) -> (r: Vec<R>)
        requires
            self.wf(),
            forall|v: &V| callback.requires((v,)),
        ensures
            r@.len() == values_of(self@, k@).len(),
            forall|i: int|
                0 <= i < r@.len() ==> callback.ensures(
                    (&values_of(self@, k@)[i],),
                    #[trigger] r@[i],
                ),
    {
        let key = k.to_owned();
        let mut r: Vec<R> = Vec::new();
        match self.find(&key) {
            None => r,
            Some(i) => {
                proof {
                    lemma_key_index(self@, i as int);
                }
                let list = &self.entries[i].1;
                assert(list@ == values_of(self@, k@));
                let mut j: usize = 0;
                while j < list.len()
                    invariant
                        j <= list.len(),
                        list@ == values_of(self@, k@),
                        r@.len() == j,
                        forall|v: &V| callback.requires((v,)),
                        forall|jj: int|
                            0 <= jj < j ==> callback.ensures((&list@[jj],), #[trigger] r@[jj]),
                    decreases list.len() - j,
                {
                    r.push(callback(&list[j]));
                    j = j + 1;
                }
                r
            },
        }
    }

    /// Replaces each element `e` of `k`'s list by `callback(e)`, in order.
    pub fn for_each_mut(&mut self, k: &str, callback: impl Fn(V) -> V)
        requires
            old(self).wf(),
            forall|v: V| callback.requires((v,)),
        ensures
            final(self).wf(),
            final(self)@ == with_values(old(self)@, k@, values_of(final(self)@, k@)),
            values_of(final(self)@, k@).len() == values_of(old(self)@, k@).len(),
            forall|j: int|
                0 <= j < values_of(old(self)@, k@).len() ==> callback.ensures(
                    (values_of(old(self)@, k@)[j],),
                    #[trigger] values_of(final(self)@, k@)[j],
                ),
    {
        let key = k.to_owned();
        match self.find(&key) {
            None => {},
            Some(i) => {
                proof {
                    lemma_key_index(self@, i as int);
                }
                let ghost orig = values_of(self@, k@);
                let mut list = self.swap_list(i, Vec::new());
                let mut out: Vec<V> = Vec::new();
                while list.len() > 0
                    invariant
                        out@.len() <= orig.len(),
                        list@ == orig.subrange(out@.len() as int, orig.len() as int),
                        forall|v: V| callback.requires((v,)),
                        forall|jj: int|
                            0 <= jj < out@.len() ==> callback.ensures(
                                (orig[jj],),
                                #[trigger] out@[jj],
                            ),
                    decreases list.len(),
                {
                    let x = list.remove(0);
                    out.push(callback(x));
                }
                self.swap_list(i, out);
                proof {
                    lemma_key_index(self@, i as int);
                }
            },
        }
    }

    /// Keeps in `k`'s list only the elements on which `condition` is false,
    /// in their order.
    pub fn remove_if(&mut self, k: &str, condition: impl Fn(&V) -> bool)
        requires
            old(self).wf(),
            forall|v: &V| condition.requires((v,)),
        ensures
            final(self).wf(),
            final(self)@ == with_values(old(self)@, k@, values_of(final(self)@, k@)),
            exists|keep: Seq<bool>|
                keep.len() == values_of(old(self)@, k@).len() && (forall|j: int|
                    0 <= j < keep.len() ==> condition.ensures(
                        (&values_of(old(self)@, k@)[j],),
                        !keep[j],
                    )) && values_of(final(self)@, k@) == #[trigger] selected(
                    values_of(old(self)@, k@),
                    keep,
                ),
    {
        let key = k.to_owned();
        match self.find(&key) {
            None => {
                let ghost keep = Seq::<bool>::empty();
                assert(values_of(self@, k@) == selected(values_of(self@, k@), keep));
            },
            Some(i) => {
                proof {
                    lemma_key_index(self@, i as int);
                }
                let ghost orig = values_of(self@, k@);
                let mut list = self.swap_list(i, Vec::new());
                let mut out: Vec<V> = Vec::new();
                let ghost mut keep: Seq<bool> = Seq::empty();
                assert(orig.subrange(0, 0) =~= Seq::<V>::empty());
                while list.len() > 0
                    invariant
                        keep.len() <= orig.len(),
                        list@ == orig.subrange(keep.len() as int, orig.len() as int),
                        forall|v: &V| condition.requires((v,)),
                        forall|jj: int|
                            0 <= jj < keep.len() ==> condition.ensures((&orig[jj],), !keep[jj]),
                        out@ == selected(orig.subrange(0, keep.len() as int), keep),
                    decreases list.len(),
                {
                    let x = list.remove(0);
                    let drop = condition(&x);
                    proof {
                        lemma_selected_step(orig, keep, !drop);
                    }
                    if !drop {
                        out.push(x);
                    }
                    proof {
                        keep = keep.push(!drop);
                    }
                }
                assert(orig.subrange(0, orig.len() as int) =~= orig);
                self.swap_list(i, out);
                proof {
                    lemma_key_index(self@, i as int);
                }
                assert(values_of(self@, k@) == selected(orig, keep));
                assert(forall|j: int|
                    0 <= j < keep.len() ==> condition.ensures((&orig[j],), !keep[j]));
            },
        }
    }

    /// Puts `v` at position `i` of `k`'s list and hands back what stood there.
    pub fn replace(&mut self, k: &str, i: usize, v: V) -> (r: V)
        requires
            old(self).wf(),
            i < values_of(old(self)@, k@).len(),
        ensures
            final(self).wf(),
            r == values_of(old(self)@, k@)[i as int],
            final(self)@ == with_values(old(self)@, k@, values_of(old(self)@, k@).update(i as int, v)),
    {
        let key = k.to_owned();
        let e = self.find(&key).unwrap();
        proof {
            lemma_key_index(self@, e as int);
        }
        let mut list = self.swap_list(e, Vec::new());
        let mut out = v;
        list.set_and_swap(i, &mut out);
        self.swap_list(e, list);
        out
    }

    /// The length of `k`'s list.
    pub fn size_of(&self, k: &str) -> (r: usize)
        requires
            self.wf(),
        ensures
            r == values_of(self@, k@).len(),
    {
        let key = k.to_owned();
        match self.find(&key) {
            None => 0,
            Some(i) => {
                proof {
                    lemma_key_index(self@, i as int);
                }
                self.entries[i].1.len()
            },
        }
    }

    /// A snapshot of the keys, in the order they appeared.
    pub fn keys(&self) -> (r: Vec<String>)
        ensures
            r@.len() == self@.len(),
            forall|i: int| 0 <= i < r@.len() ==> #[trigger] r@[i]@ == self@[i].0,
    {
        let mut r: Vec<String> = Vec::new();
        let mut i: usize = 0;
        while i < self.entries.len()
            invariant
                i <= self.entries.len(),
                self@.len() == self.entries.len(),
                r@.len() == i,
                forall|j: int| 0 <= j < i ==> #[trigger] r@[j]@ == self@[j].0,
            decreases self.entries.len() - i,
        {
            r.push(self.entries[i].0.clone());
            i = i + 1;
        }
        r
    }
}

} // verus!
