//! Maps from process ids, and from names, to values. Iteration follows the
//! order of insertion.
use crate::text::{same, texts};
use crate::order::{lemma_arrangement_covers, stable_order, stands_before, Key};
use vstd::prelude::*;

verus! {

/// A map keyed by process id. No id stands in it twice.
pub struct PidMap<V> {
    entries: Vec<(u32, V)>,
}

/// The ids of a list of entries, in order.
pub open spec fn entry_keys<V>(entries: Seq<(u32, V)>) -> Seq<u32> {
    entries.map_values(|e: (u32, V)| e.0)
}

/// `keys` without `pid`, in the same order.
pub open spec fn keys_without(keys: Seq<u32>, pid: u32) -> Seq<u32> {
    keys.filter(|k: u32| k != pid)
}

/// The map that a list of entries stands for.
pub open spec fn entry_map<V>(entries: Seq<(u32, V)>) -> Map<u32, V>
    decreases entries.len(),
{
    if entries.len() == 0 {
        Map::empty()
    } else {
        entry_map(entries.drop_last()).insert(entries.last().0, entries.last().1)
    }
}

proof fn lemma_entry_map<V>(entries: Seq<(u32, V)>)
    requires
        entry_keys(entries).no_duplicates(),
    ensures
        forall|i: int|
            0 <= i < entries.len() ==> entry_map(entries).contains_pair(
                (#[trigger] entries[i]).0,
                entries[i].1,
            ),
        forall|k: u32| #[trigger]
            entry_map(entries).contains_key(k) ==> exists|i: int|
                0 <= i < entries.len() && (#[trigger] entries[i]).0 == k,
        entry_map(entries).dom().finite(),
        entry_map(entries).len() == entries.len(),
    decreases entries.len(),
{
    if entries.len() > 0 {
        let init = entries.drop_last();
        assert(entry_keys(init) =~= entry_keys(entries).drop_last());
        lemma_entry_map(init);
        assert forall|i: int| 0 <= i < entries.len() implies entry_map(entries).contains_pair(
            (#[trigger] entries[i]).0,
            entries[i].1,
        ) by {
            if i < init.len() {
                assert(init[i] == entries[i]);
                assert(entry_keys(entries)[i] != entry_keys(entries)[entries.len() - 1]);
            }
        }
        assert forall|k: u32| #[trigger] entry_map(entries).contains_key(k) implies exists|i: int|
            0 <= i < entries.len() && (#[trigger] entries[i]).0 == k by {
            if k != entries.last().0 {
                assert(entry_map(init).contains_key(k));
                let i = choose|i: int| 0 <= i < init.len() && (#[trigger] init[i]).0 == k;
                assert(entries[i].0 == k);
            } else {
                assert(entries[entries.len() - 1].0 == k);
            }
        }
        if entry_map(init).contains_key(entries.last().0) {
            let i = choose|i: int|
                0 <= i < init.len() && (#[trigger] init[i]).0 == entries.last().0;
            assert(entry_keys(entries)[i] == entry_keys(entries)[entries.len() - 1]);
        }
    }
}

/// Whether `s` lists the ids of `ids` in ascending order, each once.
pub open spec fn lists_ascending(s: Seq<u32>, ids: Set<u32>) -> bool {
    &&& forall|i: int, j: int| 0 <= i < j < s.len() ==> #[trigger] s[i] < #[trigger] s[j]
    &&& forall|k: u32| #[trigger] ids.contains(k) <==> s.contains(k)
}

/// The ids of a finite set in ascending order.
pub open spec fn ascending(ids: Set<u32>) -> Seq<u32> {
    choose|s: Seq<u32>| lists_ascending(s, ids)
}

/// There is only one ascending listing of a set.
pub proof fn lemma_ascending_is_unique(s: Seq<u32>, t: Seq<u32>, ids: Set<u32>)
    requires
        lists_ascending(s, ids),
        lists_ascending(t, ids),
    ensures
        s == t,
    decreases s.len(),
{
    if s.len() == 0 {
        if t.len() > 0 {
            assert(t.contains(t[0]));
            assert(ids.contains(t[0]));
            assert(s.contains(t[0]));
        }
        assert(s =~= t);
    } else {
        let x = s.last();
        assert(s.contains(x));
        assert(ids.contains(x));
        assert(t.contains(x));
        let y = t.last();
        assert(t.contains(y));
        assert(ids.contains(y));
        assert(s.contains(y));
        let i = choose|i: int| 0 <= i < s.len() && s[i] == y;
        let j = choose|j: int| 0 <= j < t.len() && t[j] == x;
        if i < s.len() - 1 {
            assert(s[i] < s[s.len() - 1]);
        }
        if j < t.len() - 1 {
            assert(t[j] < t[t.len() - 1]);
        }
        assert(x == y);
        lemma_without_last(s, ids);
        lemma_without_last(t, ids);
        lemma_ascending_is_unique(s.drop_last(), t.drop_last(), ids.remove(x));
        assert(s =~= s.drop_last().push(x));
        assert(t =~= t.drop_last().push(x));
    }
}

proof fn lemma_without_last(s: Seq<u32>, ids: Set<u32>)
    requires
        lists_ascending(s, ids),
        s.len() > 0,
    ensures
        lists_ascending(s.drop_last(), ids.remove(s.last())),
{
    let x = s.last();
    let t = s.drop_last();
    assert forall|k: u32| #[trigger] ids.remove(x).contains(k) <==> t.contains(k) by {
        if ids.remove(x).contains(k) {
            assert(s.contains(k));
            let i = choose|i: int| 0 <= i < s.len() && s[i] == k;
            assert(t[i] == k);
        }
        if t.contains(k) {
            let i = choose|i: int| 0 <= i < t.len() && t[i] == k;
            assert(s[i] == k);
            assert(s[i] < s[s.len() - 1]);
            assert(s.contains(k));
        }
    }
}

impl<V> PidMap<V> {
    #[verifier::type_invariant]
    spec fn inv(&self) -> bool {
        entry_keys(self.entries@).no_duplicates()
    }

    /// The contents.
    pub closed spec fn view(&self) -> Map<u32, V> {
        entry_map(self.entries@)
    }

    /// The ids in the order of their insertion.
    pub closed spec fn order(&self) -> Seq<u32> {
        entry_keys(self.entries@)
    }

    /// An empty map.
    pub fn new() -> (r: PidMap<V>)
        ensures
            r@ == Map::<u32, V>::empty(),
            r.order() == Seq::<u32>::empty(),
    {
        let entries: Vec<(u32, V)> = Vec::new();
        assert(entry_keys(entries@) =~= Seq::<u32>::empty());
        PidMap { entries }
    }

    fn position(&self, pid: u32) -> (r: usize)
        ensures
            r <= self.entries@.len(),
            r < self.entries@.len() ==> self.entries@[r as int].0 == pid && self@.contains_pair(
                pid,
                self.entries@[r as int].1,
            ),
            r == self.entries@.len() ==> !self@.contains_key(pid),
    {
        proof {
            use_type_invariant(self);
            lemma_entry_map(self.entries@);
        }
        let mut i: usize = 0;
        while i < self.entries.len()
            invariant
                i <= self.entries@.len(),
                forall|k: int| 0 <= k < i ==> (#[trigger] self.entries@[k]).0 != pid,
                entry_keys(self.entries@).no_duplicates(),
            decreases self.entries.len() - i,
        {
            if self.entries[i].0 == pid {
                proof {
                    lemma_entry_map(self.entries@);
                }
                return i;
            }
            i = i + 1;
        }
        i
    }

    /// How many ids it holds.
    pub fn len(&self) -> (r: usize)
        ensures
            r == self@.len(),
            self@.dom().finite(),
            r == self.order().len(),
    {
        proof {
            use_type_invariant(self);
            lemma_entry_map(self.entries@);
        }
        self.entries.len()
    }

    /// Whether it holds `pid`.
    pub fn contains(&self, pid: u32) -> (r: bool)
        ensures
            r == self@.contains_key(pid),
    {
        self.position(pid) < self.entries.len()
    }

    /// The value of `pid`.
    pub fn get(&self, pid: u32) -> (r: Option<&V>)
        ensures
            match r {
                Some(v) => self@.contains_pair(pid, *v),
                None => !self@.contains_key(pid),
            },
    {
        let i = self.position(pid);
        if i < self.entries.len() {
            Some(&self.entries[i].1)
        } else {
            None
        }
    }

    /// Takes `pid` out.
    pub fn remove(&mut self, pid: u32) -> (r: Option<V>)
        ensures
            final(self)@ == old(self)@.remove(pid),
            final(self).order() == keys_without(old(self).order(), pid),
            match r {
                Some(v) => old(self)@.contains_pair(pid, v),
                None => !old(self)@.contains_key(pid),
            },
    {
        let i = self.position(pid);
        let ghost before = self.entries@;
        proof {
            use_type_invariant(&*self);
            lemma_entry_map(before);
        }
        if i < self.entries.len() {
            proof {
                lemma_without(before, i as int);
            }
            let mut entries: Vec<(u32, V)> = Vec::new();
            assert(entry_keys(entries@).no_duplicates());
            core::mem::swap(&mut entries, &mut self.entries);
            let (_, v) = entries.remove(i);
            self.entries = entries;
            Some(v)
        } else {
            proof {
                assert(before =~= self.entries@);
                assert(self@.remove(pid) =~= self@);
                lemma_filter_absent(entry_keys(before), pid);
                assert forall|k: int| 0 <= k < before.len() implies entry_keys(before)[k] != pid by {
                    assert(before[k].0 != pid);
                }
            }
            None
        }
    }

    /// Gives `pid` the value `v`, at the end of the order.
    pub fn insert(&mut self, pid: u32, v: V)
        ensures
            final(self)@ == old(self)@.insert(pid, v),
            final(self).order() == keys_without(old(self).order(), pid).push(pid),
    {
        let _ = self.remove(pid);
        proof {
            use_type_invariant(&*self);
            lemma_entry_map(self.entries@);
            assert(entry_keys(self.entries@.push((pid, v))) =~= entry_keys(self.entries@).push(
                pid,
            ));
            assert(self.entries@.push((pid, v)).drop_last() =~= self.entries@);
            assert forall|k: int| 0 <= k < self.entries@.len() implies entry_keys(
                self.entries@,
            )[k] != pid by {
                assert(self.entries@[k].0 != pid);
            }
        }
        let mut entries: Vec<(u32, V)> = Vec::new();
        assert(entry_keys(entries@).no_duplicates());
        core::mem::swap(&mut entries, &mut self.entries);
        entries.push((pid, v));
        self.entries = entries;
        assert(self@ =~= old(self)@.insert(pid, v));
    }

    /// The ids, in the order of their insertion.
    pub fn keys(&self) -> (r: Vec<u32>)
        ensures
            r@ == self.order(),
            r@.no_duplicates(),
            r@.to_set() == self@.dom(),
            r@.len() == self@.len(),
            self@.dom().finite(),
            forall|k: u32| r@.contains(k) <==> #[trigger] self@.contains_key(k),
    {
        proof {
            use_type_invariant(self);
            lemma_entry_map(self.entries@);
        }
        let mut out: Vec<u32> = Vec::new();
        let mut i: usize = 0;
        while i < self.entries.len()
            invariant
                i <= self.entries@.len(),
                out@ == entry_keys(self.entries@).take(i as int),
            decreases self.entries.len() - i,
        {
            assert(entry_keys(self.entries@).take(i as int + 1) =~= entry_keys(self.entries@).take(
                i as int,
            ).push(self.entries@[i as int].0));
            out.push(self.entries[i].0);
            i = i + 1;
        }
        proof {
            assert(out@ =~= entry_keys(self.entries@));
            assert forall|k: u32| out@.contains(k) <==> #[trigger] self@.contains_key(k) by {
                if out@.contains(k) {
                    let j = choose|j: int| 0 <= j < out@.len() && out@[j] == k;
                    assert(self.entries@[j].0 == k);
                }
                if self@.contains_key(k) {
                    let j = choose|j: int|
                        0 <= j < self.entries@.len() && (#[trigger] self.entries@[j]).0 == k;
                    assert(out@[j] == k);
                }
            }
            assert(out@.to_set() =~= self@.dom());
        }
        out
    }

    /// The ids in ascending order.
    pub fn sorted_keys(&self) -> (r: Vec<u32>)
        ensures
            r@ == ascending(self@.dom()),
            lists_ascending(r@, self@.dom()),
    {
        let keys = self.keys();
        let mut by: Vec<Key> = Vec::new();
        let mut i: usize = 0;
        while i < keys.len()
            invariant
                i <= keys.len(),
                by@.len() == i,
                forall|j: int| 0 <= j < i ==> #[trigger] by@[j] == (keys@[j] as u64, 0u64, 0u64),
            decreases keys.len() - i,
        {
            by.push((keys[i] as u64, 0, 0));
            i = i + 1;
        }
        let order = stable_order(&by);
        let mut out: Vec<u32> = Vec::new();
        let mut n: usize = 0;
        while n < order.len()
            invariant
                n <= order.len(),
                forall|j: int| 0 <= j < order@.len() ==> #[trigger] order@[j] < keys@.len(),
                out@.len() == n,
                forall|j: int| 0 <= j < n ==> #[trigger] out@[j] == keys@[order@[j] as int],
            decreases order.len() - n,
        {
            out.push(keys[order[n]]);
            n = n + 1;
        }
        proof {
            assert forall|i: int, j: int| 0 <= i < j < out@.len() implies #[trigger] out@[i]
                < #[trigger] out@[j] by {
                assert(stands_before(by@, order@[i] as int, order@[j] as int));
                assert(order@[i] != order@[j]);
                assert(keys@[order@[i] as int] != keys@[order@[j] as int]);
            }
            assert forall|k: u32| #[trigger] self@.dom().contains(k) <==> out@.contains(k) by {
                if self@.contains_key(k) {
                    let m = choose|m: int| 0 <= m < keys@.len() && keys@[m] == k;
                    lemma_arrangement_covers(order@, keys@.len(), m);
                    let j = choose|j: int| 0 <= j < order@.len() && #[trigger] order@[j] == m;
                    assert(out@[j] == k);
                }
                if out@.contains(k) {
                    let j = choose|j: int| 0 <= j < out@.len() && out@[j] == k;
                    assert(keys@[order@[j] as int] == k);
                    assert(keys@.contains(k));
                    assert(self@.contains_key(k));
                }
            }
            assert(lists_ascending(out@, self@.dom()));
            lemma_ascending_is_unique(out@, ascending(self@.dom()), self@.dom());
        }
        out
    }

    /// Keeps only the ids in `keep`.
    pub fn retain(&mut self, keep: &Vec<u32>)
        ensures
            final(self)@ == old(self)@.restrict(keep@.to_set()),
    {
        let keys = self.keys();
        let ghost all = self@;
        let mut i: usize = 0;
        while i < keys.len()
            invariant
                i <= keys.len(),
                keys@.no_duplicates(),
                forall|k: u32| keys@.contains(k) <==> #[trigger] all.contains_key(k),
                forall|k: u32|
                    #![trigger self@.contains_key(k)]
                    self@.contains_key(k) <==> all.contains_key(k) && (keep@.contains(k)
                        || exists|j: int| i <= j < keys@.len() && #[trigger] keys@[j] == k),
                forall|k: u32| #[trigger] self@.contains_key(k) ==> self@[k] == all[k],
            decreases keys.len() - i,
        {
            let pid: u32 = keys[i];
            let ghost mid = self@;
            let mut found = false;
            let mut m: usize = 0;
            while m < keep.len()
                invariant
                    m <= keep.len(),
                    found == exists|j: int| 0 <= j < m && #[trigger] keep@[j] == pid,
                decreases keep.len() - m,
            {
                if keep[m] == pid {
                    found = true;
                }
                m = m + 1;
            }
            assert(found == keep@.contains(pid));
            if !found {
                let _ = self.remove(pid);
            }
            proof {
                assert forall|k: u32|
                    #![trigger self@.contains_key(k)]
                    self@.contains_key(k) <==> all.contains_key(k) && (keep@.contains(k)
                        || exists|j: int| i + 1 <= j < keys@.len() && #[trigger] keys@[j] == k) by {
                    if k == pid {
                        assert(forall|j: int| i + 1 <= j < keys@.len() ==> #[trigger] keys@[j] != k);
                        assert(keys@[i as int] == k);
                        assert(mid.contains_key(k) == all.contains_key(k));
                    } else {
                        assert(mid.contains_key(k) == self@.contains_key(k));
                        if exists|j: int| i <= j < keys@.len() && #[trigger] keys@[j] == k {
                            let j = choose|j: int| i <= j < keys@.len() && #[trigger] keys@[j] == k;
                            assert(j != i);
                            assert(keys@[j] == k);
                        }
                    }
                }
            }
            i = i + 1;
        }
        proof {
            assert forall|k: u32| keep@.to_set().contains(k) <==> #[trigger] keep@.contains(k) by {}
            assert(self@ =~= all.restrict(keep@.to_set()));
        }
    }

    /// Takes everything out.
    pub fn clear(&mut self)
        ensures
            final(self)@ == Map::<u32, V>::empty(),
            final(self).order() == Seq::<u32>::empty(),
    {
        *self = PidMap::new();
    }
}

proof fn lemma_filter_absent(s: Seq<u32>, pid: u32)
    requires
        forall|k: int| 0 <= k < s.len() ==> s[k] != pid,
    ensures
        keys_without(s, pid) == s,
    decreases s.len(),
{
    reveal(Seq::filter);
    if s.len() > 0 {
        lemma_filter_absent(s.drop_last(), pid);
        assert(s.drop_last().push(s.last()) =~= s);
    }
}

proof fn lemma_without<V>(entries: Seq<(u32, V)>, i: int)
    requires
        entry_keys(entries).no_duplicates(),
        0 <= i < entries.len(),
    ensures
        entry_keys(entries.remove(i)).no_duplicates(),
        entry_map(entries.remove(i)) == entry_map(entries).remove(entries[i].0),
        entry_keys(entries.remove(i)) == keys_without(entry_keys(entries), entries[i].0),
    decreases entries.len(),
{
    reveal(Seq::filter);
    let pid = entries[i].0;
    let init = entries.drop_last();
    let keys = entry_keys(entries);
    assert(entry_keys(init) =~= keys.drop_last());
    assert(keys[i] == pid);
    if i == entries.len() - 1 {
        assert(entries.remove(i) =~= init);
        assert forall|k: int| 0 <= k < init.len() implies entry_keys(init)[k] != pid by {
            assert(keys[k] != keys[i]);
        }
        lemma_filter_absent(entry_keys(init), pid);
        lemma_entry_map(init);
        assert(!entry_map(init).contains_key(pid)) by {
            if entry_map(init).contains_key(pid) {
                let j = choose|j: int| 0 <= j < init.len() && (#[trigger] init[j]).0 == pid;
                assert(keys[j] == keys[i]);
            }
        }
        assert(entry_map(entries).remove(pid) =~= entry_map(init));
    } else {
        lemma_without(init, i);
        assert(init[i] == entries[i]);
        let rest = entries.remove(i);
        assert(rest.drop_last() =~= init.remove(i));
        assert(rest.last() == entries.last());
        assert(keys[entries.len() - 1] != keys[i]);
        assert(entry_map(rest) =~= entry_map(entries).remove(pid));
        assert(entry_keys(rest) =~= entry_keys(init.remove(i)).push(entries.last().0));
        assert forall|a: int, b: int|
            0 <= a < rest.len() && 0 <= b < rest.len() && a != b implies entry_keys(rest)[a]
            != entry_keys(rest)[b] by {
            let a2 = if a < i { a } else { a + 1 };
            let b2 = if b < i { b } else { b + 1 };
            assert(keys[a2] != keys[b2]);
        }
    }
}

/// A map keyed by name. No name stands in it twice.
pub struct NameMap<V> {
    entries: Vec<(String, V)>,
}

/// The names of a list of entries, in order.
pub open spec fn name_keys<V>(entries: Seq<(String, V)>) -> Seq<Seq<char>> {
    entries.map_values(|e: (String, V)| e.0@)
}

/// `keys` without `name`, in the same order.
pub open spec fn names_without(keys: Seq<Seq<char>>, name: Seq<char>) -> Seq<Seq<char>> {
    keys.filter(|k: Seq<char>| k != name)
}

/// The map that a list of named entries stands for.
pub open spec fn name_map<V>(entries: Seq<(String, V)>) -> Map<Seq<char>, V>
    decreases entries.len(),
{
    if entries.len() == 0 {
        Map::empty()
    } else {
        name_map(entries.drop_last()).insert(entries.last().0@, entries.last().1)
    }
}

proof fn lemma_name_map<V>(entries: Seq<(String, V)>)
    requires
        name_keys(entries).no_duplicates(),
    ensures
        forall|i: int|
            0 <= i < entries.len() ==> name_map(entries).contains_pair(
                (#[trigger] entries[i]).0@,
                entries[i].1,
            ),
        forall|k: Seq<char>| #[trigger]
            name_map(entries).contains_key(k) ==> exists|i: int|
                0 <= i < entries.len() && (#[trigger] entries[i]).0@ == k,
        name_map(entries).dom().finite(),
        name_map(entries).len() == entries.len(),
    decreases entries.len(),
{
    if entries.len() > 0 {
        let init = entries.drop_last();
        assert(name_keys(init) =~= name_keys(entries).drop_last());
        lemma_name_map(init);
        assert forall|i: int| 0 <= i < entries.len() implies name_map(entries).contains_pair(
            (#[trigger] entries[i]).0@,
            entries[i].1,
        ) by {
            if i < init.len() {
                assert(init[i] == entries[i]);
                assert(name_keys(entries)[i] != name_keys(entries)[entries.len() - 1]);
            }
        }
        assert forall|k: Seq<char>| #[trigger] name_map(entries).contains_key(k) implies exists|i: int|
            0 <= i < entries.len() && (#[trigger] entries[i]).0@ == k by {
            if k != entries.last().0@ {
                assert(name_map(init).contains_key(k));
                let i = choose|i: int| 0 <= i < init.len() && (#[trigger] init[i]).0@ == k;
                assert(entries[i].0@ == k);
            } else {
                assert(entries[entries.len() - 1].0@ == k);
            }
        }
        if name_map(init).contains_key(entries.last().0@) {
            let i = choose|i: int|
                0 <= i < init.len() && (#[trigger] init[i]).0@ == entries.last().0@;
            assert(name_keys(entries)[i] == name_keys(entries)[entries.len() - 1]);
        }
    }
}

impl<V> NameMap<V> {
    #[verifier::type_invariant]
    spec fn inv(&self) -> bool {
        name_keys(self.entries@).no_duplicates()
    }

    /// The contents.
    pub closed spec fn view(&self) -> Map<Seq<char>, V> {
        name_map(self.entries@)
    }

    /// The names in the order of their insertion.
    pub closed spec fn order(&self) -> Seq<Seq<char>> {
        name_keys(self.entries@)
    }

    /// An empty map.
    pub fn new() -> (r: NameMap<V>)
        ensures
            r@ == Map::<Seq<char>, V>::empty(),
            r.order() == Seq::<Seq<char>>::empty(),
    {
        let entries: Vec<(String, V)> = Vec::new();
        assert(name_keys(entries@) =~= Seq::<Seq<char>>::empty());
        NameMap { entries }
    }

    fn position(&self, name: &str) -> (r: usize)
        ensures
            r <= self.entries@.len(),
            r < self.entries@.len() ==> self.entries@[r as int].0@ == name@ && self@.contains_pair(
                name@,
                self.entries@[r as int].1,
            ),
            r == self.entries@.len() ==> !self@.contains_key(name@),
    {
        proof {
            use_type_invariant(self);
            lemma_name_map(self.entries@);
        }
        let mut i: usize = 0;
        while i < self.entries.len()
            invariant
                i <= self.entries@.len(),
                forall|k: int| 0 <= k < i ==> (#[trigger] self.entries@[k]).0@ != name@,
                name_keys(self.entries@).no_duplicates(),
            decreases self.entries.len() - i,
        {
            if same(self.entries[i].0.as_str(), name) {
                proof {
                    lemma_name_map(self.entries@);
                }
                return i;
            }
            i = i + 1;
        }
        i
    }

    /// How many names it holds.
    pub fn len(&self) -> (r: usize)
        ensures
            r == self@.len(),
            self@.dom().finite(),
            r == self.order().len(),
    {
        proof {
            use_type_invariant(self);
            lemma_name_map(self.entries@);
        }
        self.entries.len()
    }

    /// Whether it holds `name`.
    pub fn contains(&self, name: &str) -> (r: bool)
        ensures
            r == self@.contains_key(name@),
    {
        self.position(name) < self.entries.len()
    }

    /// The value of `name`.
    pub fn get(&self, name: &str) -> (r: Option<&V>)
        ensures
            match r {
                Some(v) => self@.contains_pair(name@, *v),
                None => !self@.contains_key(name@),
            },
    {
        let i = self.position(name);
        if i < self.entries.len() {
            Some(&self.entries[i].1)
        } else {
            None
        }
    }

    /// Takes `name` out.
    pub fn remove(&mut self, name: &str) -> (r: Option<V>)
        ensures
            final(self)@ == old(self)@.remove(name@),
            final(self).order() == names_without(old(self).order(), name@),
            match r {
                Some(v) => old(self)@.contains_pair(name@, v),
                None => !old(self)@.contains_key(name@),
            },
    {
        let i = self.position(name);
        let ghost before = self.entries@;
        proof {
            use_type_invariant(&*self);
            lemma_name_map(before);
        }
        if i < self.entries.len() {
            proof {
                lemma_names_without(before, i as int);
            }
            let mut entries: Vec<(String, V)> = Vec::new();
            assert(name_keys(entries@).no_duplicates());
            core::mem::swap(&mut entries, &mut self.entries);
            let (_, v) = entries.remove(i);
            self.entries = entries;
            Some(v)
        } else {
            proof {
                assert(before =~= self.entries@);
                assert(self@.remove(name@) =~= self@);
                lemma_names_filter_absent(name_keys(before), name@);
                assert forall|k: int| 0 <= k < before.len() implies name_keys(before)[k] != name@ by {
                    assert(before[k].0@ != name@);
                }
            }
            None
        }
    }

    /// Gives `name` the value `v`, at the end of the order.
    pub fn insert(&mut self, name: String, v: V)
        ensures
            final(self)@ == old(self)@.insert(name@, v),
            final(self).order() == names_without(old(self).order(), name@).push(name@),
    {
        let _ = self.remove(name.as_str());
        proof {
            use_type_invariant(&*self);
            lemma_name_map(self.entries@);
            assert(name_keys(self.entries@.push((name, v))) =~= name_keys(self.entries@).push(
                name@,
            ));
            assert(self.entries@.push((name, v)).drop_last() =~= self.entries@);
            assert forall|k: int| 0 <= k < self.entries@.len() implies name_keys(
                self.entries@,
            )[k] != name@ by {
                assert(self.entries@[k].0@ != name@);
            }
        }
        let mut entries: Vec<(String, V)> = Vec::new();
        assert(name_keys(entries@).no_duplicates());
        core::mem::swap(&mut entries, &mut self.entries);
        entries.push((name, v));
        self.entries = entries;
        assert(self@ =~= old(self)@.insert(name@, v));
    }

    /// The names, in the order of their insertion.
    pub fn keys(&self) -> (r: Vec<String>)
        ensures
            texts(r@) == self.order(),
            texts(r@).no_duplicates(),
            r@.len() == self@.len(),
            self@.dom().finite(),
            forall|k: Seq<char>| texts(r@).contains(k) <==> #[trigger] self@.contains_key(k),
    {
        proof {
            use_type_invariant(self);
            lemma_name_map(self.entries@);
        }
        let mut out: Vec<String> = Vec::new();
        let mut i: usize = 0;
        assert(texts(out@) =~= name_keys(self.entries@).take(0));
        while i < self.entries.len()
            invariant
                i <= self.entries@.len(),
                texts(out@) == name_keys(self.entries@).take(i as int),
            decreases self.entries.len() - i,
        {
            let ghost done = out@;
            let name = self.entries[i].0.clone();
            out.push(name);
            proof {
                assert(texts(out@) =~= texts(done).push(name@));
                assert(name_keys(self.entries@).take(i as int + 1) =~= name_keys(
                    self.entries@,
                ).take(i as int).push(name@));
            }
            i = i + 1;
        }
        proof {
            assert(texts(out@) =~= name_keys(self.entries@));
            assert forall|k: Seq<char>| texts(out@).contains(k) <==> #[trigger] self@.contains_key(
                k,
            ) by {
                if texts(out@).contains(k) {
                    let j = choose|j: int| 0 <= j < texts(out@).len() && texts(out@)[j] == k;
                    assert(self.entries@[j].0@ == k);
                }
                if self@.contains_key(k) {
                    let j = choose|j: int|
                        0 <= j < self.entries@.len() && (#[trigger] self.entries@[j]).0@ == k;
                    assert(texts(out@)[j] == k);
                }
            }
        }
        out
    }

    /// Takes out the names in `gone`.
    pub fn remove_all(&mut self, gone: &Vec<String>)
        ensures
            final(self)@ == old(self)@.remove_keys(texts(gone@).to_set()),
    {
        let ghost all = self@;
        let mut i: usize = 0;
        assert(texts(gone@).take(0).to_set() =~= Set::<Seq<char>>::empty());
        assert(self@ =~= all.remove_keys(texts(gone@).take(0).to_set()));
        while i < gone.len()
            invariant
                i <= gone.len(),
                self@ == all.remove_keys(texts(gone@).take(i as int).to_set()),
            decreases gone.len() - i,
        {
            let ghost a = texts(gone@).take(i as int);
            let ghost b = texts(gone@).take(i as int + 1);
            let ghost mid = self@;
            let _ = self.remove(gone[i].as_str());
            proof {
                let name = gone@[i as int]@;
                assert(b =~= a.push(name));
                assert forall|x: Seq<char>| b.to_set().contains(x) <==> a.to_set().insert(
                    name,
                ).contains(x) by {
                    if a.contains(x) {
                        let k = choose|k: int| 0 <= k < a.len() && a[k] == x;
                        assert(b[k] == x);
                    }
                    assert(b[i as int] == name);
                    if b.contains(x) && x != name {
                        let k = choose|k: int| 0 <= k < b.len() && b[k] == x;
                        assert(a[k] == x);
                    }
                }
                assert(self@ =~= all.remove_keys(b.to_set()));
            }
            i = i + 1;
        }
        assert(texts(gone@).take(i as int) =~= texts(gone@));
    }

    /// Takes everything out.
    pub fn clear(&mut self)
        ensures
            final(self)@ == Map::<Seq<char>, V>::empty(),
            final(self).order() == Seq::<Seq<char>>::empty(),
    {
        *self = NameMap::new();
    }
}

proof fn lemma_names_filter_absent(s: Seq<Seq<char>>, name: Seq<char>)
    requires
        forall|k: int| 0 <= k < s.len() ==> s[k] != name,
    ensures
        names_without(s, name) == s,
    decreases s.len(),
{
    reveal(Seq::filter);
    if s.len() > 0 {
        lemma_names_filter_absent(s.drop_last(), name);
        assert(s.drop_last().push(s.last()) =~= s);
    }
}

proof fn lemma_names_without<V>(entries: Seq<(String, V)>, i: int)
    requires
        name_keys(entries).no_duplicates(),
        0 <= i < entries.len(),
    ensures
        name_keys(entries.remove(i)).no_duplicates(),
        name_map(entries.remove(i)) == name_map(entries).remove(entries[i].0@),
        name_keys(entries.remove(i)) == names_without(name_keys(entries), entries[i].0@),
    decreases entries.len(),
{
    reveal(Seq::filter);
    let name = entries[i].0@;
    let init = entries.drop_last();
    let keys = name_keys(entries);
    assert(name_keys(init) =~= keys.drop_last());
    assert(keys[i] == name);
    if i == entries.len() - 1 {
        assert(entries.remove(i) =~= init);
        assert forall|k: int| 0 <= k < init.len() implies name_keys(init)[k] != name by {
            assert(keys[k] != keys[i]);
        }
        lemma_names_filter_absent(name_keys(init), name);
        lemma_name_map(init);
        assert(!name_map(init).contains_key(name)) by {
            if name_map(init).contains_key(name) {
                let j = choose|j: int| 0 <= j < init.len() && (#[trigger] init[j]).0@ == name;
                assert(keys[j] == keys[i]);
            }
        }
        assert(name_map(entries).remove(name) =~= name_map(init));
    } else {
        lemma_names_without(init, i);
        assert(init[i] == entries[i]);
        let rest = entries.remove(i);
        assert(rest.drop_last() =~= init.remove(i));
        assert(rest.last() == entries.last());
        assert(keys[entries.len() - 1] != keys[i]);
        assert(name_map(rest) =~= name_map(entries).remove(name));
        assert(name_keys(rest) =~= name_keys(init.remove(i)).push(entries.last().0@));
        assert forall|a: int, b: int|
            0 <= a < rest.len() && 0 <= b < rest.len() && a != b implies name_keys(rest)[a]
            != name_keys(rest)[b] by {
            let a2 = if a < i { a } else { a + 1 };
            let b2 = if b < i { b } else { b + 1 };
            assert(keys[a2] != keys[b2]);
        }
    }
}

} // verus!
