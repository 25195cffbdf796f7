//! A table of named slots, in the order in which the names were entered.
//! A name is found through a hash map, in constant time.

use vstd::hash_map::StringHashMap;
use vstd::prelude::*;

verus! {

/// No name of `names` occurs twice.
pub open spec fn distinct(names: Seq<Seq<char>>) -> bool {
    forall|i: int, j: int| 0 <= i < j < names.len() ==> names[i] != names[j]
}

/// The index at which `name` stands in `names`.
pub open spec fn index_of(names: Seq<Seq<char>>, name: Seq<char>) -> Option<int> {
    if exists|i: int| 0 <= i < names.len() && names[i] == name {
        Some(choose|i: int| 0 <= i < names.len() && names[i] == name)
    } else {
        None
    }
}

/// In a run of distinct names, a name stands at one index only.
pub proof fn lemma_index_of(names: Seq<Seq<char>>, i: int)
    requires
        distinct(names),
        0 <= i < names.len(),
    ensures
        index_of(names, names[i]) == Some(i),
{
    let j = choose|j: int| 0 <= j < names.len() && names[j] == names[i];
    if j < i {
        assert(names[j] != names[i]);
    }
    if i < j {
        assert(names[i] != names[j]);
    }
}

/// In a run of distinct names, the first `k + 1` names hold the name at
/// `k` at index `k`, and every other name where the first `k` hold it.
pub proof fn lemma_take_index(all: Seq<Seq<char>>, k: int, name: Seq<char>)
    requires
        distinct(all),
        0 <= k < all.len(),
        all[k] == name,
    ensures
        all.take(k + 1).drop_last() == all.take(k),
        all.take(k + 1).last() == name,
        index_of(all.take(k + 1), name) == Some(k),
        index_of(all.take(k), name) is None,
        forall|n: Seq<char>|
            n != name ==> #[trigger] index_of(all.take(k + 1), n) == index_of(all.take(k), n),
{
    let shorter = all.take(k);
    let longer = all.take(k + 1);
    assert(longer.drop_last() =~= shorter);
    assert(distinct(longer));
    assert(longer[k] == name);
    lemma_index_of(longer, k);
    if exists|i: int| 0 <= i < shorter.len() && shorter[i] == name {
        let i = choose|i: int| 0 <= i < shorter.len() && shorter[i] == name;
        assert(all[i] == all[k]);
    }
    assert forall|n: Seq<char>| n != name implies #[trigger] index_of(longer, n) == index_of(
        shorter,
        n,
    ) by {
        if exists|i: int| 0 <= i < longer.len() && longer[i] == n {
            let i = choose|i: int| 0 <= i < longer.len() && longer[i] == n;
            assert(i < k);
            assert(shorter[i] == n);
            assert(distinct(shorter));
            lemma_index_of(shorter, i);
            lemma_index_of(longer, i);
        } else {
            if exists|i: int| 0 <= i < shorter.len() && shorter[i] == n {
                let i = choose|i: int| 0 <= i < shorter.len() && shorter[i] == n;
                assert(longer[i] == n);
            }
        }
    }
}

/// In a run of distinct names, `name` stands at the index that `index_of`
/// gives and nowhere else, and it is among the names where `index_of`
/// gives an index.
pub proof fn lemma_insert_keeps_others(held: Seq<Seq<char>>, name: Seq<char>)
    requires
        distinct(held),
    ensures
        index_of(held, name) matches Some(at) ==> 0 <= at < held.len() && held[at] == name
            && forall|i: int| 0 <= i < held.len() && i != at ==> held[i] != name,
        index_of(held, name) is None ==> !held.contains(name),
        index_of(held, name) is Some ==> held.contains(name),
{
    match index_of(held, name) {
        Some(at) => {
            assert forall|i: int| 0 <= i < held.len() && i != at implies held[i] != name by {
                if held[i] == name {
                    lemma_index_of(held, i);
                }
            }
        },
        None => {
            if held.contains(name) {
                let i = choose|i: int| 0 <= i < held.len() && held[i] == name;
                assert(false);
            }
        },
    }
}

/// The views of the names of `names`.
pub open spec fn name_views(names: Seq<String>) -> Seq<Seq<char>> {
    names.map_values(|name: String| name@)
}

/// The names and the slots of a table and the index of the names, with
/// nothing yet said of how they hang together.
struct Table<V> {
    names: Vec<String>,
    slots: Vec<V>,
    index: StringHashMap<usize>,
}

impl<V> Table<V> {
    spec fn wf(&self) -> bool {
        &&& self.names@.len() == self.slots@.len()
        &&& distinct(name_views(self.names@))
        &&& forall|i: int|
            0 <= i < self.names@.len() ==> self.index@.contains_key(#[trigger] self.names@[i]@)
                && self.index@[self.names@[i]@] == i
        &&& forall|name: Seq<char>| #[trigger]
            self.index@.contains_key(name) ==> self.index@[name] < self.names@.len()
                && self.names@[self.index@[name] as int]@ == name
    }

    fn new() -> (table: Self)
        ensures
            table.wf(),
            table.names@.len() == 0,
            table.slots@.len() == 0,
    {
        Table { names: Vec::new(), slots: Vec::new(), index: StringHashMap::new() }
    }

    fn position(&self, name: &String) -> (at: Option<usize>)
        requires
            self.wf(),
        ensures
            match at {
                Some(i) => i < self.names@.len() && self.names@[i as int]@ == name@,
                None => forall|i: int| 0 <= i < self.names@.len() ==> self.names@[i]@ != name@,
            },
    {
        match self.index.get(name.as_str()) {
            Some(at) => Some(*at),
            None => None,
        }
    }

    fn insert(&mut self, name: String, value: V)
        requires
            old(self).wf(),
        ensures
            final(self).wf(),
            match index_of(name_views(old(self).names@), name@) {
                Some(i) => final(self).names@ == old(self).names@ && final(self).slots@ == old(
                    self,
                ).slots@.update(i, value),
                None => final(self).names@ == old(self).names@.push(name) && final(self).slots@
                    == old(self).slots@.push(value),
            },
    {
        let ghost names = name_views(self.names@);
        match self.position(&name) {
            Some(i) => {
                proof {
                    assert(names[i as int] == name@);
                    lemma_index_of(names, i as int);
                }
                self.slots.push(value);
                let _ = self.slots.swap_remove(i);
                assert(self.slots@ =~= old(self).slots@.update(i as int, value));
            },
            None => {
                proof {
                    assert forall|i: int| 0 <= i < names.len() implies names[i] != name@ by {
                        assert(names[i] == self.names@[i]@);
                    }
                }
                let at: usize = self.names.len();
                self.index.insert(name.clone(), at);
                self.names.push(name);
                self.slots.push(value);
                assert(name_views(self.names@) =~= names.push(name@));
            },
        }
    }

    fn replace_at(&mut self, at: usize, value: V) -> (previous: V)
        requires
            old(self).wf(),
            at < old(self).slots@.len(),
        ensures
            final(self).wf(),
            final(self).names@ == old(self).names@,
            final(self).slots@ == old(self).slots@.update(at as int, value),
            previous == old(self).slots@[at as int],
    {
        self.slots.push(value);
        let previous = self.slots.swap_remove(at);
        assert(self.slots@ =~= old(self).slots@.update(at as int, value));
        previous
    }
}

/// A table of named slots. No name occurs twice, and the names stay in the
/// order in which they were entered.
pub struct Registry<V> {
    table: Table<V>,
}

impl<V> Registry<V> {
    #[verifier::type_invariant]
    spec fn inv(&self) -> bool {
        self.table.wf()
    }

    /// The names, in the order in which they were entered.
    pub closed spec fn names(&self) -> Seq<Seq<char>> {
        name_views(self.table.names@)
    }

    /// The slots, each at the index of its name.
    pub closed spec fn slots(&self) -> Seq<V> {
        self.table.slots@
    }

    /// Every name has its slot, and no name occurs twice.
    pub open spec fn wf(&self) -> bool {
        &&& self.names().len() == self.slots().len()
        &&& distinct(self.names())
    }

    /// The slot of `name`, if the table holds the name.
    pub open spec fn lookup(&self, name: Seq<char>) -> Option<V> {
        match index_of(self.names(), name) {
            Some(i) => Some(self.slots()[i]),
            None => None,
        }
    }

    /// An empty table.
    pub fn new() -> (registry: Self)
        ensures
            registry.names() == Seq::<Seq<char>>::empty(),
            registry.slots() == Seq::<V>::empty(),
            registry.wf(),
    {
        let registry = Registry { table: Table::new() };
        assert(registry.names() =~= Seq::<Seq<char>>::empty());
        assert(registry.slots() =~= Seq::<V>::empty());
        registry
    }

    /// The number of names.
    pub fn len(&self) -> (len: usize)
        ensures
            len == self.names().len(),
            self.wf(),
    {
        proof {
            use_type_invariant(self);
        }
        self.table.names.len()
    }

    /// The index at which `name` stands.
    pub fn position(&self, name: &String) -> (at: Option<usize>)
        ensures
            self.wf(),
            match at {
                Some(i) => index_of(self.names(), name@) == Some(i as int) && i
                    < self.names().len(),
                None => index_of(self.names(), name@) is None,
            },
    {
        proof {
            use_type_invariant(self);
        }
        let at = self.table.position(name);
        proof {
            match at {
                Some(i) => {
                    assert(self.names()[i as int] == name@);
                    lemma_index_of(self.names(), i as int);
                },
                None => {
                    assert forall|i: int| 0 <= i < self.names().len() implies self.names()[i]
                        != name@ by {
                        assert(self.names()[i] == self.table.names@[i]@);
                    }
                },
            }
        }
        at
    }

    /// Whether the table holds `name`.
    pub fn contains_key(&self, name: &String) -> (held: bool)
        ensures
            held == self.lookup(name@).is_some(),
    {
        self.position(name).is_some()
    }

    /// The slot of `name`, if the table holds the name.
    pub fn get(&self, name: &String) -> (slot: Option<&V>)
        ensures
            match slot {
                Some(v) => self.lookup(name@) == Some(*v),
                None => self.lookup(name@).is_none(),
            },
    {
        proof {
            use_type_invariant(self);
        }
        match self.position(name) {
            Some(i) => Some(&self.table.slots[i]),
            None => None,
        }
    }

    /// The name at index `at`.
    pub fn name_at(&self, at: usize) -> (name: &String)
        requires
            at < self.names().len(),
        ensures
            name@ == self.names()[at as int],
    {
        &self.table.names[at]
    }

    /// The slot at index `at`.
    pub fn slot_at(&self, at: usize) -> (slot: &V)
        requires
            at < self.names().len(),
        ensures
            *slot == self.slots()[at as int],
    {
        proof {
            use_type_invariant(self);
        }
        &self.table.slots[at]
    }

    /// Enters `value` under `name`: in place of the slot that `name` has,
    /// or with `name` as a new last entry.
    pub fn insert(&mut self, name: String, value: V)
        ensures
            final(self).wf(),
            match index_of(old(self).names(), name@) {
                Some(i) => final(self).names() == old(self).names() && final(self).slots() == old(
                    self,
                ).slots().update(i, value),
                None => final(self).names() == old(self).names().push(name@)
                    && final(self).slots() == old(self).slots().push(value),
            },
    {
        proof {
            use_type_invariant(&*self);
        }
        let mut table = Table::new();
        std::mem::swap(&mut table, &mut self.table);
        let ghost before = table.names@;
        table.insert(name, value);
        proof {
            if index_of(name_views(before), name@) is None {
                assert(name_views(before.push(name)) =~= name_views(before).push(name@));
            }
        }
        self.table = table;
    }

    /// Puts `value` into the slot at index `at` and hands out what the slot
    /// held.
    pub fn replace_at(&mut self, at: usize, value: V) -> (previous: V)
        requires
            at < old(self).names().len(),
        ensures
            final(self).wf(),
            final(self).names() == old(self).names(),
            final(self).slots() == old(self).slots().update(at as int, value),
            previous == old(self).slots()[at as int],
    {
        proof {
            use_type_invariant(&*self);
        }
        let mut table = Table::new();
        std::mem::swap(&mut table, &mut self.table);
        let previous = table.replace_at(at, value);
        self.table = table;
        previous
    }
}

impl<V: Copy> Clone for Registry<V> {
    /// A copy with the same names and the same slots.
    fn clone(&self) -> (copy: Self)
        ensures
            copy.names() == self.names(),
            copy.slots() == self.slots(),
            copy.wf(),
    {
        proof {
            use_type_invariant(self);
        }
        let mut table: Table<V> = Table::new();
        let mut i: usize = 0;
        while i < self.table.names.len()
            invariant
                i <= self.table.names@.len(),
                self.table.wf(),
                table.wf(),
                table.names@.len() == i,
                forall|j: int| 0 <= j < i ==> table.names@[j]@ == self.table.names@[j]@,
                forall|j: int| 0 <= j < i ==> table.slots@[j] == self.table.slots@[j],
            decreases self.table.names@.len() - i,
        {
            let ghost held = name_views(table.names@);
            let name = self.table.names[i].clone();
            proof {
                if exists|j: int| 0 <= j < held.len() && held[j] == name@ {
                    let j = choose|j: int| 0 <= j < held.len() && held[j] == name@;
                    assert(name_views(self.table.names@)[j] == name_views(self.table.names@)[i as int]);
                }
            }
            table.insert(name, self.table.slots[i]);
            i = i + 1;
        }
        assert(name_views(table.names@) =~= name_views(self.table.names@));
        assert(table.slots@ =~= self.table.slots@);
        Registry { table }
    }
}

} // verus!
