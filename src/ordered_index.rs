use vstd::prelude::*;

verus! {

/// Named entries in order of first insertion.
pub type Entries<T> = Seq<(Seq<char>, T)>;

/// Index of the first entry at or after `i` with key `k`, or -1.
pub open spec fn index_from<T>(e: Entries<T>, k: Seq<char>, i: int) -> int
    decreases e.len() - i,
{
    if i < 0 || i >= e.len() {
        -1
    } else if e[i].0 == k {
        i
    } else {
        index_from(e, k, i + 1)
    }
}

/// Index of the first entry with key `k`, or -1.
pub open spec fn index_of<T>(e: Entries<T>, k: Seq<char>) -> int {
    index_from(e, k, 0)
}

/// The value stored under `k`.
pub open spec fn lookup<T>(e: Entries<T>, k: Seq<char>) -> Option<T> {
    if index_of(e, k) < 0 {
        None
    } else {
        Some(e[index_of(e, k)].1)
    }
}

/// Stores `v` under `k`: an existing key keeps its place, a new key goes last.
pub open spec fn insert_entry<T>(e: Entries<T>, k: Seq<char>, v: T) -> Entries<T> {
    if index_of(e, k) < 0 {
        e.push((k, v))
    } else {
        e.update(index_of(e, k), (k, v))
    }
}

/// Inserts each of `kvs` in turn.
pub open spec fn insert_all<T>(e: Entries<T>, kvs: Entries<T>) -> Entries<T>
    decreases kvs.len(),
{
    if kvs.len() == 0 {
        e
    } else {
        insert_all(insert_entry(e, kvs[0].0, kvs[0].1), kvs.drop_first())
    }
}

pub open spec fn keys_unique<T>(e: Entries<T>) -> bool {
    forall|i: int, j: int| 0 <= i < j < e.len() ==> e[i].0 != e[j].0
}

pub proof fn lemma_index_from<T>(e: Entries<T>, k: Seq<char>, i: int)
    requires
        0 <= i <= e.len(),
    ensures
        index_from(e, k, i) < 0 <==> (forall|j: int| i <= j < e.len() ==> e[j].0 != k),
        index_from(e, k, i) >= 0 ==> i <= index_from(e, k, i) < e.len() && e[index_from(
            e,
            k,
            i,
        )].0 == k && (forall|j: int| i <= j < index_from(e, k, i) ==> e[j].0 != k),
    decreases e.len() - i,
{
    if i < e.len() {
        lemma_index_from(e, k, i + 1);
    }
}

proof fn lemma_index_at<T>(e: Entries<T>, k: Seq<char>, i: int)
    requires
        0 <= i < e.len(),
        e[i].0 == k,
        forall|j: int| 0 <= j < i ==> e[j].0 != k,
    ensures
        index_of(e, k) == i,
{
    lemma_index_from(e, k, 0);
}

proof fn lemma_index_absent<T>(e: Entries<T>, k: Seq<char>)
    requires
        forall|j: int| 0 <= j < e.len() ==> e[j].0 != k,
    ensures
        index_of(e, k) < 0,
{
    lemma_index_from(e, k, 0);
}

/// After storing `v` under `k`, looking `k` up gives `v`, and every other key gives
/// what it gave before; nothing is found in an empty index.
pub proof fn lemma_lookup_insert<T>(e: Entries<T>, k: Seq<char>, v: T, other: Seq<char>)
    ensures
        lookup(insert_entry(e, k, v), k) == Some(v),
        other != k ==> lookup(insert_entry(e, k, v), other) == lookup(e, other),
        lookup(Seq::<(Seq<char>, T)>::empty(), k) is None,
{
    let e2 = insert_entry(e, k, v);
    lemma_index_from(e, k, 0);
    lemma_index_from(e, other, 0);
    lemma_index_absent(Seq::<(Seq<char>, T)>::empty(), k);
    let ie = index_of(e, k);
    assert(forall|j: int| 0 <= j < e.len() && j != ie ==> e2[j] == e[j]);
    assert(e2[if ie < 0 { e.len() as int } else { ie }] == (k, v));
    lemma_index_at(e2, k, if ie < 0 { e.len() as int } else { ie });
    if other != k {
        let io = index_of(e, other);
        assert(forall|j: int| 0 <= j < e2.len() ==> e2[j].0 != other || (j < e.len() && e2[j] == e[j]));
        if io >= 0 {
            lemma_index_at(e2, other, io);
        } else {
            lemma_index_absent(e2, other);
        }
    }
}

/// Inserting entries with distinct new keys appends them in the order they were
/// inserted: the order of an index is the order of first insertion.
pub proof fn lemma_insertion_order<T>(e: Entries<T>, kvs: Entries<T>)
    requires
        keys_unique(kvs),
        forall|i: int, j: int| 0 <= i < e.len() && 0 <= j < kvs.len() ==> e[i].0 != kvs[j].0,
    ensures
        insert_all(e, kvs) == e + kvs,
    decreases kvs.len(),
{
    if kvs.len() == 0 {
        assert(e + kvs =~= e);
    } else {
        lemma_index_from(e, kvs[0].0, 0);
        let e1 = insert_entry(e, kvs[0].0, kvs[0].1);
        assert(e1 == e.push(kvs[0]));
        let rest = kvs.drop_first();
        assert forall|i: int, j: int| 0 <= i < e1.len() && 0 <= j < rest.len() implies e1[i].0
            != rest[j].0 by {
            assert(rest[j] == kvs[j + 1]);
            if i < e.len() {
            } else {
                assert(e1[i] == kvs[0]);
            }
        }
        lemma_insertion_order(e1, rest);
        assert(e1 + rest =~= e + kvs);
    }
}

/// Values kept under unique names, in order of first insertion.
pub struct OrderedIndex<T> {
    names: Vec<String>,
    values: Vec<T>,
}

impl<T> View for OrderedIndex<T> {
    type V = Entries<T>;

    closed spec fn view(&self) -> Entries<T> {
        Seq::new(self.values@.len(), |i: int| (self.names@[i]@, self.values@[i]))
    }
}

impl<T> OrderedIndex<T> {
    pub closed spec fn wf(&self) -> bool {
        &&& self.names@.len() == self.values@.len()
        &&& keys_unique(self@)
    }

    pub fn new() -> (r: Self)
        ensures
            r.wf(),
            r@ == Seq::<(Seq<char>, T)>::empty(),
    {
        let r = OrderedIndex { names: Vec::new(), values: Vec::new() };
        assert(r@ =~= Seq::<(Seq<char>, T)>::empty());
        r
    }

    pub proof fn lemma_wf(&self)
        requires
            self.wf(),
        ensures
            keys_unique(self@),
    {
    }

    fn find(&self, key: &String) -> (r: Option<usize>)
        requires
            self.wf(),
        ensures
            match r {
                Some(i) => index_of(self@, key@) == i,
                None => index_of(self@, key@) < 0,
            },
    {
        let mut i: usize = 0;
        while i < self.names.len()
            invariant
                self.wf(),
                i <= self.names@.len(),
                index_of(self@, key@) == index_from(self@, key@, i as int),
            decreases self.names@.len() - i,
        {
            if self.names[i].eq(key) {
                assert(self@[i as int].0 == key@);
                return Some(i);
            }
            assert(self@[i as int].0 != key@);
            i = i + 1;
        }
        None
    }

    /// Stores `value` under `name`.
    pub fn insert(&mut self, name: String, value: T)
        requires
            old(self).wf(),
        ensures
            final(self).wf(),
            final(self)@ == insert_entry(old(self)@, name@, value),
    {
        proof {
            lemma_index_from(self@, name@, 0);
        }
        match self.find(&name) {
            None => {
                self.names.push(name);
                self.values.push(value);
                assert(self@ =~= old(self)@.push((name@, value)));
            },
            Some(i) => {
                self.values.remove(i);
                self.values.insert(i, value);
                assert(self@ =~= old(self)@.update(i as int, (name@, value)));
            },
        }
    }

    /// The value stored under `name`.
    pub fn get(&self, name: &str) -> (r: Option<&T>)
        requires
            self.wf(),
        ensures
            match r {
                Some(v) => lookup(self@, name@) == Some(*v),
                None => lookup(self@, name@) is None,
            },
    {
        let key = name.to_owned();
        proof {
            lemma_index_from(self@, key@, 0);
        }
        match self.find(&key) {
            Some(i) => Some(&self.values[i]),
            None => None,
        }
    }

    /// Every entry, in order of first insertion.
    pub fn entries(&self) -> (r: Vec<(&String, &T)>)
        requires
            self.wf(),
        ensures
            r@.len() == self@.len(),
            forall|i: int|
                0 <= i < r@.len() ==> (#[trigger] r@[i]).0@ == self@[i].0 && *r@[i].1
                    == self@[i].1,
    {
        let mut r: Vec<(&String, &T)> = Vec::new();
        let mut i: usize = 0;
        while i < self.values.len()
            invariant
                self.wf(),
                i <= self.values@.len(),
                r@.len() == i,
                forall|t: int|
                    0 <= t < i ==> (#[trigger] r@[t]).0@ == self@[t].0 && *r@[t].1 == self@[t].1,
            decreases self.values@.len() - i,
        {
            r.push((&self.names[i], &self.values[i]));
            i = i + 1;
        }
        r
    }
}

} // verus!
