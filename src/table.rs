//! A table keyed by names: the generator's environment is made of these.
//! Entries are appended; a lookup finds the latest entry for its key.
use vstd::prelude::*;

verus! {

/// The map that a list of entries stands for: a later entry for a key
/// replaces an earlier one.
pub open spec fn table_map<V: DeepView>(s: Seq<(String, V)>) -> Map<Seq<char>, V::V>
    decreases s.len(),
{
    if s.len() == 0 {
        Map::empty()
    } else {
        table_map(s.drop_last()).insert(s.last().0@, s.last().1.deep_view())
    }
}

/// Names to values.
#[derive(Debug)]
pub struct Table<V> {
    pub entries: Vec<(String, V)>,
}

proof fn lemma_table_suffix<V: DeepView>(s: Seq<(String, V)>, n: int, key: Seq<char>)
    requires
        0 <= n <= s.len(),
        forall|j: int| n <= j < s.len() ==> (#[trigger] s[j]).0@ != key,
    ensures
        table_map(s).contains_key(key) == table_map(s.subrange(0, n)).contains_key(key),
        table_map(s).contains_key(key) ==> table_map(s)[key] == table_map(s.subrange(0, n))[key],
    decreases s.len() - n,
{
    if n == s.len() {
        assert(s.subrange(0, n) =~= s);
    } else {
        let t = s.drop_last();
        assert(t.subrange(0, n) =~= s.subrange(0, n));
        lemma_table_suffix(t, n, key);
    }
}

impl<V: DeepView> Table<V> {
    pub open spec fn view(&self) -> Map<Seq<char>, V::V> {
        table_map(self.entries@)
    }

    pub fn new() -> (r: Self)
        ensures
            r@ == Map::<Seq<char>, V::V>::empty(),
    {
        Table { entries: Vec::new() }
    }

    pub fn insert(&mut self, k: String, v: V)
        ensures
            final(self)@ == old(self)@.insert(k@, v.deep_view()),
    {
        let ghost before = self.entries@;
        self.entries.push((k, v));
        assert(self.entries@.drop_last() =~= before);
    }

    /// The value of the latest entry for `k`.
    pub fn get(&self, k: &String) -> (r: Option<&V>)
        ensures
            match r {
                Some(v) => self@.contains_key(k@) && self@[k@] == v.deep_view(),
                None => !self@.contains_key(k@),
            },
    {
        let mut n = self.entries.len();
        while n > 0
            invariant
                n <= self.entries.len(),
                forall|j: int| n <= j < self.entries.len() ==> (#[trigger] self.entries@[j]).0@ != k@,
            decreases n,
        {
            n -= 1;
            if self.entries[n].0 == *k {
                proof {
                    lemma_table_suffix(self.entries@, n + 1, k@);
                    assert(self.entries@.subrange(0, n + 1).drop_last() =~= self.entries@.subrange(0, n as int));
                }
                return Some(&self.entries[n].1);
            }
        }
        proof {
            lemma_table_suffix(self.entries@, 0, k@);
        }
        None
    }
}

} // verus!
