use vstd::prelude::*;

use crate::text::{chars_of, same};

verus! {

/// The map built by entering the pairs of `s` in order (a later pair with
/// the same name replaces an earlier one).
pub open spec fn map_of(s: Seq<(String, u32)>) -> Map<Seq<char>, u32>
    decreases s.len(),
{
    if s.len() == 0 {
        Map::empty()
    } else {
        map_of(s.drop_last()).insert(s.last().0@, s.last().1)
    }
}

pub open spec fn names_distinct(s: Seq<(String, u32)>) -> bool {
    forall|i: int, j: int| 0 <= i < j < s.len() ==> s[i].0@ != s[j].0@
}

/// The processes started by the application, by the name under which they
/// are tracked ("tg_proxy", "zapret", "bypass_<key>").
pub struct PidTable {
    entries: Vec<(String, u32)>,
}

impl View for PidTable {
    type V = Map<Seq<char>, u32>;

    closed spec fn view(&self) -> Map<Seq<char>, u32> {
        map_of(self.entries@)
    }
}

pub proof fn lemma_map_of_dom(s: Seq<(String, u32)>, k: Seq<char>)
    ensures
        map_of(s).contains_key(k) <==> exists|i: int| 0 <= i < s.len() && s[i].0@ == k,
    decreases s.len(),
{
    if s.len() > 0 {
        lemma_map_of_dom(s.drop_last(), k);
        if map_of(s.drop_last()).contains_key(k) {
            let i = choose|i: int| 0 <= i < s.drop_last().len() && s.drop_last()[i].0@ == k;
            assert(s[i].0@ == k);
        }
        if exists|i: int| 0 <= i < s.len() && s[i].0@ == k {
            let i = choose|i: int| 0 <= i < s.len() && s[i].0@ == k;
            if i < s.len() - 1 {
                assert(s.drop_last()[i].0@ == k);
            }
        }
    }
}

/// In a sequence with distinct names, the map holds each pair.
pub proof fn lemma_map_of_at(s: Seq<(String, u32)>, i: int)
    requires
        names_distinct(s),
        0 <= i < s.len(),
    ensures
        map_of(s).contains_key(s[i].0@),
        map_of(s)[s[i].0@] == s[i].1,
    decreases s.len(),
{
    if i < s.len() - 1 {
        assert(names_distinct(s.drop_last()));
        assert(s.drop_last()[i] == s[i]);
        lemma_map_of_at(s.drop_last(), i);
    }
}

/// Values of the map are the values of the pairs.
pub proof fn lemma_map_of_value(s: Seq<(String, u32)>, k: Seq<char>)
    requires
        map_of(s).contains_key(k),
    ensures
        exists|i: int| 0 <= i < s.len() && s[i].0@ == k && s[i].1 == map_of(s)[k],
    decreases s.len(),
{
    if s.last().0@ != k {
        lemma_map_of_value(s.drop_last(), k);
        let i = choose|i: int|
            0 <= i < s.drop_last().len() && s.drop_last()[i].0@ == k && s.drop_last()[i].1 == map_of(
                s.drop_last(),
            )[k];
        assert(s[i] == s.drop_last()[i]);
    } else {
        assert(s[s.len() - 1].0@ == k);
    }
}

impl PidTable {
    #[verifier::type_invariant]
    closed spec fn inv(self) -> bool {
        names_distinct(self.entries@)
    }

    /// An empty table.
    pub fn new() -> (t: Self)
        ensures
            t@ == Map::<Seq<char>, u32>::empty(),
    {
        PidTable { entries: Vec::new() }
    }

    fn position(&self, key: &Vec<char>) -> (r: Option<usize>)
        ensures
            r matches Some(i) ==> i < self.entries@.len() && self.entries@[i as int].0@ == key@,
            r is None ==> forall|i: int|
                0 <= i < self.entries@.len() ==> self.entries@[i].0@ != key@,
    {
        for i in 0..self.entries.len()
            invariant
                forall|j: int| 0 <= j < i ==> self.entries@[j].0@ != key@,
        {
            let name = chars_of(self.entries[i].0.as_str());
            if same(&name, key) {
                return Some(i);
            }
        }
        None
    }

    /// The process tracked under `key`.
    pub fn get(&self, key: &str) -> (r: Option<u32>)
        ensures
            r == (if self@.contains_key(key@) {
                Some(self@[key@])
            } else {
                None
            }),
    {
        proof {
            use_type_invariant(self);
        }
        let k = chars_of(key);
        match self.position(&k) {
            Some(i) => {
                proof {
                    lemma_map_of_at(self.entries@, i as int);
                }
                Some(self.entries[i].1)
            },
            None => {
                proof {
                    lemma_map_of_dom(self.entries@, key@);
                }
                None
            },
        }
    }

    /// The entries without the one named `key`, in their order.
    fn without(&self, key: &Vec<char>) -> (r: Vec<(String, u32)>)
        ensures
            map_of(r@) == self@.remove(key@),
            names_distinct(r@),
            forall|i: int| 0 <= i < r@.len() ==> #[trigger] r@[i].0@ != key@,
    {
        proof {
            use_type_invariant(self);
        }
        let mut r: Vec<(String, u32)> = Vec::new();
        for i in 0..self.entries.len()
            invariant
                names_distinct(self.entries@),
                map_of(r@) == map_of(self.entries@.take(i as int)).remove(key@),
                names_distinct(r@),
                forall|a: int| 0 <= a < r@.len() ==> #[trigger] r@[a].0@ != key@,
                forall|a: int|
                    0 <= a < r@.len() ==> exists|b: int| 0 <= b < i && self.entries@[b].0@ == #[trigger] r@[a].0@,
        {
            let name = chars_of(self.entries[i].0.as_str());
            let e = &self.entries[i];
            assert(self.entries@.take(i + 1).drop_last() =~= self.entries@.take(i as int));
            if !same(&name, key) {
                let ghost r0 = r@;
                r.push((e.0.clone(), e.1));
                proof {
                    assert(r@.drop_last() == r0);
                    assert(map_of(r@) =~= map_of(self.entries@.take(i + 1)).remove(key@));
                    assert forall|a: int, b: int| 0 <= a < b < r@.len() implies r@[a].0@ != r@[b].0@ by {
                        if b == r@.len() - 1 {
                            let c = choose|c: int| 0 <= c < i && self.entries@[c].0@ == r0[a].0@;
                            assert(r@[a] == r0[a]);
                        } else {
                            assert(r@[a] == r0[a] && r@[b] == r0[b]);
                        }
                    }
                    assert forall|a: int| 0 <= a < r@.len() implies exists|b: int|
                        0 <= b < i + 1 && self.entries@[b].0@ == #[trigger] r@[a].0@ by {
                        if a < r@.len() - 1 {
                            assert(r@[a] == r0[a]);
                            let c = choose|c: int| 0 <= c < i && self.entries@[c].0@ == r0[a].0@;
                            assert(self.entries@[c].0@ == r@[a].0@);
                        } else {
                            assert(self.entries@[i as int].0@ == r@[a].0@);
                        }
                    }
                }
            } else {
                assert(map_of(r@) =~= map_of(self.entries@.take(i + 1)).remove(key@));
            }
        }
        assert(self.entries@.take(self.entries@.len() as int) =~= self.entries@);
        r
    }

    /// Tracks `pid` under `key`, replacing any process tracked under it.
    pub fn insert(&mut self, key: String, pid: u32)
        ensures
            final(self)@ == old(self)@.insert(key@, pid),
    {
        let k = chars_of(key.as_str());
        let mut rest = self.without(&k);
        let ghost r0 = rest@;
        rest.push((key, pid));
        proof {
            assert(rest@.drop_last() == r0);
            assert(map_of(rest@) =~= old(self)@.insert(k@, pid));
            assert forall|a: int, b: int| 0 <= a < b < rest@.len() implies rest@[a].0@ != rest@[b].0@ by {
                assert(rest@[a] == r0[a]);
                if b < rest@.len() - 1 {
                    assert(rest@[b] == r0[b]);
                }
            }
        }
        self.entries = rest;
    }

    /// Stops tracking `key`; gives back the process that was tracked under it.
    pub fn remove(&mut self, key: &str) -> (r: Option<u32>)
        ensures
            r == (if old(self)@.contains_key(key@) {
                Some(old(self)@[key@])
            } else {
                None
            }),
            final(self)@ == old(self)@.remove(key@),
    {
        let r = self.get(key);
        let k = chars_of(key);
        let rest = self.without(&k);
        self.entries = rest;
        r
    }

    /// Stops tracking every process; gives back the processes that were
    /// tracked, one per name.
    pub fn drain(&mut self) -> (r: Vec<u32>)
        ensures
            final(self)@ == Map::<Seq<char>, u32>::empty(),
            values_listed(old(self)@, r@),
            r@.len() == old(self)@.dom().len(),
    {
        proof {
            use_type_invariant(&*self);
        }
        let mut r: Vec<u32> = Vec::new();
        for i in 0..self.entries.len()
            invariant
                names_distinct(self.entries@),
                r@.len() == i,
                forall|j: int| 0 <= j < i ==> r@[j] == #[trigger] self.entries@[j].1,
        {
            r.push(self.entries[i].1);
        }
        proof {
            let s = self.entries@;
            assert forall|k: Seq<char>| #[trigger] map_of(s).contains_key(k) implies r@.contains(
                map_of(s)[k],
            ) by {
                lemma_map_of_value(s, k);
                let i = choose|i: int| 0 <= i < s.len() && s[i].0@ == k && s[i].1 == map_of(s)[k];
                assert(r@[i] == s[i].1);
            }
            assert(old(self)@ == map_of(s));
            assert forall|i: int| 0 <= i < r@.len() implies exists|k: Seq<char>|
                #[trigger] old(self)@.contains_key(k) && old(self)@[k] == #[trigger] r@[i] by {
                lemma_map_of_at(s, i);
                assert(old(self)@.contains_key(s[i].0@));
                assert(old(self)@[s[i].0@] == r@[i]);
            }
            lemma_map_of_len(s);
        }
        self.entries = Vec::new();
        r
    }
}

/// `r` lists the processes of `m`: each tracked process occurs in `r`, and
/// each entry of `r` is a tracked process.
pub open spec fn values_listed(m: Map<Seq<char>, u32>, r: Seq<u32>) -> bool {
    &&& forall|k: Seq<char>| #[trigger] m.contains_key(k) ==> r.contains(m[k])
    &&& forall|i: int|
        0 <= i < r.len() ==> exists|k: Seq<char>| #[trigger] m.contains_key(k) && m[k] == #[trigger] r[i]
}

pub proof fn lemma_map_of_len(s: Seq<(String, u32)>)
    requires
        names_distinct(s),
    ensures
        map_of(s).dom().len() == s.len(),
        map_of(s).dom().finite(),
    decreases s.len(),
{
    if s.len() > 0 {
        assert(names_distinct(s.drop_last()));
        lemma_map_of_len(s.drop_last());
        lemma_map_of_dom(s.drop_last(), s.last().0@);
        if map_of(s.drop_last()).contains_key(s.last().0@) {
            let i = choose|i: int| 0 <= i < s.drop_last().len() && s.drop_last()[i].0@ == s.last().0@;
            assert(s[i] == s.drop_last()[i]);
            assert(false);
        }
    }
}

} // verus!
