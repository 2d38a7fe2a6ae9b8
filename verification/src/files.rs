//! The output mapping: relative path to byte content, keys unique,
//! insertion order irrelevant.  Modelled as a `Map<Seq<char>, Seq<u8>>`
//! and implemented as a vector of pairs with distinct keys.

use vstd::prelude::*;

use crate::strutil::str_eq;

verus! {

/// The entry vector holds no two pairs with the same key.
spec fn keys_distinct(s: Seq<(String, Vec<u8>)>) -> bool {
    forall|i: int, j: int| 0 <= i < j < s.len() ==> s[i].0@ != s[j].0@
}

/// The mapping that an entry vector stands for; a later pair with the
/// same key would win, though the invariant rules that out.
spec fn entry_map(s: Seq<(String, Vec<u8>)>) -> Map<Seq<char>, Seq<u8>>
    decreases s.len(),
{
    if s.len() == 0 {
        Map::empty()
    } else {
        entry_map(s.drop_last()).insert(s.last().0@, s.last().1@)
    }
}

proof fn lemma_entry_map_dom(s: Seq<(String, Vec<u8>)>)
    ensures
        forall|k: Seq<char>|
            entry_map(s).contains_key(k) <==> exists|i: int| 0 <= i < s.len() && s[i].0@ == k,
    decreases s.len(),
{
    if s.len() > 0 {
        lemma_entry_map_dom(s.drop_last());
        assert forall|k: Seq<char>| entry_map(s).contains_key(k) implies exists|i: int|
            0 <= i < s.len() && s[i].0@ == k by {
            if k == s.last().0@ {
                assert(s[s.len() - 1].0@ == k);
            } else {
                assert(entry_map(s.drop_last()).contains_key(k));
                let i = choose|i: int| 0 <= i < s.drop_last().len() && s.drop_last()[i].0@ == k;
                assert(s[i].0@ == k);
            }
        }
        assert forall|k: Seq<char>|
            (exists|i: int| 0 <= i < s.len() && s[i].0@ == k) implies entry_map(s).contains_key(
            k,
        ) by {
            let i = choose|i: int| 0 <= i < s.len() && s[i].0@ == k;
            if i < s.len() - 1 {
                assert(s.drop_last()[i].0@ == k);
                assert(entry_map(s.drop_last()).contains_key(k));
            }
        }
    }
}

proof fn lemma_entry_map_get(s: Seq<(String, Vec<u8>)>, i: int)
    requires
        keys_distinct(s),
        0 <= i < s.len(),
    ensures
        entry_map(s).contains_key(s[i].0@),
        entry_map(s)[s[i].0@] == s[i].1@,
    decreases s.len(),
{
    if i == s.len() - 1 {
        lemma_entry_map_dom(s);
    } else {
        lemma_entry_map_get(s.drop_last(), i);
        assert(s.drop_last()[i] == s[i]);
    }
}

proof fn lemma_entry_map_remove(s: Seq<(String, Vec<u8>)>, i: int)
    requires
        keys_distinct(s),
        0 <= i < s.len(),
    ensures
        keys_distinct(s.remove(i)),
        entry_map(s) == entry_map(s.remove(i)).insert(s[i].0@, s[i].1@),
    decreases s.len(),
{
    assert(keys_distinct(s.remove(i)));
    if i == s.len() - 1 {
        assert(s.remove(i) =~= s.drop_last());
    } else {
        lemma_entry_map_remove(s.drop_last(), i);
        assert(s.remove(i).drop_last() =~= s.drop_last().remove(i));
        assert(s.remove(i).last() == s.last());
        assert(entry_map(s.remove(i)) == entry_map(s.drop_last().remove(i)).insert(
            s.last().0@,
            s.last().1@,
        ));
        // the two inserted keys differ, so the inserts commute
        assert(s[i].0@ != s.last().0@);
        assert(entry_map(s.drop_last().remove(i)).insert(s[i].0@, s[i].1@).insert(
            s.last().0@,
            s.last().1@,
        ) =~= entry_map(s.drop_last().remove(i)).insert(s.last().0@, s.last().1@).insert(
            s[i].0@,
            s[i].1@,
        ));
        assert(entry_map(s) =~= entry_map(s.remove(i)).insert(s[i].0@, s[i].1@));
    }
}

proof fn lemma_entry_map_card(s: Seq<(String, Vec<u8>)>)
    requires
        keys_distinct(s),
    ensures
        entry_map(s).dom().finite(),
        entry_map(s).dom().len() == s.len(),
    decreases s.len(),
{
    if s.len() > 0 {
        lemma_entry_map_card(s.drop_last());
        lemma_entry_map_dom(s.drop_last());
        assert(!entry_map(s.drop_last()).contains_key(s.last().0@));
        assert(entry_map(s).dom() =~= entry_map(s.drop_last()).dom().insert(s.last().0@));
    }
}

/// The output mapping of one extraction-and-processing job: relative
/// output path to byte content.
#[derive(Debug)]
pub struct Files {
    entries: Vec<(String, Vec<u8>)>,
}

impl View for Files {
    type V = Map<Seq<char>, Seq<u8>>;

    closed spec fn view(&self) -> Map<Seq<char>, Seq<u8>> {
        entry_map(self.entries@)
    }
}

impl Files {
    #[verifier::type_invariant]
    spec fn wf(self) -> bool {
        keys_distinct(self.entries@)
    }

    /// An empty mapping.
    pub fn new() -> (r: Files)
        ensures
            r@ == Map::<Seq<char>, Seq<u8>>::empty(),
    {
        Files { entries: Vec::new() }
    }

    /// The number of entries.
    pub fn len(&self) -> (r: usize)
        ensures
            r == self@.dom().len(),
    {
        proof {
            use_type_invariant(self);
            lemma_entry_map_card(self.entries@);
        }
        self.entries.len()
    }

    /// Does the mapping hold an entry under `path`?
    pub fn contains_key(&self, path: &str) -> (r: bool)
        ensures
            r == self@.contains_key(path@),
    {
        self.get(path).is_some()
    }

    /// The bytes stored under `path`, if any.
    pub fn get(&self, path: &str) -> (r: Option<&Vec<u8>>)
        ensures
            match r {
                Some(v) => self@.contains_key(path@) && v@ == self@[path@],
                None => !self@.contains_key(path@),
            },
    {
        proof {
            use_type_invariant(self);
            lemma_entry_map_dom(self.entries@);
        }
        let n = self.entries.len();
        let mut i: usize = 0;
        while i < n
            invariant
                i <= n,
                n == self.entries@.len(),
                keys_distinct(self.entries@),
                forall|j: int| 0 <= j < i ==> self.entries@[j].0@ != path@,
            decreases n - i,
        {
            if str_eq(self.entries[i].0.as_str(), path) {
                proof {
                    lemma_entry_map_get(self.entries@, i as int);
                }
                return Some(&self.entries[i].1);
            }
            i += 1;
        }
        None
    }

    /// Every key of the mapping, each exactly once, in insertion
    /// order.
    pub fn keys(&self) -> (r: Vec<String>)
        ensures
            r@.len() == self@.dom().len(),
            forall|i: int| 0 <= i < r@.len() ==> self@.contains_key(#[trigger] r@[i]@),
            forall|i: int, j: int| 0 <= i < j < r@.len() ==> r@[i]@ != r@[j]@,
            forall|k: Seq<char>|
                self@.contains_key(k) ==> exists|i: int| 0 <= i < r@.len() && r@[i]@ == k,
    {
        proof {
            use_type_invariant(self);
            lemma_entry_map_card(self.entries@);
            lemma_entry_map_dom(self.entries@);
        }
        let n = self.entries.len();
        let mut r: Vec<String> = Vec::new();
        let mut i: usize = 0;
        while i < n
            invariant
                i <= n,
                n == self.entries@.len(),
                keys_distinct(self.entries@),
                r@.len() == i,
                forall|j: int| 0 <= j < i ==> #[trigger] r@[j]@ == self.entries@[j].0@,
            decreases n - i,
        {
            r.push(self.entries[i].0.clone());
            i += 1;
        }
        proof {
            assert forall|k: Seq<char>| self@.contains_key(k) implies exists|i: int|
                0 <= i < r@.len() && r@[i]@ == k by {
                let i = choose|i: int| 0 <= i < self.entries@.len() && self.entries@[i].0@ == k;
                assert(r@[i]@ == k);
            }
        }
        r
    }

    /// Store `bytes` under `path`, replacing any prior entry there:
    /// last write wins.
    pub fn insert(&mut self, path: String, bytes: Vec<u8>)
        ensures
            final(self)@ == old(self)@.insert(path@, bytes@),
    {
        proof {
            use_type_invariant(&*self);
        }
        let mut v: Vec<(String, Vec<u8>)> = Vec::new();
        core::mem::swap(&mut v, &mut self.entries);
        let ghost s = v@;
        let n = v.len();
        let mut i: usize = 0;
        while i < n
            invariant
                i <= n,
                n == v@.len(),
                v@ == s,
                old(self).entries@ == s,
                keys_distinct(s),
                forall|j: int| 0 <= j < i ==> v@[j].0@ != path@,
            decreases n - i,
        {
            let hit = str_eq(v[i].0.as_str(), path.as_str());
            if hit {
                proof {
                    assert(s[i as int].0@ == path@);
                    lemma_entry_map_remove(s, i as int);
                }
                let _ = v.remove(i);
                v.push((path, bytes));
                proof {
                    let ghost rest = s.remove(i as int);
                    assert(v@.drop_last() =~= rest);
                    assert(entry_map(v@) == entry_map(rest).insert(path@, bytes@));
                    assert(entry_map(s).insert(path@, bytes@) =~= entry_map(rest).insert(
                        path@,
                        bytes@,
                    ));
                    assert(forall|j: int| 0 <= j < rest.len() ==> rest[j].0@ != path@);
                    assert forall|a: int, b: int| 0 <= a < b < v@.len() implies v@[a].0@
                        != v@[b].0@ by {
                        if b == v@.len() - 1 {
                            assert(v@[a].0@ == rest[a].0@);
                        }
                    }
                    assert(old(self).entries@ == s);
                    assert(entry_map(v@) == old(self)@.insert(path@, bytes@));
                }
                self.entries = v;
                return;
            }
            i += 1;
        }
        v.push((path, bytes));
        proof {
            assert(v@.drop_last() =~= s);
            assert forall|a: int, b: int| 0 <= a < b < v@.len() implies v@[a].0@ != v@[b].0@ by {
                if b == v@.len() - 1 {
                    assert(v@[a].0@ == s[a].0@);
                }
            }
        }
        self.entries = v;
    }
}

} // verus!
