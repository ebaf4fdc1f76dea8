//! The header collection of a request: header names, each with one value.

use vstd::prelude::*;

verus! {

/// The headers of a request. Its view is the map from each header name to
/// the value that was last recorded under it.
#[derive(Debug)]
pub struct HttpHeader {
    headers: Vec<(String, String)>,
}

/// No name occurs twice among `entries`.
spec fn distinct_names(entries: Seq<(String, String)>) -> bool {
    forall|i: int, j: int| 0 <= i < j < entries.len() ==> entries[i].0@ != entries[j].0@
}

/// The map that a run of insertions builds: a later entry replaces an
/// earlier one of the same name.
spec fn to_map(entries: Seq<(String, String)>) -> Map<Seq<char>, Seq<char>>
    decreases entries.len(),
{
    if entries.len() == 0 {
        Map::empty()
    } else {
        to_map(entries.drop_last()).insert(entries.last().0@, entries.last().1@)
    }
}

/// With distinct names the map holds exactly the entries, one key each.
proof fn lemma_to_map(entries: Seq<(String, String)>)
    requires
        distinct_names(entries),
    ensures
        forall|k: Seq<char>| #[trigger]
            to_map(entries).contains_key(k) <==> exists|i: int|
                0 <= i < entries.len() && entries[i].0@ == k,
        forall|i: int|
            0 <= i < entries.len() ==> to_map(entries)[#[trigger] entries[i].0@] == entries[i].1@,
        to_map(entries).dom().finite(),
        to_map(entries).len() == entries.len(),
    decreases entries.len(),
{
    if entries.len() > 0 {
        let init = entries.drop_last();
        let last = entries.last();
        lemma_to_map(init);
        assert forall|k: Seq<char>| #[trigger]
            to_map(entries).contains_key(k) implies exists|i: int|
            0 <= i < entries.len() && entries[i].0@ == k by {
            if k == last.0@ {
                assert(entries[entries.len() - 1].0@ == k);
            } else {
                let i = choose|i: int| 0 <= i < init.len() && init[i].0@ == k;
                assert(entries[i].0@ == k);
            }
        }
        assert forall|k: Seq<char>|
            (exists|i: int| 0 <= i < entries.len() && entries[i].0@ == k) implies #[trigger]
            to_map(entries).contains_key(k) by {
            let i = choose|i: int| 0 <= i < entries.len() && entries[i].0@ == k;
            if i < init.len() {
                assert(init[i].0@ == k);
            }
        }
        assert forall|i: int| 0 <= i < entries.len() implies to_map(
            entries,
        )[#[trigger] entries[i].0@] == entries[i].1@ by {
            if i < init.len() {
                assert(init[i] == entries[i]);
                assert(entries[i].0@ != last.0@);
            }
        }
        assert(!to_map(init).contains_key(last.0@)) by {
            if to_map(init).contains_key(last.0@) {
                let i = choose|i: int| 0 <= i < init.len() && init[i].0@ == last.0@;
                assert(entries[i].0@ == entries[entries.len() - 1].0@);
            }
        }
    }
}

impl View for HttpHeader {
    type V = Map<Seq<char>, Seq<char>>;

    closed spec fn view(&self) -> Map<Seq<char>, Seq<char>> {
        to_map(self.headers@)
    }
}

impl HttpHeader {
    #[verifier::type_invariant]
    spec fn names_are_distinct(&self) -> bool {
        distinct_names(self.headers@)
    }

    /// A collection without headers.
    pub fn empty() -> (r: HttpHeader)
        ensures
            r@ == Map::<Seq<char>, Seq<char>>::empty(),
    {
        HttpHeader { headers: Vec::new() }
    }

    /// The index of the entry called `name`.
    fn position(&self, name: &String) -> (r: Option<usize>)
        ensures
            match r {
                Some(i) => i < self.headers@.len() && self.headers@[i as int].0@ == name@,
                None => forall|j: int|
                    0 <= j < self.headers@.len() ==> self.headers@[j].0@ != name@,
            },
    {
        let mut i: usize = 0;
        while i < self.headers.len()
            invariant
                i <= self.headers@.len(),
                forall|j: int| 0 <= j < i ==> self.headers@[j].0@ != name@,
            decreases self.headers@.len() - i,
        {
            if self.headers[i].0 == *name {
                return Some(i);
            }
            i += 1;
        }
        None
    }

    /// Records `value` under `name`, in place of any value recorded under
    /// that name before.
    pub fn insert(&mut self, name: String, value: String)
        ensures
            final(self)@ == old(self)@.insert(name@, value@),
    {
        proof {
            use_type_invariant(&*self);
            lemma_to_map(self.headers@);
        }
        let ghost before = self.headers@;
        let found = self.position(&name);
        let mut entries: Vec<(String, String)> = Vec::new();
        core::mem::swap(&mut self.headers, &mut entries);
        match found {
            Some(i) => {
                let ghost after = before.update(i as int, (name, value));
                proof {
                    assert(distinct_names(after));
                    lemma_to_map(after);
                    assert forall|k: Seq<char>| #[trigger]
                        to_map(after).contains_key(k) <==> to_map(before).insert(
                            name@,
                            value@,
                        ).contains_key(k) by {
                        if to_map(after).contains_key(k) {
                            let j = choose|j: int| 0 <= j < after.len() && after[j].0@ == k;
                            assert(before[j].0@ == k);
                        }
                        if to_map(before).contains_key(k) {
                            let j = choose|j: int| 0 <= j < before.len() && before[j].0@ == k;
                            assert(after[j].0@ == k);
                        }
                        if k == name@ {
                            assert(after[i as int].0@ == k);
                        }
                    }
                    assert forall|k: Seq<char>| #[trigger]
                        to_map(after).contains_key(k) implies to_map(after)[k] == to_map(
                        before,
                    ).insert(name@, value@)[k] by {
                        let j = choose|j: int| 0 <= j < after.len() && after[j].0@ == k;
                        assert(to_map(after)[after[j].0@] == after[j].1@);
                        if j != i {
                            assert(to_map(before)[before[j].0@] == before[j].1@);
                        }
                    }
                    assert(to_map(after) =~= to_map(before).insert(name@, value@));
                }
                entries[i] = (name, value);
            },
            None => {
                proof {
                    assert(before.push((name, value)).drop_last() =~= before);
                }
                entries.push((name, value));
            },
        }
        self.headers = entries;
    }

    /// The value recorded under `name`.
    pub fn get(&self, name: &str) -> (r: Option<&String>)
        ensures
            match r {
                Some(value) => self@.contains_key(name@) && self@[name@] == value@,
                None => !self@.contains_key(name@),
            },
    {
        proof {
            use_type_invariant(self);
            lemma_to_map(self.headers@);
        }
        let key = name.to_owned();
        match self.position(&key) {
            Some(i) => {
                let ghost entry = self.headers@[i as int];
                assert(to_map(self.headers@)[entry.0@] == entry.1@);
                Some(&self.headers[i].1)
            },
            None => None,
        }
    }

    /// The number of headers.
    pub fn len(&self) -> (n: usize)
        ensures
            self@.dom().finite(),
            n == self@.len(),
    {
        proof {
            use_type_invariant(self);
            lemma_to_map(self.headers@);
        }
        self.headers.len()
    }

    /// Whether there is no header.
    pub fn is_empty(&self) -> (r: bool)
        ensures
            r == (self@ == Map::<Seq<char>, Seq<char>>::empty()),
    {
        proof {
            use_type_invariant(self);
            lemma_to_map(self.headers@);
            if self.headers@.len() > 0 {
                assert(to_map(self.headers@).contains_key(self.headers@[0].0@));
            }
        }
        self.headers.len() == 0
    }
}

} // verus!
