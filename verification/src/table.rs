//! Lookup tables built once per invocation and read-only afterwards: the
//! paragraph map, the cross-reference table, and the citation table.
//!
//! A table is a sequence of entries; a lookup returns the value of the entry
//! added last among those with the requested key, so a duplicate key behaves
//! as an overwrite.

use vstd::prelude::*;

verus! {

/// Value of the last pair in `entries` whose key equals `key`.
pub open spec fn spec_get(entries: Seq<(Seq<char>, Seq<char>)>, key: Seq<char>) -> Option<
    Seq<char>,
>
    decreases entries.len(),
{
    if entries.len() == 0 {
        None
    } else if entries.last().0 == key {
        Some(entries.last().1)
    } else {
        spec_get(entries.drop_last(), key)
    }
}

/// Author and year of the last citation entry in `entries` whose key equals
/// `key`.
pub open spec fn spec_get_cite(
    entries: Seq<(Seq<char>, Seq<char>, Seq<char>)>,
    key: Seq<char>,
) -> Option<(Seq<char>, Seq<char>)>
    decreases entries.len(),
{
    if entries.len() == 0 {
        None
    } else if entries.last().0 == key {
        Some((entries.last().1, entries.last().2))
    } else {
        spec_get_cite(entries.drop_last(), key)
    }
}

/// Whether no two pairs of `entries` share a key.
pub open spec fn distinct_keys(entries: Seq<(Seq<char>, Seq<char>)>) -> bool {
    forall|i: int, j: int| 0 <= i < j < entries.len() ==> entries[i].0 != entries[j].0
}

/// When no two pairs share a key, a lookup finds exactly the pair the table
/// contains for that key.
pub proof fn lemma_get_of_contained(
    entries: Seq<(Seq<char>, Seq<char>)>,
    key: Seq<char>,
    value: Seq<char>,
)
    requires
        entries.contains((key, value)),
        distinct_keys(entries),
    ensures
        spec_get(entries, key) == Some(value),
    decreases entries.len(),
{
    let i = choose|i: int| 0 <= i < entries.len() && entries[i] == (key, value);
    if entries.last().0 == key {
        if i < entries.len() - 1 {
            assert(entries[i].0 == entries[entries.len() - 1].0);
            assert(false);
        }
        assert(entries.last() == (key, value));
    } else {
        assert(i < entries.len() - 1);
        assert(entries.drop_last()[i] == (key, value));
        assert(entries.drop_last().contains((key, value)));
        assert forall|a: int, b: int|
            0 <= a < b < entries.drop_last().len() implies entries.drop_last()[a].0
            != entries.drop_last()[b].0 by {
            assert(entries[a].0 != entries[b].0);
        }
        lemma_get_of_contained(entries.drop_last(), key, value);
    }
}

/// A string-to-string table: the paragraph map of one document snapshot
/// (label or ordinal key, paragraph text) and the cross-reference table
/// (label, display number).
pub struct StrMap {
    entries: Vec<(String, String)>,
}

impl View for StrMap {
    type V = Seq<(Seq<char>, Seq<char>)>;

    closed spec fn view(&self) -> Seq<(Seq<char>, Seq<char>)> {
        self.entries@.map_values(|p: (String, String)| (p.0@, p.1@))
    }
}

impl StrMap {
    /// An empty table.
    pub fn new() -> (r: StrMap)
        ensures
            r@ == Seq::<(Seq<char>, Seq<char>)>::empty(),
    {
        let r = StrMap { entries: Vec::new() };
        proof {
            assert(r@ =~= Seq::<(Seq<char>, Seq<char>)>::empty());
        }
        r
    }

    /// Adds a pair at the end; it shadows earlier pairs with the same key.
    pub fn insert(&mut self, key: String, value: String)
        ensures
            final(self)@ == old(self)@.push((key@, value@)),
    {
        let ghost pre = self@;
        self.entries.push((key, value));
        proof {
            assert(self@ =~= pre.push(
                (self.entries@.last().0@, self.entries@.last().1@),
            ));
        }
    }

    /// Number of entries.
    pub fn len(&self) -> (r: usize)
        ensures
            r == self@.len(),
    {
        self.entries.len()
    }

    /// Value stored under `key`, when there is one.
    pub fn get(&self, key: &str) -> (r: Option<&String>)
        ensures
            match r {
                Some(v) => spec_get(self@, key@) == Some(v@),
                None => spec_get(self@, key@) is None,
            },
    {
        let k = String::from_str(key);
        let mut i = self.entries.len();
        proof {
            assert(self@.take(i as int) =~= self@);
        }
        while i > 0
            invariant
                i <= self.entries.len(),
                k@ == key@,
                spec_get(self@, key@) == spec_get(self@.take(i as int), key@),
            decreases i,
        {
            i -= 1;
            if self.entries[i].0 == k {
                proof {
                    assert(self@.take(i as int + 1).drop_last() =~= self@.take(i as int));
                    assert(self@.take(i as int + 1).last() == self@[i as int]);
                }
                return Some(&self.entries[i].1);
            }
            proof {
                assert(self@.take(i as int + 1).drop_last() =~= self@.take(i as int));
                assert(self@.take(i as int + 1).last() == self@[i as int]);
            }
        }
        proof {
            assert(self@.take(0) =~= Seq::<(Seq<char>, Seq<char>)>::empty());
        }
        None
    }
}

/// One resolved bibliography entry: citation key, author display string, year.
pub struct CiteEntry {
    pub key: String,
    pub author: String,
    pub year: String,
}

/// The citation table: key to author display string and year.
pub struct CiteTable {
    entries: Vec<CiteEntry>,
}

impl View for CiteTable {
    type V = Seq<(Seq<char>, Seq<char>, Seq<char>)>;

    closed spec fn view(&self) -> Seq<(Seq<char>, Seq<char>, Seq<char>)> {
        self.entries@.map_values(|e: CiteEntry| (e.key@, e.author@, e.year@))
    }
}

impl CiteTable {
    /// An empty table.
    pub fn new() -> (r: CiteTable)
        ensures
            r@ == Seq::<(Seq<char>, Seq<char>, Seq<char>)>::empty(),
    {
        let r = CiteTable { entries: Vec::new() };
        proof {
            assert(r@ =~= Seq::<(Seq<char>, Seq<char>, Seq<char>)>::empty());
        }
        r
    }

    /// Adds an entry at the end; it shadows earlier entries with the same key.
    pub fn insert(&mut self, key: String, author: String, year: String)
        ensures
            final(self)@ == old(self)@.push((key@, author@, year@)),
    {
        let ghost pre = self@;
        self.entries.push(CiteEntry { key, author, year });
        proof {
            let e = self.entries@.last();
            assert(self@ =~= pre.push((e.key@, e.author@, e.year@)));
        }
    }

    /// Number of entries.
    pub fn len(&self) -> (r: usize)
        ensures
            r == self@.len(),
    {
        self.entries.len()
    }

    /// Author and year stored under `key`, when there is an entry for it.
    pub fn get(&self, key: &str) -> (r: Option<(&String, &String)>)
        ensures
            match r {
                Some(v) => spec_get_cite(self@, key@) == Some((v.0@, v.1@)),
                None => spec_get_cite(self@, key@) is None,
            },
    {
        let k = String::from_str(key);
        let mut i = self.entries.len();
        proof {
            assert(self@.take(i as int) =~= self@);
        }
        while i > 0
            invariant
                i <= self.entries.len(),
                k@ == key@,
                spec_get_cite(self@, key@) == spec_get_cite(self@.take(i as int), key@),
            decreases i,
        {
            i -= 1;
            if self.entries[i].key == k {
                proof {
                    assert(self@.take(i as int + 1).drop_last() =~= self@.take(i as int));
                    assert(self@.take(i as int + 1).last() == self@[i as int]);
                }
                return Some((&self.entries[i].author, &self.entries[i].year));
            }
            proof {
                assert(self@.take(i as int + 1).drop_last() =~= self@.take(i as int));
                assert(self@.take(i as int + 1).last() == self@[i as int]);
            }
        }
        proof {
            assert(self@.take(0) =~= Seq::<(Seq<char>, Seq<char>, Seq<char>)>::empty());
        }
        None
    }
}

} // verus!
