//! Neutral print filters by paper, lamp and film.

use vstd::prelude::*;

use crate::bits::Double;
use crate::text::same;

verus! {

/// Filter settings of one combination.
pub struct FilterEntry {
    pub print_stock: String,
    pub illuminant: String,
    pub film_stock: String,
    pub cmy: [Double; 3],
}

/// A combination of paper, lamp and film.
pub struct FilterKey {
    pub print_stock: Seq<char>,
    pub illuminant: Seq<char>,
    pub film_stock: Seq<char>,
}

impl FilterEntry {
    pub open spec fn key(&self) -> FilterKey {
        FilterKey {
            print_stock: self.print_stock@,
            illuminant: self.illuminant@,
            film_stock: self.film_stock@,
        }
    }
}

/// The known combinations, each at most once.
pub struct NeutralFilters {
    entries: Vec<FilterEntry>,
}

/// The settings that the first entry of a combination holds.
pub open spec fn settings_in(entries: Seq<FilterEntry>, key: FilterKey) -> Option<[Double; 3]>
    decreases entries.len(),
{
    if entries.len() == 0 {
        None
    } else if entries[0].key() == key {
        Some(entries[0].cmy)
    } else {
        settings_in(entries.subrange(1, entries.len() as int), key)
    }
}

proof fn lemma_settings_at(entries: Seq<FilterEntry>, key: FilterKey, i: int)
    requires
        0 <= i < entries.len(),
        entries[i].key() == key,
        forall|k: int| 0 <= k < i ==> (#[trigger] entries[k]).key() != key,
    ensures
        settings_in(entries, key) == Some(entries[i].cmy),
    decreases entries.len(),
{
    if i > 0 {
        let rest = entries.subrange(1, entries.len() as int);
        assert(entries[0].key() != key);
        assert forall|k: int| 0 <= k < i - 1 implies (#[trigger] rest[k]).key() != key by {
            assert(rest[k] == entries[k + 1]);
        }
        lemma_settings_at(rest, key, i - 1);
    }
}

proof fn lemma_settings_absent(entries: Seq<FilterEntry>, key: FilterKey)
    requires
        forall|k: int| 0 <= k < entries.len() ==> (#[trigger] entries[k]).key() != key,
    ensures
        settings_in(entries, key) is None,
    decreases entries.len(),
{
    if entries.len() > 0 {
        let rest = entries.subrange(1, entries.len() as int);
        assert(entries[0].key() != key);
        assert forall|k: int| 0 <= k < rest.len() implies (#[trigger] rest[k]).key() != key by {
            assert(rest[k] == entries[k + 1]);
        }
        lemma_settings_absent(rest, key);
    }
}

proof fn lemma_settings_push(entries: Seq<FilterEntry>, e: FilterEntry, key: FilterKey)
    ensures
        settings_in(entries.push(e), key) == match settings_in(entries, key) {
            Some(v) => Some(v),
            None => if e.key() == key {
                Some(e.cmy)
            } else {
                None
            },
        },
    decreases entries.len(),
{
    let longer = entries.push(e);
    if entries.len() == 0 {
        assert(longer.subrange(1, longer.len() as int) =~= Seq::<FilterEntry>::empty());
        assert(settings_in(longer.subrange(1, longer.len() as int), key) is None);
    } else {
        let rest = entries.subrange(1, entries.len() as int);
        assert(longer.subrange(1, longer.len() as int) =~= rest.push(e));
        assert(longer[0] == entries[0]);
        lemma_settings_push(rest, e, key);
    }
}

proof fn lemma_settings_update(entries: Seq<FilterEntry>, i: int, e: FilterEntry, key: FilterKey)
    requires
        0 <= i < entries.len(),
        entries[i].key() == e.key(),
        forall|k: int| 0 <= k < i ==> (#[trigger] entries[k]).key() != e.key(),
    ensures
        settings_in(entries.update(i, e), key) == if key == e.key() {
            Some(e.cmy)
        } else {
            settings_in(entries, key)
        },
    decreases entries.len(),
{
    let changed = entries.update(i, e);
    let rest = entries.subrange(1, entries.len() as int);
    if i == 0 {
        assert(changed.subrange(1, changed.len() as int) =~= rest);
    } else {
        assert(entries[0].key() != e.key());
        assert(changed.subrange(1, changed.len() as int) =~= rest.update(i - 1, e));
        assert forall|k: int| 0 <= k < i - 1 implies (#[trigger] rest[k]).key() != e.key() by {
            assert(rest[k] == entries[k + 1]);
        }
        lemma_settings_update(rest, i - 1, e, key);
    }
}

impl NeutralFilters {
    /// The settings of a combination.
    pub closed spec fn settings(&self, key: FilterKey) -> Option<[Double; 3]> {
        settings_in(self.entries@, key)
    }

    /// No combination is known.
    pub fn new() -> (r: NeutralFilters)
        ensures
            forall|key: FilterKey| (#[trigger] r.settings(key)) is None,
    {
        NeutralFilters { entries: Vec::new() }
    }

    /// Sets a combination; settings that it had are replaced, and those of
    /// the others stay.
    pub fn insert(&mut self, e: FilterEntry)
        ensures
            forall|key: FilterKey| #[trigger]
                final(self).settings(key) == if key == e.key() {
                    Some(e.cmy)
                } else {
                    old(self).settings(key)
                },
    {
        let mut i: usize = 0;
        while i < self.entries.len()
            invariant
                i <= self.entries@.len(),
                self.entries@ == old(self).entries@,
                forall|k: int| 0 <= k < i ==> (#[trigger] self.entries@[k]).key() != e.key(),
            decreases self.entries.len() - i,
        {
            let known = &self.entries[i];
            if same(known.print_stock.as_str(), e.print_stock.as_str()) && same(
                known.illuminant.as_str(),
                e.illuminant.as_str(),
            ) && same(known.film_stock.as_str(), e.film_stock.as_str()) {
                proof {
                    assert forall|key: FilterKey| #[trigger]
                        settings_in(self.entries@.update(i as int, e), key) == if key == e.key() {
                            Some(e.cmy)
                        } else {
                            settings_in(self.entries@, key)
                        } by {
                        lemma_settings_update(self.entries@, i as int, e, key);
                    }
                }
                self.entries.set(i, e);
                return;
            }
            i += 1;
        }
        proof {
            lemma_settings_absent(self.entries@, e.key());
            assert forall|key: FilterKey| #[trigger]
                settings_in(self.entries@.push(e), key) == if key == e.key() {
                    Some(e.cmy)
                } else {
                    settings_in(self.entries@, key)
                } by {
                lemma_settings_push(self.entries@, e, key);
            }
        }
        self.entries.push(e);
    }

    /// The filter settings of a combination, if it is known.
    pub fn lookup(&self, print_stock: &str, illuminant: &str, film_stock: &str) -> (r: Option<
        [Double; 3],
    >)
        ensures
            r == self.settings(
                FilterKey {
                    print_stock: print_stock@,
                    illuminant: illuminant@,
                    film_stock: film_stock@,
                },
            ),
    {
        let ghost key = FilterKey {
            print_stock: print_stock@,
            illuminant: illuminant@,
            film_stock: film_stock@,
        };
        let mut i: usize = 0;
        while i < self.entries.len()
            invariant
                i <= self.entries@.len(),
                key == (FilterKey {
                    print_stock: print_stock@,
                    illuminant: illuminant@,
                    film_stock: film_stock@,
                }),
                forall|k: int| 0 <= k < i ==> (#[trigger] self.entries@[k]).key() != key,
            decreases self.entries.len() - i,
        {
            let e = &self.entries[i];
            if same(e.print_stock.as_str(), print_stock) && same(
                e.illuminant.as_str(),
                illuminant,
            ) && same(e.film_stock.as_str(), film_stock) {
                proof {
                    lemma_settings_at(self.entries@, key, i as int);
                }
                return Some(e.cmy);
            }
            i += 1;
        }
        proof {
            lemma_settings_absent(self.entries@, key);
        }
        None
    }
}

} // verus!
