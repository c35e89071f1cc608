//! Rule storage: the "genome" of one automaton instance.
//!
//! A [`HashRule`] is a table from packed neighborhood keys to next cell
//! states. A [`RulesCollection`] holds an ordered sequence of such rules and
//! evaluates them first-match-wins with a default of dead. Randomization
//! makes every table total over the configured key space, so a lookup on an
//! in-range key can never miss.
use vstd::prelude::*;
use std::collections::HashMap;
use rand::rngs::SmallRng;
use crate::config::MAX_NEIGHBORHOOD_BITS;
use crate::config::neighborhood_fits;
use crate::rng::coin;

verus! {

broadcast use vstd::std_specs::hash::group_hash_axioms;

/// The one configuration fault: a neighborhood whose cell count exceeds
/// [`MAX_NEIGHBORHOOD_BITS`], surfaced before any simulation runs.
#[derive(Clone, Copy, Debug, PartialEq, Eq, Structural)]
pub enum ConfigurationError {
    NeighborhoodTooLarge,
}

/// One rule: try to produce a next state for a packed neighborhood key, or
/// defer to the next rule in the collection.
pub trait Rule {
    /// The mapping this rule realizes.
    spec fn table(&self) -> Map<u64, u8>;

    /// The stored state for `neighborhood`, or `None` when this rule defers.
    fn apply(&self, neighborhood: u64) -> (r: Option<u8>)
        ensures
            r == if self.table().contains_key(neighborhood) {
                Some(self.table()[neighborhood])
            } else {
                None::<u8>
            },
    ;
}

/// Every state a table stores is a cell state: zero or one.
pub open spec fn table_wf(m: Map<u64, u8>) -> bool {
    forall|k: u64| #[trigger] m.contains_key(k) ==> m[k] <= 1
}

/// A table covering exactly the keys below `n`.
pub open spec fn total_table(m: Map<u64, u8>, n: int) -> bool {
    forall|k: u64| #[trigger] m.contains_key(k) <==> (k as int) < n
}

/// First-match-wins evaluation of an ordered sequence of rule tables: the
/// first table containing the key decides, and with no match the cell dies.
pub open spec fn first_match(maps: Seq<Map<u64, u8>>, key: u64) -> u8
    decreases maps.len(),
{
    if maps.len() == 0 {
        0u8
    } else if maps[0].contains_key(key) {
        maps[0][key]
    } else {
        first_match(maps.skip(1), key)
    }
}

/// Whether some table of the sequence has an entry for `key`.
pub open spec fn covered(maps: Seq<Map<u64, u8>>, key: u64) -> bool {
    exists|i: int| 0 <= i < maps.len() && (#[trigger] maps[i]).contains_key(key)
}

/// First-match-wins over well-formed tables yields a cell state.
pub proof fn lemma_first_match_le_one(maps: Seq<Map<u64, u8>>, key: u64)
    requires
        forall|i: int| 0 <= i < maps.len() ==> table_wf(#[trigger] maps[i]),
    ensures
        first_match(maps, key) <= 1,
    decreases maps.len(),
{
    if maps.len() == 0 {
    } else if maps[0].contains_key(key) {
    } else {
        assert forall|i: int| 0 <= i < maps.skip(1).len() implies table_wf(
            #[trigger] maps.skip(1)[i],
        ) by {
            assert(maps.skip(1)[i] == maps[i + 1]);
        }
        lemma_first_match_le_one(maps.skip(1), key);
    }
}

/// A rule table keyed by packed neighborhood patterns.
pub struct HashRule {
    hash_map: HashMap<u64, u8>,
    neighborhood_w: usize,
    neighborhood_h: usize,
}

impl Rule for HashRule {
    closed spec fn table(&self) -> Map<u64, u8> {
        self.hash_map@
    }

    fn apply(&self, neighborhood: u64) -> (r: Option<u8>) {
        match self.hash_map.get(&neighborhood) {
            Some(v) => Some(*v),
            None => None,
        }
    }
}

impl HashRule {
    /// All stored states are cell states.
    pub closed spec fn wf(&self) -> bool {
        table_wf(self.table())
    }

    /// Configured neighborhood width.
    pub closed spec fn spec_neighborhood_w(&self) -> usize {
        self.neighborhood_w
    }

    /// Configured neighborhood height.
    pub closed spec fn spec_neighborhood_h(&self) -> usize {
        self.neighborhood_h
    }

    /// An empty rule for the given neighborhood dimensions.
    pub fn new(neighborhood_w: usize, neighborhood_h: usize) -> (r: HashRule)
        ensures
            r.table() == Map::<u64, u8>::empty(),
            r.wf(),
            r.spec_neighborhood_w() == neighborhood_w,
            r.spec_neighborhood_h() == neighborhood_h,
    {
        HashRule { hash_map: HashMap::new(), neighborhood_w, neighborhood_h }
    }

    /// Record new neighborhood dimensions; the table itself is untouched.
    pub fn set_neighborhood_size(&mut self, neighborhood_w: usize, neighborhood_h: usize)
        ensures
            final(self).table() == old(self).table(),
            final(self).wf() == old(self).wf(),
            final(self).spec_neighborhood_w() == neighborhood_w,
            final(self).spec_neighborhood_h() == neighborhood_h,
    {
        self.neighborhood_w = neighborhood_w;
        self.neighborhood_h = neighborhood_h;
    }

    /// Insert (or overwrite) the next state for one neighborhood pattern.
    pub fn add_mapping(&mut self, neighborhood: u64, value: u8)
        requires
            value <= 1,
        ensures
            final(self).table() == old(self).table().insert(neighborhood, value),
            old(self).wf() ==> final(self).wf(),
            final(self).spec_neighborhood_w() == old(self).spec_neighborhood_w(),
            final(self).spec_neighborhood_h() == old(self).spec_neighborhood_h(),
    {
        self.hash_map.insert(neighborhood, value);
    }

    /// Drop every stored mapping.
    pub fn reset(&mut self)
        ensures
            final(self).table() == Map::<u64, u8>::empty(),
            final(self).wf(),
            final(self).spec_neighborhood_w() == old(self).spec_neighborhood_w(),
            final(self).spec_neighborhood_h() == old(self).spec_neighborhood_h(),
    {
        self.hash_map.clear();
    }

    /// Replace the table by a total one: every key below `num_keys` gets an
    /// independent fair coin flip as its next state.
    pub fn fill_random(&mut self, rng: &mut SmallRng, num_keys: usize)
        ensures
            total_table(final(self).table(), num_keys as int),
            final(self).wf(),
            final(self).spec_neighborhood_w() == old(self).spec_neighborhood_w(),
            final(self).spec_neighborhood_h() == old(self).spec_neighborhood_h(),
    {
        self.hash_map.clear();
        let mut k: usize = 0;
        while k < num_keys
            invariant
                k <= num_keys,
                forall|j: u64| #[trigger] self.table().contains_key(j) <==> (j as int) < k as int,
                self.wf(),
                self.spec_neighborhood_w() == old(self).spec_neighborhood_w(),
                self.spec_neighborhood_h() == old(self).spec_neighborhood_h(),
            decreases num_keys - k,
        {
            let alive = coin(rng, 1, 2);
            let value: u8 = if alive {
                1
            } else {
                0
            };
            self.hash_map.insert(k as u64, value);
            k += 1;
        }
    }
}

/// An ordered collection of rules, evaluated first-match-wins.
pub struct RulesCollection {
    neighborhood_w: usize,
    neighborhood_h: usize,
    rules: Vec<HashRule>,
}

impl RulesCollection {
    /// The tables of the rules, in evaluation order.
    pub closed spec fn maps(&self) -> Seq<Map<u64, u8>> {
        self.rules@.map_values(|r: HashRule| r.table())
    }

    /// Configured neighborhood width.
    pub closed spec fn spec_neighborhood_w(&self) -> usize {
        self.neighborhood_w
    }

    /// Configured neighborhood height.
    pub closed spec fn spec_neighborhood_h(&self) -> usize {
        self.neighborhood_h
    }

    /// Valid dimensions within the bit ceiling, at least one rule, and only
    /// cell states stored.
    pub closed spec fn wf(&self) -> bool {
        &&& 1 <= self.neighborhood_w
        &&& 1 <= self.neighborhood_h
        &&& self.neighborhood_w * self.neighborhood_h <= MAX_NEIGHBORHOOD_BITS
        &&& self.rules@.len() >= 1
        &&& forall|i: int| 0 <= i < self.rules@.len() ==> (#[trigger] self.rules@[i]).wf()
    }

    /// Every key of the configured key space has an entry in some table:
    /// a lookup can never miss.
    pub closed spec fn is_total(&self) -> bool {
        forall|k: u64|
            k < (1u64 << ((self.neighborhood_w * self.neighborhood_h) as u64)) ==> covered(
                #[trigger] self.maps(),
                k,
            )
    }

    /// A collection holding a single empty rule. The caller randomizes it
    /// before simulating; a neighborhood over the bit ceiling is rejected
    /// before anything is built.
    pub fn new(neighborhood_w: usize, neighborhood_h: usize) -> (r: Result<
        RulesCollection,
        ConfigurationError,
    >)
        requires
            1 <= neighborhood_w,
            1 <= neighborhood_h,
        ensures
            r is Err <==> neighborhood_w * neighborhood_h > MAX_NEIGHBORHOOD_BITS,
            r matches Ok(c) ==> {
                &&& c.wf()
                &&& c.spec_neighborhood_w() == neighborhood_w
                &&& c.spec_neighborhood_h() == neighborhood_h
                &&& c.maps().len() == 1
                &&& c.maps()[0] == Map::<u64, u8>::empty()
            },
    {
        if !neighborhood_fits(neighborhood_w, neighborhood_h) {
            return Err(ConfigurationError::NeighborhoodTooLarge);
        }
        let mut this = RulesCollection {
            neighborhood_w,
            neighborhood_h,
            rules: Vec::new(),
        };
        this.add_rule(HashRule::new(neighborhood_w, neighborhood_h));
        proof {
            assert(this.maps() =~= Seq::<Map<u64, u8>>::empty().push(Map::<u64, u8>::empty()));
            assert(this.rules@.len() == 1);
            assert(this.maps()[0] == this.rules@[0].table());
            assert(this.rules@[0].wf());
            assert(this.wf());
        }
        Ok(this)
    }

    /// Append a rule; it is consulted after every rule already present.
    pub fn add_rule(&mut self, rule: HashRule)
        requires
            rule.wf(),
        ensures
            final(self).maps() == old(self).maps().push(rule.table()),
            final(self).spec_neighborhood_w() == old(self).spec_neighborhood_w(),
            final(self).spec_neighborhood_h() == old(self).spec_neighborhood_h(),
            old(self).wf() ==> final(self).wf(),
    {
        self.rules.push(rule);
        proof {
            assert(self.maps() =~= old(self).maps().push(rule.table()));
        }
    }

    /// Adopt new neighborhood dimensions and regenerate every rule over the
    /// new key space. A neighborhood over the bit ceiling is rejected with
    /// the collection left exactly as it was.
    pub fn set_neighborhood_size(
        &mut self,
        neighborhood_w: usize,
        neighborhood_h: usize,
        rng: &mut SmallRng,
    ) -> (r: Result<(), ConfigurationError>)
        requires
            old(self).wf(),
            1 <= neighborhood_w,
            1 <= neighborhood_h,
        ensures
            r is Err <==> neighborhood_w * neighborhood_h > MAX_NEIGHBORHOOD_BITS,
            r is Err ==> *final(self) == *old(self),
            r is Ok ==> {
                &&& final(self).wf()
                &&& final(self).is_total()
                &&& final(self).spec_neighborhood_w() == neighborhood_w
                &&& final(self).spec_neighborhood_h() == neighborhood_h
                &&& final(self).maps().len() == old(self).maps().len()
            },
    {
        if !neighborhood_fits(neighborhood_w, neighborhood_h) {
            return Err(ConfigurationError::NeighborhoodTooLarge);
        }
        self.neighborhood_w = neighborhood_w;
        self.neighborhood_h = neighborhood_h;
        self.randomize(rng);
        Ok(())
    }

    /// Regenerate every rule: each becomes a fresh total table over the
    /// configured key space, with an independent fair coin flip per key.
    pub fn randomize(&mut self, rng: &mut SmallRng)
        requires
            old(self).wf(),
        ensures
            final(self).wf(),
            final(self).is_total(),
            final(self).spec_neighborhood_w() == old(self).spec_neighborhood_w(),
            final(self).spec_neighborhood_h() == old(self).spec_neighborhood_h(),
            final(self).maps().len() == old(self).maps().len(),
    {
        let bits = self.neighborhood_w * self.neighborhood_h;
        let total_patterns_wide: u64 = 1u64 << bits;
        proof {
            assert(1u64 << bits <= 65536 && 1u64 << bits >= 1) by (bit_vector)
                requires
                    bits <= 16,
            ;
        }
        let total_patterns: usize = total_patterns_wide as usize;
        let n = self.rules.len();
        let mut refreshed: Vec<HashRule> = Vec::new();
        let mut i: usize = 0;
        while i < n
            invariant
                i <= n,
                *self == *old(self),
                n == self.rules@.len(),
                old(self).wf(),
                total_patterns as int == (1u64 << bits) as int,
                bits == self.neighborhood_w * self.neighborhood_h,
                refreshed@.len() == i,
                forall|j: int| 0 <= j < i ==> (#[trigger] refreshed@[j]).wf(),
                forall|j: int|
                    0 <= j < i ==> total_table(
                        (#[trigger] refreshed@[j]).table(),
                        total_patterns as int,
                    ),
                forall|j: int|
                    0 <= j < i ==> (#[trigger] refreshed@[j]).spec_neighborhood_w()
                        == self.neighborhood_w && refreshed@[j].spec_neighborhood_h()
                        == self.neighborhood_h,
            decreases n - i,
        {
            let mut rule = HashRule::new(self.neighborhood_w, self.neighborhood_h);
            rule.fill_random(rng, total_patterns);
            refreshed.push(rule);
            i += 1;
        }
        self.rules = refreshed;
        proof {
            assert forall|k: u64|
                k < (1u64 << ((self.neighborhood_w * self.neighborhood_h) as u64)) implies covered(
                #[trigger] self.maps(),
                k,
            ) by {
                assert(self.maps()[0] == self.rules@[0].table());
                assert((k as int) < total_patterns as int);
                assert(self.maps()[0].contains_key(k));
            }
        }
    }

    /// The next state for a packed neighborhood key: the first rule with an
    /// entry decides; with no entry anywhere the cell dies.
    pub fn get_new_cell(&self, neighborhood: u64) -> (r: u8)
        ensures
            r == first_match(self.maps(), neighborhood),
    {
        let n = self.rules.len();
        let mut i: usize = 0;
        proof {
            assert(self.maps().skip(0) =~= self.maps());
        }
        while i < n
            invariant
                i <= n,
                n == self.rules@.len(),
                first_match(self.maps().skip(i as int), neighborhood) == first_match(
                    self.maps(),
                    neighborhood,
                ),
            decreases n - i,
        {
            let rule = &self.rules[i];
            proof {
                assert(self.maps().skip(i as int)[0] == self.maps()[i as int]);
                assert(self.maps()[i as int] == rule.table());
            }
            match rule.apply(neighborhood) {
                Some(state) => {
                    return state;
                },
                None => {},
            }
            proof {
                assert(self.maps().skip(i as int).skip(1) =~= self.maps().skip(i as int + 1));
            }
            i += 1;
        }
        proof {
            assert(self.maps().skip(n as int) =~= Seq::<Map<u64, u8>>::empty());
        }
        0
    }
}

/// A total collection covers every in-range key: randomized lookups can
/// never miss.
pub proof fn lemma_total_covers(c: RulesCollection, key: u64)
    requires
        c.is_total(),
        key < (1u64 << ((c.spec_neighborhood_w() * c.spec_neighborhood_h()) as u64)),
    ensures
        covered(c.maps(), key),
{
}

/// First-match-wins over a well-formed collection yields a cell state.
pub proof fn lemma_collection_values(c: RulesCollection, key: u64)
    requires
        c.wf(),
    ensures
        first_match(c.maps(), key) <= 1,
{
    assert forall|i: int| 0 <= i < c.maps().len() implies table_wf(#[trigger] c.maps()[i]) by {
        assert(c.maps()[i] == c.rules@[i].table());
    }
    lemma_first_match_le_one(c.maps(), key);
}

} // verus!
