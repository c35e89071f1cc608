//! The automaton engine: two grid buffers, the canonical neighborhood
//! offsets, a randomized rule collection and the engine's own random
//! generator.
//!
//! One generation step reads every neighborhood from the *current* buffer,
//! looks the packed key up in the rules, and writes the next state into the
//! *scratch* buffer; only then are the buffers swapped. Generation `N + 1`
//! therefore depends on generation `N` in its entirety, never on a
//! half-updated grid.
use vstd::prelude::*;
use vstd::arithmetic::div_mod::lemma_mod_division_less_than_divisor;
use vstd::arithmetic::div_mod::lemma_multiply_divide_lt;
use rand::rngs::SmallRng;
use crate::config::MAX_NEIGHBORHOOD_BITS;
use crate::config::SPAWN_CHANCE_DENOM;
use crate::indexer::key_for;
use crate::indexer::key_spec;
use crate::indexer::lemma_key_spec_in_range;
use crate::indexer::offset_dx;
use crate::indexer::offset_dy;
use crate::indexer::offsets_for;
use crate::rng::coin;
use crate::rng::rng_from_entropy;
use crate::rules::covered;
use crate::rules::first_match;
use crate::rules::lemma_collection_values;
use crate::rules::lemma_total_covers;
use crate::rules::ConfigurationError;
use crate::rules::RulesCollection;

verus! {

/// A spawn chance numerator clamped into `0 ..= SPAWN_CHANCE_DENOM`.
pub open spec fn clamped_chance(p: int) -> int {
    if p < 0 {
        0
    } else if p > SPAWN_CHANCE_DENOM as int {
        SPAWN_CHANCE_DENOM as int
    } else {
        p
    }
}

/// The whole next generation as a function of the current one: cell
/// `x + y * gw` becomes the first-match rule output for its packed
/// neighborhood key, read entirely from `cells`.
pub open spec fn next_grid_spec(
    cells: Seq<u8>,
    gw: int,
    gh: int,
    offsets: Seq<(isize, isize)>,
    maps: Seq<Map<u64, u8>>,
) -> Seq<u8> {
    Seq::new(
        cells.len(),
        |idx: int| first_match(maps, key_spec(cells, gw, gh, idx % gw, idx / gw, offsets)),
    )
}

/// A vector of `len` dead cells.
fn zeroed(len: usize) -> (r: Vec<u8>)
    ensures
        r@.len() == len,
        forall|i: int| 0 <= i < len ==> r@[i] == 0,
{
    let mut r: Vec<u8> = Vec::new();
    let mut i: usize = 0;
    while i < len
        invariant
            i <= len,
            r@.len() == i,
            forall|j: int| 0 <= j < i ==> r@[j] == 0,
        decreases len - i,
    {
        r.push(0);
        i += 1;
    }
    r
}

/// Compute one synchronous generation from `cells` into `out`, cell by cell.
fn write_next_into(
    out: &mut Vec<u8>,
    cells: &Vec<u8>,
    grid_w: usize,
    grid_h: usize,
    offsets: &Vec<(isize, isize)>,
    rules: &RulesCollection,
)
    requires
        1 <= grid_w,
        1 <= grid_h,
        cells@.len() == grid_w * grid_h,
        old(out)@.len() == grid_w * grid_h,
        forall|i: int| 0 <= i < cells@.len() ==> #[trigger] cells@[i] <= 1,
        offsets@.len() <= 64,
        rules.wf(),
    ensures
        final(out)@ == next_grid_spec(
            cells@,
            grid_w as int,
            grid_h as int,
            offsets@,
            rules.maps(),
        ),
        forall|i: int| 0 <= i < final(out)@.len() ==> #[trigger] final(out)@[i] <= 1,
{
    let n = cells.len();
    let ghost target = next_grid_spec(cells@, grid_w as int, grid_h as int, offsets@, rules.maps());
    let mut idx: usize = 0;
    while idx < n
        invariant
            idx <= n,
            n == cells@.len(),
            cells@.len() == grid_w * grid_h,
            1 <= grid_w,
            1 <= grid_h,
            out@.len() == n,
            offsets@.len() <= 64,
            rules.wf(),
            forall|i: int| 0 <= i < cells@.len() ==> #[trigger] cells@[i] <= 1,
            target == next_grid_spec(cells@, grid_w as int, grid_h as int, offsets@, rules.maps()),
            forall|i: int| 0 <= i < idx ==> #[trigger] out@[i] == target[i],
            forall|i: int| 0 <= i < idx ==> #[trigger] out@[i] <= 1,
        decreases n - idx,
    {
        let x = idx % grid_w;
        let y = idx / grid_w;
        proof {
            lemma_mod_division_less_than_divisor(idx as int, grid_w as int);
            lemma_multiply_divide_lt(idx as int, grid_w as int, grid_h as int);
        }
        let key = key_for(cells, grid_w, grid_h, x, y, offsets);
        let state = rules.get_new_cell(key);
        proof {
            lemma_collection_values(*rules, key);
            assert(target[idx as int] == first_match(
                rules.maps(),
                key_spec(
                    cells@,
                    grid_w as int,
                    grid_h as int,
                    idx as int % (grid_w as int),
                    idx as int / (grid_w as int),
                    offsets@,
                ),
            ));
        }
        out[idx] = state;
        idx += 1;
    }
    proof {
        assert(out@ =~= target);
    }
}

/// One synchronous generation as a standalone pure function: the result
/// never aliases or mutates its inputs, so two calls on the same buffers
/// give the same grid.
pub fn next_grid(
    cells: &Vec<u8>,
    grid_w: usize,
    grid_h: usize,
    offsets: &Vec<(isize, isize)>,
    rules: &RulesCollection,
) -> (r: Vec<u8>)
    requires
        1 <= grid_w,
        1 <= grid_h,
        cells@.len() == grid_w * grid_h,
        forall|i: int| 0 <= i < cells@.len() ==> #[trigger] cells@[i] <= 1,
        offsets@.len() <= 64,
        rules.wf(),
    ensures
        r@ == next_grid_spec(cells@, grid_w as int, grid_h as int, offsets@, rules.maps()),
        r@.len() == cells@.len(),
        forall|i: int| 0 <= i < r@.len() ==> #[trigger] r@[i] <= 1,
{
    let mut out = zeroed(cells.len());
    write_next_into(&mut out, cells, grid_w, grid_h, offsets, rules);
    out
}

/// The engine: grid buffers, neighborhood shape, rules and random source.
pub struct Automata {
    rng: SmallRng,
    cells: Vec<u8>,
    cells_next: Vec<u8>,
    grid_h: usize,
    grid_w: usize,
    neighborhood_offsets: Vec<(isize, isize)>,
    rules_collection: RulesCollection,
    neighborhood_w: usize,
    neighborhood_h: usize,
    spawn_chance: u32,
}

impl Automata {
    /// The current generation.
    pub closed spec fn cells_view(&self) -> Seq<u8> {
        self.cells@
    }

    /// The scratch buffer.
    pub closed spec fn scratch_view(&self) -> Seq<u8> {
        self.cells_next@
    }

    /// Grid width.
    pub closed spec fn spec_grid_w(&self) -> usize {
        self.grid_w
    }

    /// Grid height.
    pub closed spec fn spec_grid_h(&self) -> usize {
        self.grid_h
    }

    /// Neighborhood width.
    pub closed spec fn spec_neighborhood_w(&self) -> usize {
        self.neighborhood_w
    }

    /// Neighborhood height.
    pub closed spec fn spec_neighborhood_h(&self) -> usize {
        self.neighborhood_h
    }

    /// The stored spawn chance numerator (over `SPAWN_CHANCE_DENOM`).
    pub closed spec fn spec_spawn_chance(&self) -> u32 {
        self.spawn_chance
    }

    /// The neighborhood offsets, in bit-position order.
    pub closed spec fn offsets_view(&self) -> Seq<(isize, isize)> {
        self.neighborhood_offsets@
    }

    /// The rule tables, in evaluation order.
    pub closed spec fn rule_maps(&self) -> Seq<Map<u64, u8>> {
        self.rules_collection.maps()
    }

    /// The engine invariant: nonempty grid of cell states in both buffers,
    /// a valid neighborhood within the bit ceiling, the canonical offsets
    /// for that neighborhood, a well-formed total rule collection with the
    /// same dimensions, and a clamped spawn chance.
    pub closed spec fn wf(&self) -> bool {
        &&& 1 <= self.grid_w
        &&& 1 <= self.grid_h
        &&& self.cells@.len() == self.grid_w * self.grid_h
        &&& self.cells_next@.len() == self.grid_w * self.grid_h
        &&& forall|i: int| 0 <= i < self.cells@.len() ==> #[trigger] self.cells@[i] <= 1
        &&& forall|i: int| 0 <= i < self.cells_next@.len() ==> #[trigger] self.cells_next@[i] <= 1
        &&& 1 <= self.neighborhood_w
        &&& 1 <= self.neighborhood_h
        &&& self.neighborhood_w * self.neighborhood_h <= MAX_NEIGHBORHOOD_BITS
        &&& self.neighborhood_offsets@.len() == self.neighborhood_w * self.neighborhood_h
        &&& forall|p: int|
            0 <= p < self.neighborhood_offsets@.len() ==> (#[trigger] self.neighborhood_offsets@[p]).0
                as int == offset_dx(self.neighborhood_w as int, self.neighborhood_h as int, p)
                && self.neighborhood_offsets@[p].1 as int == offset_dy(
                self.neighborhood_w as int,
                self.neighborhood_h as int,
                p,
            )
        &&& self.rules_collection.wf()
        &&& self.rules_collection.is_total()
        &&& self.rules_collection.spec_neighborhood_w() == self.neighborhood_w
        &&& self.rules_collection.spec_neighborhood_h() == self.neighborhood_h
        &&& self.spawn_chance <= SPAWN_CHANCE_DENOM
    }

    /// Build an engine: validate the neighborhood against the bit ceiling,
    /// derive the offsets, randomize a fresh rule collection, allocate both
    /// buffers and seed the current one cell by cell with the clamped spawn
    /// chance. A too-large neighborhood fails fast; nothing is built.
    pub fn new(
        grid_w: usize,
        grid_h: usize,
        neighborhood_w: usize,
        neighborhood_h: usize,
        spawn_chance: i64,
    ) -> (r: Result<Automata, ConfigurationError>)
        requires
            1 <= grid_w,
            1 <= grid_h,
            1 <= neighborhood_w,
            1 <= neighborhood_h,
            grid_w * grid_h <= usize::MAX,
        ensures
            r is Err <==> neighborhood_w * neighborhood_h > MAX_NEIGHBORHOOD_BITS,
            r matches Ok(a) ==> {
                &&& a.wf()
                &&& a.spec_grid_w() == grid_w
                &&& a.spec_grid_h() == grid_h
                &&& a.spec_neighborhood_w() == neighborhood_w
                &&& a.spec_neighborhood_h() == neighborhood_h
                &&& a.spec_spawn_chance() as int == clamped_chance(spawn_chance as int)
                &&& a.cells_view().len() == grid_w * grid_h
                &&& forall|i: int|
                    0 <= i < a.cells_view().len() ==> #[trigger] a.cells_view()[i] <= 1
                &&& (spawn_chance >= SPAWN_CHANCE_DENOM as int ==> forall|i: int|
                    0 <= i < a.cells_view().len() ==> #[trigger] a.cells_view()[i] == 1)
                &&& (spawn_chance <= 0 ==> forall|i: int|
                    0 <= i < a.cells_view().len() ==> #[trigger] a.cells_view()[i] == 0)
                &&& a.scratch_view().len() == grid_w * grid_h
                &&& forall|i: int|
                    0 <= i < a.scratch_view().len() ==> #[trigger] a.scratch_view()[i] == 0
            },
    {
        let mut rules_collection = match RulesCollection::new(neighborhood_w, neighborhood_h) {
            Ok(c) => c,
            Err(e) => {
                return Err(e);
            },
        };
        let mut rng = rng_from_entropy();
        rules_collection.randomize(&mut rng);
        proof {
            assert(neighborhood_w <= MAX_NEIGHBORHOOD_BITS && neighborhood_h
                <= MAX_NEIGHBORHOOD_BITS) by (nonlinear_arith)
                requires
                    1 <= neighborhood_w,
                    1 <= neighborhood_h,
                    neighborhood_w * neighborhood_h <= MAX_NEIGHBORHOOD_BITS,
            ;
        }
        let neighborhood_offsets = offsets_for(neighborhood_w, neighborhood_h);
        let spawn: u32 = if spawn_chance < 0 {
            0
        } else if spawn_chance > SPAWN_CHANCE_DENOM as i64 {
            SPAWN_CHANCE_DENOM
        } else {
            spawn_chance as u32
        };
        let n = grid_w * grid_h;
        let mut automata = Automata {
            rng,
            cells: zeroed(n),
            cells_next: zeroed(n),
            grid_h,
            grid_w,
            neighborhood_offsets,
            rules_collection,
            neighborhood_w,
            neighborhood_h,
            spawn_chance: spawn,
        };
        proof {
            assert(automata.wf());
        }
        automata.randomize();
        Ok(automata)
    }

    /// Advance one synchronous generation: compute every next state from the
    /// current buffer into the scratch buffer, swap the buffers, and clear
    /// the scratch. The next generation is exactly `next_grid_spec` of the
    /// old one, so stepping the same state under the same rules twice gives
    /// the same grid.
    pub fn step(&mut self)
        requires
            old(self).wf(),
        ensures
            final(self).wf(),
            final(self).cells_view() == next_grid_spec(
                old(self).cells_view(),
                old(self).spec_grid_w() as int,
                old(self).spec_grid_h() as int,
                old(self).offsets_view(),
                old(self).rule_maps(),
            ),
            final(self).scratch_view().len() == old(self).scratch_view().len(),
            forall|i: int|
                0 <= i < final(self).scratch_view().len() ==> #[trigger] final(self).scratch_view()[i]
                    == 0,
            final(self).spec_grid_w() == old(self).spec_grid_w(),
            final(self).spec_grid_h() == old(self).spec_grid_h(),
            final(self).spec_neighborhood_w() == old(self).spec_neighborhood_w(),
            final(self).spec_neighborhood_h() == old(self).spec_neighborhood_h(),
            final(self).offsets_view() == old(self).offsets_view(),
            final(self).rule_maps() == old(self).rule_maps(),
            final(self).spec_spawn_chance() == old(self).spec_spawn_chance(),
    {
        let grid_w = self.grid_w;
        let grid_h = self.grid_h;
        write_next_into(
            &mut self.cells_next,
            &self.cells,
            grid_w,
            grid_h,
            &self.neighborhood_offsets,
            &self.rules_collection,
        );
        core::mem::swap(&mut self.cells, &mut self.cells_next);
        let n = self.cells_next.len();
        let mut i: usize = 0;
        while i < n
            invariant
                i <= n,
                n == self.cells_next@.len(),
                self.cells_next@.len() == old(self).cells_next@.len(),
                forall|j: int| 0 <= j < i ==> #[trigger] self.cells_next@[j] == 0,
                forall|j: int| 0 <= j < n ==> #[trigger] self.cells_next@[j] <= 1,
                self.cells@ == next_grid_spec(
                    old(self).cells@,
                    old(self).grid_w as int,
                    old(self).grid_h as int,
                    old(self).neighborhood_offsets@,
                    old(self).rules_collection.maps(),
                ),
                forall|j: int| 0 <= j < self.cells@.len() ==> #[trigger] self.cells@[j] <= 1,
                self.cells@.len() == old(self).cells@.len(),
                self.rng == old(self).rng,
                self.grid_w == old(self).grid_w,
                self.grid_h == old(self).grid_h,
                self.neighborhood_w == old(self).neighborhood_w,
                self.neighborhood_h == old(self).neighborhood_h,
                self.neighborhood_offsets == old(self).neighborhood_offsets,
                self.rules_collection == old(self).rules_collection,
                self.spawn_chance == old(self).spawn_chance,
            decreases n - i,
        {
            self.cells_next[i] = 0;
            i += 1;
        }
    }

    /// A copy of the current generation, row-major; the engine's own buffer
    /// is never handed out.
    pub fn cells(&self) -> (r: Vec<u8>)
        ensures
            r@ == self.cells_view(),
    {
        let n = self.cells.len();
        let mut r: Vec<u8> = Vec::new();
        let mut i: usize = 0;
        while i < n
            invariant
                i <= n,
                n == self.cells@.len(),
                r@.len() == i,
                forall|j: int| 0 <= j < i ==> #[trigger] r@[j] == self.cells@[j],
            decreases n - i,
        {
            r.push(self.cells[i]);
            i += 1;
        }
        proof {
            assert(r@ =~= self.cells@);
        }
        r
    }

    /// Regenerate the rule collection over the existing neighborhood
    /// dimensions; the grid itself is untouched.
    pub fn randomize_rules(&mut self)
        requires
            old(self).wf(),
        ensures
            final(self).wf(),
            final(self).cells_view() == old(self).cells_view(),
            final(self).scratch_view() == old(self).scratch_view(),
            final(self).spec_grid_w() == old(self).spec_grid_w(),
            final(self).spec_grid_h() == old(self).spec_grid_h(),
            final(self).spec_neighborhood_w() == old(self).spec_neighborhood_w(),
            final(self).spec_neighborhood_h() == old(self).spec_neighborhood_h(),
            final(self).offsets_view() == old(self).offsets_view(),
            final(self).spec_spawn_chance() == old(self).spec_spawn_chance(),
            final(self).rule_maps().len() == old(self).rule_maps().len(),
    {
        self.rules_collection.randomize(&mut self.rng);
    }

    /// Reseed the current buffer: every cell is set alive with the stored
    /// spawn chance, independently. A spawn chance of one makes every cell
    /// alive; a spawn chance of zero makes every cell dead.
    pub fn randomize(&mut self)
        requires
            old(self).wf(),
        ensures
            final(self).wf(),
            final(self).cells_view().len() == old(self).cells_view().len(),
            forall|i: int| 0 <= i < final(self).cells_view().len() ==> #[trigger] final(self).cells_view()[i] <= 1,
            old(self).spec_spawn_chance() >= SPAWN_CHANCE_DENOM ==> forall|i: int|
                0 <= i < final(self).cells_view().len() ==> #[trigger] final(self).cells_view()[i]
                    == 1,
            old(self).spec_spawn_chance() == 0 ==> forall|i: int|
                0 <= i < final(self).cells_view().len() ==> #[trigger] final(self).cells_view()[i]
                    == 0,
            final(self).scratch_view() == old(self).scratch_view(),
            final(self).spec_grid_w() == old(self).spec_grid_w(),
            final(self).spec_grid_h() == old(self).spec_grid_h(),
            final(self).spec_neighborhood_w() == old(self).spec_neighborhood_w(),
            final(self).spec_neighborhood_h() == old(self).spec_neighborhood_h(),
            final(self).offsets_view() == old(self).offsets_view(),
            final(self).rule_maps() == old(self).rule_maps(),
            final(self).spec_spawn_chance() == old(self).spec_spawn_chance(),
    {
        let n = self.cells.len();
        let mut i: usize = 0;
        while i < n
            invariant
                i <= n,
                n == self.cells@.len(),
                self.cells@.len() == old(self).cells@.len(),
                self.spawn_chance <= SPAWN_CHANCE_DENOM,
                forall|j: int| 0 <= j < n ==> #[trigger] self.cells@[j] <= 1,
                self.spawn_chance >= SPAWN_CHANCE_DENOM ==> forall|j: int|
                    0 <= j < i ==> #[trigger] self.cells@[j] == 1,
                self.spawn_chance == 0 ==> forall|j: int|
                    0 <= j < i ==> #[trigger] self.cells@[j] == 0,
                self.cells_next == old(self).cells_next,
                self.grid_w == old(self).grid_w,
                self.grid_h == old(self).grid_h,
                self.neighborhood_w == old(self).neighborhood_w,
                self.neighborhood_h == old(self).neighborhood_h,
                self.neighborhood_offsets == old(self).neighborhood_offsets,
                self.rules_collection == old(self).rules_collection,
                self.spawn_chance == old(self).spawn_chance,
            decreases n - i,
        {
            let alive = coin(&mut self.rng, self.spawn_chance, SPAWN_CHANCE_DENOM);
            self.cells[i] = if alive {
                1
            } else {
                0
            };
            i += 1;
        }
    }

    /// Reseed the scratch buffer with the stored spawn chance, cell by cell.
    pub fn randomize_next(&mut self)
        requires
            old(self).wf(),
        ensures
            final(self).wf(),
            final(self).scratch_view().len() == old(self).scratch_view().len(),
            forall|i: int| 0 <= i < final(self).scratch_view().len() ==> #[trigger] final(self).scratch_view()[i] <= 1,
            old(self).spec_spawn_chance() >= SPAWN_CHANCE_DENOM ==> forall|i: int|
                0 <= i < final(self).scratch_view().len() ==> #[trigger] final(self).scratch_view()[i] == 1,
            old(self).spec_spawn_chance() == 0 ==> forall|i: int|
                0 <= i < final(self).scratch_view().len() ==> #[trigger] final(self).scratch_view()[i] == 0,
            final(self).cells_view() == old(self).cells_view(),
            final(self).spec_grid_w() == old(self).spec_grid_w(),
            final(self).spec_grid_h() == old(self).spec_grid_h(),
            final(self).spec_neighborhood_w() == old(self).spec_neighborhood_w(),
            final(self).spec_neighborhood_h() == old(self).spec_neighborhood_h(),
            final(self).offsets_view() == old(self).offsets_view(),
            final(self).rule_maps() == old(self).rule_maps(),
            final(self).spec_spawn_chance() == old(self).spec_spawn_chance(),
    {
        let n = self.cells_next.len();
        let mut i: usize = 0;
        while i < n
            invariant
                i <= n,
                n == self.cells_next@.len(),
                self.cells_next@.len() == old(self).cells_next@.len(),
                self.spawn_chance <= SPAWN_CHANCE_DENOM,
                forall|j: int| 0 <= j < n ==> #[trigger] self.cells_next@[j] <= 1,
                self.spawn_chance >= SPAWN_CHANCE_DENOM ==> forall|j: int|
                    0 <= j < i ==> #[trigger] self.cells_next@[j] == 1,
                self.spawn_chance == 0 ==> forall|j: int|
                    0 <= j < i ==> #[trigger] self.cells_next@[j] == 0,
                self.cells == old(self).cells,
                self.grid_w == old(self).grid_w,
                self.grid_h == old(self).grid_h,
                self.neighborhood_w == old(self).neighborhood_w,
                self.neighborhood_h == old(self).neighborhood_h,
                self.neighborhood_offsets == old(self).neighborhood_offsets,
                self.rules_collection == old(self).rules_collection,
                self.spawn_chance == old(self).spawn_chance,
            decreases n - i,
        {
            let alive = coin(&mut self.rng, self.spawn_chance, SPAWN_CHANCE_DENOM);
            self.cells_next[i] = if alive {
                1
            } else {
                0
            };
            i += 1;
        }
    }

    /// Store a new spawn chance, clamped into `0 ..= SPAWN_CHANCE_DENOM`;
    /// the grid is not reseeded.
    pub fn set_spawn_chance(&mut self, spawn_chance: i64)
        ensures
            final(self).spec_spawn_chance() as int == clamped_chance(spawn_chance as int),
            old(self).wf() ==> final(self).wf(),
            final(self).cells_view() == old(self).cells_view(),
            final(self).scratch_view() == old(self).scratch_view(),
            final(self).spec_grid_w() == old(self).spec_grid_w(),
            final(self).spec_grid_h() == old(self).spec_grid_h(),
            final(self).spec_neighborhood_w() == old(self).spec_neighborhood_w(),
            final(self).spec_neighborhood_h() == old(self).spec_neighborhood_h(),
            final(self).offsets_view() == old(self).offsets_view(),
            final(self).rule_maps() == old(self).rule_maps(),
    {
        self.spawn_chance = if spawn_chance < 0 {
            0
        } else if spawn_chance > SPAWN_CHANCE_DENOM as i64 {
            SPAWN_CHANCE_DENOM
        } else {
            spawn_chance as u32
        };
    }
}

/// In a well-formed engine a rule lookup can never miss: the packed key of
/// any cell of the current grid — for any coordinates, wrapped or not — is
/// below the table's key space, and the randomized collection covers that
/// whole space.
pub proof fn lemma_lookup_never_misses(a: Automata, x: int, y: int)
    requires
        a.wf(),
    ensures
        covered(
            a.rule_maps(),
            key_spec(
                a.cells_view(),
                a.spec_grid_w() as int,
                a.spec_grid_h() as int,
                x,
                y,
                a.offsets_view(),
            ),
        ),
{
    lemma_key_spec_in_range(
        a.cells@,
        a.grid_w as int,
        a.grid_h as int,
        x,
        y,
        a.neighborhood_offsets@,
    );
    let key = key_spec(a.cells@, a.grid_w as int, a.grid_h as int, x, y, a.neighborhood_offsets@);
    assert(a.neighborhood_offsets@.len() as u64 == (a.rules_collection.spec_neighborhood_w()
        * a.rules_collection.spec_neighborhood_h()) as u64);
    lemma_total_covers(a.rules_collection, key);
}

/// One step is a pure function of the current buffer, the grid shape, the
/// offsets and the rule tables: two engines that agree on those agree on the
/// whole next generation.
pub proof fn lemma_step_deterministic(a: Automata, b: Automata)
    requires
        a.cells_view() == b.cells_view(),
        a.spec_grid_w() == b.spec_grid_w(),
        a.spec_grid_h() == b.spec_grid_h(),
        a.offsets_view() == b.offsets_view(),
        a.rule_maps() == b.rule_maps(),
    ensures
        next_grid_spec(
            a.cells_view(),
            a.spec_grid_w() as int,
            a.spec_grid_h() as int,
            a.offsets_view(),
            a.rule_maps(),
        ) == next_grid_spec(
            b.cells_view(),
            b.spec_grid_w() as int,
            b.spec_grid_h() as int,
            b.offsets_view(),
            b.rule_maps(),
        ),
{
}

} // verus!
