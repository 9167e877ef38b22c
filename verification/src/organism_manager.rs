use vstd::prelude::*;
use crate::cell::Cell;
use crate::config::{HEIGHT, RESEED_COUNT, SEED, WIDTH};
use crate::grid::Grid;
use crate::organism::{connected, qualifies_for_brain, AnatomyCell, Organism};
use crate::rng::{rng_below, rng_from_seed};

verus! {

/// The per-tick summary handed to observers: population size, death
/// counters, and the most reproductively successful anatomy encoding
/// seen so far.
pub struct SimData {
    pub frame: u128,
    pub organism_num: usize,
    pub best_species: String,
    pub hunger_death: usize,
    pub age_death: usize,
}

impl SimData {
    /// A zeroed summary.
    pub fn new() -> (s: SimData)
        ensures
            s.frame == 0,
            s.organism_num == 0,
            s.best_species@.len() == 0,
            s.hunger_death == 0,
            s.age_death == 0,
    {
        SimData {
            frame: 0,
            organism_num: 0,
            best_species: String::new(),
            hunger_death: 0,
            age_death: 0,
        }
    }
}

/// Bumps the success count of `key`, or starts it at one: the first
/// entry with that key gains one (saturating), otherwise a fresh entry
/// is appended. Keys stay unique.
fn bump_entry(entries: &mut Vec<(String, u64)>, key: String)
    requires
        forall|a: int, b: int|
            0 <= a < b < old(entries)@.len() ==> (#[trigger] old(entries)@[a]).0@ != (
            #[trigger] old(entries)@[b]).0@,
    ensures
        forall|a: int, b: int|
            0 <= a < b < final(entries)@.len() ==> (#[trigger] final(entries)@[a]).0@ != (
            #[trigger] final(entries)@[b]).0@,
        if exists|j: int| 0 <= j < old(entries)@.len() && (#[trigger] old(entries)@[j]).0@ == key@ {
            exists|j: int|
                {
                    &&& 0 <= j < old(entries)@.len()
                    &&& (#[trigger] old(entries)@[j]).0@ == key@
                    &&& final(entries)@.len() == old(entries)@.len()
                    &&& final(entries)@[j].0@ == old(entries)@[j].0@
                    &&& final(entries)@[j].1 == (if old(entries)@[j].1 < u64::MAX {
                        old(entries)@[j].1 + 1
                    } else {
                        u64::MAX as int
                    })
                    &&& forall|t: int|
                        0 <= t < old(entries)@.len() && t != j ==> #[trigger] final(entries)@[t]
                            == old(entries)@[t]
                }
        } else {
            final(entries)@.len() == old(entries)@.len() + 1 && final(entries)@.last().0@ == key@
                && final(entries)@.last().1 == 1 && forall|t: int|
                0 <= t < old(entries)@.len() ==> #[trigger] final(entries)@[t] == old(entries)@[t]
        },
{
    let mut i: usize = 0;
    while i < entries.len()
        invariant
            i <= entries@.len(),
            *entries == *old(entries),
            forall|t: int| 0 <= t < i ==> (#[trigger] entries@[t]).0@ != key@,
            forall|a: int, b: int|
                0 <= a < b < old(entries)@.len() ==> (#[trigger] old(entries)@[a]).0@ != (
                #[trigger] old(entries)@[b]).0@,
        decreases entries@.len() - i,
    {
        if entries[i].0 == key {
            let name = entries[i].0.clone();
            let cnt = entries[i].1;
            let bumped: u64 = if cnt < u64::MAX {
                cnt + 1
            } else {
                u64::MAX
            };
            entries.set(i, (name, bumped));
            proof {
                assert(entries@ =~= old(entries)@.update(i as int, (name, bumped)));
                assert(name@ == old(entries)@[i as int].0@);
                assert forall|a: int, b: int|
                    0 <= a < b < entries@.len() implies (#[trigger] entries@[a]).0@ != (
                #[trigger] entries@[b]).0@ by {
                    assert(entries@.len() == old(entries)@.len());
                    assert(0 <= a < b < old(entries)@.len());
                    assert(old(entries)@[a].0@ != old(entries)@[b].0@);
                    if a == i as int {
                        assert(entries@[a].0@ == old(entries)@[a].0@);
                    } else {
                        assert(entries@[a] == old(entries)@[a]);
                    }
                    if b == i as int {
                        assert(entries@[b].0@ == old(entries)@[b].0@);
                    } else {
                        assert(entries@[b] == old(entries)@[b]);
                    }
                }
            }
            return ;
        }
        i = i + 1;
    }
    entries.push((key, 1));
}

/// Whether the cull removes an organism this tick: its killed flag was
/// already set, or a pending kill resolves against it at the occupancy
/// rebuild.
pub open spec fn cull_killed(o: Organism, coords: Seq<(usize, usize)>, kills: Seq<usize>) -> bool {
    o.killed || crate::grid::org_kill_hit(o, coords, kills)
}

/// The organisms the cull keeps, in population order.
pub open spec fn survivors_of(
    orgs: Seq<Organism>,
    coords: Seq<(usize, usize)>,
    kills: Seq<usize>,
) -> Seq<Organism>
    decreases orgs.len(),
{
    if orgs.len() == 0 {
        Seq::empty()
    } else {
        let rest = survivors_of(orgs.drop_last(), coords, kills);
        if cull_killed(orgs.last(), coords, kills) {
            rest
        } else {
            rest.push(orgs.last())
        }
    }
}

/// How many culled organisms ran out their lifetime.
pub open spec fn age_death_count(
    orgs: Seq<Organism>,
    coords: Seq<(usize, usize)>,
    kills: Seq<usize>,
) -> int
    decreases orgs.len(),
{
    if orgs.len() == 0 {
        0
    } else {
        age_death_count(orgs.drop_last(), coords, kills) + if cull_killed(
            orgs.last(),
            coords,
            kills,
        ) && orgs.last().lifetime <= 0 {
            1int
        } else {
            0int
        }
    }
}

/// How many culled organisms died with lifetime left (starvation or a
/// kill).
pub open spec fn hunger_death_count(
    orgs: Seq<Organism>,
    coords: Seq<(usize, usize)>,
    kills: Seq<usize>,
) -> int
    decreases orgs.len(),
{
    if orgs.len() == 0 {
        0
    } else {
        hunger_death_count(orgs.drop_last(), coords, kills) + if cull_killed(
            orgs.last(),
            coords,
            kills,
        ) && orgs.last().lifetime > 0 {
            1int
        } else {
            0int
        }
    }
}

/// A death counter after `add` one-by-one increments, each skipped at
/// the type's ceiling.
pub open spec fn counted_up(base: int, add: int) -> int {
    if base + add <= usize::MAX as int {
        base + add
    } else {
        usize::MAX as int
    }
}

/// The energy left after the reproduction gate: an organism whose
/// post-behaviour energy meets the threshold is charged one whole unit
/// per cell, whether or not its child found room; anyone else keeps its
/// energy.
pub open spec fn repro_charge(e_upd: int, n: int) -> int {
    if e_upd * 100 >= n * crate::config::REPRODUCTION_COST_CENTI {
        crate::arith::clip(e_upd - n)
    } else {
        e_upd
    }
}

/// How one behaviour-phase pass relates a surviving organism to its
/// state at the start of the phase: identity kept, the lifetime
/// countdown exact, the anatomy same-sized and still connected, the
/// killed flag raised exactly on this tick's deterministic death
/// condition, and the energy raised by at most one meal per cell and
/// then charged exactly when the reproduction threshold was met.
pub open spec fn ticked_survivor(pre: Organism, post: Organism) -> bool {
    &&& post.id == pre.id
    &&& post.lifetime == crate::arith::clip(pre.lifetime - 1)
    &&& post.cells@.len() == pre.cells@.len()
    &&& (connected(pre.cells@) ==> connected(post.cells@))
    &&& post.killed == (pre.killed || crate::arith::clip(pre.lifetime - 1) <= 0
        || crate::arith::clip(
        pre.satiety - crate::config::HUNGER_RATE_MILLI * pre.cells@.len(),
    ) <= 0)
    &&& exists|e_upd: int|
        pre.energy <= e_upd <= pre.energy + pre.cells@.len() && post.energy == #[trigger] repro_charge(
            e_upd,
            pre.cells@.len() as int,
        )
}

/// What every child a tick appends looks like: fresh counters, a
/// connected anatomy, an identity at or past the survivor range, and a
/// brain exactly when the anatomy qualifies for one.
pub open spec fn spawned_child(o: Organism, first_id: int) -> bool {
    &&& o.energy == 0
    &&& o.satiety == crate::config::INITIAL_SATIETY_MILLI
    &&& !o.killed
    &&& o.lifetime == o.cells@.len() * crate::config::LIFETIME_MULTIPLIER
    &&& o.id >= first_id
    &&& connected(o.cells@)
    &&& o.brain.is_some() == qualifies_for_brain(o.cells@)
}

/// The cumulative success count over the whole ledger.
pub open spec fn ledger_total(entries: Seq<(String, u64)>) -> int
    decreases entries.len(),
{
    if entries.len() == 0 {
        0
    } else {
        ledger_total(entries.drop_last()) + entries.last().1
    }
}

/// True while every ledger count is far enough from its ceiling that a
/// tick's worth of bumps cannot saturate it.
pub open spec fn ledger_headroom(entries: Seq<(String, u64)>, pop: int) -> bool {
    &&& pop < u64::MAX
    &&& forall|j: int| 0 <= j < entries.len() ==> (#[trigger] entries[j]).1 + pop <= u64::MAX
}

/// Updating one entry moves the cumulative count by the entry's change.
proof fn lemma_ledger_total_update(s: Seq<(String, u64)>, j: int, e: (String, u64))
    requires
        0 <= j < s.len(),
    ensures
        ledger_total(s.update(j, e)) == ledger_total(s) - s[j].1 + e.1,
    decreases s.len(),
{
    let u = s.update(j, e);
    if j == s.len() - 1 {
        assert(u.drop_last() =~= s.drop_last());
        assert(u.last() == e);
    } else {
        assert(u.drop_last() =~= s.drop_last().update(j, e));
        assert(u.last() == s.last());
        lemma_ledger_total_update(s.drop_last(), j, e);
    }
}

/// Appending one entry adds exactly its count.
proof fn lemma_ledger_total_push(s: Seq<(String, u64)>, e: (String, u64))
    ensures
        ledger_total(s.push(e)) == ledger_total(s) + e.1,
{
    assert(s.push(e).drop_last() =~= s);
    assert(s.push(e).last() == e);
}

/// A cull never keeps more organisms than it was given.
proof fn lemma_survivors_len_le(
    orgs: Seq<Organism>,
    coords: Seq<(usize, usize)>,
    kills: Seq<usize>,
)
    ensures
        survivors_of(orgs, coords, kills).len() <= orgs.len(),
    decreases orgs.len(),
{
    if orgs.len() > 0 {
        lemma_survivors_len_le(orgs.drop_last(), coords, kills);
    }
}

/// A cull that takes everything leaves no survivors.
proof fn lemma_all_culled_no_survivors(
    orgs: Seq<Organism>,
    coords: Seq<(usize, usize)>,
    kills: Seq<usize>,
)
    requires
        forall|k: int| 0 <= k < orgs.len() ==> cull_killed(#[trigger] orgs[k], coords, kills),
    ensures
        survivors_of(orgs, coords, kills).len() == 0,
    decreases orgs.len(),
{
    if orgs.len() > 0 {
        assert forall|k: int|
            0 <= k < orgs.drop_last().len() implies cull_killed(
            #[trigger] orgs.drop_last()[k],
            coords,
            kills,
        ) by {
            assert(orgs.drop_last()[k] == orgs[k]);
        }
        lemma_all_culled_no_survivors(orgs.drop_last(), coords, kills);
        assert(cull_killed(orgs.last(), coords, kills));
    }
}

/// The owner of the whole simulation: the population, the world, the
/// master random stream, the species success ledger (keyed by anatomy
/// encoding, never pruned), and the running summary.
pub struct OrganismManager {
    pub organisms: Vec<Organism>,
    pub grid: Grid,
    pub frame: u128,
    pub rng: rand::rngs::StdRng,
    pub species_success: Vec<(String, u64)>,
    pub sim_data: SimData,
}

impl OrganismManager {
    /// The world is well-formed, every organism is well-formed with a
    /// connected anatomy, and the species ledger's keys are unique.
    pub open spec fn wf(self) -> bool {
        &&& self.grid.wf()
        &&& forall|i: int| 0 <= i < self.organisms@.len() ==> (#[trigger] self.organisms@[i]).wf()
        &&& forall|i: int|
            0 <= i < self.organisms@.len() ==> connected((#[trigger] self.organisms@[i]).cells@)
        &&& forall|a: int, b: int|
            0 <= a < b < self.species_success@.len() ==> (#[trigger] self.species_success@[a]).0@
                != (#[trigger] self.species_success@[b]).0@
    }

    /// An empty simulation over a fresh grid, with the master random
    /// stream seeded from the fixed seed.
    pub fn new() -> (m: OrganismManager)
        ensures
            m.wf(),
            m.organisms@.len() == 0,
            m.frame == 0,
            m.species_success@.len() == 0,
            forall|x: int, y: int|
                crate::grid::in_bounds(x, y) ==> !#[trigger] m.grid.food_at(x, y),
            forall|x: int, y: int|
                crate::grid::in_bounds(x, y) ==> #[trigger] m.grid.organ_at(x, y) == Cell::Empty,
            m.grid.pending_kill_coordinates@.len() == 0,
            m.grid.pending_kill_killers@.len() == 0,
            m.sim_data.frame == 0,
            m.sim_data.organism_num == 0,
            m.sim_data.best_species@.len() == 0,
            m.sim_data.hunger_death == 0,
            m.sim_data.age_death == 0,
    {
        OrganismManager {
            organisms: Vec::new(),
            grid: Grid::new(),
            frame: 0,
            rng: rng_from_seed(SEED),
            species_success: Vec::new(),
            sim_data: SimData::new(),
        }
    }

    /// The three-cell seed anatomy every (re)seeded organism starts from:
    /// a mover, a mouth and a producer on a connected diagonal.
    fn default_org() -> (r: Vec<AnatomyCell>)
        ensures
            r@.len() == 3,
            r@[0] == ((-1i32, -1i32, Cell::Mover)),
            r@[1] == ((0i32, 0i32, Cell::Mouth)),
            r@[2] == ((1i32, 1i32, Cell::Producer)),
            connected(r@),
    {
        let mut r: Vec<AnatomyCell> = Vec::new();
        r.push((-1, -1, Cell::Mover));
        r.push((0, 0, Cell::Mouth));
        r.push((1, 1, Cell::Producer));
        proof {
            let p0 = seq![0int];
            assert(crate::organism::is_path(r@, p0));
            assert(p0.last() == 0);
            let p1 = seq![0int, 1int];
            assert(crate::organism::is_path(r@, p1));
            assert(p1.last() == 1);
            let p2 = seq![0int, 1int, 2int];
            assert(crate::organism::is_path(r@, p2));
            assert(p2.last() == 2);
            assert forall|i: int| 0 <= i < r@.len() implies crate::organism::reachable(r@, i) by {
                if i == 0 {
                    assert(crate::organism::is_path(r@, p0) && p0.last() == i);
                } else if i == 1 {
                    assert(crate::organism::is_path(r@, p1) && p1.last() == i);
                } else {
                    assert(crate::organism::is_path(r@, p2) && p2.last() == i);
                }
            }
        }
        r
    }

    /// What every organism placed by a (re)seeding looks like: the
    /// three-cell default anatomy, identity equal to its seeding index,
    /// fresh counters, and an anchor drawn away from the border.
    pub open spec fn seeded_organism(o: Organism, k: int) -> bool {
        &&& o.cells@.len() == 3
        &&& o.cells@[0] == ((-1i32, -1i32, Cell::Mover))
        &&& o.cells@[1] == ((0i32, 0i32, Cell::Mouth))
        &&& o.cells@[2] == ((1i32, 1i32, Cell::Producer))
        &&& o.id == k
        &&& o.energy == 0
        &&& o.satiety == crate::config::INITIAL_SATIETY_MILLI
        &&& o.lifetime == 3 * crate::config::LIFETIME_MULTIPLIER
        &&& !o.killed
        &&& 10 <= o.x < WIDTH - 10
        &&& 10 <= o.y < HEIGHT - 10
    }

    /// Seeds the population: `RESEED_COUNT` fresh default organisms at
    /// uniformly random positions away from the border, with identities
    /// numbered from zero.
    pub fn init(&mut self)
        requires
            old(self).wf(),
        ensures
            final(self).wf(),
            final(self).organisms@.len() == old(self).organisms@.len() + RESEED_COUNT,
            final(self).frame == old(self).frame,
            final(self).sim_data == old(self).sim_data,
            final(self).species_success@ == old(self).species_success@,
            final(self).grid == old(self).grid,
            final(self).organisms@.take(old(self).organisms@.len() as int) == old(self).organisms@,
            forall|k: int|
                old(self).organisms@.len() <= k < final(self).organisms@.len()
                    ==> Self::seeded_organism(
                    #[trigger] final(self).organisms@[k],
                    k - old(self).organisms@.len(),
                ),
    {
        let mut i: usize = 0;
        while i < RESEED_COUNT
            invariant
                old(self).wf(),
                self.wf(),
                i <= RESEED_COUNT,
                self.organisms@.len() == old(self).organisms@.len() + i,
                self.organisms@.take(old(self).organisms@.len() as int) == old(self).organisms@,
                forall|k: int|
                    old(self).organisms@.len() <= k < self.organisms@.len()
                        ==> Self::seeded_organism(
                        #[trigger] self.organisms@[k],
                        k - old(self).organisms@.len(),
                    ),
                self.grid == old(self).grid,
                self.frame == old(self).frame,
                self.sim_data == old(self).sim_data,
                self.species_success@ == old(self).species_success@,
            decreases RESEED_COUNT - i,
        {
            let x = rng_below(&mut self.rng, (WIDTH - 20) as u32) as usize + 10;
            let y = rng_below(&mut self.rng, (HEIGHT - 20) as u32) as usize + 10;
            let cells = Self::default_org();
            let o = Organism::new(x, y, cells, i, &mut self.rng);
            let ghost pre = self.organisms@;
            self.organisms.push(o);
            proof {
                assert(self.organisms@.take(old(self).organisms@.len() as int) =~= pre.take(
                    old(self).organisms@.len() as int,
                ));
            }
            i = i + 1;
        }
    }

    /// The identity the next organism will get: one past the last index.
    pub fn assign_id(&self) -> (r: usize)
        ensures
            r == self.organisms@.len(),
    {
        self.organisms.len()
    }

    /// Recomputes the most successful species: the name of a ledger entry
    /// whose count no other entry beats (the first such entry); keeps the
    /// previous answer while the ledger is empty.
    fn refresh_best(&mut self)
        requires
            old(self).wf(),
        ensures
            final(self).wf(),
            *final(self) == (OrganismManager { sim_data: final(self).sim_data, ..*old(self) }),
            final(self).sim_data == (SimData {
                best_species: final(self).sim_data.best_species,
                ..old(self).sim_data
            }),
            if old(self).species_success@.len() == 0 {
                final(self).sim_data.best_species == old(self).sim_data.best_species
            } else {
                exists|j: int|
                    0 <= j < old(self).species_success@.len() && final(self).sim_data.best_species@ == (#[trigger] old(self).species_success@[j]).0@
                        && forall|t: int|
                        0 <= t < old(self).species_success@.len() ==> (#[trigger] old(self).species_success@[t]).1 <= old(self).species_success@[j].1
            },
    {
        if self.species_success.len() == 0 {
            return ;
        }
        let mut best: usize = 0;
        let mut i: usize = 1;
        while i < self.species_success.len()
            invariant
                *self == *old(self),
                1 <= i <= self.species_success@.len(),
                best < i,
                forall|t: int|
                    0 <= t < i ==> (#[trigger] self.species_success@[t]).1
                        <= self.species_success@[best as int].1,
            decreases self.species_success@.len() - i,
        {
            if self.species_success[i].1 > self.species_success[best].1 {
                best = i;
            }
            i = i + 1;
        }
        let name = self.species_success[best].0.clone();
        self.sim_data.best_species = name;
    }

    /// One master tick: rebuild occupancy and resolve pending kills, cull
    /// the killed (turning their footprints into food remains and
    /// counting age and hunger deaths), run every survivor's behaviour,
    /// spawn the validly placed children of organisms rich enough to
    /// reproduce (charging the parent either way and crediting the
    /// parent's species on success), reseed a fixed population after an
    /// extinction — the population is never left empty — and advance the
    /// frame counter.
    pub fn update(&mut self)
        requires
            old(self).wf(),
        ensures
            final(self).wf(),
            final(self).organisms@.len() >= 1,
            final(self).frame == (if old(self).frame < u128::MAX {
                old(self).frame + 1
            } else {
                old(self).frame as int
            }),
            final(self).sim_data.organism_num == final(self).organisms@.len(),
            (forall|k: int|
                0 <= k < old(self).organisms@.len() ==> (#[trigger] old(self).organisms@[k]).killed
                    || crate::grid::org_kill_hit(
                    old(self).organisms@[k],
                    old(self).grid.pending_kill_coordinates@,
                    old(self).grid.pending_kill_killers@,
                )) ==> final(self).organisms@.len() == RESEED_COUNT,
            ({
                let coords = old(self).grid.pending_kill_coordinates@;
                let kills = old(self).grid.pending_kill_killers@;
                let survivors = survivors_of(old(self).organisms@, coords, kills);
                &&& final(self).sim_data.age_death == counted_up(
                    old(self).sim_data.age_death as int,
                    age_death_count(old(self).organisms@, coords, kills),
                )
                &&& final(self).sim_data.hunger_death == counted_up(
                    old(self).sim_data.hunger_death as int,
                    hunger_death_count(old(self).organisms@, coords, kills),
                )
                &&& if survivors.len() == 0 {
                    &&& final(self).organisms@.len() == RESEED_COUNT
                    &&& forall|k: int|
                        0 <= k < final(self).organisms@.len() ==> Self::seeded_organism(
                            #[trigger] final(self).organisms@[k],
                            k,
                        )
                } else {
                    &&& survivors.len() <= final(self).organisms@.len() <= 2 * survivors.len()
                    &&& forall|k: int|
                        0 <= k < survivors.len() ==> ticked_survivor(
                            survivors[k],
                            #[trigger] final(self).organisms@[k],
                        )
                    &&& forall|k: int|
                        survivors.len() <= k < final(self).organisms@.len() ==> spawned_child(
                            #[trigger] final(self).organisms@[k],
                            survivors.len() as int,
                        )
                    &&& final(self).species_success@.len() <= old(self).species_success@.len() + (
                    final(self).organisms@.len() - survivors.len())
                }
                &&& (ledger_headroom(
                    old(self).species_success@,
                    old(self).organisms@.len() as int,
                ) ==> ledger_total(final(self).species_success@) == ledger_total(
                    old(self).species_success@,
                ) + (if survivors.len() == 0 {
                    0int
                } else {
                    final(self).organisms@.len() - survivors.len()
                }))
            }),
            forall|j: int|
                0 <= j < old(self).species_success@.len() ==> (
                #[trigger] final(self).species_success@[j]).0@ == old(self).species_success@[j].0@
                    && old(self).species_success@[j].1 <= final(self).species_success@[j].1,
            forall|j: int|
                old(self).species_success@.len() <= j < final(self).species_success@.len() ==> (
                #[trigger] final(self).species_success@[j]).1 >= 1,
            final(self).species_success@.len() > 0 ==> exists|j: int|
                0 <= j < final(self).species_success@.len() && final(self).sim_data.best_species@
                    == (#[trigger] final(self).species_success@[j]).0@ && forall|t: int|
                    0 <= t < final(self).species_success@.len()
                        ==> final(self).species_success@[t].1 <= final(self).species_success@[j].1,
    {
        let ghost orgs0 = old(self).organisms@;
        let ghost coords0 = old(self).grid.pending_kill_coordinates@;
        let ghost kills0 = old(self).grid.pending_kill_killers@;
        let ghost surv_full = survivors_of(orgs0, coords0, kills0);
        let ghost ledger0 = old(self).species_success@;
        self.grid.update(&mut self.organisms);
        let ghost post_rebuild = self.organisms@;
        proof {
            assert forall|k: int| 0 <= k < self.organisms@.len() implies (
            #[trigger] self.organisms@[k]).wf() && connected(self.organisms@[k].cells@) by {
                assert(crate::grid::same_but_killed(
                    self.organisms@[k],
                    old(self).organisms@[k],
                ));
            }
            if forall|k: int|
                0 <= k < old(self).organisms@.len() ==> (#[trigger] old(self).organisms@[k]).killed
                    || crate::grid::org_kill_hit(
                    old(self).organisms@[k],
                    old(self).grid.pending_kill_coordinates@,
                    old(self).grid.pending_kill_killers@,
                ) {
                assert forall|k: int|
                    0 <= k < post_rebuild.len() implies (#[trigger] post_rebuild[k]).killed by {
                    assert(old(self).organisms@[k].killed || crate::grid::org_kill_hit(
                        old(self).organisms@[k],
                        old(self).grid.pending_kill_coordinates@,
                        old(self).grid.pending_kill_killers@,
                    ));
                }
            }
        }
        let n = self.organisms.len();
        let mut survivors: Vec<Organism> = Vec::new();
        let mut i: usize = 0;
        proof {
            assert(orgs0.take(0) =~= Seq::<Organism>::empty());
        }
        while i < n
            invariant
                self.grid.wf(),
                self.frame == old(self).frame,
                self.sim_data.age_death as int == counted_up(
                    old(self).sim_data.age_death as int,
                    age_death_count(orgs0.take(i as int), coords0, kills0),
                ),
                self.sim_data.hunger_death as int == counted_up(
                    old(self).sim_data.hunger_death as int,
                    hunger_death_count(orgs0.take(i as int), coords0, kills0),
                ),
                self.sim_data.best_species == old(self).sim_data.best_species,
                self.species_success@ == ledger0,
                i <= n,
                n == post_rebuild.len(),
                n == orgs0.len(),
                self.organisms@ =~= post_rebuild.skip(i as int),
                survivors@ == survivors_of(orgs0.take(i as int), coords0, kills0),
                forall|k: int|
                    0 <= k < n ==> crate::grid::same_but_killed(
                        #[trigger] post_rebuild[k],
                        orgs0[k],
                    ),
                forall|k: int|
                    0 <= k < n ==> (#[trigger] post_rebuild[k]).killed == cull_killed(
                        orgs0[k],
                        coords0,
                        kills0,
                    ),
                self.organisms@.len() == n - i,
                forall|k: int|
                    0 <= k < self.organisms@.len() ==> (#[trigger] self.organisms@[k]).wf(),
                forall|k: int|
                    0 <= k < self.organisms@.len() ==> connected(
                        (#[trigger] self.organisms@[k]).cells@,
                    ),
                forall|k: int| 0 <= k < survivors@.len() ==> (#[trigger] survivors@[k]).wf(),
                forall|k: int|
                    0 <= k < survivors@.len() ==> connected((#[trigger] survivors@[k]).cells@),
                forall|a: int, b: int|
                    0 <= a < b < self.species_success@.len() ==> (
                    #[trigger] self.species_success@[a]).0@ != (
                    #[trigger] self.species_success@[b]).0@,
            decreases n - i,
        {
            let o = self.organisms.remove(0);
            proof {
                assert(o == post_rebuild[i as int]);
                assert(self.organisms@ =~= post_rebuild.skip(i as int + 1));
                assert(orgs0.take(i + 1).drop_last() =~= orgs0.take(i as int));
                assert(orgs0.take(i + 1).last() == orgs0[i as int]);
                assert(o.killed == cull_killed(orgs0[i as int], coords0, kills0));
                assert(o.lifetime == orgs0[i as int].lifetime);
            }
            if o.killed {
                if o.lifetime <= 0 {
                    if self.sim_data.age_death < usize::MAX {
                        self.sim_data.age_death = self.sim_data.age_death + 1;
                    }
                } else {
                    if self.sim_data.hunger_death < usize::MAX {
                        self.sim_data.hunger_death = self.sim_data.hunger_death + 1;
                    }
                }
                self.grid.make_remains(&o);
            } else {
                proof {
                    assert(!orgs0[i as int].killed);
                    assert(o == orgs0[i as int]);
                }
                survivors.push(o);
            }
            i = i + 1;
        }
        proof {
            assert(orgs0.take(n as int) =~= orgs0);
            assert(survivors@ == surv_full);
        }
        core::mem::swap(&mut self.organisms, &mut survivors);
        proof {
            lemma_survivors_len_le(orgs0, coords0, kills0);
        }
        let mut next_id = self.assign_id();
        let mut processed: Vec<Organism> = Vec::new();
        let mut new_organisms: Vec<Organism> = Vec::new();
        let m = self.organisms.len();
        let mut i: usize = 0;
        while i < m
            invariant
                self.grid.wf(),
                self.frame == old(self).frame,
                self.sim_data.age_death as int == counted_up(
                    old(self).sim_data.age_death as int,
                    age_death_count(orgs0, coords0, kills0),
                ),
                self.sim_data.hunger_death as int == counted_up(
                    old(self).sim_data.hunger_death as int,
                    hunger_death_count(orgs0, coords0, kills0),
                ),
                self.sim_data.best_species == old(self).sim_data.best_species,
                i <= m,
                m == surv_full.len(),
                next_id >= m,
                self.organisms@ =~= surv_full.skip(i as int),
                self.organisms@.len() == m - i,
                processed@.len() == i,
                new_organisms@.len() <= i,
                forall|k: int|
                    0 <= k < i ==> ticked_survivor(surv_full[k], #[trigger] processed@[k]),
                forall|k: int|
                    0 <= k < new_organisms@.len() ==> spawned_child(
                        #[trigger] new_organisms@[k],
                        m as int,
                    ),
                forall|k: int|
                    0 <= k < self.organisms@.len() ==> (#[trigger] self.organisms@[k]).wf(),
                forall|k: int|
                    0 <= k < self.organisms@.len() ==> connected(
                        (#[trigger] self.organisms@[k]).cells@,
                    ),
                forall|k: int| 0 <= k < processed@.len() ==> (#[trigger] processed@[k]).wf(),
                forall|k: int|
                    0 <= k < processed@.len() ==> connected((#[trigger] processed@[k]).cells@),
                forall|k: int|
                    0 <= k < new_organisms@.len() ==> (#[trigger] new_organisms@[k]).wf(),
                forall|k: int|
                    0 <= k < new_organisms@.len() ==> connected(
                        (#[trigger] new_organisms@[k]).cells@,
                    ),
                forall|a: int, b: int|
                    0 <= a < b < self.species_success@.len() ==> (
                    #[trigger] self.species_success@[a]).0@ != (
                    #[trigger] self.species_success@[b]).0@,
                forall|j: int|
                    0 <= j < ledger0.len() ==> (#[trigger] self.species_success@[j]).0@
                        == ledger0[j].0@ && ledger0[j].1 <= self.species_success@[j].1,
                forall|j: int|
                    ledger0.len() <= j < self.species_success@.len() ==> (
                    #[trigger] self.species_success@[j]).1 >= 1,
                self.species_success@.len() >= ledger0.len(),
                self.species_success@.len() <= ledger0.len() + new_organisms@.len(),
                m <= orgs0.len(),
                (ledger_headroom(ledger0, orgs0.len() as int) ==> ledger_total(
                    self.species_success@,
                ) == ledger_total(ledger0) + new_organisms@.len()),
                (ledger_headroom(ledger0, orgs0.len() as int) ==> forall|j: int|
                    0 <= j < self.species_success@.len() ==> (
                    #[trigger] self.species_success@[j]).1 <= (if j < ledger0.len() {
                        ledger0[j].1 as int
                    } else {
                        1int
                    }) + new_organisms@.len()),
            decreases m - i,
        {
            let mut o = self.organisms.remove(0);
            let ghost pre_o = surv_full[i as int];
            proof {
                assert(o == pre_o);
                assert(self.organisms@ =~= surv_full.skip(i as int + 1));
            }
            let _alive = o.update(&mut self.grid, &mut self.rng);
            let ghost e_upd = o.energy as int;
            if o.can_reproduce() {
                let mut new_org = o.child(next_id, &mut self.rng);
                if next_id < usize::MAX {
                    next_id = next_id + 1;
                }
                new_org.random_offset(&mut self.rng);
                if self.grid.check_spawn(&new_org) {
                    let key = o.encode_anatomy();
                    let ghost lpre = self.species_success@;
                    let ghost keyv = key@;
                    bump_entry(&mut self.species_success, key);
                    proof {
                        if exists|jj: int|
                            0 <= jj < lpre.len() && (#[trigger] lpre[jj]).0@ == keyv {
                            let j2 = choose|j2: int|
                                {
                                    &&& 0 <= j2 < lpre.len()
                                    &&& (#[trigger] lpre[j2]).0@ == keyv
                                    &&& self.species_success@.len() == lpre.len()
                                    &&& self.species_success@[j2].0@ == lpre[j2].0@
                                    &&& self.species_success@[j2].1 == (if lpre[j2].1 < u64::MAX {
                                        lpre[j2].1 + 1
                                    } else {
                                        u64::MAX as int
                                    })
                                    &&& forall|t: int|
                                        0 <= t < lpre.len() && t != j2
                                            ==> #[trigger] self.species_success@[t] == lpre[t]
                                };
                            assert forall|j: int|
                                0 <= j < ledger0.len() implies (
                            #[trigger] self.species_success@[j]).0@ == ledger0[j].0@ && ledger0[j].1
                                <= self.species_success@[j].1 by {
                                assert(lpre[j].0@ == ledger0[j].0@ && ledger0[j].1 <= lpre[j].1);
                                if j != j2 {
                                    assert(self.species_success@[j] == lpre[j]);
                                }
                            }
                            assert forall|j: int|
                                ledger0.len() <= j < self.species_success@.len() implies (
                            #[trigger] self.species_success@[j]).1 >= 1 by {
                                assert(lpre[j].1 >= 1);
                                if j != j2 {
                                    assert(self.species_success@[j] == lpre[j]);
                                }
                            }
                            if ledger_headroom(ledger0, orgs0.len() as int) {
                                assert(lpre[j2].1 <= (if j2 < ledger0.len() {
                                    ledger0[j2].1 as int
                                } else {
                                    1int
                                }) + new_organisms@.len());
                                assert(lpre[j2].1 < u64::MAX);
                                assert(self.species_success@ =~= lpre.update(
                                    j2,
                                    self.species_success@[j2],
                                ));
                                lemma_ledger_total_update(lpre, j2, self.species_success@[j2]);
                                assert(ledger_total(self.species_success@) == ledger_total(lpre)
                                    + 1);
                                assert forall|j: int|
                                    0 <= j < self.species_success@.len() implies (
                                #[trigger] self.species_success@[j]).1 <= (if j < ledger0.len() {
                                    ledger0[j].1 as int
                                } else {
                                    1int
                                }) + new_organisms@.len() + 1 by {
                                    if j != j2 {
                                        assert(self.species_success@[j] == lpre[j]);
                                    }
                                }
                            }
                        } else {
                            assert(self.species_success@.len() == lpre.len() + 1);
                            assert forall|j: int|
                                0 <= j < ledger0.len() implies (
                            #[trigger] self.species_success@[j]).0@ == ledger0[j].0@ && ledger0[j].1
                                <= self.species_success@[j].1 by {
                                assert(self.species_success@[j] == lpre[j]);
                                assert(lpre[j].0@ == ledger0[j].0@ && ledger0[j].1 <= lpre[j].1);
                            }
                            assert forall|j: int|
                                ledger0.len() <= j < self.species_success@.len() implies (
                            #[trigger] self.species_success@[j]).1 >= 1 by {
                                if j < lpre.len() {
                                    assert(self.species_success@[j] == lpre[j]);
                                    assert(lpre[j].1 >= 1);
                                } else {
                                    assert(self.species_success@.last().1 == 1);
                                }
                            }
                            if ledger_headroom(ledger0, orgs0.len() as int) {
                                assert(self.species_success@ =~= lpre.push(
                                    self.species_success@.last(),
                                ));
                                lemma_ledger_total_push(lpre, self.species_success@.last());
                                assert(ledger_total(self.species_success@) == ledger_total(lpre)
                                    + 1);
                                assert forall|j: int|
                                    0 <= j < self.species_success@.len() implies (
                                #[trigger] self.species_success@[j]).1 <= (if j < ledger0.len() {
                                    ledger0[j].1 as int
                                } else {
                                    1int
                                }) + new_organisms@.len() + 1 by {
                                    if j < lpre.len() {
                                        assert(self.species_success@[j] == lpre[j]);
                                    }
                                }
                            }
                        }
                    }
                    new_organisms.push(new_org);
                }
                o.consume_reproduction_energy();
            }
            proof {
                assert(o.energy as int == repro_charge(e_upd, pre_o.cells@.len() as int));
                assert(ticked_survivor(pre_o, o));
            }
            processed.push(o);
            i = i + 1;
        }
        proof {
            assert(surv_full.skip(m as int) =~= Seq::<Organism>::empty());
        }
        core::mem::swap(&mut self.organisms, &mut processed);
        self.organisms.append(&mut new_organisms);
        proof {
            if surv_full.len() > 0 {
                assert(self.organisms@.len() >= m);
            }
        }
        if self.organisms.len() == 0 {
            self.init();
        }
        self.refresh_best();
        if self.frame < u128::MAX {
            self.frame = self.frame + 1;
        }
        self.sim_data.organism_num = self.organisms.len();
        proof {
            if forall|k: int|
                0 <= k < old(self).organisms@.len() ==> (#[trigger] old(self).organisms@[k]).killed
                    || crate::grid::org_kill_hit(
                    old(self).organisms@[k],
                    old(self).grid.pending_kill_coordinates@,
                    old(self).grid.pending_kill_killers@,
                ) {
                assert forall|k: int|
                    0 <= k < orgs0.len() implies cull_killed(
                    #[trigger] orgs0[k],
                    coords0,
                    kills0,
                ) by {
                    assert(orgs0[k].killed || crate::grid::org_kill_hit(
                        orgs0[k],
                        coords0,
                        kills0,
                    ));
                }
                lemma_all_culled_no_survivors(orgs0, coords0, kills0);
            }
        }
    }
}

} // verus!
