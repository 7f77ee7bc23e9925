use vstd::prelude::*;

verus! {

/// One entry of a species' drop table: a relative weight and the list
/// of species (as catalog indices) produced when the entry is drawn.
#[derive(Debug)]
pub struct DropEntry {
    pub chance: u32,
    pub plants: Vec<usize>,
}

/// Immutable definition of a plant type.  Species are referenced by
/// their index in the catalog, resolved once at catalog construction,
/// so no lookup during play can fail.
#[derive(Debug)]
pub struct PlantSpecies {
    pub name: String,
    pub max_age: u32,
    pub size_per_turn: u32,
    pub points_per_size: u32,
    pub class: char,
    pub short_display: char,
    pub drops: Vec<DropEntry>,
}

/// A concrete planted or held plant: a species index plus the age and
/// size accumulated so far.
#[derive(Debug, Clone, Copy, PartialEq, Eq, Structural)]
pub struct PlantInstance {
    pub species: usize,
    pub age: u32,
    pub size: u32,
}

/// Errors of catalog construction and lookup.  All of them are fatal
/// configuration errors: a session never starts on a bad catalog.
#[derive(Debug, Clone, Copy, PartialEq, Eq, Structural)]
pub enum ConfigError {
    /// A species index is referenced (by a drop table or a lookup) that
    /// the catalog does not contain.
    UnknownSpecies,
    /// A species' numbers are unusable: a zero maximum age, or growth
    /// so large that a fully grown plant would not fit its counters.
    MalformedSpecies,
    /// A session needs at least one species for the starting hand.
    EmptyCatalog,
}

/// Sum of the weights of a drop table.
pub open spec fn table_total(drops: Seq<DropEntry>) -> int
    decreases drops.len(),
{
    if drops.len() == 0 {
        0
    } else {
        drops[0].chance + table_total(drops.drop_first())
    }
}

/// Every species index produced by the entry exists in a catalog of
/// `n_species` entries.
pub open spec fn drop_entry_wf(e: DropEntry, n_species: int) -> bool {
    forall|j: int| 0 <= j < e.plants@.len() ==> #[trigger] e.plants@[j] < n_species
}

/// A species is usable: it matures after at least one growth tick, a
/// fully grown plant's size fits `u32`, the drop weights sum within
/// `u64`, and every dropped species exists.
pub open spec fn species_wf(s: PlantSpecies, n_species: int) -> bool {
    &&& s.max_age >= 1
    &&& s.max_age * s.size_per_turn <= u32::MAX
    &&& table_total(s.drops@) <= u64::MAX
    &&& forall|i: int| 0 <= i < s.drops@.len() ==> drop_entry_wf(#[trigger] s.drops@[i], n_species)
}

/// Every species of the catalog is usable and every drop-table
/// reference resolves.
pub open spec fn catalog_wf(s: Seq<PlantSpecies>) -> bool {
    forall|i: int| 0 <= i < s.len() ==> species_wf(#[trigger] s[i], s.len() as int)
}

/// A fresh instance of a known species: zero age, zero size.
pub open spec fn inst_fresh(p: PlantInstance, cat: Seq<PlantSpecies>) -> bool {
    &&& p.species < cat.len()
    &&& p.age == 0
    &&& p.size == 0
}

/// An instance growing on the board: it has not reached its maximum
/// age, and its size is exactly its age worth of growth.
pub open spec fn inst_growing_wf(p: PlantInstance, cat: Seq<PlantSpecies>) -> bool {
    &&& p.species < cat.len()
    &&& p.age < cat[p.species as int].max_age
    &&& p.size == p.age * cat[p.species as int].size_per_turn
}

/// Registry of all species of a session, immutable after construction.
#[derive(Debug)]
pub struct PlantCatalog {
    pub species: Vec<PlantSpecies>,
}

impl PlantCatalog {
    pub open spec fn wf(self) -> bool {
        catalog_wf(self.species@)
    }

    /// Validates raw species definitions into a catalog.  Succeeds
    /// exactly when every species is usable and every drop-table
    /// reference exists.
    pub fn new(species: Vec<PlantSpecies>) -> (r: Result<PlantCatalog, ConfigError>)
        ensures
            r matches Ok(c) ==> c.species@ == species@ && c.wf(),
            r is Ok <==> catalog_wf(species@),
            r == Result::<PlantCatalog, ConfigError>::Err(ConfigError::UnknownSpecies) ==> exists|i: int, j: int|
                0 <= i < species@.len() && 0 <= j < species@[i].drops@.len()
                    && !drop_entry_wf(species@[i].drops@[j], species@.len() as int),
            r == Result::<PlantCatalog, ConfigError>::Err(ConfigError::MalformedSpecies) ==> exists|i: int|
                0 <= i < species@.len() && !(species@[i].max_age >= 1
                    && species@[i].max_age * species@[i].size_per_turn <= u32::MAX
                    && table_total(species@[i].drops@) <= u64::MAX),
            r != Result::<PlantCatalog, ConfigError>::Err(ConfigError::EmptyCatalog),
    {
        let n = species.len();
        let mut i: usize = 0;
        while i < n
            invariant
                n == species@.len(),
                i <= n,
                forall|k: int| 0 <= k < i ==> species_wf(#[trigger] species@[k], n as int),
            decreases n - i,
        {
            match check_species(&species[i], n) {
                Ok(()) => {},
                Err(e) => {
                    return Err(e);
                },
            }
            i = i + 1;
        }
        Ok(PlantCatalog { species })
    }

    /// Looks a species up by index; fails with `UnknownSpecies` exactly
    /// when the index is not in the catalog.
    pub fn lookup(&self, id: usize) -> (r: Result<&PlantSpecies, ConfigError>)
        ensures
            id < self.species@.len() ==> (r matches Ok(s) && *s == self.species@[id as int]),
            id >= self.species@.len() ==> (r matches Err(e) && e == ConfigError::UnknownSpecies),
    {
        if id < self.species.len() {
            Ok(&self.species[id])
        } else {
            Err(ConfigError::UnknownSpecies)
        }
    }
}

/// Checks one species against a catalog of `n_species` entries:
/// `Ok` exactly when it is usable and all its drop references exist.
fn check_species(s: &PlantSpecies, n_species: usize) -> (r: Result<(), ConfigError>)
    ensures
        r is Ok <==> species_wf(*s, n_species as int),
        r matches Err(e) ==> (e == ConfigError::MalformedSpecies
            || e == ConfigError::UnknownSpecies),
        r == Result::<(), ConfigError>::Err(ConfigError::MalformedSpecies) ==> !(s.max_age >= 1
            && s.max_age * s.size_per_turn <= u32::MAX
            && table_total(s.drops@) <= u64::MAX),
        r == Result::<(), ConfigError>::Err(ConfigError::UnknownSpecies) ==> exists|j: int|
            0 <= j < s.drops@.len() && !drop_entry_wf(s.drops@[j], n_species as int),
{
    if s.max_age < 1 {
        return Err(ConfigError::MalformedSpecies);
    }
    let grown_fits = match (s.max_age as u64).checked_mul(s.size_per_turn as u64) {
        Some(p) => p <= u32::MAX as u64,
        None => false,
    };
    if !grown_fits {
        return Err(ConfigError::MalformedSpecies);
    }
    match checked_table_total(&s.drops) {
        Some(_) => {},
        None => {
            return Err(ConfigError::MalformedSpecies);
        },
    }
    let n_entries = s.drops.len();
    let mut i: usize = 0;
    while i < n_entries
        invariant
            n_entries == s.drops@.len(),
            i <= n_entries,
            forall|k: int| 0 <= k < i ==> drop_entry_wf(#[trigger] s.drops@[k], n_species as int),
        decreases n_entries - i,
    {
        let entry = &s.drops[i];
        let n_plants = entry.plants.len();
        let mut j: usize = 0;
        while j < n_plants
            invariant
                i < s.drops@.len(),
                *entry == s.drops@[i as int],
                n_plants == entry.plants@.len(),
                j <= n_plants,
                forall|k: int| 0 <= k < j ==> #[trigger] entry.plants@[k] < n_species,
            decreases n_plants - j,
        {
            if entry.plants[j] >= n_species {
                proof {
                    assert(!(entry.plants@[j as int] < n_species));
                    assert(!drop_entry_wf(s.drops@[i as int], n_species as int));
                    assert(!species_wf(*s, n_species as int));
                }
                return Err(ConfigError::UnknownSpecies);
            }
            j = j + 1;
        }
        i = i + 1;
    }
    Ok(())
}

/// Sums a drop table's weights, or `None` when the sum does not fit
/// `u64`.
fn checked_table_total(drops: &Vec<DropEntry>) -> (r: Option<u64>)
    ensures
        r matches Some(t) ==> t == table_total(drops@),
        r is Some <==> table_total(drops@) <= u64::MAX,
{
    let n = drops.len();
    let mut total: u64 = 0;
    let mut i: usize = 0;
    proof {
        lemma_table_total_split(drops@, 0);
    }
    while i < n
        invariant
            n == drops@.len(),
            i <= n,
            total == table_total(drops@.take(i as int)),
            table_total(drops@) == total + table_total(drops@.skip(i as int)),
        decreases n - i,
    {
        proof {
            lemma_table_total_nonneg(drops@.skip(i as int).drop_first());
            assert(drops@.skip(i as int)[0] == drops@[i as int]);
            assert(drops@.skip(i as int).drop_first() =~= drops@.skip(i as int + 1));
            assert(drops@.take(i as int).push(drops@[i as int]) =~= drops@.take(i as int + 1));
            lemma_table_total_push(drops@.take(i as int), drops@[i as int]);
        }
        let c = drops[i].chance;
        match total.checked_add(c as u64) {
            Some(t) => {
                total = t;
            },
            None => {
                return None;
            },
        }
        i = i + 1;
    }
    proof {
        assert(drops@.take(n as int) =~= drops@);
    }
    Some(total)
}

/// The three built-in species: grass drops more grass (and sometimes
/// tall grass), tall grass mostly drops tall grass, shrubs drop
/// shrubs.  Species are referenced by index: 0 grass, 1 tall grass,
/// 2 shrub.
pub fn default_catalog() -> (c: PlantCatalog)
    ensures
        c.wf(),
        c.species@.len() == 3,
        c.species@[0].max_age == 2 && c.species@[0].size_per_turn == 1 && c.species@[0].points_per_size == 1,
        c.species@[1].max_age == 4 && c.species@[1].size_per_turn == 1 && c.species@[1].points_per_size == 1,
        c.species@[2].max_age == 7 && c.species@[2].size_per_turn == 1 && c.species@[2].points_per_size == 1,
        c.species@[1].drops@.len() == 2 && c.species@[1].drops@[0].chance == 5
            && c.species@[1].drops@[1].chance == 1,
        table_total(c.species@[0].drops@) == 2,
        table_total(c.species@[1].drops@) == 6,
        table_total(c.species@[2].drops@) == 5,
{
    let grass = PlantSpecies {
        name: "Grass".to_owned(),
        max_age: 2,
        size_per_turn: 1,
        points_per_size: 1,
        class: 's',
        short_display: 'w',
        drops: two_entries(1, small_list(0, 0), 1, small_list(0, 1)),
    };
    let tall_grass = PlantSpecies {
        name: "Tall Grass".to_owned(),
        max_age: 4,
        size_per_turn: 1,
        points_per_size: 1,
        class: 's',
        short_display: 'W',
        drops: two_entries(5, small_list(1, 1), 1, small_list(1, 2)),
    };
    let shrub = PlantSpecies {
        name: "Shrub".to_owned(),
        max_age: 7,
        size_per_turn: 1,
        points_per_size: 1,
        class: 'S',
        short_display: 'Y',
        drops: one_entry(5, small_list(2, 2)),
    };
    let mut species: Vec<PlantSpecies> = Vec::new();
    species.push(grass);
    species.push(tall_grass);
    species.push(shrub);
    proof {
        assert forall|i: int| 0 <= i < species@.len() implies species_wf(
            #[trigger] species@[i],
            species@.len() as int,
        ) by {
            assert(species@.len() == 3);
            if i == 0 {
                assert(species_wf(species@[0], 3));
            } else if i == 1 {
                assert(species_wf(species@[1], 3));
            } else {
                assert(species_wf(species@[2], 3));
            }
        }
    }
    PlantCatalog { species }
}

/// A drop list of two species indices.
fn small_list(a: usize, b: usize) -> (v: Vec<usize>)
    ensures
        v@ == seq![a, b],
{
    let mut v: Vec<usize> = Vec::new();
    v.push(a);
    v.push(b);
    proof {
        assert(v@ =~= seq![a, b]);
    }
    v
}

/// A one-entry drop table.
fn one_entry(c: u32, plants: Vec<usize>) -> (v: Vec<DropEntry>)
    ensures
        v@.len() == 1,
        v@[0].chance == c && v@[0].plants@ == plants@,
        table_total(v@) == c,
{
    let ghost p = plants@;
    let mut v: Vec<DropEntry> = Vec::new();
    v.push(DropEntry { chance: c, plants });
    proof {
        lemma_table_total_push(Seq::<DropEntry>::empty(), v@[0]);
        assert(Seq::<DropEntry>::empty().push(v@[0]) =~= v@);
    }
    v
}

/// A two-entry drop table.
fn two_entries(c0: u32, plants0: Vec<usize>, c1: u32, plants1: Vec<usize>) -> (v: Vec<DropEntry>)
    ensures
        v@.len() == 2,
        v@[0].chance == c0 && v@[0].plants@ == plants0@,
        v@[1].chance == c1 && v@[1].plants@ == plants1@,
        table_total(v@) == c0 + c1,
{
    let ghost p0 = plants0@;
    let ghost p1 = plants1@;
    let mut v: Vec<DropEntry> = Vec::new();
    v.push(DropEntry { chance: c0, plants: plants0 });
    let ghost v0 = v@;
    v.push(DropEntry { chance: c1, plants: plants1 });
    proof {
        lemma_table_total_push(Seq::<DropEntry>::empty(), v0[0]);
        assert(Seq::<DropEntry>::empty().push(v0[0]) =~= v0);
        lemma_table_total_push(v0, v@[1]);
        assert(v0.push(v@[1]) =~= v@);
    }
    v
}

/// The weights of a drop table never sum below zero.
pub proof fn lemma_table_total_nonneg(drops: Seq<DropEntry>)
    ensures
        table_total(drops) >= 0,
    decreases drops.len(),
{
    if drops.len() > 0 {
        lemma_table_total_nonneg(drops.drop_first());
    }
}

/// Splitting a drop table at `k` splits its total.
pub proof fn lemma_table_total_split(drops: Seq<DropEntry>, k: int)
    requires
        0 <= k <= drops.len(),
    ensures
        table_total(drops) == table_total(drops.take(k)) + table_total(drops.skip(k)),
    decreases k,
{
    if k == 0 {
        assert(drops.take(0) =~= Seq::<DropEntry>::empty());
        assert(drops.skip(0) =~= drops);
    } else {
        lemma_table_total_split(drops.drop_first(), k - 1);
        assert(drops.take(k).drop_first() =~= drops.drop_first().take(k - 1));
        assert(drops.skip(k) =~= drops.drop_first().skip(k - 1));
    }
}

/// Appending an entry adds its weight to the total.
pub proof fn lemma_table_total_push(drops: Seq<DropEntry>, e: DropEntry)
    ensures
        table_total(drops.push(e)) == table_total(drops) + e.chance,
    decreases drops.len(),
{
    if drops.len() == 0 {
        assert(drops.push(e)[0] == e);
        assert(drops.push(e).drop_first() =~= Seq::<DropEntry>::empty());
        assert(table_total(drops.push(e)) == e.chance + table_total(Seq::<DropEntry>::empty()));
        assert(table_total(drops) == 0);
    } else {
        lemma_table_total_push(drops.drop_first(), e);
        assert(drops.push(e)[0] == drops[0]);
        assert(drops.push(e).drop_first() =~= drops.drop_first().push(e));
        assert(table_total(drops.push(e)) == drops[0].chance + table_total(
            drops.drop_first().push(e),
        ));
        assert(table_total(drops) == drops[0].chance + table_total(drops.drop_first()));
    }
}

} // verus!
