use vstd::prelude::*;

verus! {

use crate::plants::{
    DropEntry, PlantCatalog, PlantInstance, PlantSpecies, drop_entry_wf, inst_fresh,
    lemma_table_total_nonneg, lemma_table_total_push, lemma_table_total_split, species_wf,
    table_total,
};

/// Walks a drop table from entry `k` onward with `running` weight
/// already accumulated: the first entry whose cumulative weight
/// interval `(running, running + chance]` contains the draw `r` is
/// selected; a draw outside every interval selects nothing.
pub open spec fn selected_entry_from(drops: Seq<DropEntry>, r: int, k: int, running: int) -> Option<
    int,
>
    decreases drops.len() - k,
{
    if k < 0 || k >= drops.len() {
        None
    } else if running < r && r <= running + drops[k].chance {
        Some(k)
    } else {
        selected_entry_from(drops, r, k + 1, running + drops[k].chance)
    }
}

/// The drop-table entry selected by draw `r`: intervals are half-open
/// below and closed above, so a draw of zero selects nothing.
pub open spec fn selected_entry(drops: Seq<DropEntry>, r: int) -> Option<int> {
    selected_entry_from(drops, r, 0, 0)
}

/// Fresh zero-age, zero-size instances of the given species.
pub open spec fn instances_of(ids: Seq<usize>) -> Seq<PlantInstance> {
    ids.map_values(|id: usize| PlantInstance { species: id, age: 0, size: 0 })
}

/// What a draw of `r` produces for species `sid`: the selected entry's
/// species list as fresh instances, or nothing.
pub open spec fn spec_drops_for_draw(cat: Seq<PlantSpecies>, sid: int, r: int) -> Option<
    Seq<PlantInstance>,
> {
    match selected_entry(cat[sid].drops@, r) {
        None => None,
        Some(i) => Some(instances_of(cat[sid].drops@[i].plants@)),
    }
}

/// A selected entry lies within the table.
pub proof fn lemma_selected_bounds(drops: Seq<DropEntry>, r: int, k: int, running: int)
    ensures
        selected_entry_from(drops, r, k, running) matches Some(i) ==> k <= i < drops.len(),
    decreases drops.len() - k,
{
    if 0 <= k && k < drops.len() {
        lemma_selected_bounds(drops, r, k + 1, running + drops[k].chance);
    }
}

proof fn lemma_selected_from_in_range(drops: Seq<DropEntry>, r: int, k: int, running: int)
    requires
        0 <= k <= drops.len(),
        running < r <= running + table_total(drops.skip(k)),
    ensures
        selected_entry_from(drops, r, k, running) is Some,
    decreases drops.len() - k,
{
    if k >= drops.len() {
        assert(drops.skip(k) =~= Seq::<DropEntry>::empty());
    } else {
        assert(drops.skip(k)[0] == drops[k]);
        assert(drops.skip(k).drop_first() =~= drops.skip(k + 1));
        if !(running < r && r <= running + drops[k].chance) {
            lemma_selected_from_in_range(drops, r, k + 1, running + drops[k].chance);
        }
    }
}

/// Any draw in `(0, total]` selects some entry.
pub proof fn lemma_selected_in_range(drops: Seq<DropEntry>, r: int)
    requires
        0 < r <= table_total(drops),
    ensures
        selected_entry(drops, r) is Some,
{
    assert(drops.skip(0) =~= drops);
    lemma_selected_from_in_range(drops, r, 0, 0);
}

/// Sums a drop table's weights.
pub fn total_weight(drops: &Vec<DropEntry>) -> (t: u64)
    requires
        table_total(drops@) <= u64::MAX,
    ensures
        t == table_total(drops@),
{
    let n = drops.len();
    let mut total: u64 = 0;
    let mut k: usize = 0;
    proof {
        lemma_table_total_split(drops@, 0);
    }
    while k < n
        invariant
            n == drops@.len(),
            k <= n,
            total == table_total(drops@.take(k as int)),
            table_total(drops@) == total + table_total(drops@.skip(k as int)),
            table_total(drops@) <= u64::MAX,
        decreases n - k,
    {
        proof {
            lemma_table_total_nonneg(drops@.skip(k as int).drop_first());
            assert(drops@.skip(k as int)[0] == drops@[k as int]);
            assert(drops@.skip(k as int).drop_first() =~= drops@.skip(k as int + 1));
            assert(drops@.take(k as int).push(drops@[k as int]) =~= drops@.take(k as int + 1));
            lemma_table_total_push(drops@.take(k as int), drops@[k as int]);
        }
        total = total + drops[k].chance as u64;
        k = k + 1;
    }
    proof {
        assert(drops@.take(n as int) =~= drops@);
    }
    total
}

/// Finds the drop-table entry selected by draw `r`, walking the table
/// with a running weight sum.
pub fn select_drop_entry(drops: &Vec<DropEntry>, r: u64) -> (res: Option<usize>)
    requires
        table_total(drops@) <= u64::MAX,
    ensures
        res matches Some(i) ==> selected_entry(drops@, r as int) == Some(i as int),
        res is None ==> selected_entry(drops@, r as int) is None,
{
    let n = drops.len();
    let mut running: u64 = 0;
    let mut k: usize = 0;
    proof {
        lemma_table_total_split(drops@, 0);
    }
    while k < n
        invariant
            n == drops@.len(),
            k <= n,
            running == table_total(drops@.take(k as int)),
            table_total(drops@) == running + table_total(drops@.skip(k as int)),
            table_total(drops@) <= u64::MAX,
            selected_entry(drops@, r as int) == selected_entry_from(
                drops@,
                r as int,
                k as int,
                running as int,
            ),
        decreases n - k,
    {
        proof {
            lemma_table_total_nonneg(drops@.skip(k as int).drop_first());
            assert(drops@.skip(k as int)[0] == drops@[k as int]);
            assert(drops@.skip(k as int).drop_first() =~= drops@.skip(k as int + 1));
            assert(drops@.take(k as int).push(drops@[k as int]) =~= drops@.take(k as int + 1));
            lemma_table_total_push(drops@.take(k as int), drops@[k as int]);
        }
        let c = drops[k].chance as u64;
        let cur = running + c;
        if running < r && r <= cur {
            return Some(k);
        }
        running = cur;
        k = k + 1;
    }
    None
}

/// Resolves a known draw `r` for species `sid`: the selected entry's
/// species list is instantiated fresh.  Deterministic in its
/// arguments, so the weighted-choice logic can be exercised on chosen
/// draws.
pub fn drops_for_draw(catalog: &PlantCatalog, sid: usize, r: u64) -> (res: Option<
    Vec<PlantInstance>,
>)
    requires
        catalog.wf(),
        sid < catalog.species@.len(),
    ensures
        res matches Some(v) ==> spec_drops_for_draw(catalog.species@, sid as int, r as int)
            == Some(v@),
        res is None ==> spec_drops_for_draw(catalog.species@, sid as int, r as int) is None,
        res matches Some(v) ==> forall|i: int|
            0 <= i < v@.len() ==> inst_fresh(#[trigger] v@[i], catalog.species@),
{
    let ghost cat = catalog.species@;
    let sp = &catalog.species[sid];
    proof {
        assert(species_wf(cat[sid as int], cat.len() as int));
    }
    match select_drop_entry(&sp.drops, r) {
        None => None,
        Some(i) => {
            proof {
                lemma_selected_bounds(sp.drops@, r as int, 0, 0);
                assert(drop_entry_wf(sp.drops@[i as int], cat.len() as int));
            }
            let entry = &sp.drops[i];
            let n = entry.plants.len();
            let mut out: Vec<PlantInstance> = Vec::new();
            let mut j: usize = 0;
            while j < n
                invariant
                    n == entry.plants@.len(),
                    j <= n,
                    out@.len() == j,
                    forall|t: int|
                        0 <= t < j ==> #[trigger] out@[t] == (PlantInstance {
                            species: entry.plants@[t],
                            age: 0,
                            size: 0,
                        }),
                decreases n - j,
            {
                out.push(PlantInstance { species: entry.plants[j], age: 0, size: 0 });
                j = j + 1;
            }
            proof {
                assert(out@ =~= instances_of(entry.plants@));
            }
            Some(out)
        },
    }
}

/// Resolves the drop of a matured plant of species `sid`: a uniform
/// draw over the summed weights picks an entry, whose species list
/// comes back as fresh instances.  An empty or weightless table
/// produces nothing; otherwise the result matches some in-range draw.
pub fn get_drops(sid: usize, catalog: &PlantCatalog) -> (res: Option<Vec<PlantInstance>>)
    requires
        catalog.wf(),
        sid < catalog.species@.len(),
    ensures
        table_total(catalog.species@[sid as int].drops@) == 0 ==> res is None,
        table_total(catalog.species@[sid as int].drops@) > 0 ==> (res matches Some(v)
            && exists|d: int|
            1 <= d <= table_total(catalog.species@[sid as int].drops@) && spec_drops_for_draw(
                catalog.species@,
                sid as int,
                d,
            ) == Some(v@)),
        res matches Some(v) ==> forall|i: int|
            0 <= i < v@.len() ==> inst_fresh(#[trigger] v@[i], catalog.species@),
{
    let ghost cat = catalog.species@;
    proof {
        assert(species_wf(cat[sid as int], cat.len() as int));
    }
    let total = total_weight(&catalog.species[sid].drops);
    if total == 0 {
        return None;
    }
    let u = crate::rng::random_u64();
    let r = u % total + 1;
    proof {
        lemma_selected_in_range(cat[sid as int].drops@, r as int);
    }
    let res = drops_for_draw(catalog, sid, r);
    proof {
        assert(res matches Some(v) ==> spec_drops_for_draw(cat, sid as int, r as int) == Some(v@));
        assert(res is Some);
    }
    res
}

} // verus!
