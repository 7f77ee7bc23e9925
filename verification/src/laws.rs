use vstd::prelude::*;

verus! {

use crate::board::{Board, Tile, tile_wf};
use crate::game::{Game, board_score, cell_score, clip_u64, matures, round_rel, ticked_cell};
use crate::plants::{PlantInstance, PlantSpecies, catalog_wf, inst_fresh, species_wf};
use vstd::arithmetic::mul::{
    lemma_mul_inequality, lemma_mul_is_distributive_add_other_way, lemma_mul_basics,
};

/// The cell after `n` round ticks.
pub open spec fn cell_after(t: Tile, cat: Seq<PlantSpecies>, n: nat) -> Tile
    decreases n,
{
    if n == 0 {
        t
    } else {
        ticked_cell(cell_after(t, cat, (n - 1) as nat), cat)
    }
}

/// The points the cell has scored over `n` round ticks.
pub open spec fn score_after(t: Tile, cat: Seq<PlantSpecies>, n: nat) -> int
    decreases n,
{
    if n == 0 {
        0
    } else {
        score_after(t, cat, (n - 1) as nat) + cell_score(cell_after(t, cat, (n - 1) as nat), cat)
    }
}

/// A cell placed this round is not aged by the round tick that first
/// processes it: it starts growing with its instance unchanged — age
/// and size zero for a well-formed cell — and ages only from the
/// following tick on.
pub proof fn lemma_grace_tick(p: PlantInstance, cat: Seq<PlantSpecies>)
    ensures
        ticked_cell(Tile::JustPlaced(p), cat) == Tile::Growing(p),
        tile_wf(Tile::JustPlaced(p), cat) ==> p.age == 0 && p.size == 0,
{
}

/// Once a plant is placed at a free cell, that cell refuses placement.
pub proof fn lemma_place_blocks(b: Board, b2: Board, x: int, y: int, p: PlantInstance)
    requires
        b.dims_wf(),
        b.in_bounds(x, y),
        b2.width == b.width,
        b2.height == b.height,
        b2.tiles@ == b.tiles@.update(b.idx_of(x, y), Tile::JustPlaced(p)),
    ensures
        !b2.can_place_at(x, y),
{
    b.lemma_idx_in_range(x, y);
}

/// After `k + 1` ticks (the grace tick and `k` growth ticks, with `k`
/// still below the maximum age) a freshly placed plant is growing with
/// age `k` and size `k` growth increments; nothing has been scored.
proof fn lemma_growth_stage(p: PlantInstance, cat: Seq<PlantSpecies>, k: nat)
    requires
        catalog_wf(cat),
        inst_fresh(p, cat),
        k < cat[p.species as int].max_age,
    ensures
        cell_after(Tile::JustPlaced(p), cat, k + 1) == Tile::Growing(
            PlantInstance {
                species: p.species,
                age: k as u32,
                size: (k * cat[p.species as int].size_per_turn) as u32,
            },
        ),
        score_after(Tile::JustPlaced(p), cat, k + 1) == 0,
    decreases k,
{
    let g = cat[p.species as int].size_per_turn as int;
    let m = cat[p.species as int].max_age as int;
    assert(species_wf(cat[p.species as int], cat.len() as int));
    lemma_mul_inequality(k as int, m, g);
    lemma_mul_inequality(m, u32::MAX as int, g);
    if k == 0 {
        lemma_mul_basics(g);
        assert(cell_after(Tile::JustPlaced(p), cat, 0) == Tile::JustPlaced(p));
        assert(score_after(Tile::JustPlaced(p), cat, 0) == 0);
        assert(cell_after(Tile::JustPlaced(p), cat, 1) == ticked_cell(Tile::JustPlaced(p), cat));
        assert(score_after(Tile::JustPlaced(p), cat, 1) == cell_score(
            Tile::JustPlaced(p),
            cat,
        ));
    } else {
        lemma_growth_stage(p, cat, (k - 1) as nat);
        lemma_mul_inequality((k - 1) as int, m, g);
        lemma_mul_is_distributive_add_other_way(g, (k - 1) as int, 1);
        let prev = PlantInstance {
            species: p.species,
            age: (k - 1) as u32,
            size: ((k - 1) * g) as u32,
        };
        assert(cell_after(Tile::JustPlaced(p), cat, k + 1) == ticked_cell(
            Tile::Growing(prev),
            cat,
        ));
        assert(prev.age + 1 == k < m);
    }
}

/// Maturation, per cell: a fresh plant of a species with maximum age
/// `M`, growth increment `g` and score multiplier `q` is guaranteed
/// gone exactly `M + 1` round ticks after placement (one grace tick
/// and `M` growth ticks), having scored `M * g * q` in total.
pub proof fn lemma_maturation(p: PlantInstance, cat: Seq<PlantSpecies>)
    requires
        catalog_wf(cat),
        inst_fresh(p, cat),
    ensures
        cell_after(Tile::JustPlaced(p), cat, (cat[p.species as int].max_age + 1) as nat)
            == Tile::Empty,
        score_after(Tile::JustPlaced(p), cat, (cat[p.species as int].max_age + 1) as nat)
            == cat[p.species as int].max_age * cat[p.species as int].size_per_turn
            * cat[p.species as int].points_per_size,
{
    let g = cat[p.species as int].size_per_turn as int;
    let m = cat[p.species as int].max_age as int;
    let q = cat[p.species as int].points_per_size as int;
    assert(species_wf(cat[p.species as int], cat.len() as int));
    lemma_growth_stage(p, cat, (m - 1) as nat);
    let last = PlantInstance { species: p.species, age: (m - 1) as u32, size: ((m - 1) * g) as u32 };
    lemma_mul_inequality((m - 1) as int, m, g);
    lemma_mul_inequality(m, u32::MAX as int, g);
    assert(cell_after(Tile::JustPlaced(p), cat, (m + 1) as nat) == ticked_cell(
        Tile::Growing(last),
        cat,
    ));
    assert(last.age + 1 >= m);
    lemma_mul_is_distributive_add_other_way(g, (m - 1) as int, 1);
    assert(cell_score(Tile::Growing(last), cat) == (m * g) * q);
    assert(score_after(Tile::JustPlaced(p), cat, (m + 1) as nat) == (m * g) * q);
}

/// When exactly one cell matures on a tick, the whole board scores
/// exactly that cell's points.
pub proof fn lemma_board_score_single(s: Seq<Tile>, cat: Seq<PlantSpecies>, idx: int)
    requires
        0 <= idx < s.len(),
        forall|j: int| 0 <= j < s.len() && j != idx ==> !matures(#[trigger] s[j], cat),
    ensures
        board_score(s, cat) == cell_score(s[idx], cat),
    decreases s.len(),
{
    if s.len() - 1 == idx {
        lemma_board_score_no_maturation(s.drop_last(), cat);
    } else {
        lemma_board_score_single(s.drop_last(), cat, idx);
        assert(!matures(s.last(), cat));
    }
}

/// At session level: when at most the cell at `idx` matures on a
/// round tick, the session's score grows by exactly that cell's
/// points (clipped at the counter's ceiling).
pub proof fn lemma_single_cell_round_score(pre: Game, post: Game, idx: int)
    requires
        round_rel(pre, post),
        0 <= idx < pre.board.tiles@.len(),
        forall|j: int|
            0 <= j < pre.board.tiles@.len() && j != idx ==> !matures(
                #[trigger] pre.board.tiles@[j],
                pre.catalog.species@,
            ),
    ensures
        post.points == clip_u64(
            pre.points + cell_score(pre.board.tiles@[idx], pre.catalog.species@),
        ),
{
    lemma_board_score_single(pre.board.tiles@, pre.catalog.species@, idx);
}

/// A board on which nothing matures scores nothing.
pub proof fn lemma_board_score_no_maturation(s: Seq<Tile>, cat: Seq<PlantSpecies>)
    requires
        forall|j: int| 0 <= j < s.len() ==> !matures(#[trigger] s[j], cat),
    ensures
        board_score(s, cat) == 0,
    decreases s.len(),
{
    if s.len() > 0 {
        lemma_board_score_no_maturation(s.drop_last(), cat);
        assert(!matures(s.last(), cat));
    }
}

} // verus!
