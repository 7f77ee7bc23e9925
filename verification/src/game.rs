use vstd::prelude::*;

verus! {

use crate::board::{Board, PlaceError, Tile, tile_wf};
use crate::config::GlobalSetting;
use crate::drops::{get_drops, spec_drops_for_draw};
use crate::hand::{Hand, hand_push_rel, hand_take_rel};
use crate::plants::{
    ConfigError, PlantCatalog, PlantInstance, PlantSpecies, catalog_wf, default_catalog,
    inst_fresh, inst_growing_wf, species_wf, table_total,
};
use vstd::arithmetic::mul::{lemma_mul_inequality, lemma_mul_is_distributive_add_other_way};

/// The three interaction modes: choosing a plant from the hand,
/// placing it on the board, confirming the next round.
#[derive(Debug, Clone, Copy, PartialEq, Eq, Structural)]
pub enum Mode {
    Choosing,
    Placing,
    NextRound,
}

/// The board cursor of placing mode.  It persists across mode
/// switches and moves clamped to the board, never wrapping.
#[derive(Debug, Clone, Copy, PartialEq, Eq, Structural)]
pub struct PlacingState {
    pub x: usize,
    pub y: usize,
}

/// Midpoint of a side of length `n`, rounded up and kept on the board.
pub open spec fn center_of(n: int) -> int {
    if n / 2 + n % 2 < n {
        n / 2 + n % 2
    } else {
        n - 1
    }
}

impl PlacingState {
    /// The cursor's starting position: the middle of the board.
    pub fn centered(width: usize, height: usize) -> (c: PlacingState)
        requires
            width >= 1,
            height >= 1,
        ensures
            c.x == center_of(width as int),
            c.y == center_of(height as int),
            c.x < width,
            c.y < height,
    {
        let mx = width / 2 + width % 2;
        let my = height / 2 + height % 2;
        PlacingState {
            x: if mx < width {
                mx
            } else {
                width - 1
            },
            y: if my < height {
                my
            } else {
                height - 1
            },
        }
    }

    /// One step up (towards greater `y`), clamped to the board.
    pub fn on_up(&mut self, height: usize)
        requires
            height >= 1,
            old(self).y < height,
        ensures
            final(self).x == old(self).x,
            final(self).y == (if old(self).y + 1 < height {
                old(self).y + 1
            } else {
                height - 1
            }),
            final(self).y < height,
    {
        if self.y + 1 < height {
            self.y = self.y + 1;
        } else {
            self.y = height - 1;
        }
    }

    /// One step down (towards zero `y`), clamped to the board.
    pub fn on_down(&mut self)
        ensures
            final(self).x == old(self).x,
            final(self).y == (if old(self).y > 0 {
                old(self).y - 1
            } else {
                0
            }),
    {
        if self.y > 0 {
            self.y = self.y - 1;
        }
    }

    /// One step right, clamped to the board.
    pub fn on_right(&mut self, width: usize)
        requires
            width >= 1,
            old(self).x < width,
        ensures
            final(self).y == old(self).y,
            final(self).x == (if old(self).x + 1 < width {
                old(self).x + 1
            } else {
                width - 1
            }),
            final(self).x < width,
    {
        if self.x + 1 < width {
            self.x = self.x + 1;
        } else {
            self.x = width - 1;
        }
    }

    /// One step left, clamped to the board.
    pub fn on_left(&mut self)
        ensures
            final(self).y == old(self).y,
            final(self).x == (if old(self).x > 0 {
                old(self).x - 1
            } else {
                0
            }),
    {
        if self.x > 0 {
            self.x = self.x - 1;
        }
    }
}

/// `x` clamped into `u64`; round counters and scores accumulate with
/// this saturation instead of ever overflowing.
pub open spec fn clip_u64(x: int) -> u64 {
    if x > u64::MAX {
        u64::MAX
    } else if x < 0 {
        0u64
    } else {
        x as u64
    }
}

/// `p` one growth tick later: one age unit and one growth increment.
pub open spec fn aged(p: PlantInstance, cat: Seq<PlantSpecies>) -> PlantInstance {
    PlantInstance {
        species: p.species,
        age: (p.age + 1) as u32,
        size: (p.size + cat[p.species as int].size_per_turn) as u32,
    }
}

/// The cell's plant reaches its maximum age on this round tick.
pub open spec fn matures(t: Tile, cat: Seq<PlantSpecies>) -> bool {
    t matches Tile::Growing(p) && p.age + 1 >= cat[p.species as int].max_age
}

/// One round tick of a single cell: a just-placed plant starts growing
/// unchanged (its one-tick grace period), a growing plant ages and
/// either stays or, having matured, leaves the cell empty; empty cells
/// are untouched.
pub open spec fn ticked_cell(t: Tile, cat: Seq<PlantSpecies>) -> Tile {
    match t {
        Tile::Empty => Tile::Empty,
        Tile::JustPlaced(p) => Tile::Growing(p),
        Tile::Growing(p) => if p.age + 1 >= cat[p.species as int].max_age {
            Tile::Empty
        } else {
            Tile::Growing(aged(p, cat))
        },
    }
}

/// Points scored by this cell on this round tick: a maturing plant is
/// worth its grown size times its species' score multiplier, any other
/// cell is worth nothing.
pub open spec fn cell_score(t: Tile, cat: Seq<PlantSpecies>) -> int {
    match t {
        Tile::Growing(p) => if p.age + 1 >= cat[p.species as int].max_age {
            (p.size + cat[p.species as int].size_per_turn) * cat[p.species as int].points_per_size
        } else {
            0
        },
        _ => 0,
    }
}

/// Points scored over all cells on one round tick.
pub open spec fn board_score(s: Seq<Tile>, cat: Seq<PlantSpecies>) -> int
    decreases s.len(),
{
    if s.len() == 0 {
        0
    } else {
        board_score(s.drop_last(), cat) + cell_score(s.last(), cat)
    }
}

/// No cell matures on this round tick.
pub open spec fn no_maturation(s: Seq<Tile>, cat: Seq<PlantSpecies>) -> bool {
    forall|i: int| 0 <= i < s.len() ==> !matures(#[trigger] s[i], cat)
}

/// The hand after a round tick: the old plants stay in place, anything
/// appended is a fresh instance of a catalog species, and the cursor
/// stays except that an empty cursor resets to the first slot.
pub open spec fn hand_extended(pre: Hand, post: Hand, cat: Seq<PlantSpecies>) -> bool {
    &&& post.plants@.len() >= pre.plants@.len()
    &&& post.plants@.subrange(0, pre.plants@.len() as int) == pre.plants@
    &&& forall|i: int|
        pre.plants@.len() <= i < post.plants@.len() ==> inst_fresh(
            #[trigger] post.plants@[i],
            cat,
        )
    &&& post.index == (if pre.index is None && post.plants@.len() > 0 {
        Some(0usize)
    } else {
        pre.index
    })
}

/// The species whose drop this cell resolves on this round tick:
/// the cell's own species when it matures, nothing otherwise.
pub open spec fn drop_source(t: Tile, cat: Seq<PlantSpecies>) -> Seq<int> {
    match t {
        Tile::Growing(p) => if p.age + 1 >= cat[p.species as int].max_age {
            seq![p.species as int]
        } else {
            Seq::<int>::empty()
        },
        _ => Seq::<int>::empty(),
    }
}

/// The species of the cells that mature on this round tick, in
/// row-major order.
pub open spec fn matured_species(s: Seq<Tile>, cat: Seq<PlantSpecies>) -> Seq<int>
    decreases s.len(),
{
    if s.len() == 0 {
        Seq::<int>::empty()
    } else {
        matured_species(s.drop_last(), cat) + drop_source(s.last(), cat)
    }
}

/// `part` is an outcome the drop table of species `sid` can produce:
/// nothing when the table is weightless, and otherwise the resolution
/// of some in-range draw.
pub open spec fn possible_drop(cat: Seq<PlantSpecies>, sid: int, part: Seq<PlantInstance>) -> bool {
    if table_total(cat[sid].drops@) == 0 {
        part == Seq::<PlantInstance>::empty()
    } else {
        exists|d: int|
            1 <= d <= table_total(cat[sid].drops@) && spec_drops_for_draw(cat, sid, d)
                == Some(part)
    }
}

/// The drop lists of one round tick, concatenated in order.
pub open spec fn concat_all(parts: Seq<Seq<PlantInstance>>) -> Seq<PlantInstance>
    decreases parts.len(),
{
    if parts.len() == 0 {
        Seq::<PlantInstance>::empty()
    } else {
        concat_all(parts.drop_last()) + parts.last()
    }
}

/// The hand after a round tick, precisely: one drop list per maturing
/// cell, each a possible outcome of that cell's species' table, lands
/// at the end of the hand in row-major order; an empty cursor resets
/// to the first slot once something is in hand.
pub open spec fn drops_outcome(pre: Game, post: Game, parts: Seq<Seq<PlantInstance>>) -> bool {
    let cat = pre.catalog.species@;
    let ms = matured_species(pre.board.tiles@, cat);
    &&& parts.len() == ms.len()
    &&& forall|k: int| 0 <= k < parts.len() ==> possible_drop(cat, ms[k], #[trigger] parts[k])
    &&& post.hand.plants@ == pre.hand.plants@ + concat_all(parts)
    &&& post.hand.index == (if pre.hand.index is None && post.hand.plants@.len() > 0 {
        Some(0usize)
    } else {
        pre.hand.index
    })
}

/// Everything `advance_round` does: each cell ticks independently, the
/// score grows by the board's maturation points, the round counter
/// steps, matured plants' drops land at the end of the hand, and
/// nothing else moves.  Which drop entry each maturing cell's draw
/// picked is the one thing left open.
pub open spec fn round_rel(pre: Game, post: Game) -> bool {
    &&& post.board.width == pre.board.width
    &&& post.board.height == pre.board.height
    &&& post.board.tiles@.len() == pre.board.tiles@.len()
    &&& forall|i: int|
        0 <= i < pre.board.tiles@.len() ==> post.board.tiles@[i] == ticked_cell(
            #[trigger] pre.board.tiles@[i],
            pre.catalog.species@,
        )
    &&& post.points == clip_u64(pre.points + board_score(pre.board.tiles@, pre.catalog.species@))
    &&& post.round == clip_u64(pre.round + 1)
    &&& hand_extended(pre.hand, post.hand, pre.catalog.species@)
    &&& exists|parts: Seq<Seq<PlantInstance>>| drops_outcome(pre, post, parts)
    &&& (no_maturation(pre.board.tiles@, pre.catalog.species@) ==> post.hand == pre.hand)
    &&& post.catalog == pre.catalog
    &&& post.state == pre.state
    &&& post.placing == pre.placing
    &&& post.choice == pre.choice
}

/// Clipped sums absorb further addition: clipping after adding to an
/// already clipped nonnegative sum is the same as clipping the exact
/// sum.
proof fn lemma_clip_add(a: int, c: u64)
    requires
        a >= 0,
    ensures
        clip_u64(clip_u64(a) + c) == clip_u64(a + c),
{
}

/// A cell never scores negative points.
proof fn lemma_cell_score_nonneg(t: Tile, cat: Seq<PlantSpecies>)
    ensures
        cell_score(t, cat) >= 0,
{
    match t {
        Tile::Growing(p) => {
            if p.age + 1 >= cat[p.species as int].max_age {
                vstd::arithmetic::mul::lemma_mul_nonnegative(
                    p.size + cat[p.species as int].size_per_turn,
                    cat[p.species as int].points_per_size as int,
                );
            }
        },
        _ => {},
    }
}

/// A board never scores negative points.
proof fn lemma_board_score_nonneg(s: Seq<Tile>, cat: Seq<PlantSpecies>)
    ensures
        board_score(s, cat) >= 0,
    decreases s.len(),
{
    if s.len() > 0 {
        lemma_board_score_nonneg(s.drop_last(), cat);
        lemma_cell_score_nonneg(s.last(), cat);
    }
}

/// One more cell adds its score to a prefix's score.
proof fn lemma_board_score_take_step(s: Seq<Tile>, cat: Seq<PlantSpecies>, k: int)
    requires
        0 <= k < s.len(),
    ensures
        board_score(s.take(k + 1), cat) == board_score(s.take(k), cat) + cell_score(s[k], cat),
{
    assert(s.take(k + 1).drop_last() =~= s.take(k));
    assert(s.take(k + 1).last() == s[k]);
}

/// One more cell appends its drop source to a prefix's matured list.
proof fn lemma_matured_take_step(s: Seq<Tile>, cat: Seq<PlantSpecies>, k: int)
    requires
        0 <= k < s.len(),
    ensures
        matured_species(s.take(k + 1), cat) == matured_species(s.take(k), cat) + drop_source(
            s[k],
            cat,
        ),
{
    assert(s.take(k + 1).drop_last() =~= s.take(k));
    assert(s.take(k + 1).last() == s[k]);
}

/// A cell that does not mature leaves a prefix's matured list as it
/// was.
proof fn lemma_no_drop_source(s: Seq<Tile>, cat: Seq<PlantSpecies>, k: int)
    requires
        0 <= k < s.len(),
        !matures(s[k], cat),
    ensures
        matured_species(s.take(k + 1), cat) == matured_species(s.take(k), cat),
{
    lemma_matured_take_step(s, cat, k);
    assert(drop_source(s[k], cat) =~= Seq::<int>::empty());
    assert(matured_species(s.take(k), cat) + Seq::<int>::empty() =~= matured_species(
        s.take(k),
        cat,
    ));
}

/// Appending a maturing cell's drop list keeps every accumulated drop
/// list a possible outcome of its cell's species.
proof fn lemma_drop_list_step(
    s: Seq<Tile>,
    cat: Seq<PlantSpecies>,
    k: int,
    parts_pre: Seq<Seq<PlantInstance>>,
    part: Seq<PlantInstance>,
    sid: int,
)
    requires
        0 <= k < s.len(),
        drop_source(s[k], cat) == seq![sid],
        parts_pre.len() == matured_species(s.take(k), cat).len(),
        forall|t: int|
            0 <= t < parts_pre.len() ==> possible_drop(
                cat,
                matured_species(s.take(k), cat)[t],
                #[trigger] parts_pre[t],
            ),
        possible_drop(cat, sid, part),
    ensures
        parts_pre.push(part).len() == matured_species(s.take(k + 1), cat).len(),
        forall|t: int|
            0 <= t < parts_pre.push(part).len() ==> possible_drop(
                cat,
                matured_species(s.take(k + 1), cat)[t],
                #[trigger] parts_pre.push(part)[t],
            ),
{
    lemma_matured_take_step(s, cat, k);
    let ms = matured_species(s.take(k), cat);
    let ms2 = matured_species(s.take(k + 1), cat);
    assert(ms2 == ms + seq![sid]);
    assert forall|t: int| 0 <= t < parts_pre.push(part).len() implies possible_drop(
        cat,
        matured_species(s.take(k + 1), cat)[t],
        #[trigger] parts_pre.push(part)[t],
    ) by {
        if t < parts_pre.len() {
            assert(parts_pre.push(part)[t] == parts_pre[t]);
            assert(ms2[t] == ms[t]);
        } else {
            assert(parts_pre.push(part)[t] == part);
            assert(ms2[t] == sid);
        }
    }
}

/// A whole session: board, hand, catalog, interaction state, score and
/// round counter.
#[derive(Debug)]
pub struct Game {
    pub state: Mode,
    pub board: Board,
    pub hand: Hand,
    pub catalog: PlantCatalog,
    pub points: u64,
    pub round: u64,
    pub placing: PlacingState,
    pub choice: Option<PlantInstance>,
}

impl Game {
    /// The session invariant: a usable, non-empty catalog; a board
    /// whose cells are consistent with it; a hand of fresh instances
    /// with a sound cursor; an in-bounds board cursor; and a pending
    /// placement, if any, that is fresh and backed by a non-empty
    /// hand.
    pub open spec fn wf(self) -> bool {
        &&& catalog_wf(self.catalog.species@)
        &&& self.catalog.species@.len() >= 1
        &&& self.board.wf(self.catalog.species@)
        &&& self.hand.wf()
        &&& forall|i: int|
            0 <= i < self.hand.plants@.len() ==> inst_fresh(
                #[trigger] self.hand.plants@[i],
                self.catalog.species@,
            )
        &&& self.placing.x < self.board.width
        &&& self.placing.y < self.board.height
        &&& (self.choice matches Some(p) ==> inst_fresh(p, self.catalog.species@)
            && self.hand.plants@.len() > 0)
    }

    /// A fresh session on the built-in catalog: an all-empty board of
    /// the configured dimensions, two grass plants in hand with the
    /// first selected, the cursor centered, choosing mode, nothing
    /// scored.
    pub fn empty(cfg: &GlobalSetting) -> (g: Game)
        requires
            cfg.wf(),
        ensures
            g.wf(),
            g.state is Choosing,
            g.board.width == cfg.width,
            g.board.height == cfg.height,
            forall|i: int| 0 <= i < g.board.tiles@.len() ==> g.board.tiles@[i] == Tile::Empty,
            g.catalog.species@.len() == 3,
            g.hand.plants@ =~= seq![
                (PlantInstance { species: 0, age: 0, size: 0 }),
                (PlantInstance { species: 0, age: 0, size: 0 }),
            ],
            g.hand.index == Some(0usize),
            g.points == 0,
            g.round == 0,
            g.choice is None,
            g.placing.x == center_of(cfg.width as int),
            g.placing.y == center_of(cfg.height as int),
    {
        let catalog = default_catalog();
        let board = Board::new(cfg.width, cfg.height);
        let first = PlantInstance { species: 0, age: 0, size: 0 };
        let mut plants: Vec<PlantInstance> = Vec::new();
        plants.push(first);
        plants.push(first);
        let hand = Hand::new(plants);
        let placing = PlacingState::centered(cfg.width, cfg.height);
        let g = Game {
            state: Mode::Choosing,
            board,
            hand,
            catalog,
            points: 0,
            round: 0,
            placing,
            choice: None,
        };
        g
    }

    /// A fresh session on a caller-supplied catalog, validated here:
    /// construction fails exactly as catalog validation does, or with
    /// `EmptyCatalog` when there is no first species to start the hand
    /// with.
    pub fn with_catalog(cfg: &GlobalSetting, species: Vec<PlantSpecies>) -> (r: Result<
        Game,
        ConfigError,
    >)
        requires
            cfg.wf(),
        ensures
            catalog_wf(species@) && species@.len() >= 1 ==> (r matches Ok(g) && g.wf()
                && g.state is Choosing && g.board.width == cfg.width && g.board.height
                == cfg.height && (forall|i: int|
                0 <= i < g.board.tiles@.len() ==> g.board.tiles@[i] == Tile::Empty)
                && g.catalog.species@ == species@ && g.hand.plants@ =~= seq![
                (PlantInstance { species: 0, age: 0, size: 0 }),
                (PlantInstance { species: 0, age: 0, size: 0 }),
            ] && g.hand.index == Some(0usize) && g.points == 0 && g.round == 0 && g.choice is None),
            !catalog_wf(species@) ==> r is Err,
            catalog_wf(species@) && species@.len() == 0 ==> r == Result::<
                Game,
                ConfigError,
            >::Err(ConfigError::EmptyCatalog),
    {
        let catalog = match PlantCatalog::new(species) {
            Ok(c) => c,
            Err(e) => {
                return Err(e);
            },
        };
        if catalog.species.len() == 0 {
            return Err(ConfigError::EmptyCatalog);
        }
        let board = Board::new(cfg.width, cfg.height);
        let first = PlantInstance { species: 0, age: 0, size: 0 };
        let mut plants: Vec<PlantInstance> = Vec::new();
        plants.push(first);
        plants.push(first);
        let hand = Hand::new(plants);
        let placing = PlacingState::centered(cfg.width, cfg.height);
        Ok(
            Game {
                state: Mode::Choosing,
                board,
                hand,
                catalog,
                points: 0,
                round: 0,
                placing,
                choice: None,
            },
        )
    }

    /// A copy of the plant under the hand cursor, or `None` on an
    /// empty hand.
    pub fn selected_plant(&self) -> (r: Option<PlantInstance>)
        requires
            self.hand.wf(),
        ensures
            r == (match self.hand.index {
                None => None::<PlantInstance>,
                Some(i) => Some(self.hand.plants@[i as int]),
            }),
    {
        self.hand.selected()
    }

    /// True exactly when the cell at `(x, y)` exists and is empty.
    pub fn can_place_plant(&self, x: usize, y: usize) -> (r: bool)
        requires
            self.board.dims_wf(),
        ensures
            r == self.board.can_place_at(x as int, y as int),
    {
        self.board.can_place(x, y)
    }

    /// Puts a fresh plant at `(x, y)`; fails exactly as `Board::place`
    /// does, and touches nothing but the board.
    pub fn place_plant(&mut self, x: usize, y: usize, plant: PlantInstance) -> (r: Result<
        (),
        PlaceError,
    >)
        requires
            old(self).wf(),
            inst_fresh(plant, old(self).catalog.species@),
        ensures
            final(self).wf(),
            *final(self) == (Game { board: final(self).board, ..*old(self) }),
            final(self).board.width == old(self).board.width,
            final(self).board.height == old(self).board.height,
            !old(self).board.in_bounds(x as int, y as int) ==> r == Result::<
                (),
                PlaceError,
            >::Err(PlaceError::OutOfBounds) && *final(self) == *old(self),
            old(self).board.in_bounds(x as int, y as int) && !(old(self).board.tile_at(
                x as int,
                y as int,
            ) is Empty) ==> r == Result::<(), PlaceError>::Err(PlaceError::CellOccupied)
                && *final(self) == *old(self),
            old(self).board.can_place_at(x as int, y as int) ==> r is Ok && final(self).board.tiles@
                == old(self).board.tiles@.update(
                old(self).board.idx_of(x as int, y as int),
                Tile::JustPlaced(plant),
            ),
    {
        let ghost pre = *self;
        let r = self.board.place(x, y, plant);
        proof {
            if pre.board.can_place_at(x as int, y as int) {
                pre.board.lemma_idx_in_range(x as int, y as int);
                assert forall|i: int| 0 <= i < self.board.tiles@.len() implies tile_wf(
                    #[trigger] self.board.tiles@[i],
                    self.catalog.species@,
                ) by {
                    if i != pre.board.idx_of(x as int, y as int) {
                        assert(self.board.tiles@[i] == pre.board.tiles@[i]);
                    }
                }
            }
        }
        r
    }

    /// The round tick.  Walks the board in row-major order: just-placed
    /// cells start growing unchanged, growing cells age by one and grow
    /// by their species' increment, and a cell reaching its maximum age
    /// scores its size times its score multiplier, resolves its drop
    /// into the hand, and empties.  Finally the round counter steps.
    pub fn update_game(&mut self)
        requires
            old(self).wf(),
        ensures
            final(self).wf(),
            round_rel(*old(self), *final(self)),
    {
        let ghost pre = *self;
        let ghost cat = pre.catalog.species@;
        let n = self.board.tiles.len();
        let mut idx: usize = 0;
        let ghost mut parts: Seq<Seq<PlantInstance>> = Seq::<Seq<PlantInstance>>::empty();
        proof {
            assert(pre.hand.plants@.subrange(0, pre.hand.plants@.len() as int)
                =~= pre.hand.plants@);
            assert(pre.board.tiles@.take(0) =~= Seq::<Tile>::empty());
            assert(matured_species(Seq::<Tile>::empty(), cat) == Seq::<int>::empty());
            assert(concat_all(parts) == Seq::<PlantInstance>::empty());
            assert(pre.hand.plants@ + Seq::<PlantInstance>::empty() =~= pre.hand.plants@);
        }
        while idx < n
            invariant
                pre.wf(),
                cat == pre.catalog.species@,
                n == pre.board.tiles@.len(),
                idx <= n,
                self.board.width == pre.board.width,
                self.board.height == pre.board.height,
                self.board.tiles@.len() == n,
                self.catalog == pre.catalog,
                self.state == pre.state,
                self.placing == pre.placing,
                self.choice == pre.choice,
                self.round == pre.round,
                forall|j: int| idx <= j < n ==> self.board.tiles@[j] == pre.board.tiles@[j],
                forall|j: int|
                    0 <= j < idx ==> self.board.tiles@[j] == ticked_cell(
                        #[trigger] pre.board.tiles@[j],
                        cat,
                    ),
                forall|j: int|
                    0 <= j < idx ==> tile_wf(#[trigger] self.board.tiles@[j], cat),
                self.points == clip_u64(pre.points + board_score(pre.board.tiles@.take(idx as int), cat)),
                self.hand.wf(),
                hand_extended(pre.hand, self.hand, cat),
                (forall|j: int| 0 <= j < idx ==> !matures(#[trigger] pre.board.tiles@[j], cat))
                    ==> self.hand == pre.hand,
                parts.len() == matured_species(pre.board.tiles@.take(idx as int), cat).len(),
                forall|k: int|
                    0 <= k < parts.len() ==> possible_drop(
                        cat,
                        matured_species(pre.board.tiles@.take(idx as int), cat)[k],
                        #[trigger] parts[k],
                    ),
                self.hand.plants@ == pre.hand.plants@ + concat_all(parts),
            decreases n - idx,
        {
            proof {
                lemma_board_score_take_step(pre.board.tiles@, cat, idx as int);
                assert(tile_wf(pre.board.tiles@[idx as int], cat));
            }
            let ghost mid_hand = self.hand;
            let t = self.board.tiles[idx];
            match t {
                Tile::Empty => {
                    proof {
                        assert(cell_score(pre.board.tiles@[idx as int], cat) == 0);
                        lemma_no_drop_source(pre.board.tiles@, cat, idx as int);
                    }
                },
                Tile::JustPlaced(p) => {
                    self.board.tiles[idx] = Tile::Growing(p);
                    proof {
                        assert(cell_score(pre.board.tiles@[idx as int], cat) == 0);
                        lemma_no_drop_source(pre.board.tiles@, cat, idx as int);
                        assert(inst_growing_wf(p, cat)) by {
                            assert(inst_fresh(p, cat));
                            assert(species_wf(cat[p.species as int], cat.len() as int));
                            assert(p.size == p.age * cat[p.species as int].size_per_turn)
                                by (nonlinear_arith)
                                requires
                                    p.age == 0,
                                    p.size == 0,
                            ;
                        }
                    }
                },
                Tile::Growing(p) => {
                    proof {
                        assert(inst_growing_wf(p, cat));
                        assert(species_wf(cat[p.species as int], cat.len() as int));
                    }
                    let sp_max_age = self.catalog.species[p.species].max_age;
                    let sp_growth = self.catalog.species[p.species].size_per_turn;
                    let sp_pps = self.catalog.species[p.species].points_per_size;
                    proof {
                        lemma_mul_inequality(p.age + 1, sp_max_age as int, sp_growth as int);
                        lemma_mul_is_distributive_add_other_way(
                            sp_growth as int,
                            p.age as int,
                            1,
                        );
                        assert(p.size + sp_growth == (p.age + 1) * sp_growth);
                        assert(p.size + sp_growth <= sp_max_age * sp_growth <= u32::MAX);
                    }
                    let new_age = p.age + 1;
                    let new_size = p.size + sp_growth;
                    if new_age >= sp_max_age {
                        proof {
                            assert(matures(pre.board.tiles@[idx as int], cat));
                            lemma_mul_inequality(
                                new_size as int,
                                u32::MAX as int,
                                sp_pps as int,
                            );
                            lemma_mul_inequality(sp_pps as int, u32::MAX as int, u32::MAX as int);
                            assert((new_size as int) * (sp_pps as int) <= (u32::MAX as int) * (
                            u32::MAX as int));
                        }
                        let contribution = (new_size as u64) * (sp_pps as u64);
                        proof {
                            assert(cell_score(pre.board.tiles@[idx as int], cat)
                                == contribution as int);
                            lemma_board_score_nonneg(pre.board.tiles@.take(idx as int), cat);
                            lemma_clip_add(
                                pre.points + board_score(pre.board.tiles@.take(idx as int), cat),
                                contribution,
                            );
                        }
                        self.points = self.points.saturating_add(contribution);
                        let drops_opt = get_drops(p.species, &self.catalog);
                        proof {
                            lemma_matured_take_step(pre.board.tiles@, cat, idx as int);
                        }
                        match drops_opt {
                            Some(mut ds) => {
                                let ghost ds_view = ds@;
                                self.hand.append(&mut ds);
                                proof {
                                    assert(self.hand.plants@ == mid_hand.plants@ + ds_view);
                                    assert(self.hand.plants@.subrange(
                                        0,
                                        pre.hand.plants@.len() as int,
                                    ) =~= pre.hand.plants@);
                                    assert forall|i: int|
                                        pre.hand.plants@.len() <= i < self.hand.plants@.len()
                                            implies inst_fresh(
                                            #[trigger] self.hand.plants@[i],
                                            cat,
                                        ) by {
                                        if i < mid_hand.plants@.len() {
                                            assert(self.hand.plants@[i] == mid_hand.plants@[i]);
                                        } else {
                                            assert(self.hand.plants@[i] == ds_view[i
                                                - mid_hand.plants@.len()]);
                                        }
                                    }
                                    assert(table_total(cat[p.species as int].drops@) > 0) by {
                                        crate::plants::lemma_table_total_nonneg(
                                            cat[p.species as int].drops@,
                                        );
                                    }
                                    assert(possible_drop(cat, p.species as int, ds_view));
                                    let parts_pre = parts;
                                    parts = parts.push(ds_view);
                                    assert(parts.drop_last() =~= parts_pre);
                                    assert(parts.last() == ds_view);
                                    assert(concat_all(parts) == concat_all(parts_pre) + ds_view);
                                    assert((pre.hand.plants@ + concat_all(parts_pre)) + ds_view
                                        =~= pre.hand.plants@ + (concat_all(parts_pre) + ds_view));
                                    lemma_drop_list_step(
                                        pre.board.tiles@,
                                        cat,
                                        idx as int,
                                        parts_pre,
                                        ds_view,
                                        p.species as int,
                                    );
                                }
                            },
                            None => {
                                proof {
                                    assert(table_total(cat[p.species as int].drops@) == 0) by {
                                        crate::plants::lemma_table_total_nonneg(
                                            cat[p.species as int].drops@,
                                        );
                                    }
                                    assert(possible_drop(
                                        cat,
                                        p.species as int,
                                        Seq::<PlantInstance>::empty(),
                                    ));
                                    let parts_pre = parts;
                                    parts = parts.push(Seq::<PlantInstance>::empty());
                                    assert(parts.drop_last() =~= parts_pre);
                                    assert(concat_all(parts) == concat_all(parts_pre)
                                        + Seq::<PlantInstance>::empty());
                                    assert(concat_all(parts_pre) + Seq::<PlantInstance>::empty()
                                        =~= concat_all(parts_pre));
                                    lemma_drop_list_step(
                                        pre.board.tiles@,
                                        cat,
                                        idx as int,
                                        parts_pre,
                                        Seq::<PlantInstance>::empty(),
                                        p.species as int,
                                    );
                                }
                            },
                        }
                        self.board.tiles[idx] = Tile::Empty;
                    } else {
                        let grown = PlantInstance { species: p.species, age: new_age, size: new_size };
                        self.board.tiles[idx] = Tile::Growing(grown);
                        proof {
                            assert(cell_score(pre.board.tiles@[idx as int], cat) == 0);
                            assert(ticked_cell(pre.board.tiles@[idx as int], cat)
                                == Tile::Growing(grown));
                            assert(inst_growing_wf(grown, cat));
                            lemma_no_drop_source(pre.board.tiles@, cat, idx as int);
                        }
                    }
                },
            }
            idx = idx + 1;
        }
        self.round = self.round.saturating_add(1);
        proof {
            assert(pre.board.tiles@.take(n as int) =~= pre.board.tiles@);
            assert(self.hand.plants@.len() >= pre.hand.plants@.len());
            assert forall|i: int| 0 <= i < self.hand.plants@.len() implies inst_fresh(
                #[trigger] self.hand.plants@[i],
                cat,
            ) by {
                if i < pre.hand.plants@.len() {
                    assert(self.hand.plants@.subrange(0, pre.hand.plants@.len() as int)[i]
                        == self.hand.plants@[i]);
                }
            }
            assert(drops_outcome(pre, *self, parts));
        }
    }

    /// Advances the session by one round.
    pub fn next_round(&mut self)
        requires
            old(self).wf(),
        ensures
            final(self).wf(),
            round_rel(*old(self), *final(self)),
    {
        self.update_game();
    }

    /// Confirm.  Choosing a plant from a non-empty hand captures it as
    /// the pending placement and enters placing mode; with an empty
    /// hand the round advances instead.  In placing mode the pending
    /// plant, if any, goes to the cursor's cell when that is free,
    /// the selected plant leaves the hand, and choosing mode resumes;
    /// an occupied cell or no pending plant changes nothing.  In
    /// next-round mode the round advances.
    pub fn on_space(&mut self)
        requires
            old(self).wf(),
        ensures
            final(self).wf(),
            old(self).state is Choosing && old(self).hand.plants@.len() == 0 ==> round_rel(
                *old(self),
                *final(self),
            ),
            old(self).state is Choosing && old(self).hand.plants@.len() > 0 ==> *final(self)
                == (Game {
                state: Mode::Placing,
                choice: (match old(self).hand.index {
                    None => None::<PlantInstance>,
                    Some(i) => Some(old(self).hand.plants@[i as int]),
                }),
                ..*old(self)
            }),
            old(self).state is NextRound ==> round_rel(*old(self), *final(self)),
            old(self).state is Placing && (old(self).choice is None || !old(self).board.can_place_at(
                old(self).placing.x as int,
                old(self).placing.y as int,
            )) ==> *final(self) == *old(self),
            old(self).state is Placing && old(self).board.can_place_at(
                old(self).placing.x as int,
                old(self).placing.y as int,
            ) ==> (match old(self).choice {
                None => true,
                Some(p) => {
                    &&& final(self).state is Choosing
                    &&& final(self).choice is None
                    &&& final(self).board.tiles@ == old(self).board.tiles@.update(
                        old(self).board.idx_of(
                            old(self).placing.x as int,
                            old(self).placing.y as int,
                        ),
                        Tile::JustPlaced(p),
                    )
                    &&& final(self).board.width == old(self).board.width
                    &&& final(self).board.height == old(self).board.height
                    &&& hand_take_rel(old(self).hand, final(self).hand)
                    &&& final(self).points == old(self).points
                    &&& final(self).round == old(self).round
                    &&& final(self).placing == old(self).placing
                    &&& final(self).catalog == old(self).catalog
                },
            }),
    {
        match self.state {
            Mode::Choosing => {
                if self.hand.plants.len() == 0 {
                    self.update_game();
                } else {
                    self.choice = self.hand.selected();
                    self.state = Mode::Placing;
                }
            },
            Mode::Placing => {
                let x = self.placing.x;
                let y = self.placing.y;
                if self.board.can_place(x, y) {
                    match self.choice {
                        Some(plant) => {
                            let ghost pre = *self;
                            self.choice = None;
                            let _ = self.place_plant(x, y, plant);
                            let _ = self.hand.take_selected();
                            self.state = Mode::Choosing;
                            proof {
                                assert forall|i: int|
                                    0 <= i < self.hand.plants@.len() implies inst_fresh(
                                    #[trigger] self.hand.plants@[i],
                                    self.catalog.species@,
                                ) by {
                                    match pre.hand.index {
                                        Some(s) => {
                                            assert(self.hand.plants@[i] == pre.hand.plants@.update(
                                                s as int,
                                                pre.hand.plants@.last(),
                                            ).drop_last()[i]);
                                        },
                                        None => {},
                                    }
                                }
                            }
                        },
                        None => {},
                    }
                }
            },
            Mode::NextRound => {
                self.update_game();
            },
        }
    }

    /// Delete in placing mode: a just-placed plant under the cursor
    /// goes back to the hand and its cell empties — the one way to
    /// undo a same-round placement.  An empty or growing cell, or any
    /// other mode, changes nothing.
    pub fn on_delete(&mut self)
        requires
            old(self).wf(),
        ensures
            final(self).wf(),
            !(old(self).state is Placing) ==> *final(self) == *old(self),
            old(self).state is Placing ==> (match old(self).board.tile_at(
                old(self).placing.x as int,
                old(self).placing.y as int,
            ) {
                Tile::JustPlaced(p) => final(self).board.tiles@ == old(self).board.tiles@.update(
                    old(self).board.idx_of(old(self).placing.x as int, old(self).placing.y as int),
                    Tile::Empty,
                ) && hand_push_rel(old(self).hand, final(self).hand, p) && *final(self) == (Game {
                    board: final(self).board,
                    hand: final(self).hand,
                    ..*old(self)
                }) && final(self).board.width == old(self).board.width && final(self).board.height
                    == old(self).board.height,
                _ => *final(self) == *old(self),
            }),
    {
        match self.state {
            Mode::Placing => {},
            _ => {
                return;
            },
        }
        let x = self.placing.x;
        let y = self.placing.y;
        proof {
            self.board.lemma_idx_in_range(x as int, y as int);
        }
        let idx = crate::board::xy_idx(x, y, self.board.width);
        match self.board.tiles[idx] {
            Tile::JustPlaced(p) => {
                let ghost pre = *self;
                self.board.tiles[idx] = Tile::Empty;
                self.hand.push(p);
                proof {
                    assert(tile_wf(pre.board.tiles@[idx as int], pre.catalog.species@));
                    assert forall|i: int|
                        0 <= i < self.board.tiles@.len() implies tile_wf(
                        #[trigger] self.board.tiles@[i],
                        self.catalog.species@,
                    ) by {
                        if i != idx as int {
                            assert(self.board.tiles@[i] == pre.board.tiles@[i]);
                        }
                    }
                    assert forall|i: int|
                        0 <= i < self.hand.plants@.len() implies inst_fresh(
                        #[trigger] self.hand.plants@[i],
                        self.catalog.species@,
                    ) by {
                        assert(self.hand.plants@[i] == pre.hand.plants@.push(p)[i]);
                    }
                }
            },
            _ => {},
        }
    }

    /// Up.  In choosing mode the hand cursor steps back with
    /// wraparound; in placing mode the board cursor steps up, clamped;
    /// next-round mode ignores it.
    pub fn on_up(&mut self)
        requires
            old(self).wf(),
        ensures
            final(self).wf(),
            old(self).state is Choosing ==> *final(self) == (Game {
                hand: final(self).hand,
                ..*old(self)
            }) && final(self).hand.plants@ == old(self).hand.plants@ && (match old(
                self,
            ).hand.index {
                None => final(self).hand.index is None,
                Some(i) => (final(self).hand.index matches Some(j) && j == (i + old(
                    self,
                ).hand.plants@.len() as int - 1) % old(self).hand.plants@.len() as int),
            }),
            old(self).state is Placing ==> *final(self) == (Game {
                placing: final(self).placing,
                ..*old(self)
            }) && final(self).placing.x == old(self).placing.x && final(self).placing.y == (if old(
                self,
            ).placing.y + 1 < old(self).board.height {
                old(self).placing.y + 1
            } else {
                old(self).board.height - 1
            }),
            old(self).state is NextRound ==> *final(self) == *old(self),
    {
        match self.state {
            Mode::Choosing => {
                self.hand.select_prev();
            },
            Mode::Placing => {
                let h = self.board.height;
                self.placing.on_up(h);
            },
            Mode::NextRound => {},
        }
    }

    /// Down.  In choosing mode the hand cursor steps forward with
    /// wraparound; in placing mode the board cursor steps down,
    /// clamped; next-round mode ignores it.
    pub fn on_down(&mut self)
        requires
            old(self).wf(),
        ensures
            final(self).wf(),
            old(self).state is Choosing ==> *final(self) == (Game {
                hand: final(self).hand,
                ..*old(self)
            }) && final(self).hand.plants@ == old(self).hand.plants@ && (match old(
                self,
            ).hand.index {
                None => final(self).hand.index is None,
                Some(i) => (final(self).hand.index matches Some(j) && j == (i + 1) % old(
                    self,
                ).hand.plants@.len() as int),
            }),
            old(self).state is Placing ==> *final(self) == (Game {
                placing: final(self).placing,
                ..*old(self)
            }) && final(self).placing.x == old(self).placing.x && final(self).placing.y == (if old(
                self,
            ).placing.y > 0 {
                old(self).placing.y - 1
            } else {
                0
            }),
            old(self).state is NextRound ==> *final(self) == *old(self),
    {
        match self.state {
            Mode::Choosing => {
                self.hand.select_next();
            },
            Mode::Placing => {
                self.placing.on_down();
            },
            Mode::NextRound => {},
        }
    }

    /// Right.  Moves the board cursor in placing mode, clamped; the
    /// other modes ignore it.
    pub fn on_right(&mut self)
        requires
            old(self).wf(),
        ensures
            final(self).wf(),
            old(self).state is Placing ==> *final(self) == (Game {
                placing: final(self).placing,
                ..*old(self)
            }) && final(self).placing.y == old(self).placing.y && final(self).placing.x == (if old(
                self,
            ).placing.x + 1 < old(self).board.width {
                old(self).placing.x + 1
            } else {
                old(self).board.width - 1
            }),
            !(old(self).state is Placing) ==> *final(self) == *old(self),
    {
        match self.state {
            Mode::Placing => {
                let w = self.board.width;
                self.placing.on_right(w);
            },
            _ => {},
        }
    }

    /// Left.  Moves the board cursor in placing mode, clamped; the
    /// other modes ignore it.
    pub fn on_left(&mut self)
        requires
            old(self).wf(),
        ensures
            final(self).wf(),
            old(self).state is Placing ==> *final(self) == (Game {
                placing: final(self).placing,
                ..*old(self)
            }) && final(self).placing.y == old(self).placing.y && final(self).placing.x == (if old(
                self,
            ).placing.x > 0 {
                old(self).placing.x - 1
            } else {
                0
            }),
            !(old(self).state is Placing) ==> *final(self) == *old(self),
    {
        match self.state {
            Mode::Placing => {
                self.placing.on_left();
            },
            _ => {},
        }
    }

    /// Cycles the mode: choosing, next-round, placing, choosing.
    pub fn on_tab(&mut self)
        requires
            old(self).wf(),
        ensures
            final(self).wf(),
            *final(self) == (Game {
                state: match old(self).state {
                    Mode::Choosing => Mode::NextRound,
                    Mode::Placing => Mode::Choosing,
                    Mode::NextRound => Mode::Placing,
                },
                ..*old(self)
            }),
    {
        self.state = match self.state {
            Mode::Choosing => Mode::NextRound,
            Mode::Placing => Mode::Choosing,
            Mode::NextRound => Mode::Placing,
        };
    }
}

} // verus!
