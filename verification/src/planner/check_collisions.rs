use vstd::prelude::*;

use crate::game_state::agent_in_bounds;
use crate::game_state::views_of;
use crate::game_state::Battlesnake;
use crate::game_state::Cell;
use crate::game_state::GameState;
use crate::game_state::StateView;

verus! {

/// The contents of one occupancy-grid slot: empty, the controlled agent's
/// trailing body, or some opponent's trailing body.
#[derive(Clone, Copy, Debug, PartialEq, Eq, Structural)]
pub enum CellContents {
    Empty,
    PlayerBody,
    EnemySnakeBody,
}

impl Default for CellContents {
    /// An unmarked grid slot is empty.
    fn default() -> (r: CellContents)
        ensures
            r == CellContents::Empty,
    {
        CellContents::Empty
    }
}

/// A per-cell grid, row major, sized width by height at construction. The
/// view is the flat sequence of slots.
pub struct CellGrid<T> {
    width: usize,
    height: usize,
    data: Vec<T>,
}

impl<T> View for CellGrid<T> {
    type V = Seq<T>;

    closed spec fn view(&self) -> Seq<T> {
        self.data@
    }
}

proof fn lemma_slot_bounds(w: int, h: int, x: int, y: int)
    by (nonlinear_arith)
    requires
        0 <= x < w,
        0 <= y < h,
    ensures
        0 <= y * w,
        0 <= y * w + x < w * h,
{
}

proof fn lemma_slot_injective(w: int, x1: int, y1: int, x2: int, y2: int)
    by (nonlinear_arith)
    requires
        0 <= x1 < w,
        0 <= x2 < w,
        y1 * w + x1 == y2 * w + x2,
    ensures
        x1 == x2,
        y1 == y2,
{
}

impl<T> CellGrid<T> {
    /// The width the grid was created with.
    pub closed spec fn spec_width(self) -> int {
        self.width as int
    }

    /// The height the grid was created with.
    pub closed spec fn spec_height(self) -> int {
        self.height as int
    }

    /// The grid holds exactly one slot per cell.
    pub closed spec fn wf(self) -> bool {
        self.data@.len() == self.width * self.height
    }

    /// The row-major slot a cell maps to.
    pub open spec fn slot_of(self, cell: Cell) -> int {
        cell.1 * self.spec_width() + cell.0
    }

    /// Whether a cell lies inside the grid.
    pub open spec fn in_grid(self, cell: Cell) -> bool {
        0 <= cell.0 < self.spec_width() && 0 <= cell.1 < self.spec_height()
    }

    /// The entry at an in-grid cell.
    pub fn get(&self, cell: Cell) -> (r: &T)
        requires
            self.wf(),
            self.in_grid(cell),
        ensures
            *r == self@[self.slot_of(cell)],
    {
        proof {
            lemma_slot_bounds(
                self.spec_width(),
                self.spec_height(),
                cell.0 as int,
                cell.1 as int,
            );
            assert(self@.len() == self.spec_width() * self.spec_height());
        }
        let n = self.data.len();
        assert((cell.1 as int) * (self.width as int) + (cell.0 as int) < n);
        &self.data[(cell.1 as usize) * self.width + (cell.0 as usize)]
    }

    /// Overwrites the entry at an in-grid cell.
    pub fn set(&mut self, cell: Cell, value: T)
        requires
            old(self).wf(),
            old(self).in_grid(cell),
        ensures
            final(self).wf(),
            final(self).spec_width() == old(self).spec_width(),
            final(self).spec_height() == old(self).spec_height(),
            final(self)@ == old(self)@.update(old(self).slot_of(cell), value),
    {
        proof {
            lemma_slot_bounds(
                self.spec_width(),
                self.spec_height(),
                cell.0 as int,
                cell.1 as int,
            );
            assert(self@.len() == self.spec_width() * self.spec_height());
        }
        let n = self.data.len();
        assert((cell.1 as int) * (self.width as int) + (cell.0 as int) < n);
        let slot = (cell.1 as usize) * self.width + (cell.0 as usize);
        self.data.set(slot, value);
    }
}

impl<T: Default> CellGrid<T> {
    /// A width-by-height grid with every slot default-filled.
    pub fn new(width: usize, height: usize) -> (r: CellGrid<T>)
        requires
            width * height <= usize::MAX,
        ensures
            r.wf(),
            r.spec_width() == width,
            r.spec_height() == height,
            r@.len() == width * height,
            forall|i: int| 0 <= i < r@.len() ==> call_ensures(T::default, (), #[trigger] r@[i]),
    {
        let total: usize = width * height;
        let mut data: Vec<T> = Vec::new();
        let mut i: usize = 0;
        while i < total
            invariant
                i <= total,
                data@.len() == i,
                forall|k: int| 0 <= k < i ==> call_ensures(T::default, (), #[trigger] data@[k]),
            decreases total - i,
        {
            data.push(T::default());
            i = i + 1;
        }
        CellGrid { width, height, data }
    }
}

/// Whether `c` is one of the agent's trailing (non-head) body cells.
pub open spec fn occupied_by(a: Seq<Cell>, c: Cell) -> bool {
    exists|k: int| 1 <= k < a.len() && a[k] == c
}

/// Whether some opponent's trailing body covers `c`.
pub open spec fn enemy_occupied(es: Seq<Seq<Cell>>, c: Cell) -> bool {
    exists|j: int| 0 <= j < es.len() && occupied_by(#[trigger] es[j], c)
}

/// Whether any agent's trailing body covers `c`.
pub open spec fn body_occupied(s: StateView, c: Cell) -> bool {
    occupied_by(s.player, c) || enemy_occupied(s.enemies, c)
}

/// The body-collision pass: every living agent whose head stands on a cell
/// covered by some agent's trailing body dies. All occupancy marks are
/// taken from the incoming snapshot.
pub open spec fn body_pass(s: StateView) -> StateView {
    StateView {
        player: if s.player.len() > 0 && body_occupied(s, s.player[0]) {
            Seq::empty()
        } else {
            s.player
        },
        enemies: Seq::new(
            s.enemies.len(),
            |j: int|
                if s.enemies[j].len() > 0 && body_occupied(s, s.enemies[j][0]) {
                    Seq::<Cell>::empty()
                } else {
                    s.enemies[j]
                },
        ),
        ..s
    }
}

/// One head-to-head comparison: if both agents are alive and share a head
/// cell, the shorter-or-equal one dies; equal lengths kill both.
pub open spec fn duel(a: Seq<Cell>, b: Seq<Cell>) -> (Seq<Cell>, Seq<Cell>) {
    if a.len() > 0 && b.len() > 0 && a[0] == b[0] {
        (
            if b.len() >= a.len() {
                Seq::empty()
            } else {
                a
            },
            if a.len() >= b.len() {
                Seq::empty()
            } else {
                b
            },
        )
    } else {
        (a, b)
    }
}

/// The controlled agent compared against the first `k` opponents in order;
/// later comparisons observe earlier eliminations.
pub open spec fn player_duels(p: Seq<Cell>, es: Seq<Seq<Cell>>, k: int) -> (
    Seq<Cell>,
    Seq<Seq<Cell>>,
)
    decreases k,
{
    if k <= 0 {
        (p, es)
    } else {
        let prev = player_duels(p, es, k - 1);
        let d = duel(prev.0, prev.1[k - 1]);
        (d.0, prev.1.update(k - 1, d.1))
    }
}

/// Opponent `i` compared against each opponent after it, up to `j`
/// exclusive, in index order.
pub open spec fn pair_duels_row(es: Seq<Seq<Cell>>, i: int, j: int) -> Seq<Seq<Cell>>
    decreases j - i,
{
    if j <= i + 1 {
        es
    } else {
        let prev = pair_duels_row(es, i, j - 1);
        let d = duel(prev[i], prev[j - 1]);
        prev.update(i, d.0).update(j - 1, d.1)
    }
}

/// All unordered opponent pairs compared, first index before second, for
/// first indices below `i`.
pub open spec fn pair_duels(es: Seq<Seq<Cell>>, i: int) -> Seq<Seq<Cell>>
    decreases i,
{
    if i <= 0 {
        es
    } else {
        pair_duels_row(pair_duels(es, i - 1), i - 1, es.len() as int)
    }
}

/// The whole collision pass: body collisions against the occupancy marks,
/// then head-to-head resolution, the controlled agent against each
/// opponent in order first, then all opponent pairs.
pub open spec fn collide_view(s: StateView) -> StateView {
    let s1 = body_pass(s);
    let pd = player_duels(s1.player, s1.enemies, s1.enemies.len() as int);
    let es = pair_duels(pd.1, pd.1.len() as int);
    StateView { player: pd.0, enemies: es, ..s }
}

/// Every agent leaving the head-to-head phases is the agent that entered
/// them or the empty one, and the opponent count never changes.
pub proof fn lemma_player_duels_shape(p: Seq<Cell>, es: Seq<Seq<Cell>>, k: int)
    requires
        k <= es.len(),
    ensures
        player_duels(p, es, k).1.len() == es.len(),
        player_duels(p, es, k).0 == p || player_duels(p, es, k).0 == Seq::<Cell>::empty(),
        forall|t: int|
            0 <= t < es.len() ==> (#[trigger] player_duels(p, es, k).1[t]) == es[t]
                || player_duels(p, es, k).1[t] == Seq::<Cell>::empty(),
    decreases k,
{
    if k > 0 {
        lemma_player_duels_shape(p, es, k - 1);
    }
}

pub proof fn lemma_pair_duels_row_shape(es: Seq<Seq<Cell>>, i: int, j: int)
    requires
        0 <= i,
        j <= es.len(),
    ensures
        pair_duels_row(es, i, j).len() == es.len(),
        forall|t: int|
            0 <= t < es.len() ==> (#[trigger] pair_duels_row(es, i, j)[t]) == es[t]
                || pair_duels_row(es, i, j)[t] == Seq::<Cell>::empty(),
    decreases j,
{
    if j > i + 1 {
        lemma_pair_duels_row_shape(es, i, j - 1);
    }
}

pub proof fn lemma_pair_duels_shape(es: Seq<Seq<Cell>>, i: int)
    requires
        i <= es.len(),
    ensures
        pair_duels(es, i).len() == es.len(),
        forall|t: int|
            0 <= t < es.len() ==> (#[trigger] pair_duels(es, i)[t]) == es[t] || pair_duels(
                es,
                i,
            )[t] == Seq::<Cell>::empty(),
    decreases i,
{
    if i > 0 {
        lemma_pair_duels_shape(es, i - 1);
        lemma_pair_duels_row_shape(pair_duels(es, i - 1), i - 1, es.len() as int);
    }
}

/// Head-to-head resolution between the controlled agent and a lone
/// opponent sharing its head cell, with neither head on any trailing body:
/// equal lengths kill both; the strictly longer agent survives while the
/// shorter one dies.
pub proof fn lemma_head_to_head(s: StateView)
    requires
        s.enemies.len() == 1,
        s.player.len() > 0,
        s.enemies[0].len() > 0,
        s.player[0] == s.enemies[0][0],
        !body_occupied(s, s.player[0]),
    ensures
        s.player.len() == s.enemies[0].len() ==> collide_view(s).player.len() == 0
            && collide_view(s).enemies[0].len() == 0,
        s.player.len() > s.enemies[0].len() ==> collide_view(s).player == s.player
            && collide_view(s).enemies[0].len() == 0,
        s.player.len() < s.enemies[0].len() ==> collide_view(s).player.len() == 0
            && collide_view(s).enemies[0] == s.enemies[0],
{
    let s1 = body_pass(s);
    assert(s1.player == s.player);
    assert(s1.enemies.len() == 1 && s1.enemies[0] == s.enemies[0]);
    let pd = player_duels(s1.player, s1.enemies, 1);
    assert(player_duels(s1.player, s1.enemies, 0) == (s1.player, s1.enemies));
    let d = duel(s.player, s.enemies[0]);
    assert(pd.0 == d.0 && pd.1 == s1.enemies.update(0, d.1));
    assert(pd.1.len() == 1);
    assert(pair_duels(pd.1, 1) == pair_duels_row(pair_duels(pd.1, 0), 0, 1));
    assert(pair_duels(pd.1, 1) == pd.1);
}

/// Head-to-head resolution between two opponents sharing a head cell, the
/// controlled agent dead and neither head on any trailing body: equal
/// lengths kill both; the strictly longer opponent survives while the
/// shorter one dies.
pub proof fn lemma_head_to_head_opponents(s: StateView)
    requires
        s.enemies.len() == 2,
        s.player.len() == 0,
        s.enemies[0].len() > 0,
        s.enemies[1].len() > 0,
        s.enemies[0][0] == s.enemies[1][0],
        !body_occupied(s, s.enemies[0][0]),
    ensures
        s.enemies[0].len() == s.enemies[1].len() ==> collide_view(s).enemies[0].len() == 0
            && collide_view(s).enemies[1].len() == 0,
        s.enemies[0].len() > s.enemies[1].len() ==> collide_view(s).enemies[0] == s.enemies[0]
            && collide_view(s).enemies[1].len() == 0,
        s.enemies[0].len() < s.enemies[1].len() ==> collide_view(s).enemies[0].len() == 0
            && collide_view(s).enemies[1] == s.enemies[1],
{
    let s1 = body_pass(s);
    assert(s1.player.len() == 0);
    assert(s1.enemies.len() == 2 && s1.enemies[0] == s.enemies[0] && s1.enemies[1]
        == s.enemies[1]);
    let pd = player_duels(s1.player, s1.enemies, 2);
    assert(pd.0.len() == 0 && pd.1 =~= s1.enemies) by {
        assert(player_duels(s1.player, s1.enemies, 0) == (s1.player, s1.enemies));
        let p1 = player_duels(s1.player, s1.enemies, 1);
        assert(p1.1 =~= s1.enemies);
        assert(player_duels(s1.player, s1.enemies, 2).1 =~= s1.enemies);
    }
    let d = duel(s.enemies[0], s.enemies[1]);
    assert(pair_duels(pd.1, 0) == pd.1);
    assert(pair_duels_row(pd.1, 0, 1) == pd.1);
    assert(pair_duels_row(pd.1, 0, 2) =~= pd.1.update(0, d.0).update(1, d.1));
    assert(pair_duels(pd.1, 1) == pair_duels_row(pair_duels(pd.1, 0), 0, 2));
    assert(pair_duels(pd.1, 2) == pair_duels_row(pair_duels(pd.1, 1), 1, 2));
}

/// The mark one cell carries after the marking pass: opponents' trailing
/// bodies overwrite the controlled agent's marks.
pub open spec fn cell_mark(p: Seq<Cell>, es: Seq<Seq<Cell>>, c: Cell) -> CellContents {
    if enemy_occupied(es, c) {
        CellContents::EnemySnakeBody
    } else if occupied_by(p, c) {
        CellContents::PlayerBody
    } else {
        CellContents::Empty
    }
}

/// Whether `c` is among the first `t` cells of `a`, head excluded.
spec fn occupied_upto(a: Seq<Cell>, c: Cell, t: int) -> bool {
    exists|k: int| 1 <= k < t && k < a.len() && a[k] == c
}

/// Occupancy once the opponents before `j` are wholly marked and opponent
/// `j` is marked up to `t`.
spec fn enemy_occupied_upto(es: Seq<Seq<Cell>>, c: Cell, j: int, t: int) -> bool {
    (exists|j2: int| 0 <= j2 < j && occupied_by(#[trigger] es[j2], c)) || (0 <= j < es.len()
        && occupied_upto(es[j], c, t))
}

/// The grid mark mid-way through the marking pass.
spec fn mark_at(p: Seq<Cell>, es: Seq<Seq<Cell>>, c: Cell, j: int, t: int) -> CellContents {
    if enemy_occupied_upto(es, c, j, t) {
        CellContents::EnemySnakeBody
    } else if occupied_by(p, c) {
        CellContents::PlayerBody
    } else {
        CellContents::Empty
    }
}

/// Builds the occupancy grid: every living agent's trailing body is marked,
/// the controlled agent first, then the opponents in order.
fn mark_bodies(width: u16, height: u16, player: &Battlesnake, enemies: &Vec<Battlesnake>) -> (g:
    CellGrid<CellContents>)
    requires
        agent_in_bounds(player@, width as int, height as int),
        forall|j: int|
            0 <= j < enemies@.len() ==> agent_in_bounds(
                (#[trigger] enemies@[j])@,
                width as int,
                height as int,
            ),
    ensures
        g.wf(),
        g.spec_width() == width as int,
        g.spec_height() == height as int,
        forall|c: Cell|
            #[trigger] g.in_grid(c) ==> g@[g.slot_of(c)] == cell_mark(
                player@,
                views_of(enemies@),
                c,
            ),
{
    proof {
        assert((width as int) * (height as int) <= usize::MAX) by (nonlinear_arith)
            requires
                0 <= width <= 0xffff,
                0 <= height <= 0xffff,
                usize::MAX >= 0xffff_ffff,
        ;
    }
    let mut cells: CellGrid<CellContents> = CellGrid::new(width as usize, height as usize);
    proof {
        assert forall|c: Cell| #[trigger] cells.in_grid(c) implies cells@[cells.slot_of(c)]
            == CellContents::Empty by {
            lemma_slot_bounds(cells.spec_width(), cells.spec_height(), c.0 as int, c.1 as int);
        }
    }
    let ghost p = player@;
    let ghost es = views_of(enemies@);
    let mut t: usize = 1;
    while t < player.length()
        invariant
            1 <= t,
            p.len() > 1 ==> t <= p.len(),
            p == player@,
            agent_in_bounds(p, width as int, height as int),
            cells.wf(),
            cells.spec_width() == width as int,
            cells.spec_height() == height as int,
            forall|c: Cell|
                #[trigger] cells.in_grid(c) ==> cells@[cells.slot_of(c)] == (if occupied_upto(
                    p,
                    c,
                    t as int,
                ) {
                    CellContents::PlayerBody
                } else {
                    CellContents::Empty
                }),
        decreases p.len() - t,
    {
        let cm = player.cell_at(t);
        let ghost before = cells;
        assert(cm == p[t as int] && 0 <= cm.0 < width as int && 0 <= cm.1 < height as int);
        cells.set(cm, CellContents::PlayerBody);
        proof {
            lemma_slot_bounds(cells.spec_width(), cells.spec_height(), cm.0 as int, cm.1 as int);
            assert forall|c: Cell| #[trigger] cells.in_grid(c) implies cells@[cells.slot_of(c)]
                == (if occupied_upto(p, c, t + 1) {
                CellContents::PlayerBody
            } else {
                CellContents::Empty
            }) by {
                lemma_slot_bounds(cells.spec_width(), cells.spec_height(), c.0 as int, c.1 as int);
                assert(before.in_grid(c) && before.slot_of(c) == cells.slot_of(c));
                if c == cm {
                    assert(occupied_upto(p, c, t + 1)) by {
                        assert(1 <= t < t + 1 && t < p.len() && p[t as int] == c);
                    }
                } else {
                    if cells.slot_of(c) == cells.slot_of(cm) {
                        lemma_slot_injective(
                            cells.spec_width(),
                            c.0 as int,
                            c.1 as int,
                            cm.0 as int,
                            cm.1 as int,
                        );
                    }
                    assert(cells@[cells.slot_of(c)] == before@[before.slot_of(c)]);
                    assert(occupied_upto(p, c, t + 1) == occupied_upto(p, c, t as int));
                }
            }
        }
        t = t + 1;
    }
    proof {
        assert forall|c: Cell| #[trigger] cells.in_grid(c) implies cells@[cells.slot_of(c)]
            == mark_at(p, es, c, 0, 1) by {
            assert(occupied_upto(p, c, t as int) == occupied_by(p, c));
            assert(!enemy_occupied_upto(es, c, 0, 1));
        }
    }
    let mut j: usize = 0;
    while j < enemies.len()
        invariant
            j <= enemies@.len(),
            p == player@,
            es == views_of(enemies@),
            es.len() == enemies@.len(),
            forall|j2: int|
                0 <= j2 < enemies@.len() ==> agent_in_bounds(
                    (#[trigger] enemies@[j2])@,
                    width as int,
                    height as int,
                ),
            cells.wf(),
            cells.spec_width() == width as int,
            cells.spec_height() == height as int,
            forall|c: Cell|
                #[trigger] cells.in_grid(c) ==> cells@[cells.slot_of(c)] == mark_at(
                    p,
                    es,
                    c,
                    j as int,
                    1,
                ),
        decreases enemies@.len() - j,
    {
        let ghost a = es[j as int];
        assert(a == enemies@[j as int]@);
        let mut t2: usize = 1;
        while t2 < enemies[j].length()
            invariant
                1 <= t2,
                a.len() > 1 ==> t2 <= a.len(),
                j < enemies@.len(),
                a == es[j as int],
                a == enemies@[j as int]@,
                es.len() == enemies@.len(),
                agent_in_bounds(a, width as int, height as int),
                cells.wf(),
                cells.spec_width() == width as int,
                cells.spec_height() == height as int,
                forall|c: Cell|
                    #[trigger] cells.in_grid(c) ==> cells@[cells.slot_of(c)] == mark_at(
                        p,
                        es,
                        c,
                        j as int,
                        t2 as int,
                    ),
            decreases a.len() - t2,
        {
            let cm = enemies[j].cell_at(t2);
            let ghost before = cells;
            assert(cm == a[t2 as int] && 0 <= cm.0 < width as int && 0 <= cm.1 < height as int);
            cells.set(cm, CellContents::EnemySnakeBody);
            proof {
                lemma_slot_bounds(cells.spec_width(), cells.spec_height(), cm.0 as int, cm.1 as int);
                assert forall|c: Cell| #[trigger] cells.in_grid(c) implies cells@[cells.slot_of(c)]
                    == mark_at(p, es, c, j as int, t2 + 1) by {
                    lemma_slot_bounds(
                        cells.spec_width(),
                        cells.spec_height(),
                        c.0 as int,
                        c.1 as int,
                    );
                    assert(before.in_grid(c) && before.slot_of(c) == cells.slot_of(c));
                    if c == cm {
                        assert(occupied_upto(a, c, t2 + 1)) by {
                            assert(1 <= t2 < t2 + 1 && t2 < a.len() && a[t2 as int] == c);
                        }
                        assert(enemy_occupied_upto(es, c, j as int, t2 + 1));
                    } else {
                        if cells.slot_of(c) == cells.slot_of(cm) {
                            lemma_slot_injective(
                                cells.spec_width(),
                                c.0 as int,
                                c.1 as int,
                                cm.0 as int,
                                cm.1 as int,
                            );
                        }
                        assert(cells@[cells.slot_of(c)] == before@[before.slot_of(c)]);
                        assert(occupied_upto(a, c, t2 + 1) == occupied_upto(a, c, t2 as int));
                    }
                }
            }
            t2 = t2 + 1;
        }
        proof {
            assert forall|c: Cell| #[trigger] cells.in_grid(c) implies cells@[cells.slot_of(c)]
                == mark_at(p, es, c, j + 1, 1) by {
                assert(occupied_upto(a, c, t2 as int) == occupied_by(a, c));
                assert(enemy_occupied_upto(es, c, j as int, t2 as int) == enemy_occupied_upto(
                    es,
                    c,
                    j + 1,
                    1,
                ));
            }
        }
        j = j + 1;
    }
    proof {
        assert forall|c: Cell| #[trigger] cells.in_grid(c) implies cells@[cells.slot_of(c)]
            == cell_mark(p, es, c) by {
            assert(enemy_occupied_upto(es, c, es.len() as int, 1) == enemy_occupied(es, c));
        }
    }
    cells
}

/// Resolves collisions. Must run strictly after the out-of-bounds pass:
/// every living agent, and in particular every head this pass looks up,
/// must lie inside the grid. Marks every living agent's trailing body,
/// eliminates each agent whose head stands on a marked cell, then resolves
/// head-to-head collisions pairwise: the controlled agent against each
/// opponent in order, then opponent pairs in index order, later comparisons
/// observing earlier eliminations.
pub fn check_collisions(game_state: GameState) -> (r: GameState)
    requires
        agent_in_bounds(game_state@.player, game_state@.width, game_state@.height),
        forall|j: int|
            0 <= j < game_state@.enemies.len() ==> agent_in_bounds(
                #[trigger] game_state@.enemies[j],
                game_state@.width,
                game_state@.height,
            ),
    ensures
        r@ == collide_view(game_state@),
{
    let ghost s = game_state@;
    let GameState { height, width, player, mut enemies, food } = game_state;
    proof {
        assert(views_of(enemies@) == s.enemies);
        assert forall|j: int| 0 <= j < enemies@.len() implies agent_in_bounds(
            (#[trigger] enemies@[j])@,
            width as int,
            height as int,
        ) by {
            assert(enemies@[j]@ == s.enemies[j]);
        }
    }
    let cells = mark_bodies(width, height, &player, &enemies);
    proof {
        assert forall|c: Cell| #[trigger] cells.in_grid(c) implies cells@[cells.slot_of(c)]
            == cell_mark(s.player, s.enemies, c) by {
            assert(cell_mark(player@, views_of(enemies@), c) == cell_mark(s.player, s.enemies, c));
        }
    }

    // body collisions: any head standing on a marked cell dies
    let player = if player.is_alive() {
        let h = player.cell_at(0);
        assert(s.player[0] == h && cells.in_grid(h));
        let mark = *cells.get(h);
        assert(mark == cell_mark(s.player, s.enemies, h));
        match mark {
            CellContents::Empty => player,
            CellContents::PlayerBody => Battlesnake::new_dead(),
            CellContents::EnemySnakeBody => Battlesnake::new_dead(),
        }
    } else {
        player
    };
    proof {
        assert(player@ == body_pass(s).player);
    }
    let mut j: usize = 0;
    while j < enemies.len()
        invariant
            j <= enemies@.len(),
            enemies@.len() == s.enemies.len(),
            forall|k: int|
                0 <= k < s.enemies.len() ==> agent_in_bounds(
                    #[trigger] s.enemies[k],
                    s.width,
                    s.height,
                ),
            cells.wf(),
            cells.spec_width() == s.width,
            cells.spec_height() == s.height,
            forall|c: Cell|
                #[trigger] cells.in_grid(c) ==> cells@[cells.slot_of(c)] == cell_mark(
                    s.player,
                    s.enemies,
                    c,
                ),
            forall|k: int| 0 <= k < j ==> (#[trigger] enemies@[k])@ == body_pass(s).enemies[k],
            forall|k: int| j <= k < enemies@.len() ==> (#[trigger] enemies@[k])@ == s.enemies[k],
        decreases enemies@.len() - j,
    {
        assert(enemies@[j as int]@ == s.enemies[j as int]);
        if enemies[j].is_alive() {
            let h = enemies[j].cell_at(0);
            assert(agent_in_bounds(s.enemies[j as int], s.width, s.height));
            assert(s.enemies[j as int][0] == h && cells.in_grid(h));
            let mark = *cells.get(h);
            assert(mark == cell_mark(s.player, s.enemies, h));
            match mark {
                CellContents::Empty => {},
                CellContents::PlayerBody => {
                    enemies.set(j, Battlesnake::new_dead());
                },
                CellContents::EnemySnakeBody => {
                    enemies.set(j, Battlesnake::new_dead());
                },
            }
        }
        proof {
            assert(enemies@[j as int]@ == body_pass(s).enemies[j as int]);
        }
        j = j + 1;
    }
    proof {
        assert(views_of(enemies@) =~= body_pass(s).enemies);
    }

    // head-to-head: the controlled agent against each opponent in order
    let ghost p0 = body_pass(s).player;
    let ghost es0 = body_pass(s).enemies;
    let mut player = player;
    let mut i: usize = 0;
    while i < enemies.len()
        invariant
            i <= enemies@.len(),
            enemies@.len() == es0.len(),
            es0.len() == s.enemies.len(),
            player@ == player_duels(p0, es0, i as int).0,
            views_of(enemies@) == player_duels(p0, es0, i as int).1,
        decreases enemies@.len() - i,
    {
        let ghost prev = player_duels(p0, es0, i as int);
        proof {
            lemma_player_duels_shape(p0, es0, i as int);
            assert(enemies@[i as int]@ == prev.1[i as int]);
        }
        if player.is_alive() && enemies[i].is_alive() {
            let ph = player.cell_at(0);
            let eh = enemies[i].cell_at(0);
            if ph == eh {
                let pl = player.length();
                let el = enemies[i].length();
                if el >= pl {
                    player = Battlesnake::new_dead();
                }
                if el <= pl {
                    enemies.set(i, Battlesnake::new_dead());
                }
            }
        }
        proof {
            let d = duel(prev.0, prev.1[i as int]);
            assert(player@ == d.0);
            assert(views_of(enemies@) =~= prev.1.update(i as int, d.1));
        }
        i = i + 1;
    }

    // head-to-head: every unordered opponent pair, first index first
    let ghost es1 = player_duels(p0, es0, es0.len() as int).1;
    proof {
        lemma_player_duels_shape(p0, es0, es0.len() as int);
    }
    let n = enemies.len();
    let mut a: usize = 0;
    while a < n
        invariant
            a <= n,
            n == enemies@.len(),
            enemies@.len() == es1.len(),
            views_of(enemies@) == pair_duels(es1, a as int),
        decreases n - a,
    {
        let mut b: usize = a + 1;
        while b < n
            invariant
                a < n,
                a + 1 <= b <= n,
                n == enemies@.len(),
                enemies@.len() == es1.len(),
                views_of(enemies@) == pair_duels_row(pair_duels(es1, a as int), a as int, b as int),
            decreases n - b,
        {
            let ghost prev = pair_duels_row(pair_duels(es1, a as int), a as int, b as int);
            proof {
                lemma_pair_duels_shape(es1, a as int);
                lemma_pair_duels_row_shape(pair_duels(es1, a as int), a as int, b as int);
                assert(enemies@[a as int]@ == prev[a as int]);
                assert(enemies@[b as int]@ == prev[b as int]);
            }
            if enemies[a].is_alive() && enemies[b].is_alive() {
                let ah = enemies[a].cell_at(0);
                let bh = enemies[b].cell_at(0);
                if ah == bh {
                    let al = enemies[a].length();
                    let bl = enemies[b].length();
                    if bl >= al {
                        enemies.set(a, Battlesnake::new_dead());
                    }
                    if bl <= al {
                        enemies.set(b, Battlesnake::new_dead());
                    }
                }
            }
            proof {
                let d = duel(prev[a as int], prev[b as int]);
                assert(views_of(enemies@) =~= prev.update(a as int, d.0).update(b as int, d.1));
            }
            b = b + 1;
        }
        proof {
            assert(views_of(enemies@) == pair_duels(es1, a + 1));
        }
        a = a + 1;
    }

    let r = GameState { height, width, player, enemies, food };
    proof {
        assert(r@.enemies =~= collide_view(s).enemies);
        assert(r@ == collide_view(s));
    }
    r
}

/// Every agent leaving the whole collision pass is the agent that entered
/// it or the empty one; grid bounds, food and the opponent count are
/// unchanged.
pub proof fn lemma_collide_shape(s: StateView)
    ensures
        collide_view(s).enemies.len() == s.enemies.len(),
        collide_view(s).width == s.width,
        collide_view(s).height == s.height,
        collide_view(s).food == s.food,
        collide_view(s).player == s.player || collide_view(s).player == Seq::<Cell>::empty(),
        forall|t: int|
            0 <= t < s.enemies.len() ==> (#[trigger] collide_view(s).enemies[t]) == s.enemies[t]
                || collide_view(s).enemies[t] == Seq::<Cell>::empty(),
{
    let s1 = body_pass(s);
    lemma_player_duels_shape(s1.player, s1.enemies, s1.enemies.len() as int);
    let pd = player_duels(s1.player, s1.enemies, s1.enemies.len() as int);
    lemma_pair_duels_shape(pd.1, pd.1.len() as int);
}

} // verus!
