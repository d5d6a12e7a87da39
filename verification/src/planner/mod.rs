use vstd::prelude::*;

pub mod check_collisions;

use crate::game_state::agent_in_bounds;
use crate::game_state::battlesnake::spec_gone_oob;
use crate::game_state::battlesnake::spec_update;
use crate::game_state::movement::moved_x;
use crate::game_state::movement::moved_y;
use crate::game_state::movement::spec_add;
use crate::game_state::wf_state;
use crate::game_state::Battlesnake;
use crate::game_state::Cell;
use crate::game_state::GameState;
use crate::game_state::Move;
use crate::game_state::StateView;
use crate::planner::check_collisions::check_collisions;
use crate::planner::check_collisions::collide_view;
use crate::planner::check_collisions::lemma_collide_shape;

verus! {

/// The number of plies the search looks ahead.
pub const MAX_SEARCH_DEPTH: usize = 4;

/// The numerator of the winning sentinel score, over denominator one.
pub const WIN_NUM: i64 = 1;

/// The numerator of the losing sentinel score, over denominator one.
pub const LOSE_NUM: i64 = -10;

/// The numerator of the horizon heuristic, one half: strictly between the
/// lose and win sentinels.
pub const HEURISTIC_NUM: i64 = 1;

/// The denominator of the horizon heuristic.
pub const HEURISTIC_DEN: i64 = 2;

/// 4 to the power `n`: the number of joint moves over `n` opponent slots.
pub open spec fn pow4(n: nat) -> nat
    decreases n,
{
    if n == 0 {
        1
    } else {
        4 * pow4((n - 1) as nat)
    }
}

proof fn lemma_pow4_pos(n: nat)
    ensures
        pow4(n) >= 1,
    decreases n,
{
    if n > 0 {
        lemma_pow4_pos((n - 1) as nat);
    }
}

proof fn lemma_pow4_mono(a: nat, b: nat)
    requires
        a <= b,
    ensures
        pow4(a) <= pow4(b),
    decreases b,
{
    if a < b {
        lemma_pow4_mono(a, (b - 1) as nat);
        lemma_pow4_pos(a);
    }
}

proof fn lemma_pow4_small()
    ensures
        pow4(15) == 0x4000_0000,
{
    reveal_with_fuel(pow4, 16);
}

/// The digit a move stands for in the base-four decoding of a joint move.
pub open spec fn move_digit(m: Move) -> int {
    match m {
        Move::Up => 0,
        Move::Down => 1,
        Move::Left => 2,
        Move::Right => 3,
    }
}

/// The move a base-four digit stands for.
pub open spec fn digit_move(d: int) -> Move {
    if d == 0 {
        Move::Up
    } else if d == 1 {
        Move::Down
    } else if d == 2 {
        Move::Left
    } else {
        Move::Right
    }
}

/// The joint move with index `i` over `n` opponent slots: the base-four
/// digits of `i`, least significant slot first.
pub open spec fn combo(i: int, n: nat) -> Seq<Move>
    decreases n,
{
    if n == 0 {
        Seq::empty()
    } else {
        seq![digit_move(i % 4)] + combo(i / 4, (n - 1) as nat)
    }
}

/// The index a joint move decodes back to.
pub open spec fn combo_val(s: Seq<Move>) -> int
    decreases s.len(),
{
    if s.len() == 0 {
        0
    } else {
        move_digit(s[0]) + 4 * combo_val(s.drop_first())
    }
}

pub proof fn lemma_combo_val_bounds(s: Seq<Move>)
    ensures
        0 <= combo_val(s) < pow4(s.len()),
    decreases s.len(),
{
    if s.len() > 0 {
        lemma_combo_val_bounds(s.drop_first());
    }
}

pub proof fn lemma_combo_len(i: int, n: nat)
    ensures
        combo(i, n).len() == n,
    decreases n,
{
    if n > 0 {
        lemma_combo_len(i / 4, (n - 1) as nat);
    }
}

/// Decoding an index and reading it back yields the index.
pub proof fn lemma_combo_val_of(i: int, n: nat)
    requires
        0 <= i < pow4(n),
    ensures
        combo_val(combo(i, n)) == i,
    decreases n,
{
    if n > 0 {
        let d = i % 4;
        let q = i / 4;
        assert(0 <= d < 4 && 0 <= q && i == 4 * q + d && q < pow4((n - 1) as nat))
            by (nonlinear_arith)
            requires
                0 <= i < pow4(n),
                pow4(n) == 4 * pow4((n - 1) as nat),
                d == i % 4,
                q == i / 4,
        ;
        lemma_combo_val_of(q, (n - 1) as nat);
        lemma_combo_len(q, (n - 1) as nat);
        let s = combo(i, n);
        assert(s[0] == digit_move(d));
        assert(s.drop_first() =~= combo(q, (n - 1) as nat));
        assert(move_digit(digit_move(d)) == d);
    }
}

/// Reading a joint move's index and decoding it back yields the joint move.
pub proof fn lemma_combo_of_val(s: Seq<Move>)
    ensures
        combo(combo_val(s), s.len()) =~= s,
    decreases s.len(),
{
    if s.len() > 0 {
        let d = move_digit(s[0]);
        let rest = s.drop_first();
        let v = combo_val(s);
        lemma_combo_val_bounds(rest);
        assert(v % 4 == d && v / 4 == combo_val(rest)) by (nonlinear_arith)
            requires
                v == d + 4 * combo_val(rest),
                0 <= d < 4,
                0 <= combo_val(rest),
        ;
        lemma_combo_of_val(rest);
    }
}

/// Joint-move enumeration over `n` opponent slots is exhaustive and
/// duplicate free: the indices below 4^n yield pairwise distinct
/// combinations of length `n`, and every length-`n` combination is yielded
/// by some index.
pub proof fn lemma_joint_moves_exhaustive(n: nat)
    ensures
        forall|i: int| 0 <= i < pow4(n) ==> (#[trigger] combo(i, n)).len() == n,
        forall|i: int, j: int|
            0 <= i < pow4(n) && 0 <= j < pow4(n) && i != j ==> combo(i, n) != combo(j, n),
        forall|s: Seq<Move>|
            s.len() == n ==> exists|i: int| 0 <= i < pow4(n) && combo(i, n) == s,
{
    assert forall|i: int| 0 <= i < pow4(n) implies (#[trigger] combo(i, n)).len() == n by {
        lemma_combo_len(i, n);
    }
    assert forall|i: int, j: int|
        0 <= i < pow4(n) && 0 <= j < pow4(n) && i != j implies combo(i, n) != combo(j, n) by {
        lemma_combo_val_of(i, n);
        lemma_combo_val_of(j, n);
    }
    assert forall|s: Seq<Move>| s.len() == n implies exists|i: int|
        0 <= i < pow4(n) && combo(i, n) == s by {
        lemma_combo_val_bounds(s);
        lemma_combo_of_val(s);
        assert(0 <= combo_val(s) < pow4(n) && combo(combo_val(s), n) == s);
    }
}

/// The terminal classification of a snapshot. It is derived, never stored.
#[derive(Debug, Clone, Copy, PartialEq, Eq, Structural)]
pub enum GameStatus {
    Win,
    Lose,
    Continue,
}

/// An exact rational score: `num / den`. All scores produced while scoring
/// one snapshot at one depth share a denominator, so averaging reduces to
/// integer sums.
#[derive(Debug, Clone, Copy, PartialEq, Eq, Structural)]
pub struct Score {
    pub num: i64,
    pub den: i64,
}

/// Whether every opposing agent is dead.
pub open spec fn all_enemies_dead(es: Seq<Seq<Cell>>) -> bool {
    forall|j: int| 0 <= j < es.len() ==> (#[trigger] es[j]).len() == 0
}

/// Lose takes priority: the controlled agent is dead. Win needs at least one
/// opponent to have existed and all of them dead. Everything else, including
/// an alive controlled agent with zero opponents, continues.
pub open spec fn status_view(s: StateView) -> GameStatus {
    if s.player.len() == 0 {
        GameStatus::Lose
    } else if s.enemies.len() > 0 && all_enemies_dead(s.enemies) {
        GameStatus::Win
    } else {
        GameStatus::Continue
    }
}

/// Lose takes precedence: a dead controlled agent loses even when every
/// opponent is dead too. A win needs at least one opponent to have existed
/// and all of them dead. An alive controlled agent with zero opponents
/// continues, it does not win.
pub proof fn lemma_terminal_classification(s: StateView)
    ensures
        s.player.len() == 0 ==> status_view(s) == GameStatus::Lose,
        s.player.len() > 0 && s.enemies.len() > 0 && all_enemies_dead(s.enemies)
            ==> status_view(s) == GameStatus::Win,
        s.player.len() > 0 && s.enemies.len() == 0 ==> status_view(s) == GameStatus::Continue,
{
}

/// Classifies a snapshot as win, lose or continue.
pub fn check_win_lose(game_state: &GameState) -> (r: GameStatus)
    ensures
        r == status_view(game_state@),
{
    if !game_state.player.is_alive() {
        return GameStatus::Lose;
    }
    if game_state.enemies.len() == 0 {
        return GameStatus::Continue;
    }
    let mut j: usize = 0;
    while j < game_state.enemies.len()
        invariant
            j <= game_state.enemies@.len(),
            forall|k: int| 0 <= k < j ==> (#[trigger] game_state.enemies@[k])@.len() == 0,
            game_state.player@.len() > 0,
        decreases game_state.enemies@.len() - j,
    {
        if game_state.enemies[j].is_alive() {
            assert(game_state@.enemies[j as int].len() > 0);
            return GameStatus::Continue;
        }
        j = j + 1;
    }
    assert(all_enemies_dead(game_state@.enemies));
    GameStatus::Win
}

/// 4 to the power `n`, as a machine integer.
fn pow4_usize(n: usize) -> (r: usize)
    requires
        n <= 15,
    ensures
        r == pow4(n as nat),
{
    proof {
        lemma_pow4_small();
    }
    let mut r: usize = 1;
    let mut i: usize = 0;
    while i < n
        invariant
            i <= n <= 15,
            r == pow4(i as nat),
            pow4(15) == 0x4000_0000,
        decreases n - i,
    {
        proof {
            lemma_pow4_mono((i + 1) as nat, 15);
        }
        r = r * 4;
        i = i + 1;
    }
    r
}

proof fn lemma_combo_val_all_up(s: Seq<Move>)
    requires
        forall|j: int| 0 <= j < s.len() ==> s[j] == Move::Up,
    ensures
        combo_val(s) == 0,
    decreases s.len(),
{
    if s.len() > 0 {
        lemma_combo_val_all_up(s.drop_first());
    }
}

proof fn lemma_step_increments(olds: Seq<Move>, news: Seq<Move>, i: int)
    requires
        olds.len() == news.len(),
        0 <= i < olds.len(),
        forall|j: int| 0 <= j < i ==> olds[j] == Move::Right,
        olds[i] != Move::Right,
        forall|j: int| 0 <= j < i ==> news[j] == Move::Up,
        move_digit(news[i]) == move_digit(olds[i]) + 1,
        forall|j: int| i < j < olds.len() ==> news[j] == olds[j],
    ensures
        combo_val(news) == combo_val(olds) + 1,
    decreases i,
{
    if i == 0 {
        assert(olds.drop_first() =~= news.drop_first());
    } else {
        lemma_step_increments(olds.drop_first(), news.drop_first(), i - 1);
    }
}

/// Enumerates every combination of one move per opponent slot: exactly
/// 4^slots joint moves, the one yielded `i`-th holding the base-four digits
/// of `i`, least significant slot first.
pub struct MovePermutations {
    slots: usize,
    next: Vec<Move>,
    num_yielded: usize,
}

fn clone_moves(v: &Vec<Move>) -> (r: Vec<Move>)
    ensures
        r@ == v@,
{
    let mut out: Vec<Move> = Vec::new();
    let mut i: usize = 0;
    while i < v.len()
        invariant
            i <= v@.len(),
            out@ =~= v@.take(i as int),
        decreases v@.len() - i,
    {
        out.push(v[i]);
        i = i + 1;
    }
    assert(out@ =~= v@);
    out
}

impl MovePermutations {
    /// How many opponent slots this enumerator covers.
    pub closed spec fn spec_slots(self) -> nat {
        self.slots as nat
    }

    /// How many joint moves have been yielded so far.
    pub closed spec fn spec_yielded(self) -> nat {
        self.num_yielded as nat
    }

    /// The enumerator's internal consistency: the odometer holds the
    /// base-four digits of the next index to yield, until all are yielded.
    pub closed spec fn wf(self) -> bool {
        &&& self.slots <= 15
        &&& self.num_yielded <= pow4(self.slots as nat)
        &&& if (self.num_yielded as nat) < pow4(self.slots as nat) {
            self.next@.len() == self.slots && combo_val(self.next@) == self.num_yielded
        } else {
            true
        }
    }

    /// A fresh enumerator over `num_snakes` opponent slots, nothing yielded.
    pub fn new(num_snakes: usize) -> (r: MovePermutations)
        requires
            num_snakes <= 15,
        ensures
            r.wf(),
            r.spec_slots() == num_snakes,
            r.spec_yielded() == 0,
    {
        let mut next: Vec<Move> = Vec::new();
        let mut i: usize = 0;
        while i < num_snakes
            invariant
                i <= num_snakes,
                next@.len() == i,
                forall|j: int| 0 <= j < i ==> next@[j] == Move::Up,
            decreases num_snakes - i,
        {
            next.push(Move::Up);
            i = i + 1;
        }
        proof {
            lemma_combo_val_all_up(next@);
            lemma_pow4_pos(num_snakes as nat);
        }
        MovePermutations { slots: num_snakes, next, num_yielded: 0 }
    }

    /// The cyclic successor of one digit: up, down, left, right, and back
    /// around to up.
    pub fn rotate(v: Move) -> (r: Move)
        ensures
            v != Move::Right ==> move_digit(r) == move_digit(v) + 1,
            v == Move::Right ==> r == Move::Up,
    {
        match v {
            Move::Up => Move::Down,
            Move::Down => Move::Left,
            Move::Left => Move::Right,
            Move::Right => Move::Up,
        }
    }

    /// Advances the odometer by one: increments the base-four number held
    /// in `values`, least significant slot first. Returns false exactly
    /// when the odometer wraps around to all up-moves.
    pub fn step(values: &mut Vec<Move>) -> (r: bool)
        ensures
            final(values)@.len() == old(values)@.len(),
            r == (combo_val(old(values)@) + 1 < pow4(old(values)@.len())),
            r ==> combo_val(final(values)@) == combo_val(old(values)@) + 1,
            !r ==> combo_val(final(values)@) == 0,
    {
        let n = values.len();
        let mut i: usize = 0;
        while i < n && values[i] == Move::Right
            invariant
                i <= n,
                n == values@.len() == old(values)@.len(),
                forall|j: int| 0 <= j < i ==> old(values)@[j] == Move::Right,
                forall|j: int| 0 <= j < i ==> values@[j] == Move::Up,
                forall|j: int| i <= j < n ==> values@[j] == old(values)@[j],
            decreases n - i,
        {
            values.set(i, Move::Up);
            i = i + 1;
        }
        if i < n {
            let rotated = Self::rotate(values[i]);
            values.set(i, rotated);
            proof {
                lemma_step_increments(old(values)@, values@, i as int);
                lemma_combo_val_bounds(values@);
            }
            true
        } else {
            proof {
                lemma_combo_val_all_up(values@);
                lemma_all_right_val(old(values)@);
            }
            false
        }
    }

    /// The next joint move, if any remain: the `i`-th call yields the
    /// combination with index `i`.
    pub fn next(&mut self) -> (r: Option<Vec<Move>>)
        requires
            old(self).wf(),
        ensures
            final(self).wf(),
            final(self).spec_slots() == old(self).spec_slots(),
            old(self).spec_yielded() == pow4(old(self).spec_slots()) ==> r is None
                && final(self).spec_yielded() == old(self).spec_yielded(),
            old(self).spec_yielded() < pow4(old(self).spec_slots()) ==> (r matches Some(v)
                && v@ == combo(old(self).spec_yielded() as int, old(self).spec_slots())
                && final(self).spec_yielded() == old(self).spec_yielded() + 1),
    {
        let total = pow4_usize(self.slots);
        if self.num_yielded == total {
            return None;
        }
        let result = clone_moves(&self.next);
        proof {
            lemma_combo_of_val(result@);
        }
        let stepped = Self::step(&mut self.next);
        self.num_yielded = self.num_yielded + 1;
        if !stepped {
            self.next = Vec::new();
            proof {
                lemma_combo_val_bounds(result@);
            }
        }
        Some(result)
    }

    /// The exact number of joint moves still to come, as both bounds.
    pub fn size_hint(&self) -> (r: (usize, Option<usize>))
        requires
            self.wf(),
        ensures
            r.0 == pow4(self.spec_slots()) - self.spec_yielded(),
            r.1 == Some(r.0),
    {
        let v = pow4_usize(self.slots) - self.num_yielded;
        (v, Some(v))
    }

    /// The exact number of joint moves still to come.
    pub fn len(&self) -> (r: usize)
        requires
            self.wf(),
        ensures
            r == pow4(self.spec_slots()) - self.spec_yielded(),
    {
        self.size_hint().0
    }
}

proof fn lemma_all_right_val(s: Seq<Move>)
    requires
        forall|j: int| 0 <= j < s.len() ==> s[j] == Move::Right,
    ensures
        combo_val(s) == pow4(s.len()) - 1,
    decreases s.len(),
{
    if s.len() > 0 {
        lemma_all_right_val(s.drop_first());
    }
}

/// The agent after the out-of-bounds pass: dead if its head left the grid,
/// unchanged otherwise.
pub open spec fn evict_agent(a: Seq<Cell>, w: int, h: int) -> Seq<Cell> {
    if spec_gone_oob(a, w, h) {
        Seq::empty()
    } else {
        a
    }
}

/// The snapshot after the out-of-bounds pass, applied independently to the
/// controlled agent and to every opponent.
pub open spec fn oob_view(s: StateView) -> StateView {
    StateView {
        player: evict_agent(s.player, s.width, s.height),
        enemies: Seq::new(s.enemies.len(), |j: int| evict_agent(s.enemies[j], s.width, s.height)),
        ..s
    }
}

/// Applies the out-of-bounds pass: an agent whose head lies outside the
/// grid becomes dead; every other agent is unchanged. Runs strictly before
/// the collision pass.
pub fn check_out_of_bounds(game_state: GameState) -> (r: GameState)
    ensures
        r@ == oob_view(game_state@),
{
    let ghost s = game_state@;
    let GameState { height, width, player, mut enemies, food } = game_state;
    let player = if player.has_gone_oob(width as i32, height as i32) {
        Battlesnake::new_dead()
    } else {
        player
    };
    let mut j: usize = 0;
    while j < enemies.len()
        invariant
            j <= enemies@.len(),
            enemies@.len() == s.enemies.len(),
            width as int == s.width,
            height as int == s.height,
            forall|k: int|
                0 <= k < j ==> (#[trigger] enemies@[k])@ == evict_agent(
                    s.enemies[k],
                    s.width,
                    s.height,
                ),
            forall|k: int| j <= k < enemies@.len() ==> (#[trigger] enemies@[k])@ == s.enemies[k],
        decreases enemies@.len() - j,
    {
        if enemies[j].has_gone_oob(width as i32, height as i32) {
            enemies.set(j, Battlesnake::new_dead());
        }
        j = j + 1;
    }
    let r = GameState { height, width, player, enemies, food };
    proof {
        assert(r@.enemies =~= oob_view(s).enemies);
        assert(r@ == oob_view(s));
    }
    r
}

/// An agent whose head stands at the grid edge coordinates (or negative)
/// is evicted; one whose head stands on the last cells inside is kept.
pub proof fn lemma_out_of_bounds_eviction(a: Seq<Cell>, w: int, h: int)
    requires
        a.len() > 0,
    ensures
        a[0].0 == w || a[0].1 == h || a[0].0 < 0 || a[0].1 < 0 ==> evict_agent(a, w, h)
            == Seq::<Cell>::empty(),
        0 <= a[0].0 < w && 0 <= a[0].1 < h ==> evict_agent(a, w, h) == a,
{
}

/// The sum of the numerators of a sequence of scores.
pub open spec fn sum_nums(s: Seq<Score>) -> int
    decreases s.len(),
{
    if s.len() == 0 {
        0
    } else {
        sum_nums(s.drop_last()) + s.last().num
    }
}

/// The unweighted arithmetic mean of scores that share one denominator:
/// the numerators add up and the denominator scales by the count, so the
/// result is exactly the sum divided by the count.
pub fn combine_scores(scores: &Vec<Score>) -> (r: Score)
    requires
        scores@.len() > 0,
        forall|i: int| 0 <= i < scores@.len() ==> (#[trigger] scores@[i]).den == scores@[0].den,
        scores@[0].den > 0,
        scores@.len() * scores@[0].den <= i64::MAX,
        i64::MIN <= sum_nums(scores@) <= i64::MAX,
    ensures
        r.num == sum_nums(scores@),
        r.den == scores@.len() * scores@[0].den,
{
    let ghost gs = scores@;
    let mut acc: i128 = 0;
    let mut i: usize = 0;
    while i < scores.len()
        invariant
            i <= gs.len(),
            gs == scores@,
            acc == sum_nums(gs.take(i as int)),
            -(i as int) * 0x8000_0000_0000_0000 <= acc <= (i as int) * 0x7fff_ffff_ffff_ffff,
        decreases gs.len() - i,
    {
        proof {
            assert(gs.take(i + 1).drop_last() =~= gs.take(i as int));
            assert(gs.take(i + 1).last() == gs[i as int]);
            assert((i + 1) * 0x7fff_ffff_ffff_ffff == i * 0x7fff_ffff_ffff_ffff
                + 0x7fff_ffff_ffff_ffff) by (nonlinear_arith);
            assert((i + 1) * 0x8000_0000_0000_0000 == i * 0x8000_0000_0000_0000
                + 0x8000_0000_0000_0000) by (nonlinear_arith);
        }
        acc = acc + scores[i].num as i128;
        i = i + 1;
    }
    proof {
        assert(gs.take(gs.len() as int) =~= gs);
        assert(gs.len() * gs[0].den >= gs.len() && gs.len() * gs[0].den >= gs[0].den)
            by (nonlinear_arith)
            requires
                gs.len() >= 1,
                gs[0].den >= 1,
        ;
    }
    let num: i64 = acc as i64;
    let den: i64 = (scores.len() as i64) * scores[0].den;
    Score { num, den }
}

/// The snapshot reached when the controlled agent takes `pm` and the
/// opponents take the given moves, one per slot, before eviction and
/// collisions. Every branch reads the parent's food.
pub open spec fn joint_view(s: StateView, pm: Move, ms: Seq<Move>) -> StateView {
    StateView {
        player: spec_update(s.player, pm, s.food),
        enemies: Seq::new(s.enemies.len(), |j: int| spec_update(s.enemies[j], ms[j], s.food)),
        ..s
    }
}

/// The snapshot reached under the joint opponent move with index `i`.
pub open spec fn child_view(s: StateView, pm: Move, i: int) -> StateView {
    joint_view(s, pm, combo(i, s.enemies.len()))
}

/// One full simulated ply: simulate the moves, evict out-of-bounds heads,
/// then resolve collisions.
pub open spec fn next_view(s: StateView, pm: Move, i: int) -> StateView {
    collide_view(oob_view(child_view(s, pm, i)))
}

/// The shared denominator of every score produced at `depth` plies over
/// `n_enemies` opponents.
pub open spec fn den_at(n_enemies: nat, depth: nat) -> int {
    2 * pow4(n_enemies * depth) as int
}

/// The value of one branch: win and lose sentinels, or the recursive score,
/// every case over the denominator one level down.
pub open spec fn branch_score(s: StateView, pm: Move, i: int, depth: nat) -> int
    decreases depth, 0nat, 0nat,
{
    if depth == 0 {
        0
    } else {
        let t = next_view(s, pm, i);
        let d1 = den_at(s.enemies.len(), (depth - 1) as nat);
        match status_view(t) {
            GameStatus::Win => WIN_NUM * d1,
            GameStatus::Lose => LOSE_NUM * d1,
            GameStatus::Continue => score_at(t, (depth - 1) as nat),
        }
    }
}

/// The sum of the first `k` branch values for one controlled move.
pub open spec fn sum_branches(s: StateView, pm: Move, k: int, depth: nat) -> int
    decreases depth, 1nat, k,
{
    if k <= 0 {
        0
    } else {
        sum_branches(s, pm, k - 1, depth) + branch_score(s, pm, k - 1, depth)
    }
}

/// The total score of one controlled move: the sum over all joint opponent
/// moves. Relative to `den_at(enemies, depth)` this is exactly the
/// unweighted mean of the branch values.
pub open spec fn move_total(s: StateView, pm: Move, depth: nat) -> int
    decreases depth, 2nat, 0nat,
{
    sum_branches(s, pm, pow4(s.enemies.len()) as int, depth)
}

/// Keeps the later candidate on exact ties.
pub open spec fn pick_max(cur: (Move, int), m: Move, v: int) -> (Move, int) {
    if v >= cur.1 {
        (m, v)
    } else {
        cur
    }
}

/// The best controlled move and its total, moves tried in the order up,
/// down, left, right, the later move winning exact ties.
pub open spec fn best_pair(s: StateView, depth: nat) -> (Move, int)
    decreases depth, 3nat, 0nat,
{
    let u = (Move::Up, move_total(s, Move::Up, depth));
    let d = pick_max(u, Move::Down, move_total(s, Move::Down, depth));
    let l = pick_max(d, Move::Left, move_total(s, Move::Left, depth));
    pick_max(l, Move::Right, move_total(s, Move::Right, depth))
}

/// The score of a snapshot: the horizon heuristic at depth zero, otherwise
/// the best move's total. The numerator is relative to
/// `den_at(enemies, depth)`.
pub open spec fn score_at(s: StateView, depth: nat) -> int
    decreases depth, 4nat, 0nat,
{
    if depth == 0 {
        HEURISTIC_NUM as int
    } else {
        best_pair(s, depth).1
    }
}

/// The move the search chooses at `depth`.
pub open spec fn best_move_at(s: StateView, depth: nat) -> Move {
    if depth == 0 {
        Move::Up
    } else {
        best_pair(s, depth).0
    }
}

proof fn lemma_pow4_add(a: nat, b: nat)
    ensures
        pow4(a + b) == pow4(a) * pow4(b),
    decreases a,
{
    if a == 0 {
        assert(pow4(b) == 1 * pow4(b)) by (nonlinear_arith);
    } else {
        lemma_pow4_add((a - 1) as nat, b);
        assert((a - 1) + b == (a + b) - 1);
        assert(4 * (pow4((a - 1) as nat) * pow4(b)) == (4 * pow4((a - 1) as nat)) * pow4(b))
            by (nonlinear_arith);
    }
}

proof fn lemma_pow4_29()
    ensures
        pow4(29) == 0x400_0000_0000_0000,
{
    reveal_with_fuel(pow4, 30);
}

/// Unfolds one averaged layer of the denominator.
proof fn lemma_den_unfold(n: nat, d: nat)
    requires
        d >= 1,
    ensures
        den_at(n, d) == pow4(n) * den_at(n, (d - 1) as nat),
{
    assert(n * d == n + n * (d - 1)) by (nonlinear_arith);
    lemma_pow4_add(n, (n * (d - 1)) as nat);
    assert(pow4(n) * (2 * pow4((n * (d - 1)) as nat)) == 2 * (pow4(n) * pow4(
        (n * (d - 1)) as nat,
    ))) by (nonlinear_arith);
}

proof fn lemma_den_bounds(n: nat, d: nat)
    requires
        n * d <= 29,
    ensures
        2 <= den_at(n, d) <= 2 * pow4(29),
{
    lemma_pow4_pos(n * d);
    lemma_pow4_mono(n * d, 29);
}

/// An agent that was inside the grid stays inside it through one simulated
/// move followed by eviction.
proof fn lemma_update_then_evict_in_bounds(a: Seq<Cell>, m: Move, food: Seq<Cell>, w: int, h: int)
    requires
        agent_in_bounds(a, w, h),
    ensures
        agent_in_bounds(evict_agent(spec_update(a, m, food), w, h), w, h),
{
    if a.len() > 0 {
        let b = spec_update(a, m, food);
        if !spec_gone_oob(b, w, h) {
            assert forall|k: int| 0 <= k < b.len() implies 0 <= (#[trigger] b[k]).0 < w && 0
                <= b[k].1 < h by {
                if k > 0 {
                    assert(b[k] == a[k - 1]);
                }
            }
        }
    }
}

/// After simulation and eviction every living agent lies wholly inside the
/// grid: exactly what the collision pass requires.
proof fn lemma_oob_child_in_bounds(s: StateView, pm: Move, i: int)
    requires
        wf_state(s),
    ensures
        agent_in_bounds(oob_view(child_view(s, pm, i)).player, s.width, s.height),
        oob_view(child_view(s, pm, i)).enemies.len() == s.enemies.len(),
        oob_view(child_view(s, pm, i)).width == s.width,
        oob_view(child_view(s, pm, i)).height == s.height,
        oob_view(child_view(s, pm, i)).food == s.food,
        forall|j: int|
            0 <= j < s.enemies.len() ==> agent_in_bounds(
                #[trigger] oob_view(child_view(s, pm, i)).enemies[j],
                s.width,
                s.height,
            ),
    {
    let u = oob_view(child_view(s, pm, i));
    lemma_update_then_evict_in_bounds(s.player, pm, s.food, s.width, s.height);
    assert forall|j: int| 0 <= j < s.enemies.len() implies agent_in_bounds(
        #[trigger] u.enemies[j],
        s.width,
        s.height,
    ) by {
        lemma_update_then_evict_in_bounds(
            s.enemies[j],
            combo(i, s.enemies.len())[j],
            s.food,
            s.width,
            s.height,
        );
    }
}

/// One simulated ply preserves the grid bounds, the food, the opponent
/// count and snapshot legality.
proof fn lemma_next_wf(s: StateView, pm: Move, i: int)
    requires
        wf_state(s),
    ensures
        wf_state(next_view(s, pm, i)),
        next_view(s, pm, i).enemies.len() == s.enemies.len(),
        next_view(s, pm, i).width == s.width,
        next_view(s, pm, i).height == s.height,
        next_view(s, pm, i).food == s.food,
{
    let u = oob_view(child_view(s, pm, i));
    let t = next_view(s, pm, i);
    lemma_oob_child_in_bounds(s, pm, i);
    lemma_collide_shape(u);
    assert forall|j: int| 0 <= j < t.enemies.len() implies agent_in_bounds(
        #[trigger] t.enemies[j],
        t.width,
        t.height,
    ) by {
        assert(t.enemies[j] == u.enemies[j] || t.enemies[j] == Seq::<Cell>::empty());
    }
}

proof fn lemma_branch_bounds(s: StateView, pm: Move, i: int, depth: nat)
    requires
        depth >= 1,
    ensures
        LOSE_NUM * den_at(s.enemies.len(), (depth - 1) as nat) <= branch_score(s, pm, i, depth)
            <= den_at(s.enemies.len(), (depth - 1) as nat),
    decreases depth, 0nat, 0nat,
{
    let t = next_view(s, pm, i);
    let d1 = den_at(s.enemies.len(), (depth - 1) as nat);
    lemma_pow4_pos(s.enemies.len() * ((depth - 1) as nat));
    lemma_collide_shape(oob_view(child_view(s, pm, i)));
    assert(t.enemies.len() == s.enemies.len());
    if status_view(t) == GameStatus::Continue {
        lemma_score_bounds(t, (depth - 1) as nat);
    }
}

proof fn lemma_sum_bounds(s: StateView, pm: Move, k: int, depth: nat)
    requires
        depth >= 1,
        k >= 0,
    ensures
        k * (LOSE_NUM * den_at(s.enemies.len(), (depth - 1) as nat)) <= sum_branches(
            s,
            pm,
            k,
            depth,
        ) <= k * den_at(s.enemies.len(), (depth - 1) as nat),
    decreases depth, 1nat, k,
{
    let d1 = den_at(s.enemies.len(), (depth - 1) as nat);
    if k == 0 {
        assert(0 * (LOSE_NUM * d1) == 0 && 0 * d1 == 0) by (nonlinear_arith);
    } else {
        lemma_sum_bounds(s, pm, k - 1, depth);
        lemma_branch_bounds(s, pm, k - 1, depth);
        assert((k - 1) * (LOSE_NUM * d1) + LOSE_NUM * d1 == k * (LOSE_NUM * d1) && (k - 1) * d1
            + d1 == k * d1) by (nonlinear_arith);
    }
}

proof fn lemma_move_total_bounds(s: StateView, pm: Move, depth: nat)
    requires
        depth >= 1,
    ensures
        LOSE_NUM * den_at(s.enemies.len(), depth) <= move_total(s, pm, depth) <= den_at(
            s.enemies.len(),
            depth,
        ),
    decreases depth, 2nat, 0nat,
{
    let k = pow4(s.enemies.len()) as int;
    let d1 = den_at(s.enemies.len(), (depth - 1) as nat);
    lemma_sum_bounds(s, pm, k, depth);
    lemma_den_unfold(s.enemies.len(), depth);
    assert(k * (LOSE_NUM * d1) == LOSE_NUM * (k * d1) && k * d1 == (k * d1))
        by (nonlinear_arith);
}

/// Every score stays between the lose and win sentinels, scaled by the
/// shared denominator.
proof fn lemma_score_bounds(s: StateView, depth: nat)
    ensures
        LOSE_NUM * den_at(s.enemies.len(), depth) <= score_at(s, depth) <= den_at(
            s.enemies.len(),
            depth,
        ),
    decreases depth, 4nat, 0nat,
{
    if depth == 0 {
        lemma_pow4_pos(s.enemies.len() * 0);
    } else {
        lemma_move_total_bounds(s, Move::Up, depth);
        lemma_move_total_bounds(s, Move::Down, depth);
        lemma_move_total_bounds(s, Move::Left, depth);
        lemma_move_total_bounds(s, Move::Right, depth);
        lemma_pow4_pos(s.enemies.len() * depth);
    }
}

/// 4 to the power of the enemy count times the remaining depth, doubled,
/// as a machine integer.
fn den_i64(n_enemies: usize, depth: usize) -> (r: i64)
    requires
        n_enemies * depth <= 29,
    ensures
        r == den_at(n_enemies as nat, depth as nat),
{
    proof {
        lemma_pow4_29();
    }
    let e = n_enemies * depth;
    let mut r: i64 = 1;
    let mut i: usize = 0;
    while i < e
        invariant
            i <= e <= 29,
            r == pow4(i as nat),
            pow4(29) == 0x400_0000_0000_0000,
        decreases e - i,
    {
        proof {
            lemma_pow4_mono((i + 1) as nat, 29);
        }
        r = r * 4;
        i = i + 1;
    }
    proof {
        lemma_pow4_mono(e as nat, 29);
    }
    2 * r
}

fn clone_cells(v: &Vec<Cell>) -> (r: Vec<Cell>)
    ensures
        r@ == v@,
{
    let mut out: Vec<Cell> = Vec::new();
    let mut i: usize = 0;
    while i < v.len()
        invariant
            i <= v@.len(),
            out@ =~= v@.take(i as int),
        decreases v@.len() - i,
    {
        out.push(v[i]);
        i = i + 1;
    }
    assert(out@ =~= v@);
    out
}

/// Applies one joint move: the controlled agent takes `player_move`, each
/// opponent its own move, every agent reading the parent's food.
fn simulate_joint(game_state: &GameState, player_move: Move, enemy_moves: &Vec<Move>) -> (r:
    GameState)
    requires
        wf_state(game_state@),
        enemy_moves@.len() == game_state@.enemies.len(),
    ensures
        r@ == joint_view(game_state@, player_move, enemy_moves@),
{
    let ghost s = game_state@;
    proof {
        if s.player.len() > 0 {
            assert(0 <= s.player[0].0 < s.width && 0 <= s.player[0].1 < s.height);
        }
    }
    let player = game_state.player.update(player_move, game_state.food.as_slice());
    let mut enemies: Vec<Battlesnake> = Vec::new();
    let mut j: usize = 0;
    while j < game_state.enemies.len()
        invariant
            j <= game_state@.enemies.len(),
            s == game_state@,
            wf_state(s),
            enemy_moves@.len() == s.enemies.len(),
            enemies@.len() == j,
            forall|k: int|
                0 <= k < j ==> (#[trigger] enemies@[k])@ == spec_update(
                    s.enemies[k],
                    enemy_moves@[k],
                    s.food,
                ),
        decreases game_state@.enemies.len() - j,
    {
        proof {
            assert(game_state.enemies@[j as int]@ == s.enemies[j as int]);
            if s.enemies[j as int].len() > 0 {
                assert(0 <= s.enemies[j as int][0].0 < s.width && 0 <= s.enemies[j as int][0].1
                    < s.height);
            }
        }
        let b = game_state.enemies[j].update(enemy_moves[j], game_state.food.as_slice());
        enemies.push(b);
        j = j + 1;
    }
    let food = clone_cells(&game_state.food);
    let r = GameState {
        height: game_state.height,
        width: game_state.width,
        player,
        enemies,
        food,
    };
    proof {
        assert(r@.enemies =~= joint_view(s, player_move, enemy_moves@).enemies);
        assert(r@ == joint_view(s, player_move, enemy_moves@));
    }
    r
}

/// Every snapshot one ply ahead of `game_state` for a fixed controlled
/// move: one per joint opponent move, ordered by joint-move index.
pub fn get_possible_next_states(game_state: &GameState, player_move: Move) -> (r: Vec<GameState>)
    requires
        wf_state(game_state@),
        game_state@.enemies.len() <= 15,
    ensures
        r@.len() == pow4(game_state@.enemies.len()),
        forall|i: int|
            0 <= i < r@.len() ==> (#[trigger] r@[i])@ == child_view(game_state@, player_move, i),
{
    let n = game_state.enemies.len();
    let total = pow4_usize(n);
    let mut out: Vec<GameState> = Vec::new();
    let mut perm = MovePermutations::new(n);
    let mut idx: usize = 0;
    while idx < total
        invariant
            idx <= total,
            total == pow4(n as nat),
            n == game_state@.enemies.len(),
            wf_state(game_state@),
            perm.wf(),
            perm.spec_slots() == n as nat,
            perm.spec_yielded() == idx,
            out@.len() == idx,
            forall|i: int|
                0 <= i < idx ==> (#[trigger] out@[i])@ == child_view(
                    game_state@,
                    player_move,
                    i,
                ),
        decreases total - idx,
    {
        let m = perm.next();
        let enemy_moves = m.unwrap();
        proof {
            lemma_combo_len(idx as int, n as nat);
        }
        let child = simulate_joint(game_state, player_move, &enemy_moves);
        proof {
            assert(child@ == child_view(game_state@, player_move, idx as int));
        }
        out.push(child);
        idx = idx + 1;
    }
    out
}

/// The total score of one controlled move at `search_depth`: the exact
/// mean over every joint opponent move of the branch values.
fn score_move(game_state: &GameState, player_move: Move, search_depth: usize) -> (r: Score)
    requires
        wf_state(game_state@),
        1 <= search_depth,
        game_state@.enemies.len() * search_depth <= 29,
        game_state@.enemies.len() <= 15,
    ensures
        r.num == move_total(game_state@, player_move, search_depth as nat),
        r.den == den_at(game_state@.enemies.len(), search_depth as nat),
    decreases search_depth, 0nat,
{
    let ghost s = game_state@;
    let ghost depth = search_depth as nat;
    let n = game_state.enemies.len();
    proof {
        assert(n * (search_depth - 1) <= 29) by (nonlinear_arith)
            requires
                n * search_depth <= 29,
                search_depth >= 1,
        ;
    }
    let d1 = den_i64(n, search_depth - 1);
    proof {
        lemma_den_bounds(n as nat, (search_depth - 1) as nat);
        lemma_pow4_29();
    }
    let mut children = get_possible_next_states(game_state, player_move);
    let ghost allc = children@;
    let total = children.len();
    let mut scores: Vec<Score> = Vec::new();
    let mut i: usize = 0;
    while i < total
        invariant
            i <= total,
            total == pow4(n as nat),
            n == s.enemies.len(),
            s == game_state@,
            wf_state(s),
            1 <= search_depth,
            depth == search_depth as nat,
            n * search_depth <= 29,
            n <= 15,
            d1 == den_at(n as nat, (search_depth - 1) as nat),
            2 <= d1 <= 2 * pow4(29),
            pow4(29) == 0x400_0000_0000_0000,
            children@ == allc.subrange(i as int, total as int),
            allc.len() == total,
            forall|k: int|
                0 <= k < total ==> (#[trigger] allc[k])@ == child_view(s, player_move, k),
            scores@.len() == i,
            scores@.len() > 0 ==> scores@[0].den == d1,
            forall|k: int| 0 <= k < i ==> (#[trigger] scores@[k]).den == d1,
            sum_nums(scores@) == sum_branches(s, player_move, i as int, depth),
        decreases total - i,
    {
        let child = children.remove(0);
        proof {
            assert(child == allc[i as int]);
            assert(children@ =~= allc.subrange(i + 1, total as int));
            assert(child@ == child_view(s, player_move, i as int));
        }
        let child = check_out_of_bounds(child);
        proof {
            lemma_oob_child_in_bounds(s, player_move, i as int);
        }
        let child = check_collisions(child);
        proof {
            assert(child@ == next_view(s, player_move, i as int));
            lemma_next_wf(s, player_move, i as int);
            lemma_branch_bounds(s, player_move, i as int, depth);
        }
        let v: i64 = match check_win_lose(&child) {
            GameStatus::Win => WIN_NUM * d1,
            GameStatus::Lose => LOSE_NUM * d1,
            GameStatus::Continue => {
                proof {
                    assert(child@.enemies.len() * (search_depth - 1) <= 29) by (nonlinear_arith)
                        requires
                            child@.enemies.len() == n,
                            n * search_depth <= 29,
                            search_depth >= 1,
                    ;
                }
                let rec = find_plan(&child, search_depth - 1);
                rec.1.num
            },
        };
        proof {
            assert(v == branch_score(s, player_move, i as int, depth));
        }
        let entry = Score { num: v, den: d1 };
        let ghost old_scores = scores@;
        scores.push(entry);
        proof {
            assert(scores@.drop_last() =~= old_scores);
            assert(sum_nums(scores@) == sum_nums(old_scores) + v);
        }
        i = i + 1;
    }
    proof {
        lemma_sum_bounds(s, player_move, total as int, depth);
        lemma_den_unfold(n as nat, depth);
        lemma_den_bounds(n as nat, depth);
        assert(total * d1 == den_at(n as nat, depth));
        assert(total * (LOSE_NUM * d1) == LOSE_NUM * (total * d1)) by (nonlinear_arith);
        lemma_pow4_pos(n as nat);
    }
    let r = combine_scores(&scores);
    r
}

/// The placeholder score at the search horizon: one half, standing in for
/// a future static evaluation.
pub fn heuristic_score(_game_state: &GameState) -> (r: Score)
    ensures
        r == (Score { num: HEURISTIC_NUM, den: HEURISTIC_DEN }),
{
    Score { num: HEURISTIC_NUM, den: HEURISTIC_DEN }
}

/// The depth-bounded expectation search: scores each of the four controlled
/// moves as the unweighted mean over all joint opponent moves of the branch
/// values (win, lose, or the recursive score; the horizon heuristic at
/// depth zero) and returns the best move, the later move winning exact
/// ties. Opponents are treated as uniformly random, not adversarial.
pub fn find_plan(game_state: &GameState, search_depth: usize) -> (r: (Move, Score))
    requires
        wf_state(game_state@),
        game_state@.enemies.len() * search_depth <= 29,
        game_state@.enemies.len() <= 15,
    ensures
        r.0 == best_move_at(game_state@, search_depth as nat),
        r.1.num == score_at(game_state@, search_depth as nat),
        r.1.den == den_at(game_state@.enemies.len(), search_depth as nat),
    decreases search_depth, 1nat,
{
    if search_depth == 0 {
        let r = heuristic_score(game_state);
        proof {
            assert(game_state@.enemies.len() * 0 == 0) by (nonlinear_arith);
        }
        return (Move::Up, r);
    }
    let su = score_move(game_state, Move::Up, search_depth);
    let sd = score_move(game_state, Move::Down, search_depth);
    let sl = score_move(game_state, Move::Left, search_depth);
    let sr = score_move(game_state, Move::Right, search_depth);
    let mut chosen = Move::Up;
    let mut best = su;
    if sd.num >= best.num {
        chosen = Move::Down;
        best = sd;
    }
    if sl.num >= best.num {
        chosen = Move::Left;
        best = sl;
    }
    if sr.num >= best.num {
        chosen = Move::Right;
        best = sr;
    }
    (chosen, best)
}

/// The best pair really is the best: its total belongs to its move, and no
/// move scores higher.
proof fn lemma_best_pair_props(s: StateView, depth: nat)
    requires
        depth >= 1,
    ensures
        best_pair(s, depth).1 == move_total(s, best_pair(s, depth).0, depth),
        forall|m: Move| best_pair(s, depth).1 >= #[trigger] move_total(s, m, depth),
{
    assert forall|m: Move| best_pair(s, depth).1 >= #[trigger] move_total(s, m, depth) by {
        match m {
            Move::Up => {},
            Move::Down => {},
            Move::Left => {},
            Move::Right => {},
        }
    }
}

/// Whether a snapshot holds only a single-segment controlled agent, no
/// opponents and no food, on a grid with room to move.
pub open spec fn lone_agent_state(s: StateView) -> bool {
    &&& wf_state(s)
    &&& s.enemies.len() == 0
    &&& s.food.len() == 0
    &&& s.player.len() == 1
    &&& (s.width >= 2 || s.height >= 2)
}

/// One ply of a lone single-segment agent: an in-bounds move leaves a lone
/// agent at the shifted head and the game continues; an out-of-bounds move
/// loses.
proof fn lemma_lone_step(s: StateView, m: Move)
    requires
        lone_agent_state(s),
    ensures
        0 <= moved_x(s.player[0], m) < s.width && 0 <= moved_y(s.player[0], m) < s.height ==> {
            let t = next_view(s, m, 0);
            &&& t.player =~= seq![spec_add(s.player[0], m)]
            &&& t.enemies.len() == 0
            &&& t.food == s.food
            &&& t.width == s.width
            &&& t.height == s.height
            &&& status_view(t) == GameStatus::Continue
            &&& lone_agent_state(t)
        },
        !(0 <= moved_x(s.player[0], m) < s.width && 0 <= moved_y(s.player[0], m) < s.height)
            ==> status_view(next_view(s, m, 0)) == GameStatus::Lose,
{
    let head = s.player[0];
    let nh = spec_add(head, m);
    assert(0 <= head.0 < s.width <= 127 && 0 <= head.1 < s.height <= 127);
    assert(nh.0 == moved_x(head, m) && nh.1 == moved_y(head, m));
    let c = child_view(s, m, 0);
    assert(!s.food.contains(nh));
    assert(c.player =~= seq![nh]);
    assert(c.enemies.len() == 0);
    let u = oob_view(c);
    assert(u.enemies.len() == 0);
    let t = next_view(s, m, 0);
    lemma_collide_shape(u);
    assert(t.enemies.len() == 0);
    if 0 <= nh.0 < s.width && 0 <= nh.1 < s.height {
        assert(!spec_gone_oob(c.player, s.width, s.height));
        assert(u.player == c.player);
        assert(!check_collisions::body_occupied(u, u.player[0])) by {
            assert(!check_collisions::occupied_by(u.player, u.player[0]));
            assert(!check_collisions::enemy_occupied(u.enemies, u.player[0]));
        }
        assert(check_collisions::body_pass(u).player == u.player);
        assert(check_collisions::player_duels(
            check_collisions::body_pass(u).player,
            check_collisions::body_pass(u).enemies,
            0,
        ).0 == u.player);
        assert(t.player == u.player);
        assert(agent_in_bounds(t.player, t.width, t.height)) by {
            assert(t.player[0] == nh);
        }
        assert(wf_state(t));
    } else {
        assert(spec_gone_oob(c.player, s.width, s.height));
        assert(u.player.len() == 0);
        assert(check_collisions::body_pass(u).player.len() == 0);
        assert(check_collisions::player_duels(
            check_collisions::body_pass(u).player,
            check_collisions::body_pass(u).enemies,
            0,
        ).0.len() == 0);
        assert(t.player.len() == 0);
    }
}

/// A lone single-segment agent with room to move always has a continuation
/// worth strictly more than the losing sentinel.
proof fn lemma_lone_score_above_lose(s: StateView, depth: nat)
    requires
        lone_agent_state(s),
    ensures
        score_at(s, depth) > LOSE_NUM * den_at(s.enemies.len(), depth),
        den_at(s.enemies.len(), depth) == 2,
    decreases depth,
{
    assert(s.enemies.len() * depth == 0) by (nonlinear_arith)
        requires
            s.enemies.len() == 0,
    ;
    if depth > 0 {
        let head = s.player[0];
        // some move stays inside the grid
        let m = if s.width >= 2 {
            if head.0 >= 1 {
                Move::Left
            } else {
                Move::Right
            }
        } else {
            if head.1 >= 1 {
                Move::Down
            } else {
                Move::Up
            }
        };
        assert(0 <= head.0 < s.width <= 127 && 0 <= head.1 < s.height <= 127);
        if s.height < 2 {
            assert(head.1 == 0);
        }
        assert(0 <= moved_x(head, m) < s.width && 0 <= moved_y(head, m) < s.height);
        lemma_lone_step(s, m);
        let t = next_view(s, m, 0);
        lemma_lone_score_above_lose(t, (depth - 1) as nat);
        assert(branch_score(s, m, 0, depth) == score_at(t, (depth - 1) as nat));
        assert(branch_score(s, m, 0, depth) > LOSE_NUM * 2);
        assert(pow4(s.enemies.len()) == 1);
        assert(sum_branches(s, m, 0, depth) == 0);
        assert(sum_branches(s, m, 1, depth) == branch_score(s, m, 0, depth));
        assert(move_total(s, m, depth) > LOSE_NUM * 2);
        lemma_best_pair_props(s, depth);
        assert(score_at(s, depth) >= move_total(s, m, depth));
    }
}

/// With no opponents and no food on the board, a single-segment controlled
/// agent that has any in-bounds option is never steered off the grid: at
/// every depth of at least one, the chosen move's new head lies inside the
/// grid. On a one-by-one grid no in-bounds option exists and nothing is
/// claimed.
pub proof fn lemma_search_keeps_agent_in_bounds(s: StateView, depth: nat)
    requires
        depth >= 1,
        wf_state(s),
        s.enemies.len() == 0,
        s.food.len() == 0,
        s.player.len() == 1,
        s.width >= 2 || s.height >= 2,
    ensures
        0 <= moved_x(s.player[0], best_move_at(s, depth)) < s.width,
        0 <= moved_y(s.player[0], best_move_at(s, depth)) < s.height,
{
    let cm = best_move_at(s, depth);
    lemma_best_pair_props(s, depth);
    lemma_lone_score_above_lose(s, depth);
    assert(move_total(s, cm, depth) == score_at(s, depth));
    assert(move_total(s, cm, depth) > LOSE_NUM * 2);
    assert(pow4(s.enemies.len()) == 1);
    assert(sum_branches(s, cm, 0, depth) == 0);
    assert(sum_branches(s, cm, 1, depth) == branch_score(s, cm, 0, depth));
    assert(s.enemies.len() * ((depth - 1) as nat) == 0) by (nonlinear_arith)
        requires
            s.enemies.len() == 0,
    ;
    assert(den_at(s.enemies.len(), (depth - 1) as nat) == 2);
    lemma_lone_step(s, cm);
    if !(0 <= moved_x(s.player[0], cm) < s.width && 0 <= moved_y(s.player[0], cm) < s.height) {
        assert(status_view(next_view(s, cm, 0)) == GameStatus::Lose);
        assert(branch_score(s, cm, 0, depth) == LOSE_NUM * 2);
        assert(false);
    }
}

/// Chooses the controlled agent's next move: the expectation search at the
/// fixed lookahead depth.
pub fn devise_plan(game_state: GameState) -> (r: Move)
    requires
        wf_state(game_state@),
        game_state@.enemies.len() * MAX_SEARCH_DEPTH <= 29,
    ensures
        r == best_move_at(game_state@, MAX_SEARCH_DEPTH as nat),
{
    proof {
        assert(game_state@.enemies.len() <= 15) by (nonlinear_arith)
            requires
                game_state@.enemies.len() * MAX_SEARCH_DEPTH <= 29,
                MAX_SEARCH_DEPTH == 4,
        ;
    }
    find_plan(&game_state, MAX_SEARCH_DEPTH).0
}

} // verus!
