use vstd::prelude::*;

use crate::board::{
    lemma_row_has_move, lemma_step_ok, spec_bank_idx, spec_choose_counts, spec_choose_turn,
    spec_pool_idx, spec_row_total, spec_total, spec_valid_move, counts_ok,
};
use crate::kalaha::Kalaha;
use crate::player::Player;
use crate::turn::Turn;

verus! {

// ---------------------------------------------------------------------------
// The value of a position, as the depth-limited minimax search defines it.
// ---------------------------------------------------------------------------

/// The heuristic score of a position for `root`: root's bank minus the
/// opponent's bank.
pub open spec fn spec_leaf_score(c: Seq<int>, root: Player) -> int {
    c[spec_bank_idx(root)] - c[spec_bank_idx(root.spec_next())]
}

/// The (score, pond) pair a search starts from: below every real score when
/// maximizing, above every real score when minimizing, with the out-of-range
/// pond index 6.
pub open spec fn spec_search_init(maximize: bool) -> (int, int) {
    if maximize {
        (i32::MIN as int, 6)
    } else {
        (i32::MAX as int, 6)
    }
}

/// Whether the candidate (score, pond) beats the current best: by score
/// first; on equal scores the higher pond wins when maximizing and the lower
/// pond when minimizing.
pub open spec fn spec_better(
    maximize: bool,
    score: int,
    pond: int,
    best_score: int,
    best_pond: int,
) -> bool {
    if maximize {
        score > best_score || (score == best_score && pond > best_pond)
    } else {
        score < best_score || (score == best_score && pond < best_pond)
    }
}

/// The larger of the two when maximizing, the smaller when minimizing.
pub open spec fn spec_combine(maximize: bool, x: int, y: int) -> int {
    if maximize {
        if x >= y {
            x
        } else {
            y
        }
    } else {
        if x <= y {
            x
        } else {
            y
        }
    }
}

/// The value, for `root`, of the position that the move `i` of player `p`
/// leads to, searched `d - 1` plies deeper.
pub open spec fn spec_move_value(c: Seq<int>, p: Player, root: Player, d: nat, i: int) -> int
    decreases d, 0int,
{
    if d == 0 {
        spec_leaf_score(spec_choose_counts(c, p, i), root)
    } else {
        spec_state_value(
            spec_choose_counts(c, p, i),
            spec_choose_turn(c, p, i),
            root,
            (d - 1) as nat,
        )
    }
}

/// Fold the candidate moves `i..6` of player `p` into the running best
/// (score, pond) pair.
pub open spec fn spec_best_from(
    c: Seq<int>,
    p: Player,
    root: Player,
    d: nat,
    i: int,
    best_score: int,
    best_pond: int,
    maximize: bool,
) -> (int, int)
    decreases d, 8 - i,
{
    if i < 0 || i >= 6 {
        (best_score, best_pond)
    } else {
        let v = spec_move_value(c, p, root, d, i);
        if spec_valid_move(c, p, i) && spec_better(maximize, v, i, best_score, best_pond) {
            spec_best_from(c, p, root, d, i + 1, v, i, maximize)
        } else {
            spec_best_from(c, p, root, d, i + 1, best_score, best_pond, maximize)
        }
    }
}

/// The (score, pond) pair the depth-`d` search picks for the position where
/// `p` is to move: the best move value over `p`'s valid moves, maximizing
/// when `p` is the root player and minimizing otherwise.
pub open spec fn spec_search_move(c: Seq<int>, p: Player, root: Player, d: nat) -> (int, int)
    decreases d, 10int,
{
    let maximize = (p == root);
    spec_best_from(c, p, root, d, 0, spec_search_init(maximize).0, 6, maximize)
}

/// The value of a state for `root`, searched to depth `d`: the heuristic
/// score once the game has finished or the depth is spent, and otherwise the
/// score of the move the search picks.
pub open spec fn spec_state_value(c: Seq<int>, t: Turn, root: Player, d: nat) -> int
    decreases d, 20int,
{
    match t {
        Turn::Finished(_) => spec_leaf_score(c, root),
        Turn::Player(p) => if d == 0 {
            spec_leaf_score(c, root)
        } else {
            spec_search_move(c, p, root, d).0
        },
    }
}

// ---------------------------------------------------------------------------
// Strategies.
// ---------------------------------------------------------------------------

/// A move-selection strategy: given a running game, pick a pond for the
/// player to move.
pub trait AI {
    /// Pick a pond for the player to move. The returned index is always a
    /// valid move of the current position.
    fn choose_pond(&self, game: &Kalaha) -> (r: usize)
        requires
            game.wf(),
            game.turn matches Turn::Player(_),
            spec_total(game.counts()) < i32::MAX,
        ensures
            r < 6,
            game.turn matches Turn::Player(p) ==> spec_valid_move(game.counts(), p, r as int),
    ;
}

/// The baseline strategy: the lowest-numbered pond with seeds in it.
#[derive(Debug)]
pub struct FirstValid {}

impl AI for FirstValid {
    fn choose_pond(&self, game: &Kalaha) -> (r: usize) {
        let ghost c = game.counts();
        let ghost p = game.turn->Player_0;
        let mut i: usize = 0;
        while i < 6
            invariant
                0 <= i <= 6,
                c == game.counts(),
                game.turn == (Turn::Player(p)),
                game.wf(),
                forall|j: int| 0 <= j < i ==> c[#[trigger] spec_pool_idx(p, j)] == 0,
            decreases 6 - i,
        {
            if game.valid_move(i).is_ok() {
                return i;
            }
            i = i + 1;
        }
        proof {
            assert(spec_row_total(c, p) == c[spec_pool_idx(p, 0)] + c[spec_pool_idx(p, 1)] + c[
                spec_pool_idx(p, 2)
            ] + c[spec_pool_idx(p, 3)] + c[spec_pool_idx(p, 4)] + c[spec_pool_idx(p, 5)]);
            assert(false);
        }
        vstd::pervasive::unreached()
    }
}

/// The mirror baseline: the highest-numbered pond with seeds in it.
#[derive(Debug)]
pub struct LastValid {}

impl AI for LastValid {
    fn choose_pond(&self, game: &Kalaha) -> (r: usize) {
        let ghost c = game.counts();
        let ghost p = game.turn->Player_0;
        let mut i: usize = 6;
        while i > 0
            invariant
                0 <= i <= 6,
                c == game.counts(),
                game.turn == (Turn::Player(p)),
                game.wf(),
                forall|j: int| i <= j < 6 ==> c[#[trigger] spec_pool_idx(p, j)] == 0,
            decreases i,
        {
            i = i - 1;
            if game.valid_move(i).is_ok() {
                return i;
            }
            proof {
                assert(c[spec_pool_idx(p, i as int)] == 0);
            }
        }
        proof {
            assert(spec_row_total(c, p) == c[spec_pool_idx(p, 0)] + c[spec_pool_idx(p, 1)] + c[
                spec_pool_idx(p, 2)
            ] + c[spec_pool_idx(p, 3)] + c[spec_pool_idx(p, 4)] + c[spec_pool_idx(p, 5)]);
            assert(false);
        }
        vstd::pervasive::unreached()
    }
}

/// A pond index paired with the score the search gave it; compared by score
/// first, then by pond index.
#[derive(Debug, PartialEq, Eq, Structural, Clone, Copy)]
pub struct ScoredMove {
    pub score: i32,
    pub pond: usize,
}

impl ScoredMove {
    /// Pair a pond with its score.
    pub fn new(pond: usize, score: i32) -> (r: ScoredMove)
        ensures
            r.pond == pond,
            r.score == score,
    {
        ScoredMove { pond, score }
    }
}

/// Depth-limited minimax search.
#[derive(Debug)]
pub struct MinMax {
    pub depth: u32,
}

impl MinMax {
    /// A minimax strategy that searches `depth` plies deep.
    pub fn new(depth: u32) -> (r: MinMax)
        ensures
            r.depth == depth,
    {
        MinMax { depth }
    }

    /// The heuristic score of a position for `player`: own bank minus the
    /// opponent's bank.
    fn score(&self, game: &Kalaha, player: &Player) -> (r: i32)
        requires
            spec_total(game.counts()) <= i32::MAX,
        ensures
            r as int == spec_leaf_score(game.counts(), *player),
    {
        let own = game.bank(player);
        let other = game.bank(&player.next());
        proof {
            assert(own as int <= spec_total(game.counts()));
            assert(other as int <= spec_total(game.counts()));
        }
        own as i32 - other as i32
    }

    /// The minimax search: explore every valid move of the player to move,
    /// searching `depth - 1` plies below each, and keep the best-scored one
    /// for `player` — the maximum when the mover is `player`, the minimum
    /// otherwise; later ponds win ties at a maximum, earlier ponds at a
    /// minimum.
    pub fn choose_depth(&self, game: &Kalaha, player: &Player, depth: u32) -> (r: ScoredMove)
        requires
            game.wf(),
            game.turn matches Turn::Player(_),
            spec_total(game.counts()) <= i32::MAX,
        ensures
            game.turn matches Turn::Player(p) ==> (r.score as int, r.pond as int)
                == spec_search_move(game.counts(), p, *player, depth as nat),
        decreases depth,
    {
        let ghost c = game.counts();
        let ghost root = *player;
        let ghost d = depth as nat;
        let current = *game.current_player();
        let ghost p = current;
        let maximize = current == *player;
        let mut best = if maximize {
            ScoredMove { score: i32::MIN, pond: 6 }
        } else {
            ScoredMove { score: i32::MAX, pond: 6 }
        };
        let mut i: usize = 0;
        while i < 6
            invariant
                game.wf(),
                c == game.counts(),
                game.turn == (Turn::Player(p)),
                root == *player,
                maximize == (p == root),
                d == depth as nat,
                spec_total(c) <= i32::MAX,
                0 <= i <= 6,
                best.pond <= 6,
                spec_best_from(
                    c,
                    p,
                    root,
                    d,
                    i as int,
                    best.score as int,
                    best.pond as int,
                    maximize,
                ) == spec_search_move(c, p, root, d),
            decreases 6 - i,
        {
            if game.valid_move(i).is_ok() {
                let mut game2 = game.clone();
                game2.choose_pond(i);
                let v: i32 = if depth <= 1 || game2.is_finished() {
                    self.score(&game2, player)
                } else {
                    self.choose_depth(&game2, player, depth - 1).score
                };
                proof {
                    assert(v as int == spec_move_value(c, p, root, d, i as int));
                }
                let better = if maximize {
                    v > best.score || (v == best.score && i > best.pond)
                } else {
                    v < best.score || (v == best.score && i < best.pond)
                };
                if better {
                    best = ScoredMove { score: v, pond: i };
                }
            }
            i = i + 1;
        }
        best
    }
}

impl AI for MinMax {
    fn choose_pond(&self, game: &Kalaha) -> (r: usize) {
        let current = *game.current_player();
        let sm = self.choose_depth(game, &current, self.depth);
        proof {
            lemma_search_move_props(game.counts(), current, current, self.depth as nat);
        }
        sm.pond
    }
}

/// Depth-limited alpha-beta search: the same score as minimax at the same
/// depth, with pruned subtrees.
#[derive(Debug)]
pub struct AlphaBeta {
    pub depth: u32,
}

impl AlphaBeta {
    /// An alpha-beta strategy that searches `depth` plies deep.
    pub fn new(depth: u32) -> (r: AlphaBeta)
        ensures
            r.depth == depth,
    {
        AlphaBeta { depth }
    }

    /// The heuristic score of a position for `player`: own bank minus the
    /// opponent's bank.
    fn score(&self, game: &Kalaha, player: &Player) -> (r: i32)
        requires
            spec_total(game.counts()) <= i32::MAX,
        ensures
            r as int == spec_leaf_score(game.counts(), *player),
    {
        let own = game.bank(player);
        let other = game.bank(&player.next());
        proof {
            assert(own as int <= spec_total(game.counts()));
            assert(other as int <= spec_total(game.counts()));
        }
        own as i32 - other as i32
    }

    /// The alpha-beta search over the moves of the player to move, with the
    /// pruning window `(alpha, beta)`. The score it reports is fail-soft:
    /// at most `max(alpha, m)` and at least `min(beta, m)`, where `m` is the
    /// exact minimax score of the position — so whenever `alpha < m < beta`,
    /// and in particular under the full window, the score equals `m`. At a
    /// maximizing node an unpruned score also names a valid move that
    /// achieves it.
    pub fn alpha_beta(
        &self,
        game: &Kalaha,
        player: &Player,
        depth: u32,
        alpha: i32,
        beta: i32,
    ) -> (r: ScoredMove)
        requires
            game.wf(),
            game.turn matches Turn::Player(_),
            spec_total(game.counts()) <= i32::MAX,
            alpha < beta,
        ensures
            game.turn matches Turn::Player(p) ==> ({
                let m = spec_search_move(game.counts(), p, *player, depth as nat).0;
                &&& r.score as int <= spec_combine(true, alpha as int, m)
                &&& r.score as int >= spec_combine(false, beta as int, m)
                &&& (p == *player && alpha < r.score && r.score < beta) ==> (r.pond < 6
                    && spec_valid_move(game.counts(), p, r.pond as int) && spec_move_value(
                    game.counts(),
                    p,
                    *player,
                    depth as nat,
                    r.pond as int,
                ) == r.score as int)
            }),
        decreases depth, 1int,
    {
        let ghost c = game.counts();
        let ghost root = *player;
        let ghost d = depth as nat;
        let current = *game.current_player();
        let ghost p = current;
        let maximize = current == *player;
        let ghost m = spec_search_move(c, p, root, d).0;
        let ghost alpha0 = alpha as int;
        let ghost beta0 = beta as int;
        proof {
            lemma_search_move_props(c, p, root, d);
            lemma_range_bound(c, p, root, d, 0, 6, maximize);
        }
        let mut alpha = alpha;
        let mut beta = beta;
        if maximize {
            let mut best = ScoredMove::new(6, i32::MIN);
            let mut i: usize = 6;
            while i > 0
                invariant_except_break
                    game.wf(),
                    c == game.counts(),
                    game.turn == (Turn::Player(p)),
                    root == *player,
                    p == root,
                    d == depth as nat,
                    spec_total(c) <= i32::MAX,
                    m == spec_search_move(c, p, root, d).0,
                    -spec_total(c) <= m <= spec_total(c),
                    m == spec_combine(
                        true,
                        i32::MIN as int,
                        spec_range_best(c, p, root, d, 0, 6, true),
                    ),
                    0 <= i <= 6,
                    best.pond <= 6,
                    beta as int == beta0,
                    alpha0 <= alpha as int && (alpha as int) < beta0,
                    alpha as int == spec_combine(true, alpha0, best.score as int),
                    best.score as int <= spec_combine(
                        true,
                        alpha0,
                        spec_range_best(c, p, root, d, i as int, 6, true),
                    ),
                    best.score as int >= spec_combine(
                        false,
                        beta0,
                        spec_range_best(c, p, root, d, i as int, 6, true),
                    ),
                    (alpha0 < best.score as int && (best.score as int) < beta0) ==> (best.pond < 6
                        && spec_valid_move(c, p, best.pond as int) && spec_move_value(
                        c,
                        p,
                        root,
                        d,
                        best.pond as int,
                    ) == best.score as int),
                ensures
                    best.score as int <= spec_combine(true, alpha0, m),
                    best.score as int >= spec_combine(false, beta0, m),
                    (alpha0 < best.score as int && (best.score as int) < beta0) ==> (best.pond < 6
                        && spec_valid_move(c, p, best.pond as int) && spec_move_value(
                        c,
                        p,
                        root,
                        d,
                        best.pond as int,
                    ) == best.score as int),
                decreases i,
            {
                i = i - 1;
                let ghost range_here = spec_range_best(c, p, root, d, i as int, 6, true);
                let ghost range_rest = spec_range_best(c, p, root, d, i as int + 1, 6, true);
                if game.valid_move(i).is_ok() {
                    let mut game2 = game.clone();
                    game2.choose_pond(i);
                    let sm = self.score_for(&game2, player, i, depth, alpha, beta);
                    let ghost v = spec_move_value(c, p, root, d, i as int);
                    let ghost prev_best = best;
                    let ghost prev_alpha = alpha as int;
                    proof {
                        assert(sm.score as int <= spec_combine(true, prev_alpha, v));
                        assert(sm.score as int >= spec_combine(false, beta0, v));
                        lemma_move_value_bound(c, p, root, d, i as int);
                        assert(range_here == spec_combine(true, v, range_rest));
                    }
                    if sm.score > best.score {
                        best = ScoredMove::new(i, sm.score);
                    }
                    if best.score > alpha {
                        alpha = best.score;
                    }
                    proof {
                        if best != prev_best && alpha0 < best.score as int && (best.score as int)
                            < beta0 {
                            assert(prev_alpha < sm.score as int);
                            assert(v == sm.score as int);
                        }
                    }
                    if beta <= alpha {
                        proof {
                            lemma_range_split(c, p, root, d, 0, i as int, 6, true);
                        }
                        break;
                    }
                } else {
                    proof {
                        assert(range_here == range_rest);
                    }
                }
            }
            best
        } else {
            let mut best = ScoredMove::new(6, i32::MAX);
            let mut i: usize = 6;
            while i > 0
                invariant_except_break
                    game.wf(),
                    c == game.counts(),
                    game.turn == (Turn::Player(p)),
                    root == *player,
                    p != root,
                    d == depth as nat,
                    spec_total(c) <= i32::MAX,
                    m == spec_search_move(c, p, root, d).0,
                    -spec_total(c) <= m <= spec_total(c),
                    m == spec_combine(
                        false,
                        i32::MAX as int,
                        spec_range_best(c, p, root, d, 0, 6, false),
                    ),
                    0 <= i <= 6,
                    best.pond <= 6,
                    alpha as int == alpha0,
                    beta0 >= beta as int && alpha0 < beta as int,
                    beta as int == spec_combine(false, beta0, best.score as int),
                    best.score as int >= spec_combine(
                        false,
                        beta0,
                        spec_range_best(c, p, root, d, i as int, 6, false),
                    ),
                    best.score as int <= spec_combine(
                        true,
                        alpha0,
                        spec_range_best(c, p, root, d, i as int, 6, false),
                    ),
                ensures
                    best.score as int <= spec_combine(true, alpha0, m),
                    best.score as int >= spec_combine(false, beta0, m),
                decreases i,
            {
                i = i - 1;
                let ghost range_here = spec_range_best(c, p, root, d, i as int, 6, false);
                let ghost range_rest = spec_range_best(c, p, root, d, i as int + 1, 6, false);
                if game.valid_move(i).is_ok() {
                    let mut game2 = game.clone();
                    game2.choose_pond(i);
                    let sm = self.score_for(&game2, player, i, depth, alpha, beta);
                    let ghost v = spec_move_value(c, p, root, d, i as int);
                    proof {
                        assert(sm.score as int <= spec_combine(true, alpha0, v));
                        assert(sm.score as int >= spec_combine(false, beta as int, v));
                        lemma_move_value_bound(c, p, root, d, i as int);
                        assert(range_here == spec_combine(false, v, range_rest));
                    }
                    if sm.score < best.score || (sm.score == best.score && i < best.pond) {
                        best = ScoredMove::new(i, sm.score);
                    }
                    if best.score < beta {
                        beta = best.score;
                    }
                    if beta <= alpha {
                        proof {
                            lemma_range_split(c, p, root, d, 0, i as int, 6, false);
                        }
                        break;
                    }
                } else {
                    proof {
                        assert(range_here == range_rest);
                    }
                }
            }
            best
        }
    }

    /// Score one explored child: the heuristic score once the depth is spent
    /// or the game has finished there, and otherwise a deeper alpha-beta
    /// search, one ply down, under the same window.
    fn score_for(
        &self,
        game: &Kalaha,
        player: &Player,
        pond: usize,
        depth: u32,
        alpha: i32,
        beta: i32,
    ) -> (r: ScoredMove)
        requires
            game.wf(),
            spec_total(game.counts()) <= i32::MAX,
            alpha < beta,
        ensures
            ({
                let d1: nat = if depth <= 1 {
                    0
                } else {
                    (depth - 1) as nat
                };
                let m = spec_state_value(game.counts(), game.turn, *player, d1);
                r.score as int <= spec_combine(true, alpha as int, m) && r.score as int
                    >= spec_combine(false, beta as int, m)
            }),
        decreases depth, 0int,
    {
        if depth <= 1 || game.is_finished() {
            ScoredMove::new(pond, self.score(game, player))
        } else {
            self.alpha_beta(game, player, depth - 1, alpha, beta)
        }
    }
}

impl AI for AlphaBeta {
    fn choose_pond(&self, game: &Kalaha) -> (r: usize) {
        let current = *game.current_player();
        let sm = self.alpha_beta(game, &current, self.depth, i32::MIN, i32::MAX);
        proof {
            lemma_search_move_props(game.counts(), current, current, self.depth as nat);
        }
        sm.pond
    }
}

// ---------------------------------------------------------------------------
// Facts about the search value, proved once and shared by both searches.
// ---------------------------------------------------------------------------

/// The best move value over the valid moves in `lo..hi`, without tie-breaks:
/// the search's starting score when no move in the range is valid.
pub open spec fn spec_range_best(
    c: Seq<int>,
    p: Player,
    root: Player,
    d: nat,
    lo: int,
    hi: int,
    maximize: bool,
) -> int
    decreases hi - lo,
{
    if lo >= hi {
        spec_search_init(maximize).0
    } else {
        let rest = spec_range_best(c, p, root, d, lo + 1, hi, maximize);
        if spec_valid_move(c, p, lo) {
            spec_combine(maximize, spec_move_value(c, p, root, d, lo), rest)
        } else {
            rest
        }
    }
}

/// Every state value lies within the board's total seed count.
pub proof fn lemma_state_value_bound(c: Seq<int>, t: Turn, root: Player, d: nat)
    requires
        counts_ok(c),
        t matches Turn::Player(_) ==> spec_row_total(c, Player::A) > 0 && spec_row_total(
            c,
            Player::B,
        ) > 0,
        spec_total(c) <= i32::MAX,
    ensures
        -spec_total(c) <= spec_state_value(c, t, root, d) <= spec_total(c),
    decreases d, 50int,
{
    match t {
        Turn::Finished(_) => {},
        Turn::Player(p) => {
            if d > 0 {
                let maximize = (p == root);
                lemma_best_from_range(c, p, root, d, 0, spec_search_init(maximize).0, 6, maximize);
                lemma_range_bound(c, p, root, d, 0, 6, maximize);
                lemma_row_has_move(c, p);
            }
        },
    }
}

/// The value of a valid move lies within the board's total seed count.
pub proof fn lemma_move_value_bound(c: Seq<int>, p: Player, root: Player, d: nat, i: int)
    requires
        counts_ok(c),
        spec_valid_move(c, p, i),
        spec_total(c) <= i32::MAX,
    ensures
        -spec_total(c) <= spec_move_value(c, p, root, d, i) <= spec_total(c),
    decreases d, 5int,
{
    lemma_step_ok(c, p, i);
    if d > 0 {
        lemma_state_value_bound(
            spec_choose_counts(c, p, i),
            spec_choose_turn(c, p, i),
            root,
            (d - 1) as nat,
        );
    }
}

/// The best move value of a range: the starting score when no move in the
/// range is valid, and otherwise within the board's total seed count.
pub proof fn lemma_range_bound(
    c: Seq<int>,
    p: Player,
    root: Player,
    d: nat,
    lo: int,
    hi: int,
    maximize: bool,
)
    requires
        counts_ok(c),
        0 <= lo <= hi <= 6,
        spec_total(c) <= i32::MAX,
    ensures
        (forall|j: int| lo <= j < hi ==> !spec_valid_move(c, p, j)) ==> spec_range_best(
            c,
            p,
            root,
            d,
            lo,
            hi,
            maximize,
        ) == spec_search_init(maximize).0,
        (exists|j: int| lo <= j < hi && #[trigger] spec_valid_move(c, p, j)) ==> -spec_total(c)
            <= spec_range_best(c, p, root, d, lo, hi, maximize) <= spec_total(c),
    decreases d, 30 + hi - lo,
{
    if lo < hi {
        lemma_range_bound(c, p, root, d, lo + 1, hi, maximize);
        if spec_valid_move(c, p, lo) {
            lemma_move_value_bound(c, p, root, d, lo);
        }
    }
}

/// The fold of the moves `i..6` onto a starting pair computes the plain
/// max / min of the start score and the range's best move value.
pub proof fn lemma_best_from_range(
    c: Seq<int>,
    p: Player,
    root: Player,
    d: nat,
    i: int,
    bs: int,
    bp: int,
    maximize: bool,
)
    requires
        counts_ok(c),
        0 <= i <= 6,
        spec_total(c) <= i32::MAX,
        i32::MIN <= bs <= i32::MAX,
    ensures
        spec_best_from(c, p, root, d, i, bs, bp, maximize).0 == spec_combine(
            maximize,
            bs,
            spec_range_best(c, p, root, d, i, 6, maximize),
        ),
    decreases d, 10 + 6 - i,
{
    if i < 6 {
        let v = spec_move_value(c, p, root, d, i);
        if spec_valid_move(c, p, i) && spec_better(maximize, v, i, bs, bp) {
            lemma_move_value_bound(c, p, root, d, i);
            lemma_best_from_range(c, p, root, d, i + 1, v, i, maximize);
        } else {
            lemma_best_from_range(c, p, root, d, i + 1, bs, bp, maximize);
        }
    }
}

/// What the fold returns: either the starting pair untouched, or a valid
/// move of the range together with its own value.
pub proof fn lemma_best_from_pond(
    c: Seq<int>,
    p: Player,
    root: Player,
    d: nat,
    i: int,
    bs: int,
    bp: int,
    maximize: bool,
)
    requires
        0 <= i <= 6,
    ensures
        ({
            let (s2, p2) = spec_best_from(c, p, root, d, i, bs, bp, maximize);
            (s2 == bs && p2 == bp) || (i <= p2 < 6 && spec_valid_move(c, p, p2)
                && spec_move_value(c, p, root, d, p2) == s2)
        }),
    decreases 6 - i,
{
    if i < 6 {
        let v = spec_move_value(c, p, root, d, i);
        if spec_valid_move(c, p, i) && spec_better(maximize, v, i, bs, bp) {
            lemma_best_from_pond(c, p, root, d, i + 1, v, i, maximize);
        } else {
            lemma_best_from_pond(c, p, root, d, i + 1, bs, bp, maximize);
        }
    }
}

/// When some move of the range beats the starting pair, the fold moves off
/// the out-of-range starting pond.
pub proof fn lemma_best_from_update(
    c: Seq<int>,
    p: Player,
    root: Player,
    d: nat,
    i: int,
    bs: int,
    maximize: bool,
)
    requires
        0 <= i <= 6,
        exists|j: int|
            i <= j < 6 && #[trigger] spec_valid_move(c, p, j) && spec_better(
                maximize,
                spec_move_value(c, p, root, d, j),
                j,
                bs,
                6,
            ),
    ensures
        spec_best_from(c, p, root, d, i, bs, 6, maximize).1 != 6,
    decreases 6 - i,
{
    let v = spec_move_value(c, p, root, d, i);
    if spec_valid_move(c, p, i) && spec_better(maximize, v, i, bs, 6) {
        lemma_best_from_pond(c, p, root, d, i + 1, v, i, maximize);
    } else {
        let j = choose|j: int|
            i <= j < 6 && #[trigger] spec_valid_move(c, p, j) && spec_better(
                maximize,
                spec_move_value(c, p, root, d, j),
                j,
                bs,
                6,
            );
        assert(j >= i + 1);
        lemma_best_from_update(c, p, root, d, i + 1, bs, maximize);
    }
}

/// At a running position the search always picks a valid move of the player
/// to move, its score is the value of that move, the score lies within the
/// board's total, and it equals the plain best move value of the row.
pub proof fn lemma_search_move_props(c: Seq<int>, p: Player, root: Player, d: nat)
    requires
        counts_ok(c),
        spec_row_total(c, p) > 0,
        spec_total(c) <= i32::MAX,
    ensures
        ({
            let (s, q) = spec_search_move(c, p, root, d);
            &&& 0 <= q < 6
            &&& spec_valid_move(c, p, q)
            &&& spec_move_value(c, p, root, d, q) == s
            &&& -spec_total(c) <= s <= spec_total(c)
            &&& s == spec_combine(
                p == root,
                spec_search_init(p == root).0,
                spec_range_best(c, p, root, d, 0, 6, p == root),
            )
        }),
{
    let maximize = (p == root);
    let init = spec_search_init(maximize).0;
    lemma_best_from_range(c, p, root, d, 0, init, 6, maximize);
    lemma_best_from_pond(c, p, root, d, 0, init, 6, maximize);
    lemma_range_bound(c, p, root, d, 0, 6, maximize);
    lemma_row_has_move(c, p);
    let j = choose|j: int| 0 <= j < 6 && #[trigger] spec_valid_move(c, p, j);
    lemma_move_value_bound(c, p, root, d, j);
    assert(spec_better(maximize, spec_move_value(c, p, root, d, j), j, init, 6));
    lemma_best_from_update(c, p, root, d, 0, init, maximize);
}

/// The full-window law behind the equivalence of the two searches: the
/// search score of a running position lies strictly inside the widest
/// window, so the fail-soft bounds that `AlphaBeta::alpha_beta` promises
/// collapse to an equality there, and both `MinMax::choose_depth` and
/// `AlphaBeta::alpha_beta` report exactly `spec_search_move(..).0` — the
/// same score at every depth.
pub proof fn lemma_searches_agree(c: Seq<int>, p: Player, root: Player, d: nat)
    requires
        counts_ok(c),
        spec_row_total(c, p) > 0,
        spec_total(c) <= i32::MAX,
    ensures
        spec_combine(true, i32::MIN as int, spec_search_move(c, p, root, d).0)
            == spec_search_move(c, p, root, d).0,
        spec_combine(false, i32::MAX as int, spec_search_move(c, p, root, d).0)
            == spec_search_move(c, p, root, d).0,
{
    lemma_search_move_props(c, p, root, d);
}

/// Splitting a range splits its best move value.
pub proof fn lemma_range_split(
    c: Seq<int>,
    p: Player,
    root: Player,
    d: nat,
    lo: int,
    mid: int,
    hi: int,
    maximize: bool,
)
    requires
        counts_ok(c),
        0 <= lo <= mid <= hi <= 6,
        spec_total(c) <= i32::MAX,
    ensures
        spec_range_best(c, p, root, d, lo, hi, maximize) == spec_combine(
            maximize,
            spec_range_best(c, p, root, d, lo, mid, maximize),
            spec_range_best(c, p, root, d, mid, hi, maximize),
        ),
    decreases mid - lo,
{
    if lo == mid {
        lemma_range_bound(c, p, root, d, mid, hi, maximize);
    } else {
        lemma_range_split(c, p, root, d, lo + 1, mid, hi, maximize);
    }
}

} // verus!
