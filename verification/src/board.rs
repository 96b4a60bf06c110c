use vstd::prelude::*;

use crate::error::Error;
use crate::player::Player;
use crate::pool::{Bank, Pond, Pool};
use crate::turn::Turn;
use crate::{PONDS_PER_PLAYER, TOTAL_POOLS};

verus! {

// ---------------------------------------------------------------------------
// Index arithmetic.
//
// The 14 pools sit in a fixed circular order: player A's six ponds at 0..=5,
// A's bank at 6, player B's six ponds at 7..=12, B's bank at 13.
// ---------------------------------------------------------------------------

/// The absolute index of `p`'s bank.
pub open spec fn spec_bank_idx(p: Player) -> int {
    if p is A {
        6
    } else {
        13
    }
}

/// The absolute index of the first pond of `p`'s row.
pub open spec fn spec_pond_base(p: Player) -> int {
    if p is A {
        0
    } else {
        7
    }
}

/// The absolute index of `p`'s pond number `pond`.
pub open spec fn spec_pool_idx(p: Player, pond: int) -> int {
    spec_pond_base(p) + pond
}

/// The pond directly opposite a pond: the mapping pairs each of A's ponds
/// with the matching pond of B, and is its own inverse.
pub open spec fn spec_opposite_idx(idx: int) -> int {
    12 - idx
}

/// The player that owns the pool at absolute index `i`.
pub open spec fn spec_owner(i: int) -> Player {
    if i <= 6 {
        Player::A
    } else {
        Player::B
    }
}

/// Whether absolute index `i` is one of the two banks.
pub open spec fn spec_is_bank(i: int) -> bool {
    i == 6 || i == 13
}

// ---------------------------------------------------------------------------
// The mathematical model of a board: a sequence of 14 seed counts.
// ---------------------------------------------------------------------------

/// A well-shaped model: 14 pools, none with a negative count.
pub open spec fn counts_ok(c: Seq<int>) -> bool {
    c.len() == 14 && (forall|i: int| 0 <= i < 14 ==> #[trigger] c[i] >= 0)
}

/// Seeds on the whole board, banks included.
pub open spec fn spec_total(c: Seq<int>) -> int {
    c[0] + c[1] + c[2] + c[3] + c[4] + c[5] + c[6] + c[7] + c[8] + c[9] + c[10] + c[11] + c[12]
        + c[13]
}

/// Seeds in `p`'s six ponds, bank excluded.
pub open spec fn spec_row_total(c: Seq<int>, p: Player) -> int {
    let b = spec_pond_base(p);
    c[b] + c[b + 1] + c[b + 2] + c[b + 3] + c[b + 4] + c[b + 5]
}

/// The board every game starts from: six seeds in each pond, empty banks.
pub open spec fn spec_initial_counts() -> Seq<int> {
    Seq::new(14, |i: int| if spec_is_bank(i) { 0 } else { 6 })
}

/// Whether `p` may sow from pond `pond` on board `c`.
pub open spec fn spec_valid_move(c: Seq<int>, p: Player, pond: int) -> bool {
    0 <= pond < 6 && c[spec_pool_idx(p, pond)] > 0
}

// ---------------------------------------------------------------------------
// The move itself, as a function on models: sow, capture, sweep.
// ---------------------------------------------------------------------------

/// The slot after `i` in sowing order for player `p`: one step clockwise,
/// stepping over the opponent's bank without spending a seed on it.
pub open spec fn spec_next_slot(p: Player, i: int) -> int {
    let j = (i + 1) % 14;
    if j == spec_bank_idx(p.next()) {
        (j + 1) % 14
    } else {
        j
    }
}

/// Drop `n` seeds one at a time into successive slots after `i`, skipping the
/// opponent's bank; yields the new counts and the slot the last seed landed in.
pub open spec fn spec_sow(c: Seq<int>, p: Player, i: int, n: nat) -> (Seq<int>, int)
    decreases n,
{
    if n == 0 {
        (c, i)
    } else {
        let j = spec_next_slot(p, i);
        spec_sow(c.update(j, c[j] + 1), p, j, (n - 1) as nat)
    }
}

/// Empty `p`'s pond `pond` and sow its seeds: the counts after sowing and the
/// landing slot.
pub open spec fn spec_sown(c: Seq<int>, p: Player, pond: int) -> (Seq<int>, int) {
    let src = spec_pool_idx(p, pond);
    spec_sow(c.update(src, 0), p, src, c[src] as nat)
}

/// The capture rule, applied to the counts `c` after sowing: if the last seed
/// landed in a pond owned by the mover that was empty before the move (so it
/// now holds exactly one seed), that seed and the whole opposite pond move to
/// the mover's bank; in every other case nothing happens.
pub open spec fn spec_capture(c: Seq<int>, p: Player, last: int) -> Seq<int> {
    if !spec_is_bank(last) && spec_owner(last) == p && c[last] == 1 {
        let bank = spec_bank_idx(p);
        let gain = c[last] + c[spec_opposite_idx(last)];
        c.update(last, 0).update(spec_opposite_idx(last), 0).update(bank, c[bank] + gain)
    } else {
        c
    }
}

/// Whether the game is over: one of the two rows of ponds is empty.
pub open spec fn spec_game_over(c: Seq<int>) -> bool {
    spec_row_total(c, Player::A) == 0 || spec_row_total(c, Player::B) == 0
}

/// The end-of-game sweep: when a player's row is empty, the seeds still in
/// the other player's row move into that other player's bank.
pub open spec fn spec_sweep(c: Seq<int>) -> Seq<int> {
    if spec_row_total(c, Player::A) == 0 {
        Seq::new(
            14,
            |i: int|
                if 7 <= i < 13 {
                    0
                } else if i == 13 {
                    c[13] + spec_row_total(c, Player::B)
                } else {
                    c[i]
                },
        )
    } else if spec_row_total(c, Player::B) == 0 {
        Seq::new(
            14,
            |i: int|
                if 0 <= i < 6 {
                    0
                } else if i == 6 {
                    c[6] + spec_row_total(c, Player::A)
                } else {
                    c[i]
                },
        )
    } else {
        c
    }
}

/// Counts after sowing and the capture rule, before the sweep.
pub open spec fn spec_after_capture(c: Seq<int>, p: Player, pond: int) -> Seq<int> {
    let (c1, last) = spec_sown(c, p, pond);
    spec_capture(c1, p, last)
}

/// The board a move by `p` from pond `pond` leaves behind.
pub open spec fn spec_choose_counts(c: Seq<int>, p: Player, pond: int) -> Seq<int> {
    spec_sweep(spec_after_capture(c, p, pond))
}

/// Whether the move ends the game.
pub open spec fn spec_choose_finished(c: Seq<int>, p: Player, pond: int) -> bool {
    spec_game_over(spec_after_capture(c, p, pond))
}

/// The turn a move by `p` from pond `pond` produces: the final result when
/// the move ends the game; the same player again when the last seed landed in
/// the mover's own bank; otherwise the opponent.
pub open spec fn spec_choose_turn(c: Seq<int>, p: Player, pond: int) -> Turn {
    let last = spec_sown(c, p, pond).1;
    let c2 = spec_after_capture(c, p, pond);
    if spec_game_over(c2) {
        let c3 = spec_sweep(c2);
        Turn::Finished(Turn::spec_game_result(c3[6] as u32, c3[13] as u32))
    } else if last == spec_bank_idx(p) {
        Turn::Player(p)
    } else {
        Turn::Player(p.spec_next())
    }
}

/// Seeds in the slots `lo..hi` of `c`.
pub open spec fn spec_sum_range(c: Seq<int>, lo: int, hi: int) -> int
    decreases hi - lo,
{
    if lo >= hi {
        0
    } else {
        c[lo] + spec_sum_range(c, lo + 1, hi)
    }
}

/// Sowing `n` seeds from slot `i` keeps every count non-negative, adds `n`
/// seeds to the board, never touches the opponent's bank, never lowers any
/// count, and lands somewhere other than the opponent's bank.
pub proof fn lemma_sow_basic(c: Seq<int>, p: Player, i: int, n: nat)
    requires
        counts_ok(c),
        0 <= i < 14,
        i != spec_bank_idx(p.spec_next()),
    ensures
        ({
            let (c2, last) = spec_sow(c, p, i, n);
            &&& counts_ok(c2)
            &&& 0 <= last < 14
            &&& last != spec_bank_idx(p.spec_next())
            &&& spec_total(c2) == spec_total(c) + n
            &&& c2[spec_bank_idx(p.spec_next())] == c[spec_bank_idx(p.spec_next())]
            &&& forall|k: int| 0 <= k < 14 ==> #[trigger] c2[k] >= c[k]
        }),
    decreases n,
{
    if n > 0 {
        let j = spec_next_slot(p, i);
        let c1 = c.update(j, c[j] + 1);
        assert(counts_ok(c1));
        lemma_sow_basic(c1, p, j, (n - 1) as nat);
    }
}

// ---------------------------------------------------------------------------
// The board itself.
// ---------------------------------------------------------------------------

/// The 14 pools in circular sowing order.
#[derive(Debug, PartialEq, Clone, Copy)]
pub struct Board {
    pub pools: [Pool; 14],
}

impl Board {
    /// Structural well-formedness: every slot holds the right kind of pool,
    /// owned by the right player.
    pub open spec fn wf(&self) -> bool {
        forall|i: int|
            0 <= i < 14 ==> (#[trigger] self.pools[i]).spec_player() == spec_owner(i) && (
            self.pools[i] is Bank <==> spec_is_bank(i))
    }

    /// The model of this board: its 14 seed counts.
    pub open spec fn counts(&self) -> Seq<int> {
        Seq::new(14, |i: int| self.pools[i].spec_count() as int)
    }

    /// A fresh board: six seeds in each pond, both banks empty.
    pub fn new() -> (r: Board)
        ensures
            r.wf(),
            r.counts() == spec_initial_counts(),
            spec_total(r.counts()) == 72,
    {
        let pools = [
            Pool::new_pond(Player::A),
            Pool::new_pond(Player::A),
            Pool::new_pond(Player::A),
            Pool::new_pond(Player::A),
            Pool::new_pond(Player::A),
            Pool::new_pond(Player::A),
            Pool::new_bank(Player::A),
            Pool::new_pond(Player::B),
            Pool::new_pond(Player::B),
            Pool::new_pond(Player::B),
            Pool::new_pond(Player::B),
            Pool::new_pond(Player::B),
            Pool::new_pond(Player::B),
            Pool::new_bank(Player::B),
        ];
        let board = Board { pools };
        proof {
            assert(board.counts() =~= spec_initial_counts());
        }
        board
    }

    fn pool_idx(&self, player: &Player, pond: usize) -> (r: usize)
        requires
            pond < 6,
        ensures
            r == spec_pool_idx(*player, pond as int),
    {
        match *player {
            Player::A => pond,
            Player::B => pond + 7,
        }
    }

    fn bank_idx(&self, player: &Player) -> (r: usize)
        ensures
            r == spec_bank_idx(*player),
    {
        match *player {
            Player::A => 6,
            Player::B => 13,
        }
    }

    pub(crate) fn bank_count(&self, player: &Player) -> (r: u32)
        ensures
            r as int == self.counts()[spec_bank_idx(*player)],
    {
        let b = self.bank_idx(player);
        self.pools[b].count()
    }

    fn row_count(&self, player: &Player) -> (r: u32)
        requires
            spec_total(self.counts()) <= u32::MAX,
        ensures
            r as int == spec_row_total(self.counts(), *player),
    {
        let base: usize = match *player {
            Player::A => 0,
            Player::B => 7,
        };
        let s: u64 = self.pools[base].count() as u64 + self.pools[base + 1].count() as u64
            + self.pools[base + 2].count() as u64 + self.pools[base + 3].count() as u64
            + self.pools[base + 4].count() as u64 + self.pools[base + 5].count() as u64;
        proof {
            assert(s as int == spec_row_total(self.counts(), *player));
            assert(s as int <= spec_total(self.counts()));
        }
        s as u32
    }

    /// Move every seed of `player`'s row into `player`'s own bank.
    fn sweep_into(&mut self, player: &Player)
        requires
            old(self).wf(),
            spec_total(old(self).counts()) <= u32::MAX,
        ensures
            final(self).wf(),
            spec_total(final(self).counts()) == spec_total(old(self).counts()),
            final(self).counts() == (Seq::new(
                14,
                |i: int|
                    if spec_pond_base(*player) <= i < spec_pond_base(*player) + 6 {
                        0
                    } else if i == spec_bank_idx(*player) {
                        old(self).counts()[spec_bank_idx(*player)] + spec_row_total(
                            old(self).counts(),
                            *player,
                        )
                    } else {
                        old(self).counts()[i]
                    },
            )),
    {
        let ghost c0 = self.counts();
        let base: usize = match *player {
            Player::A => 0,
            Player::B => 7,
        };
        proof {
            reveal_with_fuel(spec_sum_range, 7);
            assert(spec_sum_range(c0, base as int, base + 6) == spec_row_total(c0, *player));
        }
        let mut add_to_bank: u32 = 0;
        let mut i: usize = base;
        while i < base + 6
            invariant
                self.wf(),
                base == spec_pond_base(*player),
                base <= i <= base + 6,
                spec_total(c0) <= u32::MAX,
                add_to_bank as int + spec_sum_range(c0, i as int, base + 6) == spec_row_total(
                    c0,
                    *player,
                ),
                forall|m: int|
                    0 <= m < 14 && !(base <= m < i) ==> #[trigger] self.counts()[m] == c0[m],
                forall|m: int| base <= m < i ==> #[trigger] self.counts()[m] == 0,
                spec_total(self.counts()) + add_to_bank == spec_total(c0),
            decreases base + 6 - i,
        {
            let ghost cprev = self.counts();
            let mut cur = self.pools[i];
            let taken = cur.take();
            self.pools[i] = cur;
            proof {
                assert(self.counts() =~= cprev.update(i as int, 0));
                assert(spec_row_total(c0, *player) <= spec_total(c0));
            }
            add_to_bank = add_to_bank + taken;
            i = i + 1;
        }
        if add_to_bank > 0 {
            let ghost cmid = self.counts();
            let b = self.bank_idx(player);
            let mut bank_pool = self.pools[b];
            match bank_pool {
                Pool::Bank(bk) => {
                    proof {
                        assert(cmid[b as int] + add_to_bank <= spec_total(c0));
                    }
                    self.pools[b] = Pool::Bank(
                        Bank { player: bk.player, count: bk.count + add_to_bank },
                    );
                },
                Pool::Pond(_) => {
                    proof {
                        assert(false);
                    }
                },
            }
            proof {
                assert(self.counts() =~= cmid.update(
                    spec_bank_idx(*player),
                    cmid[spec_bank_idx(*player)] + add_to_bank,
                ));
            }
        }
        proof {
            assert(self.counts() =~= Seq::new(
                14,
                |i: int|
                    if spec_pond_base(*player) <= i < spec_pond_base(*player) + 6 {
                        0
                    } else if i == spec_bank_idx(*player) {
                        c0[spec_bank_idx(*player)] + spec_row_total(c0, *player)
                    } else {
                        c0[i]
                    },
            ));
        }
    }

    /// Run the termination rule: when either row of ponds is empty, sweep the
    /// other row into its owner's bank and report that the game is over.
    fn handle_finish(&mut self) -> (finished: bool)
        requires
            old(self).wf(),
            spec_total(old(self).counts()) <= u32::MAX,
        ensures
            final(self).wf(),
            final(self).counts() == spec_sweep(old(self).counts()),
            finished == spec_game_over(old(self).counts()),
            spec_total(final(self).counts()) == spec_total(old(self).counts()),
    {
        let ghost c0 = self.counts();
        if self.row_count(&Player::A) == 0 {
            self.sweep_into(&Player::B);
            proof {
                assert(self.counts() =~= spec_sweep(c0));
            }
            true
        } else if self.row_count(&Player::B) == 0 {
            self.sweep_into(&Player::A);
            proof {
                assert(self.counts() =~= spec_sweep(c0));
            }
            true
        } else {
            false
        }
    }

    /// Check whether `player` may sow from pond `pond`: rejects an index
    /// outside the row, then an empty pond.
    pub fn valid_move(&self, player: &Player, pond: usize) -> (r: Result<(), Error>)
        ensures
            r is Ok <==> spec_valid_move(self.counts(), *player, pond as int),
            pond >= 6 ==> r == Err::<(), Error>(Error::InvalidIndex),
            pond < 6 && self.counts()[spec_pool_idx(*player, pond as int)] == 0 ==> r == Err::<
                (),
                Error,
            >(Error::EmptyPool),
    {
        if pond >= PONDS_PER_PLAYER {
            Err(Error::InvalidIndex)
        } else if self.pools[self.pool_idx(player, pond)].count() == 0 {
            Err(Error::EmptyPool)
        } else {
            Ok(())
        }
    }

    fn next_turn(&self, current_player: &Player, last_idx: usize, finished: bool) -> (r: Turn)
        requires
            self.wf(),
            last_idx < 14,
        ensures
            finished ==> r == (Turn::Finished(
                Turn::spec_game_result(self.counts()[6] as u32, self.counts()[13] as u32),
            )),
            !finished && self.pools[last_idx as int] is Bank ==> r == (Turn::Player(
                *current_player,
            )),
            !finished && self.pools[last_idx as int] is Pond ==> r == (Turn::Player(
                current_player.spec_next(),
            )),
    {
        if finished {
            let a_count = self.bank_count(&Player::A);
            let b_count = self.bank_count(&Player::B);
            Turn::new_finished(a_count, b_count)
        } else {
            match self.pools[last_idx] {
                Pool::Pond(_) => Turn::Player(current_player.next()),
                Pool::Bank(_) => Turn::Player(*current_player),
            }
        }
    }

    /// Empty `player`'s pond `pond` and sow its seeds clockwise, one per
    /// slot, skipping the opponent's bank; returns the slot the last seed
    /// landed in.
    fn sow_from(&mut self, player: &Player, pond: usize) -> (last: usize)
        requires
            old(self).wf(),
            spec_valid_move(old(self).counts(), *player, pond as int),
            spec_total(old(self).counts()) <= u32::MAX,
        ensures
            final(self).wf(),
            final(self).counts() == spec_sown(old(self).counts(), *player, pond as int).0,
            last as int == spec_sown(old(self).counts(), *player, pond as int).1,
            last < 14,
            last as int != spec_bank_idx(player.spec_next()),
            spec_total(final(self).counts()) == spec_total(old(self).counts()),
    {
        let ghost c0 = self.counts();
        let ghost p = *player;
        let src = self.pool_idx(player, pond);
        let mut cur = self.pools[src];
        let count0 = cur.take();
        self.pools[src] = cur;
        let ghost cstart = self.counts();
        proof {
            assert(cstart =~= c0.update(src as int, 0));
        }
        let opp = player.next();
        let opp_bank = self.bank_idx(&opp);
        let mut idx = src;
        let mut count = count0;
        while count > 0
            invariant
                self.wf(),
                opp_bank == spec_bank_idx(p.spec_next()),
                0 <= idx < 14,
                idx as int != spec_bank_idx(p.spec_next()),
                spec_sow(self.counts(), p, idx as int, count as nat) == spec_sow(
                    cstart,
                    p,
                    src as int,
                    count0 as nat,
                ),
                spec_total(self.counts()) + count == spec_total(c0),
                spec_total(c0) <= u32::MAX,
            decreases count,
        {
            let ghost cprev = self.counts();
            let ghost iprev = idx as int;
            idx = (idx + 1) % TOTAL_POOLS;
            if idx == opp_bank {
                idx = (idx + 1) % TOTAL_POOLS;
            }
            proof {
                assert(idx as int == spec_next_slot(p, iprev));
            }
            let cur = self.pools[idx];
            proof {
                assert(self.counts()[idx as int] < spec_total(c0));
            }
            match cur {
                Pool::Pond(pd) => {
                    self.pools[idx] = Pool::Pond(Pond { player: pd.player, count: pd.count + 1 });
                },
                Pool::Bank(bk) => {
                    self.pools[idx] = Pool::Bank(Bank { player: bk.player, count: bk.count + 1 });
                },
            }
            count = count - 1;
            proof {
                assert(self.counts() =~= cprev.update(idx as int, cprev[idx as int] + 1));
            }
        }
        proof {
            assert((self.counts(), idx as int) == spec_sown(c0, p, pond as int));
        }
        idx
    }

    /// Apply the capture rule to the slot the last seed landed in.
    fn apply_capture(&mut self, player: &Player, last: usize)
        requires
            old(self).wf(),
            last < 14,
            last as int != spec_bank_idx(player.spec_next()),
            spec_total(old(self).counts()) <= u32::MAX,
        ensures
            final(self).wf(),
            final(self).counts() == spec_capture(old(self).counts(), *player, last as int),
            spec_total(final(self).counts()) == spec_total(old(self).counts()),
    {
        let ghost c1 = self.counts();
        let ghost p = *player;
        let mut capture: u32 = 0;
        let cur = self.pools[last];
        match cur {
            Pool::Pond(pd) => {
                if pd.player == *player && pd.count == 1 {
                    let mut emptied = cur;
                    capture = emptied.take();
                    self.pools[last] = emptied;
                }
            },
            Pool::Bank(_) => {},
        }
        if capture > 0 {
            let opp_idx = 12 - last;
            let mut opp_pool = self.pools[opp_idx];
            let gained = opp_pool.take();
            self.pools[opp_idx] = opp_pool;
            let b = self.bank_idx(player);
            let bank_pool = self.pools[b];
            proof {
                assert(last as int != spec_bank_idx(p) && opp_idx as int != spec_bank_idx(p)
                    && last != opp_idx);
            }
            match bank_pool {
                Pool::Bank(bk) => {
                    proof {
                        assert(bk.count + capture + gained <= spec_total(c1));
                    }
                    self.pools[b] = Pool::Bank(
                        Bank { player: bk.player, count: bk.count + capture + gained },
                    );
                },
                Pool::Pond(_) => {
                    proof {
                        assert(false);
                    }
                },
            }
        }
        proof {
            assert(self.counts() =~= spec_capture(c1, p, last as int));
        }
    }

    /// Execute the move `player` sows from pond `pond`: empty the pond, sow
    /// its seeds clockwise (skipping the opponent's bank), apply the capture
    /// rule to the landing slot, run the termination rule, and report the
    /// next turn. Callers must have validated the move first.
    pub fn choose_pond(&mut self, player: &Player, pond: usize) -> (r: Turn)
        requires
            old(self).wf(),
            spec_valid_move(old(self).counts(), *player, pond as int),
            spec_total(old(self).counts()) <= u32::MAX,
        ensures
            final(self).wf(),
            final(self).counts() == spec_choose_counts(old(self).counts(), *player, pond as int),
            r == spec_choose_turn(old(self).counts(), *player, pond as int),
            spec_total(final(self).counts()) == spec_total(old(self).counts()),
            r is Finished <==> spec_choose_finished(old(self).counts(), *player, pond as int),
            !spec_choose_finished(old(self).counts(), *player, pond as int) ==> spec_row_total(
                final(self).counts(),
                Player::A,
            ) > 0 && spec_row_total(final(self).counts(), Player::B) > 0,
            spec_choose_finished(old(self).counts(), *player, pond as int) ==> spec_row_total(
                final(self).counts(),
                Player::A,
            ) == 0 && spec_row_total(final(self).counts(), Player::B) == 0 && final(self).counts()[6]
                + final(self).counts()[13] == spec_total(old(self).counts()),
    {
        let ghost c0 = self.counts();
        let ghost p = *player;
        let last = self.sow_from(player, pond);
        self.apply_capture(player, last);
        proof {
            lemma_capture_props(spec_sown(c0, p, pond as int).0, p, last as int);
            assert(self.counts() == spec_after_capture(c0, p, pond as int));
        }
        let finished = self.handle_finish();
        proof {
            lemma_sweep_props(spec_after_capture(c0, p, pond as int));
            assert(self.counts() == spec_choose_counts(c0, p, pond as int));
        }
        let r = self.next_turn(player, last, finished);
        proof {
            if !finished {
                assert(self.pools[last as int] is Bank <==> last as int == spec_bank_idx(p));
            }
            assert(r == spec_choose_turn(c0, p, pond as int));
        }
        r
    }
}

/// The capture rule moves seeds only between pools: the total is conserved
/// and no count turns negative.
pub proof fn lemma_capture_props(c: Seq<int>, p: Player, last: int)
    requires
        counts_ok(c),
        0 <= last < 14,
        last != spec_bank_idx(p.spec_next()),
    ensures
        counts_ok(spec_capture(c, p, last)),
        spec_total(spec_capture(c, p, last)) == spec_total(c),
{
}

/// The end-of-game sweep conserves the total; once the game is over it
/// leaves both rows empty, so the two banks hold the whole board between
/// them, and while the game runs it changes nothing.
pub proof fn lemma_sweep_props(c: Seq<int>)
    requires
        counts_ok(c),
    ensures
        counts_ok(spec_sweep(c)),
        spec_total(spec_sweep(c)) == spec_total(c),
        spec_game_over(c) ==> spec_row_total(spec_sweep(c), Player::A) == 0 && spec_row_total(
            spec_sweep(c),
            Player::B,
        ) == 0 && spec_sweep(c)[6] + spec_sweep(c)[13] == spec_total(c),
        !spec_game_over(c) ==> spec_sweep(c) == c,
{
}

/// A move from a valid position leads to another well-shaped position: the
/// counts stay non-negative, the total is conserved, and when the game goes
/// on both rows are again non-empty.
pub proof fn lemma_step_ok(c: Seq<int>, p: Player, pond: int)
    requires
        counts_ok(c),
        spec_valid_move(c, p, pond),
    ensures
        counts_ok(spec_choose_counts(c, p, pond)),
        spec_total(spec_choose_counts(c, p, pond)) == spec_total(c),
        spec_choose_turn(c, p, pond) matches Turn::Player(_) ==> spec_row_total(
            spec_choose_counts(c, p, pond),
            Player::A,
        ) > 0 && spec_row_total(spec_choose_counts(c, p, pond), Player::B) > 0,
        (spec_choose_turn(c, p, pond) matches Turn::Player(_)) <==> !spec_choose_finished(
            c,
            p,
            pond,
        ),
{
    let src = spec_pool_idx(p, pond);
    lemma_sow_basic(c.update(src, 0), p, src, c[src] as nat);
    lemma_capture_props(spec_sown(c, p, pond).0, p, spec_sown(c, p, pond).1);
    lemma_sweep_props(spec_after_capture(c, p, pond));
}

/// A row that still holds seeds offers at least one valid move.
pub proof fn lemma_row_has_move(c: Seq<int>, p: Player)
    requires
        counts_ok(c),
        spec_row_total(c, p) > 0,
    ensures
        exists|j: int| 0 <= j < 6 && #[trigger] spec_valid_move(c, p, j),
{
    let b = spec_pond_base(p);
    if c[b] > 0 {
        assert(spec_valid_move(c, p, 0));
    } else if c[b + 1] > 0 {
        assert(spec_valid_move(c, p, 1));
    } else if c[b + 2] > 0 {
        assert(spec_valid_move(c, p, 2));
    } else if c[b + 3] > 0 {
        assert(spec_valid_move(c, p, 3));
    } else if c[b + 4] > 0 {
        assert(spec_valid_move(c, p, 4));
    } else {
        assert(spec_valid_move(c, p, 5));
    }
}


/// The position of a landable slot in player `p`'s 13-slot sowing ring:
/// every slot except the opponent's bank, numbered in sowing order.
pub open spec fn spec_ring(p: Player, i: int) -> int {
    if p is A {
        i
    } else {
        if i < 6 {
            i
        } else {
            i - 1
        }
    }
}

/// How many seeds a sow starting after `s` must drop for the last one to
/// fall in `k`: between 1 and a full lap of 13.
pub open spec fn spec_dist(p: Player, s: int, k: int) -> int {
    if spec_ring(p, k) > spec_ring(p, s) {
        spec_ring(p, k) - spec_ring(p, s)
    } else {
        spec_ring(p, k) - spec_ring(p, s) + 13
    }
}

/// Stepping to the next slot moves one position along the sowing ring.
proof fn lemma_next_slot_ring(p: Player, i: int)
    requires
        0 <= i < 14,
        i != spec_bank_idx(p.spec_next()),
    ensures
        0 <= spec_next_slot(p, i) < 14,
        spec_next_slot(p, i) != spec_bank_idx(p.spec_next()),
        spec_ring(p, spec_next_slot(p, i)) == (if spec_ring(p, i) == 12 {
            0int
        } else {
            spec_ring(p, i) + 1
        }),
        0 <= spec_ring(p, i) < 13,
{
}

/// How the landing distance to each slot changes over one sowing step: the
/// next slot is one seed away, a full lap brings the sow back to it, and
/// every other slot moves one seed closer.
proof fn lemma_dist_step(p: Player, s: int, k: int)
    requires
        0 <= s < 14,
        s != spec_bank_idx(p.spec_next()),
        0 <= k < 14,
        k != spec_bank_idx(p.spec_next()),
    ensures
        ({
            let j = spec_next_slot(p, s);
            &&& spec_dist(p, s, j) == 1
            &&& spec_dist(p, j, j) == 13
            &&& (k != j ==> spec_dist(p, j, k) == spec_dist(p, s, k) - 1 && 2 <= spec_dist(p, s, k)
                <= 13)
            &&& 1 <= spec_dist(p, s, k) <= 13
        }),
{
    lemma_next_slot_ring(p, s);
    lemma_next_slot_ring(p, k);
    if k != spec_next_slot(p, s) {
        assert(spec_ring(p, k) != spec_ring(p, spec_next_slot(p, s)));
    }
}

/// Sowing at most one lap: each landable slot gains exactly one seed when
/// it lies within the first `n` steps after `s` and nothing otherwise, the
/// opponent's bank gains nothing, and the last seed falls `n` steps after
/// `s`.
#[verifier::rlimit(100)]
pub proof fn lemma_sow_lap(c: Seq<int>, p: Player, s: int, n: nat)
    requires
        c.len() == 14,
        0 <= s < 14,
        s != spec_bank_idx(p.spec_next()),
        n <= 13,
    ensures
        ({
            let (c2, last) = spec_sow(c, p, s, n);
            &&& forall|k: int|
                0 <= k < 14 && k != spec_bank_idx(p.spec_next()) ==> #[trigger] c2[k] == c[k] + (
                if spec_dist(p, s, k) <= n {
                    1int
                } else {
                    0int
                })
            &&& c2[spec_bank_idx(p.spec_next())] == c[spec_bank_idx(p.spec_next())]
            &&& (n >= 1 ==> spec_dist(p, s, last) == n)
            &&& (n == 0 ==> last == s)
        }),
    decreases n,
{
    if n > 0 {
        let j = spec_next_slot(p, s);
        lemma_next_slot_ring(p, s);
        let c1 = c.update(j, c[j] + 1);
        lemma_sow_lap(c1, p, j, (n - 1) as nat);
        let (c2, last) = spec_sow(c, p, s, n);
        lemma_dist_step(p, s, j);
        assert forall|k: int|
            0 <= k < 14 && k != spec_bank_idx(p.spec_next()) && k != j implies spec_dist(p, j, k)
            == spec_dist(p, s, k) - 1 && spec_dist(p, s, k) >= 2 by {
            lemma_dist_step(p, s, k);
        }
        assert forall|k: int|
            0 <= k < 14 && k != spec_bank_idx(p.spec_next()) implies #[trigger] c2[k] == c[k] + (
        if spec_dist(p, s, k) <= n {
            1int
        } else {
            0int
        }) by {
            assert(c2[k] == c1[k] + (
            if spec_dist(p, j, k) <= n - 1 {
                1int
            } else {
                0int
            }));
        }
        if n >= 2 {
            assert(spec_dist(p, j, last) == n - 1);
            lemma_sow_basic_shape(c1, p, j, (n - 1) as nat);
            lemma_dist_step(p, s, last);
        }
    }
}

/// The opponent-bank skip law: a full lap of 13 seeds deposits exactly one
/// seed in every pool except the opponent's bank, which receives nothing,
/// and the last seed falls back in the starting slot — so sowing 13 seeds
/// or more never gives any pool a second seed before every other landable
/// pool has received one.
pub proof fn lemma_sow_full_lap(c: Seq<int>, p: Player, s: int)
    requires
        c.len() == 14,
        0 <= s < 14,
        s != spec_bank_idx(p.spec_next()),
    ensures
        ({
            let (c2, last) = spec_sow(c, p, s, 13);
            &&& forall|k: int|
                0 <= k < 14 && k != spec_bank_idx(p.spec_next()) ==> #[trigger] c2[k] == c[k] + 1
            &&& c2[spec_bank_idx(p.spec_next())] == c[spec_bank_idx(p.spec_next())]
            &&& last == s
        }),
{
    lemma_sow_lap(c, p, s, 13);
    let (c2, last) = spec_sow(c, p, s, 13);
    assert forall|k: int|
        0 <= k < 14 && k != spec_bank_idx(p.spec_next()) implies spec_dist(p, s, k) <= 13 by {
        lemma_dist_step(p, s, k);
    }
    lemma_sow_basic_shape(c, p, s, 13);
    assert(spec_dist(p, s, last) == 13);
    lemma_next_slot_ring(p, last);
    assert(spec_ring(p, last) == spec_ring(p, s));
    assert(last == s);
}

/// Sowing stays on the board and away from the opponent's bank.
proof fn lemma_sow_basic_shape(c: Seq<int>, p: Player, i: int, n: nat)
    requires
        0 <= i < 14,
        i != spec_bank_idx(p.spec_next()),
    ensures
        0 <= spec_sow(c, p, i, n).1 < 14,
        spec_sow(c, p, i, n).1 != spec_bank_idx(p.spec_next()),
    decreases n,
{
    if n > 0 {
        let j = spec_next_slot(p, i);
        lemma_next_slot_ring(p, i);
        lemma_sow_basic_shape(c.update(j, c[j] + 1), p, j, (n - 1) as nat);
    }
}

/// The capture trigger law: the move captures exactly when the last seed
/// landed in a pond the mover owns that was empty before (it holds exactly
/// one seed now). Then that seed and the whole opposite pond move to the
/// mover's bank and both ponds are left empty; in every other case the
/// capture stage leaves the board untouched.
pub proof fn lemma_capture_trigger(c: Seq<int>, p: Player, last: int)
    requires
        c.len() == 14,
        0 <= last < 14,
    ensures
        (!spec_is_bank(last) && spec_owner(last) == p && c[last] == 1) ==> ({
            let c2 = spec_capture(c, p, last);
            &&& c2[last] == 0
            &&& c2[spec_opposite_idx(last)] == 0
            &&& c2[spec_bank_idx(p)] == c[spec_bank_idx(p)] + c[last] + c[spec_opposite_idx(last)]
            &&& forall|k: int|
                0 <= k < 14 && k != last && k != spec_opposite_idx(last) && k != spec_bank_idx(p)
                    ==> #[trigger] c2[k] == c[k]
        }),
        !(!spec_is_bank(last) && spec_owner(last) == p && c[last] == 1) ==> spec_capture(
            c,
            p,
            last,
        ) == c,
{
}

/// The free-turn law: while the game goes on, the mover keeps the turn
/// exactly when the last sown seed fell in their own bank; landing anywhere
/// else passes the turn to the opponent.
pub proof fn lemma_free_turn(c: Seq<int>, p: Player, pond: int)
    requires
        counts_ok(c),
        spec_valid_move(c, p, pond),
        !spec_choose_finished(c, p, pond),
    ensures
        spec_sown(c, p, pond).1 == spec_bank_idx(p) ==> spec_choose_turn(c, p, pond) == (
        Turn::Player(p)),
        spec_sown(c, p, pond).1 != spec_bank_idx(p) ==> spec_choose_turn(c, p, pond) == (
        Turn::Player(p.spec_next())),
{
}

} // verus!
