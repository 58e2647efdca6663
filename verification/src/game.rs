use vstd::prelude::*;
use crate::factory::Factory;
use crate::player::{
    lemma_marker_counts, lemma_take_counts, PlayerModel,
    floor_markers_upto, lemma_fresh_counts, lemma_player_tiles_nonneg, player_tiles, Player,
};
use crate::sampler::random_pick_map;
use crate::tiles::{bag_total, color_idx, CeramicTile, TileBag};

verus! {

/// Tiles on the first `u` factory displays.
pub open spec fn factories_tiles_upto(fs: Seq<Factory>, u: int) -> int
    decreases u,
{
    if u <= 0 {
        0
    } else {
        factories_tiles_upto(fs, u - 1) + bag_total(fs[u - 1].stock@)
    }
}

/// Tiles on the first `u` players' boards.
pub open spec fn players_tiles_upto(ps: Seq<Player>, u: int) -> int
    decreases u,
{
    if u <= 0 {
        0
    } else {
        players_tiles_upto(ps, u - 1) + player_tiles(ps[u - 1]@)
    }
}

/// Tiles of color index `ci` on the first `u` factory displays.
pub open spec fn factories_color_upto(fs: Seq<Factory>, u: int, ci: int) -> int
    decreases u,
{
    if u <= 0 {
        0
    } else {
        factories_color_upto(fs, u - 1, ci) + fs[u - 1].stock@[ci]
    }
}

/// Tiles of color index `ci` that resolving the first `u` boards discards.
pub open spec fn players_trash_upto(ps: Seq<Player>, u: int, ci: int) -> int
    decreases u,
{
    if u <= 0 {
        0
    } else {
        players_trash_upto(ps, u - 1, ci) + ps[u - 1]@.liq_trash_at(ci)
    }
}

proof fn lemma_factories_color_update(fs: Seq<Factory>, k: int, f: Factory, u: int, ci: int)
    requires
        0 <= k < fs.len(),
        0 <= u <= fs.len(),
    ensures
        factories_color_upto(fs.update(k, f), u, ci) == factories_color_upto(fs, u, ci) + if k
            < u {
            f.stock@[ci] - fs[k].stock@[ci]
        } else {
            0int
        },
    decreases u,
{
    if u > 0 {
        lemma_factories_color_update(fs, k, f, u - 1, ci);
    }
}

/// Displays that all stand empty hold no tiles of any one color either.
proof fn lemma_factories_color_zero(fs: Seq<Factory>, u: int, ci: int)
    requires
        0 <= ci < 5,
        u <= fs.len(),
        forall|k: int| 0 <= k < fs.len() ==> bag_total((#[trigger] fs[k]).stock@) == 0,
    ensures
        factories_color_upto(fs, u, ci) == 0,
    decreases u,
{
    if u > 0 {
        lemma_factories_color_zero(fs, u - 1, ci);
    }
}

/// First-player markers on the first `u` players' floor lines.
pub open spec fn players_markers_upto(ps: Seq<Player>, u: int) -> int
    decreases u,
{
    if u <= 0 {
        0
    } else {
        players_markers_upto(ps, u - 1) + floor_markers_upto(
            ps[u - 1]@.floor,
            ps[u - 1]@.floor.len() as int,
        )
    }
}

proof fn lemma_factories_tiles_nonneg(fs: Seq<Factory>, u: int)
    ensures
        0 <= factories_tiles_upto(fs, u),
    decreases u,
{
    if u > 0 {
        lemma_factories_tiles_nonneg(fs, u - 1);
    }
}

proof fn lemma_players_tiles_nonneg(ps: Seq<Player>, u: int)
    ensures
        0 <= players_tiles_upto(ps, u),
    decreases u,
{
    if u > 0 {
        lemma_players_tiles_nonneg(ps, u - 1);
        lemma_player_tiles_nonneg(ps[u - 1]@);
    }
}

/// Two rosters that agree on their first `u` players count alike there.
proof fn lemma_players_agree(ps: Seq<Player>, qs: Seq<Player>, u: int)
    requires
        forall|k: int| 0 <= k < u ==> ps[k] == qs[k],
    ensures
        players_tiles_upto(ps, u) == players_tiles_upto(qs, u),
        players_markers_upto(ps, u) == players_markers_upto(qs, u),
    decreases u,
{
    if u > 0 {
        lemma_players_agree(ps, qs, u - 1);
    }
}

/// Replacing one player changes the roster's counts by that player's own
/// difference.
proof fn lemma_players_update(ps: Seq<Player>, k: int, p: Player, u: int)
    requires
        0 <= k < ps.len(),
        0 <= u <= ps.len(),
    ensures
        players_tiles_upto(ps.update(k, p), u) == players_tiles_upto(ps, u) + if k < u {
            player_tiles(p@) - player_tiles(ps[k]@)
        } else {
            0int
        },
        players_markers_upto(ps.update(k, p), u) == players_markers_upto(ps, u) + if k < u {
            floor_markers_upto(p@.floor, p@.floor.len() as int) - floor_markers_upto(
                ps[k]@.floor,
                ps[k]@.floor.len() as int,
            )
        } else {
            0int
        },
    decreases u,
{
    if u > 0 {
        lemma_players_update(ps, k, p, u - 1);
    }
}

proof fn lemma_factories_update(fs: Seq<Factory>, k: int, f: Factory, u: int)
    requires
        0 <= k < fs.len(),
        0 <= u <= fs.len(),
    ensures
        factories_tiles_upto(fs.update(k, f), u) == factories_tiles_upto(fs, u) + if k < u {
            bag_total(f.stock@) - bag_total(fs[k].stock@)
        } else {
            0int
        },
    decreases u,
{
    if u > 0 {
        lemma_factories_update(fs, k, f, u - 1);
    }
}

/// Displays that all stand empty hold no tiles in sum.
proof fn lemma_factories_tiles_zero(fs: Seq<Factory>, u: int)
    requires
        u <= fs.len(),
        forall|k: int| 0 <= k < fs.len() ==> bag_total((#[trigger] fs[k]).stock@) == 0,
    ensures
        factories_tiles_upto(fs, u) == 0,
    decreases u,
{
    if u > 0 {
        lemma_factories_tiles_zero(fs, u - 1);
    }
}

/// The match controller: turn order, the shared displays and center pool, the
/// tile supply and every player's board.
#[verifier::ext_equal]
pub struct Game {
    pub current_player: usize,
    /// Who drafted first from the center this round; also the next round's
    /// starting player. `None` while the first-player marker is unclaimed.
    pub first_flag: Option<usize>,
    pub players: Vec<Player>,
    pub factories: Vec<Factory>,
    /// The discard pile.
    pub trash: TileBag,
    /// The draw bag.
    pub available: TileBag,
    /// The center pool.
    pub public_area: TileBag,
    pub ended: bool,
}

impl Game {
    /// Every tile of the match, wherever it sits: draw bag, discard pile,
    /// center pool, factory displays, or a player's board.
    pub open spec fn game_tiles(self) -> int {
        self.available.total() + self.trash.total() + self.public_area.total()
            + factories_tiles_upto(self.factories@, self.factories@.len() as int)
            + players_tiles_upto(self.players@, self.players@.len() as int)
    }

    /// First-player markers on all floor lines together.
    pub open spec fn marker_count(self) -> int {
        players_markers_upto(self.players@, self.players@.len() as int)
    }

    pub open spec fn wf(self) -> bool {
        &&& self.available.wf()
        &&& self.trash.wf()
        &&& self.public_area.wf()
        &&& forall|k: int| 0 <= k < self.players@.len() ==> (#[trigger] self.players@[k])@.wf()
        &&& forall|k: int| 0 <= k < self.factories@.len() ==> (#[trigger] self.factories@[k]).wf()
        &&& forall|k: int| 0 <= k < self.factories@.len() ==> (#[trigger] self.factories@[k]).no == k
        &&& self.game_tiles() <= u32::MAX
    }

    /// A match still being set up: no factories yet, no marker claimed, and no
    /// draft taken.
    pub open spec fn setup_ok(self) -> bool {
        &&& self.wf()
        &&& self.factories@.len() == 0
        &&& self.first_flag is None
        &&& self.current_player == 0
        &&& !self.ended
        &&& self.marker_count() == 0
    }

    /// A match under way. While it runs, the boards hold exactly one
    /// first-player marker when some player has claimed it this round, and
    /// none while it still lies in the center: no draft can duplicate it.
    pub open spec fn ready(self) -> bool {
        &&& self.wf()
        &&& (self.players@.len() == 2 || self.players@.len() == 3)
        &&& self.factories@.len() == (if self.players@.len() == 2 {
            5int
        } else {
            7int
        })
        &&& (self.current_player as int) < self.players@.len()
        &&& (self.first_flag is Some ==> (self.first_flag.unwrap() as int) < self.players@.len())
        &&& (!self.ended ==> self.marker_count() == (if self.first_flag is Some {
            1int
        } else {
            0int
        }))
    }

    /// Nothing is left to draft: every display and the center pool are empty
    /// (the marker alone does not keep a round alive).
    pub open spec fn supply_exhausted(self) -> bool {
        &&& forall|k: int|
            0 <= k < self.factories@.len() ==> bag_total(
                (#[trigger] self.factories@[k]).stock@,
            ) == 0
        &&& self.public_area.total() == 0
    }

    /// A match over a supply of `per_color` tiles of each of the five colors,
    /// with no players registered yet.
    pub fn with_tiles_per_color(per_color: u32) -> (g: Game)
        requires
            5 * per_color <= u32::MAX,
        ensures
            g.setup_ok(),
            g.players@.len() == 0,
            g.game_tiles() == 5 * per_color,
            g.trash.total() == 0,
            g.public_area.total() == 0,
            forall|i: int| 0 <= i < 5 ==> g.available@[i] == per_color,
            g.available.total() == 5 * per_color,
    {
        let g = Game {
            current_player: 0,
            first_flag: None,
            players: Vec::new(),
            factories: Vec::new(),
            trash: TileBag::new(),
            available: TileBag::uniform(per_color),
            public_area: TileBag::new(),
            ended: false,
        };
        g
    }

    /// A match with the standard supply of five tiles per color.
    pub fn new() -> (g: Game)
        ensures
            g.setup_ok(),
            g.players@.len() == 0,
            g.game_tiles() == 25,
            g.trash.total() == 0,
            g.public_area.total() == 0,
            forall|i: int| 0 <= i < 5 ==> g.available@[i] == 5,
            g.available.total() == 25,
    {
        Game::with_tiles_per_color(5)
    }

    /// Registers a player during setup; boards join the match fresh.
    pub fn regist(&mut self, player: Player)
        requires
            old(self).setup_ok(),
            old(self).players@.len() < 3,
            player@.wf(),
            player@.fresh(),
        ensures
            final(self).setup_ok(),
            final(self).players@ == old(self).players@.push(player),
            final(self).players@.len() == old(self).players@.len() + 1,
            final(self).game_tiles() == old(self).game_tiles(),
            final(self).available == old(self).available,
            final(self).trash == old(self).trash,
            final(self).public_area == old(self).public_area,
    {
        proof {
            lemma_fresh_counts(player@);
            let pushed = old(self).players@.push(player);
            lemma_players_agree(pushed, old(self).players@, old(self).players@.len() as int);
        }
        self.players.push(player);
    }

    /// Whether nothing is left to draft this round.
    pub fn is_empty(&self) -> (r: bool)
        requires
            self.wf(),
        ensures
            r == self.supply_exhausted(),
    {
        let mut k: usize = 0;
        while k < self.factories.len()
            invariant
                self.wf(),
                k <= self.factories@.len(),
                forall|q: int|
                    0 <= q < k ==> bag_total((#[trigger] self.factories@[q]).stock@) == 0,
            decreases self.factories@.len() - k,
        {
            if self.factories[k].sum() > 0 {
                return false;
            }
            k = k + 1;
        }
        if self.public_area.total_count() > 0 {
            return false;
        }
        true
    }
}

/// What one refill leaves behind: nothing but the displays and the two supply
/// piles change, every display gets at most four tiles — exactly four when the
/// bag and the discard pile together can cover the round — and no tile is made
/// or lost.
pub open spec fn refill_ok(pre: Game, post: Game) -> bool {
    &&& post.players@ == pre.players@
    &&& post.public_area@ == pre.public_area@
    &&& post.current_player == pre.current_player
    &&& post.first_flag == pre.first_flag
    &&& post.ended == pre.ended
    &&& post.factories@.len() == pre.factories@.len()
    &&& (forall|k: int|
        0 <= k < pre.factories@.len() ==> (#[trigger] post.factories@[k]).no
            == pre.factories@[k].no)
    &&& (forall|k: int|
        0 <= k < pre.factories@.len() ==> bag_total((#[trigger] post.factories@[k]).stock@) <= 4)
    &&& (pre.available.total() + pre.trash.total() >= 4 * pre.factories@.len() ==> forall|k: int|
        0 <= k < pre.factories@.len() ==> bag_total((#[trigger] post.factories@[k]).stock@) == 4)
    &&& (pre.available.total() >= 4 * pre.factories@.len() ==> post.trash == pre.trash)
    &&& (pre.available.total() < 4 * pre.factories@.len() ==> post.trash.total() == 0)
    &&& (forall|ci: int|
        0 <= ci < 5 ==> post.available@[ci] + post.trash@[ci] + factories_color_upto(
            post.factories@,
            post.factories@.len() as int,
            ci,
        ) == pre.available@[ci] + pre.trash@[ci] + factories_color_upto(
            pre.factories@,
            pre.factories@.len() as int,
            ci,
        ))
    &&& post.trash.total() <= pre.trash.total()
    &&& post.game_tiles() == pre.game_tiles()
}

impl Game {
    /// Refills every display for a new round: when the draw bag cannot cover
    /// the round's draw of four tiles per display, the discard pile is folded
    /// back into it first; then each display draws four tiles one at a time —
    /// or as many as the whole supply still holds.
    pub fn supply(&mut self)
        requires
            old(self).wf(),
            old(self).factories@.len() <= 7,
            forall|k: int|
                0 <= k < old(self).factories@.len() ==> bag_total(
                    (#[trigger] old(self).factories@[k]).stock@,
                ) == 0,
        ensures
            final(self).wf(),
            refill_ok(*old(self), *final(self)),
    {
        let ghost g0 = *self;
        let ghost nf = g0.factories@.len() as int;
        proof {
            lemma_players_tiles_nonneg(g0.players@, g0.players@.len() as int);
            lemma_factories_tiles_zero(g0.factories@, nf);
        }
        let needed: u64 = 4 * (self.factories.len() as u64);
        if self.available.total_count() < needed {
            let moved = self.trash.drain();
            self.available.absorb(moved);
        }
        let ghost pool = self.available.total();
        let ghost av1 = self.available;
        let ghost trash1 = self.trash;
        proof {
            assert forall|ci: int| 0 <= ci < 5 implies self.available@[ci]
                + factories_color_upto(self.factories@, nf, ci) == av1@[ci] by {
                lemma_factories_color_zero(self.factories@, nf, ci);
            }
        }
        let mut fi: usize = 0;
        while fi < self.factories.len()
            invariant
                self.available.wf(),
                self.trash.wf(),
                self.public_area.wf(),
                self.players@ == g0.players@,
                self.public_area@ == g0.public_area@,
                self.current_player == g0.current_player,
                self.first_flag == g0.first_flag,
                self.ended == g0.ended,
                self.trash == trash1,
                av1.wf(),
                trash1.wf(),
                forall|ci: int|
                    0 <= ci < 5 ==> av1@[ci] + trash1@[ci] == g0.available@[ci] + g0.trash@[ci],
                g0.available.total() >= 4 * nf ==> trash1 == g0.trash,
                g0.available.total() < 4 * nf ==> trash1.total() == 0,
                forall|ci: int|
                    0 <= ci < 5 ==> self.available@[ci] + factories_color_upto(
                        self.factories@,
                        nf,
                        ci,
                    ) == av1@[ci],
                self.trash.total() <= g0.trash.total(),
                self.factories@.len() == nf,
                nf <= 7,
                fi <= nf,
                forall|k: int| 0 <= k < nf ==> (#[trigger] self.factories@[k]).wf(),
                forall|k: int|
                    0 <= k < nf ==> (#[trigger] self.factories@[k]).no == g0.factories@[k].no,
                forall|k: int|
                    fi <= k < nf ==> bag_total((#[trigger] self.factories@[k]).stock@) == 0,
                forall|k: int|
                    0 <= k < fi ==> bag_total((#[trigger] self.factories@[k]).stock@) <= 4,
                pool + self.trash.total() == g0.available.total() + g0.trash.total(),
                self.available.total() + factories_tiles_upto(self.factories@, nf) == pool,
                g0.available.total() + g0.trash.total() >= 4 * nf ==> pool >= 4 * nf,
                g0.available.total() + g0.trash.total() >= 4 * nf ==> forall|k: int|
                    0 <= k < fi ==> bag_total((#[trigger] self.factories@[k]).stock@) == 4,
            decreases nf - fi,
        {
            let ghost snap = *self;
            let ghost sum_pre = factories_tiles_upto(self.factories@, nf);
            proof {
                lemma_factories_tiles_bounded(snap.factories@, fi as int);
            }
            let avail = self.available.total_count();
            let draws: usize = if avail < 4 {
                avail as usize
            } else {
                4
            };
            proof {
                assert(avail == pool - sum_pre);
                if g0.available.total() + g0.trash.total() >= 4 * nf {
                    lemma_factories_tiles_zero_from(snap.factories@, fi as int, nf);
                    assert(sum_pre <= 4 * fi);
                    assert(pool - sum_pre >= 4 * nf - 4 * fi);
                    assert(avail >= 4);
                    assert(draws == 4);
                }
            }
            let mut t: usize = 0;
            while t < draws
                invariant
                    self.available.wf(),
                    self.trash == snap.trash,
                    self.players == snap.players,
                    self.public_area == snap.public_area,
                    self.current_player == snap.current_player,
                    self.first_flag == snap.first_flag,
                    self.ended == snap.ended,
                    self.factories@.len() == nf,
                    fi < nf,
                    t <= draws,
                    draws <= 4,
                    draws <= snap.available.total(),
                    forall|k: int|
                        0 <= k < nf && k != fi ==> #[trigger] self.factories@[k]
                            == snap.factories@[k],
                    self.factories@[fi as int].wf(),
                    self.factories@[fi as int].no == snap.factories@[fi as int].no,
                    bag_total(self.factories@[fi as int].stock@) == t,
                    self.available.total() == snap.available.total() - t,
                    forall|ci: int|
                        0 <= ci < 5 ==> self.available@[ci] + self.factories@[
                            fi as int
                        ].stock@[ci] == snap.available@[ci] + snap.factories@[
                            fi as int
                        ].stock@[ci],
                decreases draws - t,
            {
                let c = random_pick_map(&self.available);
                self.available.remove(c, 1);
                let f_ref = &mut self.factories[fi];
                f_ref.add(c, 1);
                t = t + 1;
            }
            proof {
                assert(self.factories@ =~= snap.factories@.update(
                    fi as int,
                    self.factories@[fi as int],
                ));
                lemma_factories_update(
                    snap.factories@,
                    fi as int,
                    self.factories@[fi as int],
                    nf,
                );
                assert forall|ci: int| 0 <= ci < 5 implies self.available@[ci]
                    + factories_color_upto(self.factories@, nf, ci) == av1@[ci] by {
                    lemma_factories_color_update(
                        snap.factories@,
                        fi as int,
                        self.factories@[fi as int],
                        nf,
                        ci,
                    );
                }
            }
            fi = fi + 1;
        }
        proof {
            lemma_players_agree(self.players@, g0.players@, g0.players@.len() as int);
            assert forall|ci: int| 0 <= ci < 5 implies self.available@[ci] + self.trash@[ci]
                + factories_color_upto(self.factories@, nf, ci) == g0.available@[ci]
                + g0.trash@[ci] + factories_color_upto(g0.factories@, nf, ci) by {
                lemma_factories_color_zero(g0.factories@, nf, ci);
            }
        }
    }
}

/// Tiles that the boards would still hold after every player's resolution.
pub open spec fn players_liq_tiles_upto(ps: Seq<Player>, u: int) -> int
    decreases u,
{
    if u <= 0 {
        0
    } else {
        players_liq_tiles_upto(ps, u - 1) + player_tiles(ps[u - 1]@.liq_board())
    }
}

/// One player's tiles never exceed the roster's.
proof fn lemma_players_tiles_le(ps: Seq<Player>, k: int, u: int)
    requires
        0 <= k < u,
    ensures
        player_tiles(ps[k]@) <= players_tiles_upto(ps, u),
    decreases u,
{
    lemma_player_tiles_nonneg(ps[u - 1]@);
    if k < u - 1 {
        lemma_players_tiles_le(ps, k, u - 1);
    } else {
        lemma_players_tiles_nonneg(ps, u - 1);
    }
}

/// A roster of just-resolved boards holds what resolution left it.
proof fn lemma_players_liq_sum(ps: Seq<Player>, qs: Seq<Player>, u: int)
    requires
        forall|q: int| 0 <= q < u ==> (#[trigger] ps[q])@ == qs[q]@.liq_board(),
    ensures
        players_tiles_upto(ps, u) == players_liq_tiles_upto(qs, u),
    decreases u,
{
    if u > 0 {
        lemma_players_liq_sum(ps, qs, u - 1);
    }
}

/// Boards with empty floor lines hold no first-player marker.
proof fn lemma_players_markers_empty(ps: Seq<Player>, u: int)
    requires
        forall|q: int| 0 <= q < u ==> (#[trigger] ps[q])@.floor.len() == 0,
    ensures
        players_markers_upto(ps, u) == 0,
    decreases u,
{
    if u > 0 {
        lemma_players_markers_empty(ps, u - 1);
    }
}

/// What one whole-round resolution does to the match: every board resolved,
/// all discards folded into the discard pile, no tile made or lost; the match
/// either ends — leaving everything else in place — or goes on into a fresh
/// round: displays refilled, the marker holder (or the first player) to move,
/// the marker back in the center.
pub open spec fn liq_applied(pre: Game, post: Game, over: bool) -> bool {
    &&& over == (exists|k: int|
        0 <= k < pre.players@.len() && (#[trigger] pre.players@[k])@.liq_end())
    &&& post.players@.len() == pre.players@.len()
    &&& forall|k: int|
        0 <= k < pre.players@.len() ==> (#[trigger] post.players@[k])@
            == pre.players@[k]@.liq_board()
    &&& post.game_tiles() == pre.game_tiles()
    &&& post.ended == (pre.ended || over)
    &&& post.public_area@ == pre.public_area@
    &&& if over {
        &&& post.factories@ == pre.factories@
        &&& post.available == pre.available
        &&& post.current_player == pre.current_player
        &&& post.first_flag == pre.first_flag
        &&& (forall|ci: int|
            0 <= ci < 5 ==> post.trash@[ci] == pre.trash@[ci] + players_trash_upto(
                pre.players@,
                pre.players@.len() as int,
                ci,
            ))
    } else {
        &&& post.first_flag is None
        &&& post.current_player as int == (if pre.first_flag is Some {
            pre.first_flag.unwrap() as int
        } else {
            0int
        })
        &&& post.factories@.len() == pre.factories@.len()
        &&& (forall|k: int|
            0 <= k < pre.factories@.len() ==> (#[trigger] post.factories@[k]).no
                == pre.factories@[k].no)
        &&& (forall|k: int|
            0 <= k < pre.factories@.len() ==> bag_total(
                (#[trigger] post.factories@[k]).stock@,
            ) <= 4)
        &&& (pre.game_tiles() - players_liq_tiles_upto(pre.players@, pre.players@.len() as int)
            >= 4 * pre.factories@.len() ==> forall|k: int|
            0 <= k < pre.factories@.len() ==> bag_total(
                (#[trigger] post.factories@[k]).stock@,
            ) == 4)
        &&& (forall|ci: int|
            0 <= ci < 5 ==> post.available@[ci] + post.trash@[ci] + factories_color_upto(
                post.factories@,
                post.factories@.len() as int,
                ci,
            ) == pre.available@[ci] + pre.trash@[ci] + players_trash_upto(
                pre.players@,
                pre.players@.len() as int,
                ci,
            ))
    }
}

impl Game {
    /// Sets the match up: creates one display per required slot — five for two
    /// players, seven for three — and fills them from the supply.
    pub fn init(&mut self)
        requires
            old(self).setup_ok(),
            old(self).players@.len() == 2 || old(self).players@.len() == 3,
        ensures
            final(self).ready(),
            !final(self).ended,
            final(self).first_flag is None,
            final(self).current_player == 0,
            final(self).players@ == old(self).players@,
            final(self).public_area@ == old(self).public_area@,
            final(self).game_tiles() == old(self).game_tiles(),
            forall|k: int|
                0 <= k < final(self).factories@.len() ==> bag_total(
                    (#[trigger] final(self).factories@[k]).stock@,
                ) <= 4,
            old(self).available.total() + old(self).trash.total() >= 4
                * final(self).factories@.len() ==> forall|k: int|
                0 <= k < final(self).factories@.len() ==> bag_total(
                    (#[trigger] final(self).factories@[k]).stock@,
                ) == 4,
            old(self).available.total() >= 4 * final(self).factories@.len() ==> final(self).trash
                == old(self).trash,
            old(self).available.total() < 4 * final(self).factories@.len()
                ==> final(self).trash.total() == 0,
            forall|ci: int|
                0 <= ci < 5 ==> final(self).available@[ci] + final(self).trash@[ci]
                    + factories_color_upto(
                    final(self).factories@,
                    final(self).factories@.len() as int,
                    ci,
                ) == old(self).available@[ci] + old(self).trash@[ci],
    {
        let ghost g0 = *self;
        let n_factory: usize = if self.players.len() == 2 {
            5
        } else {
            7
        };
        let mut i: usize = 0;
        while i < n_factory
            invariant
                self.players@ == g0.players@,
                self.available == g0.available,
                self.trash == g0.trash,
                self.public_area == g0.public_area,
                self.current_player == g0.current_player,
                self.first_flag == g0.first_flag,
                self.ended == g0.ended,
                self.factories@.len() == i,
                i <= n_factory,
                n_factory <= 7,
                forall|k: int|
                    0 <= k < i ==> (#[trigger] self.factories@[k]).wf()
                        && self.factories@[k].no == k && bag_total(self.factories@[k].stock@) == 0,
            decreases n_factory - i,
        {
            self.factories.push(Factory::new(i));
            i = i + 1;
        }
        proof {
            lemma_factories_tiles_zero(self.factories@, self.factories@.len() as int);
            lemma_factories_tiles_zero(g0.factories@, 0);
            lemma_players_agree(self.players@, g0.players@, g0.players@.len() as int);
            assert forall|ci: int| 0 <= ci < 5 implies factories_color_upto(
                self.factories@,
                self.factories@.len() as int,
                ci,
            ) == 0 by {
                lemma_factories_color_zero(self.factories@, self.factories@.len() as int, ci);
            }
        }
        self.supply();
        proof {
            lemma_players_agree(self.players@, g0.players@, g0.players@.len() as int);
        }
    }

    /// Round resolution: once nothing is left to draft, resolves every board
    /// in player order, folds every board's discards into the discard pile,
    /// and either ends the match — some wall now has a complete row — or
    /// refills the displays for the next round and hands its first turn to
    /// whoever claimed the marker. Called while tiles remain to draft, it does
    /// nothing and reports the match still running.
    pub fn liquidate(&mut self) -> (over: bool)
        requires
            old(self).ready(),
        ensures
            final(self).ready(),
            final(self).game_tiles() == old(self).game_tiles(),
            !old(self).supply_exhausted() ==> *final(self) == *old(self) && over == false,
            old(self).supply_exhausted() ==> liq_applied(*old(self), *final(self), over),
    {
        if !self.is_empty() {
            return false;
        }
        let ghost g0 = *self;
        let ghost np = g0.players@.len() as int;
        let ghost nf = g0.factories@.len() as int;
        let mut is_end = false;
        let mut k: usize = 0;
        while k < self.players.len()
            invariant
                g0.ready(),
                g0.supply_exhausted(),
                np == g0.players@.len(),
                nf == g0.factories@.len(),
                self.available == g0.available,
                self.public_area == g0.public_area,
                self.factories == g0.factories,
                self.current_player == g0.current_player,
                self.first_flag == g0.first_flag,
                self.ended == g0.ended,
                self.trash.wf(),
                self.players@.len() == np,
                k <= np,
                forall|q: int| k <= q < np ==> #[trigger] self.players@[q] == g0.players@[q],
                forall|q: int|
                    0 <= q < k ==> (#[trigger] self.players@[q])@ == g0.players@[q]@.liq_board(),
                forall|q: int| 0 <= q < np ==> (#[trigger] self.players@[q])@.wf(),
                is_end == (exists|q: int|
                    0 <= q < k && (#[trigger] g0.players@[q])@.liq_end()),
                self.trash.total() + players_tiles_upto(self.players@, np) == g0.trash.total()
                    + players_tiles_upto(g0.players@, np),
                forall|ci: int|
                    0 <= ci < 5 ==> self.trash@[ci] == g0.trash@[ci] + players_trash_upto(
                        g0.players@,
                        k as int,
                        ci,
                    ),
            decreases np - k,
        {
            let ghost ps_pre = self.players@;
            proof {
                lemma_players_tiles_le(ps_pre, k as int, np);
                lemma_players_tiles_nonneg(ps_pre, np);
                lemma_factories_tiles_zero(g0.factories@, nf);
            }
            let p_ref = &mut self.players[k];
            let (ptrash, can_end) = p_ref.liquidate();
            proof {
                assert(self.players@ =~= ps_pre.update(k as int, self.players@[k as int]));
                lemma_players_update(ps_pre, k as int, self.players@[k as int], np);
                lemma_players_tiles_nonneg(self.players@, np);
                assert(self.trash.total() + ptrash.total() <= u32::MAX);
            }
            self.trash.absorb(ptrash);
            if can_end {
                is_end = true;
            }
            k = k + 1;
        }
        proof {
            lemma_players_liq_sum(self.players@, g0.players@, np);
            lemma_factories_tiles_zero(g0.factories@, nf);
        }
        if !is_end {
            self.supply();
            let next: usize = match self.first_flag {
                Some(no) => no,
                None => 0,
            };
            self.current_player = next;
            self.first_flag = None;
            proof {
                assert forall|q: int| 0 <= q < np implies (#[trigger] self.players@[q])@.floor.len()
                    == 0 by {
                    assert(self.players@[q]@ == g0.players@[q]@.liq_board());
                }
                lemma_players_markers_empty(self.players@, np);
                lemma_players_liq_sum(self.players@, g0.players@, np);
                assert forall|ci: int| 0 <= ci < 5 implies factories_color_upto(
                    g0.factories@,
                    nf,
                    ci,
                ) == 0 by {
                    lemma_factories_color_zero(g0.factories@, nf, ci);
                }
            }
        } else {
            self.ended = true;
        }
        is_end
    }
}

/// One display's tiles never exceed the row of displays'.
proof fn lemma_factories_tiles_le(fs: Seq<Factory>, k: int, u: int)
    requires
        0 <= k < u,
    ensures
        bag_total(fs[k].stock@) <= factories_tiles_upto(fs, u),
    decreases u,
{
    if k < u - 1 {
        lemma_factories_tiles_le(fs, k, u - 1);
    } else {
        lemma_factories_tiles_nonneg(fs, u - 1);
    }
}

impl Game {
    /// Whether drafting color `c` from the given source into the given row is
    /// a legal move for the player to act: the match still runs, the placement
    /// obeys the board, and the source holds the color.
    pub open spec fn draft_legal(
        self,
        factory_no: Option<usize>,
        c: CeramicTile,
        row: Option<usize>,
    ) -> bool {
        &&& !self.ended
        &&& self.players@[self.current_player as int]@.can_put_spec(c, row)
        &&& match factory_no {
            Some(no) => (no as int) < self.factories@.len()
                && self.factories@[no as int].stock.count_of(c) > 0,
            None => self.public_area.count_of(c) > 0,
        }
    }
}

/// What one accepted draft does, before any round resolution: the acting
/// player's board takes every tile of the color from the source (after the
/// first-player marker, when the draft claims it); a drafted display is left
/// empty, its other tiles moving to the center; a center draft empties the
/// color there; the turn passes to the next player.
pub open spec fn draft_applied(
    pre: Game,
    mid: Game,
    factory_no: Option<usize>,
    c: CeramicTile,
    row: Option<usize>,
) -> bool {
    let cur = pre.current_player as int;
    let gets_marker = factory_no is None && pre.first_flag is None;
    let n = match factory_no {
        Some(no) => pre.factories@[no as int].stock.count_of(c),
        None => pre.public_area.count_of(c),
    };
    let board0 = pre.players@[cur]@;
    let board1 = if gets_marker {
        PlayerModel { floor: board0.floor.push(None), ..board0 }
    } else {
        board0
    };
    &&& mid.players@.len() == pre.players@.len()
    &&& (forall|k: int|
        0 <= k < pre.players@.len() && k != cur ==> #[trigger] mid.players@[k]
            == pre.players@[k])
    &&& mid.players@[cur]@ == board1.take_spec(c, n as u32, row)
    &&& mid.current_player as int == (cur + 1) % (pre.players@.len() as int)
    &&& mid.available == pre.available
    &&& mid.trash == pre.trash
    &&& mid.ended == pre.ended
    &&& match factory_no {
        Some(no) => {
            &&& mid.first_flag == pre.first_flag
            &&& mid.factories@.len() == pre.factories@.len()
            &&& (forall|k: int|
                0 <= k < pre.factories@.len() && k != no as int ==> #[trigger] mid.factories@[k]
                    == pre.factories@[k])
            &&& mid.factories@[no as int].no == pre.factories@[no as int].no
            &&& bag_total(mid.factories@[no as int].stock@) == 0
            &&& (forall|i: int|
                0 <= i < 5 ==> #[trigger] mid.public_area@[i] == pre.public_area@[i] + (if i
                    == color_idx(c) {
                    0int
                } else {
                    pre.factories@[no as int].stock@[i] as int
                }))
        },
        None => {
            &&& mid.factories@ == pre.factories@
            &&& mid.first_flag == (if pre.first_flag is None {
                Some(pre.current_player)
            } else {
                pre.first_flag
            })
            &&& mid.public_area@ == pre.public_area@.update(color_idx(c), 0u32)
        },
    }
}

impl Game {
    /// One draft: the current player takes every tile of one color from a
    /// display — the display's other tiles move to the center — or from the
    /// center pool, claiming the first-player marker when it is still there;
    /// the tiles are placed and the turn passes on. A draft that empties the
    /// round's supply resolves the round. Returns whether the draft was legal
    /// — an illegal one changes nothing — and whether the match is over.
    #[verifier::rlimit(100)]
    #[verifier::spinoff_prover]
    pub fn step_next(
        &mut self,
        factory_no: Option<usize>,
        ceramic_tile: CeramicTile,
        row: Option<usize>,
    ) -> (r: (bool, bool))
        requires
            old(self).ready(),
        ensures
            final(self).ready(),
            final(self).game_tiles() == old(self).game_tiles(),
            r.0 == old(self).draft_legal(factory_no, ceramic_tile, row),
            !r.0 ==> *final(self) == *old(self) && r.1 == false,
            r.0 ==> exists|mid: Game|
                {
                    &&& #[trigger] draft_applied(*old(self), mid, factory_no, ceramic_tile, row)
                    &&& if mid.supply_exhausted() {
                        liq_applied(mid, *final(self), r.1)
                    } else {
                        *final(self) == mid && r.1 == false
                    }
                },
    {
        let ghost g0 = *self;
        let ghost np = g0.players@.len() as int;
        if self.ended {
            return (false, false);
        }
        let cur = self.current_player;
        if !self.players[cur].can_put(ceramic_tile, row) {
            return (false, false);
        }
        let n: u32;
        if let Some(no) = factory_no {
            if no >= self.factories.len() {
                return (false, false);
            }
            if !self.factories[no].contains(ceramic_tile) {
                return (false, false);
            }
            proof {
                lemma_factories_tiles_le(g0.factories@, no as int, g0.factories@.len() as int);
                lemma_factories_tiles_nonneg(g0.factories@, g0.factories@.len() as int);
                lemma_players_tiles_nonneg(g0.players@, np);
            }
            let f_ref = &mut self.factories[no];
            let mut caught = f_ref.catch();
            n = caught.remove_all(ceramic_tile);
            proof {
                assert(self.factories@ =~= g0.factories@.update(
                    no as int,
                    self.factories@[no as int],
                ));
                lemma_factories_update(
                    g0.factories@,
                    no as int,
                    self.factories@[no as int],
                    g0.factories@.len() as int,
                );
            }
            self.public_area.absorb(caught);
        } else {
            if self.public_area.get(ceramic_tile) == 0 {
                return (false, false);
            }
            n = self.public_area.remove_all(ceramic_tile);
            if self.first_flag.is_none() {
                self.first_flag = Some(cur);
                let ghost ps_pre = self.players@;
                let p_ref = &mut self.players[cur];
                proof {
                    lemma_marker_counts(ps_pre[cur as int]@);
                }
                p_ref.set_first();
                proof {
                    assert(self.players@ =~= ps_pre.update(cur as int, self.players@[cur as int]));
                    lemma_players_update(ps_pre, cur as int, self.players@[cur as int], np);
                }
            }
        }
        let ghost ps_mid = self.players@;
        let ghost board1 = ps_mid[cur as int]@;
        proof {
            lemma_take_counts(board1, ceramic_tile, n, row);
        }
        let p_ref = &mut self.players[cur];
        p_ref.take(ceramic_tile, n, row);
        proof {
            assert(self.players@ =~= ps_mid.update(cur as int, self.players@[cur as int]));
            lemma_players_update(ps_mid, cur as int, self.players@[cur as int], np);
        }
        self.current_player = (cur + 1) % self.players.len();
        let ghost mid = *self;
        proof {
            assert(draft_applied(g0, mid, factory_no, ceramic_tile, row));
            assert(mid.ready());
        }
        let over = self.liquidate();
        proof {
            if mid.supply_exhausted() {
                assert(liq_applied(mid, *self, over));
            } else {
                assert(*self == mid && over == false);
            }
        }
        (true, over)
    }
}

/// Displays that stand empty from position `a` on add nothing past `a`.
proof fn lemma_factories_tiles_zero_from(fs: Seq<Factory>, a: int, b: int)
    requires
        0 <= a <= b,
        forall|k: int| a <= k < b ==> bag_total((#[trigger] fs[k]).stock@) == 0,
    ensures
        factories_tiles_upto(fs, b) == factories_tiles_upto(fs, a),
    decreases b - a,
{
    if a < b {
        lemma_factories_tiles_zero_from(fs, a, b - 1);
    }
}

/// Displays that each hold at most four tiles hold at most four per display in
/// sum.
proof fn lemma_factories_tiles_bounded(fs: Seq<Factory>, u: int)
    requires
        0 <= u <= fs.len(),
        forall|k: int| 0 <= k < u ==> bag_total((#[trigger] fs[k]).stock@) <= 4,
    ensures
        0 <= factories_tiles_upto(fs, u) <= 4 * u,
    decreases u,
{
    if u > 0 {
        lemma_factories_tiles_bounded(fs, u - 1);
    }
}

} // verus!
