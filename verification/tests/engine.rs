use azul::factory::Factory;
use azul::game::Game;
use azul::player::{wall_col, wall_color, Player};
use azul::sampler::{random_pick_list, random_pick_map};
use azul::tiles::{CeramicTile, TileBag};

fn bag_sum(b: &TileBag) -> u64 {
    b.counts.iter().map(|&x| x as u64).sum()
}

fn colors() -> [CeramicTile; 5] {
    [
        CeramicTile::Blue,
        CeramicTile::Yellow,
        CeramicTile::Red,
        CeramicTile::Black,
        CeramicTile::White,
    ]
}

/// Every tile of the match, counted over every container, wall tiles included.
fn total_tiles(g: &Game) -> u64 {
    let mut t = bag_sum(&g.available) + bag_sum(&g.trash) + bag_sum(&g.public_area);
    for f in &g.factories {
        t += bag_sum(&f.stock);
    }
    for p in &g.players {
        for line in &p.lines {
            t += line.1 as u64;
        }
        t += p.floor.iter().filter(|s| s.is_some()).count() as u64;
        t += p.wall.iter().filter(|&&b| b).count() as u64;
    }
    t
}

fn two_player_game() -> Game {
    let mut g = Game::new();
    g.regist(Player::new(String::from("jack")));
    g.regist(Player::new(String::from("me")));
    g.init();
    g
}

#[test]
fn init_two_players_draws_twenty_of_twenty_five() {
    let g = two_player_game();
    assert_eq!(g.factories.len(), 5);
    for f in &g.factories {
        assert_eq!(bag_sum(&f.stock), 4);
    }
    assert_eq!(bag_sum(&g.available), 5);
    assert_eq!(bag_sum(&g.trash), 0);
    assert_eq!(bag_sum(&g.public_area), 0);
    assert_eq!(g.current_player, 0);
    assert!(g.first_flag.is_none());
    assert!(!g.ended);
    assert_eq!(total_tiles(&g), 25);
}

#[test]
fn init_three_players_makes_seven_factories() {
    let mut g = Game::with_tiles_per_color(10);
    g.regist(Player::new(String::from("a")));
    g.regist(Player::new(String::from("b")));
    g.regist(Player::new(String::from("c")));
    g.init();
    assert_eq!(g.factories.len(), 7);
    for f in &g.factories {
        assert_eq!(bag_sum(&f.stock), 4);
    }
    assert_eq!(total_tiles(&g), 50);
}

#[test]
fn factory_draft_scenario() {
    let mut g = two_player_game();
    // Pick whatever color factory 0 happens to hold.
    let c = *colors()
        .iter()
        .find(|&&c| g.factories[0].contains(c))
        .unwrap();
    let n = g.factories[0].stock.get(c);
    assert!(n >= 1 && n <= 4);
    let (ok, over) = g.step_next(Some(0), c, Some(1));
    assert!(ok);
    assert!(!over);
    // Pattern line 1 (capacity 2) holds min(n, 2); the excess hits the floor.
    let expect_line = n.min(2);
    let expect_floor = n.saturating_sub(2) as usize;
    assert_eq!(g.players[0].lines[1], (Some(c), expect_line));
    assert_eq!(g.players[0].floor.len(), expect_floor);
    // The drafted display is empty; its other tiles sit in the center.
    assert_eq!(bag_sum(&g.factories[0].stock), 0);
    assert_eq!(bag_sum(&g.public_area), 4 - n as u64);
    // The turn passed, nothing was gained or lost, the round goes on.
    assert_eq!(g.current_player, 1);
    assert!(!g.is_empty());
    assert_eq!(total_tiles(&g), 25);
}

#[test]
fn rejected_drafts_change_nothing() {
    let mut g = two_player_game();
    let before = format!("{:?}", snapshot(&g));
    // Factory index out of range.
    assert_eq!(g.step_next(Some(9), CeramicTile::Red, None), (false, false));
    // Row out of range.
    let c = *colors()
        .iter()
        .find(|&&c| g.factories[0].contains(c))
        .unwrap();
    assert_eq!(g.step_next(Some(0), c, Some(5)), (false, false));
    // Center is empty at round start, so a center draft is illegal.
    assert_eq!(g.step_next(None, CeramicTile::Red, None), (false, false));
    // A color the display does not hold.
    if let Some(&missing) = colors().iter().find(|&&c| !g.factories[0].contains(c)) {
        assert_eq!(g.step_next(Some(0), missing, None), (false, false));
    }
    assert_eq!(before, format!("{:?}", snapshot(&g)));
}

fn snapshot(g: &Game) -> (Vec<u32>, Vec<u32>, Vec<u32>, Vec<Vec<u32>>, usize, Option<usize>) {
    (
        g.available.counts.clone(),
        g.trash.counts.clone(),
        g.public_area.counts.clone(),
        g.factories.iter().map(|f| f.stock.counts.clone()).collect(),
        g.current_player,
        g.first_flag,
    )
}

#[test]
fn can_put_follows_the_board() {
    let mut p = Player::new(String::from("p"));
    let blue = CeramicTile::Blue;
    let red = CeramicTile::Red;
    // Fresh board: every row takes every color; the floor always does.
    for r in 0..5 {
        assert!(p.can_put(blue, Some(r)));
    }
    assert!(p.can_put(blue, None));
    assert!(!p.can_put(blue, Some(5)));
    // A line started in one color refuses another, and still takes its own.
    p.take(blue, 1, Some(2));
    assert!(!p.can_put(red, Some(2)));
    assert!(p.can_put(blue, Some(2)));
    assert!(p.can_put(red, Some(3)));
    assert!(p.can_put(red, None));
}

#[test]
fn can_put_refuses_a_filled_wall_cell() {
    let mut p = Player::new(String::from("p"));
    let blue = CeramicTile::Blue;
    // Complete row 0 (capacity 1) and resolve: blue's cell in row 0 fills.
    p.take(blue, 1, Some(0));
    let (trash, over) = p.liquidate();
    assert_eq!(bag_sum(&trash), 0);
    assert!(!over);
    assert!(p.wall[0 * 5 + wall_col(0, blue)]);
    assert!(!p.can_put(blue, Some(0)));
    assert!(p.can_put(CeramicTile::Yellow, Some(0)));
    assert!(p.can_put(blue, Some(1)));
}

#[test]
fn take_overflows_to_the_floor() {
    let mut p = Player::new(String::from("p"));
    let red = CeramicTile::Red;
    p.take(red, 5, Some(1));
    assert_eq!(p.lines[1], (Some(red), 2));
    assert_eq!(p.floor.len(), 3);
    assert!(p.floor.iter().all(|s| *s == Some(red)));
    // Placing with no row sends everything to the floor.
    let mut q = Player::new(String::from("q"));
    q.take(red, 3, None);
    assert_eq!(q.lines[1], (None, 0));
    assert_eq!(q.floor.len(), 3);
}

#[test]
fn liquidate_moves_completed_lines_to_the_wall() {
    let mut p = Player::new(String::from("p"));
    let red = CeramicTile::Red;
    // Row 1 (capacity 2) complete plus one floor tile.
    p.take(red, 3, Some(1));
    let (trash, over) = p.liquidate();
    // One tile to the wall; one line tile and one floor tile discarded.
    assert_eq!(bag_sum(&trash), 2);
    assert_eq!(trash.get(red), 2);
    assert!(!over);
    assert!(p.wall[1 * 5 + wall_col(1, red)]);
    assert_eq!(p.lines[1], (None, 0));
    assert_eq!(p.floor.len(), 0);
    // One lone placed tile scores 1; one floor tile costs 1.
    assert_eq!(p.score, 0);
}

#[test]
fn liquidate_scores_a_lone_tile_one_point() {
    let mut p = Player::new(String::from("p"));
    p.take(CeramicTile::Blue, 1, Some(0));
    let (trash, _) = p.liquidate();
    assert_eq!(bag_sum(&trash), 0);
    assert_eq!(p.score, 1);
}

#[test]
fn liquidate_scores_adjacent_runs() {
    let mut p = Player::new(String::from("p"));
    // Blue fills cell (0, 0); white fills cell (1, 0) right below it.
    assert_eq!(wall_col(0, CeramicTile::Blue), 0);
    assert_eq!(wall_col(1, CeramicTile::White), 0);
    p.take(CeramicTile::Blue, 1, Some(0));
    p.liquidate();
    assert_eq!(p.score, 1);
    p.take(CeramicTile::White, 2, Some(1));
    p.liquidate();
    // The second tile joins a vertical run of two: two points.
    assert_eq!(p.score, 3);
}

#[test]
fn liquidate_keeps_incomplete_lines() {
    let mut p = Player::new(String::from("p"));
    let black = CeramicTile::Black;
    p.take(black, 2, Some(3));
    let (trash, over) = p.liquidate();
    assert_eq!(bag_sum(&trash), 0);
    assert!(!over);
    assert_eq!(p.lines[3], (Some(black), 2));
    assert!(!p.wall[3 * 5 + wall_col(3, black)]);
}

#[test]
fn liquidate_twice_is_idempotent() {
    let mut p = Player::new(String::from("p"));
    p.take(CeramicTile::Yellow, 4, Some(2));
    p.take(CeramicTile::Red, 2, Some(4));
    let (_, over1) = p.liquidate();
    let wall_after: Vec<bool> = p.wall.clone();
    let lines_after: Vec<(Option<CeramicTile>, u32)> = p.lines.clone();
    let score_after = p.score;
    let (trash2, over2) = p.liquidate();
    assert_eq!(bag_sum(&trash2), 0);
    assert_eq!(over1, over2);
    assert_eq!(p.wall, wall_after);
    assert_eq!(p.lines, lines_after);
    assert_eq!(p.score, score_after);
}

#[test]
fn floor_penalty_schedule() {
    // Seven floor tiles cost 1+1+2+2+2+3+3 = 14; more cost no extra.
    for (len, pen) in [(0u32, 0u32), (1, 1), (2, 2), (3, 4), (4, 6), (5, 8), (6, 11), (7, 14), (9, 14)] {
        let mut p = Player::new(String::from("p"));
        // First put two tiles on the wall so a banked score of 20 is a state
        // the board could reach, then bank it so the penalty is visible.
        p.take(CeramicTile::Blue, 1, Some(0));
        p.liquidate();
        p.take(CeramicTile::Red, 1, Some(0));
        p.liquidate();
        p.score = 20;
        p.take(CeramicTile::Red, len, None);
        p.liquidate();
        assert_eq!(p.score, 20 - pen, "floor of {len}");
    }
}

#[test]
fn score_never_goes_below_zero() {
    let mut p = Player::new(String::from("p"));
    p.take(CeramicTile::Red, 6, None);
    p.liquidate();
    assert_eq!(p.score, 0);
}

#[test]
fn end_detected_when_a_row_fills() {
    let mut p = Player::new(String::from("p"));
    // Fill row 0 cell by cell: capacity 1, one liquidation per color.
    for (i, c) in colors().iter().enumerate() {
        p.take(*c, 1, Some(0));
        let (_, over) = p.liquidate();
        assert_eq!(over, i == 4, "after color {i}");
    }
    for j in 0..5 {
        assert!(p.wall[j]);
    }
    // The flag never reverts: resolving again still reports the end.
    let (_, over_again) = p.liquidate();
    assert!(over_again);
}

#[test]
fn first_token_goes_to_the_first_center_draft() {
    let mut g = two_player_game();
    // Move some tiles to the center by drafting a display to the floor.
    let c0 = *colors()
        .iter()
        .find(|&&c| g.factories[0].contains(c))
        .unwrap();
    let (ok, _) = g.step_next(Some(0), c0, None);
    assert!(ok);
    if bag_sum(&g.public_area) == 0 {
        // The display held four tiles of one color: nothing reached the
        // center, and the token stays unclaimed.
        assert!(g.first_flag.is_none());
        return;
    }
    let cc = *colors().iter().find(|&&c| g.public_area.get(c) > 0).unwrap();
    let drafter = g.current_player;
    let (ok, _) = g.step_next(None, cc, None);
    assert!(ok);
    assert_eq!(g.first_flag, Some(drafter));
    // Exactly one marker lies on exactly that player's floor line.
    let markers: usize = g.players.iter().map(|p| p.floor.iter().filter(|s| s.is_none()).count()).sum();
    assert_eq!(markers, 1);
    assert_eq!(g.players[drafter].floor.iter().filter(|s| s.is_none()).count(), 1);
    // A second center draft grants no second marker.
    if let Some(&c2) = colors().iter().find(|&&c| g.public_area.get(c) > 0) {
        let (ok, _) = g.step_next(None, c2, None);
        assert!(ok);
        let markers: usize =
            g.players.iter().map(|p| p.floor.iter().filter(|s| s.is_none()).count()).sum();
        assert_eq!(markers, 1);
    }
    assert_eq!(total_tiles(&g), 25);
}

#[test]
fn conservation_over_a_long_match() {
    let mut g = two_player_game();
    let mut steps = 0;
    while !g.ended && steps < 2000 {
        // Policy: draft from the first non-empty source into the first legal
        // row, or onto the floor.
        let mut moved = false;
        'outer: for source in (0..g.factories.len()).map(Some).chain([None]) {
            for c in colors() {
                let has = match source {
                    Some(no) => g.factories[no].contains(c),
                    None => g.public_area.get(c) > 0,
                };
                if !has {
                    continue;
                }
                let rows: Vec<Option<usize>> = (0..5).map(Some).chain([None]).collect();
                for row in rows {
                    if g.players[g.current_player].can_put(c, row) {
                        let (ok, _) = g.step_next(source, c, row);
                        assert!(ok);
                        assert_eq!(total_tiles(&g), 25, "conservation after step {steps}");
                        moved = true;
                        break 'outer;
                    }
                }
            }
        }
        if !moved {
            // The boards have locked up so much of the 25-tile supply that a
            // round could not be dealt: nothing is on offer anywhere.
            assert!(g.is_empty());
            break;
        }
        steps += 1;
    }
    assert!(steps > 10, "the match makes progress");
    assert_eq!(total_tiles(&g), 25);
    if g.ended {
        // Once over, every draft is rejected.
        for c in colors() {
            assert_eq!(g.step_next(None, c, None), (false, false));
            assert_eq!(g.step_next(Some(0), c, Some(0)), (false, false));
        }
    }
}

#[test]
fn match_ends_when_a_wall_row_completes() {
    // A board whose top wall row lacks only its white cell, reached through
    // four legal single-tile rounds.
    let mut p0 = Player::new(String::from("a"));
    for c in [CeramicTile::Blue, CeramicTile::Yellow, CeramicTile::Red, CeramicTile::Black] {
        p0.take(c, 1, Some(0));
        p0.liquidate();
    }
    // A round staged so that the last draft empties every source.
    let mut factories = Vec::new();
    for i in 0..5 {
        let mut f = Factory::new(i);
        if i == 0 {
            f.add(CeramicTile::White, 1);
        } else {
            f.add(CeramicTile::Blue, 4);
        }
        factories.push(f);
    }
    let mut g = Game {
        current_player: 0,
        first_flag: None,
        players: vec![p0, Player::new(String::from("b"))],
        factories,
        trash: TileBag::new(),
        available: TileBag::uniform(5),
        public_area: TileBag::new(),
        ended: false,
    };
    let total = total_tiles(&g);
    assert_eq!(g.step_next(Some(0), CeramicTile::White, Some(0)), (true, false));
    assert_eq!(g.step_next(Some(1), CeramicTile::Blue, None), (true, false));
    assert_eq!(g.step_next(Some(2), CeramicTile::Blue, None), (true, false));
    assert_eq!(g.step_next(Some(3), CeramicTile::Blue, None), (true, false));
    // The last draft empties the round; resolution fills the fifth cell of the
    // top row and the match ends.
    assert_eq!(g.step_next(Some(4), CeramicTile::Blue, None), (true, true));
    assert!(g.ended);
    for j in 0..5 {
        assert!(g.players[0].wall[j]);
    }
    assert_eq!(total_tiles(&g), total);
    // No draft is accepted once the match is over.
    assert_eq!(g.step_next(Some(0), CeramicTile::Blue, None), (false, false));
}

#[test]
fn factory_stays_empty_until_refill() {
    let mut g = two_player_game();
    let c = *colors()
        .iter()
        .find(|&&c| g.factories[0].contains(c))
        .unwrap();
    let (ok, _) = g.step_next(Some(0), c, None);
    assert!(ok);
    // Drafts from other sources never put tiles back on display 0.
    let c1 = *colors()
        .iter()
        .find(|&&c| g.factories[1].contains(c))
        .unwrap();
    let (ok, _) = g.step_next(Some(1), c1, None);
    assert!(ok);
    assert_eq!(bag_sum(&g.factories[0].stock), 0);
    assert_eq!(bag_sum(&g.factories[1].stock), 0);
    assert_eq!(bag_sum(&g.factories[2].stock), 4);
}

#[test]
fn sampler_returns_a_present_color() {
    let mut bag = TileBag::new();
    bag.add(CeramicTile::Yellow, 3);
    for _ in 0..20 {
        assert_eq!(random_pick_map(&bag), CeramicTile::Yellow);
    }
}

#[test]
fn sampler_skips_zero_weights() {
    let list: Vec<u8> = vec![10, 20, 30, 40];
    let weights: Vec<u32> = vec![0, 0, 7, 0];
    for _ in 0..20 {
        assert_eq!(*random_pick_list(&list, &weights), 30);
    }
}

#[test]
fn wall_layout_is_the_shifted_cycle() {
    // Row 0 carries the cycle in order; each row shifts it one to the right.
    assert_eq!(wall_color(0, 0), CeramicTile::Blue);
    assert_eq!(wall_color(0, 4), CeramicTile::White);
    assert_eq!(wall_color(1, 0), CeramicTile::White);
    assert_eq!(wall_color(4, 0), CeramicTile::Yellow);
    for i in 0..5 {
        for c in colors() {
            let j = wall_col(i, c);
            assert_eq!(wall_color(i, j), c);
        }
    }
}

#[test]
fn ensure_capacity_recycles_the_discard_pile() {
    // Drain the bag low, then let a round refill pull the discards back.
    let mut g = two_player_game();
    let mut rounds = 0;
    let mut steps = 0;
    while rounds < 3 && steps < 5000 {
        let on_offer: u64 = g.factories.iter().map(|f| bag_sum(&f.stock)).sum::<u64>()
            + bag_sum(&g.public_area);
        assert!(on_offer > 0 || g.ended);
        if g.ended {
            break;
        }
        // Empty the round with floor-only drafts (always legal).
        let mut acted = false;
        for source in (0..g.factories.len()).map(Some).chain([None]) {
            for c in colors() {
                let has = match source {
                    Some(no) => g.factories[no].contains(c),
                    None => g.public_area.get(c) > 0,
                };
                if has {
                    let (ok, _) = g.step_next(source, c, None);
                    assert!(ok);
                    acted = true;
                    break;
                }
            }
            if acted {
                break;
            }
        }
        if g.is_empty() && !g.ended {
            rounds += 1;
        }
        assert_eq!(total_tiles(&g), 25);
        steps += 1;
    }
    // Floor-only play never fills a wall, so the match keeps cycling and the
    // supply keeps feeding 20 tiles a round out of 25: the discards recycle.
    assert!(!g.ended);
}

#[test]
fn tile_count_is_configurable() {
    let g = Game::with_tiles_per_color(8);
    assert_eq!(g.available.counts, vec![8, 8, 8, 8, 8]);
    assert_eq!(bag_sum(&g.available), 40);
    assert_eq!(total_tiles(&g), 40);
}

#[test]
fn new_game_bag_holds_five_of_each_color() {
    let g = Game::new();
    assert_eq!(g.available.counts, vec![5, 5, 5, 5, 5]);
    for c in colors() {
        assert_eq!(g.available.get(c), 5);
    }
}

#[test]
fn init_deals_each_color_from_the_bag() {
    let g = two_player_game();
    // The 25-tile bag covers the 20-tile deal, so the discard pile is never
    // touched, and each color's tiles sit either in the bag or on a display.
    assert_eq!(g.trash.counts, vec![0, 0, 0, 0, 0]);
    for c in colors() {
        let dealt: u32 = g.factories.iter().map(|f| f.stock.get(c)).sum();
        assert_eq!(g.available.get(c) + dealt, 5, "color {c:?}");
    }
}

fn empty_displays(n: usize) -> Vec<Factory> {
    (0..n).map(Factory::new).collect()
}

#[test]
fn refill_leaves_a_sufficient_bag_s_discards_alone() {
    let mut g = Game {
        current_player: 0,
        first_flag: None,
        players: vec![Player::new(String::from("a")), Player::new(String::from("b"))],
        factories: empty_displays(5),
        trash: TileBag::uniform(1),
        available: TileBag::uniform(5),
        public_area: TileBag::new(),
        ended: false,
    };
    g.supply();
    // 25 tiles covered the 20-tile deal: the discards were not touched.
    assert_eq!(g.trash.counts, vec![1, 1, 1, 1, 1]);
    assert_eq!(bag_sum(&g.available), 5);
    for f in &g.factories {
        assert_eq!(bag_sum(&f.stock), 4);
    }
}

#[test]
fn refill_folds_the_discards_into_a_short_bag() {
    let mut g = Game {
        current_player: 0,
        first_flag: None,
        players: vec![Player::new(String::from("a")), Player::new(String::from("b"))],
        factories: empty_displays(5),
        trash: TileBag::uniform(3),
        available: TileBag::uniform(2),
        public_area: TileBag::new(),
        ended: false,
    };
    g.supply();
    // A 10-tile bag cannot cover the 20-tile deal: the whole discard pile
    // moves into the bag first and ends empty.
    assert_eq!(g.trash.counts, vec![0, 0, 0, 0, 0]);
    assert_eq!(bag_sum(&g.available), 5);
    for f in &g.factories {
        assert_eq!(bag_sum(&f.stock), 4);
    }
    // Per color, bag plus displays still hold the 2 + 3 tiles.
    for c in colors() {
        let dealt: u32 = g.factories.iter().map(|f| f.stock.get(c)).sum();
        assert_eq!(g.available.get(c) + dealt, 5, "color {c:?}");
    }
}
