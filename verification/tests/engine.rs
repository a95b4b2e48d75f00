use skipbo::cards::distance_between_cards;
use skipbo::game::SkipBoGame;
use skipbo::move_stack::{CardStack, Move};
use skipbo::players::{NewPlayerState, Player, PlayerState};
use skipbo::simple_player::SimplePlayer;
use skipbo::bad_player::BadPlayer;
use skipbo::good_player::GoodPlayer;
use skipbo::sim::{play_game, play_n_games};

fn player(hand: Vec<i8>, side: [Vec<i8>; 4], stack: Vec<i8>) -> PlayerState {
    PlayerState { hand, side, stack }
}

fn fresh_game(players: Vec<PlayerState>) -> SkipBoGame {
    SkipBoGame::new(players)
}

fn empty_side() -> [Vec<i8>; 4] {
    [Vec::new(), Vec::new(), Vec::new(), Vec::new()]
}

#[test]
fn field_update_joker_on_empty_stack() {
    let mut game = fresh_game(vec![player(vec![-1], empty_side(), vec![5])]);
    assert_eq!(game.playing_field[0], (12, false));
    game.to_playing_field_from_hand(0, 0, 0);
    assert_eq!(game.playing_field[0], (1, true));
}

#[test]
fn field_update_joker_mid_run() {
    let mut game = fresh_game(vec![player(vec![-1], empty_side(), vec![5])]);
    game.playing_field[2] = (5, false);
    game.to_playing_field_from_hand(0, 2, 0);
    assert_eq!(game.playing_field[2], (6, true));
}

#[test]
fn field_update_concrete_clears_joker_flag() {
    let mut game = fresh_game(vec![player(vec![7], empty_side(), vec![5])]);
    game.playing_field[1] = (6, true);
    game.to_playing_field_from_hand(0, 1, 0);
    assert_eq!(game.playing_field[1], (7, false));
}

#[test]
fn field_update_from_stack_pops_draw_stack() {
    let mut game = fresh_game(vec![player(vec![7], empty_side(), vec![9, 1])]);
    game.to_playing_field_from_stack(0, 0);
    assert_eq!(game.playing_field[0], (1, false));
    assert_eq!(game.players[0].stack, vec![9]);
}

#[test]
fn field_update_from_side_pops_side_stack() {
    let mut game = fresh_game(
        vec![player(vec![7], [vec![2, 1], Vec::new(), Vec::new(), Vec::new()], vec![9])],
    );
    game.to_playing_field_from_side(0, 3, 0);
    assert_eq!(game.playing_field[3], (1, false));
    assert_eq!(game.players[0].side[0], vec![2]);
}

#[test]
fn discard_moves_card_from_hand_to_side() {
    let mut game = fresh_game(vec![player(vec![4, 9], empty_side(), vec![5])]);
    game.to_side(0, 1, 2);
    assert_eq!(game.players[0].hand, vec![4]);
    assert_eq!(game.players[0].side[2], vec![9]);
    assert_eq!(game.playing_field[0], (12, false));
}

fn enumeration_state() -> SkipBoGame {
    let mut game = fresh_game(
        vec![
            player(
                vec![3, 1, -1],
                [Vec::new(), vec![3], Vec::new(), vec![6, -1]],
                vec![9, 1],
            ),
        ],
    );
    game.playing_field = [(12, false), (2, false), (5, true), (12, true)];
    game
}

#[test]
fn legal_move_enumeration_order() {
    let game = enumeration_state();
    let p = &game.players[0];
    let moves = game.get_valid_moves(&game.playing_field, &p.hand, &p.side, &p.stack);

    let expected = vec![
        Move { from: CardStack::Stack, from_num: 0, to: CardStack::Field, to_num: 0 },
        Move { from: CardStack::Stack, from_num: 0, to: CardStack::Field, to_num: 3 },
        Move { from: CardStack::Hand, from_num: 1, to: CardStack::Field, to_num: 0 },
        Move { from: CardStack::Hand, from_num: 2, to: CardStack::Field, to_num: 0 },
        Move { from: CardStack::Hand, from_num: 0, to: CardStack::Field, to_num: 1 },
        Move { from: CardStack::Hand, from_num: 2, to: CardStack::Field, to_num: 1 },
        Move { from: CardStack::Hand, from_num: 1, to: CardStack::Field, to_num: 3 },
        Move { from: CardStack::Side, from_num: 1, to: CardStack::Field, to_num: 1 },
        Move { from: CardStack::Side, from_num: 3, to: CardStack::Field, to_num: 0 },
        Move { from: CardStack::Side, from_num: 3, to: CardStack::Field, to_num: 1 },
    ];
    assert_eq!(moves, expected);
}

#[test]
fn no_joker_move_onto_joker_active_stack() {
    let game = enumeration_state();
    let p = &game.players[0];
    let moves = game.get_valid_moves(&game.playing_field, &p.hand, &p.side, &p.stack);

    for m in &moves {
        let card = match m.from {
            CardStack::Stack => *p.stack.last().unwrap(),
            CardStack::Hand => p.hand[m.from_num as usize],
            CardStack::Side => *p.side[m.from_num as usize].last().unwrap(),
            CardStack::Field => unreachable!(),
        };
        if card == -1 {
            assert!(!game.playing_field[m.to_num as usize].1);
        }
    }
}

#[test]
fn every_legal_move_applies_cleanly() {
    let count = {
        let game = enumeration_state();
        let p = &game.players[0];
        game.get_valid_moves(&game.playing_field, &p.hand, &p.side, &p.stack).len()
    };
    assert_eq!(count, 10);
    for i in 0..count {
        let mut game = enumeration_state();
        let moves = {
            let p = &game.players[0];
            game.get_valid_moves(&game.playing_field, &p.hand, &p.side, &p.stack)
        };
        game.execute_move(0, &moves[i]);
    }
}

#[test]
fn refill_tops_hand_up_to_five() {
    let mut game = fresh_game(vec![player(vec![5], empty_side(), vec![9])]);
    game.refill_hand(0);
    assert_eq!(game.players[0].hand.len(), 5);
    assert_eq!(game.players[0].hand[0], 5);
    for c in &game.players[0].hand {
        assert!(*c == -1 || (1 <= *c && *c <= 12));
    }
    game.refill_hand(0);
    assert_eq!(game.players[0].hand.len(), 5);
}

#[test]
fn check_win_records_first_empty_stack() {
    let mut game = fresh_game(
        vec![
            player(vec![5], empty_side(), vec![9]),
            player(vec![5], empty_side(), Vec::new()),
        ],
    );
    assert!(game.check_win());
    assert!(game.end);
    assert_eq!(game.winner, 1);
}

#[test]
fn check_win_false_leaves_game_untouched() {
    let mut game = fresh_game(
        vec![
            player(vec![5], empty_side(), vec![9]),
            player(vec![5], empty_side(), vec![2]),
        ],
    );
    assert!(!game.check_win());
    assert!(!game.end);
    assert_eq!(game.winner, -1);
}

#[test]
fn distance_walks_forward_on_the_ring() {
    assert_eq!(distance_between_cards(2, 4), 2);
    assert_eq!(distance_between_cards(9, 4), 7);
    assert_eq!(distance_between_cards(5, 5), 0);
    assert_eq!(distance_between_cards(12, 1), 1);
    assert_eq!(distance_between_cards(-1, 4), 5);
}

#[test]
fn simple_player_takes_first_move_and_fewest_side() {
    let sp = SimplePlayer {};
    let moves = vec![
        Move { from: CardStack::Hand, from_num: 1, to: CardStack::Field, to_num: 2 },
        Move { from: CardStack::Stack, from_num: 0, to: CardStack::Field, to_num: 0 },
    ];
    let field = [(12, false); 4];
    let side = [vec![1, 2], vec![5], vec![9], vec![3, 3, 3]];
    let hand = vec![2, 3];
    let picked = sp.select_move(&moves, 4, 9, &side, &hand, &field);
    assert_eq!(picked, Some(moves[0]));

    let discard = sp.select_stack(&hand, &side);
    assert_eq!(
        discard,
        Move { from: CardStack::Hand, from_num: 0, to: CardStack::Side, to_num: 1 }
    );
}

#[test]
fn bad_player_only_plays_draw_stack_moves() {
    let bp = BadPlayer {};
    let field = [(12, false); 4];
    let side = empty_side();
    let hand = vec![2, 3];

    let hand_first = vec![
        Move { from: CardStack::Hand, from_num: 0, to: CardStack::Field, to_num: 0 },
        Move { from: CardStack::Stack, from_num: 0, to: CardStack::Field, to_num: 1 },
    ];
    assert_eq!(bp.select_move(&hand_first, 1, 9, &side, &hand, &field), None);

    let stack_first = vec![
        Move { from: CardStack::Stack, from_num: 0, to: CardStack::Field, to_num: 1 },
    ];
    assert_eq!(
        bp.select_move(&stack_first, 1, 9, &side, &hand, &field),
        Some(stack_first[0])
    );
}

#[test]
fn good_discard_prefers_existing_run() {
    let gp = GoodPlayer {};
    let side = [vec![4], Vec::new(), Vec::new(), Vec::new()];
    let discard = gp.select_stack(&vec![9, 4], &side);
    assert_eq!(
        discard,
        Move { from: CardStack::Hand, from_num: 1, to: CardStack::Side, to_num: 0 }
    );
}

#[test]
fn good_discard_duplicate_to_first_empty_side() {
    let gp = GoodPlayer {};
    let discard = gp.select_stack(&vec![3, 3, 7, 9, 2], &empty_side());
    assert_eq!(
        discard,
        Move { from: CardStack::Hand, from_num: 0, to: CardStack::Side, to_num: 0 }
    );
}

#[test]
fn good_discard_first_card_to_empty_side() {
    let gp = GoodPlayer {};
    let side = [Vec::new(), vec![2], Vec::new(), Vec::new()];
    let discard = gp.select_stack(&vec![3, 7], &side);
    assert_eq!(
        discard,
        Move { from: CardStack::Hand, from_num: 0, to: CardStack::Side, to_num: 0 }
    );
}

#[test]
fn good_discard_seeds_descending_side() {
    let gp = GoodPlayer {};
    let side = [vec![2], vec![9], vec![5], vec![4]];
    let discard = gp.select_stack(&vec![8], &side);
    assert_eq!(
        discard,
        Move { from: CardStack::Hand, from_num: 0, to: CardStack::Side, to_num: 1 }
    );
}

#[test]
fn good_discard_falls_back_to_first_side() {
    let gp = GoodPlayer {};
    let side = [vec![2], vec![3], vec![5], vec![4]];
    let discard = gp.select_stack(&vec![8], &side);
    assert_eq!(
        discard,
        Move { from: CardStack::Hand, from_num: 0, to: CardStack::Side, to_num: 0 }
    );
}

#[test]
fn chain_search_bridges_hand_cards() {
    let gp = GoodPlayer {};
    let hand = vec![6, 7, 1];
    let first = gp.recurse_stack(
        8,
        (5, false),
        2,
        hand.clone(),
        &hand,
        &empty_side(),
        false,
        false,
    );
    assert_eq!(
        first,
        Some(Move { from: CardStack::Hand, from_num: 0, to: CardStack::Field, to_num: 2 })
    );

    // After the 6 is played the field stands at (6, false) and the 7
    // becomes directly playable.
    let hand_after = vec![7, 1];
    let second = gp.recurse_stack(
        8,
        (6, false),
        2,
        hand_after.clone(),
        &hand_after,
        &empty_side(),
        false,
        false,
    );
    assert_eq!(
        second,
        Some(Move { from: CardStack::Hand, from_num: 0, to: CardStack::Field, to_num: 2 })
    );
}

#[test]
fn chain_search_through_select_move() {
    let gp = GoodPlayer {};
    let field = [(12, false), (12, false), (5, false), (12, false)];
    let hand = vec![6, 7, 1];
    let side = empty_side();
    let moves = vec![
        Move { from: CardStack::Hand, from_num: 2, to: CardStack::Field, to_num: 0 },
        Move { from: CardStack::Hand, from_num: 2, to: CardStack::Field, to_num: 1 },
        Move { from: CardStack::Hand, from_num: 2, to: CardStack::Field, to_num: 3 },
    ];
    let picked = gp.select_move(&moves, 8, 9, &side, &hand, &field);
    assert_eq!(
        picked,
        Some(Move { from: CardStack::Hand, from_num: 0, to: CardStack::Field, to_num: 2 })
    );
}

#[test]
fn blocking_search_activates_inside_threshold() {
    let gp = GoodPlayer {};
    let field = [(2, false), (12, false), (12, false), (12, false)];
    let hand = vec![4, 3];
    let side = empty_side();
    let moves = vec![
        Move { from: CardStack::Hand, from_num: 1, to: CardStack::Field, to_num: 0 },
    ];
    // Opponent needs a 5 on the stack at (2, false): two steps ahead,
    // inside the threshold, and the 4-3 chain occupies it.
    let picked = gp.select_move(&moves, 12, 4, &side, &hand, &field);
    assert_eq!(
        picked,
        Some(Move { from: CardStack::Hand, from_num: 1, to: CardStack::Field, to_num: 0 })
    );
}

#[test]
fn blocking_search_stays_quiet_outside_threshold() {
    let gp = GoodPlayer {};
    let field = [(9, false), (12, false), (12, false), (12, false)];
    let hand = vec![10, 4, 3];
    let side = empty_side();
    let moves = vec![
        Move { from: CardStack::Hand, from_num: 0, to: CardStack::Field, to_num: 0 },
    ];
    // The stack at (9, false) is seven steps from the opponent's 4, so
    // no blocking chain runs; the harmless 10 is played instead.
    let picked = gp.select_move(&moves, 12, 4, &side, &hand, &field);
    assert_eq!(
        picked,
        Some(Move { from: CardStack::Hand, from_num: 0, to: CardStack::Field, to_num: 0 })
    );
}

#[test]
fn good_declines_when_everything_helps_opponent() {
    let gp = GoodPlayer {};
    let field = [(2, false), (12, false), (12, false), (12, false)];
    // The only legal move hands the opponent the 3 they are one step
    // from needing.
    let hand = vec![3];
    let side = empty_side();
    let moves = vec![
        Move { from: CardStack::Hand, from_num: 0, to: CardStack::Field, to_num: 0 },
    ];
    let picked = gp.select_move(&moves, 12, 4, &side, &hand, &field);
    assert_eq!(picked, None);
}

#[test]
fn playing_a_turn_empties_the_stack_and_wins() {
    let mut game = fresh_game(
        vec![
            player(vec![2, 3, 4, 5, 6], empty_side(), vec![1]),
            player(vec![2, 3, 4, 5, 6], empty_side(), vec![7, 7]),
        ],
    );
    let sp = SimplePlayer {};
    game.play(0, &sp, 1000);
    assert!(game.end);
    assert_eq!(game.winner, 0);
    assert!(game.players[0].stack.is_empty());
}

#[test]
fn play_game_reports_winner_and_rounds() {
    let mut game = fresh_game(
        vec![
            player(vec![2, 3, 4, 5, 6], empty_side(), vec![1]),
            player(vec![2, 3, 4, 5, 6], empty_side(), vec![1]),
        ],
    );
    let sp1 = SimplePlayer {};
    let sp2 = SimplePlayer {};
    let (winner, rounds) = play_game(&mut game, &sp1, &sp2, 100);
    assert_eq!(winner, 0);
    assert_eq!(rounds, 1);
    assert!(game.end);
    assert!(game.players[winner as usize].stack.is_empty());
}

#[test]
fn play_game_surfaces_an_exhausted_budget_as_no_winner() {
    // A zero-round budget on an undecided match plays nothing and
    // reports seat -1.
    let mut game = fresh_game(
        vec![
            player(vec![2, 3, 4, 5, 6], empty_side(), vec![1]),
            player(vec![2, 3, 4, 5, 6], empty_side(), vec![1]),
        ],
    );
    let sp1 = SimplePlayer {};
    let sp2 = SimplePlayer {};
    let (winner, rounds) = play_game(&mut game, &sp1, &sp2, 0);
    assert_eq!(winner, -1);
    assert_eq!(rounds, 0);
    assert!(!game.end);
}

#[test]
fn turn_refills_short_hand_then_discards_once() {
    // No field stack ever accepts the 7 on top of the draw stack, so the
    // Bad strategy declines every turn: the short hand is refilled to
    // five and exactly one card is discarded.
    let mut game = fresh_game(vec![player(vec![1], empty_side(), vec![7])]);
    let bp = BadPlayer {};
    game.play(0, &bp, 10);
    assert!(!game.end);
    assert_eq!(game.players[0].hand.len(), 4);
    let side_cards: usize = game.players[0].side.iter().map(|s| s.len()).sum();
    assert_eq!(side_cards, 1);
    assert_eq!(game.players[0].stack, vec![7]);
}

#[test]
fn dealt_player_state_has_expected_shape() {
    let p = PlayerState::new(20);
    assert_eq!(p.stack.len(), 20);
    assert_eq!(p.hand.len(), 5);
    for c in &p.hand {
        assert!(*c == -1 || (1 <= *c && *c <= 12));
    }
    for c in &p.stack {
        assert!(*c == -1 || (1 <= *c && *c <= 12));
    }
    for s in &p.side {
        assert!(s.is_empty());
    }
}

#[test]
fn turn_with_no_fuel_only_refills_the_hand() {
    let mut game = fresh_game(vec![player(vec![1], empty_side(), vec![7])]);
    let sp = SimplePlayer {};
    game.play(0, &sp, 0);
    assert_eq!(game.players[0].hand.len(), 5);
    assert_eq!(game.players[0].hand[0], 1);
    assert_eq!(game.players[0].stack, vec![7]);
    assert!(game.players[0].side.iter().all(|s| s.is_empty()));
    assert_eq!(game.playing_field[0], (12, false));
    assert!(!game.end);
    assert_eq!(game.winner, -1);
}

#[test]
fn tallied_wins_stay_within_the_match_count() {
    let wins = play_n_games(2, 3);
    assert_eq!(wins.len(), 2);
    assert!(wins[0] >= 0 && wins[1] >= 0);
    assert!(wins[0] + wins[1] <= 3);
}
