//! Match driver: plays whole matches and tallies wins per seat.

use vstd::prelude::*;
use vstd::pervasive::VecAdditionalExecFns;
use crate::game::SkipBoGame;
use crate::players::{Player, PlayerState, NewPlayerState};
use crate::simple_player::SimplePlayer;
use crate::good_player::GoodPlayer;

verus! {

/// Decision steps granted to one turn. A real turn plays at most a
/// handful of cards; the bound only makes the turn loop provably
/// finite.
pub const TURN_FUEL: u32 = 100000;

/// Rounds granted to one match before the driver gives up on it.
pub const MATCH_ROUNDS: i32 = 1000000;

/// Plays rounds of one turn per player on a fresh match until some
/// draw stack empties or the round budget runs out. Returns the
/// winning seat (`-1` exactly when the budget ran out first) and the
/// number of rounds played: the loop stops only on a recorded win or
/// a spent budget, and a recorded winner's draw stack is empty.
pub fn play_game<P1: Player, P2: Player>(
    game: &mut SkipBoGame,
    first: &P1,
    second: &P2,
    max_rounds: i32,
) -> (r: (i8, i32))
    requires
        old(game).wf(),
        old(game).players@.len() == 2,
        forall|i: int| 0 <= i < 2 ==> old(game).players@[i].hand@.len() <= 127,
        max_rounds >= 0,
        old(game).end == false,
        old(game).winner == -1,
    ensures
        final(game).wf(),
        final(game).players@.len() == 2,
        r.0 == final(game).winner,
        -1 <= r.0 < 2,
        0 <= r.1 <= max_rounds,
        final(game).end || r.1 == max_rounds,
        final(game).end ==> final(game).decided(),
        !final(game).end ==> r.0 == -1,
        r.0 >= 0 <==> final(game).end,
{
    let mut n: i32 = 0;
    let mut won = game.check_win();
    while !won && n < max_rounds
        invariant
            game.wf(),
            game.players@.len() == 2,
            forall|i: int| 0 <= i < 2 ==> (#[trigger] game.players@[i]).hand@.len() <= 127,
            0 <= n <= max_rounds,
            won ==> game.end,
            game.end ==> game.decided(),
            !game.end ==> game.winner == -1,
        decreases max_rounds - n,
    {
        game.play(0, first, TURN_FUEL);
        game.play(1, second, TURN_FUEL);
        n = n + 1;
        won = game.check_win();
    }
    (game.winner, n)
}

/// Plays `n` matches of the Simple strategy against the Good strategy,
/// each over fresh deals with draw stacks of twenty cards, and counts
/// the wins of each seat. Seats beyond the two players stay at zero.
/// Every decided match is tallied for exactly one seat, so the two
/// tallies sum to the match count whenever every match ends within the
/// round budget; a match that exhausts the budget counts for nobody,
/// which is why the contract bounds the sum by `n` instead of equating
/// it.
pub fn play_n_games(player_number: i64, n: i32) -> (wins: Vec<i64>)
    requires
        2 <= player_number,
    ensures
        wins@.len() == player_number,
        forall|i: int| 0 <= i < wins@.len() ==> #[trigger] wins@[i] >= 0,
        wins@[0] + wins@[1] <= (if n >= 0 {
            n as int
        } else {
            0int
        }),
        forall|i: int| 2 <= i < wins@.len() ==> #[trigger] wins@[i] == 0,
{
    let mut wins: Vec<i64> = Vec::new();
    let mut w: i64 = 0;
    while w < player_number
        invariant
            0 <= w <= player_number,
            wins@.len() == w,
            forall|i: int| 0 <= i < wins@.len() ==> #[trigger] wins@[i] == 0,
        decreases player_number - w,
    {
        wins.push(0);
        w = w + 1;
    }

    let mut g: i32 = 0;
    while g < n
        invariant
            2 <= player_number,
            wins@.len() == player_number,
            0 <= g,
            n >= 0 ==> g <= n,
            n < 0 ==> g == 0,
            forall|i: int| 0 <= i < wins@.len() ==> #[trigger] wins@[i] >= 0,
            wins@[0] + wins@[1] <= g,
            forall|i: int| 2 <= i < wins@.len() ==> #[trigger] wins@[i] == 0,
        decreases n - g,
    {
        let mut dealt: Vec<PlayerState> = Vec::new();
        dealt.push(PlayerState::new(20));
        dealt.push(PlayerState::new(20));
        let mut game = SkipBoGame::new(dealt);

        let simple = SimplePlayer {};
        let good = GoodPlayer {};
        let (winner, _rounds) = play_game(&mut game, &simple, &good, MATCH_ROUNDS);

        if winner >= 0 {
            let wi = winner as usize;
            let tally = wins[wi];
            wins.set(wi, tally + 1);
        }
        g = g + 1;
    }
    wins
}

} // verus!
