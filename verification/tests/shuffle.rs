use mafia::{Action, Alignment, Attr, Event, Game, Input, Membership, Objective, State};
use rand::seq::SliceRandom;
use rand_core::SeedableRng;
use rand_xoshiro::Xoshiro256StarStar;

fn name(s: &str) -> String {
    s.to_string()
}

const PLAYERS: [&str; 7] = ["Ann", "Ben", "Cyd", "Dee", "Eli", "Fay", "Gus"];

fn crowd(seed: u64) -> State {
    let mut state = State::new();
    state.insert_faction(
        name("Town"),
        vec![
            Attr::Alignment(Alignment::Good),
            Attr::Membership(Membership::Hidden),
            Attr::Objective(Objective::Survive),
        ],
    );
    for player in PLAYERS {
        state.insert_player(name(player), vec![Attr::Member(name("Town"), 0)]);
    }
    state.seed = seed;
    state
}

/// The player whom a stable sort of the shuffled queue by falling votes puts first.
fn first_after_shuffle(seed: u64, votes: &[i64]) -> Option<String> {
    let mut queue: Vec<(i64, &str)> = votes.iter().cloned().zip(PLAYERS.iter().cloned()).collect();
    let mut rng = Xoshiro256StarStar::seed_from_u64(seed);
    queue.shuffle(&mut rng);
    queue.sort_by_cached_key(|(v, _)| -v);
    match queue.first() {
        Some((v, player)) if *v > 0 => Some(player.to_string()),
        _ => None,
    }
}

fn eliminated(seed: u64, votes: &[i64]) -> Option<String> {
    let mut game = Game::new_from_state(crowd(seed));
    assert!(game.accepts(&Input::EndPhase));
    game.apply(&Input::EndPhase);
    for (player, n) in PLAYERS.iter().zip(votes) {
        for _ in 0..*n {
            let vote = Action::Immediate(Box::new(Action::Vote(name(player))));
            let input = Input::Use(name("Ann"), vote);
            assert!(game.accepts(&input));
            game.apply(&input);
        }
    }
    assert!(game.accepts(&Input::EndPhase));
    let events = game.apply(&Input::EndPhase).to_vec();
    assert_eq!(game.state.seed, seed + 1);
    let mut dead = Vec::new();
    for (_, event) in events {
        if let Event::Died(player) = event {
            dead.push(player);
        }
    }
    assert!(dead.len() <= 1);
    dead.pop()
}

#[test]
fn ties_are_broken_as_a_shuffle_of_the_queue_breaks_them() {
    let ballots: [[i64; 7]; 5] = [
        [1, 1, 1, 1, 1, 1, 1],
        [0, 2, 0, 2, 0, 2, 0],
        [3, 0, 0, 0, 0, 0, 3],
        [0, 0, 0, 0, 0, 0, 0],
        [1, 2, 3, 3, 2, 1, 0],
    ];
    for votes in ballots {
        for seed in 0..40u64 {
            assert_eq!(eliminated(seed, &votes), first_after_shuffle(seed + 1, &votes));
        }
    }
}

#[test]
fn every_player_in_a_tie_can_be_the_one() {
    let votes = [1, 1, 1, 1, 1, 1, 1];
    let mut seen = std::collections::BTreeSet::new();
    for seed in 0..200u64 {
        seen.insert(eliminated(seed, &votes).unwrap());
    }
    assert_eq!(seen.len(), 7);
}

fn voted(votes: &[i64]) -> Game {
    let mut game = Game::new_from_state(crowd(0));
    for (player, n) in PLAYERS.iter().zip(votes) {
        for _ in 0..*n {
            game.resolve_action(&name("Ann"), &Action::Vote(name(player)));
        }
    }
    game
}

fn dead_after(game: &Game, before: usize) -> Vec<String> {
    let mut dead = Vec::new();
    for (_, event) in &game.log[before..] {
        if let Event::Died(player) = event {
            dead.push(player.clone());
        }
    }
    dead
}

#[test]
fn the_tally_counts_votes_downwards_for_the_living() {
    let mut game = voted(&[0, 2, 0, 1, 0, 0, 3]);
    game.make_dead(&name("Dee"));
    assert_eq!(
        game.tally(),
        vec![
            (0, name("Ann")),
            (-2, name("Ben")),
            (0, name("Cyd")),
            (0, name("Eli")),
            (0, name("Fay")),
            (-3, name("Gus")),
        ]
    );
}

#[test]
fn the_order_decides_between_players_with_the_same_votes() {
    let votes = [0, 2, 0, 2, 1, 0, 2];
    let orders: [([usize; 7], &str); 4] = [
        ([0, 1, 2, 3, 4, 5, 6], "Ben"),
        ([6, 5, 4, 3, 2, 1, 0], "Gus"),
        ([4, 3, 6, 1, 0, 2, 5], "Dee"),
        ([2, 0, 4, 6, 3, 1, 5], "Gus"),
    ];
    for (order, victim) in orders {
        let mut game = voted(&votes);
        let before = game.log.len();
        let seed = game.state.seed;
        game.eliminate_by(&order.to_vec());
        assert_eq!(dead_after(&game, before), vec![name(victim)]);
        assert_eq!(game.state.seed, seed);
        assert!(!game.is_alive(victim));
        assert!(game.is_sound());
    }
}

#[test]
fn the_most_voted_is_eliminated_in_every_order() {
    let orders: [[usize; 7]; 3] = [
        [0, 1, 2, 3, 4, 5, 6],
        [6, 5, 4, 3, 2, 1, 0],
        [3, 0, 6, 2, 5, 1, 4],
    ];
    for order in orders {
        let mut game = voted(&[1, 2, 0, 3, 2, 0, 1]);
        let before = game.log.len();
        game.eliminate_by(&order.to_vec());
        assert_eq!(dead_after(&game, before), vec![name("Dee")]);
        let mut quiet = voted(&[0, 0, 0, 0, 0, 0, 0]);
        let before = quiet.log.len();
        let state = quiet.state.clone();
        quiet.eliminate_by(&order.to_vec());
        assert_eq!(quiet.log.len(), before);
        assert_eq!(quiet.state, state);
    }
    let mut empty = Game::new();
    empty.eliminate_by(&vec![]);
    assert_eq!(empty.log.len(), 1);
}
