use mafia::{
    Action, Alignment, Attr, Event, Game, Input, Membership, Objective, Phase, PlayerStatus, State,
    Visibility,
};

fn name(s: &str) -> String {
    s.to_string()
}

fn day_vote() -> Attr {
    Attr::Has(Action::Day(Box::new(Action::Vote(name("$PLAYER")))))
}

/// Town of Alice, Bob and Charlie; Mafia of Eve and Malory, led by Malory.
fn village(seed: u64) -> State {
    let mut state = State::new();
    state.insert_faction(
        name("Mafia"),
        vec![
            Attr::Has(Action::Order(name("$MEMBER"), Box::new(Action::Kill(name("$PLAYER"))))),
            Attr::Alignment(Alignment::Evil),
            Attr::Membership(Membership::Visible),
            Attr::Objective(Objective::Eliminate(Alignment::Good)),
        ],
    );
    state.insert_faction(
        name("Town"),
        vec![
            Attr::Alignment(Alignment::Good),
            Attr::Membership(Membership::Hidden),
            Attr::Objective(Objective::Eliminate(Alignment::Evil)),
        ],
    );
    state.insert_player(name("Malory"), vec![Attr::Member(name("Mafia"), 0), day_vote()]);
    state.insert_player(name("Eve"), vec![Attr::Member(name("Mafia"), 1), day_vote()]);
    state.insert_player(
        name("Charlie"),
        vec![
            Attr::Member(name("Town"), 0),
            Attr::Has(Action::Protect(name("$OTHER_PLAYER"))),
            day_vote(),
        ],
    );
    state.insert_player(name("Bob"), vec![Attr::Member(name("Town"), 0), day_vote()]);
    state.insert_player(
        name("Alice"),
        vec![
            Attr::Member(name("Town"), 0),
            Attr::Has(Action::Investigate(name("$PLAYER"))),
            day_vote(),
        ],
    );
    state.seed = seed;
    assert!(state.is_sound());
    state
}

fn apply(game: &mut Game, input: Input) -> Vec<(Visibility, Event)> {
    assert!(game.accepts(&input));
    game.apply(&input).to_vec()
}

fn used(player: &str, action: Action) -> Input {
    Input::Use(name(player), action)
}

fn died(events: &[(Visibility, Event)]) -> Vec<String> {
    let mut out = Vec::new();
    for (_, event) in events {
        if let Event::Died(player) = event {
            out.push(player.clone());
        }
    }
    out
}

fn status_of(game: &Game, player: &str) -> PlayerStatus {
    for (p, status) in game.get_statuses() {
        if p == player {
            return status;
        }
    }
    panic!("no such player");
}

#[test]
fn players_are_kept_in_the_order_of_their_names() {
    let state = village(0);
    let names: Vec<&str> = state.players.iter().map(|e| e.0.as_str()).collect();
    assert_eq!(names, vec!["Alice", "Bob", "Charlie", "Eve", "Malory"]);
    let factions: Vec<&str> = state.factions.iter().map(|e| e.0.as_str()).collect();
    assert_eq!(factions, vec!["Mafia", "Town"]);
}

#[test]
fn protection_resolves_before_the_ordered_kill() {
    let mut game = Game::new_from_state(village(1));
    let kill = Action::Order(name("$PLAYER"), Box::new(Action::Kill(name("Alice"))));
    let protect = Action::Protect(name("Alice"));
    let first = apply(&mut game, used("Malory", kill.clone()));
    assert_eq!(
        first,
        vec![(Visibility::Moderator, Event::Input(used("Malory", kill.clone())))]
    );
    apply(&mut game, used("Charlie", protect.clone()));
    let events = apply(&mut game, Input::EndPhase);
    assert_eq!(
        events,
        vec![
            (Visibility::Moderator, Event::Input(Input::EndPhase)),
            (Visibility::Moderator, Event::Accepted(name("Malory"), kill)),
            (Visibility::Moderator, Event::Accepted(name("Charlie"), protect)),
            (Visibility::Public, Event::PhaseEnded(Phase::Night(0))),
            (Visibility::Public, Event::PhaseBegan(Phase::Day(1))),
        ]
    );
    assert!(died(&events).is_empty());
    assert_eq!(game.phase, Phase::Day(1));
    assert_eq!(status_of(&game, "Alice"), PlayerStatus::Alive);
    assert!(game.is_alive("Alice"));
    assert!(!game.is_bulletproof("Alice"));
}

#[test]
fn an_unprotected_target_of_the_ordered_kill_dies() {
    let mut game = Game::new_from_state(village(1));
    let kill = Action::Order(name("$PLAYER"), Box::new(Action::Kill(name("Alice"))));
    apply(&mut game, used("Malory", kill.clone()));
    let events = apply(&mut game, Input::EndPhase);
    assert_eq!(died(&events), vec![name("Alice")]);
    assert_eq!(status_of(&game, "Alice"), PlayerStatus::Dead);
    assert!(events.contains(&(Visibility::Public, Event::Died(name("Alice")))));
}

#[test]
fn only_the_leader_may_use_what_the_faction_is_granted() {
    let mut game = Game::new_from_state(village(1));
    let kill = Action::Order(name("$PLAYER"), Box::new(Action::Kill(name("Alice"))));
    apply(&mut game, used("Eve", kill.clone()));
    let events = apply(&mut game, Input::EndPhase);
    assert!(events.contains(&(Visibility::Moderator, Event::Rejected(name("Eve"), kill))));
    assert!(died(&events).is_empty());
}

fn votes(game: &mut Game, ballots: &[(&str, &str)]) {
    for (voter, target) in ballots {
        let events = apply(game, used(voter, Action::Vote(name(target))));
        assert_eq!(
            events[1],
            (Visibility::Public, Event::VotedFor(name(voter), name(target)))
        );
    }
}

#[test]
fn the_player_with_most_votes_is_eliminated() {
    for seed in 0..16u64 {
        let mut game = Game::new_from_state(village(seed));
        apply(&mut game, Input::EndPhase);
        assert_eq!(game.phase, Phase::Day(1));
        votes(&mut game, &[("Bob", "Eve"), ("Charlie", "Eve"), ("Alice", "Malory")]);
        assert_eq!(game.num_votes_for("Eve"), 0);
        let events = apply(&mut game, Input::EndPhase);
        assert_eq!(died(&events), vec![name("Eve")]);
        assert_eq!(game.state.seed, seed + 1);
        assert_eq!(game.phase, Phase::Night(1));
        assert_eq!(game.num_votes_for("Eve"), 0);
        assert_eq!(status_of(&game, "Eve"), PlayerStatus::Dead);
    }
}

fn tie(seed: u64) -> String {
    let mut game = Game::new_from_state(village(seed));
    apply(&mut game, Input::EndPhase);
    votes(&mut game, &[("Bob", "Eve"), ("Eve", "Bob")]);
    let events = apply(&mut game, Input::EndPhase);
    let dead = died(&events);
    assert_eq!(dead.len(), 1);
    dead[0].clone()
}

#[test]
fn a_tie_is_broken_the_same_way_from_the_same_seed() {
    for seed in 0..8u64 {
        assert_eq!(tie(seed), tie(seed));
    }
}

#[test]
fn a_tie_is_broken_either_way_over_many_seeds() {
    let mut bob = 0;
    let mut eve = 0;
    for seed in 0..64u64 {
        match tie(seed).as_str() {
            "Bob" => bob += 1,
            "Eve" => eve += 1,
            other => panic!("{} was eliminated without a vote", other),
        }
    }
    assert!(bob > 0);
    assert!(eve > 0);
}

#[test]
fn nobody_is_eliminated_without_votes() {
    let mut game = Game::new_from_state(village(3));
    apply(&mut game, Input::EndPhase);
    let events = apply(&mut game, Input::EndPhase);
    assert!(died(&events).is_empty());
    assert_eq!(game.get_living_players().len(), 5);
}

#[test]
fn the_town_that_wants_the_majority_wins_the_first_night() {
    let mut state = village(1);
    state.insert_faction(
        name("Town"),
        vec![
            Attr::Alignment(Alignment::Good),
            Attr::Membership(Membership::Hidden),
            Attr::Objective(Objective::AchieveMajority),
        ],
    );
    let mut game = Game::new_from_state(state);
    let kill = Action::Order(name("$PLAYER"), Box::new(Action::Kill(name("Alice"))));
    let protect = Action::Protect(name("Alice"));
    apply(&mut game, used("Malory", kill.clone()));
    apply(&mut game, used("Charlie", protect.clone()));
    let events = apply(&mut game, Input::EndPhase);
    assert_eq!(
        events,
        vec![
            (Visibility::Moderator, Event::Input(Input::EndPhase)),
            (Visibility::Moderator, Event::Accepted(name("Malory"), kill)),
            (Visibility::Moderator, Event::Accepted(name("Charlie"), protect)),
            (Visibility::Public, Event::Won(name("Town"))),
            (Visibility::Public, Event::PhaseEnded(Phase::Night(0))),
            (Visibility::Public, Event::PhaseBegan(Phase::Day(1))),
        ]
    );
    let delivery = game.deliver(&Visibility::Public, &events);
    assert_eq!(
        delivery.statuses,
        Some(vec![
            (name("Alice"), PlayerStatus::Alive),
            (name("Bob"), PlayerStatus::Alive),
            (name("Charlie"), PlayerStatus::Alive),
            (name("Eve"), PlayerStatus::Alive),
            (name("Malory"), PlayerStatus::Alive),
        ])
    );
}
