use mafia::{
    default_setup, Action, Alignment, Attr, Event, Fate, Game, Input, Membership, Objective, Phase,
    PlayerStatus, State, Visibility,
};

fn name(s: &str) -> String {
    s.to_string()
}

fn apply(game: &mut Game, input: Input) -> Vec<(Visibility, Event)> {
    assert!(game.accepts(&input));
    let events = game.apply(&input).to_vec();
    assert!(game.is_sound());
    events
}

fn used(player: &str, action: Action) -> Input {
    Input::Use(name(player), action)
}

fn moderator(event: Event) -> (Visibility, Event) {
    (Visibility::Moderator, event)
}

fn public(event: Event) -> (Visibility, Event) {
    (Visibility::Public, event)
}

fn faction(alignment: Alignment, objective: Objective) -> Vec<Attr> {
    vec![
        Attr::Alignment(alignment),
        Attr::Membership(Membership::Hidden),
        Attr::Objective(objective),
    ]
}

fn member(faction: &str, rank: i64) -> Vec<Attr> {
    vec![Attr::Member(name(faction), rank)]
}

#[test]
fn test_new() {
    let game = Game::new();
    assert_eq!(game.start, State::new());
    assert_eq!(game.state, State::new());
    assert_eq!(game.state.seed, 0);
    assert!(game.state.players.is_empty());
    assert!(game.state.factions.is_empty());
    assert_eq!(game.phase, Phase::Night(0));
    assert_eq!(game.log, vec![public(Event::PhaseBegan(Phase::Night(0)))]);
    assert!(game.is_sound());
}

#[test]
fn a_game_keeps_the_state_it_began_from() {
    let setup = default_setup(99);
    let mut game = Game::new_from_state(setup.clone());
    assert_eq!(game.start, setup);
    assert_eq!(game.state, setup);
    apply(&mut game, used("Eve", Action::Order(name("Malory"), Box::new(Action::Kill(name("Bob"))))));
    apply(&mut game, Input::EndPhase);
    assert_eq!(game.start, setup);
    assert!(game.state != setup);
    assert_eq!(game.state.seed, 99);
    let copy = game.clone();
    assert_eq!(copy, game);
}

#[test]
fn an_end_of_phase_without_submissions_only_turns_the_phase() {
    let mut game = Game::new_from_state(default_setup(5));
    let events = apply(&mut game, Input::EndPhase);
    assert_eq!(
        events,
        vec![
            moderator(Event::Input(Input::EndPhase)),
            public(Event::PhaseEnded(Phase::Night(0))),
            public(Event::PhaseBegan(Phase::Day(1))),
        ]
    );
    assert_eq!(game.log.len(), 4);
    assert_eq!(game.state, default_setup(5));
    let events = apply(&mut game, Input::EndPhase);
    assert_eq!(
        events,
        vec![
            moderator(Event::Input(Input::EndPhase)),
            public(Event::PhaseEnded(Phase::Day(1))),
            public(Event::PhaseBegan(Phase::Night(1))),
        ]
    );
    assert_eq!(game.state, default_setup(6));
}

#[test]
fn an_investigation_tells_the_investigator_alone() {
    let mut game = Game::new_from_state(default_setup(0));
    let look = Action::Investigate(name("Eve"));
    assert_eq!(
        apply(&mut game, used("Alice", look.clone())),
        vec![moderator(Event::Input(used("Alice", look.clone())))]
    );
    let events = apply(&mut game, Input::EndPhase);
    assert_eq!(
        events,
        vec![
            moderator(Event::Input(Input::EndPhase)),
            moderator(Event::Accepted(name("Alice"), look)),
            (Visibility::Player(name("Alice")), Event::FoundAlignment(name("Eve"), Alignment::Evil)),
            public(Event::PhaseEnded(Phase::Night(0))),
            public(Event::PhaseBegan(Phase::Day(1))),
        ]
    );
}

#[test]
fn an_action_without_a_grant_is_rejected() {
    let mut game = Game::new_from_state(default_setup(0));
    let kill = Action::Kill(name("Eve"));
    apply(&mut game, used("Bob", kill.clone()));
    let own = Action::Protect(name("Charlie"));
    apply(&mut game, used("Charlie", own.clone()));
    let events = apply(&mut game, Input::EndPhase);
    assert_eq!(
        events,
        vec![
            moderator(Event::Input(Input::EndPhase)),
            moderator(Event::Rejected(name("Bob"), kill)),
            moderator(Event::Rejected(name("Charlie"), own)),
            public(Event::PhaseEnded(Phase::Night(0))),
            public(Event::PhaseBegan(Phase::Day(1))),
        ]
    );
    assert_eq!(game.get_living_players().len(), 5);
}

#[test]
fn the_last_submission_of_a_player_counts() {
    let mut game = Game::new_from_state(default_setup(0));
    let first = Action::Investigate(name("Bob"));
    let second = Action::Investigate(name("Eve"));
    apply(&mut game, used("Alice", first.clone()));
    apply(&mut game, used("Alice", second.clone()));
    let events = apply(&mut game, Input::EndPhase);
    assert_eq!(
        events,
        vec![
            moderator(Event::Input(Input::EndPhase)),
            moderator(Event::Rejected(name("Alice"), first)),
            moderator(Event::Accepted(name("Alice"), second)),
            (Visibility::Player(name("Alice")), Event::FoundAlignment(name("Eve"), Alignment::Evil)),
            public(Event::PhaseEnded(Phase::Night(0))),
            public(Event::PhaseBegan(Phase::Day(1))),
        ]
    );
}

#[test]
fn a_player_acts_once_a_phase_whatever_they_hold() {
    let mut state = default_setup(0);
    state.insert_player(
        name("Alice"),
        vec![
            Attr::Member(name("Town"), 0),
            Attr::Has(Action::Investigate(name("$PLAYER"))),
            Attr::Has(Action::Protect(name("$PLAYER"))),
        ],
    );
    assert!(state.is_sound());
    let mut game = Game::new_from_state(state);
    let look = Action::Investigate(name("Eve"));
    let guard = Action::Protect(name("Bob"));
    apply(&mut game, used("Alice", look.clone()));
    apply(&mut game, used("Alice", guard.clone()));
    let events = apply(&mut game, Input::EndPhase);
    assert_eq!(events[1], moderator(Event::Rejected(name("Alice"), look)));
    assert_eq!(events[2], moderator(Event::Accepted(name("Alice"), guard)));
    assert_eq!(events.len(), 5);
}

#[test]
fn a_tapped_grant_is_restored_for_the_next_phase() {
    let mut game = Game::new_from_state(default_setup(0));
    let look = Action::Investigate(name("Eve"));
    apply(&mut game, used("Alice", look.clone()));
    let grant = game.resolve_get_action("Alice", &look);
    assert!(grant.is_some());
    game.tap_grant(grant.unwrap());
    assert_eq!(
        game.state.players[0].1[1],
        Attr::Tapped(Box::new(Attr::Has(Action::Investigate(name("$PLAYER")))))
    );
    assert_eq!(game.resolve_get_action("Alice", &look), None);
    let events = apply(&mut game, Input::EndPhase);
    assert_eq!(events[1], moderator(Event::Rejected(name("Alice"), look.clone())));
    assert_eq!(game.state.players, default_setup(0).players);
    assert!(game.resolve_get_action("Alice", &look).is_none());
    apply(&mut game, Input::EndPhase);
    assert_eq!(game.phase, Phase::Night(1));
    assert!(game.resolve_get_action("Alice", &look).is_some());
    apply(&mut game, used("Alice", look.clone()));
    let events = apply(&mut game, Input::EndPhase);
    assert_eq!(events[1], moderator(Event::Accepted(name("Alice"), look)));
}

#[test]
fn protection_lasts_until_the_phase_boundary() {
    let mut game = Game::new_from_state(default_setup(0));
    game.resolve_action(&name("Charlie"), &Action::Protect(name("Alice")));
    assert!(game.is_bulletproof("Alice"));
    assert!(!game.is_bulletproof("Bob"));
    let before = game.log.len();
    game.resolve_action(&name("Eve"), &Action::Kill(name("Alice")));
    game.resolve_action(
        &name("Eve"),
        &Action::Order(name("Malory"), Box::new(Action::Kill(name("Alice")))),
    );
    assert!(game.is_alive("Alice"));
    assert_eq!(game.log.len(), before);
    apply(&mut game, Input::EndPhase);
    assert!(!game.is_bulletproof("Alice"));
    game.resolve_action(&name("Eve"), &Action::Kill(name("Alice")));
    assert!(!game.is_alive("Alice"));
    assert_eq!(game.log.last(), Some(&public(Event::Died(name("Alice")))));
    let after = game.log.len();
    game.resolve_action(&name("Eve"), &Action::Kill(name("Alice")));
    assert_eq!(game.log.len(), after);
}

#[test]
fn an_immediate_action_takes_effect_at_once_and_is_not_planned() {
    let mut game = Game::new_from_state(default_setup(0));
    let look = Action::Immediate(Box::new(Action::Investigate(name("Alice"))));
    assert_eq!(
        apply(&mut game, used("Bob", look.clone())),
        vec![
            moderator(Event::Input(used("Bob", look))),
            (Visibility::Player(name("Bob")), Event::FoundAlignment(name("Alice"), Alignment::Good)),
        ]
    );
    let kill = Action::Order(
        name("Eve"),
        Box::new(Action::Immediate(Box::new(Action::Kill(name("Bob"))))),
    );
    assert_eq!(
        apply(&mut game, used("Malory", kill.clone())),
        vec![moderator(Event::Input(used("Malory", kill.clone()))), public(Event::Died(name("Bob")))]
    );
    assert_eq!(game.get_status("Bob"), PlayerStatus::Dead);
    let events = apply(&mut game, Input::EndPhase);
    assert_eq!(
        events,
        vec![
            moderator(Event::Input(Input::EndPhase)),
            moderator(Event::Rejected(name("Malory"), kill)),
            public(Event::PhaseEnded(Phase::Night(0))),
            public(Event::PhaseBegan(Phase::Day(1))),
        ]
    );
}

#[test]
fn votes_add_up_in_any_order() {
    let orders: Vec<Vec<&str>> = vec![
        vec!["Alice", "Bob", "Charlie"],
        vec!["Charlie", "Alice", "Bob"],
        vec!["Bob", "Charlie", "Alice"],
    ];
    for voters in orders {
        let mut game = Game::new_from_state(default_setup(0));
        assert_eq!(game.num_votes_for("Eve"), 0);
        for (n, voter) in voters.iter().enumerate() {
            let vote = Action::Immediate(Box::new(Action::Vote(name("Eve"))));
            apply(&mut game, used(voter, vote));
            assert_eq!(game.num_votes_for("Eve"), n as i128 + 1);
        }
        assert_eq!(game.num_votes_for("Malory"), 0);
        apply(&mut game, Input::EndPhase);
        assert_eq!(game.num_votes_for("Eve"), 0);
    }
}

#[test]
fn votes_of_all_attributes_count() {
    let mut state = default_setup(0);
    state.insert_player(
        name("Bob"),
        vec![
            Attr::ReceivedVotes(5),
            Attr::Member(name("Town"), 0),
            Attr::Phases(2, Box::new(Attr::ReceivedVotes(-2))),
            Attr::Tapped(Box::new(Attr::ReceivedVotes(100))),
            Attr::ReceivedVotes(i64::MAX),
        ],
    );
    let game = Game::new_from_state(state);
    assert_eq!(game.num_votes_for("Bob"), i64::MAX as i128 + 103);
}

fn two_camps(town: Objective, mafia: Objective) -> Game {
    let mut state = State::new();
    state.insert_faction(name("Town"), faction(Alignment::Good, town));
    state.insert_faction(name("Mafia"), faction(Alignment::Evil, mafia));
    state.insert_player(name("Alice"), member("Town", 0));
    state.insert_player(name("Bob"), member("Town", 0));
    state.insert_player(name("Eve"), member("Mafia", 1));
    state.insert_player(name("Malory"), member("Mafia", 0));
    assert!(state.is_sound());
    Game::new_from_state(state)
}

#[test]
fn a_faction_wins_when_the_alignment_it_hunts_is_gone() {
    let mut game = two_camps(Objective::Eliminate(Alignment::Evil), Objective::Survive);
    assert_eq!(game.get_faction_fate("Town"), Fate::Losing);
    assert_eq!(game.get_faction_fate("Mafia"), Fate::Winning);
    game.make_dead(&name("Eve"));
    assert_eq!(game.num_living_alignment(&Alignment::Evil), 1);
    assert_eq!(game.get_faction_fate("Town"), Fate::Losing);
    game.make_dead(&name("Malory"));
    assert_eq!(game.num_living_alignment(&Alignment::Evil), 0);
    assert_eq!(game.num_living_alignment(&Alignment::Good), 2);
    assert_eq!(game.num_living_alignment(&Alignment::Neutral), 0);
    assert_eq!(game.get_faction_fate("Town"), Fate::Won);
    assert_eq!(game.get_faction_fate("Mafia"), Fate::Lost);
}

#[test]
fn a_faction_wins_when_the_faction_it_hunts_is_gone() {
    let mut game = two_camps(
        Objective::EliminateFaction(name("Mafia")),
        Objective::EliminateFaction(name("Nobody")),
    );
    assert_eq!(game.get_faction_fate("Town"), Fate::Losing);
    assert_eq!(game.get_faction_fate("Mafia"), Fate::Won);
    game.make_dead(&name("Eve"));
    game.make_dead(&name("Malory"));
    assert_eq!(game.get_faction_fate("Town"), Fate::Won);
}

#[test]
fn a_majority_is_more_than_half_of_the_living() {
    let mut game = two_camps(Objective::AchieveMajority, Objective::AchieveMajority);
    assert_eq!(game.get_faction_fate("Town"), Fate::Losing);
    assert_eq!(game.get_faction_fate("Mafia"), Fate::Losing);
    game.make_dead(&name("Alice"));
    assert_eq!(game.num_living_players(), 3);
    assert_eq!(game.num_living_members("Mafia"), 2);
    assert_eq!(game.num_living_members("Town"), 1);
    assert_eq!(game.get_faction_fate("Town"), Fate::Losing);
    assert_eq!(game.get_faction_fate("Mafia"), Fate::Won);
}

#[test]
fn winners_are_named_when_a_phase_ends() {
    let mut game = two_camps(Objective::EliminateFaction(name("Nobody")), Objective::Eliminate(Alignment::Neutral));
    let events = apply(&mut game, Input::EndPhase);
    assert_eq!(
        events,
        vec![
            moderator(Event::Input(Input::EndPhase)),
            public(Event::Won(name("Mafia"))),
            public(Event::Won(name("Town"))),
            public(Event::PhaseEnded(Phase::Night(0))),
            public(Event::PhaseBegan(Phase::Day(1))),
        ]
    );
}

#[test]
fn the_living_member_of_lowest_rank_leads() {
    let mut game = two_camps(Objective::Survive, Objective::Survive);
    assert_eq!(game.get_members("Mafia"), vec![name("Malory"), name("Eve")]);
    assert_eq!(game.get_members("Town"), vec![name("Alice"), name("Bob")]);
    assert_eq!(game.get_members("Nobody"), Vec::<String>::new());
    assert_eq!(game.get_leader("Mafia"), Some(name("Malory")));
    assert_eq!(game.get_leader("Town"), Some(name("Alice")));
    assert_eq!(game.get_leader("Nobody"), None);
    game.make_dead(&name("Malory"));
    game.make_dead(&name("Alice"));
    assert_eq!(game.get_leader("Mafia"), Some(name("Eve")));
    assert_eq!(game.get_leader("Town"), Some(name("Bob")));
    game.make_dead(&name("Eve"));
    assert_eq!(game.get_leader("Mafia"), None);
    assert_eq!(game.get_living_players(), vec![name("Bob")]);
    assert_eq!(
        game.get_statuses(),
        vec![
            (name("Alice"), PlayerStatus::Dead),
            (name("Bob"), PlayerStatus::Alive),
            (name("Eve"), PlayerStatus::Dead),
            (name("Malory"), PlayerStatus::Dead),
        ]
    );
}

#[test]
fn the_newest_membership_counts() {
    let mut game = two_camps(Objective::Survive, Objective::Survive);
    assert_eq!(game.get_faction_and_rank("Bob"), (name("Town"), 0));
    game.add_attr("Bob", Attr::Phases(1, Box::new(Attr::Member(name("Mafia"), -1))));
    assert!(game.is_sound());
    assert_eq!(game.get_faction_and_rank("Bob"), (name("Mafia"), -1));
    assert_eq!(game.get_faction("Bob"), name("Mafia"));
    assert_eq!(game.get_player_alignment("Bob"), Alignment::Evil);
    assert_eq!(game.get_leader("Mafia"), Some(name("Bob")));
    assert_eq!(game.get_faction_alignment("Town"), Alignment::Good);
    assert_eq!(game.get_faction_attrs("Town"), &faction(Alignment::Good, Objective::Survive));
    assert_eq!(game.get_attrs("Alice"), &member("Town", 0));
    assert_eq!(game.get_faction_objective("Town"), Objective::Survive);
    apply(&mut game, Input::EndPhase);
    assert_eq!(game.get_faction_and_rank("Bob"), (name("Town"), 0));
}

#[test]
fn the_plan_is_resolved_by_precedence_then_by_submission() {
    let mut state = State::new();
    state.insert_faction(name("Town"), faction(Alignment::Good, Objective::Survive));
    for (player, action) in [
        ("Alice", Action::Kill(name("$PLAYER"))),
        ("Bob", Action::Investigate(name("$PLAYER"))),
        ("Charlie", Action::Protect(name("$PLAYER"))),
        ("Dave", Action::Kill(name("$PLAYER"))),
        ("Eve", Action::Investigate(name("$PLAYER"))),
    ] {
        state.insert_player(name(player), vec![Attr::Member(name("Town"), 0), Attr::Has(action)]);
    }
    let mut game = Game::new_from_state(state);
    apply(&mut game, used("Dave", Action::Kill(name("Bob"))));
    apply(&mut game, used("Alice", Action::Kill(name("Charlie"))));
    apply(&mut game, used("Eve", Action::Investigate(name("Alice"))));
    apply(&mut game, used("Charlie", Action::Protect(name("Charlie"))));
    apply(&mut game, used("Bob", Action::Investigate(name("Dave"))));
    let mut copy = game.clone();
    let plan = copy.resolve_build_plan();
    assert_eq!(
        plan,
        vec![
            (name("Eve"), Action::Investigate(name("Alice"))),
            (name("Bob"), Action::Investigate(name("Dave"))),
            (name("Charlie"), Action::Protect(name("Charlie"))),
            (name("Dave"), Action::Kill(name("Bob"))),
            (name("Alice"), Action::Kill(name("Charlie"))),
        ]
    );
    let events = apply(&mut game, Input::EndPhase);
    let shown: Vec<Event> = events[6..].iter().map(|e| e.1.clone()).collect();
    assert_eq!(
        shown,
        vec![
            Event::FoundAlignment(name("Alice"), Alignment::Good),
            Event::FoundAlignment(name("Dave"), Alignment::Good),
            Event::Died(name("Bob")),
            Event::PhaseEnded(Phase::Night(0)),
            Event::PhaseBegan(Phase::Day(1)),
        ]
    );
    assert!(game.is_alive("Charlie"));
}

#[test]
fn inputs_that_speak_of_strangers_are_not_taken() {
    let game = Game::new_from_state(default_setup(0));
    assert!(game.accepts(&Input::EndPhase));
    assert!(game.accepts(&used("Alice", Action::Kill(name("Bob")))));
    assert!(!game.accepts(&used("Zed", Action::Kill(name("Bob")))));
    assert!(!game.accepts(&used("Alice", Action::Kill(name("Zed")))));
    assert!(!game.accepts(&used("Alice", Action::Vote(name("$PLAYER")))));
    assert!(game.accepts(&used("Alice", Action::Order(name("$PLAYER"), Box::new(Action::Kill(name("Bob")))))));
    assert!(!game.accepts(&used("Alice", Action::Order(name("Bob"), Box::new(Action::Kill(name("Zed")))))));
    assert!(!game.accepts(&used("Alice", Action::Immediate(Box::new(Action::Protect(name("Zed")))))));
    assert!(game.accepts(&used("Alice", Action::Day(Box::new(Action::Protect(name("Zed")))))));
    assert!(!game.accepts(&used(
        "Alice",
        Action::Order(name("Bob"), Box::new(Action::Immediate(Box::new(Action::Vote(name("Zed")))))),
    )));
}

#[test]
fn a_phase_cannot_end_where_numbers_run_out() {
    let mut game = Game::new_from_state(default_setup(u64::MAX));
    assert!(game.accepts(&Input::EndPhase));
    game.apply(&Input::EndPhase);
    assert_eq!(game.phase, Phase::Day(1));
    assert!(!game.accepts(&Input::EndPhase));
    game.state.seed = u64::MAX - 1;
    assert!(game.accepts(&Input::EndPhase));
    game.apply(&Input::EndPhase);
    assert_eq!(game.state.seed, u64::MAX);
    game.phase = Phase::Night(i64::MAX);
    assert!(!game.accepts(&Input::EndPhase));
    game.phase = Phase::Night(i64::MAX - 1);
    assert!(game.accepts(&Input::EndPhase));
    game.apply(&Input::EndPhase);
    assert_eq!(game.phase, Phase::Day(i64::MAX));
}
