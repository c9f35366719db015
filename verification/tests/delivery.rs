use mafia::{
    default_keys, default_setup, handle, look_up, Action, Attr, Delivery, Entity, Event, FactionState,
    Game, Input, IsDefault, Alignment, Membership, Objective, Phase, PlayerStatus, Refusal, Request,
    Response, State, Step, Visibility,
};

fn name(s: &str) -> String {
    s.to_string()
}

fn observers() -> Vec<Visibility> {
    vec![
        Visibility::Public,
        Visibility::Moderator,
        Visibility::Player(name("Alice")),
        Visibility::Player(name("Eve")),
        Visibility::Player(name("Zed")),
        Visibility::Faction(name("Town")),
        Visibility::Faction(name("Mafia")),
    ]
}

fn seen_by(game: &Game, tag: &Visibility) -> Vec<bool> {
    observers().iter().map(|viewer| game.visible(tag, viewer)).collect()
}

#[test]
fn events_are_seen_by_those_they_are_for() {
    let game = Game::new_from_state(default_setup(0));
    assert_eq!(seen_by(&game, &Visibility::Public), vec![true; 7]);
    assert_eq!(
        seen_by(&game, &Visibility::Moderator),
        vec![false, true, false, false, false, false, false]
    );
    assert_eq!(
        seen_by(&game, &Visibility::Player(name("Alice"))),
        vec![false, true, true, false, false, false, false]
    );
    assert_eq!(
        seen_by(&game, &Visibility::Faction(name("Mafia"))),
        vec![false, true, false, true, false, false, true]
    );
    assert_eq!(
        seen_by(&game, &Visibility::Faction(name("Town"))),
        vec![false, true, true, false, false, true, false]
    );
    assert_eq!(
        seen_by(&game, &Visibility::Faction(name("Nobody"))),
        vec![false, true, false, false, false, false, false]
    );
}

#[test]
fn membership_is_judged_as_of_now() {
    let mut game = Game::new_from_state(default_setup(0));
    assert!(game.is_member("Alice", "Town"));
    assert!(!game.is_member("Alice", "Mafia"));
    assert!(!game.is_member("Zed", "Town"));
    game.add_attr("Alice", Attr::Member(name("Mafia"), 5));
    assert!(game.is_member("Alice", "Mafia"));
    assert!(!game.is_member("Alice", "Town"));
    game.make_dead(&name("Alice"));
    assert!(game.is_member("Alice", "Mafia"));
}

#[test]
fn an_observer_is_sent_what_they_may_see() {
    let game = Game::new_from_state(default_setup(0));
    let found = Event::FoundAlignment(name("Eve"), Alignment::Evil);
    let accepted = Event::Accepted(name("Alice"), Action::Investigate(name("Eve")));
    let plot = Event::Used(name("Eve"), Action::Kill(name("Bob")));
    let updates = vec![
        (Visibility::Moderator, accepted.clone()),
        (Visibility::Player(name("Alice")), found.clone()),
        (Visibility::Faction(name("Mafia")), plot.clone()),
    ];
    let nothing = Delivery { events: vec![], statuses: None };
    assert_eq!(game.deliver(&Visibility::Public, &updates), nothing);
    assert_eq!(
        game.deliver(&Visibility::Moderator, &updates),
        Delivery { events: vec![accepted, found.clone(), plot.clone()], statuses: None }
    );
    assert_eq!(
        game.deliver(&Visibility::Player(name("Alice")), &updates),
        Delivery { events: vec![found], statuses: None }
    );
    assert_eq!(
        game.deliver(&Visibility::Player(name("Malory")), &updates),
        Delivery { events: vec![plot], statuses: None }
    );
    assert_eq!(game.deliver(&Visibility::Moderator, &[]), nothing);
}

#[test]
fn statuses_follow_a_death_or_a_new_phase_whoever_saw_it() {
    let mut game = Game::new_from_state(default_setup(0));
    game.make_dead(&name("Bob"));
    let statuses = vec![
        (name("Alice"), PlayerStatus::Alive),
        (name("Bob"), PlayerStatus::Dead),
        (name("Charlie"), PlayerStatus::Alive),
        (name("Eve"), PlayerStatus::Alive),
        (name("Malory"), PlayerStatus::Alive),
    ];
    let hidden_death = vec![(Visibility::Moderator, Event::Died(name("Bob")))];
    assert_eq!(
        game.deliver(&Visibility::Public, &hidden_death),
        Delivery { events: vec![], statuses: Some(statuses.clone()) }
    );
    let began = vec![
        (Visibility::Public, Event::PhaseEnded(Phase::Night(0))),
        (Visibility::Public, Event::PhaseBegan(Phase::Day(1))),
    ];
    assert_eq!(
        game.deliver(&Visibility::Player(name("Eve")), &began),
        Delivery {
            events: vec![Event::PhaseEnded(Phase::Night(0)), Event::PhaseBegan(Phase::Day(1))],
            statuses: Some(statuses),
        }
    );
    let ended = vec![(Visibility::Public, Event::PhaseEnded(Phase::Night(0)))];
    assert_eq!(game.deliver(&Visibility::Public, &ended).statuses, None);
    let whole = game.log.clone();
    assert!(game.deliver(&Visibility::Public, &whole).statuses.is_some());
}

#[test]
fn requests_are_handled_by_who_asks() {
    let keys = default_keys();
    let vote = Action::Vote(name("Eve"));
    let everybody = observers();
    for auth in &everybody {
        assert_eq!(
            handle(auth, &keys, &Request::Auth(name("badpassword1"))),
            Step::Authenticate(Visibility::Moderator)
        );
        assert_eq!(
            handle(auth, &keys, &Request::Auth(name("badpassword5"))),
            Step::Authenticate(Visibility::Player(name("Eve")))
        );
        assert_eq!(
            handle(auth, &keys, &Request::Auth(name("badpassword7"))),
            Step::Refuse(Refusal::InvalidToken)
        );
        let ends = handle(auth, &keys, &Request::EndPhase);
        let uses = handle(auth, &keys, &Request::Use(vote.clone()));
        match auth {
            Visibility::Moderator => {
                assert_eq!(ends, Step::Submit(Input::EndPhase));
                assert_eq!(uses, Step::Refuse(Refusal::PermissionDenied));
            }
            Visibility::Player(p) => {
                assert_eq!(ends, Step::Refuse(Refusal::PermissionDenied));
                assert_eq!(uses, Step::Submit(Input::Use(p.clone(), vote.clone())));
            }
            _ => {
                assert_eq!(ends, Step::Refuse(Refusal::PermissionDenied));
                assert_eq!(uses, Step::Refuse(Refusal::PermissionDenied));
            }
        }
    }
    assert_eq!(Refusal::InvalidToken.message(), "Invalid token");
    assert_eq!(Refusal::PermissionDenied.message(), "Permission denied");
}

#[test]
fn the_first_entry_of_a_key_counts() {
    let mut keys = default_keys();
    assert_eq!(keys.len(), 6);
    assert_eq!(look_up(&keys, "badpassword2"), Some(Visibility::Player(name("Alice"))));
    assert_eq!(look_up(&keys, "badpassword6"), Some(Visibility::Player(name("Malory"))));
    assert_eq!(look_up(&keys, ""), None);
    keys.push((name("badpassword2"), Visibility::Moderator));
    assert_eq!(look_up(&keys, "badpassword2"), Some(Visibility::Player(name("Alice"))));
    assert_eq!(look_up(&Vec::new(), "badpassword2"), None);
    assert_eq!(Entity::Player(name("Alice")).clone(), Entity::Player(name("Alice")));
    assert!(Entity::Moderator != Entity::Player(name("Moderator")));
    let reply = Response::Players(vec![(name("Alice"), PlayerStatus::Alive)]);
    assert!(reply != Response::Error(name("Alice")));
}

#[test]
fn the_default_setup_is_a_game_for_five() {
    let state = default_setup(1234567890);
    assert!(state.is_sound());
    assert_eq!(state.seed, 1234567890);
    let mut want = State::new();
    want.seed = 1234567890;
    want.factions = vec![
        (
            name("Mafia"),
            vec![
                Attr::Has(Action::Order(name("$MEMBER"), Box::new(Action::Kill(name("$PLAYER"))))),
                Attr::Alignment(Alignment::Evil),
                Attr::Membership(Membership::Visible),
                Attr::Objective(Objective::AchieveMajority),
            ],
        ),
        (
            name("Town"),
            vec![
                Attr::Alignment(Alignment::Good),
                Attr::Membership(Membership::Hidden),
                Attr::Objective(Objective::Eliminate(Alignment::Evil)),
            ],
        ),
    ];
    want.players = vec![
        (
            name("Alice"),
            vec![Attr::Member(name("Town"), 0), Attr::Has(Action::Investigate(name("$PLAYER")))],
        ),
        (name("Bob"), vec![Attr::Member(name("Town"), 0)]),
        (
            name("Charlie"),
            vec![Attr::Member(name("Town"), 0), Attr::Has(Action::Protect(name("$OTHER_PLAYER")))],
        ),
        (name("Eve"), vec![Attr::Member(name("Mafia"), 1)]),
        (name("Malory"), vec![Attr::Member(name("Mafia"), 2)]),
    ];
    assert_eq!(state, want);
    let game = Game::new_from_state(state);
    assert_eq!(game.get_leader("Mafia"), Some(name("Eve")));
}

#[test]
fn entries_are_put_where_their_names_belong() {
    let mut state = State::new();
    for player in ["b", "a", "c", "B", "", "ab", "é", "z", "aa"] {
        state.insert_player(name(player), vec![Attr::Dead]);
    }
    let names: Vec<&str> = state.players.iter().map(|e| e.0.as_str()).collect();
    assert_eq!(names, vec!["", "B", "a", "aa", "ab", "b", "c", "z", "é"]);
    state.insert_player(name("aa"), vec![Attr::Bulletproof]);
    assert_eq!(state.players.len(), 9);
    assert_eq!(state.players[3], (name("aa"), vec![Attr::Bulletproof]));
    state.insert_faction(name("x"), vec![]);
    assert_eq!(state.factions, vec![(name("x"), vec![])]);
    assert_eq!(state.players.len(), 9);
}

fn sound(change: fn(&mut State)) -> bool {
    let mut state = default_setup(0);
    change(&mut state);
    state.is_sound()
}

#[test]
fn a_state_is_sound_when_its_world_is_closed() {
    assert!(sound(|_| {}));
    assert!(State::new().is_sound());
    assert!(!sound(|s| s.players.swap(0, 1)));
    assert!(!sound(|s| s.factions.swap(0, 1)));
    assert!(!sound(|s| s.players.push((name("Malory"), vec![Attr::Member(name("Town"), 0)]))));
    assert!(sound(|s| s.players.push((name("Nat"), vec![Attr::Member(name("Town"), 0)]))));
    assert!(!sound(|s| s.players.push((name("Nat"), vec![]))));
    assert!(!sound(|s| s.players.push((name("Nat"), vec![Attr::Dead]))));
    assert!(!sound(|s| s.players.push((name("Nat"), vec![Attr::Member(name("Cult"), 0)]))));
    assert!(!sound(|s| {
        s.players.push((
            name("Nat"),
            vec![Attr::Phases(3, Box::new(Attr::Member(name("Town"), 0)))],
        ))
    }));
    assert!(!sound(|s| {
        s.players.push((
            name("Nat"),
            vec![
                Attr::Member(name("Town"), 0),
                Attr::Tapped(Box::new(Attr::Member(name("Cult"), 0))),
            ],
        ))
    }));
    assert!(!sound(|s| s.players[0].1.push(Attr::Phases(0, Box::new(Attr::Dead)))));
    assert!(sound(|s| s.players[0].1.push(Attr::Phases(1, Box::new(Attr::Dead)))));
    assert!(!sound(|s| s.factions[0].1.truncate(3)));
    assert!(!sound(|s| {
        s.factions[1].1.remove(0);
    }));
    assert!(!sound(|s| s.factions[1].1[0] = Attr::Phases(1, Box::new(Attr::Alignment(Alignment::Good)))));
    assert!(sound(|s| s.factions.push((name("Void"), vec![
        Attr::Objective(Objective::Survive),
        Attr::Alignment(Alignment::Neutral),
    ]))));
}

#[test]
fn a_game_is_sound_when_its_history_speaks_of_its_players() {
    let mut game = Game::new_from_state(default_setup(0));
    assert!(game.is_sound());
    game.log.push((Visibility::Moderator, Event::Input(Input::Use(name("Bob"), Action::Kill(name("Eve"))))));
    game.log.push((Visibility::Public, Event::Died(name("Zed"))));
    assert!(game.is_sound());
    game.log.push((Visibility::Moderator, Event::Input(Input::Use(name("Bob"), Action::Kill(name("Zed"))))));
    assert!(!game.is_sound());
}

#[test]
fn a_faction_is_set_up_from_what_it_is_to_hold() {
    let setup = FactionState {
        actions: vec![Action::Kill(name("$PLAYER")), Action::Vote(name("$OTHER_PLAYER"))],
        alignment: Alignment::Evil,
        membership: Membership::Visible,
        objective: Objective::EliminateFaction(name("Town")),
    };
    assert_eq!(
        setup.attrs(),
        vec![
            Attr::Has(Action::Kill(name("$PLAYER"))),
            Attr::Has(Action::Vote(name("$OTHER_PLAYER"))),
            Attr::Alignment(Alignment::Evil),
            Attr::Membership(Membership::Visible),
            Attr::Objective(Objective::EliminateFaction(name("Town"))),
        ]
    );
    let mut state = State::new();
    state.insert_faction(name("Mafia"), setup.attrs());
    assert!(state.is_sound());
}

#[test]
fn defaults_know_themselves() {
    assert!(0i64.is_default());
    assert!(!7i64.is_default());
    assert!(String::new().is_default());
    assert!(!name("x").is_default());
    assert!(Vec::<Action>::new().is_default());
    assert!(mafia::Deadline::Never.is_default());
    assert!(!mafia::Deadline::Days(0).is_default());
}
