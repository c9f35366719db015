use mafia::{placeholder_matches, Action, Attr, Phase};

fn name(s: &str) -> String {
    s.to_string()
}

fn boxed(a: Action) -> Box<Action> {
    Box::new(a)
}

#[test]
fn placeholders_stand_for_targets() {
    assert!(placeholder_matches("$PLAYER", "Alice", "Bob"));
    assert!(placeholder_matches("$PLAYER", "Alice", "Alice"));
    assert!(placeholder_matches("$OTHER_PLAYER", "Alice", "Bob"));
    assert!(!placeholder_matches("$OTHER_PLAYER", "Alice", "Alice"));
    assert!(placeholder_matches("$MEMBER", "Alice", "Bob"));
    assert!(placeholder_matches("$MEMBER", "Alice", "Alice"));
    assert!(placeholder_matches("Bob", "Alice", "Bob"));
    assert!(!placeholder_matches("Bob", "Alice", "Charlie"));
    assert!(!placeholder_matches("$player", "Alice", "Bob"));
    assert!(placeholder_matches("", "Alice", ""));
}

#[test]
fn templates_match_actions_of_their_kind_by_night() {
    let night = Phase::Night(3);
    let any = name("$PLAYER");
    let alice = name("Alice");
    let kinds: Vec<fn(String) -> Action> = vec![
        Action::Investigate,
        Action::Kill,
        Action::Protect,
        Action::Vote,
    ];
    for (i, template) in kinds.iter().enumerate() {
        for (j, action) in kinds.iter().enumerate() {
            let matched = template(any.clone()).matches(&night, "Bob", &action(alice.clone()));
            assert_eq!(matched, i == j);
        }
    }
    assert!(Action::Kill(name("Alice")).matches(&night, "Bob", &Action::Kill(name("Alice"))));
    assert!(!Action::Kill(name("Alice")).matches(&night, "Bob", &Action::Kill(name("Eve"))));
    assert!(!Action::Kill(name("$OTHER_PLAYER")).matches(&night, "Bob", &Action::Kill(name("Bob"))));
}

#[test]
fn nothing_but_a_day_template_matches_by_day() {
    let day = Phase::Day(2);
    let vote = Action::Vote(name("Eve"));
    assert!(!Action::Vote(name("$PLAYER")).matches(&day, "Bob", &vote));
    assert!(Action::Day(boxed(Action::Vote(name("$PLAYER")))).matches(&day, "Bob", &vote));
    assert!(!Action::Day(boxed(Action::Kill(name("$PLAYER")))).matches(&day, "Bob", &vote));
    assert!(!Action::Day(boxed(Action::Day(boxed(Action::Vote(name("$PLAYER")))))).matches(&day, "Bob", &vote));
}

#[test]
fn a_day_template_matches_nothing_by_night() {
    let night = Phase::Night(2);
    let vote = Action::Vote(name("Eve"));
    let template = Action::Day(boxed(Action::Vote(name("$PLAYER"))));
    assert!(!template.matches(&night, "Bob", &vote));
    assert!(!template.matches(&night, "Bob", &Action::Day(boxed(vote))));
}

#[test]
fn what_an_order_wraps_is_matched_with_the_ordered_player_as_actor() {
    let night = Phase::Night(0);
    let template = Action::Order(name("$OTHER_PLAYER"), boxed(Action::Kill(name("$OTHER_PLAYER"))));
    let order = |minion: &str, target: &str| Action::Order(name(minion), boxed(Action::Kill(name(target))));
    assert!(template.matches(&night, "Malory", &order("Eve", "Alice")));
    assert!(template.matches(&night, "Malory", &order("Eve", "Malory")));
    assert!(!template.matches(&night, "Malory", &order("Eve", "Eve")));
    assert!(!template.matches(&night, "Malory", &order("Malory", "Alice")));
    assert!(!template.matches(&night, "Malory", &Action::Kill(name("Alice"))));
}

#[test]
fn immediate_templates_match_immediate_actions() {
    let night = Phase::Night(0);
    let template = Action::Immediate(boxed(Action::Investigate(name("$PLAYER"))));
    assert!(template.matches(&night, "Alice", &Action::Immediate(boxed(Action::Investigate(name("Eve"))))));
    assert!(!template.matches(&night, "Alice", &Action::Investigate(name("Eve"))));
    assert!(!template.matches(&night, "Alice", &Action::Immediate(boxed(Action::Kill(name("Eve"))))));
}

#[test]
fn precedence_orders_actions() {
    let p = name("Alice");
    assert_eq!(Action::Immediate(boxed(Action::Kill(p.clone()))).precedence(), 0);
    assert_eq!(Action::Investigate(p.clone()).precedence(), 1);
    assert_eq!(Action::Protect(p.clone()).precedence(), 2);
    assert_eq!(Action::Kill(p.clone()).precedence(), 1000);
    assert_eq!(Action::Vote(p.clone()).precedence(), 1000);
    assert_eq!(Action::Day(boxed(Action::Protect(p.clone()))).precedence(), 2);
    assert_eq!(Action::Order(name("Eve"), boxed(Action::Investigate(p.clone()))).precedence(), 1);
    assert_eq!(
        Action::Order(name("Eve"), boxed(Action::Day(boxed(Action::Kill(p))))).precedence(),
        1000
    );
}

#[test]
fn queries_look_under_phases_and_tapped_but_a_tapped_grant_grants_nothing() {
    let has = Attr::Has(Action::Kill(name("$PLAYER")));
    let timed = Attr::Phases(2, Box::new(has.clone()));
    let tapped = has.tap();
    assert_eq!(tapped, Attr::Tapped(Box::new(has.clone())));
    assert_eq!(has.get_action(), Some(Action::Kill(name("$PLAYER"))));
    assert_eq!(timed.get_action(), Some(Action::Kill(name("$PLAYER"))));
    assert_eq!(tapped.get_action(), None);
    let night = Phase::Night(0);
    let kill = Action::Kill(name("Bob"));
    assert!(has.allows_action(&night, "Alice", &kill));
    assert!(timed.allows_action(&night, "Alice", &kill));
    assert!(!tapped.allows_action(&night, "Alice", &kill));
    assert!(!Attr::Phases(1, Box::new(tapped.clone())).allows_action(&night, "Alice", &kill));
    assert!(!Attr::Dead.allows_action(&night, "Alice", &kill));
    assert_eq!(Attr::Dead.is_alive(), Some(false));
    assert_eq!(Attr::Phases(3, Box::new(Attr::Dead)).is_alive(), Some(false));
    assert_eq!(Attr::Tapped(Box::new(Attr::Dead)).is_alive(), Some(false));
    assert_eq!(Attr::Tapped(Box::new(Attr::Bulletproof)).is_bulletproof(), Some(true));
    assert_eq!(Attr::Tapped(Box::new(Attr::ReceivedVotes(3))).num_votes(), Some(3));
    assert_eq!(Attr::Phases(1, Box::new(Attr::ReceivedVotes(3))).num_votes(), Some(3));
    assert_eq!(
        Attr::Tapped(Box::new(Attr::Phases(2, Box::new(Attr::ReceivedVotes(3))))).num_votes(),
        Some(3)
    );
    assert_eq!(
        Attr::Tapped(Box::new(Attr::Member(name("Town"), 7))).get_faction_and_rank(),
        Some((name("Town"), 7))
    );
    assert_eq!(
        Attr::Tapped(Box::new(Attr::Alignment(mafia::Alignment::Evil))).get_alignment(),
        Some(mafia::Alignment::Evil)
    );
    assert_eq!(
        Attr::Tapped(Box::new(Attr::Objective(mafia::Objective::Survive))).get_objective(),
        Some(mafia::Objective::Survive)
    );
    assert_eq!(tapped.is_alive(), None);
    assert_eq!(tapped.is_bulletproof(), None);
    assert_eq!(tapped.num_votes(), None);
    assert_eq!(tapped.get_faction_and_rank(), None);
    assert_eq!(Attr::Bulletproof.is_alive(), None);
    assert_eq!(Attr::Bulletproof.is_bulletproof(), Some(true));
    assert_eq!(Attr::Phases(1, Box::new(Attr::Bulletproof)).is_bulletproof(), Some(true));
    assert_eq!(Attr::Dead.is_bulletproof(), None);
    assert_eq!(Attr::ReceivedVotes(4).num_votes(), Some(4));
    assert_eq!(Attr::Phases(1, Box::new(Attr::ReceivedVotes(-2))).num_votes(), Some(-2));
    assert_eq!(Attr::Poisoned(4).num_votes(), None);
    assert_eq!(Attr::Member(name("Town"), 7).get_faction_and_rank(), Some((name("Town"), 7)));
    assert_eq!(
        Attr::Phases(1, Box::new(Attr::Member(name("Town"), 7))).get_faction_and_rank(),
        Some((name("Town"), 7))
    );
    assert_eq!(Attr::Dead.get_faction_and_rank(), None);
}

#[test]
fn attributes_expire_at_phase_boundaries() {
    let inner = Attr::Bulletproof;
    assert_eq!(Attr::Phases(1, Box::new(inner.clone())).next_phase(), None);
    assert_eq!(
        Attr::Phases(2, Box::new(inner.clone())).next_phase(),
        Some(Attr::Phases(1, Box::new(inner.clone())))
    );
    assert_eq!(
        Attr::Phases(u64::MAX, Box::new(inner.clone())).next_phase(),
        Some(Attr::Phases(u64::MAX - 1, Box::new(inner.clone())))
    );
    let has = Attr::Has(Action::Kill(name("$PLAYER")));
    assert_eq!(has.tap().next_phase(), Some(has.clone()));
    assert_eq!(has.next_phase(), Some(has.clone()));
    assert_eq!(Attr::Dead.next_phase(), Some(Attr::Dead));
    assert_eq!(Attr::Poisoned(1).next_phase(), Some(Attr::Poisoned(1)));
    let timed = Attr::Phases(1, Box::new(has.clone()));
    assert_eq!(timed.tap().next_phase(), Some(timed.clone()));
    assert!(timed.tap().expires_well());
    assert!(!Attr::Phases(0, Box::new(has.clone())).expires_well());
    assert!(!Attr::Phases(0, Box::new(has.clone())).tap().expires_well());
    assert!(Attr::Phases(2, Box::new(Attr::Phases(0, Box::new(has.clone())))).expires_well());
    let spent = Attr::Phases(0, Box::new(has));
    assert_eq!(spent.tap().next_phase(), Some(spent));
}
