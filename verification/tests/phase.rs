use mafia::{Deadline, Effect, Game, Input, Modifier, Phase};

#[test]
fn phases_alternate_from_the_first_night() {
    let mut game = Game::new();
    let mut want = Vec::new();
    for n in 1..6 {
        want.push(Phase::Day(n));
        want.push(Phase::Night(n));
    }
    assert_eq!(game.phase, Phase::Night(0));
    for phase in want {
        assert!(game.accepts(&Input::EndPhase));
        game.apply(&Input::EndPhase);
        assert_eq!(game.phase, phase);
    }
}

#[test]
fn next_and_prev_undo_each_other() {
    assert_eq!(Phase::Night(0).next(), Phase::Day(1));
    assert_eq!(Phase::Day(1).next(), Phase::Night(1));
    assert_eq!(Phase::Night(1).next(), Phase::Day(2));
    assert_eq!(Phase::Day(1).prev(), Phase::Night(0));
    assert_eq!(Phase::Night(1).prev(), Phase::Day(1));
    assert_eq!(Phase::Day(i64::MAX).next(), Phase::Night(i64::MAX));
    assert_eq!(Phase::Night(i64::MAX - 1).next(), Phase::Day(i64::MAX));
    for n in 0..5 {
        assert_eq!(Phase::Night(n).next().prev(), Phase::Night(n));
        assert_eq!(Phase::Day(n).next().prev(), Phase::Day(n));
    }
}

#[test]
fn phases_are_numbered_in_the_order_of_play() {
    assert_eq!(Phase::Night(0).seq(), 0);
    assert_eq!(Phase::Day(1).seq(), 1);
    assert_eq!(Phase::Night(1).seq(), 2);
    assert_eq!(Phase::Day(2).seq(), 3);
    assert_eq!(Phase::Night(21).seq(), 42);
    assert_eq!(Phase::Day(0).seq(), -1);
}

#[test]
fn phases_are_named_by_kind_and_number() {
    assert_eq!(Phase::Night(0).id(), "night0");
    assert_eq!(Phase::Day(1).id(), "day1");
    assert_eq!(Phase::Day(10).id(), "day10");
    assert_eq!(Phase::Night(907).id(), "night907");
    assert_eq!(Phase::Day(-45).id(), "day-45");
    assert_eq!(Phase::Day(i64::MAX).id(), format!("day{}", i64::MAX));
    assert_eq!(Phase::Night(i64::MIN).id(), format!("night{}", i64::MIN));
}

#[test]
fn deadlines_run_down_in_their_own_phases() {
    assert_eq!(Deadline::Never.advance(&Phase::Day(1)), Some(Deadline::Never));
    assert_eq!(Deadline::Never.advance(&Phase::Night(1)), Some(Deadline::Never));
    assert_eq!(Deadline::Days(3).advance(&Phase::Day(1)), Some(Deadline::Days(2)));
    assert_eq!(Deadline::Days(3).advance(&Phase::Night(1)), Some(Deadline::Days(3)));
    assert_eq!(Deadline::Days(1).advance(&Phase::Day(1)), None);
    assert_eq!(Deadline::Days(0).advance(&Phase::Day(1)), None);
    assert_eq!(Deadline::Days(-3).advance(&Phase::Day(1)), None);
    assert_eq!(Deadline::Days(1).advance(&Phase::Night(1)), Some(Deadline::Days(1)));
    assert_eq!(Deadline::Nights(2).advance(&Phase::Night(0)), Some(Deadline::Nights(1)));
    assert_eq!(Deadline::Nights(1).advance(&Phase::Night(0)), None);
    assert_eq!(Deadline::Nights(1).advance(&Phase::Day(1)), Some(Deadline::Nights(1)));
    assert_eq!(Deadline::default(), Deadline::Never);
}

#[test]
fn modifiers_last_as_long_as_their_deadlines() {
    let plain = Modifier::new(Effect::Protected);
    assert_eq!(plain, Modifier { effect: Effect::Protected, deadline: Deadline::Never });
    assert_eq!(plain.advance(&Phase::Day(1)), Some(Modifier::new(Effect::Protected)));
    let timed = Modifier::new_with_deadline(Effect::ReceivedVotes(2), Deadline::Days(2));
    assert_eq!(
        timed.advance(&Phase::Day(1)),
        Some(Modifier::new_with_deadline(Effect::ReceivedVotes(2), Deadline::Days(1)))
    );
    assert_eq!(timed.advance(&Phase::Night(1)), Some(timed.clone()));
    let last = Modifier::new_with_deadline(Effect::Member("Town".to_string()), Deadline::Nights(1));
    assert_eq!(last.advance(&Phase::Night(1)), None);
}
