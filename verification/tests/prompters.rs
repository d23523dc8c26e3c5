use hocg_fan_sim::events::{IntentRequest, IntentResponse};
use hocg_fan_sim::gameplay::{CardRef, MainStepAction, Player, Rps, Zone};
use hocg_fan_sim::prompters::{
    prefer_first_pick, prefer_first_picks,
    handle_intent_request, BufferedPrompter, DefaultPrompter, Prompter, RandomPrompter,
};

#[test]
fn the_default_prompter_takes_the_first_choices() {
    let mut p = DefaultPrompter::new();
    assert_eq!(p.prompt_choice("pick", vec![7, 8, 9]), 7);
    assert_eq!(p.prompt_multi_choices("pick", vec![7, 8, 9], 2, 3), vec![7, 8]);
    assert_eq!(p.prompt_multi_choices("pick", vec![7], 2, 3), vec![7]);
    assert_eq!(p.prompt_multi_choices("pick", vec![7, 8], 0, 3), Vec::<i32>::new());
}

#[test]
fn the_buffered_prompter_follows_its_answers_once_each() {
    let mut p = BufferedPrompter::new(&[&[2], &[0, 2], &[1]]);
    assert_eq!(p.prompt_choice("pick", vec!["a", "b", "c"]), "c");
    assert_eq!(p.prompt_multi_choices("pick", vec!["a", "b", "c"], 1, 3), vec!["a", "c"]);
    assert_eq!(p.prompt_choice("pick", vec!["a", "b"]), "b");
}

#[test]
fn the_random_prompter_picks_among_the_choices() {
    let mut p = RandomPrompter::new();
    for _ in 0..20 {
        let c = p.prompt_choice("pick", vec![1, 2, 3]);
        assert!([1, 2, 3].contains(&c));
        let cs = p.prompt_multi_choices("pick", vec![1, 2, 3, 4], 1, 2);
        assert!(1 <= cs.len() && cs.len() <= 2);
        assert!(cs.iter().all(|c| [1, 2, 3, 4].contains(c)));
        let all = p.prompt_multi_choices("pick", vec![1, 2], 2, 5);
        assert_eq!(all.len(), 2);
        assert!(all.contains(&1) && all.contains(&2));
    }
}

#[test]
fn requests_are_answered_with_what_the_prompter_picks() {
    let mut p = BufferedPrompter::new(&[&[1], &[0], &[1], &[0, 1], &[2]]);
    let rps = handle_intent_request(
        &mut p,
        IntentRequest::Rps { player: Player::One, select_rps: vec![Rps::Rock, Rps::Paper, Rps::Scissor] },
    );
    assert!(matches!(rps, IntentResponse::Rps { player: Player::One, select_rps: Rps::Paper }));
    let mulligan = handle_intent_request(
        &mut p,
        IntentRequest::Mulligan { player: Player::Two, select_yes_no: vec![true, false] },
    );
    assert!(matches!(mulligan, IntentResponse::Mulligan { player: Player::Two, select_yes_no: true }));
    let effect = handle_intent_request(
        &mut p,
        IntentRequest::ActivateEffect { player: Player::One, select_yes_no: vec![true, false] },
    );
    assert!(matches!(effect, IntentResponse::ActivateEffect { select_yes_no: false, .. }));
    let cards = handle_intent_request(
        &mut p,
        IntentRequest::LookSelectZoneToZone {
            player: Player::One,
            from_zone: Zone::MainDeck,
            to_zone: Zone::Hand,
            look_cards: vec![CardRef(1), CardRef(2), CardRef(3)],
            select_cards: vec![CardRef(1), CardRef(3)],
            min_amount: 0,
            max_amount: 2,
        },
    );
    match cards {
        IntentResponse::LookSelectZoneToZone { player, select_cards } => {
            assert_eq!(player, Player::One);
            assert_eq!(select_cards, vec![CardRef(1), CardRef(3)]);
        }
        other => panic!("unexpected {other:?}"),
    }
    let action = handle_intent_request(
        &mut p,
        IntentRequest::MainStepAction {
            player: Player::One,
            select_actions: vec![
                MainStepAction::BackStageMember(CardRef(4)),
                MainStepAction::CollabMember(CardRef(5)),
                MainStepAction::Done,
            ],
        },
    );
    assert!(matches!(
        action,
        IntentResponse::MainStepAction { select_action: MainStepAction::Done, .. }
    ));
}

#[test]
fn picks_lean_to_the_first_choices() {
    use_prefer_first();
}

fn use_prefer_first() {
    assert_eq!(prefer_first_pick(3, &vec![false, true, true]), 1);
    assert_eq!(prefer_first_pick(3, &vec![false, false, false]), 2);
    assert_eq!(prefer_first_pick(1, &vec![false]), 0);
    // coins say take 0 and 2, but only one is allowed
    assert_eq!(prefer_first_picks(3, 0, 1, &vec![true, false, true]), vec![0]);
    // no coin comes up, yet two are needed: the last two are taken
    assert_eq!(prefer_first_picks(4, 2, 3, &vec![false, false, false, false]), vec![2, 3]);
    // one coin comes up early, one more is needed at the end
    assert_eq!(prefer_first_picks(4, 2, 4, &vec![true, false, false, false]), vec![0, 3]);
}

#[test]
fn the_default_prompter_answers_yes_and_the_first_choice() {
    let mut p = DefaultPrompter::new();
    let mulligan = handle_intent_request(
        &mut p,
        IntentRequest::Mulligan { player: Player::One, select_yes_no: vec![true, false] },
    );
    assert!(matches!(mulligan, IntentResponse::Mulligan { player: Player::One, select_yes_no: true }));
    let rps = handle_intent_request(
        &mut p,
        IntentRequest::Rps { player: Player::Two, select_rps: vec![Rps::Scissor, Rps::Rock] },
    );
    assert!(matches!(rps, IntentResponse::Rps { player: Player::Two, select_rps: Rps::Scissor }));
}
