use hocg_fan_sim::gameplay::Zone;
use hocg_fan_sim::modifiers::{LifeTime, ModifierKind};
use hocg_fan_sim::setup::{first_turn_modifiers, setup_sequence, setup_shuffles, SetupAction};
use hocg_fan_sim::gameplay::{
    CardRef, GameOutcome, GameOverReason, Player, Rps, RpsOutcome, Step,
};
use hocg_fan_sim::events::{EnterStep, Event, GameOver, SyncGameState};
use hocg_fan_sim::library::Loadout;
use hocg_fan_sim::state::GameState;
use hocg_fan_sim::turns::{mulligan_step, rps_winner, Mulligan, STARTING_HAND_SIZE};

#[test]
fn steps_follow_each_other() {
    let mut s = GameState::new();
    assert_eq!(s.active_step, Step::Setup);
    assert_eq!(s.advance_step(), Ok(true));
    assert_eq!((s.active_step, s.turn_number, s.active_player), (Step::Reset, 1, Player::One));
    let expected = [Step::Draw, Step::Cheer, Step::Main, Step::Performance, Step::End];
    for step in expected {
        assert_eq!(s.advance_step(), Ok(false));
        assert_eq!(s.active_step, step);
        assert_eq!(s.active_player, Player::One);
    }
    assert_eq!(s.advance_step(), Ok(true));
    assert_eq!((s.active_step, s.turn_number, s.active_player), (Step::Reset, 2, Player::Two));
}

#[test]
fn a_finished_game_stays_finished() {
    let mut s = GameState::new();
    let outcome = GameOutcome { winning_player: Some(Player::Two), reason: GameOverReason::EmptyLife };
    s.game_outcome = Some(outcome);
    s.active_step = Step::GameOver;
    assert_eq!(s.advance_step(), Err(outcome));
    assert_eq!(s.active_step, Step::GameOver);
    assert_eq!(s.turn_number, 0);
}

#[test]
fn nobody_loses_during_setup() {
    let s = GameState::new();
    assert_eq!(s.loss_condition(), None);
}

#[test]
fn an_empty_stage_loses_before_an_empty_life() {
    let mut s = GameState::new();
    s.active_step = Step::Main;
    // both boards are empty: player one is looked at first, for its stage
    assert_eq!(s.loss_condition(), Some((Player::One, GameOverReason::EmptyStage)));
    s.player_1.center_stage = Some(CardRef(0x0211));
    assert_eq!(s.loss_condition(), Some((Player::One, GameOverReason::EmptyLife)));
    s.player_1.life.push_back(CardRef(0x0311));
    assert_eq!(s.loss_condition(), Some((Player::Two, GameOverReason::EmptyStage)));
    s.player_2.back_stage.push_back(CardRef(0x0212));
    s.player_2.life.push_back(CardRef(0x0312));
    assert_eq!(s.loss_condition(), None);
}

#[test]
fn losing_hands_the_win_to_the_opponent() {
    let mut s = GameState::new();
    s.active_player = Player::Two;
    let outcome = s.lose_game(GameOverReason::EmptyDeckInDrawStep);
    assert_eq!(outcome, GameOutcome { winning_player: Some(Player::One), reason: GameOverReason::EmptyDeckInDrawStep });
    assert_eq!(s.active_player, Player::One);
    assert_eq!(s.win_game(GameOverReason::Draw).winning_player, Some(Player::One));
}

#[test]
fn rock_paper_scissors() {
    assert_eq!(Rps::Rock.vs(Rps::Scissor), RpsOutcome::Win);
    assert_eq!(Rps::Rock.vs(Rps::Paper), RpsOutcome::Lose);
    assert_eq!(Rps::Paper.vs(Rps::Paper), RpsOutcome::Draw);
    assert_eq!(rps_winner(Rps::Scissor, Rps::Paper), Some(Player::One));
    assert_eq!(rps_winner(Rps::Scissor, Rps::Rock), Some(Player::Two));
    assert_eq!(rps_winner(Rps::Rock, Rps::Rock), None);
    for a in [Rps::Rock, Rps::Paper, Rps::Scissor] {
        for b in [Rps::Rock, Rps::Paper, Rps::Scissor] {
            let ab = a.vs(b);
            let ba = b.vs(a);
            let mirrored = match ab {
                RpsOutcome::Win => RpsOutcome::Lose,
                RpsOutcome::Lose => RpsOutcome::Win,
                RpsOutcome::Draw => RpsOutcome::Draw,
            };
            assert_eq!(ba, mirrored);
        }
    }
}

#[test]
fn mulligan_choices() {
    assert_eq!(mulligan_step(STARTING_HAND_SIZE, false, false), Mulligan::Keep);
    assert_eq!(
        mulligan_step(STARTING_HAND_SIZE, false, true),
        Mulligan::Redraw { reveal: false, cards: 7, next_draw: 6, lost: false }
    );
    assert_eq!(
        mulligan_step(STARTING_HAND_SIZE, true, false),
        Mulligan::Redraw { reveal: false, cards: 7, next_draw: 6, lost: false }
    );
    // after the first hand, only a forced mulligan happens, and the hand is shown
    assert_eq!(mulligan_step(6, false, true), Mulligan::Keep);
    assert_eq!(
        mulligan_step(6, true, false),
        Mulligan::Redraw { reveal: true, cards: 6, next_draw: 5, lost: false }
    );
    assert_eq!(
        mulligan_step(1, true, false),
        Mulligan::Redraw { reveal: true, cards: 1, next_draw: 0, lost: true }
    );
}

#[test]
fn a_new_game_numbers_the_cards_of_each_player() {
    let p1 = Loadout {
        oshi: "hSD01-001".to_string(),
        main_deck: vec!["hSD01-003".to_string(), "hSD01-004".to_string()],
        cheer_deck: vec!["hY02-001".to_string()],
    };
    let p2 = Loadout {
        oshi: "hSD01-002".to_string(),
        main_deck: vec!["hSD01-005".to_string()],
        cheer_deck: vec![],
    };
    let s = GameState::setup(&p1, &p2);
    assert_eq!(s.player_1.oshi, Some(CardRef(0x0101)));
    assert_eq!(s.player_1.main_deck.iter().copied().collect::<Vec<_>>(), vec![CardRef(0x0211), CardRef(0x0311)]);
    assert_eq!(s.player_1.cheer_deck.iter().copied().collect::<Vec<_>>(), vec![CardRef(0x0421)]);
    assert_eq!(s.player_2.oshi, Some(CardRef(0x0102)));
    assert_eq!(s.player_2.main_deck.iter().copied().collect::<Vec<_>>(), vec![CardRef(0x0212)]);
    assert_eq!(s.card_map.len(), 6);
    assert_eq!(s.lookup_card_number(CardRef(0x0311)), "hSD01-004");
    assert_eq!(s.player_for_card(CardRef(0x0212)), Player::Two);
    assert_eq!(s.active_step, Step::Setup);
}

#[test]
fn events_change_the_state_they_speak_of() {
    let mut s = GameState::new();
    Event::EnterStep(EnterStep { active_player: Player::One, active_step: Step::Draw }).apply_to(&mut s);
    assert_eq!(s.active_step, Step::Draw);
    let outcome = GameOutcome { winning_player: None, reason: GameOverReason::Draw };
    Event::GameOver(GameOver { game_outcome: outcome, turn_number: 3 }).apply_to(&mut s);
    assert_eq!(s.game_outcome, Some(outcome));
    assert_eq!(s.active_step, Step::GameOver);
    let mut sent = GameState::new();
    sent.turn_number = 9;
    Event::SyncGameState(SyncGameState { state: Box::new(sent) }).apply_to(&mut s);
    assert_eq!(s.turn_number, 9);
    assert_eq!(s.game_outcome, None);
}

#[test]
fn the_setup_goes_in_order_and_marks_the_first_turns() {
    assert_eq!(
        setup_shuffles(),
        vec![
            (Player::One, Zone::MainDeck),
            (Player::Two, Zone::MainDeck),
            (Player::One, Zone::CheerDeck),
            (Player::Two, Zone::CheerDeck)
        ]
    );
    let mods = first_turn_modifiers(Player::Two);
    assert_eq!(mods.len(), 6);
    assert!(matches!(
        mods[0],
        (Player::Two, Zone::All, ModifierKind::SkipStep(Step::Reset), LifeTime::NextTurn(Player::Two))
    ));
    assert!(matches!(
        mods[1],
        (Player::One, Zone::All, ModifierKind::SkipStep(Step::Reset), LifeTime::NextTurn(Player::One))
    ));
    assert!(matches!(
        mods[2],
        (Player::Two, Zone::All, ModifierKind::PreventLimitedSupport, LifeTime::NextTurn(Player::Two))
    ));
    assert!(matches!(mods[3], (Player::Two, Zone::All, ModifierKind::PreventBloom, _)));
    assert!(matches!(mods[4], (Player::One, Zone::All, ModifierKind::PreventBloom, _)));
    assert!(matches!(
        mods[5],
        (Player::Two, Zone::All, ModifierKind::SkipStep(Step::Performance), LifeTime::NextTurn(Player::Two))
    ));
    let seq = setup_sequence(Player::One);
    assert_eq!(seq.len(), 22);
    assert!(matches!(seq[0], SetupAction::ReportRpsWin(Player::One)));
    assert!(matches!(seq[3], SetupAction::Mulligan(Player::Two)));
    assert!(matches!(seq[5], SetupAction::FirstDebut(Player::Two)));
    assert!(matches!(seq[13], SetupAction::Reveal(Player::Two, Zone::BackStage)));
    assert!(matches!(seq[15], SetupAction::CheersToLife(Player::Two)));
    assert!(matches!(
        seq[21],
        SetupAction::AddZoneModifier(Player::One, Zone::All, ModifierKind::SkipStep(Step::Performance), _)
    ));
}
