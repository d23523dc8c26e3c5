use hocg_fan_sim::builder::{GameStateBuilder, TestGameBoard};
use hocg_fan_sim::card_effects::effects::{Action, Color, Condition};
use hocg_fan_sim::card_effects::evaluate::{EvaluateContext, LetValue};
use hocg_fan_sim::card_effects::perform::{bind_answer, ActionCommand, LetAnswer, LetRequest};
use hocg_fan_sim::card_effects::parse_effect_action;
use hocg_fan_sim::cards::{
    Card, CheerCard, HoloMemberArt, HoloMemberArtDamage, HoloMemberCard, HoloMemberLevel, Rarity,
};
use hocg_fan_sim::gameplay::{CardRef, Player, Zone, ZoneAddLocation};
use hocg_fan_sim::library::GlobalLibrary;
use hocg_fan_sim::modifiers::{DamageMarkers, LifeTime, ModifierKind};
use hocg_fan_sim::state::GameState;

fn s(x: &str) -> String {
    x.to_string()
}

fn member(number: &str) -> Card {
    Card::HoloMember(HoloMemberCard {
        card_number: s(number),
        name: s("AZKi"),
        colors: vec![Color::Green],
        hp: 50,
        level: HoloMemberLevel::Debut,
        hash_tags: vec![],
        baton_pass_cost: 1,
        abilities: vec![],
        arts: vec![HoloMemberArt {
            name: s("Art"),
            cost: vec![],
            damage: HoloMemberArtDamage::Basic(20),
            special_damage: None,
            text: s(""),
            condition: vec![Condition::True],
            effect: vec![],
        }],
        attributes: vec![],
        rarity: Rarity::Common,
        illustration_url: s(""),
        artist: s(""),
    })
}

fn cheer(number: &str) -> Card {
    Card::Cheer(CheerCard {
        card_number: s(number),
        name: s("Green Cheer"),
        color: Color::Green,
        text: s(""),
        rarity: Rarity::Common,
        illustration_url: s(""),
        artist: s(""),
    })
}

fn library() -> GlobalLibrary {
    let mut lib = GlobalLibrary::new();
    lib.insert_card(member("M-1"));
    lib.insert_card(cheer("X-1"));
    lib
}

fn state() -> GameState {
    let p1 = TestGameBoard {
        center_stage: Some(s("M-1")),
        hand: vec![s("M-1"), s("X-1")],
        ..Default::default()
    };
    let p2 = TestGameBoard { center_stage: Some(s("M-1")), ..Default::default() };
    GameStateBuilder::new().with_player_1(p1).with_player_2(p2).build()
}

fn ctx() -> EvaluateContext {
    EvaluateContext {
        active_card: Some(CardRef(0x0111)),
        active_player: Some(Player::One),
        variables: vec![],
        is_triggered: false,
    }
}

#[test]
fn draw_asks_the_active_player_to_draw() {
    let (lib, st, mut cx) = (library(), state(), ctx());
    let a = parse_effect_action("draw 2").unwrap();
    match a.evaluate_step(&mut cx, &st, &lib) {
        ActionCommand::Draw { player, amount } => assert_eq!((player, amount), (Player::One, 2)),
        other => panic!("unexpected command {other:?}"),
    }
}

#[test]
fn a_global_modifier_goes_to_every_zone_of_the_player() {
    let (lib, st, mut cx) = (library(), state(), ctx());
    let a = parse_effect_action("add_global_mod opponent no_life_loss this_turn").unwrap();
    match a.evaluate_step(&mut cx, &st, &lib) {
        ActionCommand::AddZoneModifier { player, zone, kind, life_time } => {
            assert_eq!((player, zone, life_time), (Player::Two, Zone::All, LifeTime::ThisTurn));
            assert!(matches!(kind, ModifierKind::NoLifeLoss));
        }
        other => panic!("unexpected command {other:?}"),
    }
}

#[test]
fn damage_is_counted_in_markers() {
    let (lib, st, mut cx) = (library(), state(), ctx());
    let a = parse_effect_action("deal_damage from opponent_center_stage 40").unwrap();
    match a.evaluate_step(&mut cx, &st, &lib) {
        ActionCommand::DealDamage { card, targets, damage, special } => {
            assert_eq!(card, CardRef(0x0111));
            assert_eq!(targets, vec![CardRef(0x0112)]);
            assert_eq!(damage, DamageMarkers(4));
            assert!(!special);
        }
        other => panic!("unexpected command {other:?}"),
    }
}

#[test]
fn cards_are_sent_where_the_action_says() {
    let (lib, st, mut cx) = (library(), state(), ctx());
    let a = parse_effect_action("send_to_bottom archive from hand").unwrap();
    match a.evaluate_step(&mut cx, &st, &lib) {
        ActionCommand::SendTo { cards, zone, location } => {
            assert_eq!(cards, vec![CardRef(0x0211), CardRef(0x0311)]);
            assert_eq!(zone, Zone::Archive);
            assert_eq!(location, Some(ZoneAddLocation::Bottom));
        }
        other => panic!("unexpected command {other:?}"),
    }
}

#[test]
fn revealed_cards_are_grouped_by_where_they_are() {
    let (lib, st, mut cx) = (library(), state(), ctx());
    let a = parse_effect_action("reveal from hand").unwrap();
    match a.evaluate_step(&mut cx, &st, &lib) {
        ActionCommand::Reveal { groups } => {
            assert_eq!(groups, vec![((Player::One, Zone::Hand), vec![CardRef(0x0211), CardRef(0x0311)])]);
        }
        other => panic!("unexpected command {other:?}"),
    }
    let cards = vec![CardRef(0x0311), CardRef(0x0111), CardRef(0x0211), CardRef(0x0112)];
    assert_eq!(
        st.group_by_player_and_zone(&cards),
        vec![
            ((Player::One, Zone::Hand), vec![CardRef(0x0311), CardRef(0x0211)]),
            ((Player::One, Zone::CenterStage), vec![CardRef(0x0111)]),
            ((Player::Two, Zone::CenterStage), vec![CardRef(0x0112)]),
        ]
    );
}

#[test]
fn a_selection_asks_then_binds_the_choice_and_the_leftovers() {
    let (lib, st, mut cx) = (library(), state(), ctx());
    let a = parse_effect_action("let $pick = select_one from hand is_member").unwrap();
    let cmd = a.evaluate_step(&mut cx, &st, &lib);
    let (name, request) = match cmd {
        ActionCommand::Ask { name, request } => (name, request),
        other => panic!("unexpected command {other:?}"),
    };
    assert_eq!(name, "$pick");
    match &request {
        LetRequest::Select { player, cards, choices, min, max } => {
            assert_eq!(*player, Player::One);
            assert_eq!(*cards, vec![CardRef(0x0211), CardRef(0x0311)]);
            assert_eq!(*choices, vec![CardRef(0x0211)]);
            assert_eq!((*min, *max), (1, 1));
        }
        other => panic!("unexpected request {other:?}"),
    }
    bind_answer(&mut cx, &name, &request, LetAnswer::Cards(vec![CardRef(0x0211)]));
    assert_eq!(cx.variables.len(), 2);
    assert_eq!(cx.variables[0].0, "&_leftovers");
    assert!(matches!(&cx.variables[0].1, LetValue::CardReferences(v) if *v == vec![CardRef(0x0311)]));
    assert_eq!(cx.variables[1].0, "$pick");
    assert!(matches!(&cx.variables[1].1, LetValue::CardReferences(v) if *v == vec![CardRef(0x0211)]));
}

#[test]
fn an_optional_activation_binds_a_condition() {
    let (lib, st, mut cx) = (library(), state(), ctx());
    let a = parse_effect_action("let $option = optional_activate").unwrap();
    let (name, request) = match a.evaluate_step(&mut cx, &st, &lib) {
        ActionCommand::Ask { name, request } => (name, request),
        other => panic!("unexpected command {other:?}"),
    };
    assert!(matches!(request, LetRequest::OptionalActivate { player: Player::One }));
    bind_answer(&mut cx, &name, &request, LetAnswer::YesNo(false));
    assert_eq!(cx.variables[0].0, "$option");
    assert!(matches!(cx.variables[0].1, LetValue::Condition(Condition::False)));
}

#[test]
fn nothing_to_attach_asks_nothing() {
    let (lib, st, mut cx) = (library(), state(), ctx());
    let a = parse_effect_action("no_action").unwrap();
    assert!(matches!(a, Action::Noop));
    assert!(matches!(a.evaluate_step(&mut cx, &st, &lib), ActionCommand::Nothing));
}
