use hocg_fan_sim::choices::MainStepEffect;
use hocg_fan_sim::builder::{GameStateBuilder, TestGameBoard};
use hocg_fan_sim::card_effects::effects::{Action, Color, Condition};
use hocg_fan_sim::card_effects::evaluate::EvaluateContext;
use hocg_fan_sim::card_effects::trigger::Trigger;
use hocg_fan_sim::cards::{
    Card, CheerCard, HoloMemberAbility, HoloMemberArt, HoloMemberArtDamage, HoloMemberCard,
    HoloMemberLevel, MemberAbilityKind, OshiHoloMemberCard, OshiSkill, OshiSkillKind, Rarity,
    SupportCard, SupportEffect, SupportKind,
};
use hocg_fan_sim::damage::LifeLoss;
use hocg_fan_sim::choices::{
    choose_attach_target, choose_card, choose_cards, choose_main_step_action, choose_number,
    choose_art_action,
};
use hocg_fan_sim::events::{
    AddDamageMarkers, Collab, Event, IntentResponse, RemoveDamageMarkers, TriggeredEvent,
};
use hocg_fan_sim::gameplay::{
    CardRef, GameOverReason, MainStepAction, PerformanceStepAction, Player, Step, Zone,
};
use hocg_fan_sim::library::GlobalLibrary;
use hocg_fan_sim::modifiers::{DamageMarkers, LifeTime, Modifier, ModifierKind, ModifierRef};
use hocg_fan_sim::state::GameState;

fn s(x: &str) -> String {
    x.to_string()
}

fn oshi(number: &str) -> Card {
    Card::OshiHoloMember(OshiHoloMemberCard {
        card_number: s(number),
        name: s("Tokino Sora"),
        color: Color::White,
        life: 5,
        skills: vec![OshiSkill {
            kind: OshiSkillKind::Normal,
            name: s("Replacement"),
            cost: 0,
            text: s(""),
            triggers: vec![Trigger::ActivateInMainStep],
            condition: vec![Condition::True],
            effect: vec![Action::Noop],
        }],
        rarity: Rarity::OshiSuperRare,
        illustration_url: s(""),
        artist: s(""),
    })
}

fn member(number: &str, name: &str, level: HoloMemberLevel) -> Card {
    Card::HoloMember(HoloMemberCard {
        card_number: s(number),
        name: s(name),
        colors: vec![Color::White],
        hp: 100,
        level,
        hash_tags: vec![],
        baton_pass_cost: 0,
        abilities: vec![HoloMemberAbility {
            kind: MemberAbilityKind::CollabEffect,
            name: s("Collab"),
            text: s(""),
            condition: vec![Condition::True],
            effect: vec![Action::Noop],
        }],
        arts: vec![HoloMemberArt {
            name: s("Art"),
            cost: vec![],
            damage: HoloMemberArtDamage::Basic(20),
            special_damage: None,
            text: s(""),
            condition: vec![Condition::True],
            effect: vec![],
        }],
        attributes: vec![],
        rarity: Rarity::Common,
        illustration_url: s(""),
        artist: s(""),
    })
}

fn support(number: &str) -> Card {
    Card::Support(SupportCard {
        card_number: s(number),
        name: s("Support"),
        kind: SupportKind::Item,
        limited: false,
        text: s(""),
        effects: vec![SupportEffect {
            triggers: vec![],
            condition: vec![Condition::True],
            effect: vec![Action::Noop],
        }],
        rarity: Rarity::Common,
        illustration_url: s(""),
        artist: s(""),
    })
}

fn cheer(number: &str) -> Card {
    Card::Cheer(CheerCard {
        card_number: s(number),
        name: s("White Cheer"),
        color: Color::White,
        text: s(""),
        rarity: Rarity::Common,
        illustration_url: s(""),
        artist: s(""),
    })
}

fn library() -> GlobalLibrary {
    let mut lib = GlobalLibrary::new();
    lib.insert_card(oshi("O-1"));
    lib.insert_card(member("M-1", "AZKi", HoloMemberLevel::Debut));
    lib.insert_card(member("M-2", "AZKi", HoloMemberLevel::First));
    lib.insert_card(member("M-3", "Tokino Sora", HoloMemberLevel::Spot));
    lib.insert_card(support("S-1"));
    lib.insert_card(cheer("Y-1"));
    lib
}

fn player_one() -> TestGameBoard {
    TestGameBoard {
        oshi: Some(s("O-1")),
        center_stage: Some(s("M-1")),
        back_stage: vec![s("M-1")],
        hand: vec![s("M-1"), s("M-2"), s("S-1")],
        ..Default::default()
    }
}

fn player_two() -> TestGameBoard {
    TestGameBoard { center_stage: Some(s("M-1")), ..Default::default() }
}

fn game() -> GameState {
    GameStateBuilder::new()
        .with_active_player(Player::One)
        .with_active_step(Step::Main)
        .with_player_1(player_one())
        .with_player_2(player_two())
        .build()
}

fn c(n: u16) -> CardRef {
    CardRef(n)
}

#[test]
fn builder_numbers_cards_zone_after_zone() {
    let state = game();
    assert_eq!(state.player_1.oshi, Some(c(0x0111)));
    assert_eq!(state.player_1.center_stage, Some(c(0x0211)));
    assert_eq!(state.player_1.back_stage(), vec![c(0x0311)]);
    assert_eq!(state.player_1.hand(), vec![c(0x0411), c(0x0511), c(0x0611)]);
    assert_eq!(state.player_2.center_stage, Some(c(0x0112)));
    assert_eq!(state.lookup_card_number(c(0x0511)), "M-2");
    assert_eq!(state.player_for_card(c(0x0112)), Player::Two);
    assert_eq!(state.zone_modifiers.len(), 2);
}

#[test]
fn builder_attaches_and_damages() {
    let state = GameStateBuilder::new()
        .with_player_1(player_one())
        .with_attachments(Player::One, Zone::CenterStage, 0, vec![s("Y-1"), s("Y-1")])
        .with_damage_markers(Player::One, Zone::BackStage, 0, DamageMarkers(3))
        .with_turn_number(4)
        .build();
    assert_eq!(state.player_1.attachments(c(0x0211)), vec![c(0x0731), c(0x0831)]);
    assert_eq!(state.get_damage(c(0x0311)), DamageMarkers(3));
    assert!(state.has_damage(c(0x0311)));
    assert!(!state.has_damage(c(0x0211)));
    assert_eq!(state.turn_number, 4);
}

#[test]
fn main_step_offers_every_possible_action_in_order() {
    let lib = library();
    let state = game();
    let actions = state.main_step_actions(&lib, Player::One);
    assert_eq!(
        actions,
        vec![
            MainStepAction::BackStageMember(c(0x0411)),
            MainStepAction::BloomMember(c(0x0511)),
            MainStepAction::UseSupportCard(c(0x0611)),
            MainStepAction::CollabMember(c(0x0311)),
            MainStepAction::BatonPass(c(0x0211)),
            MainStepAction::UseOshiSkill(c(0x0111), 0),
            MainStepAction::Done,
        ]
    );
}

#[test]
fn a_resting_member_cannot_collab() {
    let lib = library();
    let state = GameStateBuilder::new()
        .with_player_1(player_one())
        .with_player_2(player_two())
        .with_card_modifiers(vec![(
            c(0x0311),
            vec![Modifier { id: ModifierRef(9), kind: ModifierKind::Resting, life_time: LifeTime::UntilRemoved }],
        )])
        .build();
    let actions = state.main_step_actions(&lib, Player::One);
    assert!(!actions.contains(&MainStepAction::CollabMember(c(0x0311))));
    // with only resting members, the back stage still gives a center, but no baton pass
    assert!(!actions.contains(&MainStepAction::BatonPass(c(0x0211))));
    assert_eq!(state.center_choices(&lib, Player::One, false), vec![c(0x0311)]);
    assert_eq!(state.center_choices(&lib, Player::One, true), Vec::<CardRef>::new());
    assert!(state.has_modifier(&lib, c(0x0311), ModifierKind::Resting));
    assert!(!state.has_modifier(&lib, c(0x0211), ModifierKind::Resting));
}

#[test]
fn performance_step_offers_arts_on_each_target() {
    let lib = library();
    let state = game();
    assert_eq!(
        state.art_step_actions(&lib, Player::One),
        vec![
            PerformanceStepAction::UseArt { card: c(0x0211), art_idx: 0, target: c(0x0112) },
            PerformanceStepAction::Done,
        ]
    );
    // the opponent has nobody to attack
    assert_eq!(state.art_step_actions(&lib, Player::Two).len(), 2);
}

#[test]
fn choices_for_the_setup_and_the_turn() {
    let lib = library();
    let state = game();
    assert_eq!(state.first_debut_choices(&lib, Player::One, false), vec![c(0x0411)]);
    assert!(!state.need_mulligan(&lib, Player::One));
    assert!(state.need_mulligan(&lib, Player::Two));
    assert_eq!(state.cheer_choices(&lib, Player::One), vec![c(0x0211), c(0x0311)]);
    assert_eq!(state.bloom_choices(&lib, Player::One, c(0x0511)), vec![c(0x0211), c(0x0311)]);
    assert_eq!(state.center_choices(&lib, Player::One, true), vec![c(0x0311)]);
    let hand = state.player_1.hand();
    let ctx = EvaluateContext::new();
    assert_eq!(state.select_choices(&lib, &hand, &Condition::IsMember, &ctx), vec![c(0x0411), c(0x0511)]);
}

#[test]
fn spot_members_go_to_the_back_stage_too() {
    let lib = library();
    let p1 = TestGameBoard { hand: vec![s("M-3"), s("M-1"), s("S-1")], ..Default::default() };
    let state = GameStateBuilder::new().with_player_1(p1).build();
    assert_eq!(state.first_debut_choices(&lib, Player::One, false), vec![c(0x0211)]);
    assert_eq!(state.first_debut_choices(&lib, Player::One, true), vec![c(0x0111), c(0x0211)]);
}

#[test]
fn answers_are_checked() {
    let offered = vec![MainStepAction::BatonPass(c(0x0211)), MainStepAction::Done];
    let ok = IntentResponse::MainStepAction { player: Player::One, select_action: MainStepAction::Done };
    assert_eq!(choose_main_step_action(Player::One, &offered, &ok), Some(MainStepAction::Done));
    assert_eq!(choose_main_step_action(Player::Two, &offered, &ok), None);
    let not_offered = IntentResponse::MainStepAction {
        player: Player::One,
        select_action: MainStepAction::CollabMember(c(0x0311)),
    };
    assert_eq!(choose_main_step_action(Player::One, &offered, &not_offered), None);
    let other = IntentResponse::Mulligan { player: Player::One, select_yes_no: true };
    assert_eq!(choose_main_step_action(Player::One, &offered, &other), None);

    let arts = vec![PerformanceStepAction::Done];
    let done = IntentResponse::PerformanceStepAction { player: Player::Two, select_action: PerformanceStepAction::Done };
    assert_eq!(choose_art_action(Player::Two, &arts, &done), Some(PerformanceStepAction::Done));

    let choices = vec![c(1), c(2)];
    let none_picked = IntentResponse::LookSelectZoneToZone { player: Player::One, select_cards: vec![] };
    assert_eq!(choose_card(Player::One, &choices, &none_picked), None);
    assert_eq!(choose_cards(Player::One, &choices, &none_picked), Some(vec![]));
    let picked = IntentResponse::LookSelectZoneToZone { player: Player::One, select_cards: vec![c(2), c(1)] };
    assert_eq!(choose_card(Player::One, &choices, &picked), Some(c(2)));
    assert_eq!(choose_cards(Player::One, &choices, &picked), Some(vec![c(2), c(1)]));
    let stranger = IntentResponse::LookSelectZoneToZone { player: Player::One, select_cards: vec![c(3)] };
    assert_eq!(choose_cards(Player::One, &choices, &stranger), None);
    let attach = IntentResponse::SelectToAttach { player: Player::One, select_card: c(3) };
    assert_eq!(choose_attach_target(Player::One, &choices, &attach), None);
    let number = IntentResponse::SelectNumber { player: Player::One, select_number: 4 };
    assert_eq!(choose_number(Player::One, 1, 3, &number), None);
    assert_eq!(choose_number(Player::One, 1, 4, &number), Some(4));
}

#[test]
fn cards_that_answer_events_come_with_their_attachments() {
    let state = GameStateBuilder::new()
        .with_player_1(player_one())
        .with_player_2(player_two())
        .with_attachments(Player::One, Zone::CenterStage, 0, vec![s("Y-1")])
        .build();
    assert_eq!(state.trigger_cards(), vec![c(0x0111), c(0x0211), c(0x0731), c(0x0311), c(0x0112)]);
}

#[test]
fn a_collab_starts_the_collab_effect_of_its_member() {
    let lib = library();
    let state = game();
    let event = Event::Collab(Collab { card: c(0x0311), holo_power_amount: 1 });
    let after = TriggeredEvent::After(&event);
    let plan = state.trigger_plan(&lib, c(0x0311), &after);
    assert_eq!(plan.member_ability, Some(0));
    assert_eq!(plan.oshi_skill, None);
    let other = state.trigger_plan(&lib, c(0x0211), &after);
    assert_eq!(other.member_ability, None);
    let before = TriggeredEvent::Before(&event);
    assert_eq!(state.trigger_plan(&lib, c(0x0311), &before).member_ability, None);
    assert_eq!(state.trigger_plan(&lib, c(0x0111), &after).oshi_skill, None);
}

#[test]
fn zone_modifiers_apply_to_the_player() {
    let lib = library();
    let state = GameStateBuilder::new()
        .with_player_1(player_one())
        .with_zone_modifiers(Player::One, Zone::All, ModifierKind::SkipStep(Step::Reset), LifeTime::ThisTurn)
        .build();
    assert!(state.player_has_modifier(&lib, Player::One, ModifierKind::SkipStep(Step::Reset)));
    assert!(!state.player_has_modifier(&lib, Player::One, ModifierKind::SkipStep(Step::Draw)));
    let mods = state.find_player_modifiers(Player::One);
    assert_eq!(mods.len(), 1);
    assert_eq!(mods[0].id, ModifierRef(u16::MAX - 100));
    assert!(state.has_modifier(&lib, c(0x0311), ModifierKind::SkipStep(Step::Reset)));
}

#[test]
fn library_fills_what_cards_leave_out() {
    let mut lib = library();
    lib.insert_card(Card::Support(SupportCard {
        card_number: s("S-2"),
        name: s("Empty"),
        kind: SupportKind::Event,
        limited: true,
        text: s(""),
        effects: vec![SupportEffect { triggers: vec![], condition: vec![], effect: vec![] }],
        rarity: Rarity::Common,
        illustration_url: s(""),
        artist: s(""),
    }));
    assert!(lib.effects_round_trip());
    lib.pre_process();
    let sup = lib.lookup_support(&s("S-2")).unwrap();
    assert_eq!(sup.illustration_url, "https://qrimpuff.github.io/hocg-fan-sim-assets/img/card-back.webp");
    assert!(matches!(sup.effects[0].triggers[..], [Trigger::Never]));
    assert!(matches!(sup.effects[0].condition[..], [Condition::True]));
    assert!(matches!(sup.effects[0].effect[..], [Action::Noop]));
    assert!(lib.is_support(&s("S-2")));
    assert!(!lib.is_cheer(&s("S-2")));
    assert!(lib.is_cheer(&s("Y-1")));
    assert!(lib.lookup_oshi(&s("M-1")).is_none());
    assert_eq!(lib.lookup_holo_member(&s("M-2")).unwrap().name, "AZKi");
}

#[test]
fn damage_defeats_members_and_costs_lives() {
    let lib = library();
    let state = GameStateBuilder::new()
        .with_player_1(player_one())
        .with_player_2(player_two())
        .with_damage_markers(Player::One, Zone::CenterStage, 0, DamageMarkers(10))
        .with_damage_markers(Player::Two, Zone::CenterStage, 0, DamageMarkers(9))
        .build();
    let hit = vec![c(0x0211), c(0x0311), c(0x0112)];
    assert_eq!(state.remaining_hp(&lib, c(0x0211)), 0);
    assert_eq!(state.remaining_hp(&lib, c(0x0112)), 10);
    let defeated = state.defeated_members(&lib, &hit);
    assert_eq!(defeated, vec![c(0x0211)]);
    assert_eq!(state.life_loss(&lib, &defeated), 1);
    assert_eq!(
        state.group_by_player(&hit),
        vec![(Player::One, vec![c(0x0211), c(0x0311)]), (Player::Two, vec![c(0x0112)])]
    );
}

#[test]
fn a_modifier_saves_the_lives() {
    let lib = library();
    let state = GameStateBuilder::new()
        .with_player_1(player_one())
        .with_card_modifiers(vec![(
            c(0x0211),
            vec![Modifier { id: ModifierRef(5), kind: ModifierKind::NoLifeLoss, life_time: LifeTime::ThisTurn }],
        )])
        .build();
    assert_eq!(state.life_loss(&lib, &vec![c(0x0211), c(0x0311)]), 1);
}

#[test]
fn the_stage_holds_six_members() {
    let lib = library();
    let state = game();
    // two members are on the stage
    let four: Vec<CardRef> = vec![c(1), c(2), c(3), c(4)];
    let five: Vec<CardRef> = vec![c(1), c(2), c(3), c(4), c(5)];
    assert!(state.stage_has_room(&lib, Player::One, &four));
    assert!(!state.stage_has_room(&lib, Player::One, &five));
    // a member already on the stage takes no more room
    let moving: Vec<CardRef> = vec![c(0x0311), c(1), c(2), c(3), c(4)];
    assert!(state.stage_has_room(&lib, Player::One, &moving));
}

#[test]
fn modifiers_add_damage_and_set_dice() {
    let state = GameStateBuilder::new()
        .with_player_1(player_one())
        .with_card_modifiers(vec![(
            c(0x0211),
            vec![
                Modifier { id: ModifierRef(5), kind: ModifierKind::MoreDamage(20), life_time: LifeTime::ThisArt },
                Modifier { id: ModifierRef(6), kind: ModifierKind::MoreDamage(15), life_time: LifeTime::ThisArt },
            ],
        )])
        .with_zone_modifiers(Player::One, Zone::All, ModifierKind::NextDiceRoll(6), LifeTime::UntilRemoved)
        .build();
    assert_eq!(state.art_damage(c(0x0211), HoloMemberArtDamage::Plus(50)), DamageMarkers(8));
    assert_eq!(state.art_damage(c(0x0311), HoloMemberArtDamage::Basic(30)), DamageMarkers(3));
    assert_eq!(state.next_dice_roll(Player::One), Some((6, ModifierRef(u16::MAX - 100))));
    let plain = game();
    assert_eq!(plain.next_dice_roll(Player::One), None);
}

#[test]
fn damage_outcome_groups_defeats_and_lives_by_owner() {
    let lib = library();
    let state = GameStateBuilder::new()
        .with_player_1(player_one())
        .with_player_2(player_two())
        .with_damage_markers(Player::One, Zone::CenterStage, 0, DamageMarkers(10))
        .with_damage_markers(Player::Two, Zone::CenterStage, 0, DamageMarkers(10))
        .build();
    let hit = vec![c(0x0112), c(0x0211), c(0x0311)];
    assert_eq!(
        state.damage_outcome(&lib, &hit, DamageMarkers(1)),
        vec![(Player::Two, vec![c(0x0112)], 1), (Player::One, vec![c(0x0211)], 1)]
    );
    // no marker, no outcome
    assert_eq!(state.damage_outcome(&lib, &hit, DamageMarkers(0)), vec![]);
}

#[test]
fn cards_leaving_the_stage_take_their_attachments() {
    let state = GameStateBuilder::new()
        .with_player_1(player_one())
        .with_attachments(Player::One, Zone::CenterStage, 0, vec![s("Y-1"), s("Y-1")])
        .with_attachments(Player::One, Zone::BackStage, 0, vec![s("Y-1")])
        .build();
    let center = c(0x0211);
    let back = c(0x0311);
    let on_center = state.attachments(center);
    let on_back = state.attachments(back);
    assert_eq!(on_center.len(), 2);
    assert_eq!(on_back.len(), 1);
    let mut expected = on_back.clone();
    expected.extend(on_center.iter().copied());
    assert_eq!(state.attachments_of_cards(&vec![back, center]), expected);
    assert_eq!(state.attachments_of_cards(&vec![]), vec![]);
}

#[test]
fn lives_are_attached_or_archived() {
    let state = GameStateBuilder::new()
        .with_player_1(TestGameBoard { life: vec![s("Y-1"), s("Y-1")], ..player_one() })
        .build();
    let board = &state.player_1;
    assert!(matches!(board.lose_lives(0), LifeLoss::Nothing));
    assert!(matches!(board.lose_lives(1), LifeLoss::Attach(1)));
    match board.lose_lives(2) {
        LifeLoss::ArchiveAll(cards) => assert_eq!(cards, board.life.iter().copied().collect::<Vec<_>>()),
        other => panic!("unexpected {other:?}"),
    }
}

#[test]
fn the_steps_of_a_turn() {
    let state = GameStateBuilder::new()
        .with_active_player(Player::One)
        .with_player_1(TestGameBoard {
            center_stage: None,
            collab: Some(s("M-1")),
            ..player_one()
        })
        .build();
    let reset = state.reset_step();
    assert_eq!(reset.wake_up, state.player_1.stage());
    assert_eq!(reset.collab_to_back, state.player_1.collab);
    assert!(reset.collab_to_back.is_some());
    assert!(reset.choose_center);
    assert!(state.end_step());
    assert_eq!(state.draw_step(), Some(GameOverReason::EmptyDeckInDrawStep));

    let full = GameStateBuilder::new()
        .with_active_player(Player::One)
        .with_player_1(TestGameBoard { main_deck: vec![s("M-1")], ..player_one() })
        .build();
    assert_eq!(full.draw_step(), None);
    assert!(!full.end_step());
    let reset = full.reset_step();
    assert_eq!(
        reset.wake_up,
        vec![full.player_1.center_stage.unwrap(), full.player_1.back_stage()[0]]
    );
    assert_eq!(reset.collab_to_back, None);
    assert!(!reset.choose_center);
}

#[test]
fn removing_damage_just_added_gives_it_back() {
    let mut state = GameStateBuilder::new()
        .with_player_1(player_one())
        .with_damage_markers(Player::One, Zone::CenterStage, 0, DamageMarkers(2))
        .build();
    let cards = vec![c(0x0211), c(0x0311), c(0x0211)];
    Event::AddDamageMarkers(AddDamageMarkers { cards: cards.clone(), dmg: DamageMarkers(3) })
        .apply_to(&mut state);
    assert_eq!(state.get_damage(c(0x0211)), DamageMarkers(8));
    assert_eq!(state.get_damage(c(0x0311)), DamageMarkers(3));
    Event::RemoveDamageMarkers(RemoveDamageMarkers { cards, dmg: DamageMarkers(3) })
        .apply_to(&mut state);
    assert_eq!(state.get_damage(c(0x0211)), DamageMarkers(2));
    assert_eq!(state.get_damage(c(0x0311)), DamageMarkers(0));
}

#[test]
fn modifiers_end_with_their_time() {
    let m = |id: u16, kind: ModifierKind, life_time: LifeTime| Modifier { id: ModifierRef(id), kind, life_time };
    let state = GameStateBuilder::new()
        .with_player_1(player_one())
        .with_card_modifiers(vec![
            (
                c(0x0211),
                vec![
                    m(1, ModifierKind::Resting, LifeTime::UntilRemoved),
                    m(2, ModifierKind::MoreDamage(10), LifeTime::ThisTurn),
                    m(3, ModifierKind::Resting, LifeTime::ThisTurn),
                ],
            ),
            (c(0x0311), vec![m(4, ModifierKind::PreventBloom, LifeTime::ThisGame)]),
        ])
        .with_zone_modifiers(Player::One, Zone::All, ModifierKind::PreventCollab, LifeTime::ThisTurn)
        .with_zone_modifiers(Player::Two, Zone::All, ModifierKind::PreventCollab, LifeTime::ThisTurn)
        .with_zone_modifiers(Player::One, Zone::All, ModifierKind::PreventBatonPass, LifeTime::ThisTurn)
        .with_zone_modifiers(Player::One, Zone::CenterStage, ModifierKind::MoreDamage(10), LifeTime::ThisStep)
        .build();
    let first = u16::MAX - 100;
    assert_eq!(
        state.modifiers_of_kind(c(0x0211), &ModifierKind::Resting),
        vec![ModifierRef(1), ModifierRef(3)]
    );
    assert_eq!(state.modifiers_of_kind(c(0x0411), &ModifierKind::Resting), vec![]);
    assert_eq!(
        state.expiring_card_modifiers(LifeTime::ThisTurn),
        vec![(c(0x0211), vec![ModifierRef(2), ModifierRef(3)])]
    );
    assert_eq!(
        state.expiring_card_modifiers(LifeTime::ThisGame),
        vec![(c(0x0311), vec![ModifierRef(4)])]
    );
    assert_eq!(
        state.expiring_zone_modifiers(LifeTime::ThisTurn),
        vec![
            ((Player::One, Zone::All), vec![ModifierRef(first), ModifierRef(first + 2)]),
            ((Player::Two, Zone::All), vec![ModifierRef(first + 1)]),
        ]
    );
    assert_eq!(
        state.expiring_zone_modifiers(LifeTime::ThisStep),
        vec![((Player::One, Zone::CenterStage), vec![ModifierRef(first + 3)])]
    );
    assert_eq!(state.expiring_zone_modifiers(LifeTime::ThisArt), vec![]);
}

#[test]
fn an_empty_list_of_conditions_does_not_hold() {
    let lib = library();
    let state = game();
    let mut bare = match member("M-1", "AZKi", HoloMemberLevel::Debut) {
        Card::HoloMember(m) => m,
        _ => unreachable!(),
    };
    assert!(bare.can_use_art(c(0x0211), 0, c(0x0112), &state, &lib));
    bare.arts[0].condition = vec![];
    assert!(!bare.can_use_art(c(0x0211), 0, c(0x0112), &state, &lib));
    let mut sup = match support("S-1") {
        Card::Support(s) => s,
        _ => unreachable!(),
    };
    assert!(sup.can_use_support(c(0x0611), 0, &state, &lib));
    sup.effects[0].condition = vec![];
    assert!(!sup.can_use_support(c(0x0611), 0, &state, &lib));
}

#[test]
fn main_step_actions_say_what_the_game_does() {
    let lib = library();
    let state = game();
    match state.main_step_effect(&lib, Player::One, MainStepAction::BackStageMember(c(0x0411))) {
        MainStepEffect::ToBackStage { card, zone, modifier, life_time, .. } => {
            assert_eq!((card, zone, life_time), (c(0x0411), Zone::BackStage, LifeTime::ThisTurn));
            assert!(matches!(modifier, ModifierKind::PreventBloom));
        }
        other => panic!("unexpected {other:?}"),
    }
    match state.main_step_effect(&lib, Player::One, MainStepAction::BloomMember(c(0x0511))) {
        MainStepEffect::Bloom { card, targets } => {
            assert_eq!(card, c(0x0511));
            assert_eq!(targets, state.bloom_choices(&lib, Player::One, c(0x0511)));
            assert!(!targets.is_empty());
        }
        other => panic!("unexpected {other:?}"),
    }
    match state.main_step_effect(&lib, Player::One, MainStepAction::BatonPass(c(0x0211))) {
        MainStepEffect::BatonPass { center, choices } => {
            assert_eq!(center, c(0x0211));
            assert_eq!(choices, vec![c(0x0311)]);
        }
        other => panic!("unexpected {other:?}"),
    }
    assert!(matches!(
        state.main_step_effect(&lib, Player::One, MainStepAction::CollabMember(c(0x0311))),
        MainStepEffect::Collab { holo_power_amount: 1, .. }
    ));
    assert!(matches!(
        state.main_step_effect(&lib, Player::One, MainStepAction::UseOshiSkill(c(0x0111), 0)),
        MainStepEffect::UseOshiSkill { skill_idx: 0, is_triggered: false, .. }
    ));
    assert!(matches!(
        state.main_step_effect(&lib, Player::One, MainStepAction::Done),
        MainStepEffect::Done
    ));
}

#[test]
fn the_kinds_of_the_modifiers_that_apply() {
    let lib = library();
    let state = GameStateBuilder::new()
        .with_player_1(player_one())
        .with_card_modifiers(vec![(
            c(0x0211),
            vec![
                Modifier { id: ModifierRef(1), kind: ModifierKind::Resting, life_time: LifeTime::ThisTurn },
                Modifier {
                    id: ModifierRef(2),
                    kind: ModifierKind::MoreDamage(10),
                    life_time: LifeTime::NextTurn(Player::One),
                },
                Modifier {
                    id: ModifierRef(3),
                    kind: ModifierKind::Conditional(Condition::True, Box::new(ModifierKind::NoLifeLoss)),
                    life_time: LifeTime::ThisTurn,
                },
                Modifier {
                    id: ModifierRef(4),
                    kind: ModifierKind::Conditional(Condition::False, Box::new(ModifierKind::PreventBloom)),
                    life_time: LifeTime::ThisTurn,
                },
            ],
        )])
        .with_zone_modifiers(Player::One, Zone::All, ModifierKind::PreventCollab, LifeTime::ThisTurn)
        .build();
    let kinds = state.active_modifier_kinds(&lib, c(0x0211));
    assert_eq!(kinds.len(), 3);
    assert!(matches!(kinds[0], ModifierKind::Resting));
    assert!(matches!(kinds[1], ModifierKind::NoLifeLoss));
    assert!(matches!(kinds[2], ModifierKind::PreventCollab));
    let oshi_kinds = state.player_active_modifier_kinds(&lib, Player::One);
    assert_eq!(oshi_kinds.len(), 1);
    assert!(matches!(oshi_kinds[0], ModifierKind::PreventCollab));
}

#[test]
fn spare_cheers_pay_the_colorless_part_of_a_cost() {
    let lib = library();
    let state = GameStateBuilder::new()
        .with_player_1(player_one())
        .with_attachments(Player::One, Zone::CenterStage, 0, vec![s("Y-1"), s("Y-1")])
        .build();
    let center = c(0x0211);
    // two white cheers: one pays for white, the other is spare and pays for colorless
    assert!(state.required_attached_cheers(&lib, center, &[Color::White, Color::Colorless]));
    assert!(state.required_attached_cheers(&lib, center, &[Color::Colorless, Color::Colorless]));
    assert!(state.required_attached_cheers(&lib, center, &[Color::White, Color::White]));
    // a color is paid by its own cheers only
    assert!(!state.required_attached_cheers(&lib, center, &[Color::Green]));
    // no spare cheer is left for a third cheer
    assert!(!state.required_attached_cheers(
        &lib,
        center,
        &[Color::White, Color::White, Color::Colorless]
    ));
}
