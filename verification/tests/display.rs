use hocg_fan_sim::builder::{GameStateBuilder, TestGameBoard};
use hocg_fan_sim::card_effects::effects::{Action, Color, Condition};
use hocg_fan_sim::card_effects::trigger::Trigger;
use hocg_fan_sim::cards::{
    Card, CheerCard, HoloMemberArt, HoloMemberArtDamage, HoloMemberCard, HoloMemberLevel,
    OshiHoloMemberCard, OshiSkill, OshiSkillKind, Rarity, SupportCard, SupportKind,
};
use hocg_fan_sim::display::{
    art_damage_text, colors_text, ArtDisplay, CardDisplay, MainStepActionDisplay,
    PerformanceStepActionDisplay,
};
use hocg_fan_sim::gameplay::{CardRef, MainStepAction, PerformanceStepAction, Player, Zone};
use hocg_fan_sim::library::GlobalLibrary;
use hocg_fan_sim::modifiers::DamageMarkers;
use hocg_fan_sim::state::GameState;

fn s(x: &str) -> String {
    x.to_string()
}

fn c(n: u16) -> CardRef {
    CardRef(n)
}

fn shown_library() -> GlobalLibrary {
    let mut lib = GlobalLibrary::new();
    lib.insert_card(Card::OshiHoloMember(OshiHoloMemberCard {
        card_number: s("O-1"),
        name: s("Tokino Sora"),
        color: Color::White,
        life: 5,
        skills: vec![OshiSkill {
            kind: OshiSkillKind::Normal,
            name: s("Replacement"),
            cost: 1,
            text: s(""),
            triggers: vec![Trigger::ActivateInMainStep],
            condition: vec![Condition::True],
            effect: vec![Action::Noop],
        }],
        rarity: Rarity::OshiSuperRare,
        illustration_url: s(""),
        artist: s(""),
    }));
    lib.insert_card(Card::HoloMember(HoloMemberCard {
        card_number: s("M-1"),
        name: s("AZKi"),
        colors: vec![Color::Green],
        hp: 100,
        level: HoloMemberLevel::Debut,
        hash_tags: vec![],
        baton_pass_cost: 1,
        abilities: vec![],
        arts: vec![HoloMemberArt {
            name: s("Art"),
            cost: vec![Color::Green, Color::Colorless],
            damage: HoloMemberArtDamage::Basic(20),
            special_damage: None,
            text: s(""),
            condition: vec![Condition::True],
            effect: vec![],
        }],
        attributes: vec![],
        rarity: Rarity::Common,
        illustration_url: s(""),
        artist: s(""),
    }));
    lib.insert_card(Card::Support(SupportCard {
        card_number: s("S-1"),
        name: s("Mic"),
        kind: SupportKind::Tool,
        limited: false,
        text: s(""),
        effects: vec![],
        rarity: Rarity::Common,
        illustration_url: s(""),
        artist: s(""),
    }));
    lib.insert_card(Card::Cheer(CheerCard {
        card_number: s("Y-1"),
        name: s("Green Cheer"),
        color: Color::Green,
        text: s(""),
        rarity: Rarity::Common,
        illustration_url: s(""),
        artist: s(""),
    }));
    lib
}

fn shown_game() -> GameState {
    GameStateBuilder::new()
        .with_player_1(TestGameBoard {
            oshi: Some(s("O-1")),
            center_stage: Some(s("M-1")),
            back_stage: vec![s("M-1")],
            hand: vec![s("S-1")],
            ..Default::default()
        })
        .with_player_2(TestGameBoard { center_stage: Some(s("M-1")), ..Default::default() })
        .with_attachments(Player::One, Zone::CenterStage, 0, vec![s("Y-1"), s("Y-1")])
        .with_damage_markers(Player::One, Zone::CenterStage, 0, DamageMarkers(3))
        .build()
}

#[test]
fn an_oshi_shows_its_life_and_number() {
    let (lib, game) = (shown_library(), shown_game());
    let shown = CardDisplay::new(c(0x0111), &game, &lib);
    assert_eq!(shown.card, c(0x0111));
    assert_eq!(shown.to_string(), "Tokino Sora (Oshi) (-1/5 life) (O-1) c_0111");
}

#[test]
fn a_member_shows_its_hp_left_and_its_cheers() {
    let (lib, game) = (shown_library(), shown_game());
    assert_eq!(
        CardDisplay::new(c(0x0211), &game, &lib).to_string(),
        "AZKi (Debut) (70/100) (cheers: Green, Green) (M-1) c_0211"
    );
    assert_eq!(
        CardDisplay::new(c(0x0311), &game, &lib).to_string(),
        "AZKi (Debut) (100/100) (M-1) c_0311"
    );
}

#[test]
fn support_and_cheer_cards_show_their_kind() {
    let (lib, game) = (shown_library(), shown_game());
    let support = game.player_1.hand()[0];
    assert_eq!(
        CardDisplay::new(support, &game, &lib).to_string(),
        format!("Mic (Tool) (S-1) {}", support.to_text())
    );
    let cheer = game.player_1.attachments(c(0x0211))[0];
    assert_eq!(
        CardDisplay::new(cheer, &game, &lib).to_string(),
        format!("Green Cheer (Green) (Y-1) {}", cheer.to_text())
    );
}

#[test]
fn an_art_shows_its_damage_and_cost() {
    let (lib, game) = (shown_library(), shown_game());
    assert_eq!(
        ArtDisplay::new(c(0x0211), 0, &game, &lib).to_string(),
        "Art (Basic(20)) (Green, Colorless) (M-1) c_0211"
    );
    assert_eq!(ArtDisplay::new(c(0x0211), 0, &game, &lib), ArtDisplay::new(c(0x0211), 0, &game, &lib));
    assert_ne!(ArtDisplay::new(c(0x0211), 0, &game, &lib), ArtDisplay::new(c(0x0112), 0, &game, &lib));
    assert_eq!(art_damage_text(HoloMemberArtDamage::Plus(50)), "Plus(50)");
    assert_eq!(art_damage_text(HoloMemberArtDamage::Multiple(10)), "Multiple(10)");
    assert_eq!(art_damage_text(HoloMemberArtDamage::Uncertain), "Uncertain");
    assert_eq!(colors_text(&[]), "");
    assert_eq!(colors_text(&[Color::Red]), "Red");
}

#[test]
fn main_step_actions_show_what_they_do() {
    let (lib, game) = (shown_library(), shown_game());
    let back = MainStepActionDisplay::new(MainStepAction::BackStageMember(c(0x0311)), &game, &lib);
    assert_eq!(back.action, MainStepAction::BackStageMember(c(0x0311)));
    assert_eq!(back.to_string(), "put on back stage: AZKi (Debut) (100/100) (M-1) c_0311");
    assert_eq!(
        MainStepActionDisplay::new(MainStepAction::BatonPass(c(0x0311)), &game, &lib).to_string(),
        "baton pass (retreat): AZKi (Debut) (100/100) (M-1) c_0311"
    );
    assert_eq!(
        MainStepActionDisplay::new(MainStepAction::UseOshiSkill(c(0x0111), 0), &game, &lib)
            .to_string(),
        "use skill: [-1] Replacement - Tokino Sora (Oshi) (-1/5 life) (O-1) c_0111"
    );
    assert_eq!(MainStepActionDisplay::new(MainStepAction::Done, &game, &lib).to_string(), "done");
}

#[test]
fn performance_actions_show_the_art_and_its_target() {
    let (lib, game) = (shown_library(), shown_game());
    let action = PerformanceStepAction::UseArt { card: c(0x0211), art_idx: 0, target: c(0x0112) };
    let shown = PerformanceStepActionDisplay::new(action.clone(), &game, &lib);
    assert_eq!(shown.action, action);
    assert_eq!(
        shown.to_string(),
        "Art (Basic(20)) (Green, Colorless) (M-1) c_0211 -> AZKi (Debut) (100/100) (M-1) c_0112"
    );
    assert_eq!(
        PerformanceStepActionDisplay::new(PerformanceStepAction::Done, &game, &lib).to_string(),
        "done"
    );
}
