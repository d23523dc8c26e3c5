use hocg_fan_sim::card_effects::effects::{
    Action, CardReference, CardReferences, Condition, Number, NumberLiteral,
};
use hocg_fan_sim::card_effects::error::Error;
use hocg_fan_sim::card_effects::parse::{
    parse_usize, read_tokens, usize_to_string, SerializeEffect, Tokens,
};
use hocg_fan_sim::card_effects::{
    actions_text, conditions_text, parse_effect_action, parse_effect_actions,
    parse_effect_condition, parse_effect_conditions,
};
use hocg_fan_sim::cards::HoloMemberArtDamage;
use hocg_fan_sim::gameplay::CardRef;
use hocg_fan_sim::modifiers::{DamageMarkers, ModifierRef};

#[test]
fn card_ref_text_is_c_and_four_hex_digits() {
    assert_eq!(CardRef(0x0811).to_text(), "c_0811");
    assert_eq!(CardRef(0x00ab).to_text(), "c_00ab");
}

#[test]
fn card_ref_reads_back_its_text() {
    assert_eq!(CardRef::from_text("c_0211"), CardRef(0x0211));
    assert_eq!(CardRef::from_text("c_ffff"), CardRef(0xffff));
    let c = CardRef(0x1234);
    assert_eq!(CardRef::from_text(&c.to_text()), c);
}

#[test]
fn modifier_ref_text_round_trip() {
    assert_eq!(ModifierRef(3).to_text(), "m_0003");
    assert_eq!(ModifierRef::from_text("m_0003"), ModifierRef(3));
    assert_eq!(ModifierRef::from_text(&ModifierRef(0xfe9b).to_text()), ModifierRef(0xfe9b));
}

#[test]
fn art_damage_texts() {
    assert_eq!(HoloMemberArtDamage::try_from_string(&"20".to_string()), Ok(HoloMemberArtDamage::Basic(20)));
    assert_eq!(HoloMemberArtDamage::try_from_string(&"50+".to_string()), Ok(HoloMemberArtDamage::Plus(50)));
    assert_eq!(HoloMemberArtDamage::try_from_string(&"10-".to_string()), Ok(HoloMemberArtDamage::Minus(10)));
    assert_eq!(HoloMemberArtDamage::try_from_string(&"2x".to_string()), Ok(HoloMemberArtDamage::Multiple(2)));
    assert_eq!(HoloMemberArtDamage::try_from_string(&"?".to_string()), Ok(HoloMemberArtDamage::Uncertain));
    assert!(HoloMemberArtDamage::try_from_string(&"abc".to_string()).is_err());
    assert!(HoloMemberArtDamage::try_from_string(&"".to_string()).is_err());
}

#[test]
fn art_damage_round_trip() {
    for d in [
        HoloMemberArtDamage::Basic(30),
        HoloMemberArtDamage::Plus(20),
        HoloMemberArtDamage::Minus(5),
        HoloMemberArtDamage::Multiple(3),
        HoloMemberArtDamage::Uncertain,
    ] {
        let s = d.into_string();
        assert_eq!(HoloMemberArtDamage::try_from_string(&s), Ok(d));
    }
    assert_eq!(HoloMemberArtDamage::Plus(20).into_string(), "20+");
    assert_eq!(HoloMemberArtDamage::Uncertain.into_string(), "?");
}

#[test]
fn damage_markers_count_tens_of_hp() {
    assert_eq!(DamageMarkers::from_hp(40), DamageMarkers(4));
    assert_eq!(DamageMarkers::from_hp(45), DamageMarkers(4));
    assert_eq!(DamageMarkers(4).to_hp(), 40);
    assert_eq!(DamageMarkers(2).add_markers(DamageMarkers(3)), DamageMarkers(5));
    assert_eq!(DamageMarkers(2).sub_markers(DamageMarkers(3)), DamageMarkers(0));
    assert_eq!(DamageMarkers(usize::MAX).add_markers(DamageMarkers(1)), DamageMarkers(usize::MAX));
}

#[test]
fn decimal_numbers() {
    assert_eq!(parse_usize(&"42".to_string()), Some(42));
    assert_eq!(parse_usize(&"+7".to_string()), Some(7));
    assert_eq!(parse_usize(&"".to_string()), None);
    assert_eq!(parse_usize(&"4a".to_string()), None);
    assert_eq!(usize_to_string(0), "0");
    assert_eq!(usize_to_string(1204), "1204");
    assert_eq!(parse_usize(&usize_to_string(987654321)), Some(987654321));
}

#[test]
fn parses_a_condition_with_card_references() {
    let c = parse_effect_conditions("all attach_target is_named_usada_pekora").unwrap();
    assert_eq!(c.len(), 1);
    match &c[0] {
        Condition::All(CardReferences::AttachTarget, inner) => {
            assert!(matches!(**inner, Condition::IsNamedUsadaPekora))
        }
        other => panic!("unexpected condition {other:?}"),
    }
}

#[test]
fn parses_a_condition_on_an_attached_card() {
    let c = parse_effect_condition("any attached_to event_origin is_card this_card").unwrap();
    match c {
        Condition::Any(CardReferences::AttachedTo(CardReference::EventOrigin), inner) => {
            assert!(matches!(*inner, Condition::IsCard(CardReference::ThisCard)))
        }
        other => panic!("unexpected condition {other:?}"),
    }
}

#[test]
fn empty_text_reads_as_the_defaults() {
    let c = parse_effect_conditions("").unwrap();
    assert_eq!(c.len(), 1);
    assert!(matches!(c[0], Condition::True));
    let a = parse_effect_actions("   ").unwrap();
    assert_eq!(a.len(), 1);
    assert!(matches!(a[0], Action::Noop));
}

#[test]
fn parses_actions() {
    let a = parse_effect_actions("draw 1").unwrap();
    assert_eq!(a.len(), 1);
    assert!(matches!(a[0], Action::Draw(Number::Literal(NumberLiteral(1)))));
    let one = parse_effect_action("draw 2").unwrap();
    assert!(matches!(one, Action::Draw(Number::Literal(NumberLiteral(2)))));
}

#[test]
fn unknown_words_are_refused() {
    match parse_effect_condition("no_such_condition") {
        Err(Error::UnexpectedToken(kind, token)) => {
            assert_eq!(kind, "Condition");
            assert_eq!(token, "no_such_condition");
        }
        other => panic!("unexpected result {other:?}"),
    }
    assert!(parse_effect_actions("draw").is_err());
}

#[test]
fn conditions_text_round_trip() {
    let text = "all attach_target is_named_usada_pekora";
    let c = parse_effect_conditions(text).unwrap();
    assert_eq!(conditions_text(&c), text);
    let again = parse_effect_conditions(&conditions_text(&c)).unwrap();
    assert_eq!(conditions_text(&again), text);
}

#[test]
fn actions_text_round_trip() {
    let a = parse_effect_actions("draw 1").unwrap();
    let text = actions_text(&a);
    assert_eq!(text, "draw 1");
    let b = parse_effect_actions(&text).unwrap();
    assert!(matches!(b[0], Action::Draw(Number::Literal(NumberLiteral(1)))));
    let d = Action::Draw(Number::Literal(NumberLiteral(3)));
    let s = d.serialize_effect();
    let back = parse_effect_action(&s).unwrap();
    assert!(matches!(back, Action::Draw(Number::Literal(NumberLiteral(3)))));
}

#[test]
fn token_trees_read_back_from_their_text() {
    let tree = Tokens::List(vec![
        Tokens::Token("add_zone_mod".to_string()),
        Tokens::List(vec![Tokens::Token("a".to_string()), Tokens::Token("b".to_string())]),
        Tokens::Token("this_turn".to_string()),
    ]);
    let text = tree.to_text();
    assert_eq!(text, "(add_zone_mod (a b) this_turn)");
    let back = read_tokens(&text).unwrap();
    assert_eq!(back.to_text(), text);
    match back {
        Tokens::List(items) => {
            assert_eq!(items.len(), 3);
            assert!(matches!(&items[1], Tokens::List(inner) if inner.len() == 2));
        }
        other => panic!("unexpected {other:?}"),
    }
    let word = read_tokens("draw").unwrap();
    assert!(matches!(word, Tokens::Token(w) if w == "draw"));
}
