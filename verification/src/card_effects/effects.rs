use vstd::prelude::*;

use super::error::{Error, ErrorV};
use super::parse::{ParseTokens, SerializeEffect, spec_text, Tokens, TokensV, decimal, is_rest_of, lemma_rest_sizes, lemma_rest_trans, lemma_sizes_head_list, lemma_sizes_prefix, lemma_sizes_suffix, lemma_sizes_suffix_le, lemma_views, lemma_views_push, lemma_views_subrange, parse_usize, spec_parse_usize, spec_take_string, starts_with_dollar, str_is, take_string, token_sizes, tokens_views, usize_to_string};

verus! {

// ------------------------------------------------------------------
// the words of effects
// ------------------------------------------------------------------

/// A variable of an effect; its name starts with `$`.
#[derive(Debug, Clone)]
pub struct Var(pub String);

impl View for Var {
    type V = Seq<char>;

    open spec fn view(&self) -> Seq<char> {
        self.0@
    }
}

/// A number written in an effect.
#[derive(Debug, Clone, Copy, PartialEq, Eq, Structural)]
pub struct NumberLiteral(pub usize);

impl View for NumberLiteral {
    type V = usize;

    open spec fn view(&self) -> usize {
        self.0
    }
}

/// `let <$var> = <value>`
#[derive(Debug)]
pub struct Let<T>(pub Var, pub T);

/// The mathematical value of a [`Let`].
pub struct LetV<A>(pub Seq<char>, pub A);

/// An action of a card effect.
#[derive(Debug)]
pub enum Action {
    /// `add_global_mod <player> <modifier> <life_time>`
    AddGlobalModifier(Player, Modifier, LifeTime),
    /// `add_mod <card_references> <modifier> <life_time>`
    AddModifier(CardReferences, Modifier, LifeTime),
    /// `add_zone_mod <zone> <modifier> <life_time>`
    AddZoneModifier(Zone, Modifier, LifeTime),
    /// `attach_cards <card_references> <card_reference>`
    AttachCards(CardReferences, CardReference),
    /// `deal_damage <card_references> <number>`
    DealDamage(CardReferences, Number),
    /// `deal_special_damage <card_references> <number>`
    DealSpecialDamage(CardReferences, Number),
    /// `draw <number>`
    Draw(Number),
    /// `if <condition> <vec:_action>`
    If(Condition, Vec<Action>),
    /// `knock_out <card_references>`
    KnockOut(CardReferences),
    /// `<let:_card_references>`
    LetCardReferences(Let<CardReferences>),
    /// `<let:_condition>`
    LetCondition(Let<Condition>),
    /// `<let:_let_value>`
    LetSelect(Let<LetValue>),
    /// `<let:_number>`
    LetNumber(Let<Number>),
    /// `no_action`
    Noop,
    /// `reveal <card_references>`
    Reveal(CardReferences),
    /// `send_to <zone> <card_references>`
    SendTo(Zone, CardReferences),
    /// `send_to_bottom <zone> <card_references>`
    SendToBottom(Zone, CardReferences),
    /// `send_to_top <zone> <card_references>`
    SendToTop(Zone, CardReferences),
    /// `shuffle <zone>`
    Shuffle(Zone),
}

/// The mathematical value of a [`Action`].
pub enum ActionV {
    AddGlobalModifier(Player, ModifierV, LifeTimeV),
    AddModifier(CardReferencesV, ModifierV, LifeTimeV),
    AddZoneModifier(Zone, ModifierV, LifeTimeV),
    AttachCards(CardReferencesV, CardReferenceV),
    DealDamage(CardReferencesV, NumberV),
    DealSpecialDamage(CardReferencesV, NumberV),
    Draw(NumberV),
    If(ConditionV, Seq<ActionV>),
    KnockOut(CardReferencesV),
    LetCardReferences(LetV<CardReferencesV>),
    LetCondition(LetV<ConditionV>),
    LetSelect(LetV<LetValueV>),
    LetNumber(LetV<NumberV>),
    Noop,
    Reveal(CardReferencesV),
    SendTo(Zone, CardReferencesV),
    SendToBottom(Zone, CardReferencesV),
    SendToTop(Zone, CardReferencesV),
    Shuffle(Zone),
}

/// A reference to one card.
#[derive(Debug)]
pub enum CardReference {
    /// `art_target`
    ArtTarget,
    /// `attach_target`
    AttachTarget,
    /// `event_origin`
    EventOrigin,
    /// `this_card`
    ThisCard,
    /// `<var>`
    Var(Var),
}

/// The mathematical value of a [`CardReference`].
pub enum CardReferenceV {
    ArtTarget,
    AttachTarget,
    EventOrigin,
    ThisCard,
    Var(Seq<char>),
}

/// A reference to any number of cards.
#[derive(Debug)]
pub enum CardReferences {
    /// `art_target`
    ArtTarget,
    /// `attached_to <card_reference>`
    AttachedTo(CardReference),
    /// `attach_target`
    AttachTarget,
    /// `event_origin`
    EventOrigin,
    /// `from <zone>`
    From(Zone),
    /// `from_top <number> <zone>`
    FromTop(Box<Number>, Zone),
    /// `leftovers`
    Leftovers,
    /// `this_card`
    ThisCard,
    /// `<var>`
    Var(Var),
    /// `filter <card_references> <condition>`
    Filter(Box<CardReferences>, Box<Condition>),
}

/// The mathematical value of a [`CardReferences`].
pub enum CardReferencesV {
    ArtTarget,
    AttachedTo(CardReferenceV),
    AttachTarget,
    EventOrigin,
    From(Zone),
    FromTop(Box<NumberV>, Zone),
    Leftovers,
    ThisCard,
    Var(Seq<char>),
    Filter(Box<CardReferencesV>, Box<ConditionV>),
}

/// A condition of a card effect.
#[derive(Debug)]
pub enum Condition {
    /// `all <card_references> <condition>`
    All(CardReferences, Box<Condition>),
    /// `<condition> and <condition>`
    And(Box<Condition>, Box<Condition>),
    /// `any <card_references> <condition>`
    Any(CardReferences, Box<Condition>),
    /// `anything`
    Anything,
    /// `<number> == <number>`
    Equals(Number, Number),
    /// `exists <card_references>`
    Exists(CardReferences),
    /// `false`
    False,
    /// `<number> >= <number>`
    GreaterThanEquals(Number, Number),
    /// `has_cheers`
    HasCheers,
    /// `is_attribute_buzz`
    IsAttributeBuzz,
    /// `is_color <color>`
    IsColor(Color),
    /// `is_cheer`
    IsCheer,
    /// `is_even <number>`
    IsEven(Number),
    /// `is_in_zone <zone>`
    IsInZone(Zone),
    /// `is_level_first`
    IsLevelFirst,
    /// `is_level_second`
    IsLevelSecond,
    /// `is_member`
    IsMember,
    /// `is_named_azki`
    IsNamedAzki,
    /// `is_named_omaru_polka`
    IsNamedOmaruPolka,
    /// `is_named_tokino_sora`
    IsNamedTokinoSora,
    /// `is_named_usada_pekora`
    IsNamedUsadaPekora,
    /// `is_card <card_reference>`
    IsCard(CardReference),
    /// `is_not_card <card_reference>`
    IsNotCard(CardReference),
    /// `is_odd <number>`
    IsOdd(Number),
    /// `is_support_limited`
    IsSupportLimited,
    /// `<number> <= <number>`
    LessThanEquals(Number, Number),
    /// `not <condition>`
    Not(Box<Condition>),
    /// `<condition> or <condition>`
    Or(Box<Condition>, Box<Condition>),
    /// `true`
    True,
    /// `<var>`
    Var(Var),
    /// `yours`
    Yours,
}

/// The mathematical value of a [`Condition`].
pub enum ConditionV {
    All(CardReferencesV, Box<ConditionV>),
    And(Box<ConditionV>, Box<ConditionV>),
    Any(CardReferencesV, Box<ConditionV>),
    Anything,
    Equals(NumberV, NumberV),
    Exists(CardReferencesV),
    False,
    GreaterThanEquals(NumberV, NumberV),
    HasCheers,
    IsAttributeBuzz,
    IsColor(Color),
    IsCheer,
    IsEven(NumberV),
    IsInZone(Zone),
    IsLevelFirst,
    IsLevelSecond,
    IsMember,
    IsNamedAzki,
    IsNamedOmaruPolka,
    IsNamedTokinoSora,
    IsNamedUsadaPekora,
    IsCard(CardReferenceV),
    IsNotCard(CardReferenceV),
    IsOdd(NumberV),
    IsSupportLimited,
    LessThanEquals(NumberV, NumberV),
    Not(Box<ConditionV>),
    Or(Box<ConditionV>, Box<ConditionV>),
    True,
    Var(Seq<char>),
    Yours,
}

/// A value that a player chooses, or that chance decides.
#[derive(Debug)]
pub enum LetValue {
    /// `optional_activate`
    OptionalActivate,
    /// `roll_dice`
    RollDice,
    /// `select_any <card_references> <condition>`
    SelectAny(Box<CardReferences>, Box<Condition>),
    /// `select_one <card_references> <condition>`
    SelectOne(Box<CardReferences>, Box<Condition>),
    /// `select_number_between <number> <number>`
    SelectNumberBetween(Box<Number>, Box<Number>),
    /// `select_up_to <number> <card_references> <condition>`
    SelectUpTo(Box<Number>, Box<CardReferences>, Box<Condition>),
}

/// The mathematical value of a [`LetValue`].
pub enum LetValueV {
    OptionalActivate,
    RollDice,
    SelectAny(Box<CardReferencesV>, Box<ConditionV>),
    SelectOne(Box<CardReferencesV>, Box<ConditionV>),
    SelectNumberBetween(Box<NumberV>, Box<NumberV>),
    SelectUpTo(Box<NumberV>, Box<CardReferencesV>, Box<ConditionV>),
}

/// How long a modifier lasts.
#[derive(Debug)]
pub enum LifeTime {
    /// `this_game`
    ThisGame,
    /// `this_turn`
    ThisTurn,
    /// `next_turn <player>`
    NextTurn(Player),
    /// `this_step`
    ThisStep,
    /// `this_art`
    ThisArt,
    /// `this_effect`
    ThisEffect,
    /// `until_removed`
    UntilRemoved,
    /// `while_attached <card_reference>`
    WhileAttached(CardReference),
}

/// The mathematical value of a [`LifeTime`].
pub enum LifeTimeV {
    ThisGame,
    ThisTurn,
    NextTurn(Player),
    ThisStep,
    ThisArt,
    ThisEffect,
    UntilRemoved,
    WhileAttached(CardReferenceV),
}

/// A modifier that an effect gives.
#[derive(Debug)]
pub enum Modifier {
    /// `as_art_cost <number> <color>`
    AsArtCost(Number, Color),
    /// `as_cheer <number> <color>`
    AsCheer(Number, Color),
    /// `deal_less_dmg <number>`
    DealLessDamage(Number),
    /// `deal_more_dmg <number>`
    DealMoreDamage(Number),
    /// `recv_less_dmg <number>`
    ReceiveLessDamage(Number),
    /// `recv_more_dmg <number>`
    ReceiveMoreDamage(Number),
    /// `next_dice_roll <number>`
    NextDiceRoll(Number),
    /// `no_life_loss`
    NoLifeLoss,
    /// `when <condition> <modifier>`
    When(Condition, Box<Modifier>),
}

/// The mathematical value of a [`Modifier`].
pub enum ModifierV {
    AsArtCost(NumberV, Color),
    AsCheer(NumberV, Color),
    DealLessDamage(NumberV),
    DealMoreDamage(NumberV),
    ReceiveLessDamage(NumberV),
    ReceiveMoreDamage(NumberV),
    NextDiceRoll(NumberV),
    NoLifeLoss,
    When(ConditionV, Box<ModifierV>),
}

/// A player, seen from the card.
#[derive(Debug, Clone, Copy, PartialEq, Eq, Structural)]
pub enum Player {
    /// `you`
    You,
    /// `opponent`
    Opponent,
}

impl View for Player {
    type V = Player;

    open spec fn view(&self) -> Player {
        *self
    }
}

/// A number of a card effect.
#[derive(Debug)]
pub enum Number {
    /// `count <card_references>`
    Count(CardReferences),
    /// `<number_literal>`
    Literal(NumberLiteral),
    /// `<number> - <number>`
    Minus(Box<Number>, Box<Number>),
    /// `<number> * <number>`
    Multiply(Box<Number>, Box<Number>),
    /// `<number> + <number>`
    Plus(Box<Number>, Box<Number>),
    /// `<var>`
    Var(Var),
    /// `dmg_amount`
    DamageAmount,
    /// `hp_amount`
    HealthPointAmount,
}

/// The mathematical value of a [`Number`].
pub enum NumberV {
    Count(CardReferencesV),
    Literal(usize),
    Minus(Box<NumberV>, Box<NumberV>),
    Multiply(Box<NumberV>, Box<NumberV>),
    Plus(Box<NumberV>, Box<NumberV>),
    Var(Seq<char>),
    DamageAmount,
    HealthPointAmount,
}

/// A zone, seen from the card.
#[derive(Debug, Clone, Copy, PartialEq, Eq, Structural)]
pub enum Zone {
    /// `archive`
    Archive,
    /// `back_stage`
    BackStage,
    /// `center_stage`
    CenterStage,
    /// `cheer_deck`
    CheerDeck,
    /// `hand`
    Hand,
    /// `holo_power`
    HoloPower,
    /// `main_deck`
    MainDeck,
    /// `main_stage`
    MainStage,
    /// `opponent_back_stage`
    OpponentBackStage,
    /// `opponent_center_stage`
    OpponentCenterStage,
    /// `stage`
    Stage,
}

impl View for Zone {
    type V = Zone;

    open spec fn view(&self) -> Zone {
        *self
    }
}

/// A color.
#[derive(Debug, Clone, Copy, PartialEq, Eq, Structural)]
pub enum Color {
    /// `white`
    White,
    /// `green`
    Green,
    /// `red`
    Red,
    /// `blue`
    Blue,
    /// `purple`
    Purple,
    /// `yellow`
    Yellow,
    /// `colorless`
    Colorless,
}

impl View for Color {
    type V = Color;

    open spec fn view(&self) -> Color {
        *self
    }
}

// ------------------------------------------------------------------
// mathematical values
// ------------------------------------------------------------------

pub open spec fn action_view(x: Action) -> ActionV
    decreases x,
{
    match x {
        Action::AddGlobalModifier(f0, f1, f2) => ActionV::AddGlobalModifier(f0, modifier_view(f1), life_time_view(f2)),
        Action::AddModifier(f0, f1, f2) => ActionV::AddModifier(card_references_view(f0), modifier_view(f1), life_time_view(f2)),
        Action::AddZoneModifier(f0, f1, f2) => ActionV::AddZoneModifier(f0, modifier_view(f1), life_time_view(f2)),
        Action::AttachCards(f0, f1) => ActionV::AttachCards(card_references_view(f0), card_reference_view(f1)),
        Action::DealDamage(f0, f1) => ActionV::DealDamage(card_references_view(f0), number_view(f1)),
        Action::DealSpecialDamage(f0, f1) => ActionV::DealSpecialDamage(card_references_view(f0), number_view(f1)),
        Action::Draw(f0) => ActionV::Draw(number_view(f0)),
        Action::If(f0, f1) => ActionV::If(condition_view(f0), action_views(f1@)),
        Action::KnockOut(f0) => ActionV::KnockOut(card_references_view(f0)),
        Action::LetCardReferences(f0) => ActionV::LetCardReferences(let_card_references_view(f0)),
        Action::LetCondition(f0) => ActionV::LetCondition(let_condition_view(f0)),
        Action::LetSelect(f0) => ActionV::LetSelect(let_let_value_view(f0)),
        Action::LetNumber(f0) => ActionV::LetNumber(let_number_view(f0)),
        Action::Noop => ActionV::Noop,
        Action::Reveal(f0) => ActionV::Reveal(card_references_view(f0)),
        Action::SendTo(f0, f1) => ActionV::SendTo(f0, card_references_view(f1)),
        Action::SendToBottom(f0, f1) => ActionV::SendToBottom(f0, card_references_view(f1)),
        Action::SendToTop(f0, f1) => ActionV::SendToTop(f0, card_references_view(f1)),
        Action::Shuffle(f0) => ActionV::Shuffle(f0),
    }
}

impl View for Action {
    type V = ActionV;

    open spec fn view(&self) -> ActionV {
        action_view(*self)
    }
}

pub open spec fn card_reference_view(x: CardReference) -> CardReferenceV
{
    match x {
        CardReference::ArtTarget => CardReferenceV::ArtTarget,
        CardReference::AttachTarget => CardReferenceV::AttachTarget,
        CardReference::EventOrigin => CardReferenceV::EventOrigin,
        CardReference::ThisCard => CardReferenceV::ThisCard,
        CardReference::Var(f0) => CardReferenceV::Var(f0.0@),
    }
}

impl View for CardReference {
    type V = CardReferenceV;

    open spec fn view(&self) -> CardReferenceV {
        card_reference_view(*self)
    }
}

pub open spec fn card_references_view(x: CardReferences) -> CardReferencesV
    decreases x,
{
    match x {
        CardReferences::ArtTarget => CardReferencesV::ArtTarget,
        CardReferences::AttachedTo(f0) => CardReferencesV::AttachedTo(card_reference_view(f0)),
        CardReferences::AttachTarget => CardReferencesV::AttachTarget,
        CardReferences::EventOrigin => CardReferencesV::EventOrigin,
        CardReferences::From(f0) => CardReferencesV::From(f0),
        CardReferences::FromTop(f0, f1) => CardReferencesV::FromTop(Box::new(number_view(*f0)), f1),
        CardReferences::Leftovers => CardReferencesV::Leftovers,
        CardReferences::ThisCard => CardReferencesV::ThisCard,
        CardReferences::Var(f0) => CardReferencesV::Var(f0.0@),
        CardReferences::Filter(f0, f1) => CardReferencesV::Filter(Box::new(card_references_view(*f0)), Box::new(condition_view(*f1))),
    }
}

impl View for CardReferences {
    type V = CardReferencesV;

    open spec fn view(&self) -> CardReferencesV {
        card_references_view(*self)
    }
}

pub open spec fn condition_view(x: Condition) -> ConditionV
    decreases x,
{
    match x {
        Condition::All(f0, f1) => ConditionV::All(card_references_view(f0), Box::new(condition_view(*f1))),
        Condition::And(f0, f1) => ConditionV::And(Box::new(condition_view(*f0)), Box::new(condition_view(*f1))),
        Condition::Any(f0, f1) => ConditionV::Any(card_references_view(f0), Box::new(condition_view(*f1))),
        Condition::Anything => ConditionV::Anything,
        Condition::Equals(f0, f1) => ConditionV::Equals(number_view(f0), number_view(f1)),
        Condition::Exists(f0) => ConditionV::Exists(card_references_view(f0)),
        Condition::False => ConditionV::False,
        Condition::GreaterThanEquals(f0, f1) => ConditionV::GreaterThanEquals(number_view(f0), number_view(f1)),
        Condition::HasCheers => ConditionV::HasCheers,
        Condition::IsAttributeBuzz => ConditionV::IsAttributeBuzz,
        Condition::IsColor(f0) => ConditionV::IsColor(f0),
        Condition::IsCheer => ConditionV::IsCheer,
        Condition::IsEven(f0) => ConditionV::IsEven(number_view(f0)),
        Condition::IsInZone(f0) => ConditionV::IsInZone(f0),
        Condition::IsLevelFirst => ConditionV::IsLevelFirst,
        Condition::IsLevelSecond => ConditionV::IsLevelSecond,
        Condition::IsMember => ConditionV::IsMember,
        Condition::IsNamedAzki => ConditionV::IsNamedAzki,
        Condition::IsNamedOmaruPolka => ConditionV::IsNamedOmaruPolka,
        Condition::IsNamedTokinoSora => ConditionV::IsNamedTokinoSora,
        Condition::IsNamedUsadaPekora => ConditionV::IsNamedUsadaPekora,
        Condition::IsCard(f0) => ConditionV::IsCard(card_reference_view(f0)),
        Condition::IsNotCard(f0) => ConditionV::IsNotCard(card_reference_view(f0)),
        Condition::IsOdd(f0) => ConditionV::IsOdd(number_view(f0)),
        Condition::IsSupportLimited => ConditionV::IsSupportLimited,
        Condition::LessThanEquals(f0, f1) => ConditionV::LessThanEquals(number_view(f0), number_view(f1)),
        Condition::Not(f0) => ConditionV::Not(Box::new(condition_view(*f0))),
        Condition::Or(f0, f1) => ConditionV::Or(Box::new(condition_view(*f0)), Box::new(condition_view(*f1))),
        Condition::True => ConditionV::True,
        Condition::Var(f0) => ConditionV::Var(f0.0@),
        Condition::Yours => ConditionV::Yours,
    }
}

impl View for Condition {
    type V = ConditionV;

    open spec fn view(&self) -> ConditionV {
        condition_view(*self)
    }
}

pub open spec fn let_value_view(x: LetValue) -> LetValueV
{
    match x {
        LetValue::OptionalActivate => LetValueV::OptionalActivate,
        LetValue::RollDice => LetValueV::RollDice,
        LetValue::SelectAny(f0, f1) => LetValueV::SelectAny(Box::new(card_references_view(*f0)), Box::new(condition_view(*f1))),
        LetValue::SelectOne(f0, f1) => LetValueV::SelectOne(Box::new(card_references_view(*f0)), Box::new(condition_view(*f1))),
        LetValue::SelectNumberBetween(f0, f1) => LetValueV::SelectNumberBetween(Box::new(number_view(*f0)), Box::new(number_view(*f1))),
        LetValue::SelectUpTo(f0, f1, f2) => LetValueV::SelectUpTo(Box::new(number_view(*f0)), Box::new(card_references_view(*f1)), Box::new(condition_view(*f2))),
    }
}

impl View for LetValue {
    type V = LetValueV;

    open spec fn view(&self) -> LetValueV {
        let_value_view(*self)
    }
}

pub open spec fn life_time_view(x: LifeTime) -> LifeTimeV
{
    match x {
        LifeTime::ThisGame => LifeTimeV::ThisGame,
        LifeTime::ThisTurn => LifeTimeV::ThisTurn,
        LifeTime::NextTurn(f0) => LifeTimeV::NextTurn(f0),
        LifeTime::ThisStep => LifeTimeV::ThisStep,
        LifeTime::ThisArt => LifeTimeV::ThisArt,
        LifeTime::ThisEffect => LifeTimeV::ThisEffect,
        LifeTime::UntilRemoved => LifeTimeV::UntilRemoved,
        LifeTime::WhileAttached(f0) => LifeTimeV::WhileAttached(card_reference_view(f0)),
    }
}

impl View for LifeTime {
    type V = LifeTimeV;

    open spec fn view(&self) -> LifeTimeV {
        life_time_view(*self)
    }
}

pub open spec fn modifier_view(x: Modifier) -> ModifierV
    decreases x,
{
    match x {
        Modifier::AsArtCost(f0, f1) => ModifierV::AsArtCost(number_view(f0), f1),
        Modifier::AsCheer(f0, f1) => ModifierV::AsCheer(number_view(f0), f1),
        Modifier::DealLessDamage(f0) => ModifierV::DealLessDamage(number_view(f0)),
        Modifier::DealMoreDamage(f0) => ModifierV::DealMoreDamage(number_view(f0)),
        Modifier::ReceiveLessDamage(f0) => ModifierV::ReceiveLessDamage(number_view(f0)),
        Modifier::ReceiveMoreDamage(f0) => ModifierV::ReceiveMoreDamage(number_view(f0)),
        Modifier::NextDiceRoll(f0) => ModifierV::NextDiceRoll(number_view(f0)),
        Modifier::NoLifeLoss => ModifierV::NoLifeLoss,
        Modifier::When(f0, f1) => ModifierV::When(condition_view(f0), Box::new(modifier_view(*f1))),
    }
}

impl View for Modifier {
    type V = ModifierV;

    open spec fn view(&self) -> ModifierV {
        modifier_view(*self)
    }
}

pub open spec fn number_view(x: Number) -> NumberV
    decreases x,
{
    match x {
        Number::Count(f0) => NumberV::Count(card_references_view(f0)),
        Number::Literal(f0) => NumberV::Literal(f0.0),
        Number::Minus(f0, f1) => NumberV::Minus(Box::new(number_view(*f0)), Box::new(number_view(*f1))),
        Number::Multiply(f0, f1) => NumberV::Multiply(Box::new(number_view(*f0)), Box::new(number_view(*f1))),
        Number::Plus(f0, f1) => NumberV::Plus(Box::new(number_view(*f0)), Box::new(number_view(*f1))),
        Number::Var(f0) => NumberV::Var(f0.0@),
        Number::DamageAmount => NumberV::DamageAmount,
        Number::HealthPointAmount => NumberV::HealthPointAmount,
    }
}

impl View for Number {
    type V = NumberV;

    open spec fn view(&self) -> NumberV {
        number_view(*self)
    }
}

pub open spec fn action_views(s: Seq<Action>) -> Seq<ActionV>
    decreases s,
{
    if s.len() == 0 {
        Seq::empty()
    } else {
        action_views(s.drop_last()).push(action_view(s.last()))
    }
}

pub proof fn lemma_action_views(s: Seq<Action>)
    ensures
        action_views(s).len() == s.len(),
        forall|i: int| 0 <= i < s.len() ==> #[trigger] action_views(s)[i] == s[i]@,
    decreases s.len(),
{
    if s.len() > 0 {
        lemma_action_views(s.drop_last());
        assert forall|i: int| 0 <= i < s.len() implies #[trigger] action_views(s)[i] == s[i]@ by {
            if i < s.len() - 1 {
                assert(s.drop_last()[i] == s[i]);
            }
        }
    }
}

pub proof fn lemma_action_views_push(s: Seq<Action>, t: Action)
    ensures
        action_views(s.push(t)) == action_views(s).push(t@),
{
    assert(s.push(t).drop_last() =~= s);
}

pub open spec fn condition_views(s: Seq<Condition>) -> Seq<ConditionV>
    decreases s,
{
    if s.len() == 0 {
        Seq::empty()
    } else {
        condition_views(s.drop_last()).push(condition_view(s.last()))
    }
}

pub proof fn lemma_condition_views(s: Seq<Condition>)
    ensures
        condition_views(s).len() == s.len(),
        forall|i: int| 0 <= i < s.len() ==> #[trigger] condition_views(s)[i] == s[i]@,
    decreases s.len(),
{
    if s.len() > 0 {
        lemma_condition_views(s.drop_last());
        assert forall|i: int| 0 <= i < s.len() implies #[trigger] condition_views(s)[i] == s[i]@ by {
            if i < s.len() - 1 {
                assert(s.drop_last()[i] == s[i]);
            }
        }
    }
}

pub proof fn lemma_condition_views_push(s: Seq<Condition>, t: Condition)
    ensures
        condition_views(s.push(t)) == condition_views(s).push(t@),
{
    assert(s.push(t).drop_last() =~= s);
}

pub open spec fn let_card_references_view(l: Let<CardReferences>) -> LetV<CardReferencesV> {
    LetV(l.0.0@, card_references_view(l.1))
}

impl View for Let<CardReferences> {
    type V = LetV<CardReferencesV>;

    open spec fn view(&self) -> LetV<CardReferencesV> {
        let_card_references_view(*self)
    }
}

pub open spec fn let_condition_view(l: Let<Condition>) -> LetV<ConditionV> {
    LetV(l.0.0@, condition_view(l.1))
}

impl View for Let<Condition> {
    type V = LetV<ConditionV>;

    open spec fn view(&self) -> LetV<ConditionV> {
        let_condition_view(*self)
    }
}

pub open spec fn let_let_value_view(l: Let<LetValue>) -> LetV<LetValueV> {
    LetV(l.0.0@, let_value_view(l.1))
}

impl View for Let<LetValue> {
    type V = LetV<LetValueV>;

    open spec fn view(&self) -> LetV<LetValueV> {
        let_let_value_view(*self)
    }
}

pub open spec fn let_number_view(l: Let<Number>) -> LetV<NumberV> {
    LetV(l.0.0@, number_view(l.1))
}

impl View for Let<Number> {
    type V = LetV<NumberV>;

    open spec fn view(&self) -> LetV<NumberV> {
        let_number_view(*self)
    }
}

// ------------------------------------------------------------------
// writing effects as tokens
// ------------------------------------------------------------------

/// The tokens of a variable: its name.
pub fn var_to_tokens(v: &Var) -> (res: Tokens)
    ensures
        res@ == TokensV::Token(v@),
{
    Tokens::Token(v.0.clone())
}

/// The tokens of a number: its decimal text.
pub fn number_literal_to_tokens(n: &NumberLiteral) -> (res: Tokens)
    ensures
        res@ == TokensV::Token(decimal(n.0 as nat)),
{
    Tokens::Token(usize_to_string(n.0))
}

/// The tokens of a Action.
pub open spec fn spec_action_tokens(x: ActionV) -> TokensV
    decreases x, 0nat,
{
    match x {
        ActionV::AddGlobalModifier(f0, f1, f2) => TokensV::List(seq![TokensV::Token("add_global_mod"@), spec_player_tokens(f0), spec_modifier_tokens(f1), spec_life_time_tokens(f2)]),
        ActionV::AddModifier(f0, f1, f2) => TokensV::List(seq![TokensV::Token("add_mod"@), spec_card_references_tokens(f0), spec_modifier_tokens(f1), spec_life_time_tokens(f2)]),
        ActionV::AddZoneModifier(f0, f1, f2) => TokensV::List(seq![TokensV::Token("add_zone_mod"@), spec_zone_tokens(f0), spec_modifier_tokens(f1), spec_life_time_tokens(f2)]),
        ActionV::AttachCards(f0, f1) => TokensV::List(seq![TokensV::Token("attach_cards"@), spec_card_references_tokens(f0), spec_card_reference_tokens(f1)]),
        ActionV::DealDamage(f0, f1) => TokensV::List(seq![TokensV::Token("deal_damage"@), spec_card_references_tokens(f0), spec_number_tokens(f1)]),
        ActionV::DealSpecialDamage(f0, f1) => TokensV::List(seq![TokensV::Token("deal_special_damage"@), spec_card_references_tokens(f0), spec_number_tokens(f1)]),
        ActionV::Draw(f0) => TokensV::List(seq![TokensV::Token("draw"@), spec_number_tokens(f0)]),
        ActionV::If(f0, f1) => TokensV::List(seq![TokensV::Token("if"@), spec_condition_tokens(f0), spec_vec_action_tokens(f1)]),
        ActionV::KnockOut(f0) => TokensV::List(seq![TokensV::Token("knock_out"@), spec_card_references_tokens(f0)]),
        ActionV::LetCardReferences(f0) => spec_let_card_references_tokens(f0),
        ActionV::LetCondition(f0) => spec_let_condition_tokens(f0),
        ActionV::LetSelect(f0) => spec_let_let_value_tokens(f0),
        ActionV::LetNumber(f0) => spec_let_number_tokens(f0),
        ActionV::Noop => TokensV::Token("no_action"@),
        ActionV::Reveal(f0) => TokensV::List(seq![TokensV::Token("reveal"@), spec_card_references_tokens(f0)]),
        ActionV::SendTo(f0, f1) => TokensV::List(seq![TokensV::Token("send_to"@), spec_zone_tokens(f0), spec_card_references_tokens(f1)]),
        ActionV::SendToBottom(f0, f1) => TokensV::List(seq![TokensV::Token("send_to_bottom"@), spec_zone_tokens(f0), spec_card_references_tokens(f1)]),
        ActionV::SendToTop(f0, f1) => TokensV::List(seq![TokensV::Token("send_to_top"@), spec_zone_tokens(f0), spec_card_references_tokens(f1)]),
        ActionV::Shuffle(f0) => TokensV::List(seq![TokensV::Token("shuffle"@), spec_zone_tokens(f0)]),
    }
}

/// Writes a Action as tokens.
pub fn action_to_tokens(x: &Action) -> (res: Tokens)
    ensures
        res@ == spec_action_tokens(x@),
    decreases x,
{
    proof {
        reveal_strlit("add_global_mod");
        reveal_strlit("add_mod");
        reveal_strlit("add_zone_mod");
        reveal_strlit("attach_cards");
        reveal_strlit("deal_damage");
        reveal_strlit("deal_special_damage");
        reveal_strlit("draw");
        reveal_strlit("if");
        reveal_strlit("knock_out");
        reveal_strlit("no_action");
        reveal_strlit("reveal");
        reveal_strlit("send_to");
        reveal_strlit("send_to_bottom");
        reveal_strlit("send_to_top");
        reveal_strlit("shuffle");
    }
    match x {
        Action::AddGlobalModifier(f0, f1, f2) => {
            let mut v: Vec<Tokens> = Vec::new();
            let t0 = Tokens::Token(String::from_str("add_global_mod"));
            proof {
                lemma_views_push(v@, t0);
            }
            v.push(t0);
            let t1 = player_to_tokens(f0);
            proof {
                lemma_views_push(v@, t1);
            }
            v.push(t1);
            let t2 = modifier_to_tokens(f1);
            proof {
                lemma_views_push(v@, t2);
            }
            v.push(t2);
            let t3 = life_time_to_tokens(f2);
            proof {
                lemma_views_push(v@, t3);
            }
            v.push(t3);
            proof {
                assert(tokens_views(v@) =~= seq![TokensV::Token("add_global_mod"@), spec_player_tokens((*f0)), spec_modifier_tokens(modifier_view((*f1))), spec_life_time_tokens(life_time_view((*f2)))]);
            }
            Tokens::List(v)
        },
        Action::AddModifier(f0, f1, f2) => {
            let mut v: Vec<Tokens> = Vec::new();
            let t0 = Tokens::Token(String::from_str("add_mod"));
            proof {
                lemma_views_push(v@, t0);
            }
            v.push(t0);
            let t1 = card_references_to_tokens(f0);
            proof {
                lemma_views_push(v@, t1);
            }
            v.push(t1);
            let t2 = modifier_to_tokens(f1);
            proof {
                lemma_views_push(v@, t2);
            }
            v.push(t2);
            let t3 = life_time_to_tokens(f2);
            proof {
                lemma_views_push(v@, t3);
            }
            v.push(t3);
            proof {
                assert(tokens_views(v@) =~= seq![TokensV::Token("add_mod"@), spec_card_references_tokens(card_references_view((*f0))), spec_modifier_tokens(modifier_view((*f1))), spec_life_time_tokens(life_time_view((*f2)))]);
            }
            Tokens::List(v)
        },
        Action::AddZoneModifier(f0, f1, f2) => {
            let mut v: Vec<Tokens> = Vec::new();
            let t0 = Tokens::Token(String::from_str("add_zone_mod"));
            proof {
                lemma_views_push(v@, t0);
            }
            v.push(t0);
            let t1 = zone_to_tokens(f0);
            proof {
                lemma_views_push(v@, t1);
            }
            v.push(t1);
            let t2 = modifier_to_tokens(f1);
            proof {
                lemma_views_push(v@, t2);
            }
            v.push(t2);
            let t3 = life_time_to_tokens(f2);
            proof {
                lemma_views_push(v@, t3);
            }
            v.push(t3);
            proof {
                assert(tokens_views(v@) =~= seq![TokensV::Token("add_zone_mod"@), spec_zone_tokens((*f0)), spec_modifier_tokens(modifier_view((*f1))), spec_life_time_tokens(life_time_view((*f2)))]);
            }
            Tokens::List(v)
        },
        Action::AttachCards(f0, f1) => {
            let mut v: Vec<Tokens> = Vec::new();
            let t0 = Tokens::Token(String::from_str("attach_cards"));
            proof {
                lemma_views_push(v@, t0);
            }
            v.push(t0);
            let t1 = card_references_to_tokens(f0);
            proof {
                lemma_views_push(v@, t1);
            }
            v.push(t1);
            let t2 = card_reference_to_tokens(f1);
            proof {
                lemma_views_push(v@, t2);
            }
            v.push(t2);
            proof {
                assert(tokens_views(v@) =~= seq![TokensV::Token("attach_cards"@), spec_card_references_tokens(card_references_view((*f0))), spec_card_reference_tokens(card_reference_view((*f1)))]);
            }
            Tokens::List(v)
        },
        Action::DealDamage(f0, f1) => {
            let mut v: Vec<Tokens> = Vec::new();
            let t0 = Tokens::Token(String::from_str("deal_damage"));
            proof {
                lemma_views_push(v@, t0);
            }
            v.push(t0);
            let t1 = card_references_to_tokens(f0);
            proof {
                lemma_views_push(v@, t1);
            }
            v.push(t1);
            let t2 = number_to_tokens(f1);
            proof {
                lemma_views_push(v@, t2);
            }
            v.push(t2);
            proof {
                assert(tokens_views(v@) =~= seq![TokensV::Token("deal_damage"@), spec_card_references_tokens(card_references_view((*f0))), spec_number_tokens(number_view((*f1)))]);
            }
            Tokens::List(v)
        },
        Action::DealSpecialDamage(f0, f1) => {
            let mut v: Vec<Tokens> = Vec::new();
            let t0 = Tokens::Token(String::from_str("deal_special_damage"));
            proof {
                lemma_views_push(v@, t0);
            }
            v.push(t0);
            let t1 = card_references_to_tokens(f0);
            proof {
                lemma_views_push(v@, t1);
            }
            v.push(t1);
            let t2 = number_to_tokens(f1);
            proof {
                lemma_views_push(v@, t2);
            }
            v.push(t2);
            proof {
                assert(tokens_views(v@) =~= seq![TokensV::Token("deal_special_damage"@), spec_card_references_tokens(card_references_view((*f0))), spec_number_tokens(number_view((*f1)))]);
            }
            Tokens::List(v)
        },
        Action::Draw(f0) => {
            let mut v: Vec<Tokens> = Vec::new();
            let t0 = Tokens::Token(String::from_str("draw"));
            proof {
                lemma_views_push(v@, t0);
            }
            v.push(t0);
            let t1 = number_to_tokens(f0);
            proof {
                lemma_views_push(v@, t1);
            }
            v.push(t1);
            proof {
                assert(tokens_views(v@) =~= seq![TokensV::Token("draw"@), spec_number_tokens(number_view((*f0)))]);
            }
            Tokens::List(v)
        },
        Action::If(f0, f1) => {
            assert(decreases_to!(*x => (*x)->If_1));
            let mut v: Vec<Tokens> = Vec::new();
            let t0 = Tokens::Token(String::from_str("if"));
            proof {
                lemma_views_push(v@, t0);
            }
            v.push(t0);
            let t1 = condition_to_tokens(f0);
            proof {
                lemma_views_push(v@, t1);
            }
            v.push(t1);
            let t2 = vec_action_to_tokens(f1);
            proof {
                lemma_views_push(v@, t2);
            }
            v.push(t2);
            proof {
                assert(tokens_views(v@) =~= seq![TokensV::Token("if"@), spec_condition_tokens(condition_view((*f0))), spec_vec_action_tokens(action_views((*f1)@))]);
            }
            Tokens::List(v)
        },
        Action::KnockOut(f0) => {
            let mut v: Vec<Tokens> = Vec::new();
            let t0 = Tokens::Token(String::from_str("knock_out"));
            proof {
                lemma_views_push(v@, t0);
            }
            v.push(t0);
            let t1 = card_references_to_tokens(f0);
            proof {
                lemma_views_push(v@, t1);
            }
            v.push(t1);
            proof {
                assert(tokens_views(v@) =~= seq![TokensV::Token("knock_out"@), spec_card_references_tokens(card_references_view((*f0)))]);
            }
            Tokens::List(v)
        },
        Action::LetCardReferences(f0) => {
            let_card_references_to_tokens(f0)
        },
        Action::LetCondition(f0) => {
            let_condition_to_tokens(f0)
        },
        Action::LetSelect(f0) => {
            let_let_value_to_tokens(f0)
        },
        Action::LetNumber(f0) => {
            let_number_to_tokens(f0)
        },
        Action::Noop => Tokens::Token(String::from_str("no_action")),
        Action::Reveal(f0) => {
            let mut v: Vec<Tokens> = Vec::new();
            let t0 = Tokens::Token(String::from_str("reveal"));
            proof {
                lemma_views_push(v@, t0);
            }
            v.push(t0);
            let t1 = card_references_to_tokens(f0);
            proof {
                lemma_views_push(v@, t1);
            }
            v.push(t1);
            proof {
                assert(tokens_views(v@) =~= seq![TokensV::Token("reveal"@), spec_card_references_tokens(card_references_view((*f0)))]);
            }
            Tokens::List(v)
        },
        Action::SendTo(f0, f1) => {
            let mut v: Vec<Tokens> = Vec::new();
            let t0 = Tokens::Token(String::from_str("send_to"));
            proof {
                lemma_views_push(v@, t0);
            }
            v.push(t0);
            let t1 = zone_to_tokens(f0);
            proof {
                lemma_views_push(v@, t1);
            }
            v.push(t1);
            let t2 = card_references_to_tokens(f1);
            proof {
                lemma_views_push(v@, t2);
            }
            v.push(t2);
            proof {
                assert(tokens_views(v@) =~= seq![TokensV::Token("send_to"@), spec_zone_tokens((*f0)), spec_card_references_tokens(card_references_view((*f1)))]);
            }
            Tokens::List(v)
        },
        Action::SendToBottom(f0, f1) => {
            let mut v: Vec<Tokens> = Vec::new();
            let t0 = Tokens::Token(String::from_str("send_to_bottom"));
            proof {
                lemma_views_push(v@, t0);
            }
            v.push(t0);
            let t1 = zone_to_tokens(f0);
            proof {
                lemma_views_push(v@, t1);
            }
            v.push(t1);
            let t2 = card_references_to_tokens(f1);
            proof {
                lemma_views_push(v@, t2);
            }
            v.push(t2);
            proof {
                assert(tokens_views(v@) =~= seq![TokensV::Token("send_to_bottom"@), spec_zone_tokens((*f0)), spec_card_references_tokens(card_references_view((*f1)))]);
            }
            Tokens::List(v)
        },
        Action::SendToTop(f0, f1) => {
            let mut v: Vec<Tokens> = Vec::new();
            let t0 = Tokens::Token(String::from_str("send_to_top"));
            proof {
                lemma_views_push(v@, t0);
            }
            v.push(t0);
            let t1 = zone_to_tokens(f0);
            proof {
                lemma_views_push(v@, t1);
            }
            v.push(t1);
            let t2 = card_references_to_tokens(f1);
            proof {
                lemma_views_push(v@, t2);
            }
            v.push(t2);
            proof {
                assert(tokens_views(v@) =~= seq![TokensV::Token("send_to_top"@), spec_zone_tokens((*f0)), spec_card_references_tokens(card_references_view((*f1)))]);
            }
            Tokens::List(v)
        },
        Action::Shuffle(f0) => {
            let mut v: Vec<Tokens> = Vec::new();
            let t0 = Tokens::Token(String::from_str("shuffle"));
            proof {
                lemma_views_push(v@, t0);
            }
            v.push(t0);
            let t1 = zone_to_tokens(f0);
            proof {
                lemma_views_push(v@, t1);
            }
            v.push(t1);
            proof {
                assert(tokens_views(v@) =~= seq![TokensV::Token("shuffle"@), spec_zone_tokens((*f0))]);
            }
            Tokens::List(v)
        },
    }
}

/// The tokens of a CardReference.
pub open spec fn spec_card_reference_tokens(x: CardReferenceV) -> TokensV
{
    match x {
        CardReferenceV::ArtTarget => TokensV::Token("art_target"@),
        CardReferenceV::AttachTarget => TokensV::Token("attach_target"@),
        CardReferenceV::EventOrigin => TokensV::Token("event_origin"@),
        CardReferenceV::ThisCard => TokensV::Token("this_card"@),
        CardReferenceV::Var(f0) => TokensV::Token(f0),
    }
}

/// Writes a CardReference as tokens.
pub fn card_reference_to_tokens(x: &CardReference) -> (res: Tokens)
    ensures
        res@ == spec_card_reference_tokens(x@),
{
    proof {
        reveal_strlit("art_target");
        reveal_strlit("attach_target");
        reveal_strlit("event_origin");
        reveal_strlit("this_card");
    }
    match x {
        CardReference::ArtTarget => Tokens::Token(String::from_str("art_target")),
        CardReference::AttachTarget => Tokens::Token(String::from_str("attach_target")),
        CardReference::EventOrigin => Tokens::Token(String::from_str("event_origin")),
        CardReference::ThisCard => Tokens::Token(String::from_str("this_card")),
        CardReference::Var(f0) => {
            var_to_tokens(f0)
        },
    }
}

/// The tokens of a CardReferences.
pub open spec fn spec_card_references_tokens(x: CardReferencesV) -> TokensV
    decreases x,
{
    match x {
        CardReferencesV::ArtTarget => TokensV::Token("art_target"@),
        CardReferencesV::AttachedTo(f0) => TokensV::List(seq![TokensV::Token("attached_to"@), spec_card_reference_tokens(f0)]),
        CardReferencesV::AttachTarget => TokensV::Token("attach_target"@),
        CardReferencesV::EventOrigin => TokensV::Token("event_origin"@),
        CardReferencesV::From(f0) => TokensV::List(seq![TokensV::Token("from"@), spec_zone_tokens(f0)]),
        CardReferencesV::FromTop(f0, f1) => TokensV::List(seq![TokensV::Token("from_top"@), spec_number_tokens(*f0), spec_zone_tokens(f1)]),
        CardReferencesV::Leftovers => TokensV::Token("leftovers"@),
        CardReferencesV::ThisCard => TokensV::Token("this_card"@),
        CardReferencesV::Var(f0) => TokensV::Token(f0),
        CardReferencesV::Filter(f0, f1) => TokensV::List(seq![TokensV::Token("filter"@), spec_card_references_tokens(*f0), spec_condition_tokens(*f1)]),
    }
}

/// Writes a CardReferences as tokens.
pub fn card_references_to_tokens(x: &CardReferences) -> (res: Tokens)
    ensures
        res@ == spec_card_references_tokens(x@),
    decreases x,
{
    proof {
        reveal_strlit("art_target");
        reveal_strlit("attached_to");
        reveal_strlit("attach_target");
        reveal_strlit("event_origin");
        reveal_strlit("from");
        reveal_strlit("from_top");
        reveal_strlit("leftovers");
        reveal_strlit("this_card");
        reveal_strlit("filter");
    }
    match x {
        CardReferences::ArtTarget => Tokens::Token(String::from_str("art_target")),
        CardReferences::AttachedTo(f0) => {
            let mut v: Vec<Tokens> = Vec::new();
            let t0 = Tokens::Token(String::from_str("attached_to"));
            proof {
                lemma_views_push(v@, t0);
            }
            v.push(t0);
            let t1 = card_reference_to_tokens(f0);
            proof {
                lemma_views_push(v@, t1);
            }
            v.push(t1);
            proof {
                assert(tokens_views(v@) =~= seq![TokensV::Token("attached_to"@), spec_card_reference_tokens(card_reference_view((*f0)))]);
            }
            Tokens::List(v)
        },
        CardReferences::AttachTarget => Tokens::Token(String::from_str("attach_target")),
        CardReferences::EventOrigin => Tokens::Token(String::from_str("event_origin")),
        CardReferences::From(f0) => {
            let mut v: Vec<Tokens> = Vec::new();
            let t0 = Tokens::Token(String::from_str("from"));
            proof {
                lemma_views_push(v@, t0);
            }
            v.push(t0);
            let t1 = zone_to_tokens(f0);
            proof {
                lemma_views_push(v@, t1);
            }
            v.push(t1);
            proof {
                assert(tokens_views(v@) =~= seq![TokensV::Token("from"@), spec_zone_tokens((*f0))]);
            }
            Tokens::List(v)
        },
        CardReferences::FromTop(f0, f1) => {
            let mut v: Vec<Tokens> = Vec::new();
            let t0 = Tokens::Token(String::from_str("from_top"));
            proof {
                lemma_views_push(v@, t0);
            }
            v.push(t0);
            let t1 = number_to_tokens(&**f0);
            proof {
                lemma_views_push(v@, t1);
            }
            v.push(t1);
            let t2 = zone_to_tokens(f1);
            proof {
                lemma_views_push(v@, t2);
            }
            v.push(t2);
            proof {
                assert(tokens_views(v@) =~= seq![TokensV::Token("from_top"@), spec_number_tokens(*Box::new(number_view(*(*f0)))), spec_zone_tokens((*f1))]);
            }
            Tokens::List(v)
        },
        CardReferences::Leftovers => Tokens::Token(String::from_str("leftovers")),
        CardReferences::ThisCard => Tokens::Token(String::from_str("this_card")),
        CardReferences::Var(f0) => {
            var_to_tokens(f0)
        },
        CardReferences::Filter(f0, f1) => {
            let mut v: Vec<Tokens> = Vec::new();
            let t0 = Tokens::Token(String::from_str("filter"));
            proof {
                lemma_views_push(v@, t0);
            }
            v.push(t0);
            let t1 = card_references_to_tokens(&**f0);
            proof {
                lemma_views_push(v@, t1);
            }
            v.push(t1);
            let t2 = condition_to_tokens(&**f1);
            proof {
                lemma_views_push(v@, t2);
            }
            v.push(t2);
            proof {
                assert(tokens_views(v@) =~= seq![TokensV::Token("filter"@), spec_card_references_tokens(*Box::new(card_references_view(*(*f0)))), spec_condition_tokens(*Box::new(condition_view(*(*f1))))]);
            }
            Tokens::List(v)
        },
    }
}

/// The tokens of a Condition.
pub open spec fn spec_condition_tokens(x: ConditionV) -> TokensV
    decreases x,
{
    match x {
        ConditionV::All(f0, f1) => TokensV::List(seq![TokensV::Token("all"@), spec_card_references_tokens(f0), spec_condition_tokens(*f1)]),
        ConditionV::And(f0, f1) => TokensV::List(seq![spec_condition_tokens(*f0), TokensV::Token("and"@), spec_condition_tokens(*f1)]),
        ConditionV::Any(f0, f1) => TokensV::List(seq![TokensV::Token("any"@), spec_card_references_tokens(f0), spec_condition_tokens(*f1)]),
        ConditionV::Anything => TokensV::Token("anything"@),
        ConditionV::Equals(f0, f1) => TokensV::List(seq![spec_number_tokens(f0), TokensV::Token("=="@), spec_number_tokens(f1)]),
        ConditionV::Exists(f0) => TokensV::List(seq![TokensV::Token("exists"@), spec_card_references_tokens(f0)]),
        ConditionV::False => TokensV::Token("false"@),
        ConditionV::GreaterThanEquals(f0, f1) => TokensV::List(seq![spec_number_tokens(f0), TokensV::Token(">="@), spec_number_tokens(f1)]),
        ConditionV::HasCheers => TokensV::Token("has_cheers"@),
        ConditionV::IsAttributeBuzz => TokensV::Token("is_attribute_buzz"@),
        ConditionV::IsColor(f0) => TokensV::List(seq![TokensV::Token("is_color"@), spec_color_tokens(f0)]),
        ConditionV::IsCheer => TokensV::Token("is_cheer"@),
        ConditionV::IsEven(f0) => TokensV::List(seq![TokensV::Token("is_even"@), spec_number_tokens(f0)]),
        ConditionV::IsInZone(f0) => TokensV::List(seq![TokensV::Token("is_in_zone"@), spec_zone_tokens(f0)]),
        ConditionV::IsLevelFirst => TokensV::Token("is_level_first"@),
        ConditionV::IsLevelSecond => TokensV::Token("is_level_second"@),
        ConditionV::IsMember => TokensV::Token("is_member"@),
        ConditionV::IsNamedAzki => TokensV::Token("is_named_azki"@),
        ConditionV::IsNamedOmaruPolka => TokensV::Token("is_named_omaru_polka"@),
        ConditionV::IsNamedTokinoSora => TokensV::Token("is_named_tokino_sora"@),
        ConditionV::IsNamedUsadaPekora => TokensV::Token("is_named_usada_pekora"@),
        ConditionV::IsCard(f0) => TokensV::List(seq![TokensV::Token("is_card"@), spec_card_reference_tokens(f0)]),
        ConditionV::IsNotCard(f0) => TokensV::List(seq![TokensV::Token("is_not_card"@), spec_card_reference_tokens(f0)]),
        ConditionV::IsOdd(f0) => TokensV::List(seq![TokensV::Token("is_odd"@), spec_number_tokens(f0)]),
        ConditionV::IsSupportLimited => TokensV::Token("is_support_limited"@),
        ConditionV::LessThanEquals(f0, f1) => TokensV::List(seq![spec_number_tokens(f0), TokensV::Token("<="@), spec_number_tokens(f1)]),
        ConditionV::Not(f0) => TokensV::List(seq![TokensV::Token("not"@), spec_condition_tokens(*f0)]),
        ConditionV::Or(f0, f1) => TokensV::List(seq![spec_condition_tokens(*f0), TokensV::Token("or"@), spec_condition_tokens(*f1)]),
        ConditionV::True => TokensV::Token("true"@),
        ConditionV::Var(f0) => TokensV::Token(f0),
        ConditionV::Yours => TokensV::Token("yours"@),
    }
}

/// Writes a Condition as tokens.
pub fn condition_to_tokens(x: &Condition) -> (res: Tokens)
    ensures
        res@ == spec_condition_tokens(x@),
    decreases x,
{
    proof {
        reveal_strlit("all");
        reveal_strlit("and");
        reveal_strlit("any");
        reveal_strlit("anything");
        reveal_strlit("==");
        reveal_strlit("exists");
        reveal_strlit("false");
        reveal_strlit(">=");
        reveal_strlit("has_cheers");
        reveal_strlit("is_attribute_buzz");
        reveal_strlit("is_color");
        reveal_strlit("is_cheer");
        reveal_strlit("is_even");
        reveal_strlit("is_in_zone");
        reveal_strlit("is_level_first");
        reveal_strlit("is_level_second");
        reveal_strlit("is_member");
        reveal_strlit("is_named_azki");
        reveal_strlit("is_named_omaru_polka");
        reveal_strlit("is_named_tokino_sora");
        reveal_strlit("is_named_usada_pekora");
        reveal_strlit("is_card");
        reveal_strlit("is_not_card");
        reveal_strlit("is_odd");
        reveal_strlit("is_support_limited");
        reveal_strlit("<=");
        reveal_strlit("not");
        reveal_strlit("or");
        reveal_strlit("true");
        reveal_strlit("yours");
    }
    match x {
        Condition::All(f0, f1) => {
            let mut v: Vec<Tokens> = Vec::new();
            let t0 = Tokens::Token(String::from_str("all"));
            proof {
                lemma_views_push(v@, t0);
            }
            v.push(t0);
            let t1 = card_references_to_tokens(f0);
            proof {
                lemma_views_push(v@, t1);
            }
            v.push(t1);
            let t2 = condition_to_tokens(&**f1);
            proof {
                lemma_views_push(v@, t2);
            }
            v.push(t2);
            proof {
                assert(tokens_views(v@) =~= seq![TokensV::Token("all"@), spec_card_references_tokens(card_references_view((*f0))), spec_condition_tokens(*Box::new(condition_view(*(*f1))))]);
            }
            Tokens::List(v)
        },
        Condition::And(f0, f1) => {
            let mut v: Vec<Tokens> = Vec::new();
            let t0 = condition_to_tokens(&**f0);
            proof {
                lemma_views_push(v@, t0);
            }
            v.push(t0);
            let t1 = Tokens::Token(String::from_str("and"));
            proof {
                lemma_views_push(v@, t1);
            }
            v.push(t1);
            let t2 = condition_to_tokens(&**f1);
            proof {
                lemma_views_push(v@, t2);
            }
            v.push(t2);
            proof {
                assert(tokens_views(v@) =~= seq![spec_condition_tokens(*Box::new(condition_view(*(*f0)))), TokensV::Token("and"@), spec_condition_tokens(*Box::new(condition_view(*(*f1))))]);
            }
            Tokens::List(v)
        },
        Condition::Any(f0, f1) => {
            let mut v: Vec<Tokens> = Vec::new();
            let t0 = Tokens::Token(String::from_str("any"));
            proof {
                lemma_views_push(v@, t0);
            }
            v.push(t0);
            let t1 = card_references_to_tokens(f0);
            proof {
                lemma_views_push(v@, t1);
            }
            v.push(t1);
            let t2 = condition_to_tokens(&**f1);
            proof {
                lemma_views_push(v@, t2);
            }
            v.push(t2);
            proof {
                assert(tokens_views(v@) =~= seq![TokensV::Token("any"@), spec_card_references_tokens(card_references_view((*f0))), spec_condition_tokens(*Box::new(condition_view(*(*f1))))]);
            }
            Tokens::List(v)
        },
        Condition::Anything => Tokens::Token(String::from_str("anything")),
        Condition::Equals(f0, f1) => {
            let mut v: Vec<Tokens> = Vec::new();
            let t0 = number_to_tokens(f0);
            proof {
                lemma_views_push(v@, t0);
            }
            v.push(t0);
            let t1 = Tokens::Token(String::from_str("=="));
            proof {
                lemma_views_push(v@, t1);
            }
            v.push(t1);
            let t2 = number_to_tokens(f1);
            proof {
                lemma_views_push(v@, t2);
            }
            v.push(t2);
            proof {
                assert(tokens_views(v@) =~= seq![spec_number_tokens(number_view((*f0))), TokensV::Token("=="@), spec_number_tokens(number_view((*f1)))]);
            }
            Tokens::List(v)
        },
        Condition::Exists(f0) => {
            let mut v: Vec<Tokens> = Vec::new();
            let t0 = Tokens::Token(String::from_str("exists"));
            proof {
                lemma_views_push(v@, t0);
            }
            v.push(t0);
            let t1 = card_references_to_tokens(f0);
            proof {
                lemma_views_push(v@, t1);
            }
            v.push(t1);
            proof {
                assert(tokens_views(v@) =~= seq![TokensV::Token("exists"@), spec_card_references_tokens(card_references_view((*f0)))]);
            }
            Tokens::List(v)
        },
        Condition::False => Tokens::Token(String::from_str("false")),
        Condition::GreaterThanEquals(f0, f1) => {
            let mut v: Vec<Tokens> = Vec::new();
            let t0 = number_to_tokens(f0);
            proof {
                lemma_views_push(v@, t0);
            }
            v.push(t0);
            let t1 = Tokens::Token(String::from_str(">="));
            proof {
                lemma_views_push(v@, t1);
            }
            v.push(t1);
            let t2 = number_to_tokens(f1);
            proof {
                lemma_views_push(v@, t2);
            }
            v.push(t2);
            proof {
                assert(tokens_views(v@) =~= seq![spec_number_tokens(number_view((*f0))), TokensV::Token(">="@), spec_number_tokens(number_view((*f1)))]);
            }
            Tokens::List(v)
        },
        Condition::HasCheers => Tokens::Token(String::from_str("has_cheers")),
        Condition::IsAttributeBuzz => Tokens::Token(String::from_str("is_attribute_buzz")),
        Condition::IsColor(f0) => {
            let mut v: Vec<Tokens> = Vec::new();
            let t0 = Tokens::Token(String::from_str("is_color"));
            proof {
                lemma_views_push(v@, t0);
            }
            v.push(t0);
            let t1 = color_to_tokens(f0);
            proof {
                lemma_views_push(v@, t1);
            }
            v.push(t1);
            proof {
                assert(tokens_views(v@) =~= seq![TokensV::Token("is_color"@), spec_color_tokens((*f0))]);
            }
            Tokens::List(v)
        },
        Condition::IsCheer => Tokens::Token(String::from_str("is_cheer")),
        Condition::IsEven(f0) => {
            let mut v: Vec<Tokens> = Vec::new();
            let t0 = Tokens::Token(String::from_str("is_even"));
            proof {
                lemma_views_push(v@, t0);
            }
            v.push(t0);
            let t1 = number_to_tokens(f0);
            proof {
                lemma_views_push(v@, t1);
            }
            v.push(t1);
            proof {
                assert(tokens_views(v@) =~= seq![TokensV::Token("is_even"@), spec_number_tokens(number_view((*f0)))]);
            }
            Tokens::List(v)
        },
        Condition::IsInZone(f0) => {
            let mut v: Vec<Tokens> = Vec::new();
            let t0 = Tokens::Token(String::from_str("is_in_zone"));
            proof {
                lemma_views_push(v@, t0);
            }
            v.push(t0);
            let t1 = zone_to_tokens(f0);
            proof {
                lemma_views_push(v@, t1);
            }
            v.push(t1);
            proof {
                assert(tokens_views(v@) =~= seq![TokensV::Token("is_in_zone"@), spec_zone_tokens((*f0))]);
            }
            Tokens::List(v)
        },
        Condition::IsLevelFirst => Tokens::Token(String::from_str("is_level_first")),
        Condition::IsLevelSecond => Tokens::Token(String::from_str("is_level_second")),
        Condition::IsMember => Tokens::Token(String::from_str("is_member")),
        Condition::IsNamedAzki => Tokens::Token(String::from_str("is_named_azki")),
        Condition::IsNamedOmaruPolka => Tokens::Token(String::from_str("is_named_omaru_polka")),
        Condition::IsNamedTokinoSora => Tokens::Token(String::from_str("is_named_tokino_sora")),
        Condition::IsNamedUsadaPekora => Tokens::Token(String::from_str("is_named_usada_pekora")),
        Condition::IsCard(f0) => {
            let mut v: Vec<Tokens> = Vec::new();
            let t0 = Tokens::Token(String::from_str("is_card"));
            proof {
                lemma_views_push(v@, t0);
            }
            v.push(t0);
            let t1 = card_reference_to_tokens(f0);
            proof {
                lemma_views_push(v@, t1);
            }
            v.push(t1);
            proof {
                assert(tokens_views(v@) =~= seq![TokensV::Token("is_card"@), spec_card_reference_tokens(card_reference_view((*f0)))]);
            }
            Tokens::List(v)
        },
        Condition::IsNotCard(f0) => {
            let mut v: Vec<Tokens> = Vec::new();
            let t0 = Tokens::Token(String::from_str("is_not_card"));
            proof {
                lemma_views_push(v@, t0);
            }
            v.push(t0);
            let t1 = card_reference_to_tokens(f0);
            proof {
                lemma_views_push(v@, t1);
            }
            v.push(t1);
            proof {
                assert(tokens_views(v@) =~= seq![TokensV::Token("is_not_card"@), spec_card_reference_tokens(card_reference_view((*f0)))]);
            }
            Tokens::List(v)
        },
        Condition::IsOdd(f0) => {
            let mut v: Vec<Tokens> = Vec::new();
            let t0 = Tokens::Token(String::from_str("is_odd"));
            proof {
                lemma_views_push(v@, t0);
            }
            v.push(t0);
            let t1 = number_to_tokens(f0);
            proof {
                lemma_views_push(v@, t1);
            }
            v.push(t1);
            proof {
                assert(tokens_views(v@) =~= seq![TokensV::Token("is_odd"@), spec_number_tokens(number_view((*f0)))]);
            }
            Tokens::List(v)
        },
        Condition::IsSupportLimited => Tokens::Token(String::from_str("is_support_limited")),
        Condition::LessThanEquals(f0, f1) => {
            let mut v: Vec<Tokens> = Vec::new();
            let t0 = number_to_tokens(f0);
            proof {
                lemma_views_push(v@, t0);
            }
            v.push(t0);
            let t1 = Tokens::Token(String::from_str("<="));
            proof {
                lemma_views_push(v@, t1);
            }
            v.push(t1);
            let t2 = number_to_tokens(f1);
            proof {
                lemma_views_push(v@, t2);
            }
            v.push(t2);
            proof {
                assert(tokens_views(v@) =~= seq![spec_number_tokens(number_view((*f0))), TokensV::Token("<="@), spec_number_tokens(number_view((*f1)))]);
            }
            Tokens::List(v)
        },
        Condition::Not(f0) => {
            let mut v: Vec<Tokens> = Vec::new();
            let t0 = Tokens::Token(String::from_str("not"));
            proof {
                lemma_views_push(v@, t0);
            }
            v.push(t0);
            let t1 = condition_to_tokens(&**f0);
            proof {
                lemma_views_push(v@, t1);
            }
            v.push(t1);
            proof {
                assert(tokens_views(v@) =~= seq![TokensV::Token("not"@), spec_condition_tokens(*Box::new(condition_view(*(*f0))))]);
            }
            Tokens::List(v)
        },
        Condition::Or(f0, f1) => {
            let mut v: Vec<Tokens> = Vec::new();
            let t0 = condition_to_tokens(&**f0);
            proof {
                lemma_views_push(v@, t0);
            }
            v.push(t0);
            let t1 = Tokens::Token(String::from_str("or"));
            proof {
                lemma_views_push(v@, t1);
            }
            v.push(t1);
            let t2 = condition_to_tokens(&**f1);
            proof {
                lemma_views_push(v@, t2);
            }
            v.push(t2);
            proof {
                assert(tokens_views(v@) =~= seq![spec_condition_tokens(*Box::new(condition_view(*(*f0)))), TokensV::Token("or"@), spec_condition_tokens(*Box::new(condition_view(*(*f1))))]);
            }
            Tokens::List(v)
        },
        Condition::True => Tokens::Token(String::from_str("true")),
        Condition::Var(f0) => {
            var_to_tokens(f0)
        },
        Condition::Yours => Tokens::Token(String::from_str("yours")),
    }
}

/// The tokens of a LetValue.
pub open spec fn spec_let_value_tokens(x: LetValueV) -> TokensV
{
    match x {
        LetValueV::OptionalActivate => TokensV::Token("optional_activate"@),
        LetValueV::RollDice => TokensV::Token("roll_dice"@),
        LetValueV::SelectAny(f0, f1) => TokensV::List(seq![TokensV::Token("select_any"@), spec_card_references_tokens(*f0), spec_condition_tokens(*f1)]),
        LetValueV::SelectOne(f0, f1) => TokensV::List(seq![TokensV::Token("select_one"@), spec_card_references_tokens(*f0), spec_condition_tokens(*f1)]),
        LetValueV::SelectNumberBetween(f0, f1) => TokensV::List(seq![TokensV::Token("select_number_between"@), spec_number_tokens(*f0), spec_number_tokens(*f1)]),
        LetValueV::SelectUpTo(f0, f1, f2) => TokensV::List(seq![TokensV::Token("select_up_to"@), spec_number_tokens(*f0), spec_card_references_tokens(*f1), spec_condition_tokens(*f2)]),
    }
}

/// Writes a LetValue as tokens.
pub fn let_value_to_tokens(x: &LetValue) -> (res: Tokens)
    ensures
        res@ == spec_let_value_tokens(x@),
{
    proof {
        reveal_strlit("optional_activate");
        reveal_strlit("roll_dice");
        reveal_strlit("select_any");
        reveal_strlit("select_one");
        reveal_strlit("select_number_between");
        reveal_strlit("select_up_to");
    }
    match x {
        LetValue::OptionalActivate => Tokens::Token(String::from_str("optional_activate")),
        LetValue::RollDice => Tokens::Token(String::from_str("roll_dice")),
        LetValue::SelectAny(f0, f1) => {
            let mut v: Vec<Tokens> = Vec::new();
            let t0 = Tokens::Token(String::from_str("select_any"));
            proof {
                lemma_views_push(v@, t0);
            }
            v.push(t0);
            let t1 = card_references_to_tokens(&**f0);
            proof {
                lemma_views_push(v@, t1);
            }
            v.push(t1);
            let t2 = condition_to_tokens(&**f1);
            proof {
                lemma_views_push(v@, t2);
            }
            v.push(t2);
            proof {
                assert(tokens_views(v@) =~= seq![TokensV::Token("select_any"@), spec_card_references_tokens(*Box::new(card_references_view(*(*f0)))), spec_condition_tokens(*Box::new(condition_view(*(*f1))))]);
            }
            Tokens::List(v)
        },
        LetValue::SelectOne(f0, f1) => {
            let mut v: Vec<Tokens> = Vec::new();
            let t0 = Tokens::Token(String::from_str("select_one"));
            proof {
                lemma_views_push(v@, t0);
            }
            v.push(t0);
            let t1 = card_references_to_tokens(&**f0);
            proof {
                lemma_views_push(v@, t1);
            }
            v.push(t1);
            let t2 = condition_to_tokens(&**f1);
            proof {
                lemma_views_push(v@, t2);
            }
            v.push(t2);
            proof {
                assert(tokens_views(v@) =~= seq![TokensV::Token("select_one"@), spec_card_references_tokens(*Box::new(card_references_view(*(*f0)))), spec_condition_tokens(*Box::new(condition_view(*(*f1))))]);
            }
            Tokens::List(v)
        },
        LetValue::SelectNumberBetween(f0, f1) => {
            let mut v: Vec<Tokens> = Vec::new();
            let t0 = Tokens::Token(String::from_str("select_number_between"));
            proof {
                lemma_views_push(v@, t0);
            }
            v.push(t0);
            let t1 = number_to_tokens(&**f0);
            proof {
                lemma_views_push(v@, t1);
            }
            v.push(t1);
            let t2 = number_to_tokens(&**f1);
            proof {
                lemma_views_push(v@, t2);
            }
            v.push(t2);
            proof {
                assert(tokens_views(v@) =~= seq![TokensV::Token("select_number_between"@), spec_number_tokens(*Box::new(number_view(*(*f0)))), spec_number_tokens(*Box::new(number_view(*(*f1))))]);
            }
            Tokens::List(v)
        },
        LetValue::SelectUpTo(f0, f1, f2) => {
            let mut v: Vec<Tokens> = Vec::new();
            let t0 = Tokens::Token(String::from_str("select_up_to"));
            proof {
                lemma_views_push(v@, t0);
            }
            v.push(t0);
            let t1 = number_to_tokens(&**f0);
            proof {
                lemma_views_push(v@, t1);
            }
            v.push(t1);
            let t2 = card_references_to_tokens(&**f1);
            proof {
                lemma_views_push(v@, t2);
            }
            v.push(t2);
            let t3 = condition_to_tokens(&**f2);
            proof {
                lemma_views_push(v@, t3);
            }
            v.push(t3);
            proof {
                assert(tokens_views(v@) =~= seq![TokensV::Token("select_up_to"@), spec_number_tokens(*Box::new(number_view(*(*f0)))), spec_card_references_tokens(*Box::new(card_references_view(*(*f1)))), spec_condition_tokens(*Box::new(condition_view(*(*f2))))]);
            }
            Tokens::List(v)
        },
    }
}

/// The tokens of a LifeTime.
pub open spec fn spec_life_time_tokens(x: LifeTimeV) -> TokensV
{
    match x {
        LifeTimeV::ThisGame => TokensV::Token("this_game"@),
        LifeTimeV::ThisTurn => TokensV::Token("this_turn"@),
        LifeTimeV::NextTurn(f0) => TokensV::List(seq![TokensV::Token("next_turn"@), spec_player_tokens(f0)]),
        LifeTimeV::ThisStep => TokensV::Token("this_step"@),
        LifeTimeV::ThisArt => TokensV::Token("this_art"@),
        LifeTimeV::ThisEffect => TokensV::Token("this_effect"@),
        LifeTimeV::UntilRemoved => TokensV::Token("until_removed"@),
        LifeTimeV::WhileAttached(f0) => TokensV::List(seq![TokensV::Token("while_attached"@), spec_card_reference_tokens(f0)]),
    }
}

/// Writes a LifeTime as tokens.
pub fn life_time_to_tokens(x: &LifeTime) -> (res: Tokens)
    ensures
        res@ == spec_life_time_tokens(x@),
{
    proof {
        reveal_strlit("this_game");
        reveal_strlit("this_turn");
        reveal_strlit("next_turn");
        reveal_strlit("this_step");
        reveal_strlit("this_art");
        reveal_strlit("this_effect");
        reveal_strlit("until_removed");
        reveal_strlit("while_attached");
    }
    match x {
        LifeTime::ThisGame => Tokens::Token(String::from_str("this_game")),
        LifeTime::ThisTurn => Tokens::Token(String::from_str("this_turn")),
        LifeTime::NextTurn(f0) => {
            let mut v: Vec<Tokens> = Vec::new();
            let t0 = Tokens::Token(String::from_str("next_turn"));
            proof {
                lemma_views_push(v@, t0);
            }
            v.push(t0);
            let t1 = player_to_tokens(f0);
            proof {
                lemma_views_push(v@, t1);
            }
            v.push(t1);
            proof {
                assert(tokens_views(v@) =~= seq![TokensV::Token("next_turn"@), spec_player_tokens((*f0))]);
            }
            Tokens::List(v)
        },
        LifeTime::ThisStep => Tokens::Token(String::from_str("this_step")),
        LifeTime::ThisArt => Tokens::Token(String::from_str("this_art")),
        LifeTime::ThisEffect => Tokens::Token(String::from_str("this_effect")),
        LifeTime::UntilRemoved => Tokens::Token(String::from_str("until_removed")),
        LifeTime::WhileAttached(f0) => {
            let mut v: Vec<Tokens> = Vec::new();
            let t0 = Tokens::Token(String::from_str("while_attached"));
            proof {
                lemma_views_push(v@, t0);
            }
            v.push(t0);
            let t1 = card_reference_to_tokens(f0);
            proof {
                lemma_views_push(v@, t1);
            }
            v.push(t1);
            proof {
                assert(tokens_views(v@) =~= seq![TokensV::Token("while_attached"@), spec_card_reference_tokens(card_reference_view((*f0)))]);
            }
            Tokens::List(v)
        },
    }
}

/// The tokens of a Modifier.
pub open spec fn spec_modifier_tokens(x: ModifierV) -> TokensV
    decreases x,
{
    match x {
        ModifierV::AsArtCost(f0, f1) => TokensV::List(seq![TokensV::Token("as_art_cost"@), spec_number_tokens(f0), spec_color_tokens(f1)]),
        ModifierV::AsCheer(f0, f1) => TokensV::List(seq![TokensV::Token("as_cheer"@), spec_number_tokens(f0), spec_color_tokens(f1)]),
        ModifierV::DealLessDamage(f0) => TokensV::List(seq![TokensV::Token("deal_less_dmg"@), spec_number_tokens(f0)]),
        ModifierV::DealMoreDamage(f0) => TokensV::List(seq![TokensV::Token("deal_more_dmg"@), spec_number_tokens(f0)]),
        ModifierV::ReceiveLessDamage(f0) => TokensV::List(seq![TokensV::Token("recv_less_dmg"@), spec_number_tokens(f0)]),
        ModifierV::ReceiveMoreDamage(f0) => TokensV::List(seq![TokensV::Token("recv_more_dmg"@), spec_number_tokens(f0)]),
        ModifierV::NextDiceRoll(f0) => TokensV::List(seq![TokensV::Token("next_dice_roll"@), spec_number_tokens(f0)]),
        ModifierV::NoLifeLoss => TokensV::Token("no_life_loss"@),
        ModifierV::When(f0, f1) => TokensV::List(seq![TokensV::Token("when"@), spec_condition_tokens(f0), spec_modifier_tokens(*f1)]),
    }
}

/// Writes a Modifier as tokens.
pub fn modifier_to_tokens(x: &Modifier) -> (res: Tokens)
    ensures
        res@ == spec_modifier_tokens(x@),
    decreases x,
{
    proof {
        reveal_strlit("as_art_cost");
        reveal_strlit("as_cheer");
        reveal_strlit("deal_less_dmg");
        reveal_strlit("deal_more_dmg");
        reveal_strlit("recv_less_dmg");
        reveal_strlit("recv_more_dmg");
        reveal_strlit("next_dice_roll");
        reveal_strlit("no_life_loss");
        reveal_strlit("when");
    }
    match x {
        Modifier::AsArtCost(f0, f1) => {
            let mut v: Vec<Tokens> = Vec::new();
            let t0 = Tokens::Token(String::from_str("as_art_cost"));
            proof {
                lemma_views_push(v@, t0);
            }
            v.push(t0);
            let t1 = number_to_tokens(f0);
            proof {
                lemma_views_push(v@, t1);
            }
            v.push(t1);
            let t2 = color_to_tokens(f1);
            proof {
                lemma_views_push(v@, t2);
            }
            v.push(t2);
            proof {
                assert(tokens_views(v@) =~= seq![TokensV::Token("as_art_cost"@), spec_number_tokens(number_view((*f0))), spec_color_tokens((*f1))]);
            }
            Tokens::List(v)
        },
        Modifier::AsCheer(f0, f1) => {
            let mut v: Vec<Tokens> = Vec::new();
            let t0 = Tokens::Token(String::from_str("as_cheer"));
            proof {
                lemma_views_push(v@, t0);
            }
            v.push(t0);
            let t1 = number_to_tokens(f0);
            proof {
                lemma_views_push(v@, t1);
            }
            v.push(t1);
            let t2 = color_to_tokens(f1);
            proof {
                lemma_views_push(v@, t2);
            }
            v.push(t2);
            proof {
                assert(tokens_views(v@) =~= seq![TokensV::Token("as_cheer"@), spec_number_tokens(number_view((*f0))), spec_color_tokens((*f1))]);
            }
            Tokens::List(v)
        },
        Modifier::DealLessDamage(f0) => {
            let mut v: Vec<Tokens> = Vec::new();
            let t0 = Tokens::Token(String::from_str("deal_less_dmg"));
            proof {
                lemma_views_push(v@, t0);
            }
            v.push(t0);
            let t1 = number_to_tokens(f0);
            proof {
                lemma_views_push(v@, t1);
            }
            v.push(t1);
            proof {
                assert(tokens_views(v@) =~= seq![TokensV::Token("deal_less_dmg"@), spec_number_tokens(number_view((*f0)))]);
            }
            Tokens::List(v)
        },
        Modifier::DealMoreDamage(f0) => {
            let mut v: Vec<Tokens> = Vec::new();
            let t0 = Tokens::Token(String::from_str("deal_more_dmg"));
            proof {
                lemma_views_push(v@, t0);
            }
            v.push(t0);
            let t1 = number_to_tokens(f0);
            proof {
                lemma_views_push(v@, t1);
            }
            v.push(t1);
            proof {
                assert(tokens_views(v@) =~= seq![TokensV::Token("deal_more_dmg"@), spec_number_tokens(number_view((*f0)))]);
            }
            Tokens::List(v)
        },
        Modifier::ReceiveLessDamage(f0) => {
            let mut v: Vec<Tokens> = Vec::new();
            let t0 = Tokens::Token(String::from_str("recv_less_dmg"));
            proof {
                lemma_views_push(v@, t0);
            }
            v.push(t0);
            let t1 = number_to_tokens(f0);
            proof {
                lemma_views_push(v@, t1);
            }
            v.push(t1);
            proof {
                assert(tokens_views(v@) =~= seq![TokensV::Token("recv_less_dmg"@), spec_number_tokens(number_view((*f0)))]);
            }
            Tokens::List(v)
        },
        Modifier::ReceiveMoreDamage(f0) => {
            let mut v: Vec<Tokens> = Vec::new();
            let t0 = Tokens::Token(String::from_str("recv_more_dmg"));
            proof {
                lemma_views_push(v@, t0);
            }
            v.push(t0);
            let t1 = number_to_tokens(f0);
            proof {
                lemma_views_push(v@, t1);
            }
            v.push(t1);
            proof {
                assert(tokens_views(v@) =~= seq![TokensV::Token("recv_more_dmg"@), spec_number_tokens(number_view((*f0)))]);
            }
            Tokens::List(v)
        },
        Modifier::NextDiceRoll(f0) => {
            let mut v: Vec<Tokens> = Vec::new();
            let t0 = Tokens::Token(String::from_str("next_dice_roll"));
            proof {
                lemma_views_push(v@, t0);
            }
            v.push(t0);
            let t1 = number_to_tokens(f0);
            proof {
                lemma_views_push(v@, t1);
            }
            v.push(t1);
            proof {
                assert(tokens_views(v@) =~= seq![TokensV::Token("next_dice_roll"@), spec_number_tokens(number_view((*f0)))]);
            }
            Tokens::List(v)
        },
        Modifier::NoLifeLoss => Tokens::Token(String::from_str("no_life_loss")),
        Modifier::When(f0, f1) => {
            let mut v: Vec<Tokens> = Vec::new();
            let t0 = Tokens::Token(String::from_str("when"));
            proof {
                lemma_views_push(v@, t0);
            }
            v.push(t0);
            let t1 = condition_to_tokens(f0);
            proof {
                lemma_views_push(v@, t1);
            }
            v.push(t1);
            let t2 = modifier_to_tokens(&**f1);
            proof {
                lemma_views_push(v@, t2);
            }
            v.push(t2);
            proof {
                assert(tokens_views(v@) =~= seq![TokensV::Token("when"@), spec_condition_tokens(condition_view((*f0))), spec_modifier_tokens(*Box::new(modifier_view(*(*f1))))]);
            }
            Tokens::List(v)
        },
    }
}

/// The tokens of a Player.
pub open spec fn spec_player_tokens(x: Player) -> TokensV
{
    match x {
        Player::You => TokensV::Token("you"@),
        Player::Opponent => TokensV::Token("opponent"@),
    }
}

/// Writes a Player as tokens.
pub fn player_to_tokens(x: &Player) -> (res: Tokens)
    ensures
        res@ == spec_player_tokens(x@),
{
    match x {
        Player::You => Tokens::Token(String::from_str("you")),
        Player::Opponent => Tokens::Token(String::from_str("opponent")),
    }
}

/// The tokens of a Number.
pub open spec fn spec_number_tokens(x: NumberV) -> TokensV
    decreases x,
{
    match x {
        NumberV::Count(f0) => TokensV::List(seq![TokensV::Token("count"@), spec_card_references_tokens(f0)]),
        NumberV::Literal(f0) => TokensV::Token(decimal(f0 as nat)),
        NumberV::Minus(f0, f1) => TokensV::List(seq![spec_number_tokens(*f0), TokensV::Token("-"@), spec_number_tokens(*f1)]),
        NumberV::Multiply(f0, f1) => TokensV::List(seq![spec_number_tokens(*f0), TokensV::Token("*"@), spec_number_tokens(*f1)]),
        NumberV::Plus(f0, f1) => TokensV::List(seq![spec_number_tokens(*f0), TokensV::Token("+"@), spec_number_tokens(*f1)]),
        NumberV::Var(f0) => TokensV::Token(f0),
        NumberV::DamageAmount => TokensV::Token("dmg_amount"@),
        NumberV::HealthPointAmount => TokensV::Token("hp_amount"@),
    }
}

/// Writes a Number as tokens.
pub fn number_to_tokens(x: &Number) -> (res: Tokens)
    ensures
        res@ == spec_number_tokens(x@),
    decreases x,
{
    proof {
        reveal_strlit("count");
        reveal_strlit("-");
        reveal_strlit("*");
        reveal_strlit("+");
        reveal_strlit("dmg_amount");
        reveal_strlit("hp_amount");
    }
    match x {
        Number::Count(f0) => {
            let mut v: Vec<Tokens> = Vec::new();
            let t0 = Tokens::Token(String::from_str("count"));
            proof {
                lemma_views_push(v@, t0);
            }
            v.push(t0);
            let t1 = card_references_to_tokens(f0);
            proof {
                lemma_views_push(v@, t1);
            }
            v.push(t1);
            proof {
                assert(tokens_views(v@) =~= seq![TokensV::Token("count"@), spec_card_references_tokens(card_references_view((*f0)))]);
            }
            Tokens::List(v)
        },
        Number::Literal(f0) => {
            number_literal_to_tokens(f0)
        },
        Number::Minus(f0, f1) => {
            let mut v: Vec<Tokens> = Vec::new();
            let t0 = number_to_tokens(&**f0);
            proof {
                lemma_views_push(v@, t0);
            }
            v.push(t0);
            let t1 = Tokens::Token(String::from_str("-"));
            proof {
                lemma_views_push(v@, t1);
            }
            v.push(t1);
            let t2 = number_to_tokens(&**f1);
            proof {
                lemma_views_push(v@, t2);
            }
            v.push(t2);
            proof {
                assert(tokens_views(v@) =~= seq![spec_number_tokens(*Box::new(number_view(*(*f0)))), TokensV::Token("-"@), spec_number_tokens(*Box::new(number_view(*(*f1))))]);
            }
            Tokens::List(v)
        },
        Number::Multiply(f0, f1) => {
            let mut v: Vec<Tokens> = Vec::new();
            let t0 = number_to_tokens(&**f0);
            proof {
                lemma_views_push(v@, t0);
            }
            v.push(t0);
            let t1 = Tokens::Token(String::from_str("*"));
            proof {
                lemma_views_push(v@, t1);
            }
            v.push(t1);
            let t2 = number_to_tokens(&**f1);
            proof {
                lemma_views_push(v@, t2);
            }
            v.push(t2);
            proof {
                assert(tokens_views(v@) =~= seq![spec_number_tokens(*Box::new(number_view(*(*f0)))), TokensV::Token("*"@), spec_number_tokens(*Box::new(number_view(*(*f1))))]);
            }
            Tokens::List(v)
        },
        Number::Plus(f0, f1) => {
            let mut v: Vec<Tokens> = Vec::new();
            let t0 = number_to_tokens(&**f0);
            proof {
                lemma_views_push(v@, t0);
            }
            v.push(t0);
            let t1 = Tokens::Token(String::from_str("+"));
            proof {
                lemma_views_push(v@, t1);
            }
            v.push(t1);
            let t2 = number_to_tokens(&**f1);
            proof {
                lemma_views_push(v@, t2);
            }
            v.push(t2);
            proof {
                assert(tokens_views(v@) =~= seq![spec_number_tokens(*Box::new(number_view(*(*f0)))), TokensV::Token("+"@), spec_number_tokens(*Box::new(number_view(*(*f1))))]);
            }
            Tokens::List(v)
        },
        Number::Var(f0) => {
            var_to_tokens(f0)
        },
        Number::DamageAmount => Tokens::Token(String::from_str("dmg_amount")),
        Number::HealthPointAmount => Tokens::Token(String::from_str("hp_amount")),
    }
}

/// The tokens of a Zone.
pub open spec fn spec_zone_tokens(x: Zone) -> TokensV
{
    match x {
        Zone::Archive => TokensV::Token("archive"@),
        Zone::BackStage => TokensV::Token("back_stage"@),
        Zone::CenterStage => TokensV::Token("center_stage"@),
        Zone::CheerDeck => TokensV::Token("cheer_deck"@),
        Zone::Hand => TokensV::Token("hand"@),
        Zone::HoloPower => TokensV::Token("holo_power"@),
        Zone::MainDeck => TokensV::Token("main_deck"@),
        Zone::MainStage => TokensV::Token("main_stage"@),
        Zone::OpponentBackStage => TokensV::Token("opponent_back_stage"@),
        Zone::OpponentCenterStage => TokensV::Token("opponent_center_stage"@),
        Zone::Stage => TokensV::Token("stage"@),
    }
}

/// Writes a Zone as tokens.
pub fn zone_to_tokens(x: &Zone) -> (res: Tokens)
    ensures
        res@ == spec_zone_tokens(x@),
{
    match x {
        Zone::Archive => Tokens::Token(String::from_str("archive")),
        Zone::BackStage => Tokens::Token(String::from_str("back_stage")),
        Zone::CenterStage => Tokens::Token(String::from_str("center_stage")),
        Zone::CheerDeck => Tokens::Token(String::from_str("cheer_deck")),
        Zone::Hand => Tokens::Token(String::from_str("hand")),
        Zone::HoloPower => Tokens::Token(String::from_str("holo_power")),
        Zone::MainDeck => Tokens::Token(String::from_str("main_deck")),
        Zone::MainStage => Tokens::Token(String::from_str("main_stage")),
        Zone::OpponentBackStage => Tokens::Token(String::from_str("opponent_back_stage")),
        Zone::OpponentCenterStage => Tokens::Token(String::from_str("opponent_center_stage")),
        Zone::Stage => Tokens::Token(String::from_str("stage")),
    }
}

/// The tokens of a Color.
pub open spec fn spec_color_tokens(x: Color) -> TokensV
{
    match x {
        Color::White => TokensV::Token("white"@),
        Color::Green => TokensV::Token("green"@),
        Color::Red => TokensV::Token("red"@),
        Color::Blue => TokensV::Token("blue"@),
        Color::Purple => TokensV::Token("purple"@),
        Color::Yellow => TokensV::Token("yellow"@),
        Color::Colorless => TokensV::Token("colorless"@),
    }
}

/// Writes a Color as tokens.
pub fn color_to_tokens(x: &Color) -> (res: Tokens)
    ensures
        res@ == spec_color_tokens(x@),
{
    match x {
        Color::White => Tokens::Token(String::from_str("white")),
        Color::Green => Tokens::Token(String::from_str("green")),
        Color::Red => Tokens::Token(String::from_str("red")),
        Color::Blue => Tokens::Token(String::from_str("blue")),
        Color::Purple => Tokens::Token(String::from_str("purple")),
        Color::Yellow => Tokens::Token(String::from_str("yellow")),
        Color::Colorless => Tokens::Token(String::from_str("colorless")),
    }
}

pub open spec fn spec_let_card_references_tokens(l: LetV<CardReferencesV>) -> TokensV {
    TokensV::List(seq![TokensV::Token("let"@), TokensV::Token(l.0), TokensV::Token("="@), spec_card_references_tokens(l.1)])
}

pub fn let_card_references_to_tokens(l: &Let<CardReferences>) -> (res: Tokens)
    ensures
        res@ == spec_let_card_references_tokens(l@),
{
    proof {
        reveal_strlit("let");
        reveal_strlit("=");
    }
    let mut v: Vec<Tokens> = Vec::new();
    let t0 = Tokens::Token(String::from_str("let"));
    proof {
        lemma_views_push(v@, t0);
    }
    v.push(t0);
    let t1 = var_to_tokens(&l.0);
    proof {
        lemma_views_push(v@, t1);
    }
    v.push(t1);
    let t2 = Tokens::Token(String::from_str("="));
    proof {
        lemma_views_push(v@, t2);
    }
    v.push(t2);
    let t3 = card_references_to_tokens(&l.1);
    proof {
        lemma_views_push(v@, t3);
    }
    v.push(t3);
    proof {
        assert(tokens_views(v@) =~= seq![TokensV::Token("let"@), TokensV::Token(l@.0), TokensV::Token("="@), spec_card_references_tokens(l@.1)]);
    }
    Tokens::List(v)
}

pub open spec fn spec_let_condition_tokens(l: LetV<ConditionV>) -> TokensV {
    TokensV::List(seq![TokensV::Token("let"@), TokensV::Token(l.0), TokensV::Token("="@), spec_condition_tokens(l.1)])
}

pub fn let_condition_to_tokens(l: &Let<Condition>) -> (res: Tokens)
    ensures
        res@ == spec_let_condition_tokens(l@),
{
    proof {
        reveal_strlit("let");
        reveal_strlit("=");
    }
    let mut v: Vec<Tokens> = Vec::new();
    let t0 = Tokens::Token(String::from_str("let"));
    proof {
        lemma_views_push(v@, t0);
    }
    v.push(t0);
    let t1 = var_to_tokens(&l.0);
    proof {
        lemma_views_push(v@, t1);
    }
    v.push(t1);
    let t2 = Tokens::Token(String::from_str("="));
    proof {
        lemma_views_push(v@, t2);
    }
    v.push(t2);
    let t3 = condition_to_tokens(&l.1);
    proof {
        lemma_views_push(v@, t3);
    }
    v.push(t3);
    proof {
        assert(tokens_views(v@) =~= seq![TokensV::Token("let"@), TokensV::Token(l@.0), TokensV::Token("="@), spec_condition_tokens(l@.1)]);
    }
    Tokens::List(v)
}

pub open spec fn spec_let_let_value_tokens(l: LetV<LetValueV>) -> TokensV {
    TokensV::List(seq![TokensV::Token("let"@), TokensV::Token(l.0), TokensV::Token("="@), spec_let_value_tokens(l.1)])
}

pub fn let_let_value_to_tokens(l: &Let<LetValue>) -> (res: Tokens)
    ensures
        res@ == spec_let_let_value_tokens(l@),
{
    proof {
        reveal_strlit("let");
        reveal_strlit("=");
    }
    let mut v: Vec<Tokens> = Vec::new();
    let t0 = Tokens::Token(String::from_str("let"));
    proof {
        lemma_views_push(v@, t0);
    }
    v.push(t0);
    let t1 = var_to_tokens(&l.0);
    proof {
        lemma_views_push(v@, t1);
    }
    v.push(t1);
    let t2 = Tokens::Token(String::from_str("="));
    proof {
        lemma_views_push(v@, t2);
    }
    v.push(t2);
    let t3 = let_value_to_tokens(&l.1);
    proof {
        lemma_views_push(v@, t3);
    }
    v.push(t3);
    proof {
        assert(tokens_views(v@) =~= seq![TokensV::Token("let"@), TokensV::Token(l@.0), TokensV::Token("="@), spec_let_value_tokens(l@.1)]);
    }
    Tokens::List(v)
}

pub open spec fn spec_let_number_tokens(l: LetV<NumberV>) -> TokensV {
    TokensV::List(seq![TokensV::Token("let"@), TokensV::Token(l.0), TokensV::Token("="@), spec_number_tokens(l.1)])
}

pub fn let_number_to_tokens(l: &Let<Number>) -> (res: Tokens)
    ensures
        res@ == spec_let_number_tokens(l@),
{
    proof {
        reveal_strlit("let");
        reveal_strlit("=");
    }
    let mut v: Vec<Tokens> = Vec::new();
    let t0 = Tokens::Token(String::from_str("let"));
    proof {
        lemma_views_push(v@, t0);
    }
    v.push(t0);
    let t1 = var_to_tokens(&l.0);
    proof {
        lemma_views_push(v@, t1);
    }
    v.push(t1);
    let t2 = Tokens::Token(String::from_str("="));
    proof {
        lemma_views_push(v@, t2);
    }
    v.push(t2);
    let t3 = number_to_tokens(&l.1);
    proof {
        lemma_views_push(v@, t3);
    }
    v.push(t3);
    proof {
        assert(tokens_views(v@) =~= seq![TokensV::Token("let"@), TokensV::Token(l@.0), TokensV::Token("="@), spec_number_tokens(l@.1)]);
    }
    Tokens::List(v)
}

pub open spec fn spec_action_tokens_seq(s: Seq<ActionV>) -> Seq<TokensV>
    decreases s, 0nat,
{
    if s.len() == 0 {
        Seq::empty()
    } else {
        spec_action_tokens_seq(s.drop_last()).push(spec_action_tokens(s.last()))
    }
}

/// The tokens of a list of items: the tokens of the item when there is exactly one, else a
/// list.
pub open spec fn spec_vec_action_tokens(s: Seq<ActionV>) -> TokensV
    decreases s, 1nat,
{
    if s.len() != 1 {
        TokensV::List(spec_action_tokens_seq(s))
    } else {
        spec_action_tokens(s[0])
    }
}

pub fn vec_action_to_tokens(v: &Vec<Action>) -> (res: Tokens)
    ensures
        res@ == spec_vec_action_tokens(action_views(v@)),
    decreases v,
{
    proof {
        lemma_action_views(v@);
    }
    if v.len() == 1 {
        assert(decreases_to!(*v => v@));
        assert(decreases_to!(v@ => v@[0]));
        return action_to_tokens(&v[0]);
    }
    let mut out: Vec<Tokens> = Vec::new();
    let mut i: usize = 0;
    while i < v.len()
        invariant
            0 <= i <= v.len(),
            action_views(v@).len() == v@.len(),
            forall|j: int| 0 <= j < v@.len() ==> #[trigger] action_views(v@)[j] == v@[j]@,
            tokens_views(out@) == spec_action_tokens_seq(action_views(v@).take(i as int)),
        decreases v.len() - i,
    {
            assert(decreases_to!(*v => v@));
            assert(decreases_to!(v@ => v@[i as int]));
        let t = action_to_tokens(&v[i]);
        proof {
            lemma_views_push(out@, t);
            let a = action_views(v@).take(i + 1);
            assert(a.drop_last() =~= action_views(v@).take(i as int));
        }
        out.push(t);
        i = i + 1;
    }
    proof {
        assert(action_views(v@).take(v@.len() as int) =~= action_views(v@));
    }
    Tokens::List(out)
}

pub open spec fn spec_condition_tokens_seq(s: Seq<ConditionV>) -> Seq<TokensV>
    decreases s,
{
    if s.len() == 0 {
        Seq::empty()
    } else {
        spec_condition_tokens_seq(s.drop_last()).push(spec_condition_tokens(s.last()))
    }
}

/// The tokens of a list of items: the tokens of the item when there is exactly one, else a
/// list.
pub open spec fn spec_vec_condition_tokens(s: Seq<ConditionV>) -> TokensV
{
    if s.len() != 1 {
        TokensV::List(spec_condition_tokens_seq(s))
    } else {
        spec_condition_tokens(s[0])
    }
}

pub fn vec_condition_to_tokens(v: &Vec<Condition>) -> (res: Tokens)
    ensures
        res@ == spec_vec_condition_tokens(condition_views(v@)),
{
    proof {
        lemma_condition_views(v@);
    }
    if v.len() == 1 {
        return condition_to_tokens(&v[0]);
    }
    let mut out: Vec<Tokens> = Vec::new();
    let mut i: usize = 0;
    while i < v.len()
        invariant
            0 <= i <= v.len(),
            condition_views(v@).len() == v@.len(),
            forall|j: int| 0 <= j < v@.len() ==> #[trigger] condition_views(v@)[j] == v@[j]@,
            tokens_views(out@) == spec_condition_tokens_seq(condition_views(v@).take(i as int)),
        decreases v.len() - i,
    {
        let t = condition_to_tokens(&v[i]);
        proof {
            lemma_views_push(out@, t);
            let a = condition_views(v@).take(i + 1);
            assert(a.drop_last() =~= condition_views(v@).take(i as int));
        }
        out.push(t);
        i = i + 1;
    }
    proof {
        assert(condition_views(v@).take(v@.len() as int) =~= condition_views(v@));
    }
    Tokens::List(out)
}

// ------------------------------------------------------------------
// reading effects from tokens
// ------------------------------------------------------------------

/// The word at a position, if there is a word there.
pub open spec fn word_at(ts: Seq<TokensV>, i: int) -> Option<Seq<char>> {
    if 0 <= i < ts.len() {
        match ts[i] {
            TokensV::Token(s) => Some(s),
            TokensV::List(_) => None,
        }
    } else {
        None
    }
}

/// Whether the word at a position is the given keyword.
pub fn word_is(tokens: &[Tokens], i: usize, lit: &str) -> (res: bool)
    ensures
        res == (word_at(tokens_views(tokens@), i as int) == Some(lit@)),
{
    proof {
        lemma_views(tokens@);
    }
    if i >= tokens.len() {
        return false;
    }
    match &tokens[i] {
        Tokens::Token(s) => str_is(s, lit),
        Tokens::List(_) => false,
    }
}

/// Whether every token is a list.
pub open spec fn all_lists(ts: Seq<TokensV>) -> bool {
    forall|i: int| 0 <= i < ts.len() ==> #[trigger] ts[i] is List
}

pub fn are_all_lists(tokens: &[Tokens]) -> (res: bool)
    ensures
        res == all_lists(tokens_views(tokens@)),
{
    proof {
        lemma_views(tokens@);
    }
    let mut i: usize = 0;
    while i < tokens.len()
        invariant
            0 <= i <= tokens.len(),
            tokens_views(tokens@).len() == tokens@.len(),
            forall|j: int| 0 <= j < tokens@.len() ==> #[trigger] tokens_views(tokens@)[j] == tokens@[j]@,
            forall|j: int| 0 <= j < i ==> #[trigger] tokens_views(tokens@)[j] is List,
        decreases tokens.len() - i,
    {
        match &tokens[i] {
            Tokens::Token(_) => {
                assert(!(tokens_views(tokens@)[i as int] is List));
                return false;
            },
            Tokens::List(_) => {},
        }
        i = i + 1;
    }
    true
}

/// Whether `r` is what is left of `s` after some tokens, maybe none.
pub open spec fn is_suffix_of(r: Seq<Tokens>, s: Seq<Tokens>) -> bool {
    r.len() <= s.len() && r == s.subrange(s.len() - r.len(), s.len() as int)
}

proof fn lemma_subrange_rest(s: Seq<Tokens>, k: int)
    requires
        1 <= k <= s.len(),
    ensures
        is_rest_of(s.subrange(k, s.len() as int), s),
        tokens_views(s.subrange(k, s.len() as int)) == tokens_views(s).subrange(k, s.len() as int),
        token_sizes(tokens_views(s.subrange(k, s.len() as int))) < token_sizes(tokens_views(s)),
{
    lemma_views(s);
    lemma_views_subrange(s, k, s.len() as int);
    lemma_sizes_suffix(tokens_views(s), k);
    assert(s.subrange(k, s.len() as int) =~= s.subrange(s.len() - (s.len() - k), s.len() as int));
}

proof fn lemma_first_of(s: Seq<Tokens>)
    requires
        s.len() >= 2,
    ensures
        tokens_views(s.subrange(0, 1)) == tokens_views(s).subrange(0, 1),
        token_sizes(tokens_views(s.subrange(0, 1))) < token_sizes(tokens_views(s)),
{
    lemma_views(s);
    lemma_views_subrange(s, 0, 1);
    lemma_sizes_prefix(tokens_views(s), 1);
}

pub open spec fn spec_parse_var(ts: Seq<TokensV>) -> Result<(Seq<char>, Seq<TokensV>), ErrorV> {
    if ts.len() == 0 {
        Err(ErrorV::ExpectedToken)
    } else {
        match word_at(ts, 0) {
            Some(s) => if s.len() > 0 && s[0] == '$' {
                Ok((s, ts.subrange(1, ts.len() as int)))
            } else {
                Err(ErrorV::UnexpectedToken("Var"@, s))
            },
            None => Err(ErrorV::ExpectedString),
        }
    }
}

/// Reads a variable: a word that starts with `$`.
pub fn parse_var<'a>(tokens: &'a [Tokens]) -> (res: Result<(Var, &'a [Tokens]), Error>)
    ensures
        match spec_parse_var(tokens_views(tokens@)) {
            Ok((v, rest)) => res matches Ok((x, r)) && x@ == v && tokens_views(r@) == rest
                && is_rest_of(r@, tokens@),
            Err(e) => res matches Err(err) && err@ == e,
        },
{
    proof {
        lemma_views(tokens@);
    }
    if tokens.len() == 0 {
        return Err(Error::ExpectedToken);
    }
    match &tokens[0] {
        Tokens::Token(s) => {
            if starts_with_dollar(s) {
                proof {
                    lemma_subrange_rest(tokens@, 1);
                }
                Ok((Var(s.clone()), &tokens[1..tokens.len()]))
            } else {
                Err(Error::UnexpectedToken(String::from_str("Var"), s.clone()))
            }
        },
        Tokens::List(_) => Err(Error::ExpectedString),
    }
}

pub open spec fn spec_parse_number_literal(ts: Seq<TokensV>) -> Result<(usize, Seq<TokensV>), ErrorV> {
    if ts.len() == 0 {
        Err(ErrorV::ExpectedToken)
    } else {
        match word_at(ts, 0) {
            Some(s) => match spec_parse_usize(s) {
                Some(n) => Ok((n, ts.subrange(1, ts.len() as int))),
                None => Err(ErrorV::UnexpectedToken("NumberLiteral"@, s)),
            },
            None => Err(ErrorV::ExpectedString),
        }
    }
}

/// Reads a number written in decimal.
pub fn parse_number_literal<'a>(tokens: &'a [Tokens]) -> (res: Result<(NumberLiteral, &'a [Tokens]), Error>)
    ensures
        match spec_parse_number_literal(tokens_views(tokens@)) {
            Ok((v, rest)) => res matches Ok((x, r)) && x@ == v && tokens_views(r@) == rest
                && is_rest_of(r@, tokens@),
            Err(e) => res matches Err(err) && err@ == e,
        },
{
    proof {
        lemma_views(tokens@);
    }
    if tokens.len() == 0 {
        return Err(Error::ExpectedToken);
    }
    match &tokens[0] {
        Tokens::Token(s) => {
            match parse_usize(s) {
                Some(n) => {
                    proof {
                        lemma_subrange_rest(tokens@, 1);
                    }
                    Ok((NumberLiteral(n), &tokens[1..tokens.len()]))
                },
                None => Err(Error::UnexpectedToken(String::from_str("NumberLiteral"), s.clone())),
            }
        },
        Tokens::List(_) => Err(Error::ExpectedString),
    }
}

pub open spec fn spec_take_param_var(ts: Seq<TokensV>) -> Result<(Seq<char>, Seq<TokensV>), ErrorV>
{
    if ts.len() == 0 {
        Err(ErrorV::ExpectedToken)
    } else {
        match ts[0] {
            TokensV::List(v) => {
                match spec_parse_var(v) {
                    Ok((x, r)) => if r.len() == 0 {
                        Ok((x, ts.subrange(1, ts.len() as int)))
                    } else {
                        Err(ErrorV::RemainingTokens)
                    },
                    Err(e) => Err(e),
                }
            },
            TokensV::Token(_) => spec_parse_var(ts),
        }
    }
}

/// Reads a parameter: from the items of a list at the front, which it must use up, or else
/// from the tokens themselves.
pub fn take_param_var<'a>(tokens: &'a [Tokens]) -> (res: Result<(Var, &'a [Tokens]), Error>)
    ensures
        match spec_take_param_var(tokens_views(tokens@)) {
            Ok((v, rest)) => res matches Ok((x, r)) && x@ == v && tokens_views(r@) == rest
                && is_rest_of(r@, tokens@),
            Err(e) => res matches Err(err) && err@ == e,
        },
{
    proof {
        lemma_views(tokens@);
    }
    if tokens.len() == 0 {
        return Err(Error::ExpectedToken);
    }
    match &tokens[0] {
        Tokens::List(v) => {
            proof {
                lemma_sizes_head_list(tokens_views(tokens@), tokens_views(v@));
            }
            match parse_var(v.as_slice()) {
                Ok((x, r)) => {
                    if r.len() == 0 {
                        proof {
                            lemma_subrange_rest(tokens@, 1);
                        }
                        Ok((x, &tokens[1..tokens.len()]))
                    } else {
                        Err(Error::RemainingTokens)
                    }
                },
                Err(e) => Err(e),
            }
        },
        Tokens::Token(_) => parse_var(tokens),
    }
}

pub open spec fn spec_take_param_number_literal(ts: Seq<TokensV>) -> Result<(usize, Seq<TokensV>), ErrorV>
{
    if ts.len() == 0 {
        Err(ErrorV::ExpectedToken)
    } else {
        match ts[0] {
            TokensV::List(v) => {
                match spec_parse_number_literal(v) {
                    Ok((x, r)) => if r.len() == 0 {
                        Ok((x, ts.subrange(1, ts.len() as int)))
                    } else {
                        Err(ErrorV::RemainingTokens)
                    },
                    Err(e) => Err(e),
                }
            },
            TokensV::Token(_) => spec_parse_number_literal(ts),
        }
    }
}

/// Reads a parameter: from the items of a list at the front, which it must use up, or else
/// from the tokens themselves.
pub fn take_param_number_literal<'a>(tokens: &'a [Tokens]) -> (res: Result<(NumberLiteral, &'a [Tokens]), Error>)
    ensures
        match spec_take_param_number_literal(tokens_views(tokens@)) {
            Ok((v, rest)) => res matches Ok((x, r)) && x@ == v && tokens_views(r@) == rest
                && is_rest_of(r@, tokens@),
            Err(e) => res matches Err(err) && err@ == e,
        },
{
    proof {
        lemma_views(tokens@);
    }
    if tokens.len() == 0 {
        return Err(Error::ExpectedToken);
    }
    match &tokens[0] {
        Tokens::List(v) => {
            proof {
                lemma_sizes_head_list(tokens_views(tokens@), tokens_views(v@));
            }
            match parse_number_literal(v.as_slice()) {
                Ok((x, r)) => {
                    if r.len() == 0 {
                        proof {
                            lemma_subrange_rest(tokens@, 1);
                        }
                        Ok((x, &tokens[1..tokens.len()]))
                    } else {
                        Err(Error::RemainingTokens)
                    }
                },
                Err(e) => Err(e),
            }
        },
        Tokens::Token(_) => parse_number_literal(tokens),
    }
}

pub open spec fn spec_let_card_references_fallback(ts: Seq<TokensV>) -> Result<(LetV<CardReferencesV>, Seq<TokensV>), ErrorV> {
    match spec_take_string(ts) {
        Ok((s, _)) => Err(ErrorV::UnexpectedToken("Let"@, s)),
        Err(e) => Err(e),
    }
}

pub open spec fn spec_parse_let_card_references(ts: Seq<TokensV>) -> Result<(LetV<CardReferencesV>, Seq<TokensV>), ErrorV> {
    match spec_take_string(ts) {
        Ok((s, t)) => if s == "let"@ {
            match spec_take_param_var(t) {
                Ok((v1, t1)) => match spec_take_string(t1) {
                    Ok((s2, t2)) => if s2 == "="@ {
                        match spec_take_param_card_references(t2) {
                            Ok((v2, t3)) => Ok((LetV(v1, v2), t3)),
                            Err(_) => spec_let_card_references_fallback(ts),
                        }
                    } else {
                        Err(ErrorV::UnexpectedToken("Let"@, s2))
                    },
                    Err(_) => spec_let_card_references_fallback(ts),
                },
                Err(_) => spec_let_card_references_fallback(ts),
            }
        } else {
            spec_let_card_references_fallback(ts)
        },
        Err(_) => spec_let_card_references_fallback(ts),
    }
}

/// Reads `let <$var> = <value>`.
pub fn parse_let_card_references<'a>(tokens: &'a [Tokens]) -> (res: Result<(Let<CardReferences>, &'a [Tokens]), Error>)
    ensures
        match spec_parse_let_card_references(tokens_views(tokens@)) {
            Ok((v, rest)) => res matches Ok((x, r)) && x@ == v && tokens_views(r@) == rest
                && is_rest_of(r@, tokens@),
            Err(e) => res matches Err(err) && err@ == e,
        },
{
    match take_string(tokens) {
        Ok((s, t)) => {
            if str_is(s, "let") {
                match take_param_var(t) {
                    Ok((v1, t1)) => {
                        match take_string(t1) {
                            Ok((s2, t2)) => {
                                if str_is(s2, "=") {
                                    match take_param_card_references(t2) {
                                        Ok((v2, t3)) => {
                                            proof {
                                                lemma_rest_trans(t1@, t@, tokens@);
                                                lemma_rest_trans(t2@, t1@, tokens@);
                                                lemma_rest_trans(t3@, t2@, tokens@);
                                            }
                                            return Ok((Let(v1, v2), t3));
                                        },
                                        Err(_) => {},
                                    }
                                } else {
                                    return Err(Error::UnexpectedToken(String::from_str("Let"), s2.clone()));
                                }
                            },
                            Err(_) => {},
                        }
                    },
                    Err(_) => {},
                }
            }
        },
        Err(_) => {},
    }
    match take_string(tokens) {
        Ok((s, _)) => Err(Error::UnexpectedToken(String::from_str("Let"), s.clone())),
        Err(e) => Err(e),
    }
}

pub open spec fn spec_take_param_let_card_references(ts: Seq<TokensV>) -> Result<(LetV<CardReferencesV>, Seq<TokensV>), ErrorV>
{
    if ts.len() == 0 {
        Err(ErrorV::ExpectedToken)
    } else {
        match ts[0] {
            TokensV::List(v) => {
                match spec_parse_let_card_references(v) {
                    Ok((x, r)) => if r.len() == 0 {
                        Ok((x, ts.subrange(1, ts.len() as int)))
                    } else {
                        Err(ErrorV::RemainingTokens)
                    },
                    Err(e) => Err(e),
                }
            },
            TokensV::Token(_) => spec_parse_let_card_references(ts),
        }
    }
}

/// Reads a parameter: from the items of a list at the front, which it must use up, or else
/// from the tokens themselves.
pub fn take_param_let_card_references<'a>(tokens: &'a [Tokens]) -> (res: Result<(Let<CardReferences>, &'a [Tokens]), Error>)
    ensures
        match spec_take_param_let_card_references(tokens_views(tokens@)) {
            Ok((v, rest)) => res matches Ok((x, r)) && x@ == v && tokens_views(r@) == rest
                && is_rest_of(r@, tokens@),
            Err(e) => res matches Err(err) && err@ == e,
        },
{
    proof {
        lemma_views(tokens@);
    }
    if tokens.len() == 0 {
        return Err(Error::ExpectedToken);
    }
    match &tokens[0] {
        Tokens::List(v) => {
            proof {
                lemma_sizes_head_list(tokens_views(tokens@), tokens_views(v@));
            }
            match parse_let_card_references(v.as_slice()) {
                Ok((x, r)) => {
                    if r.len() == 0 {
                        proof {
                            lemma_subrange_rest(tokens@, 1);
                        }
                        Ok((x, &tokens[1..tokens.len()]))
                    } else {
                        Err(Error::RemainingTokens)
                    }
                },
                Err(e) => Err(e),
            }
        },
        Tokens::Token(_) => parse_let_card_references(tokens),
    }
}

pub open spec fn spec_let_condition_fallback(ts: Seq<TokensV>) -> Result<(LetV<ConditionV>, Seq<TokensV>), ErrorV> {
    match spec_take_string(ts) {
        Ok((s, _)) => Err(ErrorV::UnexpectedToken("Let"@, s)),
        Err(e) => Err(e),
    }
}

pub open spec fn spec_parse_let_condition(ts: Seq<TokensV>) -> Result<(LetV<ConditionV>, Seq<TokensV>), ErrorV> {
    match spec_take_string(ts) {
        Ok((s, t)) => if s == "let"@ {
            match spec_take_param_var(t) {
                Ok((v1, t1)) => match spec_take_string(t1) {
                    Ok((s2, t2)) => if s2 == "="@ {
                        match spec_take_param_condition(t2) {
                            Ok((v2, t3)) => Ok((LetV(v1, v2), t3)),
                            Err(_) => spec_let_condition_fallback(ts),
                        }
                    } else {
                        Err(ErrorV::UnexpectedToken("Let"@, s2))
                    },
                    Err(_) => spec_let_condition_fallback(ts),
                },
                Err(_) => spec_let_condition_fallback(ts),
            }
        } else {
            spec_let_condition_fallback(ts)
        },
        Err(_) => spec_let_condition_fallback(ts),
    }
}

/// Reads `let <$var> = <value>`.
pub fn parse_let_condition<'a>(tokens: &'a [Tokens]) -> (res: Result<(Let<Condition>, &'a [Tokens]), Error>)
    ensures
        match spec_parse_let_condition(tokens_views(tokens@)) {
            Ok((v, rest)) => res matches Ok((x, r)) && x@ == v && tokens_views(r@) == rest
                && is_rest_of(r@, tokens@),
            Err(e) => res matches Err(err) && err@ == e,
        },
{
    match take_string(tokens) {
        Ok((s, t)) => {
            if str_is(s, "let") {
                match take_param_var(t) {
                    Ok((v1, t1)) => {
                        match take_string(t1) {
                            Ok((s2, t2)) => {
                                if str_is(s2, "=") {
                                    match take_param_condition(t2) {
                                        Ok((v2, t3)) => {
                                            proof {
                                                lemma_rest_trans(t1@, t@, tokens@);
                                                lemma_rest_trans(t2@, t1@, tokens@);
                                                lemma_rest_trans(t3@, t2@, tokens@);
                                            }
                                            return Ok((Let(v1, v2), t3));
                                        },
                                        Err(_) => {},
                                    }
                                } else {
                                    return Err(Error::UnexpectedToken(String::from_str("Let"), s2.clone()));
                                }
                            },
                            Err(_) => {},
                        }
                    },
                    Err(_) => {},
                }
            }
        },
        Err(_) => {},
    }
    match take_string(tokens) {
        Ok((s, _)) => Err(Error::UnexpectedToken(String::from_str("Let"), s.clone())),
        Err(e) => Err(e),
    }
}

pub open spec fn spec_take_param_let_condition(ts: Seq<TokensV>) -> Result<(LetV<ConditionV>, Seq<TokensV>), ErrorV>
{
    if ts.len() == 0 {
        Err(ErrorV::ExpectedToken)
    } else {
        match ts[0] {
            TokensV::List(v) => {
                match spec_parse_let_condition(v) {
                    Ok((x, r)) => if r.len() == 0 {
                        Ok((x, ts.subrange(1, ts.len() as int)))
                    } else {
                        Err(ErrorV::RemainingTokens)
                    },
                    Err(e) => Err(e),
                }
            },
            TokensV::Token(_) => spec_parse_let_condition(ts),
        }
    }
}

/// Reads a parameter: from the items of a list at the front, which it must use up, or else
/// from the tokens themselves.
pub fn take_param_let_condition<'a>(tokens: &'a [Tokens]) -> (res: Result<(Let<Condition>, &'a [Tokens]), Error>)
    ensures
        match spec_take_param_let_condition(tokens_views(tokens@)) {
            Ok((v, rest)) => res matches Ok((x, r)) && x@ == v && tokens_views(r@) == rest
                && is_rest_of(r@, tokens@),
            Err(e) => res matches Err(err) && err@ == e,
        },
{
    proof {
        lemma_views(tokens@);
    }
    if tokens.len() == 0 {
        return Err(Error::ExpectedToken);
    }
    match &tokens[0] {
        Tokens::List(v) => {
            proof {
                lemma_sizes_head_list(tokens_views(tokens@), tokens_views(v@));
            }
            match parse_let_condition(v.as_slice()) {
                Ok((x, r)) => {
                    if r.len() == 0 {
                        proof {
                            lemma_subrange_rest(tokens@, 1);
                        }
                        Ok((x, &tokens[1..tokens.len()]))
                    } else {
                        Err(Error::RemainingTokens)
                    }
                },
                Err(e) => Err(e),
            }
        },
        Tokens::Token(_) => parse_let_condition(tokens),
    }
}

pub open spec fn spec_let_let_value_fallback(ts: Seq<TokensV>) -> Result<(LetV<LetValueV>, Seq<TokensV>), ErrorV> {
    match spec_take_string(ts) {
        Ok((s, _)) => Err(ErrorV::UnexpectedToken("Let"@, s)),
        Err(e) => Err(e),
    }
}

pub open spec fn spec_parse_let_let_value(ts: Seq<TokensV>) -> Result<(LetV<LetValueV>, Seq<TokensV>), ErrorV> {
    match spec_take_string(ts) {
        Ok((s, t)) => if s == "let"@ {
            match spec_take_param_var(t) {
                Ok((v1, t1)) => match spec_take_string(t1) {
                    Ok((s2, t2)) => if s2 == "="@ {
                        match spec_take_param_let_value(t2) {
                            Ok((v2, t3)) => Ok((LetV(v1, v2), t3)),
                            Err(_) => spec_let_let_value_fallback(ts),
                        }
                    } else {
                        Err(ErrorV::UnexpectedToken("Let"@, s2))
                    },
                    Err(_) => spec_let_let_value_fallback(ts),
                },
                Err(_) => spec_let_let_value_fallback(ts),
            }
        } else {
            spec_let_let_value_fallback(ts)
        },
        Err(_) => spec_let_let_value_fallback(ts),
    }
}

/// Reads `let <$var> = <value>`.
pub fn parse_let_let_value<'a>(tokens: &'a [Tokens]) -> (res: Result<(Let<LetValue>, &'a [Tokens]), Error>)
    ensures
        match spec_parse_let_let_value(tokens_views(tokens@)) {
            Ok((v, rest)) => res matches Ok((x, r)) && x@ == v && tokens_views(r@) == rest
                && is_rest_of(r@, tokens@),
            Err(e) => res matches Err(err) && err@ == e,
        },
{
    match take_string(tokens) {
        Ok((s, t)) => {
            if str_is(s, "let") {
                match take_param_var(t) {
                    Ok((v1, t1)) => {
                        match take_string(t1) {
                            Ok((s2, t2)) => {
                                if str_is(s2, "=") {
                                    match take_param_let_value(t2) {
                                        Ok((v2, t3)) => {
                                            proof {
                                                lemma_rest_trans(t1@, t@, tokens@);
                                                lemma_rest_trans(t2@, t1@, tokens@);
                                                lemma_rest_trans(t3@, t2@, tokens@);
                                            }
                                            return Ok((Let(v1, v2), t3));
                                        },
                                        Err(_) => {},
                                    }
                                } else {
                                    return Err(Error::UnexpectedToken(String::from_str("Let"), s2.clone()));
                                }
                            },
                            Err(_) => {},
                        }
                    },
                    Err(_) => {},
                }
            }
        },
        Err(_) => {},
    }
    match take_string(tokens) {
        Ok((s, _)) => Err(Error::UnexpectedToken(String::from_str("Let"), s.clone())),
        Err(e) => Err(e),
    }
}

pub open spec fn spec_take_param_let_let_value(ts: Seq<TokensV>) -> Result<(LetV<LetValueV>, Seq<TokensV>), ErrorV>
{
    if ts.len() == 0 {
        Err(ErrorV::ExpectedToken)
    } else {
        match ts[0] {
            TokensV::List(v) => {
                match spec_parse_let_let_value(v) {
                    Ok((x, r)) => if r.len() == 0 {
                        Ok((x, ts.subrange(1, ts.len() as int)))
                    } else {
                        Err(ErrorV::RemainingTokens)
                    },
                    Err(e) => Err(e),
                }
            },
            TokensV::Token(_) => spec_parse_let_let_value(ts),
        }
    }
}

/// Reads a parameter: from the items of a list at the front, which it must use up, or else
/// from the tokens themselves.
pub fn take_param_let_let_value<'a>(tokens: &'a [Tokens]) -> (res: Result<(Let<LetValue>, &'a [Tokens]), Error>)
    ensures
        match spec_take_param_let_let_value(tokens_views(tokens@)) {
            Ok((v, rest)) => res matches Ok((x, r)) && x@ == v && tokens_views(r@) == rest
                && is_rest_of(r@, tokens@),
            Err(e) => res matches Err(err) && err@ == e,
        },
{
    proof {
        lemma_views(tokens@);
    }
    if tokens.len() == 0 {
        return Err(Error::ExpectedToken);
    }
    match &tokens[0] {
        Tokens::List(v) => {
            proof {
                lemma_sizes_head_list(tokens_views(tokens@), tokens_views(v@));
            }
            match parse_let_let_value(v.as_slice()) {
                Ok((x, r)) => {
                    if r.len() == 0 {
                        proof {
                            lemma_subrange_rest(tokens@, 1);
                        }
                        Ok((x, &tokens[1..tokens.len()]))
                    } else {
                        Err(Error::RemainingTokens)
                    }
                },
                Err(e) => Err(e),
            }
        },
        Tokens::Token(_) => parse_let_let_value(tokens),
    }
}

pub open spec fn spec_let_number_fallback(ts: Seq<TokensV>) -> Result<(LetV<NumberV>, Seq<TokensV>), ErrorV> {
    match spec_take_string(ts) {
        Ok((s, _)) => Err(ErrorV::UnexpectedToken("Let"@, s)),
        Err(e) => Err(e),
    }
}

pub open spec fn spec_parse_let_number(ts: Seq<TokensV>) -> Result<(LetV<NumberV>, Seq<TokensV>), ErrorV> {
    match spec_take_string(ts) {
        Ok((s, t)) => if s == "let"@ {
            match spec_take_param_var(t) {
                Ok((v1, t1)) => match spec_take_string(t1) {
                    Ok((s2, t2)) => if s2 == "="@ {
                        match spec_take_param_number(t2) {
                            Ok((v2, t3)) => Ok((LetV(v1, v2), t3)),
                            Err(_) => spec_let_number_fallback(ts),
                        }
                    } else {
                        Err(ErrorV::UnexpectedToken("Let"@, s2))
                    },
                    Err(_) => spec_let_number_fallback(ts),
                },
                Err(_) => spec_let_number_fallback(ts),
            }
        } else {
            spec_let_number_fallback(ts)
        },
        Err(_) => spec_let_number_fallback(ts),
    }
}

/// Reads `let <$var> = <value>`.
pub fn parse_let_number<'a>(tokens: &'a [Tokens]) -> (res: Result<(Let<Number>, &'a [Tokens]), Error>)
    ensures
        match spec_parse_let_number(tokens_views(tokens@)) {
            Ok((v, rest)) => res matches Ok((x, r)) && x@ == v && tokens_views(r@) == rest
                && is_rest_of(r@, tokens@),
            Err(e) => res matches Err(err) && err@ == e,
        },
{
    match take_string(tokens) {
        Ok((s, t)) => {
            if str_is(s, "let") {
                match take_param_var(t) {
                    Ok((v1, t1)) => {
                        match take_string(t1) {
                            Ok((s2, t2)) => {
                                if str_is(s2, "=") {
                                    match take_param_number(t2) {
                                        Ok((v2, t3)) => {
                                            proof {
                                                lemma_rest_trans(t1@, t@, tokens@);
                                                lemma_rest_trans(t2@, t1@, tokens@);
                                                lemma_rest_trans(t3@, t2@, tokens@);
                                            }
                                            return Ok((Let(v1, v2), t3));
                                        },
                                        Err(_) => {},
                                    }
                                } else {
                                    return Err(Error::UnexpectedToken(String::from_str("Let"), s2.clone()));
                                }
                            },
                            Err(_) => {},
                        }
                    },
                    Err(_) => {},
                }
            }
        },
        Err(_) => {},
    }
    match take_string(tokens) {
        Ok((s, _)) => Err(Error::UnexpectedToken(String::from_str("Let"), s.clone())),
        Err(e) => Err(e),
    }
}

pub open spec fn spec_take_param_let_number(ts: Seq<TokensV>) -> Result<(LetV<NumberV>, Seq<TokensV>), ErrorV>
{
    if ts.len() == 0 {
        Err(ErrorV::ExpectedToken)
    } else {
        match ts[0] {
            TokensV::List(v) => {
                match spec_parse_let_number(v) {
                    Ok((x, r)) => if r.len() == 0 {
                        Ok((x, ts.subrange(1, ts.len() as int)))
                    } else {
                        Err(ErrorV::RemainingTokens)
                    },
                    Err(e) => Err(e),
                }
            },
            TokensV::Token(_) => spec_parse_let_number(ts),
        }
    }
}

/// Reads a parameter: from the items of a list at the front, which it must use up, or else
/// from the tokens themselves.
pub fn take_param_let_number<'a>(tokens: &'a [Tokens]) -> (res: Result<(Let<Number>, &'a [Tokens]), Error>)
    ensures
        match spec_take_param_let_number(tokens_views(tokens@)) {
            Ok((v, rest)) => res matches Ok((x, r)) && x@ == v && tokens_views(r@) == rest
                && is_rest_of(r@, tokens@),
            Err(e) => res matches Err(err) && err@ == e,
        },
{
    proof {
        lemma_views(tokens@);
    }
    if tokens.len() == 0 {
        return Err(Error::ExpectedToken);
    }
    match &tokens[0] {
        Tokens::List(v) => {
            proof {
                lemma_sizes_head_list(tokens_views(tokens@), tokens_views(v@));
            }
            match parse_let_number(v.as_slice()) {
                Ok((x, r)) => {
                    if r.len() == 0 {
                        proof {
                            lemma_subrange_rest(tokens@, 1);
                        }
                        Ok((x, &tokens[1..tokens.len()]))
                    } else {
                        Err(Error::RemainingTokens)
                    }
                },
                Err(e) => Err(e),
            }
        },
        Tokens::Token(_) => parse_let_number(tokens),
    }
}

pub open spec fn spec_parse_action(ts: Seq<TokensV>) -> Result<(ActionV, Seq<TokensV>), ErrorV>
    decreases token_sizes(ts), 0nat,
{
    if ts.len() == 0 {
        Err(ErrorV::ExpectedToken)
    } else if word_at(ts, 0) == Some("add_global_mod"@) {
        match spec_take_param_player(ts.subrange(1, ts.len() as int)) {
            Err(e) => Err(e),
            Ok((x0, r0)) => {
                if token_sizes(r0) < token_sizes(ts) {
                    match spec_take_param_modifier(r0) {
                        Err(e) => Err(e),
                        Ok((x1, r1)) => {
                            if token_sizes(r1) < token_sizes(ts) {
                                match spec_take_param_life_time(r1) {
                                    Err(e) => Err(e),
                                    Ok((x2, r2)) => {
                                        Ok((ActionV::AddGlobalModifier(x0, x1, x2), r2))
                                    },
                                }
                            } else {
                                Err(ErrorV::RemainingTokens)
                            }
                        },
                    }
                } else {
                    Err(ErrorV::RemainingTokens)
                }
            },
        }
    } else if word_at(ts, 0) == Some("add_mod"@) {
        match spec_take_param_card_references(ts.subrange(1, ts.len() as int)) {
            Err(e) => Err(e),
            Ok((x0, r0)) => {
                if token_sizes(r0) < token_sizes(ts) {
                    match spec_take_param_modifier(r0) {
                        Err(e) => Err(e),
                        Ok((x1, r1)) => {
                            if token_sizes(r1) < token_sizes(ts) {
                                match spec_take_param_life_time(r1) {
                                    Err(e) => Err(e),
                                    Ok((x2, r2)) => {
                                        Ok((ActionV::AddModifier(x0, x1, x2), r2))
                                    },
                                }
                            } else {
                                Err(ErrorV::RemainingTokens)
                            }
                        },
                    }
                } else {
                    Err(ErrorV::RemainingTokens)
                }
            },
        }
    } else if word_at(ts, 0) == Some("add_zone_mod"@) {
        match spec_take_param_zone(ts.subrange(1, ts.len() as int)) {
            Err(e) => Err(e),
            Ok((x0, r0)) => {
                if token_sizes(r0) < token_sizes(ts) {
                    match spec_take_param_modifier(r0) {
                        Err(e) => Err(e),
                        Ok((x1, r1)) => {
                            if token_sizes(r1) < token_sizes(ts) {
                                match spec_take_param_life_time(r1) {
                                    Err(e) => Err(e),
                                    Ok((x2, r2)) => {
                                        Ok((ActionV::AddZoneModifier(x0, x1, x2), r2))
                                    },
                                }
                            } else {
                                Err(ErrorV::RemainingTokens)
                            }
                        },
                    }
                } else {
                    Err(ErrorV::RemainingTokens)
                }
            },
        }
    } else if word_at(ts, 0) == Some("attach_cards"@) {
        match spec_take_param_card_references(ts.subrange(1, ts.len() as int)) {
            Err(e) => Err(e),
            Ok((x0, r0)) => {
                if token_sizes(r0) < token_sizes(ts) {
                    match spec_take_param_card_reference(r0) {
                        Err(e) => Err(e),
                        Ok((x1, r1)) => {
                            Ok((ActionV::AttachCards(x0, x1), r1))
                        },
                    }
                } else {
                    Err(ErrorV::RemainingTokens)
                }
            },
        }
    } else if word_at(ts, 0) == Some("deal_damage"@) {
        match spec_take_param_card_references(ts.subrange(1, ts.len() as int)) {
            Err(e) => Err(e),
            Ok((x0, r0)) => {
                if token_sizes(r0) < token_sizes(ts) {
                    match spec_take_param_number(r0) {
                        Err(e) => Err(e),
                        Ok((x1, r1)) => {
                            Ok((ActionV::DealDamage(x0, x1), r1))
                        },
                    }
                } else {
                    Err(ErrorV::RemainingTokens)
                }
            },
        }
    } else if word_at(ts, 0) == Some("deal_special_damage"@) {
        match spec_take_param_card_references(ts.subrange(1, ts.len() as int)) {
            Err(e) => Err(e),
            Ok((x0, r0)) => {
                if token_sizes(r0) < token_sizes(ts) {
                    match spec_take_param_number(r0) {
                        Err(e) => Err(e),
                        Ok((x1, r1)) => {
                            Ok((ActionV::DealSpecialDamage(x0, x1), r1))
                        },
                    }
                } else {
                    Err(ErrorV::RemainingTokens)
                }
            },
        }
    } else if word_at(ts, 0) == Some("draw"@) {
        match spec_take_param_number(ts.subrange(1, ts.len() as int)) {
            Err(e) => Err(e),
            Ok((x0, r0)) => {
                Ok((ActionV::Draw(x0), r0))
            },
        }
    } else if word_at(ts, 0) == Some("if"@) {
        match spec_take_param_condition(ts.subrange(1, ts.len() as int)) {
            Err(e) => Err(e),
            Ok((x0, r0)) => {
                if token_sizes(r0) < token_sizes(ts) {
                    match spec_take_param_vec_action(r0) {
                        Err(e) => Err(e),
                        Ok((x1, r1)) => {
                            Ok((ActionV::If(x0, x1), r1))
                        },
                    }
                } else {
                    Err(ErrorV::RemainingTokens)
                }
            },
        }
    } else if word_at(ts, 0) == Some("knock_out"@) {
        match spec_take_param_card_references(ts.subrange(1, ts.len() as int)) {
            Err(e) => Err(e),
            Ok((x0, r0)) => {
                Ok((ActionV::KnockOut(x0), r0))
            },
        }
    } else if word_at(ts, 0) == Some("no_action"@) {
        Ok((ActionV::Noop, ts.subrange(1, ts.len() as int)))
    } else if word_at(ts, 0) == Some("reveal"@) {
        match spec_take_param_card_references(ts.subrange(1, ts.len() as int)) {
            Err(e) => Err(e),
            Ok((x0, r0)) => {
                Ok((ActionV::Reveal(x0), r0))
            },
        }
    } else if word_at(ts, 0) == Some("send_to"@) {
        match spec_take_param_zone(ts.subrange(1, ts.len() as int)) {
            Err(e) => Err(e),
            Ok((x0, r0)) => {
                if token_sizes(r0) < token_sizes(ts) {
                    match spec_take_param_card_references(r0) {
                        Err(e) => Err(e),
                        Ok((x1, r1)) => {
                            Ok((ActionV::SendTo(x0, x1), r1))
                        },
                    }
                } else {
                    Err(ErrorV::RemainingTokens)
                }
            },
        }
    } else if word_at(ts, 0) == Some("send_to_bottom"@) {
        match spec_take_param_zone(ts.subrange(1, ts.len() as int)) {
            Err(e) => Err(e),
            Ok((x0, r0)) => {
                if token_sizes(r0) < token_sizes(ts) {
                    match spec_take_param_card_references(r0) {
                        Err(e) => Err(e),
                        Ok((x1, r1)) => {
                            Ok((ActionV::SendToBottom(x0, x1), r1))
                        },
                    }
                } else {
                    Err(ErrorV::RemainingTokens)
                }
            },
        }
    } else if word_at(ts, 0) == Some("send_to_top"@) {
        match spec_take_param_zone(ts.subrange(1, ts.len() as int)) {
            Err(e) => Err(e),
            Ok((x0, r0)) => {
                if token_sizes(r0) < token_sizes(ts) {
                    match spec_take_param_card_references(r0) {
                        Err(e) => Err(e),
                        Ok((x1, r1)) => {
                            Ok((ActionV::SendToTop(x0, x1), r1))
                        },
                    }
                } else {
                    Err(ErrorV::RemainingTokens)
                }
            },
        }
    } else if word_at(ts, 0) == Some("shuffle"@) {
        match spec_take_param_zone(ts.subrange(1, ts.len() as int)) {
            Err(e) => Err(e),
            Ok((x0, r0)) => {
                Ok((ActionV::Shuffle(x0), r0))
            },
        }
    } else {
        match spec_take_param_let_card_references(ts) {
            Ok((x0, r0)) => Ok((ActionV::LetCardReferences(x0), r0)),
            Err(_) => {
                match spec_take_param_let_condition(ts) {
                    Ok((x0, r0)) => Ok((ActionV::LetCondition(x0), r0)),
                    Err(_) => {
                        match spec_take_param_let_let_value(ts) {
                            Ok((x0, r0)) => Ok((ActionV::LetSelect(x0), r0)),
                            Err(_) => {
                                match spec_take_param_let_number(ts) {
                                    Ok((x0, r0)) => Ok((ActionV::LetNumber(x0), r0)),
                                    Err(_) => {
                                        match word_at(ts, 0) {
                                            Some(s) => Err(ErrorV::UnexpectedToken("Action"@, s)),
                                            None => Err(ErrorV::ExpectedString),
                                        }
                                    },
                                }
                            },
                        }
                    },
                }
            },
        }
    }
}

/// Reads a Action from the front of the tokens.
#[verifier::rlimit(80)]
#[verifier::spinoff_prover]
pub fn parse_action<'a>(tokens: &'a [Tokens]) -> (res: Result<(Action, &'a [Tokens]), Error>)
    ensures
        match spec_parse_action(tokens_views(tokens@)) {
            Ok((v, rest)) => res matches Ok((x, r)) && x@ == v && tokens_views(r@) == rest
                && is_rest_of(r@, tokens@),
            Err(e) => res matches Err(err) && err@ == e,
        },
    decreases token_sizes(tokens_views(tokens@)), 0nat,
{
    proof {
        lemma_views(tokens@);
        reveal_strlit("add_global_mod");
        reveal_strlit("add_mod");
        reveal_strlit("add_zone_mod");
        reveal_strlit("attach_cards");
        reveal_strlit("deal_damage");
        reveal_strlit("deal_special_damage");
        reveal_strlit("draw");
        reveal_strlit("if");
        reveal_strlit("knock_out");
        reveal_strlit("no_action");
        reveal_strlit("reveal");
        reveal_strlit("send_to");
        reveal_strlit("send_to_bottom");
        reveal_strlit("send_to_top");
        reveal_strlit("shuffle");
    }
    if tokens.len() == 0 {
        return Err(Error::ExpectedToken);
    }
    if word_is(tokens, 0, "add_global_mod") {
        proof {
            lemma_subrange_rest(tokens@, 1);
        }
        let r = &tokens[1..tokens.len()];
        let (x0, r0) = match take_param_player(r) {
            Ok(p) => p,
            Err(e) => return Err(e),
        };
        proof {
            lemma_rest_trans(r0@, r@, tokens@);
        }
        proof {
            lemma_rest_sizes(r0@, tokens@);
        }
        let (x1, r1) = match take_param_modifier(r0) {
            Ok(p) => p,
            Err(e) => return Err(e),
        };
        proof {
            lemma_rest_trans(r1@, r0@, tokens@);
        }
        proof {
            lemma_rest_sizes(r1@, tokens@);
        }
        let (x2, r2) = match take_param_life_time(r1) {
            Ok(p) => p,
            Err(e) => return Err(e),
        };
        proof {
            lemma_rest_trans(r2@, r1@, tokens@);
        }
        return Ok((Action::AddGlobalModifier(x0, x1, x2), r2));
    }
    if word_is(tokens, 0, "add_mod") {
        proof {
            lemma_subrange_rest(tokens@, 1);
        }
        let r = &tokens[1..tokens.len()];
        let (x0, r0) = match take_param_card_references(r) {
            Ok(p) => p,
            Err(e) => return Err(e),
        };
        proof {
            lemma_rest_trans(r0@, r@, tokens@);
        }
        proof {
            lemma_rest_sizes(r0@, tokens@);
        }
        let (x1, r1) = match take_param_modifier(r0) {
            Ok(p) => p,
            Err(e) => return Err(e),
        };
        proof {
            lemma_rest_trans(r1@, r0@, tokens@);
        }
        proof {
            lemma_rest_sizes(r1@, tokens@);
        }
        let (x2, r2) = match take_param_life_time(r1) {
            Ok(p) => p,
            Err(e) => return Err(e),
        };
        proof {
            lemma_rest_trans(r2@, r1@, tokens@);
        }
        return Ok((Action::AddModifier(x0, x1, x2), r2));
    }
    if word_is(tokens, 0, "add_zone_mod") {
        proof {
            lemma_subrange_rest(tokens@, 1);
        }
        let r = &tokens[1..tokens.len()];
        let (x0, r0) = match take_param_zone(r) {
            Ok(p) => p,
            Err(e) => return Err(e),
        };
        proof {
            lemma_rest_trans(r0@, r@, tokens@);
        }
        proof {
            lemma_rest_sizes(r0@, tokens@);
        }
        let (x1, r1) = match take_param_modifier(r0) {
            Ok(p) => p,
            Err(e) => return Err(e),
        };
        proof {
            lemma_rest_trans(r1@, r0@, tokens@);
        }
        proof {
            lemma_rest_sizes(r1@, tokens@);
        }
        let (x2, r2) = match take_param_life_time(r1) {
            Ok(p) => p,
            Err(e) => return Err(e),
        };
        proof {
            lemma_rest_trans(r2@, r1@, tokens@);
        }
        return Ok((Action::AddZoneModifier(x0, x1, x2), r2));
    }
    if word_is(tokens, 0, "attach_cards") {
        proof {
            lemma_subrange_rest(tokens@, 1);
        }
        let r = &tokens[1..tokens.len()];
        let (x0, r0) = match take_param_card_references(r) {
            Ok(p) => p,
            Err(e) => return Err(e),
        };
        proof {
            lemma_rest_trans(r0@, r@, tokens@);
        }
        proof {
            lemma_rest_sizes(r0@, tokens@);
        }
        let (x1, r1) = match take_param_card_reference(r0) {
            Ok(p) => p,
            Err(e) => return Err(e),
        };
        proof {
            lemma_rest_trans(r1@, r0@, tokens@);
        }
        return Ok((Action::AttachCards(x0, x1), r1));
    }
    if word_is(tokens, 0, "deal_damage") {
        proof {
            lemma_subrange_rest(tokens@, 1);
        }
        let r = &tokens[1..tokens.len()];
        let (x0, r0) = match take_param_card_references(r) {
            Ok(p) => p,
            Err(e) => return Err(e),
        };
        proof {
            lemma_rest_trans(r0@, r@, tokens@);
        }
        proof {
            lemma_rest_sizes(r0@, tokens@);
        }
        let (x1, r1) = match take_param_number(r0) {
            Ok(p) => p,
            Err(e) => return Err(e),
        };
        proof {
            lemma_rest_trans(r1@, r0@, tokens@);
        }
        return Ok((Action::DealDamage(x0, x1), r1));
    }
    if word_is(tokens, 0, "deal_special_damage") {
        proof {
            lemma_subrange_rest(tokens@, 1);
        }
        let r = &tokens[1..tokens.len()];
        let (x0, r0) = match take_param_card_references(r) {
            Ok(p) => p,
            Err(e) => return Err(e),
        };
        proof {
            lemma_rest_trans(r0@, r@, tokens@);
        }
        proof {
            lemma_rest_sizes(r0@, tokens@);
        }
        let (x1, r1) = match take_param_number(r0) {
            Ok(p) => p,
            Err(e) => return Err(e),
        };
        proof {
            lemma_rest_trans(r1@, r0@, tokens@);
        }
        return Ok((Action::DealSpecialDamage(x0, x1), r1));
    }
    if word_is(tokens, 0, "draw") {
        proof {
            lemma_subrange_rest(tokens@, 1);
        }
        let r = &tokens[1..tokens.len()];
        let (x0, r0) = match take_param_number(r) {
            Ok(p) => p,
            Err(e) => return Err(e),
        };
        proof {
            lemma_rest_trans(r0@, r@, tokens@);
        }
        return Ok((Action::Draw(x0), r0));
    }
    if word_is(tokens, 0, "if") {
        proof {
            lemma_subrange_rest(tokens@, 1);
        }
        let r = &tokens[1..tokens.len()];
        let (x0, r0) = match take_param_condition(r) {
            Ok(p) => p,
            Err(e) => return Err(e),
        };
        proof {
            lemma_rest_trans(r0@, r@, tokens@);
        }
        proof {
            lemma_rest_sizes(r0@, tokens@);
        }
        let (x1, r1) = match take_param_vec_action(r0) {
            Ok(p) => p,
            Err(e) => return Err(e),
        };
        proof {
            lemma_rest_trans(r1@, r0@, tokens@);
        }
        return Ok((Action::If(x0, x1), r1));
    }
    if word_is(tokens, 0, "knock_out") {
        proof {
            lemma_subrange_rest(tokens@, 1);
        }
        let r = &tokens[1..tokens.len()];
        let (x0, r0) = match take_param_card_references(r) {
            Ok(p) => p,
            Err(e) => return Err(e),
        };
        proof {
            lemma_rest_trans(r0@, r@, tokens@);
        }
        return Ok((Action::KnockOut(x0), r0));
    }
    if word_is(tokens, 0, "no_action") {
        proof {
            lemma_subrange_rest(tokens@, 1);
        }
        let r = &tokens[1..tokens.len()];
        return Ok((Action::Noop, r));
    }
    if word_is(tokens, 0, "reveal") {
        proof {
            lemma_subrange_rest(tokens@, 1);
        }
        let r = &tokens[1..tokens.len()];
        let (x0, r0) = match take_param_card_references(r) {
            Ok(p) => p,
            Err(e) => return Err(e),
        };
        proof {
            lemma_rest_trans(r0@, r@, tokens@);
        }
        return Ok((Action::Reveal(x0), r0));
    }
    if word_is(tokens, 0, "send_to") {
        proof {
            lemma_subrange_rest(tokens@, 1);
        }
        let r = &tokens[1..tokens.len()];
        let (x0, r0) = match take_param_zone(r) {
            Ok(p) => p,
            Err(e) => return Err(e),
        };
        proof {
            lemma_rest_trans(r0@, r@, tokens@);
        }
        proof {
            lemma_rest_sizes(r0@, tokens@);
        }
        let (x1, r1) = match take_param_card_references(r0) {
            Ok(p) => p,
            Err(e) => return Err(e),
        };
        proof {
            lemma_rest_trans(r1@, r0@, tokens@);
        }
        return Ok((Action::SendTo(x0, x1), r1));
    }
    if word_is(tokens, 0, "send_to_bottom") {
        proof {
            lemma_subrange_rest(tokens@, 1);
        }
        let r = &tokens[1..tokens.len()];
        let (x0, r0) = match take_param_zone(r) {
            Ok(p) => p,
            Err(e) => return Err(e),
        };
        proof {
            lemma_rest_trans(r0@, r@, tokens@);
        }
        proof {
            lemma_rest_sizes(r0@, tokens@);
        }
        let (x1, r1) = match take_param_card_references(r0) {
            Ok(p) => p,
            Err(e) => return Err(e),
        };
        proof {
            lemma_rest_trans(r1@, r0@, tokens@);
        }
        return Ok((Action::SendToBottom(x0, x1), r1));
    }
    if word_is(tokens, 0, "send_to_top") {
        proof {
            lemma_subrange_rest(tokens@, 1);
        }
        let r = &tokens[1..tokens.len()];
        let (x0, r0) = match take_param_zone(r) {
            Ok(p) => p,
            Err(e) => return Err(e),
        };
        proof {
            lemma_rest_trans(r0@, r@, tokens@);
        }
        proof {
            lemma_rest_sizes(r0@, tokens@);
        }
        let (x1, r1) = match take_param_card_references(r0) {
            Ok(p) => p,
            Err(e) => return Err(e),
        };
        proof {
            lemma_rest_trans(r1@, r0@, tokens@);
        }
        return Ok((Action::SendToTop(x0, x1), r1));
    }
    if word_is(tokens, 0, "shuffle") {
        proof {
            lemma_subrange_rest(tokens@, 1);
        }
        let r = &tokens[1..tokens.len()];
        let (x0, r0) = match take_param_zone(r) {
            Ok(p) => p,
            Err(e) => return Err(e),
        };
        proof {
            lemma_rest_trans(r0@, r@, tokens@);
        }
        return Ok((Action::Shuffle(x0), r0));
    }
    match take_param_let_card_references(tokens) {
        Ok((x0, r0)) => return Ok((Action::LetCardReferences(x0), r0)),
        Err(_) => {},
    }
    match take_param_let_condition(tokens) {
        Ok((x0, r0)) => return Ok((Action::LetCondition(x0), r0)),
        Err(_) => {},
    }
    match take_param_let_let_value(tokens) {
        Ok((x0, r0)) => return Ok((Action::LetSelect(x0), r0)),
        Err(_) => {},
    }
    match take_param_let_number(tokens) {
        Ok((x0, r0)) => return Ok((Action::LetNumber(x0), r0)),
        Err(_) => {},
    }
    match &tokens[0] {
        Tokens::Token(s) => Err(Error::UnexpectedToken(String::from_str("Action"), s.clone())),
        Tokens::List(_) => Err(Error::ExpectedString),
    }
}

pub open spec fn spec_take_param_action(ts: Seq<TokensV>) -> Result<(ActionV, Seq<TokensV>), ErrorV>
    decreases token_sizes(ts), 1nat,
{
    if ts.len() == 0 {
        Err(ErrorV::ExpectedToken)
    } else {
        match ts[0] {
            TokensV::List(v) => {
                proof {
                    lemma_sizes_head_list(ts, v);
                }
                match spec_parse_action(v) {
                    Ok((x, r)) => if r.len() == 0 {
                        Ok((x, ts.subrange(1, ts.len() as int)))
                    } else {
                        Err(ErrorV::RemainingTokens)
                    },
                    Err(e) => Err(e),
                }
            },
            TokensV::Token(_) => spec_parse_action(ts),
        }
    }
}

/// Reads a parameter: from the items of a list at the front, which it must use up, or else
/// from the tokens themselves.
pub fn take_param_action<'a>(tokens: &'a [Tokens]) -> (res: Result<(Action, &'a [Tokens]), Error>)
    ensures
        match spec_take_param_action(tokens_views(tokens@)) {
            Ok((v, rest)) => res matches Ok((x, r)) && x@ == v && tokens_views(r@) == rest
                && is_rest_of(r@, tokens@),
            Err(e) => res matches Err(err) && err@ == e,
        },
    decreases token_sizes(tokens_views(tokens@)), 1nat,
{
    proof {
        lemma_views(tokens@);
    }
    if tokens.len() == 0 {
        return Err(Error::ExpectedToken);
    }
    match &tokens[0] {
        Tokens::List(v) => {
            proof {
                lemma_sizes_head_list(tokens_views(tokens@), tokens_views(v@));
            }
            match parse_action(v.as_slice()) {
                Ok((x, r)) => {
                    if r.len() == 0 {
                        proof {
                            lemma_subrange_rest(tokens@, 1);
                        }
                        Ok((x, &tokens[1..tokens.len()]))
                    } else {
                        Err(Error::RemainingTokens)
                    }
                },
                Err(e) => Err(e),
            }
        },
        Tokens::Token(_) => parse_action(tokens),
    }
}

pub open spec fn spec_parse_card_reference(ts: Seq<TokensV>) -> Result<(CardReferenceV, Seq<TokensV>), ErrorV>
{
    if ts.len() == 0 {
        Err(ErrorV::ExpectedToken)
    } else if word_at(ts, 0) == Some("art_target"@) {
        Ok((CardReferenceV::ArtTarget, ts.subrange(1, ts.len() as int)))
    } else if word_at(ts, 0) == Some("attach_target"@) {
        Ok((CardReferenceV::AttachTarget, ts.subrange(1, ts.len() as int)))
    } else if word_at(ts, 0) == Some("event_origin"@) {
        Ok((CardReferenceV::EventOrigin, ts.subrange(1, ts.len() as int)))
    } else if word_at(ts, 0) == Some("this_card"@) {
        Ok((CardReferenceV::ThisCard, ts.subrange(1, ts.len() as int)))
    } else {
        match spec_take_param_var(ts) {
            Ok((x0, r0)) => Ok((CardReferenceV::Var(x0), r0)),
            Err(_) => {
                match word_at(ts, 0) {
                    Some(s) => Err(ErrorV::UnexpectedToken("CardReference"@, s)),
                    None => Err(ErrorV::ExpectedString),
                }
            },
        }
    }
}

/// Reads a CardReference from the front of the tokens.
pub fn parse_card_reference<'a>(tokens: &'a [Tokens]) -> (res: Result<(CardReference, &'a [Tokens]), Error>)
    ensures
        match spec_parse_card_reference(tokens_views(tokens@)) {
            Ok((v, rest)) => res matches Ok((x, r)) && x@ == v && tokens_views(r@) == rest
                && is_rest_of(r@, tokens@),
            Err(e) => res matches Err(err) && err@ == e,
        },
{
    proof {
        lemma_views(tokens@);
        reveal_strlit("art_target");
        reveal_strlit("attach_target");
        reveal_strlit("event_origin");
        reveal_strlit("this_card");
    }
    if tokens.len() == 0 {
        return Err(Error::ExpectedToken);
    }
    if word_is(tokens, 0, "art_target") {
        proof {
            lemma_subrange_rest(tokens@, 1);
        }
        let r = &tokens[1..tokens.len()];
        return Ok((CardReference::ArtTarget, r));
    }
    if word_is(tokens, 0, "attach_target") {
        proof {
            lemma_subrange_rest(tokens@, 1);
        }
        let r = &tokens[1..tokens.len()];
        return Ok((CardReference::AttachTarget, r));
    }
    if word_is(tokens, 0, "event_origin") {
        proof {
            lemma_subrange_rest(tokens@, 1);
        }
        let r = &tokens[1..tokens.len()];
        return Ok((CardReference::EventOrigin, r));
    }
    if word_is(tokens, 0, "this_card") {
        proof {
            lemma_subrange_rest(tokens@, 1);
        }
        let r = &tokens[1..tokens.len()];
        return Ok((CardReference::ThisCard, r));
    }
    match take_param_var(tokens) {
        Ok((x0, r0)) => return Ok((CardReference::Var(x0), r0)),
        Err(_) => {},
    }
    match &tokens[0] {
        Tokens::Token(s) => Err(Error::UnexpectedToken(String::from_str("CardReference"), s.clone())),
        Tokens::List(_) => Err(Error::ExpectedString),
    }
}

pub open spec fn spec_take_param_card_reference(ts: Seq<TokensV>) -> Result<(CardReferenceV, Seq<TokensV>), ErrorV>
{
    if ts.len() == 0 {
        Err(ErrorV::ExpectedToken)
    } else {
        match ts[0] {
            TokensV::List(v) => {
                match spec_parse_card_reference(v) {
                    Ok((x, r)) => if r.len() == 0 {
                        Ok((x, ts.subrange(1, ts.len() as int)))
                    } else {
                        Err(ErrorV::RemainingTokens)
                    },
                    Err(e) => Err(e),
                }
            },
            TokensV::Token(_) => spec_parse_card_reference(ts),
        }
    }
}

/// Reads a parameter: from the items of a list at the front, which it must use up, or else
/// from the tokens themselves.
pub fn take_param_card_reference<'a>(tokens: &'a [Tokens]) -> (res: Result<(CardReference, &'a [Tokens]), Error>)
    ensures
        match spec_take_param_card_reference(tokens_views(tokens@)) {
            Ok((v, rest)) => res matches Ok((x, r)) && x@ == v && tokens_views(r@) == rest
                && is_rest_of(r@, tokens@),
            Err(e) => res matches Err(err) && err@ == e,
        },
{
    proof {
        lemma_views(tokens@);
    }
    if tokens.len() == 0 {
        return Err(Error::ExpectedToken);
    }
    match &tokens[0] {
        Tokens::List(v) => {
            proof {
                lemma_sizes_head_list(tokens_views(tokens@), tokens_views(v@));
            }
            match parse_card_reference(v.as_slice()) {
                Ok((x, r)) => {
                    if r.len() == 0 {
                        proof {
                            lemma_subrange_rest(tokens@, 1);
                        }
                        Ok((x, &tokens[1..tokens.len()]))
                    } else {
                        Err(Error::RemainingTokens)
                    }
                },
                Err(e) => Err(e),
            }
        },
        Tokens::Token(_) => parse_card_reference(tokens),
    }
}

pub open spec fn spec_parse_card_references(ts: Seq<TokensV>) -> Result<(CardReferencesV, Seq<TokensV>), ErrorV>
    decreases token_sizes(ts), 0nat,
{
    if ts.len() == 0 {
        Err(ErrorV::ExpectedToken)
    } else if word_at(ts, 0) == Some("art_target"@) {
        Ok((CardReferencesV::ArtTarget, ts.subrange(1, ts.len() as int)))
    } else if word_at(ts, 0) == Some("attached_to"@) {
        match spec_take_param_card_reference(ts.subrange(1, ts.len() as int)) {
            Err(e) => Err(e),
            Ok((x0, r0)) => {
                Ok((CardReferencesV::AttachedTo(x0), r0))
            },
        }
    } else if word_at(ts, 0) == Some("attach_target"@) {
        Ok((CardReferencesV::AttachTarget, ts.subrange(1, ts.len() as int)))
    } else if word_at(ts, 0) == Some("event_origin"@) {
        Ok((CardReferencesV::EventOrigin, ts.subrange(1, ts.len() as int)))
    } else if word_at(ts, 0) == Some("from"@) {
        match spec_take_param_zone(ts.subrange(1, ts.len() as int)) {
            Err(e) => Err(e),
            Ok((x0, r0)) => {
                Ok((CardReferencesV::From(x0), r0))
            },
        }
    } else if word_at(ts, 0) == Some("from_top"@) {
        proof {
            lemma_sizes_suffix(ts, 1);
        }
        match spec_take_param_number(ts.subrange(1, ts.len() as int)) {
            Err(e) => Err(e),
            Ok((x0, r0)) => {
                if token_sizes(r0) < token_sizes(ts) {
                    match spec_take_param_zone(r0) {
                        Err(e) => Err(e),
                        Ok((x1, r1)) => {
                            Ok((CardReferencesV::FromTop(Box::new(x0), x1), r1))
                        },
                    }
                } else {
                    Err(ErrorV::RemainingTokens)
                }
            },
        }
    } else if word_at(ts, 0) == Some("leftovers"@) {
        Ok((CardReferencesV::Leftovers, ts.subrange(1, ts.len() as int)))
    } else if word_at(ts, 0) == Some("this_card"@) {
        Ok((CardReferencesV::ThisCard, ts.subrange(1, ts.len() as int)))
    } else if word_at(ts, 0) == Some("filter"@) {
        proof {
            lemma_sizes_suffix(ts, 1);
        }
        match spec_take_param_card_references(ts.subrange(1, ts.len() as int)) {
            Err(e) => Err(e),
            Ok((x0, r0)) => {
                if token_sizes(r0) < token_sizes(ts) {
                    match spec_take_param_condition(r0) {
                        Err(e) => Err(e),
                        Ok((x1, r1)) => {
                            Ok((CardReferencesV::Filter(Box::new(x0), Box::new(x1)), r1))
                        },
                    }
                } else {
                    Err(ErrorV::RemainingTokens)
                }
            },
        }
    } else {
        match spec_take_param_var(ts) {
            Ok((x0, r0)) => Ok((CardReferencesV::Var(x0), r0)),
            Err(_) => {
                match word_at(ts, 0) {
                    Some(s) => Err(ErrorV::UnexpectedToken("CardReferences"@, s)),
                    None => Err(ErrorV::ExpectedString),
                }
            },
        }
    }
}

/// Reads a CardReferences from the front of the tokens.
pub fn parse_card_references<'a>(tokens: &'a [Tokens]) -> (res: Result<(CardReferences, &'a [Tokens]), Error>)
    ensures
        match spec_parse_card_references(tokens_views(tokens@)) {
            Ok((v, rest)) => res matches Ok((x, r)) && x@ == v && tokens_views(r@) == rest
                && is_rest_of(r@, tokens@),
            Err(e) => res matches Err(err) && err@ == e,
        },
    decreases token_sizes(tokens_views(tokens@)), 0nat,
{
    proof {
        lemma_views(tokens@);
        reveal_strlit("art_target");
        reveal_strlit("attached_to");
        reveal_strlit("attach_target");
        reveal_strlit("event_origin");
        reveal_strlit("from");
        reveal_strlit("from_top");
        reveal_strlit("leftovers");
        reveal_strlit("this_card");
        reveal_strlit("filter");
    }
    if tokens.len() == 0 {
        return Err(Error::ExpectedToken);
    }
    if word_is(tokens, 0, "art_target") {
        proof {
            lemma_subrange_rest(tokens@, 1);
        }
        let r = &tokens[1..tokens.len()];
        return Ok((CardReferences::ArtTarget, r));
    }
    if word_is(tokens, 0, "attached_to") {
        proof {
            lemma_subrange_rest(tokens@, 1);
        }
        let r = &tokens[1..tokens.len()];
        let (x0, r0) = match take_param_card_reference(r) {
            Ok(p) => p,
            Err(e) => return Err(e),
        };
        proof {
            lemma_rest_trans(r0@, r@, tokens@);
        }
        return Ok((CardReferences::AttachedTo(x0), r0));
    }
    if word_is(tokens, 0, "attach_target") {
        proof {
            lemma_subrange_rest(tokens@, 1);
        }
        let r = &tokens[1..tokens.len()];
        return Ok((CardReferences::AttachTarget, r));
    }
    if word_is(tokens, 0, "event_origin") {
        proof {
            lemma_subrange_rest(tokens@, 1);
        }
        let r = &tokens[1..tokens.len()];
        return Ok((CardReferences::EventOrigin, r));
    }
    if word_is(tokens, 0, "from") {
        proof {
            lemma_subrange_rest(tokens@, 1);
        }
        let r = &tokens[1..tokens.len()];
        let (x0, r0) = match take_param_zone(r) {
            Ok(p) => p,
            Err(e) => return Err(e),
        };
        proof {
            lemma_rest_trans(r0@, r@, tokens@);
        }
        return Ok((CardReferences::From(x0), r0));
    }
    if word_is(tokens, 0, "from_top") {
        proof {
            lemma_subrange_rest(tokens@, 1);
        }
        let r = &tokens[1..tokens.len()];
        let (x0, r0) = match take_param_number(r) {
            Ok(p) => p,
            Err(e) => return Err(e),
        };
        proof {
            lemma_rest_trans(r0@, r@, tokens@);
        }
        proof {
            lemma_rest_sizes(r0@, tokens@);
        }
        let (x1, r1) = match take_param_zone(r0) {
            Ok(p) => p,
            Err(e) => return Err(e),
        };
        proof {
            lemma_rest_trans(r1@, r0@, tokens@);
        }
        return Ok((CardReferences::FromTop(Box::new(x0), x1), r1));
    }
    if word_is(tokens, 0, "leftovers") {
        proof {
            lemma_subrange_rest(tokens@, 1);
        }
        let r = &tokens[1..tokens.len()];
        return Ok((CardReferences::Leftovers, r));
    }
    if word_is(tokens, 0, "this_card") {
        proof {
            lemma_subrange_rest(tokens@, 1);
        }
        let r = &tokens[1..tokens.len()];
        return Ok((CardReferences::ThisCard, r));
    }
    if word_is(tokens, 0, "filter") {
        proof {
            lemma_subrange_rest(tokens@, 1);
        }
        let r = &tokens[1..tokens.len()];
        let (x0, r0) = match take_param_card_references(r) {
            Ok(p) => p,
            Err(e) => return Err(e),
        };
        proof {
            lemma_rest_trans(r0@, r@, tokens@);
        }
        proof {
            lemma_rest_sizes(r0@, tokens@);
        }
        let (x1, r1) = match take_param_condition(r0) {
            Ok(p) => p,
            Err(e) => return Err(e),
        };
        proof {
            lemma_rest_trans(r1@, r0@, tokens@);
        }
        return Ok((CardReferences::Filter(Box::new(x0), Box::new(x1)), r1));
    }
    match take_param_var(tokens) {
        Ok((x0, r0)) => return Ok((CardReferences::Var(x0), r0)),
        Err(_) => {},
    }
    match &tokens[0] {
        Tokens::Token(s) => Err(Error::UnexpectedToken(String::from_str("CardReferences"), s.clone())),
        Tokens::List(_) => Err(Error::ExpectedString),
    }
}

pub open spec fn spec_take_param_card_references(ts: Seq<TokensV>) -> Result<(CardReferencesV, Seq<TokensV>), ErrorV>
    decreases token_sizes(ts), 1nat,
{
    if ts.len() == 0 {
        Err(ErrorV::ExpectedToken)
    } else {
        match ts[0] {
            TokensV::List(v) => {
                proof {
                    lemma_sizes_head_list(ts, v);
                }
                match spec_parse_card_references(v) {
                    Ok((x, r)) => if r.len() == 0 {
                        Ok((x, ts.subrange(1, ts.len() as int)))
                    } else {
                        Err(ErrorV::RemainingTokens)
                    },
                    Err(e) => Err(e),
                }
            },
            TokensV::Token(_) => spec_parse_card_references(ts),
        }
    }
}

/// Reads a parameter: from the items of a list at the front, which it must use up, or else
/// from the tokens themselves.
pub fn take_param_card_references<'a>(tokens: &'a [Tokens]) -> (res: Result<(CardReferences, &'a [Tokens]), Error>)
    ensures
        match spec_take_param_card_references(tokens_views(tokens@)) {
            Ok((v, rest)) => res matches Ok((x, r)) && x@ == v && tokens_views(r@) == rest
                && is_rest_of(r@, tokens@),
            Err(e) => res matches Err(err) && err@ == e,
        },
    decreases token_sizes(tokens_views(tokens@)), 1nat,
{
    proof {
        lemma_views(tokens@);
    }
    if tokens.len() == 0 {
        return Err(Error::ExpectedToken);
    }
    match &tokens[0] {
        Tokens::List(v) => {
            proof {
                lemma_sizes_head_list(tokens_views(tokens@), tokens_views(v@));
            }
            match parse_card_references(v.as_slice()) {
                Ok((x, r)) => {
                    if r.len() == 0 {
                        proof {
                            lemma_subrange_rest(tokens@, 1);
                        }
                        Ok((x, &tokens[1..tokens.len()]))
                    } else {
                        Err(Error::RemainingTokens)
                    }
                },
                Err(e) => Err(e),
            }
        },
        Tokens::Token(_) => parse_card_references(tokens),
    }
}

pub open spec fn spec_parse_condition(ts: Seq<TokensV>) -> Result<(ConditionV, Seq<TokensV>), ErrorV>
    decreases token_sizes(ts), 0nat,
{
    if ts.len() == 0 {
        Err(ErrorV::ExpectedToken)
    } else if word_at(ts, 1) == Some("and"@) {
        proof {
            lemma_sizes_prefix(ts, 1);
        }
        match spec_take_param_condition(ts.subrange(0, 1)) {
            Err(e) => Err(e),
            Ok((x0, _r0)) => {
        proof {
            lemma_sizes_suffix(ts, 2);
        }
                match spec_take_param_condition(ts.subrange(2, ts.len() as int)) {
                    Err(e) => Err(e),
                    Ok((x1, r1)) => Ok((ConditionV::And(Box::new(x0), Box::new(x1)), r1)),
                }
            },
        }
    } else if word_at(ts, 1) == Some("=="@) {
        proof {
            lemma_sizes_prefix(ts, 1);
        }
        match spec_take_param_number(ts.subrange(0, 1)) {
            Err(e) => Err(e),
            Ok((x0, _r0)) => {
        proof {
            lemma_sizes_suffix(ts, 2);
        }
                match spec_take_param_number(ts.subrange(2, ts.len() as int)) {
                    Err(e) => Err(e),
                    Ok((x1, r1)) => Ok((ConditionV::Equals(x0, x1), r1)),
                }
            },
        }
    } else if word_at(ts, 1) == Some(">="@) {
        proof {
            lemma_sizes_prefix(ts, 1);
        }
        match spec_take_param_number(ts.subrange(0, 1)) {
            Err(e) => Err(e),
            Ok((x0, _r0)) => {
        proof {
            lemma_sizes_suffix(ts, 2);
        }
                match spec_take_param_number(ts.subrange(2, ts.len() as int)) {
                    Err(e) => Err(e),
                    Ok((x1, r1)) => Ok((ConditionV::GreaterThanEquals(x0, x1), r1)),
                }
            },
        }
    } else if word_at(ts, 1) == Some("<="@) {
        proof {
            lemma_sizes_prefix(ts, 1);
        }
        match spec_take_param_number(ts.subrange(0, 1)) {
            Err(e) => Err(e),
            Ok((x0, _r0)) => {
        proof {
            lemma_sizes_suffix(ts, 2);
        }
                match spec_take_param_number(ts.subrange(2, ts.len() as int)) {
                    Err(e) => Err(e),
                    Ok((x1, r1)) => Ok((ConditionV::LessThanEquals(x0, x1), r1)),
                }
            },
        }
    } else if word_at(ts, 1) == Some("or"@) {
        proof {
            lemma_sizes_prefix(ts, 1);
        }
        match spec_take_param_condition(ts.subrange(0, 1)) {
            Err(e) => Err(e),
            Ok((x0, _r0)) => {
        proof {
            lemma_sizes_suffix(ts, 2);
        }
                match spec_take_param_condition(ts.subrange(2, ts.len() as int)) {
                    Err(e) => Err(e),
                    Ok((x1, r1)) => Ok((ConditionV::Or(Box::new(x0), Box::new(x1)), r1)),
                }
            },
        }
    } else if word_at(ts, 0) == Some("all"@) {
        proof {
            lemma_sizes_suffix(ts, 1);
        }
        match spec_take_param_card_references(ts.subrange(1, ts.len() as int)) {
            Err(e) => Err(e),
            Ok((x0, r0)) => {
                if token_sizes(r0) < token_sizes(ts) {
                    match spec_take_param_condition(r0) {
                        Err(e) => Err(e),
                        Ok((x1, r1)) => {
                            Ok((ConditionV::All(x0, Box::new(x1)), r1))
                        },
                    }
                } else {
                    Err(ErrorV::RemainingTokens)
                }
            },
        }
    } else if word_at(ts, 0) == Some("any"@) {
        proof {
            lemma_sizes_suffix(ts, 1);
        }
        match spec_take_param_card_references(ts.subrange(1, ts.len() as int)) {
            Err(e) => Err(e),
            Ok((x0, r0)) => {
                if token_sizes(r0) < token_sizes(ts) {
                    match spec_take_param_condition(r0) {
                        Err(e) => Err(e),
                        Ok((x1, r1)) => {
                            Ok((ConditionV::Any(x0, Box::new(x1)), r1))
                        },
                    }
                } else {
                    Err(ErrorV::RemainingTokens)
                }
            },
        }
    } else if word_at(ts, 0) == Some("anything"@) {
        Ok((ConditionV::Anything, ts.subrange(1, ts.len() as int)))
    } else if word_at(ts, 0) == Some("exists"@) {
        proof {
            lemma_sizes_suffix(ts, 1);
        }
        match spec_take_param_card_references(ts.subrange(1, ts.len() as int)) {
            Err(e) => Err(e),
            Ok((x0, r0)) => {
                Ok((ConditionV::Exists(x0), r0))
            },
        }
    } else if word_at(ts, 0) == Some("false"@) {
        Ok((ConditionV::False, ts.subrange(1, ts.len() as int)))
    } else if word_at(ts, 0) == Some("has_cheers"@) {
        Ok((ConditionV::HasCheers, ts.subrange(1, ts.len() as int)))
    } else if word_at(ts, 0) == Some("is_attribute_buzz"@) {
        Ok((ConditionV::IsAttributeBuzz, ts.subrange(1, ts.len() as int)))
    } else if word_at(ts, 0) == Some("is_color"@) {
        match spec_take_param_color(ts.subrange(1, ts.len() as int)) {
            Err(e) => Err(e),
            Ok((x0, r0)) => {
                Ok((ConditionV::IsColor(x0), r0))
            },
        }
    } else if word_at(ts, 0) == Some("is_cheer"@) {
        Ok((ConditionV::IsCheer, ts.subrange(1, ts.len() as int)))
    } else if word_at(ts, 0) == Some("is_even"@) {
        proof {
            lemma_sizes_suffix(ts, 1);
        }
        match spec_take_param_number(ts.subrange(1, ts.len() as int)) {
            Err(e) => Err(e),
            Ok((x0, r0)) => {
                Ok((ConditionV::IsEven(x0), r0))
            },
        }
    } else if word_at(ts, 0) == Some("is_in_zone"@) {
        match spec_take_param_zone(ts.subrange(1, ts.len() as int)) {
            Err(e) => Err(e),
            Ok((x0, r0)) => {
                Ok((ConditionV::IsInZone(x0), r0))
            },
        }
    } else if word_at(ts, 0) == Some("is_level_first"@) {
        Ok((ConditionV::IsLevelFirst, ts.subrange(1, ts.len() as int)))
    } else if word_at(ts, 0) == Some("is_level_second"@) {
        Ok((ConditionV::IsLevelSecond, ts.subrange(1, ts.len() as int)))
    } else if word_at(ts, 0) == Some("is_member"@) {
        Ok((ConditionV::IsMember, ts.subrange(1, ts.len() as int)))
    } else if word_at(ts, 0) == Some("is_named_azki"@) {
        Ok((ConditionV::IsNamedAzki, ts.subrange(1, ts.len() as int)))
    } else if word_at(ts, 0) == Some("is_named_omaru_polka"@) {
        Ok((ConditionV::IsNamedOmaruPolka, ts.subrange(1, ts.len() as int)))
    } else if word_at(ts, 0) == Some("is_named_tokino_sora"@) {
        Ok((ConditionV::IsNamedTokinoSora, ts.subrange(1, ts.len() as int)))
    } else if word_at(ts, 0) == Some("is_named_usada_pekora"@) {
        Ok((ConditionV::IsNamedUsadaPekora, ts.subrange(1, ts.len() as int)))
    } else if word_at(ts, 0) == Some("is_card"@) {
        match spec_take_param_card_reference(ts.subrange(1, ts.len() as int)) {
            Err(e) => Err(e),
            Ok((x0, r0)) => {
                Ok((ConditionV::IsCard(x0), r0))
            },
        }
    } else if word_at(ts, 0) == Some("is_not_card"@) {
        match spec_take_param_card_reference(ts.subrange(1, ts.len() as int)) {
            Err(e) => Err(e),
            Ok((x0, r0)) => {
                Ok((ConditionV::IsNotCard(x0), r0))
            },
        }
    } else if word_at(ts, 0) == Some("is_odd"@) {
        proof {
            lemma_sizes_suffix(ts, 1);
        }
        match spec_take_param_number(ts.subrange(1, ts.len() as int)) {
            Err(e) => Err(e),
            Ok((x0, r0)) => {
                Ok((ConditionV::IsOdd(x0), r0))
            },
        }
    } else if word_at(ts, 0) == Some("is_support_limited"@) {
        Ok((ConditionV::IsSupportLimited, ts.subrange(1, ts.len() as int)))
    } else if word_at(ts, 0) == Some("not"@) {
        proof {
            lemma_sizes_suffix(ts, 1);
        }
        match spec_take_param_condition(ts.subrange(1, ts.len() as int)) {
            Err(e) => Err(e),
            Ok((x0, r0)) => {
                Ok((ConditionV::Not(Box::new(x0)), r0))
            },
        }
    } else if word_at(ts, 0) == Some("true"@) {
        Ok((ConditionV::True, ts.subrange(1, ts.len() as int)))
    } else if word_at(ts, 0) == Some("yours"@) {
        Ok((ConditionV::Yours, ts.subrange(1, ts.len() as int)))
    } else {
        match spec_take_param_var(ts) {
            Ok((x0, r0)) => Ok((ConditionV::Var(x0), r0)),
            Err(_) => {
                match word_at(ts, 0) {
                    Some(s) => Err(ErrorV::UnexpectedToken("Condition"@, s)),
                    None => Err(ErrorV::ExpectedString),
                }
            },
        }
    }
}

/// Reads a Condition from the front of the tokens.
#[verifier::rlimit(80)]
#[verifier::spinoff_prover]
pub fn parse_condition<'a>(tokens: &'a [Tokens]) -> (res: Result<(Condition, &'a [Tokens]), Error>)
    ensures
        match spec_parse_condition(tokens_views(tokens@)) {
            Ok((v, rest)) => res matches Ok((x, r)) && x@ == v && tokens_views(r@) == rest
                && is_rest_of(r@, tokens@),
            Err(e) => res matches Err(err) && err@ == e,
        },
    decreases token_sizes(tokens_views(tokens@)), 0nat,
{
    proof {
        lemma_views(tokens@);
        reveal_strlit("all");
        reveal_strlit("and");
        reveal_strlit("any");
        reveal_strlit("anything");
        reveal_strlit("==");
        reveal_strlit("exists");
        reveal_strlit("false");
        reveal_strlit(">=");
        reveal_strlit("has_cheers");
        reveal_strlit("is_attribute_buzz");
        reveal_strlit("is_color");
        reveal_strlit("is_cheer");
        reveal_strlit("is_even");
        reveal_strlit("is_in_zone");
        reveal_strlit("is_level_first");
        reveal_strlit("is_level_second");
        reveal_strlit("is_member");
        reveal_strlit("is_named_azki");
        reveal_strlit("is_named_omaru_polka");
        reveal_strlit("is_named_tokino_sora");
        reveal_strlit("is_named_usada_pekora");
        reveal_strlit("is_card");
        reveal_strlit("is_not_card");
        reveal_strlit("is_odd");
        reveal_strlit("is_support_limited");
        reveal_strlit("<=");
        reveal_strlit("not");
        reveal_strlit("or");
        reveal_strlit("true");
        reveal_strlit("yours");
    }
    if tokens.len() == 0 {
        return Err(Error::ExpectedToken);
    }
    if word_is(tokens, 1, "and") {
        proof {
            lemma_first_of(tokens@);
            lemma_subrange_rest(tokens@, 2);
        }
        let first = &tokens[0..1];
        let (x0, _r0) = match take_param_condition(first) {
            Ok(p) => p,
            Err(e) => return Err(e),
        };
        let second = &tokens[2..tokens.len()];
        let (x1, r1) = match take_param_condition(second) {
            Ok(p) => p,
            Err(e) => return Err(e),
        };
        proof {
            lemma_rest_trans(r1@, second@, tokens@);
        }
        return Ok((Condition::And(Box::new(x0), Box::new(x1)), r1));
    }
    if word_is(tokens, 1, "==") {
        proof {
            lemma_first_of(tokens@);
            lemma_subrange_rest(tokens@, 2);
        }
        let first = &tokens[0..1];
        let (x0, _r0) = match take_param_number(first) {
            Ok(p) => p,
            Err(e) => return Err(e),
        };
        let second = &tokens[2..tokens.len()];
        let (x1, r1) = match take_param_number(second) {
            Ok(p) => p,
            Err(e) => return Err(e),
        };
        proof {
            lemma_rest_trans(r1@, second@, tokens@);
        }
        return Ok((Condition::Equals(x0, x1), r1));
    }
    if word_is(tokens, 1, ">=") {
        proof {
            lemma_first_of(tokens@);
            lemma_subrange_rest(tokens@, 2);
        }
        let first = &tokens[0..1];
        let (x0, _r0) = match take_param_number(first) {
            Ok(p) => p,
            Err(e) => return Err(e),
        };
        let second = &tokens[2..tokens.len()];
        let (x1, r1) = match take_param_number(second) {
            Ok(p) => p,
            Err(e) => return Err(e),
        };
        proof {
            lemma_rest_trans(r1@, second@, tokens@);
        }
        return Ok((Condition::GreaterThanEquals(x0, x1), r1));
    }
    if word_is(tokens, 1, "<=") {
        proof {
            lemma_first_of(tokens@);
            lemma_subrange_rest(tokens@, 2);
        }
        let first = &tokens[0..1];
        let (x0, _r0) = match take_param_number(first) {
            Ok(p) => p,
            Err(e) => return Err(e),
        };
        let second = &tokens[2..tokens.len()];
        let (x1, r1) = match take_param_number(second) {
            Ok(p) => p,
            Err(e) => return Err(e),
        };
        proof {
            lemma_rest_trans(r1@, second@, tokens@);
        }
        return Ok((Condition::LessThanEquals(x0, x1), r1));
    }
    if word_is(tokens, 1, "or") {
        proof {
            lemma_first_of(tokens@);
            lemma_subrange_rest(tokens@, 2);
        }
        let first = &tokens[0..1];
        let (x0, _r0) = match take_param_condition(first) {
            Ok(p) => p,
            Err(e) => return Err(e),
        };
        let second = &tokens[2..tokens.len()];
        let (x1, r1) = match take_param_condition(second) {
            Ok(p) => p,
            Err(e) => return Err(e),
        };
        proof {
            lemma_rest_trans(r1@, second@, tokens@);
        }
        return Ok((Condition::Or(Box::new(x0), Box::new(x1)), r1));
    }
    if word_is(tokens, 0, "all") {
        proof {
            lemma_subrange_rest(tokens@, 1);
        }
        let r = &tokens[1..tokens.len()];
        let (x0, r0) = match take_param_card_references(r) {
            Ok(p) => p,
            Err(e) => return Err(e),
        };
        proof {
            lemma_rest_trans(r0@, r@, tokens@);
        }
        proof {
            lemma_rest_sizes(r0@, tokens@);
        }
        let (x1, r1) = match take_param_condition(r0) {
            Ok(p) => p,
            Err(e) => return Err(e),
        };
        proof {
            lemma_rest_trans(r1@, r0@, tokens@);
        }
        return Ok((Condition::All(x0, Box::new(x1)), r1));
    }
    if word_is(tokens, 0, "any") {
        proof {
            lemma_subrange_rest(tokens@, 1);
        }
        let r = &tokens[1..tokens.len()];
        let (x0, r0) = match take_param_card_references(r) {
            Ok(p) => p,
            Err(e) => return Err(e),
        };
        proof {
            lemma_rest_trans(r0@, r@, tokens@);
        }
        proof {
            lemma_rest_sizes(r0@, tokens@);
        }
        let (x1, r1) = match take_param_condition(r0) {
            Ok(p) => p,
            Err(e) => return Err(e),
        };
        proof {
            lemma_rest_trans(r1@, r0@, tokens@);
        }
        return Ok((Condition::Any(x0, Box::new(x1)), r1));
    }
    if word_is(tokens, 0, "anything") {
        proof {
            lemma_subrange_rest(tokens@, 1);
        }
        let r = &tokens[1..tokens.len()];
        return Ok((Condition::Anything, r));
    }
    if word_is(tokens, 0, "exists") {
        proof {
            lemma_subrange_rest(tokens@, 1);
        }
        let r = &tokens[1..tokens.len()];
        let (x0, r0) = match take_param_card_references(r) {
            Ok(p) => p,
            Err(e) => return Err(e),
        };
        proof {
            lemma_rest_trans(r0@, r@, tokens@);
        }
        return Ok((Condition::Exists(x0), r0));
    }
    if word_is(tokens, 0, "false") {
        proof {
            lemma_subrange_rest(tokens@, 1);
        }
        let r = &tokens[1..tokens.len()];
        return Ok((Condition::False, r));
    }
    if word_is(tokens, 0, "has_cheers") {
        proof {
            lemma_subrange_rest(tokens@, 1);
        }
        let r = &tokens[1..tokens.len()];
        return Ok((Condition::HasCheers, r));
    }
    if word_is(tokens, 0, "is_attribute_buzz") {
        proof {
            lemma_subrange_rest(tokens@, 1);
        }
        let r = &tokens[1..tokens.len()];
        return Ok((Condition::IsAttributeBuzz, r));
    }
    if word_is(tokens, 0, "is_color") {
        proof {
            lemma_subrange_rest(tokens@, 1);
        }
        let r = &tokens[1..tokens.len()];
        let (x0, r0) = match take_param_color(r) {
            Ok(p) => p,
            Err(e) => return Err(e),
        };
        proof {
            lemma_rest_trans(r0@, r@, tokens@);
        }
        return Ok((Condition::IsColor(x0), r0));
    }
    if word_is(tokens, 0, "is_cheer") {
        proof {
            lemma_subrange_rest(tokens@, 1);
        }
        let r = &tokens[1..tokens.len()];
        return Ok((Condition::IsCheer, r));
    }
    if word_is(tokens, 0, "is_even") {
        proof {
            lemma_subrange_rest(tokens@, 1);
        }
        let r = &tokens[1..tokens.len()];
        let (x0, r0) = match take_param_number(r) {
            Ok(p) => p,
            Err(e) => return Err(e),
        };
        proof {
            lemma_rest_trans(r0@, r@, tokens@);
        }
        return Ok((Condition::IsEven(x0), r0));
    }
    if word_is(tokens, 0, "is_in_zone") {
        proof {
            lemma_subrange_rest(tokens@, 1);
        }
        let r = &tokens[1..tokens.len()];
        let (x0, r0) = match take_param_zone(r) {
            Ok(p) => p,
            Err(e) => return Err(e),
        };
        proof {
            lemma_rest_trans(r0@, r@, tokens@);
        }
        return Ok((Condition::IsInZone(x0), r0));
    }
    if word_is(tokens, 0, "is_level_first") {
        proof {
            lemma_subrange_rest(tokens@, 1);
        }
        let r = &tokens[1..tokens.len()];
        return Ok((Condition::IsLevelFirst, r));
    }
    if word_is(tokens, 0, "is_level_second") {
        proof {
            lemma_subrange_rest(tokens@, 1);
        }
        let r = &tokens[1..tokens.len()];
        return Ok((Condition::IsLevelSecond, r));
    }
    if word_is(tokens, 0, "is_member") {
        proof {
            lemma_subrange_rest(tokens@, 1);
        }
        let r = &tokens[1..tokens.len()];
        return Ok((Condition::IsMember, r));
    }
    if word_is(tokens, 0, "is_named_azki") {
        proof {
            lemma_subrange_rest(tokens@, 1);
        }
        let r = &tokens[1..tokens.len()];
        return Ok((Condition::IsNamedAzki, r));
    }
    if word_is(tokens, 0, "is_named_omaru_polka") {
        proof {
            lemma_subrange_rest(tokens@, 1);
        }
        let r = &tokens[1..tokens.len()];
        return Ok((Condition::IsNamedOmaruPolka, r));
    }
    if word_is(tokens, 0, "is_named_tokino_sora") {
        proof {
            lemma_subrange_rest(tokens@, 1);
        }
        let r = &tokens[1..tokens.len()];
        return Ok((Condition::IsNamedTokinoSora, r));
    }
    if word_is(tokens, 0, "is_named_usada_pekora") {
        proof {
            lemma_subrange_rest(tokens@, 1);
        }
        let r = &tokens[1..tokens.len()];
        return Ok((Condition::IsNamedUsadaPekora, r));
    }
    if word_is(tokens, 0, "is_card") {
        proof {
            lemma_subrange_rest(tokens@, 1);
        }
        let r = &tokens[1..tokens.len()];
        let (x0, r0) = match take_param_card_reference(r) {
            Ok(p) => p,
            Err(e) => return Err(e),
        };
        proof {
            lemma_rest_trans(r0@, r@, tokens@);
        }
        return Ok((Condition::IsCard(x0), r0));
    }
    if word_is(tokens, 0, "is_not_card") {
        proof {
            lemma_subrange_rest(tokens@, 1);
        }
        let r = &tokens[1..tokens.len()];
        let (x0, r0) = match take_param_card_reference(r) {
            Ok(p) => p,
            Err(e) => return Err(e),
        };
        proof {
            lemma_rest_trans(r0@, r@, tokens@);
        }
        return Ok((Condition::IsNotCard(x0), r0));
    }
    if word_is(tokens, 0, "is_odd") {
        proof {
            lemma_subrange_rest(tokens@, 1);
        }
        let r = &tokens[1..tokens.len()];
        let (x0, r0) = match take_param_number(r) {
            Ok(p) => p,
            Err(e) => return Err(e),
        };
        proof {
            lemma_rest_trans(r0@, r@, tokens@);
        }
        return Ok((Condition::IsOdd(x0), r0));
    }
    if word_is(tokens, 0, "is_support_limited") {
        proof {
            lemma_subrange_rest(tokens@, 1);
        }
        let r = &tokens[1..tokens.len()];
        return Ok((Condition::IsSupportLimited, r));
    }
    if word_is(tokens, 0, "not") {
        proof {
            lemma_subrange_rest(tokens@, 1);
        }
        let r = &tokens[1..tokens.len()];
        let (x0, r0) = match take_param_condition(r) {
            Ok(p) => p,
            Err(e) => return Err(e),
        };
        proof {
            lemma_rest_trans(r0@, r@, tokens@);
        }
        return Ok((Condition::Not(Box::new(x0)), r0));
    }
    if word_is(tokens, 0, "true") {
        proof {
            lemma_subrange_rest(tokens@, 1);
        }
        let r = &tokens[1..tokens.len()];
        return Ok((Condition::True, r));
    }
    if word_is(tokens, 0, "yours") {
        proof {
            lemma_subrange_rest(tokens@, 1);
        }
        let r = &tokens[1..tokens.len()];
        return Ok((Condition::Yours, r));
    }
    match take_param_var(tokens) {
        Ok((x0, r0)) => return Ok((Condition::Var(x0), r0)),
        Err(_) => {},
    }
    match &tokens[0] {
        Tokens::Token(s) => Err(Error::UnexpectedToken(String::from_str("Condition"), s.clone())),
        Tokens::List(_) => Err(Error::ExpectedString),
    }
}

pub open spec fn spec_take_param_condition(ts: Seq<TokensV>) -> Result<(ConditionV, Seq<TokensV>), ErrorV>
    decreases token_sizes(ts), 1nat,
{
    if ts.len() == 0 {
        Err(ErrorV::ExpectedToken)
    } else {
        match ts[0] {
            TokensV::List(v) => {
                proof {
                    lemma_sizes_head_list(ts, v);
                }
                match spec_parse_condition(v) {
                    Ok((x, r)) => if r.len() == 0 {
                        Ok((x, ts.subrange(1, ts.len() as int)))
                    } else {
                        Err(ErrorV::RemainingTokens)
                    },
                    Err(e) => Err(e),
                }
            },
            TokensV::Token(_) => spec_parse_condition(ts),
        }
    }
}

/// Reads a parameter: from the items of a list at the front, which it must use up, or else
/// from the tokens themselves.
pub fn take_param_condition<'a>(tokens: &'a [Tokens]) -> (res: Result<(Condition, &'a [Tokens]), Error>)
    ensures
        match spec_take_param_condition(tokens_views(tokens@)) {
            Ok((v, rest)) => res matches Ok((x, r)) && x@ == v && tokens_views(r@) == rest
                && is_rest_of(r@, tokens@),
            Err(e) => res matches Err(err) && err@ == e,
        },
    decreases token_sizes(tokens_views(tokens@)), 1nat,
{
    proof {
        lemma_views(tokens@);
    }
    if tokens.len() == 0 {
        return Err(Error::ExpectedToken);
    }
    match &tokens[0] {
        Tokens::List(v) => {
            proof {
                lemma_sizes_head_list(tokens_views(tokens@), tokens_views(v@));
            }
            match parse_condition(v.as_slice()) {
                Ok((x, r)) => {
                    if r.len() == 0 {
                        proof {
                            lemma_subrange_rest(tokens@, 1);
                        }
                        Ok((x, &tokens[1..tokens.len()]))
                    } else {
                        Err(Error::RemainingTokens)
                    }
                },
                Err(e) => Err(e),
            }
        },
        Tokens::Token(_) => parse_condition(tokens),
    }
}

pub open spec fn spec_parse_let_value(ts: Seq<TokensV>) -> Result<(LetValueV, Seq<TokensV>), ErrorV>
{
    if ts.len() == 0 {
        Err(ErrorV::ExpectedToken)
    } else if word_at(ts, 0) == Some("optional_activate"@) {
        Ok((LetValueV::OptionalActivate, ts.subrange(1, ts.len() as int)))
    } else if word_at(ts, 0) == Some("roll_dice"@) {
        Ok((LetValueV::RollDice, ts.subrange(1, ts.len() as int)))
    } else if word_at(ts, 0) == Some("select_any"@) {
        match spec_take_param_card_references(ts.subrange(1, ts.len() as int)) {
            Err(e) => Err(e),
            Ok((x0, r0)) => {
                if token_sizes(r0) < token_sizes(ts) {
                    match spec_take_param_condition(r0) {
                        Err(e) => Err(e),
                        Ok((x1, r1)) => {
                            Ok((LetValueV::SelectAny(Box::new(x0), Box::new(x1)), r1))
                        },
                    }
                } else {
                    Err(ErrorV::RemainingTokens)
                }
            },
        }
    } else if word_at(ts, 0) == Some("select_one"@) {
        match spec_take_param_card_references(ts.subrange(1, ts.len() as int)) {
            Err(e) => Err(e),
            Ok((x0, r0)) => {
                if token_sizes(r0) < token_sizes(ts) {
                    match spec_take_param_condition(r0) {
                        Err(e) => Err(e),
                        Ok((x1, r1)) => {
                            Ok((LetValueV::SelectOne(Box::new(x0), Box::new(x1)), r1))
                        },
                    }
                } else {
                    Err(ErrorV::RemainingTokens)
                }
            },
        }
    } else if word_at(ts, 0) == Some("select_number_between"@) {
        match spec_take_param_number(ts.subrange(1, ts.len() as int)) {
            Err(e) => Err(e),
            Ok((x0, r0)) => {
                if token_sizes(r0) < token_sizes(ts) {
                    match spec_take_param_number(r0) {
                        Err(e) => Err(e),
                        Ok((x1, r1)) => {
                            Ok((LetValueV::SelectNumberBetween(Box::new(x0), Box::new(x1)), r1))
                        },
                    }
                } else {
                    Err(ErrorV::RemainingTokens)
                }
            },
        }
    } else if word_at(ts, 0) == Some("select_up_to"@) {
        match spec_take_param_number(ts.subrange(1, ts.len() as int)) {
            Err(e) => Err(e),
            Ok((x0, r0)) => {
                if token_sizes(r0) < token_sizes(ts) {
                    match spec_take_param_card_references(r0) {
                        Err(e) => Err(e),
                        Ok((x1, r1)) => {
                            if token_sizes(r1) < token_sizes(ts) {
                                match spec_take_param_condition(r1) {
                                    Err(e) => Err(e),
                                    Ok((x2, r2)) => {
                                        Ok((LetValueV::SelectUpTo(Box::new(x0), Box::new(x1), Box::new(x2)), r2))
                                    },
                                }
                            } else {
                                Err(ErrorV::RemainingTokens)
                            }
                        },
                    }
                } else {
                    Err(ErrorV::RemainingTokens)
                }
            },
        }
    } else {
        match word_at(ts, 0) {
            Some(s) => Err(ErrorV::UnexpectedToken("LetValue"@, s)),
            None => Err(ErrorV::ExpectedString),
        }
    }
}

/// Reads a LetValue from the front of the tokens.
pub fn parse_let_value<'a>(tokens: &'a [Tokens]) -> (res: Result<(LetValue, &'a [Tokens]), Error>)
    ensures
        match spec_parse_let_value(tokens_views(tokens@)) {
            Ok((v, rest)) => res matches Ok((x, r)) && x@ == v && tokens_views(r@) == rest
                && is_rest_of(r@, tokens@),
            Err(e) => res matches Err(err) && err@ == e,
        },
{
    proof {
        lemma_views(tokens@);
        reveal_strlit("optional_activate");
        reveal_strlit("roll_dice");
        reveal_strlit("select_any");
        reveal_strlit("select_one");
        reveal_strlit("select_number_between");
        reveal_strlit("select_up_to");
    }
    if tokens.len() == 0 {
        return Err(Error::ExpectedToken);
    }
    if word_is(tokens, 0, "optional_activate") {
        proof {
            lemma_subrange_rest(tokens@, 1);
        }
        let r = &tokens[1..tokens.len()];
        return Ok((LetValue::OptionalActivate, r));
    }
    if word_is(tokens, 0, "roll_dice") {
        proof {
            lemma_subrange_rest(tokens@, 1);
        }
        let r = &tokens[1..tokens.len()];
        return Ok((LetValue::RollDice, r));
    }
    if word_is(tokens, 0, "select_any") {
        proof {
            lemma_subrange_rest(tokens@, 1);
        }
        let r = &tokens[1..tokens.len()];
        let (x0, r0) = match take_param_card_references(r) {
            Ok(p) => p,
            Err(e) => return Err(e),
        };
        proof {
            lemma_rest_trans(r0@, r@, tokens@);
        }
        proof {
            lemma_rest_sizes(r0@, tokens@);
        }
        let (x1, r1) = match take_param_condition(r0) {
            Ok(p) => p,
            Err(e) => return Err(e),
        };
        proof {
            lemma_rest_trans(r1@, r0@, tokens@);
        }
        return Ok((LetValue::SelectAny(Box::new(x0), Box::new(x1)), r1));
    }
    if word_is(tokens, 0, "select_one") {
        proof {
            lemma_subrange_rest(tokens@, 1);
        }
        let r = &tokens[1..tokens.len()];
        let (x0, r0) = match take_param_card_references(r) {
            Ok(p) => p,
            Err(e) => return Err(e),
        };
        proof {
            lemma_rest_trans(r0@, r@, tokens@);
        }
        proof {
            lemma_rest_sizes(r0@, tokens@);
        }
        let (x1, r1) = match take_param_condition(r0) {
            Ok(p) => p,
            Err(e) => return Err(e),
        };
        proof {
            lemma_rest_trans(r1@, r0@, tokens@);
        }
        return Ok((LetValue::SelectOne(Box::new(x0), Box::new(x1)), r1));
    }
    if word_is(tokens, 0, "select_number_between") {
        proof {
            lemma_subrange_rest(tokens@, 1);
        }
        let r = &tokens[1..tokens.len()];
        let (x0, r0) = match take_param_number(r) {
            Ok(p) => p,
            Err(e) => return Err(e),
        };
        proof {
            lemma_rest_trans(r0@, r@, tokens@);
        }
        proof {
            lemma_rest_sizes(r0@, tokens@);
        }
        let (x1, r1) = match take_param_number(r0) {
            Ok(p) => p,
            Err(e) => return Err(e),
        };
        proof {
            lemma_rest_trans(r1@, r0@, tokens@);
        }
        return Ok((LetValue::SelectNumberBetween(Box::new(x0), Box::new(x1)), r1));
    }
    if word_is(tokens, 0, "select_up_to") {
        proof {
            lemma_subrange_rest(tokens@, 1);
        }
        let r = &tokens[1..tokens.len()];
        let (x0, r0) = match take_param_number(r) {
            Ok(p) => p,
            Err(e) => return Err(e),
        };
        proof {
            lemma_rest_trans(r0@, r@, tokens@);
        }
        proof {
            lemma_rest_sizes(r0@, tokens@);
        }
        let (x1, r1) = match take_param_card_references(r0) {
            Ok(p) => p,
            Err(e) => return Err(e),
        };
        proof {
            lemma_rest_trans(r1@, r0@, tokens@);
        }
        proof {
            lemma_rest_sizes(r1@, tokens@);
        }
        let (x2, r2) = match take_param_condition(r1) {
            Ok(p) => p,
            Err(e) => return Err(e),
        };
        proof {
            lemma_rest_trans(r2@, r1@, tokens@);
        }
        return Ok((LetValue::SelectUpTo(Box::new(x0), Box::new(x1), Box::new(x2)), r2));
    }
    match &tokens[0] {
        Tokens::Token(s) => Err(Error::UnexpectedToken(String::from_str("LetValue"), s.clone())),
        Tokens::List(_) => Err(Error::ExpectedString),
    }
}

pub open spec fn spec_take_param_let_value(ts: Seq<TokensV>) -> Result<(LetValueV, Seq<TokensV>), ErrorV>
{
    if ts.len() == 0 {
        Err(ErrorV::ExpectedToken)
    } else {
        match ts[0] {
            TokensV::List(v) => {
                match spec_parse_let_value(v) {
                    Ok((x, r)) => if r.len() == 0 {
                        Ok((x, ts.subrange(1, ts.len() as int)))
                    } else {
                        Err(ErrorV::RemainingTokens)
                    },
                    Err(e) => Err(e),
                }
            },
            TokensV::Token(_) => spec_parse_let_value(ts),
        }
    }
}

/// Reads a parameter: from the items of a list at the front, which it must use up, or else
/// from the tokens themselves.
pub fn take_param_let_value<'a>(tokens: &'a [Tokens]) -> (res: Result<(LetValue, &'a [Tokens]), Error>)
    ensures
        match spec_take_param_let_value(tokens_views(tokens@)) {
            Ok((v, rest)) => res matches Ok((x, r)) && x@ == v && tokens_views(r@) == rest
                && is_rest_of(r@, tokens@),
            Err(e) => res matches Err(err) && err@ == e,
        },
{
    proof {
        lemma_views(tokens@);
    }
    if tokens.len() == 0 {
        return Err(Error::ExpectedToken);
    }
    match &tokens[0] {
        Tokens::List(v) => {
            proof {
                lemma_sizes_head_list(tokens_views(tokens@), tokens_views(v@));
            }
            match parse_let_value(v.as_slice()) {
                Ok((x, r)) => {
                    if r.len() == 0 {
                        proof {
                            lemma_subrange_rest(tokens@, 1);
                        }
                        Ok((x, &tokens[1..tokens.len()]))
                    } else {
                        Err(Error::RemainingTokens)
                    }
                },
                Err(e) => Err(e),
            }
        },
        Tokens::Token(_) => parse_let_value(tokens),
    }
}

pub open spec fn spec_parse_life_time(ts: Seq<TokensV>) -> Result<(LifeTimeV, Seq<TokensV>), ErrorV>
{
    if ts.len() == 0 {
        Err(ErrorV::ExpectedToken)
    } else if word_at(ts, 0) == Some("this_game"@) {
        Ok((LifeTimeV::ThisGame, ts.subrange(1, ts.len() as int)))
    } else if word_at(ts, 0) == Some("this_turn"@) {
        Ok((LifeTimeV::ThisTurn, ts.subrange(1, ts.len() as int)))
    } else if word_at(ts, 0) == Some("next_turn"@) {
        match spec_take_param_player(ts.subrange(1, ts.len() as int)) {
            Err(e) => Err(e),
            Ok((x0, r0)) => {
                Ok((LifeTimeV::NextTurn(x0), r0))
            },
        }
    } else if word_at(ts, 0) == Some("this_step"@) {
        Ok((LifeTimeV::ThisStep, ts.subrange(1, ts.len() as int)))
    } else if word_at(ts, 0) == Some("this_art"@) {
        Ok((LifeTimeV::ThisArt, ts.subrange(1, ts.len() as int)))
    } else if word_at(ts, 0) == Some("this_effect"@) {
        Ok((LifeTimeV::ThisEffect, ts.subrange(1, ts.len() as int)))
    } else if word_at(ts, 0) == Some("until_removed"@) {
        Ok((LifeTimeV::UntilRemoved, ts.subrange(1, ts.len() as int)))
    } else if word_at(ts, 0) == Some("while_attached"@) {
        match spec_take_param_card_reference(ts.subrange(1, ts.len() as int)) {
            Err(e) => Err(e),
            Ok((x0, r0)) => {
                Ok((LifeTimeV::WhileAttached(x0), r0))
            },
        }
    } else {
        match word_at(ts, 0) {
            Some(s) => Err(ErrorV::UnexpectedToken("LifeTime"@, s)),
            None => Err(ErrorV::ExpectedString),
        }
    }
}

/// Reads a LifeTime from the front of the tokens.
pub fn parse_life_time<'a>(tokens: &'a [Tokens]) -> (res: Result<(LifeTime, &'a [Tokens]), Error>)
    ensures
        match spec_parse_life_time(tokens_views(tokens@)) {
            Ok((v, rest)) => res matches Ok((x, r)) && x@ == v && tokens_views(r@) == rest
                && is_rest_of(r@, tokens@),
            Err(e) => res matches Err(err) && err@ == e,
        },
{
    proof {
        lemma_views(tokens@);
        reveal_strlit("this_game");
        reveal_strlit("this_turn");
        reveal_strlit("next_turn");
        reveal_strlit("this_step");
        reveal_strlit("this_art");
        reveal_strlit("this_effect");
        reveal_strlit("until_removed");
        reveal_strlit("while_attached");
    }
    if tokens.len() == 0 {
        return Err(Error::ExpectedToken);
    }
    if word_is(tokens, 0, "this_game") {
        proof {
            lemma_subrange_rest(tokens@, 1);
        }
        let r = &tokens[1..tokens.len()];
        return Ok((LifeTime::ThisGame, r));
    }
    if word_is(tokens, 0, "this_turn") {
        proof {
            lemma_subrange_rest(tokens@, 1);
        }
        let r = &tokens[1..tokens.len()];
        return Ok((LifeTime::ThisTurn, r));
    }
    if word_is(tokens, 0, "next_turn") {
        proof {
            lemma_subrange_rest(tokens@, 1);
        }
        let r = &tokens[1..tokens.len()];
        let (x0, r0) = match take_param_player(r) {
            Ok(p) => p,
            Err(e) => return Err(e),
        };
        proof {
            lemma_rest_trans(r0@, r@, tokens@);
        }
        return Ok((LifeTime::NextTurn(x0), r0));
    }
    if word_is(tokens, 0, "this_step") {
        proof {
            lemma_subrange_rest(tokens@, 1);
        }
        let r = &tokens[1..tokens.len()];
        return Ok((LifeTime::ThisStep, r));
    }
    if word_is(tokens, 0, "this_art") {
        proof {
            lemma_subrange_rest(tokens@, 1);
        }
        let r = &tokens[1..tokens.len()];
        return Ok((LifeTime::ThisArt, r));
    }
    if word_is(tokens, 0, "this_effect") {
        proof {
            lemma_subrange_rest(tokens@, 1);
        }
        let r = &tokens[1..tokens.len()];
        return Ok((LifeTime::ThisEffect, r));
    }
    if word_is(tokens, 0, "until_removed") {
        proof {
            lemma_subrange_rest(tokens@, 1);
        }
        let r = &tokens[1..tokens.len()];
        return Ok((LifeTime::UntilRemoved, r));
    }
    if word_is(tokens, 0, "while_attached") {
        proof {
            lemma_subrange_rest(tokens@, 1);
        }
        let r = &tokens[1..tokens.len()];
        let (x0, r0) = match take_param_card_reference(r) {
            Ok(p) => p,
            Err(e) => return Err(e),
        };
        proof {
            lemma_rest_trans(r0@, r@, tokens@);
        }
        return Ok((LifeTime::WhileAttached(x0), r0));
    }
    match &tokens[0] {
        Tokens::Token(s) => Err(Error::UnexpectedToken(String::from_str("LifeTime"), s.clone())),
        Tokens::List(_) => Err(Error::ExpectedString),
    }
}

pub open spec fn spec_take_param_life_time(ts: Seq<TokensV>) -> Result<(LifeTimeV, Seq<TokensV>), ErrorV>
{
    if ts.len() == 0 {
        Err(ErrorV::ExpectedToken)
    } else {
        match ts[0] {
            TokensV::List(v) => {
                match spec_parse_life_time(v) {
                    Ok((x, r)) => if r.len() == 0 {
                        Ok((x, ts.subrange(1, ts.len() as int)))
                    } else {
                        Err(ErrorV::RemainingTokens)
                    },
                    Err(e) => Err(e),
                }
            },
            TokensV::Token(_) => spec_parse_life_time(ts),
        }
    }
}

/// Reads a parameter: from the items of a list at the front, which it must use up, or else
/// from the tokens themselves.
pub fn take_param_life_time<'a>(tokens: &'a [Tokens]) -> (res: Result<(LifeTime, &'a [Tokens]), Error>)
    ensures
        match spec_take_param_life_time(tokens_views(tokens@)) {
            Ok((v, rest)) => res matches Ok((x, r)) && x@ == v && tokens_views(r@) == rest
                && is_rest_of(r@, tokens@),
            Err(e) => res matches Err(err) && err@ == e,
        },
{
    proof {
        lemma_views(tokens@);
    }
    if tokens.len() == 0 {
        return Err(Error::ExpectedToken);
    }
    match &tokens[0] {
        Tokens::List(v) => {
            proof {
                lemma_sizes_head_list(tokens_views(tokens@), tokens_views(v@));
            }
            match parse_life_time(v.as_slice()) {
                Ok((x, r)) => {
                    if r.len() == 0 {
                        proof {
                            lemma_subrange_rest(tokens@, 1);
                        }
                        Ok((x, &tokens[1..tokens.len()]))
                    } else {
                        Err(Error::RemainingTokens)
                    }
                },
                Err(e) => Err(e),
            }
        },
        Tokens::Token(_) => parse_life_time(tokens),
    }
}

pub open spec fn spec_parse_modifier(ts: Seq<TokensV>) -> Result<(ModifierV, Seq<TokensV>), ErrorV>
    decreases token_sizes(ts), 0nat,
{
    if ts.len() == 0 {
        Err(ErrorV::ExpectedToken)
    } else if word_at(ts, 0) == Some("as_art_cost"@) {
        match spec_take_param_number(ts.subrange(1, ts.len() as int)) {
            Err(e) => Err(e),
            Ok((x0, r0)) => {
                if token_sizes(r0) < token_sizes(ts) {
                    match spec_take_param_color(r0) {
                        Err(e) => Err(e),
                        Ok((x1, r1)) => {
                            Ok((ModifierV::AsArtCost(x0, x1), r1))
                        },
                    }
                } else {
                    Err(ErrorV::RemainingTokens)
                }
            },
        }
    } else if word_at(ts, 0) == Some("as_cheer"@) {
        match spec_take_param_number(ts.subrange(1, ts.len() as int)) {
            Err(e) => Err(e),
            Ok((x0, r0)) => {
                if token_sizes(r0) < token_sizes(ts) {
                    match spec_take_param_color(r0) {
                        Err(e) => Err(e),
                        Ok((x1, r1)) => {
                            Ok((ModifierV::AsCheer(x0, x1), r1))
                        },
                    }
                } else {
                    Err(ErrorV::RemainingTokens)
                }
            },
        }
    } else if word_at(ts, 0) == Some("deal_less_dmg"@) {
        match spec_take_param_number(ts.subrange(1, ts.len() as int)) {
            Err(e) => Err(e),
            Ok((x0, r0)) => {
                Ok((ModifierV::DealLessDamage(x0), r0))
            },
        }
    } else if word_at(ts, 0) == Some("deal_more_dmg"@) {
        match spec_take_param_number(ts.subrange(1, ts.len() as int)) {
            Err(e) => Err(e),
            Ok((x0, r0)) => {
                Ok((ModifierV::DealMoreDamage(x0), r0))
            },
        }
    } else if word_at(ts, 0) == Some("recv_less_dmg"@) {
        match spec_take_param_number(ts.subrange(1, ts.len() as int)) {
            Err(e) => Err(e),
            Ok((x0, r0)) => {
                Ok((ModifierV::ReceiveLessDamage(x0), r0))
            },
        }
    } else if word_at(ts, 0) == Some("recv_more_dmg"@) {
        match spec_take_param_number(ts.subrange(1, ts.len() as int)) {
            Err(e) => Err(e),
            Ok((x0, r0)) => {
                Ok((ModifierV::ReceiveMoreDamage(x0), r0))
            },
        }
    } else if word_at(ts, 0) == Some("next_dice_roll"@) {
        match spec_take_param_number(ts.subrange(1, ts.len() as int)) {
            Err(e) => Err(e),
            Ok((x0, r0)) => {
                Ok((ModifierV::NextDiceRoll(x0), r0))
            },
        }
    } else if word_at(ts, 0) == Some("no_life_loss"@) {
        Ok((ModifierV::NoLifeLoss, ts.subrange(1, ts.len() as int)))
    } else if word_at(ts, 0) == Some("when"@) {
        match spec_take_param_condition(ts.subrange(1, ts.len() as int)) {
            Err(e) => Err(e),
            Ok((x0, r0)) => {
                if token_sizes(r0) < token_sizes(ts) {
                    match spec_take_param_modifier(r0) {
                        Err(e) => Err(e),
                        Ok((x1, r1)) => {
                            Ok((ModifierV::When(x0, Box::new(x1)), r1))
                        },
                    }
                } else {
                    Err(ErrorV::RemainingTokens)
                }
            },
        }
    } else {
        match word_at(ts, 0) {
            Some(s) => Err(ErrorV::UnexpectedToken("Modifier"@, s)),
            None => Err(ErrorV::ExpectedString),
        }
    }
}

/// Reads a Modifier from the front of the tokens.
pub fn parse_modifier<'a>(tokens: &'a [Tokens]) -> (res: Result<(Modifier, &'a [Tokens]), Error>)
    ensures
        match spec_parse_modifier(tokens_views(tokens@)) {
            Ok((v, rest)) => res matches Ok((x, r)) && x@ == v && tokens_views(r@) == rest
                && is_rest_of(r@, tokens@),
            Err(e) => res matches Err(err) && err@ == e,
        },
    decreases token_sizes(tokens_views(tokens@)), 0nat,
{
    proof {
        lemma_views(tokens@);
        reveal_strlit("as_art_cost");
        reveal_strlit("as_cheer");
        reveal_strlit("deal_less_dmg");
        reveal_strlit("deal_more_dmg");
        reveal_strlit("recv_less_dmg");
        reveal_strlit("recv_more_dmg");
        reveal_strlit("next_dice_roll");
        reveal_strlit("no_life_loss");
        reveal_strlit("when");
    }
    if tokens.len() == 0 {
        return Err(Error::ExpectedToken);
    }
    if word_is(tokens, 0, "as_art_cost") {
        proof {
            lemma_subrange_rest(tokens@, 1);
        }
        let r = &tokens[1..tokens.len()];
        let (x0, r0) = match take_param_number(r) {
            Ok(p) => p,
            Err(e) => return Err(e),
        };
        proof {
            lemma_rest_trans(r0@, r@, tokens@);
        }
        proof {
            lemma_rest_sizes(r0@, tokens@);
        }
        let (x1, r1) = match take_param_color(r0) {
            Ok(p) => p,
            Err(e) => return Err(e),
        };
        proof {
            lemma_rest_trans(r1@, r0@, tokens@);
        }
        return Ok((Modifier::AsArtCost(x0, x1), r1));
    }
    if word_is(tokens, 0, "as_cheer") {
        proof {
            lemma_subrange_rest(tokens@, 1);
        }
        let r = &tokens[1..tokens.len()];
        let (x0, r0) = match take_param_number(r) {
            Ok(p) => p,
            Err(e) => return Err(e),
        };
        proof {
            lemma_rest_trans(r0@, r@, tokens@);
        }
        proof {
            lemma_rest_sizes(r0@, tokens@);
        }
        let (x1, r1) = match take_param_color(r0) {
            Ok(p) => p,
            Err(e) => return Err(e),
        };
        proof {
            lemma_rest_trans(r1@, r0@, tokens@);
        }
        return Ok((Modifier::AsCheer(x0, x1), r1));
    }
    if word_is(tokens, 0, "deal_less_dmg") {
        proof {
            lemma_subrange_rest(tokens@, 1);
        }
        let r = &tokens[1..tokens.len()];
        let (x0, r0) = match take_param_number(r) {
            Ok(p) => p,
            Err(e) => return Err(e),
        };
        proof {
            lemma_rest_trans(r0@, r@, tokens@);
        }
        return Ok((Modifier::DealLessDamage(x0), r0));
    }
    if word_is(tokens, 0, "deal_more_dmg") {
        proof {
            lemma_subrange_rest(tokens@, 1);
        }
        let r = &tokens[1..tokens.len()];
        let (x0, r0) = match take_param_number(r) {
            Ok(p) => p,
            Err(e) => return Err(e),
        };
        proof {
            lemma_rest_trans(r0@, r@, tokens@);
        }
        return Ok((Modifier::DealMoreDamage(x0), r0));
    }
    if word_is(tokens, 0, "recv_less_dmg") {
        proof {
            lemma_subrange_rest(tokens@, 1);
        }
        let r = &tokens[1..tokens.len()];
        let (x0, r0) = match take_param_number(r) {
            Ok(p) => p,
            Err(e) => return Err(e),
        };
        proof {
            lemma_rest_trans(r0@, r@, tokens@);
        }
        return Ok((Modifier::ReceiveLessDamage(x0), r0));
    }
    if word_is(tokens, 0, "recv_more_dmg") {
        proof {
            lemma_subrange_rest(tokens@, 1);
        }
        let r = &tokens[1..tokens.len()];
        let (x0, r0) = match take_param_number(r) {
            Ok(p) => p,
            Err(e) => return Err(e),
        };
        proof {
            lemma_rest_trans(r0@, r@, tokens@);
        }
        return Ok((Modifier::ReceiveMoreDamage(x0), r0));
    }
    if word_is(tokens, 0, "next_dice_roll") {
        proof {
            lemma_subrange_rest(tokens@, 1);
        }
        let r = &tokens[1..tokens.len()];
        let (x0, r0) = match take_param_number(r) {
            Ok(p) => p,
            Err(e) => return Err(e),
        };
        proof {
            lemma_rest_trans(r0@, r@, tokens@);
        }
        return Ok((Modifier::NextDiceRoll(x0), r0));
    }
    if word_is(tokens, 0, "no_life_loss") {
        proof {
            lemma_subrange_rest(tokens@, 1);
        }
        let r = &tokens[1..tokens.len()];
        return Ok((Modifier::NoLifeLoss, r));
    }
    if word_is(tokens, 0, "when") {
        proof {
            lemma_subrange_rest(tokens@, 1);
        }
        let r = &tokens[1..tokens.len()];
        let (x0, r0) = match take_param_condition(r) {
            Ok(p) => p,
            Err(e) => return Err(e),
        };
        proof {
            lemma_rest_trans(r0@, r@, tokens@);
        }
        proof {
            lemma_rest_sizes(r0@, tokens@);
        }
        let (x1, r1) = match take_param_modifier(r0) {
            Ok(p) => p,
            Err(e) => return Err(e),
        };
        proof {
            lemma_rest_trans(r1@, r0@, tokens@);
        }
        return Ok((Modifier::When(x0, Box::new(x1)), r1));
    }
    match &tokens[0] {
        Tokens::Token(s) => Err(Error::UnexpectedToken(String::from_str("Modifier"), s.clone())),
        Tokens::List(_) => Err(Error::ExpectedString),
    }
}

pub open spec fn spec_take_param_modifier(ts: Seq<TokensV>) -> Result<(ModifierV, Seq<TokensV>), ErrorV>
    decreases token_sizes(ts), 1nat,
{
    if ts.len() == 0 {
        Err(ErrorV::ExpectedToken)
    } else {
        match ts[0] {
            TokensV::List(v) => {
                proof {
                    lemma_sizes_head_list(ts, v);
                }
                match spec_parse_modifier(v) {
                    Ok((x, r)) => if r.len() == 0 {
                        Ok((x, ts.subrange(1, ts.len() as int)))
                    } else {
                        Err(ErrorV::RemainingTokens)
                    },
                    Err(e) => Err(e),
                }
            },
            TokensV::Token(_) => spec_parse_modifier(ts),
        }
    }
}

/// Reads a parameter: from the items of a list at the front, which it must use up, or else
/// from the tokens themselves.
pub fn take_param_modifier<'a>(tokens: &'a [Tokens]) -> (res: Result<(Modifier, &'a [Tokens]), Error>)
    ensures
        match spec_take_param_modifier(tokens_views(tokens@)) {
            Ok((v, rest)) => res matches Ok((x, r)) && x@ == v && tokens_views(r@) == rest
                && is_rest_of(r@, tokens@),
            Err(e) => res matches Err(err) && err@ == e,
        },
    decreases token_sizes(tokens_views(tokens@)), 1nat,
{
    proof {
        lemma_views(tokens@);
    }
    if tokens.len() == 0 {
        return Err(Error::ExpectedToken);
    }
    match &tokens[0] {
        Tokens::List(v) => {
            proof {
                lemma_sizes_head_list(tokens_views(tokens@), tokens_views(v@));
            }
            match parse_modifier(v.as_slice()) {
                Ok((x, r)) => {
                    if r.len() == 0 {
                        proof {
                            lemma_subrange_rest(tokens@, 1);
                        }
                        Ok((x, &tokens[1..tokens.len()]))
                    } else {
                        Err(Error::RemainingTokens)
                    }
                },
                Err(e) => Err(e),
            }
        },
        Tokens::Token(_) => parse_modifier(tokens),
    }
}

pub open spec fn spec_parse_player(ts: Seq<TokensV>) -> Result<(Player, Seq<TokensV>), ErrorV>
{
    if ts.len() == 0 {
        Err(ErrorV::ExpectedToken)
    } else if word_at(ts, 0) == Some("you"@) {
        Ok((Player::You, ts.subrange(1, ts.len() as int)))
    } else if word_at(ts, 0) == Some("opponent"@) {
        Ok((Player::Opponent, ts.subrange(1, ts.len() as int)))
    } else {
        match word_at(ts, 0) {
            Some(s) => Err(ErrorV::UnexpectedToken("Player"@, s)),
            None => Err(ErrorV::ExpectedString),
        }
    }
}

/// Reads a Player from the front of the tokens.
pub fn parse_player<'a>(tokens: &'a [Tokens]) -> (res: Result<(Player, &'a [Tokens]), Error>)
    ensures
        match spec_parse_player(tokens_views(tokens@)) {
            Ok((v, rest)) => res matches Ok((x, r)) && x@ == v && tokens_views(r@) == rest
                && is_rest_of(r@, tokens@),
            Err(e) => res matches Err(err) && err@ == e,
        },
{
    proof {
        lemma_views(tokens@);
        reveal_strlit("you");
        reveal_strlit("opponent");
    }
    if tokens.len() == 0 {
        return Err(Error::ExpectedToken);
    }
    if word_is(tokens, 0, "you") {
        proof {
            lemma_subrange_rest(tokens@, 1);
        }
        let r = &tokens[1..tokens.len()];
        return Ok((Player::You, r));
    }
    if word_is(tokens, 0, "opponent") {
        proof {
            lemma_subrange_rest(tokens@, 1);
        }
        let r = &tokens[1..tokens.len()];
        return Ok((Player::Opponent, r));
    }
    match &tokens[0] {
        Tokens::Token(s) => Err(Error::UnexpectedToken(String::from_str("Player"), s.clone())),
        Tokens::List(_) => Err(Error::ExpectedString),
    }
}

pub open spec fn spec_take_param_player(ts: Seq<TokensV>) -> Result<(Player, Seq<TokensV>), ErrorV>
{
    if ts.len() == 0 {
        Err(ErrorV::ExpectedToken)
    } else {
        match ts[0] {
            TokensV::List(v) => {
                match spec_parse_player(v) {
                    Ok((x, r)) => if r.len() == 0 {
                        Ok((x, ts.subrange(1, ts.len() as int)))
                    } else {
                        Err(ErrorV::RemainingTokens)
                    },
                    Err(e) => Err(e),
                }
            },
            TokensV::Token(_) => spec_parse_player(ts),
        }
    }
}

/// Reads a parameter: from the items of a list at the front, which it must use up, or else
/// from the tokens themselves.
pub fn take_param_player<'a>(tokens: &'a [Tokens]) -> (res: Result<(Player, &'a [Tokens]), Error>)
    ensures
        match spec_take_param_player(tokens_views(tokens@)) {
            Ok((v, rest)) => res matches Ok((x, r)) && x@ == v && tokens_views(r@) == rest
                && is_rest_of(r@, tokens@),
            Err(e) => res matches Err(err) && err@ == e,
        },
{
    proof {
        lemma_views(tokens@);
    }
    if tokens.len() == 0 {
        return Err(Error::ExpectedToken);
    }
    match &tokens[0] {
        Tokens::List(v) => {
            proof {
                lemma_sizes_head_list(tokens_views(tokens@), tokens_views(v@));
            }
            match parse_player(v.as_slice()) {
                Ok((x, r)) => {
                    if r.len() == 0 {
                        proof {
                            lemma_subrange_rest(tokens@, 1);
                        }
                        Ok((x, &tokens[1..tokens.len()]))
                    } else {
                        Err(Error::RemainingTokens)
                    }
                },
                Err(e) => Err(e),
            }
        },
        Tokens::Token(_) => parse_player(tokens),
    }
}

pub open spec fn spec_parse_number(ts: Seq<TokensV>) -> Result<(NumberV, Seq<TokensV>), ErrorV>
    decreases token_sizes(ts), 0nat,
{
    if ts.len() == 0 {
        Err(ErrorV::ExpectedToken)
    } else if word_at(ts, 1) == Some("-"@) {
        proof {
            lemma_sizes_prefix(ts, 1);
        }
        match spec_take_param_number(ts.subrange(0, 1)) {
            Err(e) => Err(e),
            Ok((x0, _r0)) => {
        proof {
            lemma_sizes_suffix(ts, 2);
        }
                match spec_take_param_number(ts.subrange(2, ts.len() as int)) {
                    Err(e) => Err(e),
                    Ok((x1, r1)) => Ok((NumberV::Minus(Box::new(x0), Box::new(x1)), r1)),
                }
            },
        }
    } else if word_at(ts, 1) == Some("*"@) {
        proof {
            lemma_sizes_prefix(ts, 1);
        }
        match spec_take_param_number(ts.subrange(0, 1)) {
            Err(e) => Err(e),
            Ok((x0, _r0)) => {
        proof {
            lemma_sizes_suffix(ts, 2);
        }
                match spec_take_param_number(ts.subrange(2, ts.len() as int)) {
                    Err(e) => Err(e),
                    Ok((x1, r1)) => Ok((NumberV::Multiply(Box::new(x0), Box::new(x1)), r1)),
                }
            },
        }
    } else if word_at(ts, 1) == Some("+"@) {
        proof {
            lemma_sizes_prefix(ts, 1);
        }
        match spec_take_param_number(ts.subrange(0, 1)) {
            Err(e) => Err(e),
            Ok((x0, _r0)) => {
        proof {
            lemma_sizes_suffix(ts, 2);
        }
                match spec_take_param_number(ts.subrange(2, ts.len() as int)) {
                    Err(e) => Err(e),
                    Ok((x1, r1)) => Ok((NumberV::Plus(Box::new(x0), Box::new(x1)), r1)),
                }
            },
        }
    } else if word_at(ts, 0) == Some("count"@) {
        proof {
            lemma_sizes_suffix(ts, 1);
        }
        match spec_take_param_card_references(ts.subrange(1, ts.len() as int)) {
            Err(e) => Err(e),
            Ok((x0, r0)) => {
                Ok((NumberV::Count(x0), r0))
            },
        }
    } else if word_at(ts, 0) == Some("dmg_amount"@) {
        Ok((NumberV::DamageAmount, ts.subrange(1, ts.len() as int)))
    } else if word_at(ts, 0) == Some("hp_amount"@) {
        Ok((NumberV::HealthPointAmount, ts.subrange(1, ts.len() as int)))
    } else {
        match spec_take_param_number_literal(ts) {
            Ok((x0, r0)) => Ok((NumberV::Literal(x0), r0)),
            Err(_) => {
                match spec_take_param_var(ts) {
                    Ok((x0, r0)) => Ok((NumberV::Var(x0), r0)),
                    Err(_) => {
                        match word_at(ts, 0) {
                            Some(s) => Err(ErrorV::UnexpectedToken("Number"@, s)),
                            None => Err(ErrorV::ExpectedString),
                        }
                    },
                }
            },
        }
    }
}

/// Reads a Number from the front of the tokens.
pub fn parse_number<'a>(tokens: &'a [Tokens]) -> (res: Result<(Number, &'a [Tokens]), Error>)
    ensures
        match spec_parse_number(tokens_views(tokens@)) {
            Ok((v, rest)) => res matches Ok((x, r)) && x@ == v && tokens_views(r@) == rest
                && is_rest_of(r@, tokens@),
            Err(e) => res matches Err(err) && err@ == e,
        },
    decreases token_sizes(tokens_views(tokens@)), 0nat,
{
    proof {
        lemma_views(tokens@);
        reveal_strlit("count");
        reveal_strlit("-");
        reveal_strlit("*");
        reveal_strlit("+");
        reveal_strlit("dmg_amount");
        reveal_strlit("hp_amount");
    }
    if tokens.len() == 0 {
        return Err(Error::ExpectedToken);
    }
    if word_is(tokens, 1, "-") {
        proof {
            lemma_first_of(tokens@);
            lemma_subrange_rest(tokens@, 2);
        }
        let first = &tokens[0..1];
        let (x0, _r0) = match take_param_number(first) {
            Ok(p) => p,
            Err(e) => return Err(e),
        };
        let second = &tokens[2..tokens.len()];
        let (x1, r1) = match take_param_number(second) {
            Ok(p) => p,
            Err(e) => return Err(e),
        };
        proof {
            lemma_rest_trans(r1@, second@, tokens@);
        }
        return Ok((Number::Minus(Box::new(x0), Box::new(x1)), r1));
    }
    if word_is(tokens, 1, "*") {
        proof {
            lemma_first_of(tokens@);
            lemma_subrange_rest(tokens@, 2);
        }
        let first = &tokens[0..1];
        let (x0, _r0) = match take_param_number(first) {
            Ok(p) => p,
            Err(e) => return Err(e),
        };
        let second = &tokens[2..tokens.len()];
        let (x1, r1) = match take_param_number(second) {
            Ok(p) => p,
            Err(e) => return Err(e),
        };
        proof {
            lemma_rest_trans(r1@, second@, tokens@);
        }
        return Ok((Number::Multiply(Box::new(x0), Box::new(x1)), r1));
    }
    if word_is(tokens, 1, "+") {
        proof {
            lemma_first_of(tokens@);
            lemma_subrange_rest(tokens@, 2);
        }
        let first = &tokens[0..1];
        let (x0, _r0) = match take_param_number(first) {
            Ok(p) => p,
            Err(e) => return Err(e),
        };
        let second = &tokens[2..tokens.len()];
        let (x1, r1) = match take_param_number(second) {
            Ok(p) => p,
            Err(e) => return Err(e),
        };
        proof {
            lemma_rest_trans(r1@, second@, tokens@);
        }
        return Ok((Number::Plus(Box::new(x0), Box::new(x1)), r1));
    }
    if word_is(tokens, 0, "count") {
        proof {
            lemma_subrange_rest(tokens@, 1);
        }
        let r = &tokens[1..tokens.len()];
        let (x0, r0) = match take_param_card_references(r) {
            Ok(p) => p,
            Err(e) => return Err(e),
        };
        proof {
            lemma_rest_trans(r0@, r@, tokens@);
        }
        return Ok((Number::Count(x0), r0));
    }
    if word_is(tokens, 0, "dmg_amount") {
        proof {
            lemma_subrange_rest(tokens@, 1);
        }
        let r = &tokens[1..tokens.len()];
        return Ok((Number::DamageAmount, r));
    }
    if word_is(tokens, 0, "hp_amount") {
        proof {
            lemma_subrange_rest(tokens@, 1);
        }
        let r = &tokens[1..tokens.len()];
        return Ok((Number::HealthPointAmount, r));
    }
    match take_param_number_literal(tokens) {
        Ok((x0, r0)) => return Ok((Number::Literal(x0), r0)),
        Err(_) => {},
    }
    match take_param_var(tokens) {
        Ok((x0, r0)) => return Ok((Number::Var(x0), r0)),
        Err(_) => {},
    }
    match &tokens[0] {
        Tokens::Token(s) => Err(Error::UnexpectedToken(String::from_str("Number"), s.clone())),
        Tokens::List(_) => Err(Error::ExpectedString),
    }
}

pub open spec fn spec_take_param_number(ts: Seq<TokensV>) -> Result<(NumberV, Seq<TokensV>), ErrorV>
    decreases token_sizes(ts), 1nat,
{
    if ts.len() == 0 {
        Err(ErrorV::ExpectedToken)
    } else {
        match ts[0] {
            TokensV::List(v) => {
                proof {
                    lemma_sizes_head_list(ts, v);
                }
                match spec_parse_number(v) {
                    Ok((x, r)) => if r.len() == 0 {
                        Ok((x, ts.subrange(1, ts.len() as int)))
                    } else {
                        Err(ErrorV::RemainingTokens)
                    },
                    Err(e) => Err(e),
                }
            },
            TokensV::Token(_) => spec_parse_number(ts),
        }
    }
}

/// Reads a parameter: from the items of a list at the front, which it must use up, or else
/// from the tokens themselves.
pub fn take_param_number<'a>(tokens: &'a [Tokens]) -> (res: Result<(Number, &'a [Tokens]), Error>)
    ensures
        match spec_take_param_number(tokens_views(tokens@)) {
            Ok((v, rest)) => res matches Ok((x, r)) && x@ == v && tokens_views(r@) == rest
                && is_rest_of(r@, tokens@),
            Err(e) => res matches Err(err) && err@ == e,
        },
    decreases token_sizes(tokens_views(tokens@)), 1nat,
{
    proof {
        lemma_views(tokens@);
    }
    if tokens.len() == 0 {
        return Err(Error::ExpectedToken);
    }
    match &tokens[0] {
        Tokens::List(v) => {
            proof {
                lemma_sizes_head_list(tokens_views(tokens@), tokens_views(v@));
            }
            match parse_number(v.as_slice()) {
                Ok((x, r)) => {
                    if r.len() == 0 {
                        proof {
                            lemma_subrange_rest(tokens@, 1);
                        }
                        Ok((x, &tokens[1..tokens.len()]))
                    } else {
                        Err(Error::RemainingTokens)
                    }
                },
                Err(e) => Err(e),
            }
        },
        Tokens::Token(_) => parse_number(tokens),
    }
}

pub open spec fn spec_parse_zone(ts: Seq<TokensV>) -> Result<(Zone, Seq<TokensV>), ErrorV>
{
    if ts.len() == 0 {
        Err(ErrorV::ExpectedToken)
    } else if word_at(ts, 0) == Some("archive"@) {
        Ok((Zone::Archive, ts.subrange(1, ts.len() as int)))
    } else if word_at(ts, 0) == Some("back_stage"@) {
        Ok((Zone::BackStage, ts.subrange(1, ts.len() as int)))
    } else if word_at(ts, 0) == Some("center_stage"@) {
        Ok((Zone::CenterStage, ts.subrange(1, ts.len() as int)))
    } else if word_at(ts, 0) == Some("cheer_deck"@) {
        Ok((Zone::CheerDeck, ts.subrange(1, ts.len() as int)))
    } else if word_at(ts, 0) == Some("hand"@) {
        Ok((Zone::Hand, ts.subrange(1, ts.len() as int)))
    } else if word_at(ts, 0) == Some("holo_power"@) {
        Ok((Zone::HoloPower, ts.subrange(1, ts.len() as int)))
    } else if word_at(ts, 0) == Some("main_deck"@) {
        Ok((Zone::MainDeck, ts.subrange(1, ts.len() as int)))
    } else if word_at(ts, 0) == Some("main_stage"@) {
        Ok((Zone::MainStage, ts.subrange(1, ts.len() as int)))
    } else if word_at(ts, 0) == Some("opponent_back_stage"@) {
        Ok((Zone::OpponentBackStage, ts.subrange(1, ts.len() as int)))
    } else if word_at(ts, 0) == Some("opponent_center_stage"@) {
        Ok((Zone::OpponentCenterStage, ts.subrange(1, ts.len() as int)))
    } else if word_at(ts, 0) == Some("stage"@) {
        Ok((Zone::Stage, ts.subrange(1, ts.len() as int)))
    } else {
        match word_at(ts, 0) {
            Some(s) => Err(ErrorV::UnexpectedToken("Zone"@, s)),
            None => Err(ErrorV::ExpectedString),
        }
    }
}

/// Reads a Zone from the front of the tokens.
pub fn parse_zone<'a>(tokens: &'a [Tokens]) -> (res: Result<(Zone, &'a [Tokens]), Error>)
    ensures
        match spec_parse_zone(tokens_views(tokens@)) {
            Ok((v, rest)) => res matches Ok((x, r)) && x@ == v && tokens_views(r@) == rest
                && is_rest_of(r@, tokens@),
            Err(e) => res matches Err(err) && err@ == e,
        },
{
    proof {
        lemma_views(tokens@);
        reveal_strlit("archive");
        reveal_strlit("back_stage");
        reveal_strlit("center_stage");
        reveal_strlit("cheer_deck");
        reveal_strlit("hand");
        reveal_strlit("holo_power");
        reveal_strlit("main_deck");
        reveal_strlit("main_stage");
        reveal_strlit("opponent_back_stage");
        reveal_strlit("opponent_center_stage");
        reveal_strlit("stage");
    }
    if tokens.len() == 0 {
        return Err(Error::ExpectedToken);
    }
    if word_is(tokens, 0, "archive") {
        proof {
            lemma_subrange_rest(tokens@, 1);
        }
        let r = &tokens[1..tokens.len()];
        return Ok((Zone::Archive, r));
    }
    if word_is(tokens, 0, "back_stage") {
        proof {
            lemma_subrange_rest(tokens@, 1);
        }
        let r = &tokens[1..tokens.len()];
        return Ok((Zone::BackStage, r));
    }
    if word_is(tokens, 0, "center_stage") {
        proof {
            lemma_subrange_rest(tokens@, 1);
        }
        let r = &tokens[1..tokens.len()];
        return Ok((Zone::CenterStage, r));
    }
    if word_is(tokens, 0, "cheer_deck") {
        proof {
            lemma_subrange_rest(tokens@, 1);
        }
        let r = &tokens[1..tokens.len()];
        return Ok((Zone::CheerDeck, r));
    }
    if word_is(tokens, 0, "hand") {
        proof {
            lemma_subrange_rest(tokens@, 1);
        }
        let r = &tokens[1..tokens.len()];
        return Ok((Zone::Hand, r));
    }
    if word_is(tokens, 0, "holo_power") {
        proof {
            lemma_subrange_rest(tokens@, 1);
        }
        let r = &tokens[1..tokens.len()];
        return Ok((Zone::HoloPower, r));
    }
    if word_is(tokens, 0, "main_deck") {
        proof {
            lemma_subrange_rest(tokens@, 1);
        }
        let r = &tokens[1..tokens.len()];
        return Ok((Zone::MainDeck, r));
    }
    if word_is(tokens, 0, "main_stage") {
        proof {
            lemma_subrange_rest(tokens@, 1);
        }
        let r = &tokens[1..tokens.len()];
        return Ok((Zone::MainStage, r));
    }
    if word_is(tokens, 0, "opponent_back_stage") {
        proof {
            lemma_subrange_rest(tokens@, 1);
        }
        let r = &tokens[1..tokens.len()];
        return Ok((Zone::OpponentBackStage, r));
    }
    if word_is(tokens, 0, "opponent_center_stage") {
        proof {
            lemma_subrange_rest(tokens@, 1);
        }
        let r = &tokens[1..tokens.len()];
        return Ok((Zone::OpponentCenterStage, r));
    }
    if word_is(tokens, 0, "stage") {
        proof {
            lemma_subrange_rest(tokens@, 1);
        }
        let r = &tokens[1..tokens.len()];
        return Ok((Zone::Stage, r));
    }
    match &tokens[0] {
        Tokens::Token(s) => Err(Error::UnexpectedToken(String::from_str("Zone"), s.clone())),
        Tokens::List(_) => Err(Error::ExpectedString),
    }
}

pub open spec fn spec_take_param_zone(ts: Seq<TokensV>) -> Result<(Zone, Seq<TokensV>), ErrorV>
{
    if ts.len() == 0 {
        Err(ErrorV::ExpectedToken)
    } else {
        match ts[0] {
            TokensV::List(v) => {
                match spec_parse_zone(v) {
                    Ok((x, r)) => if r.len() == 0 {
                        Ok((x, ts.subrange(1, ts.len() as int)))
                    } else {
                        Err(ErrorV::RemainingTokens)
                    },
                    Err(e) => Err(e),
                }
            },
            TokensV::Token(_) => spec_parse_zone(ts),
        }
    }
}

/// Reads a parameter: from the items of a list at the front, which it must use up, or else
/// from the tokens themselves.
pub fn take_param_zone<'a>(tokens: &'a [Tokens]) -> (res: Result<(Zone, &'a [Tokens]), Error>)
    ensures
        match spec_take_param_zone(tokens_views(tokens@)) {
            Ok((v, rest)) => res matches Ok((x, r)) && x@ == v && tokens_views(r@) == rest
                && is_rest_of(r@, tokens@),
            Err(e) => res matches Err(err) && err@ == e,
        },
{
    proof {
        lemma_views(tokens@);
    }
    if tokens.len() == 0 {
        return Err(Error::ExpectedToken);
    }
    match &tokens[0] {
        Tokens::List(v) => {
            proof {
                lemma_sizes_head_list(tokens_views(tokens@), tokens_views(v@));
            }
            match parse_zone(v.as_slice()) {
                Ok((x, r)) => {
                    if r.len() == 0 {
                        proof {
                            lemma_subrange_rest(tokens@, 1);
                        }
                        Ok((x, &tokens[1..tokens.len()]))
                    } else {
                        Err(Error::RemainingTokens)
                    }
                },
                Err(e) => Err(e),
            }
        },
        Tokens::Token(_) => parse_zone(tokens),
    }
}

pub open spec fn spec_parse_color(ts: Seq<TokensV>) -> Result<(Color, Seq<TokensV>), ErrorV>
{
    if ts.len() == 0 {
        Err(ErrorV::ExpectedToken)
    } else if word_at(ts, 0) == Some("white"@) {
        Ok((Color::White, ts.subrange(1, ts.len() as int)))
    } else if word_at(ts, 0) == Some("green"@) {
        Ok((Color::Green, ts.subrange(1, ts.len() as int)))
    } else if word_at(ts, 0) == Some("red"@) {
        Ok((Color::Red, ts.subrange(1, ts.len() as int)))
    } else if word_at(ts, 0) == Some("blue"@) {
        Ok((Color::Blue, ts.subrange(1, ts.len() as int)))
    } else if word_at(ts, 0) == Some("purple"@) {
        Ok((Color::Purple, ts.subrange(1, ts.len() as int)))
    } else if word_at(ts, 0) == Some("yellow"@) {
        Ok((Color::Yellow, ts.subrange(1, ts.len() as int)))
    } else if word_at(ts, 0) == Some("colorless"@) {
        Ok((Color::Colorless, ts.subrange(1, ts.len() as int)))
    } else {
        match word_at(ts, 0) {
            Some(s) => Err(ErrorV::UnexpectedToken("Color"@, s)),
            None => Err(ErrorV::ExpectedString),
        }
    }
}

/// Reads a Color from the front of the tokens.
pub fn parse_color<'a>(tokens: &'a [Tokens]) -> (res: Result<(Color, &'a [Tokens]), Error>)
    ensures
        match spec_parse_color(tokens_views(tokens@)) {
            Ok((v, rest)) => res matches Ok((x, r)) && x@ == v && tokens_views(r@) == rest
                && is_rest_of(r@, tokens@),
            Err(e) => res matches Err(err) && err@ == e,
        },
{
    proof {
        lemma_views(tokens@);
        reveal_strlit("white");
        reveal_strlit("green");
        reveal_strlit("red");
        reveal_strlit("blue");
        reveal_strlit("purple");
        reveal_strlit("yellow");
        reveal_strlit("colorless");
    }
    if tokens.len() == 0 {
        return Err(Error::ExpectedToken);
    }
    if word_is(tokens, 0, "white") {
        proof {
            lemma_subrange_rest(tokens@, 1);
        }
        let r = &tokens[1..tokens.len()];
        return Ok((Color::White, r));
    }
    if word_is(tokens, 0, "green") {
        proof {
            lemma_subrange_rest(tokens@, 1);
        }
        let r = &tokens[1..tokens.len()];
        return Ok((Color::Green, r));
    }
    if word_is(tokens, 0, "red") {
        proof {
            lemma_subrange_rest(tokens@, 1);
        }
        let r = &tokens[1..tokens.len()];
        return Ok((Color::Red, r));
    }
    if word_is(tokens, 0, "blue") {
        proof {
            lemma_subrange_rest(tokens@, 1);
        }
        let r = &tokens[1..tokens.len()];
        return Ok((Color::Blue, r));
    }
    if word_is(tokens, 0, "purple") {
        proof {
            lemma_subrange_rest(tokens@, 1);
        }
        let r = &tokens[1..tokens.len()];
        return Ok((Color::Purple, r));
    }
    if word_is(tokens, 0, "yellow") {
        proof {
            lemma_subrange_rest(tokens@, 1);
        }
        let r = &tokens[1..tokens.len()];
        return Ok((Color::Yellow, r));
    }
    if word_is(tokens, 0, "colorless") {
        proof {
            lemma_subrange_rest(tokens@, 1);
        }
        let r = &tokens[1..tokens.len()];
        return Ok((Color::Colorless, r));
    }
    match &tokens[0] {
        Tokens::Token(s) => Err(Error::UnexpectedToken(String::from_str("Color"), s.clone())),
        Tokens::List(_) => Err(Error::ExpectedString),
    }
}

pub open spec fn spec_take_param_color(ts: Seq<TokensV>) -> Result<(Color, Seq<TokensV>), ErrorV>
{
    if ts.len() == 0 {
        Err(ErrorV::ExpectedToken)
    } else {
        match ts[0] {
            TokensV::List(v) => {
                match spec_parse_color(v) {
                    Ok((x, r)) => if r.len() == 0 {
                        Ok((x, ts.subrange(1, ts.len() as int)))
                    } else {
                        Err(ErrorV::RemainingTokens)
                    },
                    Err(e) => Err(e),
                }
            },
            TokensV::Token(_) => spec_parse_color(ts),
        }
    }
}

/// Reads a parameter: from the items of a list at the front, which it must use up, or else
/// from the tokens themselves.
pub fn take_param_color<'a>(tokens: &'a [Tokens]) -> (res: Result<(Color, &'a [Tokens]), Error>)
    ensures
        match spec_take_param_color(tokens_views(tokens@)) {
            Ok((v, rest)) => res matches Ok((x, r)) && x@ == v && tokens_views(r@) == rest
                && is_rest_of(r@, tokens@),
            Err(e) => res matches Err(err) && err@ == e,
        },
{
    proof {
        lemma_views(tokens@);
    }
    if tokens.len() == 0 {
        return Err(Error::ExpectedToken);
    }
    match &tokens[0] {
        Tokens::List(v) => {
            proof {
                lemma_sizes_head_list(tokens_views(tokens@), tokens_views(v@));
            }
            match parse_color(v.as_slice()) {
                Ok((x, r)) => {
                    if r.len() == 0 {
                        proof {
                            lemma_subrange_rest(tokens@, 1);
                        }
                        Ok((x, &tokens[1..tokens.len()]))
                    } else {
                        Err(Error::RemainingTokens)
                    }
                },
                Err(e) => Err(e),
            }
        },
        Tokens::Token(_) => parse_color(tokens),
    }
}

pub open spec fn spec_parse_vec_action(ts: Seq<TokensV>) -> Result<(Seq<ActionV>, Seq<TokensV>), ErrorV>
    decreases token_sizes(ts), 2nat,
{
    if ts.len() == 0 {
        Ok((Seq::empty(), ts))
    } else {
        let step = if all_lists(ts) {
            spec_take_param_action(ts)
        } else {
            spec_parse_action(ts)
        };
        match step {
            Err(e) => Err(e),
            Ok((x, r)) => if token_sizes(r) < token_sizes(ts) {
                match spec_parse_vec_action(r) {
                    Err(e) => Err(e),
                    Ok((xs, r2)) => Ok((seq![x] + xs, r2)),
                }
            } else {
                Err(ErrorV::RemainingTokens)
            },
        }
    }
}

/// Reads items until the tokens are used up; when every token is a list, each item is read
/// from one list.
#[verifier::spinoff_prover]
#[verifier::rlimit(40)]
pub fn parse_vec_action<'a>(tokens: &'a [Tokens]) -> (res: Result<(Vec<Action>, &'a [Tokens]), Error>)
    ensures
        match spec_parse_vec_action(tokens_views(tokens@)) {
            Ok((v, rest)) => res matches Ok((x, r)) && action_views(x@) == v && tokens_views(r@) == rest
                && is_suffix_of(r@, tokens@) && (tokens@.len() > 0 ==> r@.len() < tokens@.len()),
            Err(e) => res matches Err(err) && err@ == e,
        },
    decreases token_sizes(tokens_views(tokens@)), 2nat,
{
    let mut v: Vec<Action> = Vec::new();
    let mut cur = tokens;
    proof {
        assert(tokens@ =~= tokens@.subrange(0, tokens@.len() as int));
        assert(action_views(v@) + Seq::<ActionV>::empty() =~= Seq::<ActionV>::empty());
    }
    while cur.len() > 0
        invariant
            is_suffix_of(cur@, tokens@),
            v@.len() > 0 ==> cur@.len() < tokens@.len(),
            spec_parse_vec_action(tokens_views(tokens@)) == (match spec_parse_vec_action(tokens_views(cur@)) {
                Ok((xs, r)) => Ok((action_views(v@) + xs, r)),
                Err(e) => Err(e),
            }),
        decreases cur@.len(),
    {
        proof {
            lemma_views_subrange(tokens@, tokens@.len() - cur@.len(), tokens@.len() as int);
            lemma_views(tokens@);
            lemma_sizes_suffix_le(tokens_views(tokens@), tokens@.len() - cur@.len());
        }
        let step = if are_all_lists(cur) {
            take_param_action(cur)
        } else {
            parse_action(cur)
        };
        match step {
            Err(e) => return Err(e),
            Ok((x, r)) => {
                proof {
                    lemma_rest_sizes(r@, cur@);
                    lemma_action_views_push(v@, x);
                    assert(action_views(v@).push(x@) + Seq::<ActionV>::empty() =~= action_views(v@).push(x@));
                    assert(r@ =~= tokens@.subrange(tokens@.len() - r@.len(), tokens@.len() as int));
                    let ghost cv = tokens_views(cur@);
                    match spec_parse_vec_action(tokens_views(r@)) {
                        Ok((xs, r2)) => {
                            assert(action_views(v@) + (seq![x@] + xs) =~= action_views(v@).push(x@) + xs);
                        },
                        Err(_) => {},
                    }
                }
                v.push(x);
                cur = r;
            },
        }
    }
    proof {
        assert(action_views(v@) + Seq::<ActionV>::empty() =~= action_views(v@));
    }
    Ok((v, cur))
}

pub open spec fn spec_take_param_vec_action(ts: Seq<TokensV>) -> Result<(Seq<ActionV>, Seq<TokensV>), ErrorV>
    decreases token_sizes(ts), 3nat,
{
    if ts.len() == 0 {
        Err(ErrorV::ExpectedToken)
    } else {
        match ts[0] {
            TokensV::List(v) => {
                proof {
                    lemma_sizes_head_list(ts, v);
                }
                match spec_parse_vec_action(v) {
                    Ok((x, r)) => if r.len() == 0 {
                        Ok((x, ts.subrange(1, ts.len() as int)))
                    } else {
                        Err(ErrorV::RemainingTokens)
                    },
                    Err(e) => Err(e),
                }
            },
            TokensV::Token(_) => spec_parse_vec_action(ts),
        }
    }
}

/// Reads a parameter: from the items of a list at the front, which it must use up, or else
/// from the tokens themselves.
pub fn take_param_vec_action<'a>(tokens: &'a [Tokens]) -> (res: Result<(Vec<Action>, &'a [Tokens]), Error>)
    ensures
        match spec_take_param_vec_action(tokens_views(tokens@)) {
            Ok((v, rest)) => res matches Ok((x, r)) && action_views(x@) == v && tokens_views(r@) == rest
                && is_rest_of(r@, tokens@),
            Err(e) => res matches Err(err) && err@ == e,
        },
    decreases token_sizes(tokens_views(tokens@)), 3nat,
{
    proof {
        lemma_views(tokens@);
    }
    if tokens.len() == 0 {
        return Err(Error::ExpectedToken);
    }
    match &tokens[0] {
        Tokens::List(v) => {
            proof {
                lemma_sizes_head_list(tokens_views(tokens@), tokens_views(v@));
            }
            match parse_vec_action(v.as_slice()) {
                Ok((x, r)) => {
                    if r.len() == 0 {
                        proof {
                            lemma_subrange_rest(tokens@, 1);
                        }
                        Ok((x, &tokens[1..tokens.len()]))
                    } else {
                        Err(Error::RemainingTokens)
                    }
                },
                Err(e) => Err(e),
            }
        },
        Tokens::Token(_) => parse_vec_action(tokens),
    }
}

pub open spec fn spec_parse_vec_condition(ts: Seq<TokensV>) -> Result<(Seq<ConditionV>, Seq<TokensV>), ErrorV>
    decreases token_sizes(ts), 0nat,
{
    if ts.len() == 0 {
        Ok((Seq::empty(), ts))
    } else {
        let step = if all_lists(ts) {
            spec_take_param_condition(ts)
        } else {
            spec_parse_condition(ts)
        };
        match step {
            Err(e) => Err(e),
            Ok((x, r)) => if token_sizes(r) < token_sizes(ts) {
                match spec_parse_vec_condition(r) {
                    Err(e) => Err(e),
                    Ok((xs, r2)) => Ok((seq![x] + xs, r2)),
                }
            } else {
                Err(ErrorV::RemainingTokens)
            },
        }
    }
}

/// Reads items until the tokens are used up; when every token is a list, each item is read
/// from one list.
#[verifier::spinoff_prover]
#[verifier::rlimit(40)]
pub fn parse_vec_condition<'a>(tokens: &'a [Tokens]) -> (res: Result<(Vec<Condition>, &'a [Tokens]), Error>)
    ensures
        match spec_parse_vec_condition(tokens_views(tokens@)) {
            Ok((v, rest)) => res matches Ok((x, r)) && condition_views(x@) == v && tokens_views(r@) == rest
                && is_suffix_of(r@, tokens@) && (tokens@.len() > 0 ==> r@.len() < tokens@.len()),
            Err(e) => res matches Err(err) && err@ == e,
        },
    decreases token_sizes(tokens_views(tokens@)), 0nat,
{
    let mut v: Vec<Condition> = Vec::new();
    let mut cur = tokens;
    proof {
        assert(tokens@ =~= tokens@.subrange(0, tokens@.len() as int));
        assert(condition_views(v@) + Seq::<ConditionV>::empty() =~= Seq::<ConditionV>::empty());
    }
    while cur.len() > 0
        invariant
            is_suffix_of(cur@, tokens@),
            v@.len() > 0 ==> cur@.len() < tokens@.len(),
            spec_parse_vec_condition(tokens_views(tokens@)) == (match spec_parse_vec_condition(tokens_views(cur@)) {
                Ok((xs, r)) => Ok((condition_views(v@) + xs, r)),
                Err(e) => Err(e),
            }),
        decreases cur@.len(),
    {
        proof {
            lemma_views_subrange(tokens@, tokens@.len() - cur@.len(), tokens@.len() as int);
            lemma_views(tokens@);
            lemma_sizes_suffix_le(tokens_views(tokens@), tokens@.len() - cur@.len());
        }
        let step = if are_all_lists(cur) {
            take_param_condition(cur)
        } else {
            parse_condition(cur)
        };
        match step {
            Err(e) => return Err(e),
            Ok((x, r)) => {
                proof {
                    lemma_rest_sizes(r@, cur@);
                    lemma_condition_views_push(v@, x);
                    assert(condition_views(v@).push(x@) + Seq::<ConditionV>::empty() =~= condition_views(v@).push(x@));
                    assert(r@ =~= tokens@.subrange(tokens@.len() - r@.len(), tokens@.len() as int));
                    let ghost cv = tokens_views(cur@);
                    match spec_parse_vec_condition(tokens_views(r@)) {
                        Ok((xs, r2)) => {
                            assert(condition_views(v@) + (seq![x@] + xs) =~= condition_views(v@).push(x@) + xs);
                        },
                        Err(_) => {},
                    }
                }
                v.push(x);
                cur = r;
            },
        }
    }
    proof {
        assert(condition_views(v@) + Seq::<ConditionV>::empty() =~= condition_views(v@));
    }
    Ok((v, cur))
}

pub open spec fn spec_take_param_vec_condition(ts: Seq<TokensV>) -> Result<(Seq<ConditionV>, Seq<TokensV>), ErrorV>
{
    if ts.len() == 0 {
        Err(ErrorV::ExpectedToken)
    } else {
        match ts[0] {
            TokensV::List(v) => {
                match spec_parse_vec_condition(v) {
                    Ok((x, r)) => if r.len() == 0 {
                        Ok((x, ts.subrange(1, ts.len() as int)))
                    } else {
                        Err(ErrorV::RemainingTokens)
                    },
                    Err(e) => Err(e),
                }
            },
            TokensV::Token(_) => spec_parse_vec_condition(ts),
        }
    }
}

/// Reads a parameter: from the items of a list at the front, which it must use up, or else
/// from the tokens themselves.
pub fn take_param_vec_condition<'a>(tokens: &'a [Tokens]) -> (res: Result<(Vec<Condition>, &'a [Tokens]), Error>)
    ensures
        match spec_take_param_vec_condition(tokens_views(tokens@)) {
            Ok((v, rest)) => res matches Ok((x, r)) && condition_views(x@) == v && tokens_views(r@) == rest
                && is_rest_of(r@, tokens@),
            Err(e) => res matches Err(err) && err@ == e,
        },
{
    proof {
        lemma_views(tokens@);
    }
    if tokens.len() == 0 {
        return Err(Error::ExpectedToken);
    }
    match &tokens[0] {
        Tokens::List(v) => {
            proof {
                lemma_sizes_head_list(tokens_views(tokens@), tokens_views(v@));
            }
            match parse_vec_condition(v.as_slice()) {
                Ok((x, r)) => {
                    if r.len() == 0 {
                        proof {
                            lemma_subrange_rest(tokens@, 1);
                        }
                        Ok((x, &tokens[1..tokens.len()]))
                    } else {
                        Err(Error::RemainingTokens)
                    }
                },
                Err(e) => Err(e),
            }
        },
        Tokens::Token(_) => parse_vec_condition(tokens),
    }
}

// ------------------------------------------------------------------
// equality and copies
// ------------------------------------------------------------------

/// Whether two values of a Action are the same.
pub fn action_eq(a: &Action, b: &Action) -> (res: bool)
    ensures
        res == (a@ == b@),
    decreases a,
{
    match a {
        Action::AddGlobalModifier(a0, a1, a2) => {
            match b {
                Action::AddGlobalModifier(b0, b1, b2) => (*a0 == *b0) && (modifier_eq(a1, b1)) && (life_time_eq(a2, b2)),
                _ => false,
            }
        },
        Action::AddModifier(a0, a1, a2) => {
            match b {
                Action::AddModifier(b0, b1, b2) => (card_references_eq(a0, b0)) && (modifier_eq(a1, b1)) && (life_time_eq(a2, b2)),
                _ => false,
            }
        },
        Action::AddZoneModifier(a0, a1, a2) => {
            match b {
                Action::AddZoneModifier(b0, b1, b2) => (*a0 == *b0) && (modifier_eq(a1, b1)) && (life_time_eq(a2, b2)),
                _ => false,
            }
        },
        Action::AttachCards(a0, a1) => {
            match b {
                Action::AttachCards(b0, b1) => (card_references_eq(a0, b0)) && (card_reference_eq(a1, b1)),
                _ => false,
            }
        },
        Action::DealDamage(a0, a1) => {
            match b {
                Action::DealDamage(b0, b1) => (card_references_eq(a0, b0)) && (number_eq(a1, b1)),
                _ => false,
            }
        },
        Action::DealSpecialDamage(a0, a1) => {
            match b {
                Action::DealSpecialDamage(b0, b1) => (card_references_eq(a0, b0)) && (number_eq(a1, b1)),
                _ => false,
            }
        },
        Action::Draw(a0) => {
            match b {
                Action::Draw(b0) => (number_eq(a0, b0)),
                _ => false,
            }
        },
        Action::If(a0, a1) => {
            assert(decreases_to!(*a => (*a)->If_1));
            match b {
                Action::If(b0, b1) => (condition_eq(a0, b0)) && (vec_action_eq(a1, b1)),
                _ => false,
            }
        },
        Action::KnockOut(a0) => {
            match b {
                Action::KnockOut(b0) => (card_references_eq(a0, b0)),
                _ => false,
            }
        },
        Action::LetCardReferences(a0) => {
            match b {
                Action::LetCardReferences(b0) => (let_card_references_eq(a0, b0)),
                _ => false,
            }
        },
        Action::LetCondition(a0) => {
            match b {
                Action::LetCondition(b0) => (let_condition_eq(a0, b0)),
                _ => false,
            }
        },
        Action::LetSelect(a0) => {
            match b {
                Action::LetSelect(b0) => (let_let_value_eq(a0, b0)),
                _ => false,
            }
        },
        Action::LetNumber(a0) => {
            match b {
                Action::LetNumber(b0) => (let_number_eq(a0, b0)),
                _ => false,
            }
        },
        Action::Noop => matches!(b, Action::Noop),
        Action::Reveal(a0) => {
            match b {
                Action::Reveal(b0) => (card_references_eq(a0, b0)),
                _ => false,
            }
        },
        Action::SendTo(a0, a1) => {
            match b {
                Action::SendTo(b0, b1) => (*a0 == *b0) && (card_references_eq(a1, b1)),
                _ => false,
            }
        },
        Action::SendToBottom(a0, a1) => {
            match b {
                Action::SendToBottom(b0, b1) => (*a0 == *b0) && (card_references_eq(a1, b1)),
                _ => false,
            }
        },
        Action::SendToTop(a0, a1) => {
            match b {
                Action::SendToTop(b0, b1) => (*a0 == *b0) && (card_references_eq(a1, b1)),
                _ => false,
            }
        },
        Action::Shuffle(a0) => {
            match b {
                Action::Shuffle(b0) => (*a0 == *b0),
                _ => false,
            }
        },
    }
}

/// A copy of a Action.
pub fn action_clone(a: &Action) -> (res: Action)
    ensures
        res@ == a@,
    decreases a,
{
    match a {
        Action::AddGlobalModifier(a0, a1, a2) => {
            Action::AddGlobalModifier(*a0, modifier_clone(a1), life_time_clone(a2))
        },
        Action::AddModifier(a0, a1, a2) => {
            Action::AddModifier(card_references_clone(a0), modifier_clone(a1), life_time_clone(a2))
        },
        Action::AddZoneModifier(a0, a1, a2) => {
            Action::AddZoneModifier(*a0, modifier_clone(a1), life_time_clone(a2))
        },
        Action::AttachCards(a0, a1) => {
            Action::AttachCards(card_references_clone(a0), card_reference_clone(a1))
        },
        Action::DealDamage(a0, a1) => {
            Action::DealDamage(card_references_clone(a0), number_clone(a1))
        },
        Action::DealSpecialDamage(a0, a1) => {
            Action::DealSpecialDamage(card_references_clone(a0), number_clone(a1))
        },
        Action::Draw(a0) => {
            Action::Draw(number_clone(a0))
        },
        Action::If(a0, a1) => {
            assert(decreases_to!(*a => (*a)->If_1));
            Action::If(condition_clone(a0), vec_action_clone(a1))
        },
        Action::KnockOut(a0) => {
            Action::KnockOut(card_references_clone(a0))
        },
        Action::LetCardReferences(a0) => {
            Action::LetCardReferences(let_card_references_clone(a0))
        },
        Action::LetCondition(a0) => {
            Action::LetCondition(let_condition_clone(a0))
        },
        Action::LetSelect(a0) => {
            Action::LetSelect(let_let_value_clone(a0))
        },
        Action::LetNumber(a0) => {
            Action::LetNumber(let_number_clone(a0))
        },
        Action::Noop => Action::Noop,
        Action::Reveal(a0) => {
            Action::Reveal(card_references_clone(a0))
        },
        Action::SendTo(a0, a1) => {
            Action::SendTo(*a0, card_references_clone(a1))
        },
        Action::SendToBottom(a0, a1) => {
            Action::SendToBottom(*a0, card_references_clone(a1))
        },
        Action::SendToTop(a0, a1) => {
            Action::SendToTop(*a0, card_references_clone(a1))
        },
        Action::Shuffle(a0) => {
            Action::Shuffle(*a0)
        },
    }
}

/// Whether two values of a CardReference are the same.
pub fn card_reference_eq(a: &CardReference, b: &CardReference) -> (res: bool)
    ensures
        res == (a@ == b@),
{
    match a {
        CardReference::ArtTarget => matches!(b, CardReference::ArtTarget),
        CardReference::AttachTarget => matches!(b, CardReference::AttachTarget),
        CardReference::EventOrigin => matches!(b, CardReference::EventOrigin),
        CardReference::ThisCard => matches!(b, CardReference::ThisCard),
        CardReference::Var(a0) => {
            match b {
                CardReference::Var(b0) => (a0.0 == b0.0),
                _ => false,
            }
        },
    }
}

/// A copy of a CardReference.
pub fn card_reference_clone(a: &CardReference) -> (res: CardReference)
    ensures
        res@ == a@,
{
    match a {
        CardReference::ArtTarget => CardReference::ArtTarget,
        CardReference::AttachTarget => CardReference::AttachTarget,
        CardReference::EventOrigin => CardReference::EventOrigin,
        CardReference::ThisCard => CardReference::ThisCard,
        CardReference::Var(a0) => {
            CardReference::Var(Var(a0.0.clone()))
        },
    }
}

/// Whether two values of a CardReferences are the same.
pub fn card_references_eq(a: &CardReferences, b: &CardReferences) -> (res: bool)
    ensures
        res == (a@ == b@),
    decreases a,
{
    match a {
        CardReferences::ArtTarget => matches!(b, CardReferences::ArtTarget),
        CardReferences::AttachedTo(a0) => {
            match b {
                CardReferences::AttachedTo(b0) => (card_reference_eq(a0, b0)),
                _ => false,
            }
        },
        CardReferences::AttachTarget => matches!(b, CardReferences::AttachTarget),
        CardReferences::EventOrigin => matches!(b, CardReferences::EventOrigin),
        CardReferences::From(a0) => {
            match b {
                CardReferences::From(b0) => (*a0 == *b0),
                _ => false,
            }
        },
        CardReferences::FromTop(a0, a1) => {
            match b {
                CardReferences::FromTop(b0, b1) => (number_eq(&**a0, &**b0)) && (*a1 == *b1),
                _ => false,
            }
        },
        CardReferences::Leftovers => matches!(b, CardReferences::Leftovers),
        CardReferences::ThisCard => matches!(b, CardReferences::ThisCard),
        CardReferences::Var(a0) => {
            match b {
                CardReferences::Var(b0) => (a0.0 == b0.0),
                _ => false,
            }
        },
        CardReferences::Filter(a0, a1) => {
            match b {
                CardReferences::Filter(b0, b1) => (card_references_eq(&**a0, &**b0)) && (condition_eq(&**a1, &**b1)),
                _ => false,
            }
        },
    }
}

/// A copy of a CardReferences.
pub fn card_references_clone(a: &CardReferences) -> (res: CardReferences)
    ensures
        res@ == a@,
    decreases a,
{
    match a {
        CardReferences::ArtTarget => CardReferences::ArtTarget,
        CardReferences::AttachedTo(a0) => {
            CardReferences::AttachedTo(card_reference_clone(a0))
        },
        CardReferences::AttachTarget => CardReferences::AttachTarget,
        CardReferences::EventOrigin => CardReferences::EventOrigin,
        CardReferences::From(a0) => {
            CardReferences::From(*a0)
        },
        CardReferences::FromTop(a0, a1) => {
            CardReferences::FromTop(Box::new(number_clone(&**a0)), *a1)
        },
        CardReferences::Leftovers => CardReferences::Leftovers,
        CardReferences::ThisCard => CardReferences::ThisCard,
        CardReferences::Var(a0) => {
            CardReferences::Var(Var(a0.0.clone()))
        },
        CardReferences::Filter(a0, a1) => {
            CardReferences::Filter(Box::new(card_references_clone(&**a0)), Box::new(condition_clone(&**a1)))
        },
    }
}

/// Whether two values of a Condition are the same.
pub fn condition_eq(a: &Condition, b: &Condition) -> (res: bool)
    ensures
        res == (a@ == b@),
    decreases a,
{
    match a {
        Condition::All(a0, a1) => {
            match b {
                Condition::All(b0, b1) => (card_references_eq(a0, b0)) && (condition_eq(&**a1, &**b1)),
                _ => false,
            }
        },
        Condition::And(a0, a1) => {
            match b {
                Condition::And(b0, b1) => (condition_eq(&**a0, &**b0)) && (condition_eq(&**a1, &**b1)),
                _ => false,
            }
        },
        Condition::Any(a0, a1) => {
            match b {
                Condition::Any(b0, b1) => (card_references_eq(a0, b0)) && (condition_eq(&**a1, &**b1)),
                _ => false,
            }
        },
        Condition::Anything => matches!(b, Condition::Anything),
        Condition::Equals(a0, a1) => {
            match b {
                Condition::Equals(b0, b1) => (number_eq(a0, b0)) && (number_eq(a1, b1)),
                _ => false,
            }
        },
        Condition::Exists(a0) => {
            match b {
                Condition::Exists(b0) => (card_references_eq(a0, b0)),
                _ => false,
            }
        },
        Condition::False => matches!(b, Condition::False),
        Condition::GreaterThanEquals(a0, a1) => {
            match b {
                Condition::GreaterThanEquals(b0, b1) => (number_eq(a0, b0)) && (number_eq(a1, b1)),
                _ => false,
            }
        },
        Condition::HasCheers => matches!(b, Condition::HasCheers),
        Condition::IsAttributeBuzz => matches!(b, Condition::IsAttributeBuzz),
        Condition::IsColor(a0) => {
            match b {
                Condition::IsColor(b0) => (*a0 == *b0),
                _ => false,
            }
        },
        Condition::IsCheer => matches!(b, Condition::IsCheer),
        Condition::IsEven(a0) => {
            match b {
                Condition::IsEven(b0) => (number_eq(a0, b0)),
                _ => false,
            }
        },
        Condition::IsInZone(a0) => {
            match b {
                Condition::IsInZone(b0) => (*a0 == *b0),
                _ => false,
            }
        },
        Condition::IsLevelFirst => matches!(b, Condition::IsLevelFirst),
        Condition::IsLevelSecond => matches!(b, Condition::IsLevelSecond),
        Condition::IsMember => matches!(b, Condition::IsMember),
        Condition::IsNamedAzki => matches!(b, Condition::IsNamedAzki),
        Condition::IsNamedOmaruPolka => matches!(b, Condition::IsNamedOmaruPolka),
        Condition::IsNamedTokinoSora => matches!(b, Condition::IsNamedTokinoSora),
        Condition::IsNamedUsadaPekora => matches!(b, Condition::IsNamedUsadaPekora),
        Condition::IsCard(a0) => {
            match b {
                Condition::IsCard(b0) => (card_reference_eq(a0, b0)),
                _ => false,
            }
        },
        Condition::IsNotCard(a0) => {
            match b {
                Condition::IsNotCard(b0) => (card_reference_eq(a0, b0)),
                _ => false,
            }
        },
        Condition::IsOdd(a0) => {
            match b {
                Condition::IsOdd(b0) => (number_eq(a0, b0)),
                _ => false,
            }
        },
        Condition::IsSupportLimited => matches!(b, Condition::IsSupportLimited),
        Condition::LessThanEquals(a0, a1) => {
            match b {
                Condition::LessThanEquals(b0, b1) => (number_eq(a0, b0)) && (number_eq(a1, b1)),
                _ => false,
            }
        },
        Condition::Not(a0) => {
            match b {
                Condition::Not(b0) => (condition_eq(&**a0, &**b0)),
                _ => false,
            }
        },
        Condition::Or(a0, a1) => {
            match b {
                Condition::Or(b0, b1) => (condition_eq(&**a0, &**b0)) && (condition_eq(&**a1, &**b1)),
                _ => false,
            }
        },
        Condition::True => matches!(b, Condition::True),
        Condition::Var(a0) => {
            match b {
                Condition::Var(b0) => (a0.0 == b0.0),
                _ => false,
            }
        },
        Condition::Yours => matches!(b, Condition::Yours),
    }
}

/// A copy of a Condition.
pub fn condition_clone(a: &Condition) -> (res: Condition)
    ensures
        res@ == a@,
    decreases a,
{
    match a {
        Condition::All(a0, a1) => {
            Condition::All(card_references_clone(a0), Box::new(condition_clone(&**a1)))
        },
        Condition::And(a0, a1) => {
            Condition::And(Box::new(condition_clone(&**a0)), Box::new(condition_clone(&**a1)))
        },
        Condition::Any(a0, a1) => {
            Condition::Any(card_references_clone(a0), Box::new(condition_clone(&**a1)))
        },
        Condition::Anything => Condition::Anything,
        Condition::Equals(a0, a1) => {
            Condition::Equals(number_clone(a0), number_clone(a1))
        },
        Condition::Exists(a0) => {
            Condition::Exists(card_references_clone(a0))
        },
        Condition::False => Condition::False,
        Condition::GreaterThanEquals(a0, a1) => {
            Condition::GreaterThanEquals(number_clone(a0), number_clone(a1))
        },
        Condition::HasCheers => Condition::HasCheers,
        Condition::IsAttributeBuzz => Condition::IsAttributeBuzz,
        Condition::IsColor(a0) => {
            Condition::IsColor(*a0)
        },
        Condition::IsCheer => Condition::IsCheer,
        Condition::IsEven(a0) => {
            Condition::IsEven(number_clone(a0))
        },
        Condition::IsInZone(a0) => {
            Condition::IsInZone(*a0)
        },
        Condition::IsLevelFirst => Condition::IsLevelFirst,
        Condition::IsLevelSecond => Condition::IsLevelSecond,
        Condition::IsMember => Condition::IsMember,
        Condition::IsNamedAzki => Condition::IsNamedAzki,
        Condition::IsNamedOmaruPolka => Condition::IsNamedOmaruPolka,
        Condition::IsNamedTokinoSora => Condition::IsNamedTokinoSora,
        Condition::IsNamedUsadaPekora => Condition::IsNamedUsadaPekora,
        Condition::IsCard(a0) => {
            Condition::IsCard(card_reference_clone(a0))
        },
        Condition::IsNotCard(a0) => {
            Condition::IsNotCard(card_reference_clone(a0))
        },
        Condition::IsOdd(a0) => {
            Condition::IsOdd(number_clone(a0))
        },
        Condition::IsSupportLimited => Condition::IsSupportLimited,
        Condition::LessThanEquals(a0, a1) => {
            Condition::LessThanEquals(number_clone(a0), number_clone(a1))
        },
        Condition::Not(a0) => {
            Condition::Not(Box::new(condition_clone(&**a0)))
        },
        Condition::Or(a0, a1) => {
            Condition::Or(Box::new(condition_clone(&**a0)), Box::new(condition_clone(&**a1)))
        },
        Condition::True => Condition::True,
        Condition::Var(a0) => {
            Condition::Var(Var(a0.0.clone()))
        },
        Condition::Yours => Condition::Yours,
    }
}

/// Whether two values of a LetValue are the same.
pub fn let_value_eq(a: &LetValue, b: &LetValue) -> (res: bool)
    ensures
        res == (a@ == b@),
{
    match a {
        LetValue::OptionalActivate => matches!(b, LetValue::OptionalActivate),
        LetValue::RollDice => matches!(b, LetValue::RollDice),
        LetValue::SelectAny(a0, a1) => {
            match b {
                LetValue::SelectAny(b0, b1) => (card_references_eq(&**a0, &**b0)) && (condition_eq(&**a1, &**b1)),
                _ => false,
            }
        },
        LetValue::SelectOne(a0, a1) => {
            match b {
                LetValue::SelectOne(b0, b1) => (card_references_eq(&**a0, &**b0)) && (condition_eq(&**a1, &**b1)),
                _ => false,
            }
        },
        LetValue::SelectNumberBetween(a0, a1) => {
            match b {
                LetValue::SelectNumberBetween(b0, b1) => (number_eq(&**a0, &**b0)) && (number_eq(&**a1, &**b1)),
                _ => false,
            }
        },
        LetValue::SelectUpTo(a0, a1, a2) => {
            match b {
                LetValue::SelectUpTo(b0, b1, b2) => (number_eq(&**a0, &**b0)) && (card_references_eq(&**a1, &**b1)) && (condition_eq(&**a2, &**b2)),
                _ => false,
            }
        },
    }
}

/// A copy of a LetValue.
pub fn let_value_clone(a: &LetValue) -> (res: LetValue)
    ensures
        res@ == a@,
{
    match a {
        LetValue::OptionalActivate => LetValue::OptionalActivate,
        LetValue::RollDice => LetValue::RollDice,
        LetValue::SelectAny(a0, a1) => {
            LetValue::SelectAny(Box::new(card_references_clone(&**a0)), Box::new(condition_clone(&**a1)))
        },
        LetValue::SelectOne(a0, a1) => {
            LetValue::SelectOne(Box::new(card_references_clone(&**a0)), Box::new(condition_clone(&**a1)))
        },
        LetValue::SelectNumberBetween(a0, a1) => {
            LetValue::SelectNumberBetween(Box::new(number_clone(&**a0)), Box::new(number_clone(&**a1)))
        },
        LetValue::SelectUpTo(a0, a1, a2) => {
            LetValue::SelectUpTo(Box::new(number_clone(&**a0)), Box::new(card_references_clone(&**a1)), Box::new(condition_clone(&**a2)))
        },
    }
}

/// Whether two values of a LifeTime are the same.
pub fn life_time_eq(a: &LifeTime, b: &LifeTime) -> (res: bool)
    ensures
        res == (a@ == b@),
{
    match a {
        LifeTime::ThisGame => matches!(b, LifeTime::ThisGame),
        LifeTime::ThisTurn => matches!(b, LifeTime::ThisTurn),
        LifeTime::NextTurn(a0) => {
            match b {
                LifeTime::NextTurn(b0) => (*a0 == *b0),
                _ => false,
            }
        },
        LifeTime::ThisStep => matches!(b, LifeTime::ThisStep),
        LifeTime::ThisArt => matches!(b, LifeTime::ThisArt),
        LifeTime::ThisEffect => matches!(b, LifeTime::ThisEffect),
        LifeTime::UntilRemoved => matches!(b, LifeTime::UntilRemoved),
        LifeTime::WhileAttached(a0) => {
            match b {
                LifeTime::WhileAttached(b0) => (card_reference_eq(a0, b0)),
                _ => false,
            }
        },
    }
}

/// A copy of a LifeTime.
pub fn life_time_clone(a: &LifeTime) -> (res: LifeTime)
    ensures
        res@ == a@,
{
    match a {
        LifeTime::ThisGame => LifeTime::ThisGame,
        LifeTime::ThisTurn => LifeTime::ThisTurn,
        LifeTime::NextTurn(a0) => {
            LifeTime::NextTurn(*a0)
        },
        LifeTime::ThisStep => LifeTime::ThisStep,
        LifeTime::ThisArt => LifeTime::ThisArt,
        LifeTime::ThisEffect => LifeTime::ThisEffect,
        LifeTime::UntilRemoved => LifeTime::UntilRemoved,
        LifeTime::WhileAttached(a0) => {
            LifeTime::WhileAttached(card_reference_clone(a0))
        },
    }
}

/// Whether two values of a Modifier are the same.
pub fn modifier_eq(a: &Modifier, b: &Modifier) -> (res: bool)
    ensures
        res == (a@ == b@),
    decreases a,
{
    match a {
        Modifier::AsArtCost(a0, a1) => {
            match b {
                Modifier::AsArtCost(b0, b1) => (number_eq(a0, b0)) && (*a1 == *b1),
                _ => false,
            }
        },
        Modifier::AsCheer(a0, a1) => {
            match b {
                Modifier::AsCheer(b0, b1) => (number_eq(a0, b0)) && (*a1 == *b1),
                _ => false,
            }
        },
        Modifier::DealLessDamage(a0) => {
            match b {
                Modifier::DealLessDamage(b0) => (number_eq(a0, b0)),
                _ => false,
            }
        },
        Modifier::DealMoreDamage(a0) => {
            match b {
                Modifier::DealMoreDamage(b0) => (number_eq(a0, b0)),
                _ => false,
            }
        },
        Modifier::ReceiveLessDamage(a0) => {
            match b {
                Modifier::ReceiveLessDamage(b0) => (number_eq(a0, b0)),
                _ => false,
            }
        },
        Modifier::ReceiveMoreDamage(a0) => {
            match b {
                Modifier::ReceiveMoreDamage(b0) => (number_eq(a0, b0)),
                _ => false,
            }
        },
        Modifier::NextDiceRoll(a0) => {
            match b {
                Modifier::NextDiceRoll(b0) => (number_eq(a0, b0)),
                _ => false,
            }
        },
        Modifier::NoLifeLoss => matches!(b, Modifier::NoLifeLoss),
        Modifier::When(a0, a1) => {
            match b {
                Modifier::When(b0, b1) => (condition_eq(a0, b0)) && (modifier_eq(&**a1, &**b1)),
                _ => false,
            }
        },
    }
}

/// A copy of a Modifier.
pub fn modifier_clone(a: &Modifier) -> (res: Modifier)
    ensures
        res@ == a@,
    decreases a,
{
    match a {
        Modifier::AsArtCost(a0, a1) => {
            Modifier::AsArtCost(number_clone(a0), *a1)
        },
        Modifier::AsCheer(a0, a1) => {
            Modifier::AsCheer(number_clone(a0), *a1)
        },
        Modifier::DealLessDamage(a0) => {
            Modifier::DealLessDamage(number_clone(a0))
        },
        Modifier::DealMoreDamage(a0) => {
            Modifier::DealMoreDamage(number_clone(a0))
        },
        Modifier::ReceiveLessDamage(a0) => {
            Modifier::ReceiveLessDamage(number_clone(a0))
        },
        Modifier::ReceiveMoreDamage(a0) => {
            Modifier::ReceiveMoreDamage(number_clone(a0))
        },
        Modifier::NextDiceRoll(a0) => {
            Modifier::NextDiceRoll(number_clone(a0))
        },
        Modifier::NoLifeLoss => Modifier::NoLifeLoss,
        Modifier::When(a0, a1) => {
            Modifier::When(condition_clone(a0), Box::new(modifier_clone(&**a1)))
        },
    }
}

/// Whether two values of a Number are the same.
pub fn number_eq(a: &Number, b: &Number) -> (res: bool)
    ensures
        res == (a@ == b@),
    decreases a,
{
    match a {
        Number::Count(a0) => {
            match b {
                Number::Count(b0) => (card_references_eq(a0, b0)),
                _ => false,
            }
        },
        Number::Literal(a0) => {
            match b {
                Number::Literal(b0) => (a0.0 == b0.0),
                _ => false,
            }
        },
        Number::Minus(a0, a1) => {
            match b {
                Number::Minus(b0, b1) => (number_eq(&**a0, &**b0)) && (number_eq(&**a1, &**b1)),
                _ => false,
            }
        },
        Number::Multiply(a0, a1) => {
            match b {
                Number::Multiply(b0, b1) => (number_eq(&**a0, &**b0)) && (number_eq(&**a1, &**b1)),
                _ => false,
            }
        },
        Number::Plus(a0, a1) => {
            match b {
                Number::Plus(b0, b1) => (number_eq(&**a0, &**b0)) && (number_eq(&**a1, &**b1)),
                _ => false,
            }
        },
        Number::Var(a0) => {
            match b {
                Number::Var(b0) => (a0.0 == b0.0),
                _ => false,
            }
        },
        Number::DamageAmount => matches!(b, Number::DamageAmount),
        Number::HealthPointAmount => matches!(b, Number::HealthPointAmount),
    }
}

/// A copy of a Number.
pub fn number_clone(a: &Number) -> (res: Number)
    ensures
        res@ == a@,
    decreases a,
{
    match a {
        Number::Count(a0) => {
            Number::Count(card_references_clone(a0))
        },
        Number::Literal(a0) => {
            Number::Literal(NumberLiteral(a0.0))
        },
        Number::Minus(a0, a1) => {
            Number::Minus(Box::new(number_clone(&**a0)), Box::new(number_clone(&**a1)))
        },
        Number::Multiply(a0, a1) => {
            Number::Multiply(Box::new(number_clone(&**a0)), Box::new(number_clone(&**a1)))
        },
        Number::Plus(a0, a1) => {
            Number::Plus(Box::new(number_clone(&**a0)), Box::new(number_clone(&**a1)))
        },
        Number::Var(a0) => {
            Number::Var(Var(a0.0.clone()))
        },
        Number::DamageAmount => Number::DamageAmount,
        Number::HealthPointAmount => Number::HealthPointAmount,
    }
}

pub fn let_card_references_eq(a: &Let<CardReferences>, b: &Let<CardReferences>) -> (res: bool)
    ensures
        res == (a@ == b@),
{
    a.0.0 == b.0.0 && card_references_eq(&a.1, &b.1)
}

pub fn let_card_references_clone(a: &Let<CardReferences>) -> (res: Let<CardReferences>)
    ensures
        res@ == a@,
{
    Let(Var(a.0.0.clone()), card_references_clone(&a.1))
}

pub fn let_condition_eq(a: &Let<Condition>, b: &Let<Condition>) -> (res: bool)
    ensures
        res == (a@ == b@),
{
    a.0.0 == b.0.0 && condition_eq(&a.1, &b.1)
}

pub fn let_condition_clone(a: &Let<Condition>) -> (res: Let<Condition>)
    ensures
        res@ == a@,
{
    Let(Var(a.0.0.clone()), condition_clone(&a.1))
}

pub fn let_let_value_eq(a: &Let<LetValue>, b: &Let<LetValue>) -> (res: bool)
    ensures
        res == (a@ == b@),
{
    a.0.0 == b.0.0 && let_value_eq(&a.1, &b.1)
}

pub fn let_let_value_clone(a: &Let<LetValue>) -> (res: Let<LetValue>)
    ensures
        res@ == a@,
{
    Let(Var(a.0.0.clone()), let_value_clone(&a.1))
}

pub fn let_number_eq(a: &Let<Number>, b: &Let<Number>) -> (res: bool)
    ensures
        res == (a@ == b@),
{
    a.0.0 == b.0.0 && number_eq(&a.1, &b.1)
}

pub fn let_number_clone(a: &Let<Number>) -> (res: Let<Number>)
    ensures
        res@ == a@,
{
    Let(Var(a.0.0.clone()), number_clone(&a.1))
}

/// Whether two lists hold the same items.
pub fn vec_action_eq(a: &Vec<Action>, b: &Vec<Action>) -> (res: bool)
    ensures
        res == (action_views(a@) == action_views(b@)),
    decreases a,
{
    proof {
        lemma_action_views(a@);
        lemma_action_views(b@);
    }
    if a.len() != b.len() {
        return false;
    }
    let mut i: usize = 0;
    while i < a.len()
        invariant
            0 <= i <= a@.len(),
            a@.len() == b@.len(),
            action_views(a@).len() == a@.len(),
            action_views(b@).len() == b@.len(),
            forall|j: int| 0 <= j < a@.len() ==> #[trigger] action_views(a@)[j] == a@[j]@,
            forall|j: int| 0 <= j < b@.len() ==> #[trigger] action_views(b@)[j] == b@[j]@,
            forall|j: int| 0 <= j < i ==> a@[j]@ == b@[j]@,
        decreases a@.len() - i,
    {
        assert(decreases_to!(*a => a@));
        assert(decreases_to!(a@ => a@[i as int]));
        if !action_eq(&a[i], &b[i]) {
            assert(action_views(a@)[i as int] != action_views(b@)[i as int]);
            return false;
        }
        i = i + 1;
    }
    assert(action_views(a@) =~= action_views(b@));
    true
}

/// A copy of a list.
pub fn vec_action_clone(a: &Vec<Action>) -> (res: Vec<Action>)
    ensures
        action_views(res@) == action_views(a@),
    decreases a,
{
    proof {
        lemma_action_views(a@);
    }
    let mut out: Vec<Action> = Vec::new();
    let mut i: usize = 0;
    while i < a.len()
        invariant
            0 <= i <= a@.len(),
            action_views(a@).len() == a@.len(),
            forall|j: int| 0 <= j < a@.len() ==> #[trigger] action_views(a@)[j] == a@[j]@,
            action_views(out@) == action_views(a@).take(i as int),
        decreases a@.len() - i,
    {
        assert(decreases_to!(*a => a@));
        assert(decreases_to!(a@ => a@[i as int]));
        let c = action_clone(&a[i]);
        proof {
            lemma_action_views_push(out@, c);
            assert(action_views(a@).take(i + 1) =~= action_views(a@).take(i as int).push(c@));
        }
        out.push(c);
        i = i + 1;
    }
    assert(action_views(a@).take(a@.len() as int) =~= action_views(a@));
    out
}

/// Whether two lists hold the same items.
pub fn vec_condition_eq(a: &Vec<Condition>, b: &Vec<Condition>) -> (res: bool)
    ensures
        res == (condition_views(a@) == condition_views(b@)),
{
    proof {
        lemma_condition_views(a@);
        lemma_condition_views(b@);
    }
    if a.len() != b.len() {
        return false;
    }
    let mut i: usize = 0;
    while i < a.len()
        invariant
            0 <= i <= a@.len(),
            a@.len() == b@.len(),
            condition_views(a@).len() == a@.len(),
            condition_views(b@).len() == b@.len(),
            forall|j: int| 0 <= j < a@.len() ==> #[trigger] condition_views(a@)[j] == a@[j]@,
            forall|j: int| 0 <= j < b@.len() ==> #[trigger] condition_views(b@)[j] == b@[j]@,
            forall|j: int| 0 <= j < i ==> a@[j]@ == b@[j]@,
        decreases a@.len() - i,
    {
        if !condition_eq(&a[i], &b[i]) {
            assert(condition_views(a@)[i as int] != condition_views(b@)[i as int]);
            return false;
        }
        i = i + 1;
    }
    assert(condition_views(a@) =~= condition_views(b@));
    true
}

/// A copy of a list.
pub fn vec_condition_clone(a: &Vec<Condition>) -> (res: Vec<Condition>)
    ensures
        condition_views(res@) == condition_views(a@),
{
    proof {
        lemma_condition_views(a@);
    }
    let mut out: Vec<Condition> = Vec::new();
    let mut i: usize = 0;
    while i < a.len()
        invariant
            0 <= i <= a@.len(),
            condition_views(a@).len() == a@.len(),
            forall|j: int| 0 <= j < a@.len() ==> #[trigger] condition_views(a@)[j] == a@[j]@,
            condition_views(out@) == condition_views(a@).take(i as int),
        decreases a@.len() - i,
    {
        let c = condition_clone(&a[i]);
        proof {
            lemma_condition_views_push(out@, c);
            assert(condition_views(a@).take(i + 1) =~= condition_views(a@).take(i as int).push(c@));
        }
        out.push(c);
        i = i + 1;
    }
    assert(condition_views(a@).take(a@.len() as int) =~= condition_views(a@));
    out
}

// ------------------------------------------------------------------
// the reader and writer interfaces
// ------------------------------------------------------------------

impl ParseTokens for Action {
    fn parse_tokens(tokens: &[Tokens]) -> (res: Result<(Action, &[Tokens]), Error>)
        ensures
            match spec_parse_action(tokens_views(tokens@)) {
                Ok((v, rest)) => res matches Ok((x, r)) && x@ == v && tokens_views(r@) == rest
                    && is_rest_of(r@, tokens@),
                Err(e) => res matches Err(err) && err@ == e,
            },
    {
        parse_action(tokens)
    }

    fn default_effect() -> (res: Option<Action>)
        ensures
            res matches Some(v) && v@ == ActionV::Noop,
    {
        Some(Action::Noop)
    }
}

impl SerializeEffect for Action {
    fn serialize_effect(&self) -> (res: String)
        ensures
            res@ == spec_text(spec_action_tokens(self@)),
    {
        action_to_tokens(self).to_text()
    }
}

impl ParseTokens for CardReference {
    fn parse_tokens(tokens: &[Tokens]) -> (res: Result<(CardReference, &[Tokens]), Error>)
        ensures
            match spec_parse_card_reference(tokens_views(tokens@)) {
                Ok((v, rest)) => res matches Ok((x, r)) && x@ == v && tokens_views(r@) == rest
                    && is_rest_of(r@, tokens@),
                Err(e) => res matches Err(err) && err@ == e,
            },
    {
        parse_card_reference(tokens)
    }

    fn default_effect() -> (res: Option<CardReference>)
        ensures
            res is None,
    {
        None
    }
}

impl SerializeEffect for CardReference {
    fn serialize_effect(&self) -> (res: String)
        ensures
            res@ == spec_text(spec_card_reference_tokens(self@)),
    {
        card_reference_to_tokens(self).to_text()
    }
}

impl ParseTokens for CardReferences {
    fn parse_tokens(tokens: &[Tokens]) -> (res: Result<(CardReferences, &[Tokens]), Error>)
        ensures
            match spec_parse_card_references(tokens_views(tokens@)) {
                Ok((v, rest)) => res matches Ok((x, r)) && x@ == v && tokens_views(r@) == rest
                    && is_rest_of(r@, tokens@),
                Err(e) => res matches Err(err) && err@ == e,
            },
    {
        parse_card_references(tokens)
    }

    fn default_effect() -> (res: Option<CardReferences>)
        ensures
            res is None,
    {
        None
    }
}

impl SerializeEffect for CardReferences {
    fn serialize_effect(&self) -> (res: String)
        ensures
            res@ == spec_text(spec_card_references_tokens(self@)),
    {
        card_references_to_tokens(self).to_text()
    }
}

impl ParseTokens for Condition {
    fn parse_tokens(tokens: &[Tokens]) -> (res: Result<(Condition, &[Tokens]), Error>)
        ensures
            match spec_parse_condition(tokens_views(tokens@)) {
                Ok((v, rest)) => res matches Ok((x, r)) && x@ == v && tokens_views(r@) == rest
                    && is_rest_of(r@, tokens@),
                Err(e) => res matches Err(err) && err@ == e,
            },
    {
        parse_condition(tokens)
    }

    fn default_effect() -> (res: Option<Condition>)
        ensures
            res matches Some(v) && v@ == ConditionV::True,
    {
        Some(Condition::True)
    }
}

impl SerializeEffect for Condition {
    fn serialize_effect(&self) -> (res: String)
        ensures
            res@ == spec_text(spec_condition_tokens(self@)),
    {
        condition_to_tokens(self).to_text()
    }
}

impl ParseTokens for LetValue {
    fn parse_tokens(tokens: &[Tokens]) -> (res: Result<(LetValue, &[Tokens]), Error>)
        ensures
            match spec_parse_let_value(tokens_views(tokens@)) {
                Ok((v, rest)) => res matches Ok((x, r)) && x@ == v && tokens_views(r@) == rest
                    && is_rest_of(r@, tokens@),
                Err(e) => res matches Err(err) && err@ == e,
            },
    {
        parse_let_value(tokens)
    }

    fn default_effect() -> (res: Option<LetValue>)
        ensures
            res is None,
    {
        None
    }
}

impl SerializeEffect for LetValue {
    fn serialize_effect(&self) -> (res: String)
        ensures
            res@ == spec_text(spec_let_value_tokens(self@)),
    {
        let_value_to_tokens(self).to_text()
    }
}

impl ParseTokens for LifeTime {
    fn parse_tokens(tokens: &[Tokens]) -> (res: Result<(LifeTime, &[Tokens]), Error>)
        ensures
            match spec_parse_life_time(tokens_views(tokens@)) {
                Ok((v, rest)) => res matches Ok((x, r)) && x@ == v && tokens_views(r@) == rest
                    && is_rest_of(r@, tokens@),
                Err(e) => res matches Err(err) && err@ == e,
            },
    {
        parse_life_time(tokens)
    }

    fn default_effect() -> (res: Option<LifeTime>)
        ensures
            res is None,
    {
        None
    }
}

impl SerializeEffect for LifeTime {
    fn serialize_effect(&self) -> (res: String)
        ensures
            res@ == spec_text(spec_life_time_tokens(self@)),
    {
        life_time_to_tokens(self).to_text()
    }
}

impl ParseTokens for Modifier {
    fn parse_tokens(tokens: &[Tokens]) -> (res: Result<(Modifier, &[Tokens]), Error>)
        ensures
            match spec_parse_modifier(tokens_views(tokens@)) {
                Ok((v, rest)) => res matches Ok((x, r)) && x@ == v && tokens_views(r@) == rest
                    && is_rest_of(r@, tokens@),
                Err(e) => res matches Err(err) && err@ == e,
            },
    {
        parse_modifier(tokens)
    }

    fn default_effect() -> (res: Option<Modifier>)
        ensures
            res is None,
    {
        None
    }
}

impl SerializeEffect for Modifier {
    fn serialize_effect(&self) -> (res: String)
        ensures
            res@ == spec_text(spec_modifier_tokens(self@)),
    {
        modifier_to_tokens(self).to_text()
    }
}

impl ParseTokens for Player {
    fn parse_tokens(tokens: &[Tokens]) -> (res: Result<(Player, &[Tokens]), Error>)
        ensures
            match spec_parse_player(tokens_views(tokens@)) {
                Ok((v, rest)) => res matches Ok((x, r)) && x@ == v && tokens_views(r@) == rest
                    && is_rest_of(r@, tokens@),
                Err(e) => res matches Err(err) && err@ == e,
            },
    {
        parse_player(tokens)
    }

    fn default_effect() -> (res: Option<Player>)
        ensures
            res is None,
    {
        None
    }
}

impl SerializeEffect for Player {
    fn serialize_effect(&self) -> (res: String)
        ensures
            res@ == spec_text(spec_player_tokens(self@)),
    {
        player_to_tokens(self).to_text()
    }
}

impl ParseTokens for Number {
    fn parse_tokens(tokens: &[Tokens]) -> (res: Result<(Number, &[Tokens]), Error>)
        ensures
            match spec_parse_number(tokens_views(tokens@)) {
                Ok((v, rest)) => res matches Ok((x, r)) && x@ == v && tokens_views(r@) == rest
                    && is_rest_of(r@, tokens@),
                Err(e) => res matches Err(err) && err@ == e,
            },
    {
        parse_number(tokens)
    }

    fn default_effect() -> (res: Option<Number>)
        ensures
            res is None,
    {
        None
    }
}

impl SerializeEffect for Number {
    fn serialize_effect(&self) -> (res: String)
        ensures
            res@ == spec_text(spec_number_tokens(self@)),
    {
        number_to_tokens(self).to_text()
    }
}

impl ParseTokens for Zone {
    fn parse_tokens(tokens: &[Tokens]) -> (res: Result<(Zone, &[Tokens]), Error>)
        ensures
            match spec_parse_zone(tokens_views(tokens@)) {
                Ok((v, rest)) => res matches Ok((x, r)) && x@ == v && tokens_views(r@) == rest
                    && is_rest_of(r@, tokens@),
                Err(e) => res matches Err(err) && err@ == e,
            },
    {
        parse_zone(tokens)
    }

    fn default_effect() -> (res: Option<Zone>)
        ensures
            res is None,
    {
        None
    }
}

impl SerializeEffect for Zone {
    fn serialize_effect(&self) -> (res: String)
        ensures
            res@ == spec_text(spec_zone_tokens(self@)),
    {
        zone_to_tokens(self).to_text()
    }
}

impl ParseTokens for Color {
    fn parse_tokens(tokens: &[Tokens]) -> (res: Result<(Color, &[Tokens]), Error>)
        ensures
            match spec_parse_color(tokens_views(tokens@)) {
                Ok((v, rest)) => res matches Ok((x, r)) && x@ == v && tokens_views(r@) == rest
                    && is_rest_of(r@, tokens@),
                Err(e) => res matches Err(err) && err@ == e,
            },
    {
        parse_color(tokens)
    }

    fn default_effect() -> (res: Option<Color>)
        ensures
            res is None,
    {
        None
    }
}

impl SerializeEffect for Color {
    fn serialize_effect(&self) -> (res: String)
        ensures
            res@ == spec_text(spec_color_tokens(self@)),
    {
        color_to_tokens(self).to_text()
    }
}

impl ParseTokens for Vec<Action> {
    fn parse_tokens(tokens: &[Tokens]) -> (res: Result<(Vec<Action>, &[Tokens]), Error>)
        ensures
            match spec_parse_vec_action(tokens_views(tokens@)) {
                Ok((v, rest)) => res matches Ok((x, r)) && action_views(x@) == v && tokens_views(r@) == rest
                    && is_suffix_of(r@, tokens@) && (tokens@.len() > 0 ==> r@.len() < tokens@.len()),
                Err(e) => res matches Err(err) && err@ == e,
            },
    {
        parse_vec_action(tokens)
    }

    fn default_effect() -> (res: Option<Vec<Action>>)
        ensures
            res matches Some(v) && action_views(v@) == seq![ActionV::Noop],
    {
        let mut v: Vec<Action> = Vec::new();
        proof {
            lemma_action_views_push(v@, Action::Noop);
            assert(action_views(v@) =~= Seq::<ActionV>::empty());
        }
        v.push(Action::Noop);
        proof {
            assert(action_views(v@) =~= seq![ActionV::Noop]);
        }
        Some(v)
    }
}

impl SerializeEffect for Vec<Action> {
    fn serialize_effect(&self) -> (res: String)
        ensures
            res@ == spec_text(spec_vec_action_tokens(action_views(self@))),
    {
        vec_action_to_tokens(self).to_text()
    }
}

impl ParseTokens for Vec<Condition> {
    fn parse_tokens(tokens: &[Tokens]) -> (res: Result<(Vec<Condition>, &[Tokens]), Error>)
        ensures
            match spec_parse_vec_condition(tokens_views(tokens@)) {
                Ok((v, rest)) => res matches Ok((x, r)) && condition_views(x@) == v && tokens_views(r@) == rest
                    && is_suffix_of(r@, tokens@) && (tokens@.len() > 0 ==> r@.len() < tokens@.len()),
                Err(e) => res matches Err(err) && err@ == e,
            },
    {
        parse_vec_condition(tokens)
    }

    fn default_effect() -> (res: Option<Vec<Condition>>)
        ensures
            res matches Some(v) && condition_views(v@) == seq![ConditionV::True],
    {
        let mut v: Vec<Condition> = Vec::new();
        proof {
            lemma_condition_views_push(v@, Condition::True);
            assert(condition_views(v@) =~= Seq::<ConditionV>::empty());
        }
        v.push(Condition::True);
        proof {
            assert(condition_views(v@) =~= seq![ConditionV::True]);
        }
        Some(v)
    }
}

impl SerializeEffect for Vec<Condition> {
    fn serialize_effect(&self) -> (res: String)
        ensures
            res@ == spec_text(spec_vec_condition_tokens(condition_views(self@))),
    {
        vec_condition_to_tokens(self).to_text()
    }
}

} // verus!
