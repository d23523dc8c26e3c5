use vstd::prelude::*;

use super::effects::{condition_clone, CardReference, CardReferenceV, CardReferences, CardReferencesV, Color, Condition, ConditionV, Number, NumberV};
use super::effects::Player as EffectPlayer;
use super::effects::Zone as EffectZone;
use super::parse::str_is;
use crate::board::min;
use crate::cards::{same_attribute, spec_is_color, spec_is_named, Card, HoloMemberExtraAttribute, HoloMemberLevel};
use crate::events::{top_card, EventSpan};
use crate::gameplay::{is_storage_zone, CardRef, Player, Zone};
use crate::library::GlobalLibrary;
use crate::state::{card_damage, has_entry, spec_board, GameState};

verus! {

/// The value of an effect variable.
#[derive(Debug)]
pub enum LetValue {
    CardReferences(Vec<CardRef>),
    Condition(Condition),
    Number(usize),
}

/// The mathematical value of a [`LetValue`].
pub enum LetValueV {
    CardReferences(Seq<CardRef>),
    Condition(ConditionV),
    Number(usize),
}

pub open spec fn let_value_view(v: LetValue) -> LetValueV {
    match v {
        LetValue::CardReferences(c) => LetValueV::CardReferences(c@),
        LetValue::Condition(c) => LetValueV::Condition(c@),
        LetValue::Number(n) => LetValueV::Number(n),
    }
}

/// What an effect is evaluated for: the card and player it is about, its variables, and
/// whether an event started it.
#[derive(Debug)]
pub struct EvaluateContext {
    pub active_card: Option<CardRef>,
    pub active_player: Option<Player>,
    pub variables: Vec<(String, LetValue)>,
    pub is_triggered: bool,
}

/// The mathematical value of an [`EvaluateContext`].
pub struct ContextV {
    pub active_card: Option<CardRef>,
    pub active_player: Option<Player>,
    pub variables: Seq<(Seq<char>, LetValueV)>,
    pub is_triggered: bool,
}

impl View for EvaluateContext {
    type V = ContextV;

    open spec fn view(&self) -> ContextV {
        ContextV {
            active_card: self.active_card,
            active_player: self.active_player,
            variables: self.variables@.map_values(
                |e: (String, LetValue)| (e.0@, let_value_view(e.1)),
            ),
            is_triggered: self.is_triggered,
        }
    }
}

/// The value of the first variable of that name.
pub open spec fn lookup(vars: Seq<(Seq<char>, LetValueV)>, name: Seq<char>) -> Option<LetValueV>
    decreases vars.len(),
{
    if vars.len() == 0 {
        None
    } else if vars[0].0 == name {
        Some(vars[0].1)
    } else {
        lookup(vars.drop_first(), name)
    }
}

/// The context for a card that a filter looks at.
pub open spec fn for_card(ctx: ContextV, c: CardRef) -> ContextV {
    ContextV { active_card: Some(c), ..ctx }
}

pub open spec fn var_this_card() -> Seq<char> {
    seq!['&', '_', 't', 'h', 'i', 's', '_', 'c', 'a', 'r', 'd']
}

pub open spec fn var_leftovers() -> Seq<char> {
    seq!['&', '_', 'l', 'e', 'f', 't', 'o', 'v', 'e', 'r', 's']
}

pub open spec fn var_art_target() -> Seq<char> {
    seq!['&', '_', 'a', 'r', 't', '_', 't', 'a', 'r', 'g', 'e', 't']
}

pub open spec fn var_attach_target() -> Seq<char> {
    seq!['&', '_', 'a', 't', 't', 'a', 'c', 'h', '_', 't', 'a', 'r', 'g', 'e', 't']
}

// ------------------------------------------------------------------
// what an effect means in a game; `None` where the evaluation fails
// ------------------------------------------------------------------

pub open spec fn eval_player(ctx: ContextV, p: EffectPlayer) -> Option<Player> {
    match ctx.active_player {
        Some(Player::One) => Some(
            match p {
                EffectPlayer::You => Player::One,
                EffectPlayer::Opponent => Player::Two,
            },
        ),
        Some(Player::Two) => Some(
            match p {
                EffectPlayer::You => Player::Two,
                EffectPlayer::Opponent => Player::One,
            },
        ),
        _ => None,
    }
}

/// A zone of an effect: of the active player, or of the opponent.
pub open spec fn eval_zone(ctx: ContextV, z: EffectZone) -> Option<(Player, Zone)> {
    match (eval_player(ctx, EffectPlayer::You), eval_player(ctx, EffectPlayer::Opponent)) {
        (Some(you), Some(opponent)) => Some(
            match z {
                EffectZone::Archive => (you, Zone::Archive),
                EffectZone::BackStage => (you, Zone::BackStage),
                EffectZone::CenterStage => (you, Zone::CenterStage),
                EffectZone::CheerDeck => (you, Zone::CheerDeck),
                EffectZone::Hand => (you, Zone::Hand),
                EffectZone::HoloPower => (you, Zone::HoloPower),
                EffectZone::MainDeck => (you, Zone::MainDeck),
                EffectZone::MainStage => (you, Zone::MainStage),
                EffectZone::OpponentBackStage => (opponent, Zone::BackStage),
                EffectZone::OpponentCenterStage => (opponent, Zone::CenterStage),
                EffectZone::Stage => (you, Zone::Stage),
            },
        ),
        _ => None,
    }
}

/// The card that an event started the current effect from, or the current card.
pub open spec fn event_origin(span: EventSpan, triggered: bool) -> Option<CardRef> {
    if triggered {
        if span.origin_stack@.len() >= 2 {
            span.origin_stack@[span.origin_stack@.len() - 2]
        } else {
            None
        }
    } else {
        top_card(span.origin_stack@)
    }
}

/// The one card of a variable.
pub open spec fn var_card(ctx: ContextV, name: Seq<char>) -> Option<CardRef> {
    match lookup(ctx.variables, name) {
        Some(LetValueV::CardReferences(cards)) => if cards.len() == 1 {
            Some(cards[0])
        } else {
            None
        },
        _ => None,
    }
}

pub open spec fn var_cards(ctx: ContextV, name: Seq<char>) -> Option<Seq<CardRef>> {
    match lookup(ctx.variables, name) {
        Some(LetValueV::CardReferences(cards)) => Some(cards),
        _ => None,
    }
}

pub open spec fn eval_card_reference(ctx: ContextV, s: GameState, cr: CardReferenceV) -> Option<
    CardRef,
> {
    match cr {
        CardReferenceV::ArtTarget => var_card(ctx, var_art_target()),
        CardReferenceV::AttachTarget => var_card(ctx, var_attach_target()),
        CardReferenceV::EventOrigin => event_origin(s.event_span, ctx.is_triggered),
        CardReferenceV::ThisCard => var_card(ctx, var_this_card()),
        CardReferenceV::Var(v) => var_card(ctx, v),
    }
}

/// The card of a registered card, if the library has it.
pub open spec fn card_in(s: GameState, lib: GlobalLibrary, c: CardRef) -> Option<Card> {
    if s.in_library(&lib, c) {
        Some(s.card_of(&lib, c))
    } else {
        None
    }
}

pub open spec fn has_buzz(c: Card) -> bool {
    c matches Card::HoloMember(m) && exists|i: int|
        0 <= i < m.attributes@.len() && same_attribute(
            #[trigger] m.attributes@[i],
            HoloMemberExtraAttribute::Buzz,
        )
}

/// Whether one of the cards is a cheer, looked for in order until one is found.
pub open spec fn find_cheer(s: GameState, lib: GlobalLibrary, atts: Seq<CardRef>) -> Option<bool>
    decreases atts.len(),
{
    if atts.len() == 0 {
        Some(false)
    } else {
        match card_in(s, lib, atts[0]) {
            Some(Card::Cheer(_)) => Some(true),
            Some(_) => find_cheer(s, lib, atts.drop_first()),
            None => None,
        }
    }
}

/// The hp of the damage on a card, when ten times the markers fit.
pub open spec fn damage_hp(s: GameState, c: CardRef) -> Option<int> {
    let d = card_damage(s.card_damage_markers@, c) % 0x10000;
    if d * 10 <= u16::MAX {
        Some(d * 10)
    } else {
        None
    }
}

pub open spec fn eval_card_references(
    ctx: ContextV,
    s: GameState,
    lib: GlobalLibrary,
    crs: CardReferencesV,
    depth: nat,
) -> Option<Seq<CardRef>>
    decreases depth, crs, 0nat,
{
    match crs {
        CardReferencesV::ArtTarget => var_cards(ctx, var_art_target()),
        CardReferencesV::AttachedTo(cr) => match eval_card_reference(ctx, s, cr) {
            Some(c) => if s.is_registered(c) {
                Some(s.spec_attachments(c))
            } else {
                None
            },
            None => None,
        },
        CardReferencesV::AttachTarget => var_cards(ctx, var_attach_target()),
        CardReferencesV::EventOrigin => match event_origin(s.event_span, ctx.is_triggered) {
            Some(c) => Some(seq![c]),
            None => None,
        },
        CardReferencesV::From(z) => match eval_zone(ctx, z) {
            Some((p, zone)) => Some(spec_board(s, p).zone_cards(zone)),
            None => None,
        },
        CardReferencesV::FromTop(n, z) => match (eval_number(ctx, s, lib, *n, depth), eval_zone(ctx, z)) {
            (Some(amount), Some((p, zone))) => if is_storage_zone(zone) {
                let cards = spec_board(s, p).zone_seq(zone);
                Some(cards.take(min(amount, cards.len() as int)))
            } else {
                None
            },
            _ => None,
        },
        CardReferencesV::Leftovers => var_cards(ctx, var_leftovers()),
        CardReferencesV::ThisCard => var_cards(ctx, var_this_card()),
        CardReferencesV::Var(v) => var_cards(ctx, v),
        CardReferencesV::Filter(inner, cond) => match eval_card_references(ctx, s, lib, *inner, depth) {
            Some(cards) => filter_cards(ctx, s, lib, cards, *cond, depth),
            None => None,
        },
    }
}

/// The cards for which the condition holds, each looked at in turn.
pub open spec fn filter_cards(
    ctx: ContextV,
    s: GameState,
    lib: GlobalLibrary,
    cards: Seq<CardRef>,
    cond: ConditionV,
    depth: nat,
) -> Option<Seq<CardRef>>
    decreases depth, cond, cards.len(),
{
    if cards.len() == 0 {
        Some(Seq::empty())
    } else {
        match (
            filter_cards(ctx, s, lib, cards.drop_last(), cond, depth),
            eval_condition(for_card(ctx, cards.last()), s, lib, cond, depth),
        ) {
            (Some(kept), Some(b)) => Some(
                if b {
                    kept.push(cards.last())
                } else {
                    kept
                },
            ),
            _ => None,
        }
    }
}

/// Whether the condition holds for every card, looked at in order until one fails.
pub open spec fn all_hold(
    ctx: ContextV,
    s: GameState,
    lib: GlobalLibrary,
    cards: Seq<CardRef>,
    cond: ConditionV,
    depth: nat,
) -> Option<bool>
    decreases depth, cond, cards.len(),
{
    if cards.len() == 0 {
        Some(true)
    } else {
        match eval_condition(for_card(ctx, cards[0]), s, lib, cond, depth) {
            Some(true) => all_hold(ctx, s, lib, cards.drop_first(), cond, depth),
            Some(false) => Some(false),
            None => None,
        }
    }
}

/// Whether the condition holds for some card, looked at in order until one holds.
pub open spec fn any_holds(
    ctx: ContextV,
    s: GameState,
    lib: GlobalLibrary,
    cards: Seq<CardRef>,
    cond: ConditionV,
    depth: nat,
) -> Option<bool>
    decreases depth, cond, cards.len(),
{
    if cards.len() == 0 {
        Some(false)
    } else {
        match eval_condition(for_card(ctx, cards[0]), s, lib, cond, depth) {
            Some(true) => Some(true),
            Some(false) => any_holds(ctx, s, lib, cards.drop_first(), cond, depth),
            None => None,
        }
    }
}

pub open spec fn eval_number(
    ctx: ContextV,
    s: GameState,
    lib: GlobalLibrary,
    n: NumberV,
    depth: nat,
) -> Option<int>
    decreases depth, n, 0nat,
{
    match n {
        NumberV::Count(crs) => match eval_card_references(ctx, s, lib, crs, depth) {
            Some(cards) => Some(cards.len() as int),
            None => None,
        },
        NumberV::Literal(v) => Some(v as int),
        NumberV::Minus(a, b) => match (
            eval_number(ctx, s, lib, *a, depth),
            eval_number(ctx, s, lib, *b, depth),
        ) {
            (Some(x), Some(y)) => if x >= y {
                Some(x - y)
            } else {
                None
            },
            _ => None,
        },
        NumberV::Multiply(a, b) => match (
            eval_number(ctx, s, lib, *a, depth),
            eval_number(ctx, s, lib, *b, depth),
        ) {
            (Some(x), Some(y)) => if x * y <= usize::MAX {
                Some(x * y)
            } else {
                None
            },
            _ => None,
        },
        NumberV::Plus(a, b) => match (
            eval_number(ctx, s, lib, *a, depth),
            eval_number(ctx, s, lib, *b, depth),
        ) {
            (Some(x), Some(y)) => if x + y <= usize::MAX {
                Some(x + y)
            } else {
                None
            },
            _ => None,
        },
        NumberV::Var(v) => match lookup(ctx.variables, v) {
            Some(LetValueV::Number(x)) => Some(x as int),
            _ => None,
        },
        NumberV::DamageAmount => match ctx.active_card {
            Some(c) => damage_hp(s, c),
            None => None,
        },
        NumberV::HealthPointAmount => match ctx.active_card {
            Some(c) => match (card_in(s, lib, c), damage_hp(s, c)) {
                (Some(Card::HoloMember(m)), Some(d)) => Some(
                    if m.hp < d {
                        0
                    } else {
                        m.hp - d
                    },
                ),
                _ => None,
            },
            None => None,
        },
    }
}

/// A condition about the active card's card.
pub open spec fn card_check(ctx: ContextV, s: GameState, lib: GlobalLibrary, f: spec_fn(Card) -> bool) -> Option<bool> {
    match ctx.active_card {
        Some(c) => match card_in(s, lib, c) {
            Some(card) => Some(f(card)),
            None => None,
        },
        None => None,
    }
}

pub open spec fn eval_condition(
    ctx: ContextV,
    s: GameState,
    lib: GlobalLibrary,
    c: ConditionV,
    depth: nat,
) -> Option<bool>
    decreases depth, c, 0nat,
{
    match c {
        ConditionV::All(crs, cond) => match eval_card_references(ctx, s, lib, crs, depth) {
            Some(cards) => all_hold(ctx, s, lib, cards, *cond, depth),
            None => None,
        },
        ConditionV::And(a, b) => match (
            eval_condition(ctx, s, lib, *a, depth),
            eval_condition(ctx, s, lib, *b, depth),
        ) {
            (Some(x), Some(y)) => Some(x && y),
            _ => None,
        },
        ConditionV::Any(crs, cond) => match eval_card_references(ctx, s, lib, crs, depth) {
            Some(cards) => any_holds(ctx, s, lib, cards, *cond, depth),
            None => None,
        },
        ConditionV::Anything => Some(true),
        ConditionV::Equals(a, b) => match (
            eval_number(ctx, s, lib, a, depth),
            eval_number(ctx, s, lib, b, depth),
        ) {
            (Some(x), Some(y)) => Some(x == y),
            _ => None,
        },
        ConditionV::Exists(crs) => match eval_card_references(ctx, s, lib, crs, depth) {
            Some(cards) => Some(cards.len() > 0),
            None => None,
        },
        ConditionV::False => Some(false),
        ConditionV::GreaterThanEquals(a, b) => match (
            eval_number(ctx, s, lib, a, depth),
            eval_number(ctx, s, lib, b, depth),
        ) {
            (Some(x), Some(y)) => Some(x >= y),
            _ => None,
        },
        ConditionV::HasCheers => match ctx.active_card {
            Some(card) => if s.is_registered(card) {
                find_cheer(s, lib, s.spec_attachments(card))
            } else {
                None
            },
            None => None,
        },
        ConditionV::IsAttributeBuzz => card_check(ctx, s, lib, |k: Card| has_buzz(k)),
        ConditionV::IsColor(color) => card_check(ctx, s, lib, |k: Card| spec_is_color(k, color)),
        ConditionV::IsCheer => card_check(ctx, s, lib, |k: Card| k is Cheer),
        ConditionV::IsEven(n) => match eval_number(ctx, s, lib, n, depth) {
            Some(x) => Some(x % 2 == 0),
            None => None,
        },
        ConditionV::IsInZone(z) => match (eval_zone(ctx, z), ctx.active_card) {
            (Some((p, zone)), Some(card)) => Some(
                spec_board(s, p)@.find_zone(card) == Some(zone),
            ),
            _ => None,
        },
        ConditionV::IsLevelFirst => card_check(
            ctx,
            s,
            lib,
            |k: Card| k matches Card::HoloMember(m) && m.level == HoloMemberLevel::First,
        ),
        ConditionV::IsLevelSecond => card_check(
            ctx,
            s,
            lib,
            |k: Card| k matches Card::HoloMember(m) && m.level == HoloMemberLevel::Second,
        ),
        ConditionV::IsMember => card_check(ctx, s, lib, |k: Card| k is HoloMember),
        ConditionV::IsNamedAzki => card_check(ctx, s, lib, |k: Card| spec_is_named(k, name_azki())),
        ConditionV::IsNamedOmaruPolka => card_check(
            ctx,
            s,
            lib,
            |k: Card| spec_is_named(k, name_omaru_polka()),
        ),
        ConditionV::IsNamedTokinoSora => card_check(
            ctx,
            s,
            lib,
            |k: Card| spec_is_named(k, name_tokino_sora()),
        ),
        ConditionV::IsNamedUsadaPekora => card_check(
            ctx,
            s,
            lib,
            |k: Card| spec_is_named(k, name_usada_pekora()),
        ),
        ConditionV::IsCard(cr) => match (eval_card_reference(ctx, s, cr), ctx.active_card) {
            (Some(x), Some(card)) => Some(card == x),
            _ => None,
        },
        ConditionV::IsNotCard(cr) => match (eval_card_reference(ctx, s, cr), ctx.active_card) {
            (Some(x), Some(card)) => Some(card != x),
            _ => None,
        },
        ConditionV::IsOdd(n) => match eval_number(ctx, s, lib, n, depth) {
            Some(x) => Some(x % 2 == 1),
            None => None,
        },
        ConditionV::IsSupportLimited => card_check(
            ctx,
            s,
            lib,
            |k: Card| k matches Card::Support(sc) && sc.limited,
        ),
        ConditionV::LessThanEquals(a, b) => match (
            eval_number(ctx, s, lib, a, depth),
            eval_number(ctx, s, lib, b, depth),
        ) {
            (Some(x), Some(y)) => Some(x <= y),
            _ => None,
        },
        ConditionV::Not(a) => match eval_condition(ctx, s, lib, *a, depth) {
            Some(x) => Some(!x),
            None => None,
        },
        ConditionV::Or(a, b) => match (
            eval_condition(ctx, s, lib, *a, depth),
            eval_condition(ctx, s, lib, *b, depth),
        ) {
            (Some(x), Some(y)) => Some(x || y),
            _ => None,
        },
        ConditionV::True => Some(true),
        ConditionV::Var(v) => match lookup(ctx.variables, v) {
            Some(LetValueV::Condition(stored)) => if depth > 0 {
                eval_condition(ctx, s, lib, stored, (depth - 1) as nat)
            } else {
                None
            },
            _ => None,
        },
        ConditionV::Yours => match (ctx.active_card, ctx.active_player) {
            (Some(card), Some(p)) => if has_entry(s.card_map@, card) {
                Some(s.owner(card) == p)
            } else {
                None
            },
            _ => None,
        },
    }
}

pub open spec fn name_azki() -> Seq<char> {
    seq!['A', 'Z', 'K', 'i']
}

pub open spec fn name_omaru_polka() -> Seq<char> {
    seq!['O', 'm', 'a', 'r', 'u', ' ', 'P', 'o', 'l', 'k', 'a']
}

pub open spec fn name_tokino_sora() -> Seq<char> {
    seq!['T', 'o', 'k', 'i', 'n', 'o', ' ', 'S', 'o', 'r', 'a']
}

pub open spec fn name_usada_pekora() -> Seq<char> {
    seq!['U', 's', 'a', 'd', 'a', ' ', 'P', 'e', 'k', 'o', 'r', 'a']
}


// ------------------------------------------------------------------
// evaluating effects
// ------------------------------------------------------------------

pub open spec fn vars_view(v: Seq<(String, LetValue)>) -> Seq<(Seq<char>, LetValueV)> {
    v.map_values(|e: (String, LetValue)| (e.0@, let_value_view(e.1)))
}

proof fn lemma_lookup_skip(vs: Seq<(Seq<char>, LetValueV)>, n: Seq<char>, i: int)
    requires
        0 <= i <= vs.len(),
        forall|j: int| 0 <= j < i ==> vs[j].0 != n,
    ensures
        lookup(vs, n) == lookup(vs.skip(i), n),
    decreases i,
{
    if i > 0 {
        assert(vs.drop_first().skip(i - 1) =~= vs.skip(i));
        lemma_lookup_skip(vs.drop_first(), n, i - 1);
    } else {
        assert(vs.skip(0) =~= vs);
    }
}

/// The value of the first variable of that name.
fn lookup_var<'a>(vars: &'a Vec<(String, LetValue)>, name: &str) -> (res: Option<&'a LetValue>)
    ensures
        match lookup(vars_view(vars@), name@) {
            Some(v) => res matches Some(r) && let_value_view(*r) == v,
            None => res is None,
        },
{
    let ghost vs = vars_view(vars@);
    let mut i: usize = 0;
    while i < vars.len()
        invariant
            0 <= i <= vars@.len(),
            vs == vars_view(vars@),
            forall|j: int| 0 <= j < i ==> vs[j].0 != name@,
        decreases vars@.len() - i,
    {
        if str_is(&vars[i].0, name) {
            proof {
                lemma_lookup_skip(vs, name@, i as int);
                assert(vs.skip(i as int)[0] == vs[i as int]);
            }
            return Some(&vars[i].1);
        }
        i = i + 1;
    }
    proof {
        lemma_lookup_skip(vs, name@, i as int);
        assert(vs.skip(i as int).len() == 0);
    }
    None
}

fn copy_cards(v: &Vec<CardRef>) -> (res: Vec<CardRef>)
    ensures
        res@ == v@,
{
    let mut out: Vec<CardRef> = Vec::new();
    let mut i: usize = 0;
    while i < v.len()
        invariant
            0 <= i <= v@.len(),
            out@ == v@.take(i as int),
        decreases v@.len() - i,
    {
        out.push(v[i]);
        assert(out@ =~= v@.take(i + 1));
        i = i + 1;
    }
    assert(v@.take(v@.len() as int) =~= v@);
    out
}

impl LetValue {
    /// A copy of the value.
    pub fn duplicate(&self) -> (res: LetValue)
        ensures
            let_value_view(res) == let_value_view(*self),
    {
        match self {
            LetValue::CardReferences(c) => LetValue::CardReferences(copy_cards(c)),
            LetValue::Condition(c) => LetValue::Condition(condition_clone(c)),
            LetValue::Number(n) => LetValue::Number(*n),
        }
    }
}

impl EvaluateContext {
    /// The same context for a card that a filter looks at.
    pub fn for_card(&self, card: CardRef) -> (res: EvaluateContext)
        ensures
            res@ == for_card(self@, card),
            res.variables@.len() == self.variables@.len(),
    {
        let mut vars: Vec<(String, LetValue)> = Vec::new();
        let mut i: usize = 0;
        while i < self.variables.len()
            invariant
                0 <= i <= self.variables@.len(),
                vars_view(vars@) == vars_view(self.variables@.take(i as int)),
                vars@.len() == i,
            decreases self.variables@.len() - i,
        {
            let name = self.variables[i].0.clone();
            let value = self.variables[i].1.duplicate();
            let ghost before = vars@;
            vars.push((name, value));
            assert(vars_view(vars@) =~= vars_view(before).push((name@, let_value_view(value))));
            assert(vars_view(self.variables@.take(i + 1)) =~= vars_view(
                self.variables@.take(i as int),
            ).push((self.variables@[i as int].0@, let_value_view(self.variables@[i as int].1))));
            i = i + 1;
        }
        assert(self.variables@.take(self.variables@.len() as int) =~= self.variables@);
        let res = EvaluateContext {
            active_card: Some(card),
            active_player: self.active_player,
            variables: vars,
            is_triggered: self.is_triggered,
        };
        assert(res@.variables =~= self@.variables);
        res
    }
}

impl EffectPlayer {
    pub fn evaluate_with_context(&self, ctx: &EvaluateContext, _game: &GameState) -> (res: Player)
        requires
            eval_player(ctx@, *self) is Some,
        ensures
            eval_player(ctx@, *self) == Some(res),
    {
        let you = match ctx.active_player {
            Some(p) => p,
            None => Player::One,
        };
        let opponent = match you {
            Player::One => Player::Two,
            _ => Player::One,
        };
        match self {
            EffectPlayer::You => you,
            EffectPlayer::Opponent => opponent,
        }
    }
}

impl EffectZone {
    pub fn evaluate_with_context(&self, ctx: &EvaluateContext, game: &GameState) -> (res: (
        Player,
        Zone,
    ))
        requires
            eval_zone(ctx@, *self) is Some,
        ensures
            eval_zone(ctx@, *self) == Some(res),
    {
        let you = EffectPlayer::You.evaluate_with_context(ctx, game);
        let opponent = EffectPlayer::Opponent.evaluate_with_context(ctx, game);
        match self {
            EffectZone::Archive => (you, Zone::Archive),
            EffectZone::BackStage => (you, Zone::BackStage),
            EffectZone::CenterStage => (you, Zone::CenterStage),
            EffectZone::CheerDeck => (you, Zone::CheerDeck),
            EffectZone::Hand => (you, Zone::Hand),
            EffectZone::HoloPower => (you, Zone::HoloPower),
            EffectZone::MainDeck => (you, Zone::MainDeck),
            EffectZone::MainStage => (you, Zone::MainStage),
            EffectZone::OpponentBackStage => (opponent, Zone::BackStage),
            EffectZone::OpponentCenterStage => (opponent, Zone::CenterStage),
            EffectZone::Stage => (you, Zone::Stage),
        }
    }
}

impl Color {
    pub fn evaluate_with_context(&self, _ctx: &EvaluateContext, _game: &GameState) -> (res: Color)
        ensures
            res == *self,
    {
        *self
    }
}

fn var_card_exec(ctx: &EvaluateContext, name: &str) -> (res: CardRef)
    requires
        var_card(ctx@, name@) is Some,
    ensures
        var_card(ctx@, name@) == Some(res),
{
    match lookup_var(&ctx.variables, name) {
        Some(LetValue::CardReferences(cards)) => cards[0],
        _ => CardRef(0),
    }
}

fn var_cards_exec(ctx: &EvaluateContext, name: &str) -> (res: Vec<CardRef>)
    requires
        var_cards(ctx@, name@) is Some,
    ensures
        var_cards(ctx@, name@) == Some(res@),
{
    match lookup_var(&ctx.variables, name) {
        Some(LetValue::CardReferences(cards)) => copy_cards(cards),
        _ => Vec::new(),
    }
}

impl EventSpan {
    /// The card that an effect is evaluated from: the card whose event started it, or else
    /// the current card.
    pub fn event_origin_for_evaluate(&self, ctx: &EvaluateContext) -> (res: Option<CardRef>)
        requires
            ctx.is_triggered ==> self.origin_stack@.len() >= 2,
        ensures
            res == event_origin(*self, ctx.is_triggered),
    {
        if ctx.is_triggered {
            self.trigger_card()
        } else {
            self.current_card()
        }
    }
}

impl CardReference {
    pub fn evaluate_with_context(&self, ctx: &EvaluateContext, game: &GameState) -> (res: CardRef)
        requires
            eval_card_reference(ctx@, *game, self@) is Some,
        ensures
            eval_card_reference(ctx@, *game, self@) == Some(res),
    {
        proof {
            reveal_strlit("&_art_target");
            reveal_strlit("&_attach_target");
            reveal_strlit("&_this_card");
            assert("&_art_target"@ =~= var_art_target());
            assert("&_attach_target"@ =~= var_attach_target());
            assert("&_this_card"@ =~= var_this_card());
        }
        match self {
            CardReference::ArtTarget => var_card_exec(ctx, "&_art_target"),
            CardReference::AttachTarget => var_card_exec(ctx, "&_attach_target"),
            CardReference::EventOrigin => {
                if ctx.is_triggered && game.event_span.origin_stack.len() < 2 {
                    return CardRef(0);
                }
                match game.event_span.event_origin_for_evaluate(ctx) {
                    Some(c) => c,
                    None => CardRef(0),
                }
            },
            CardReference::ThisCard => var_card_exec(ctx, "&_this_card"),
            CardReference::Var(v) => var_card_exec(ctx, v.0.as_str()),
        }
    }
}


proof fn lemma_filter_prefix(
    ctx: ContextV,
    s: GameState,
    lib: GlobalLibrary,
    cards: Seq<CardRef>,
    cond: ConditionV,
    depth: nat,
    i: int,
)
    requires
        filter_cards(ctx, s, lib, cards, cond, depth) is Some,
        0 <= i <= cards.len(),
    ensures
        filter_cards(ctx, s, lib, cards.take(i), cond, depth) is Some,
        i < cards.len() ==> eval_condition(for_card(ctx, cards[i]), s, lib, cond, depth) is Some,
    decreases cards.len(),
{
    if i < cards.len() {
        lemma_filter_prefix(ctx, s, lib, cards.drop_last(), cond, depth, i);
        assert(cards.drop_last().take(i) =~= cards.take(i));
        if i < cards.len() - 1 {
            assert(cards.drop_last()[i] == cards[i]);
        }
    } else {
        assert(cards.take(i) =~= cards);
    }
}

proof fn lemma_all_skip(
    ctx: ContextV,
    s: GameState,
    lib: GlobalLibrary,
    cards: Seq<CardRef>,
    cond: ConditionV,
    depth: nat,
    i: int,
)
    requires
        0 <= i < cards.len(),
        eval_condition(for_card(ctx, cards[i]), s, lib, cond, depth) == Some(true),
    ensures
        all_hold(ctx, s, lib, cards.skip(i), cond, depth) == all_hold(
            ctx,
            s,
            lib,
            cards.skip(i + 1),
            cond,
            depth,
        ),
        any_holds(ctx, s, lib, cards.skip(i), cond, depth) == Some(true),
{
    assert(cards.skip(i)[0] == cards[i]);
    assert(cards.skip(i).drop_first() =~= cards.skip(i + 1));
}

proof fn lemma_any_skip(
    ctx: ContextV,
    s: GameState,
    lib: GlobalLibrary,
    cards: Seq<CardRef>,
    cond: ConditionV,
    depth: nat,
    i: int,
)
    requires
        0 <= i < cards.len(),
        eval_condition(for_card(ctx, cards[i]), s, lib, cond, depth) == Some(false),
    ensures
        any_holds(ctx, s, lib, cards.skip(i), cond, depth) == any_holds(
            ctx,
            s,
            lib,
            cards.skip(i + 1),
            cond,
            depth,
        ),
        all_hold(ctx, s, lib, cards.skip(i), cond, depth) == Some(false),
{
    assert(cards.skip(i)[0] == cards[i]);
    assert(cards.skip(i).drop_first() =~= cards.skip(i + 1));
}

fn filter_cards_exec(
    ctx: &EvaluateContext,
    game: &GameState,
    library: &GlobalLibrary,
    cards: &Vec<CardRef>,
    cond: &Condition,
    depth: usize,
) -> (res: Vec<CardRef>)
    requires
        filter_cards(ctx@, *game, *library, cards@, cond@, depth as nat) is Some,
    ensures
        filter_cards(ctx@, *game, *library, cards@, cond@, depth as nat) == Some(res@),
    decreases depth, cond, cards@.len(),
{
    let mut out: Vec<CardRef> = Vec::new();
    let mut i: usize = 0;
    while i < cards.len()
        invariant
            0 <= i <= cards@.len(),
            filter_cards(ctx@, *game, *library, cards@, cond@, depth as nat) is Some,
            filter_cards(ctx@, *game, *library, cards@.take(i as int), cond@, depth as nat) == Some(
                out@,
            ),
        decreases cards@.len() - i,
    {
        proof {
            lemma_filter_prefix(ctx@, *game, *library, cards@, cond@, depth as nat, i as int);
            assert(cards@.take(i + 1).drop_last() =~= cards@.take(i as int));
            assert(cards@.take(i + 1).last() == cards@[i as int]);
        }
        let c = cards[i];
        let sub = ctx.for_card(c);
        let b = evaluate_condition(&sub, game, library, cond, depth);
        if b {
            out.push(c);
        }
        i = i + 1;
    }
    proof {
        assert(cards@.take(cards@.len() as int) =~= cards@);
    }
    out
}

fn all_hold_exec(
    ctx: &EvaluateContext,
    game: &GameState,
    library: &GlobalLibrary,
    cards: &Vec<CardRef>,
    cond: &Condition,
    depth: usize,
) -> (res: bool)
    requires
        all_hold(ctx@, *game, *library, cards@, cond@, depth as nat) is Some,
    ensures
        all_hold(ctx@, *game, *library, cards@, cond@, depth as nat) == Some(res),
    decreases depth, cond, cards@.len(),
{
    let mut i: usize = 0;
    assert(cards@.skip(0) =~= cards@);
    while i < cards.len()
        invariant
            0 <= i <= cards@.len(),
            all_hold(ctx@, *game, *library, cards@, cond@, depth as nat) == all_hold(
                ctx@,
                *game,
                *library,
                cards@.skip(i as int),
                cond@,
                depth as nat,
            ),
            all_hold(ctx@, *game, *library, cards@, cond@, depth as nat) is Some,
        decreases cards@.len() - i,
    {
        let c = cards[i];
        proof {
            assert(cards@.skip(i as int)[0] == c);
        }
        let sub = ctx.for_card(c);
        let b = evaluate_condition(&sub, game, library, cond, depth);
        if !b {
            proof {
                lemma_any_skip(ctx@, *game, *library, cards@, cond@, depth as nat, i as int);
            }
            return false;
        }
        proof {
            lemma_all_skip(ctx@, *game, *library, cards@, cond@, depth as nat, i as int);
        }
        i = i + 1;
    }
    true
}

fn any_holds_exec(
    ctx: &EvaluateContext,
    game: &GameState,
    library: &GlobalLibrary,
    cards: &Vec<CardRef>,
    cond: &Condition,
    depth: usize,
) -> (res: bool)
    requires
        any_holds(ctx@, *game, *library, cards@, cond@, depth as nat) is Some,
    ensures
        any_holds(ctx@, *game, *library, cards@, cond@, depth as nat) == Some(res),
    decreases depth, cond, cards@.len(),
{
    let mut i: usize = 0;
    assert(cards@.skip(0) =~= cards@);
    while i < cards.len()
        invariant
            0 <= i <= cards@.len(),
            any_holds(ctx@, *game, *library, cards@, cond@, depth as nat) == any_holds(
                ctx@,
                *game,
                *library,
                cards@.skip(i as int),
                cond@,
                depth as nat,
            ),
            any_holds(ctx@, *game, *library, cards@, cond@, depth as nat) is Some,
        decreases cards@.len() - i,
    {
        let c = cards[i];
        proof {
            assert(cards@.skip(i as int)[0] == c);
        }
        let sub = ctx.for_card(c);
        let b = evaluate_condition(&sub, game, library, cond, depth);
        if b {
            proof {
                lemma_all_skip(ctx@, *game, *library, cards@, cond@, depth as nat, i as int);
            }
            return true;
        }
        proof {
            lemma_any_skip(ctx@, *game, *library, cards@, cond@, depth as nat, i as int);
        }
        i = i + 1;
    }
    false
}

fn evaluate_card_references(
    ctx: &EvaluateContext,
    game: &GameState,
    library: &GlobalLibrary,
    crs: &CardReferences,
    depth: usize,
) -> (res: Vec<CardRef>)
    requires
        eval_card_references(ctx@, *game, *library, crs@, depth as nat) is Some,
    ensures
        eval_card_references(ctx@, *game, *library, crs@, depth as nat) == Some(res@),
    decreases depth, crs, 0nat,
{
    proof {
        reveal_strlit("&_art_target");
        reveal_strlit("&_attach_target");
        reveal_strlit("&_this_card");
        reveal_strlit("&_leftovers");
        assert("&_art_target"@ =~= var_art_target());
        assert("&_attach_target"@ =~= var_attach_target());
        assert("&_this_card"@ =~= var_this_card());
        assert("&_leftovers"@ =~= var_leftovers());
    }
    match crs {
        CardReferences::ArtTarget => var_cards_exec(ctx, "&_art_target"),
        CardReferences::AttachedTo(cr) => {
            let card = cr.evaluate_with_context(ctx, game);
            game.attachments(card)
        },
        CardReferences::AttachTarget => var_cards_exec(ctx, "&_attach_target"),
        CardReferences::EventOrigin => {
            let card = CardReference::EventOrigin.evaluate_with_context(ctx, game);
            let mut v: Vec<CardRef> = Vec::new();
            v.push(card);
            assert(v@ =~= seq![card]);
            v
        },
        CardReferences::From(zone) => {
            let (player, zone) = zone.evaluate_with_context(ctx, game);
            game.board(player).all_cards(zone)
        },
        CardReferences::FromTop(amount, zone) => {
            let amount = evaluate_number(ctx, game, library, amount, depth);
            let (player, zone) = zone.evaluate_with_context(ctx, game);
            game.board(player).peek_top_cards(zone, amount)
        },
        CardReferences::Leftovers => var_cards_exec(ctx, "&_leftovers"),
        CardReferences::ThisCard => var_cards_exec(ctx, "&_this_card"),
        CardReferences::Var(v) => var_cards_exec(ctx, v.0.as_str()),
        CardReferences::Filter(inner, cond) => {
            let cards = evaluate_card_references(ctx, game, library, inner, depth);
            filter_cards_exec(ctx, game, library, &cards, cond, depth)
        },
    }
}

fn damage_hp_exec(game: &GameState, card: CardRef) -> (res: usize)
    requires
        damage_hp(*game, card) is Some,
    ensures
        damage_hp(*game, card) == Some(res as int),
{
    game.get_damage(card).to_hp() as usize
}

fn evaluate_number(
    ctx: &EvaluateContext,
    game: &GameState,
    library: &GlobalLibrary,
    n: &Number,
    depth: usize,
) -> (res: usize)
    requires
        eval_number(ctx@, *game, *library, n@, depth as nat) is Some,
    ensures
        eval_number(ctx@, *game, *library, n@, depth as nat) == Some(res as int),
    decreases depth, n, 0nat,
{
    match n {
        Number::Count(cards) => evaluate_card_references(ctx, game, library, cards, depth).len(),
        Number::Literal(v) => v.0,
        Number::Minus(a, b) => {
            let x = evaluate_number(ctx, game, library, a, depth);
            let y = evaluate_number(ctx, game, library, b, depth);
            x - y
        },
        Number::Multiply(a, b) => {
            let x = evaluate_number(ctx, game, library, a, depth);
            let y = evaluate_number(ctx, game, library, b, depth);
            x * y
        },
        Number::Plus(a, b) => {
            let x = evaluate_number(ctx, game, library, a, depth);
            let y = evaluate_number(ctx, game, library, b, depth);
            x + y
        },
        Number::Var(v) => match lookup_var(&ctx.variables, v.0.as_str()) {
            Some(LetValue::Number(x)) => *x,
            _ => 0,
        },
        Number::DamageAmount => {
            let card = match ctx.active_card {
                Some(c) => c,
                None => CardRef(0),
            };
            damage_hp_exec(game, card)
        },
        Number::HealthPointAmount => {
            let card = match ctx.active_card {
                Some(c) => c,
                None => CardRef(0),
            };
            game.remaining_hp(library, card) as usize
        },
    }
}

#[verifier::spinoff_prover]
#[verifier::rlimit(40)]
fn find_cheer_exec(game: &GameState, library: &GlobalLibrary, atts: &Vec<CardRef>) -> (res: bool)
    requires
        find_cheer(*game, *library, atts@) is Some,
    ensures
        find_cheer(*game, *library, atts@) == Some(res),
{
    let mut i: usize = 0;
    assert(atts@.skip(0) =~= atts@);
    while i < atts.len()
        invariant
            0 <= i <= atts@.len(),
            find_cheer(*game, *library, atts@) == find_cheer(*game, *library, atts@.skip(i as int)),
            find_cheer(*game, *library, atts@) is Some,
        decreases atts@.len() - i,
    {
        proof {
            assert(atts@.skip(i as int)[0] == atts@[i as int]);
            assert(atts@.skip(i as int).drop_first() =~= atts@.skip(i + 1));
            assert(card_in(*game, *library, atts@[i as int]) is Some);
            assert(game.in_library(library, atts@[i as int]));
        }
        if game.lookup_cheer(library, atts[i]).is_some() {
            return true;
        }
        i = i + 1;
    }
    false
}

fn active_card_of(ctx: &EvaluateContext) -> (res: CardRef)
    requires
        ctx.active_card is Some,
    ensures
        ctx.active_card == Some(res),
{
    match ctx.active_card {
        Some(c) => c,
        None => CardRef(0),
    }
}

#[verifier::spinoff_prover]
#[verifier::rlimit(100)]
fn evaluate_condition(
    ctx: &EvaluateContext,
    game: &GameState,
    library: &GlobalLibrary,
    c: &Condition,
    depth: usize,
) -> (res: bool)
    requires
        eval_condition(ctx@, *game, *library, c@, depth as nat) is Some,
    ensures
        eval_condition(ctx@, *game, *library, c@, depth as nat) == Some(res),
    decreases depth, c, 0nat,
{
    proof {
        reveal_strlit("AZKi");
        reveal_strlit("Omaru Polka");
        reveal_strlit("Tokino Sora");
        reveal_strlit("Usada Pekora");
        assert("AZKi"@ =~= name_azki());
        assert("Omaru Polka"@ =~= name_omaru_polka());
        assert("Tokino Sora"@ =~= name_tokino_sora());
        assert("Usada Pekora"@ =~= name_usada_pekora());
    }
    match c {
        Condition::All(cards, cond) => {
            let cards = evaluate_card_references(ctx, game, library, cards, depth);
            all_hold_exec(ctx, game, library, &cards, cond, depth)
        },
        Condition::And(a, b) => {
            let x = evaluate_condition(ctx, game, library, a, depth);
            let y = evaluate_condition(ctx, game, library, b, depth);
            x && y
        },
        Condition::Any(cards, cond) => {
            let cards = evaluate_card_references(ctx, game, library, cards, depth);
            any_holds_exec(ctx, game, library, &cards, cond, depth)
        },
        Condition::Anything => true,
        Condition::Equals(a, b) => {
            let x = evaluate_number(ctx, game, library, a, depth);
            let y = evaluate_number(ctx, game, library, b, depth);
            x == y
        },
        Condition::Exists(cards) => {
            let cards = evaluate_card_references(ctx, game, library, cards, depth);
            cards.len() > 0
        },
        Condition::False => false,
        Condition::GreaterThanEquals(a, b) => {
            let x = evaluate_number(ctx, game, library, a, depth);
            let y = evaluate_number(ctx, game, library, b, depth);
            x >= y
        },
        Condition::HasCheers => {
            let card = active_card_of(ctx);
            let atts = game.attachments(card);
            find_cheer_exec(game, library, &atts)
        },
        Condition::IsAttributeBuzz => {
            let card = active_card_of(ctx);
            game.lookup_card(library, card).is_attribute(HoloMemberExtraAttribute::Buzz)
        },
        Condition::IsColor(color) => {
            let color = color.evaluate_with_context(ctx, game);
            let card = active_card_of(ctx);
            game.lookup_card(library, card).is_color(color)
        },
        Condition::IsCheer => {
            let card = active_card_of(ctx);
            game.lookup_card(library, card).is_cheer()
        },
        Condition::IsEven(n) => {
            let x = evaluate_number(ctx, game, library, n, depth);
            x % 2 == 0
        },
        Condition::IsInZone(zone) => {
            let (player, zone) = zone.evaluate_with_context(ctx, game);
            let card = active_card_of(ctx);
            match game.board(player).find_card_zone(card) {
                Some(z) => z == zone,
                None => false,
            }
        },
        Condition::IsLevelFirst => {
            let card = active_card_of(ctx);
            game.lookup_card(library, card).is_level(HoloMemberLevel::First)
        },
        Condition::IsLevelSecond => {
            let card = active_card_of(ctx);
            game.lookup_card(library, card).is_level(HoloMemberLevel::Second)
        },
        Condition::IsMember => {
            let card = active_card_of(ctx);
            game.lookup_card(library, card).is_member()
        },
        Condition::IsNamedAzki => {
            let card = active_card_of(ctx);
            game.lookup_card(library, card).is_named("AZKi")
        },
        Condition::IsNamedOmaruPolka => {
            let card = active_card_of(ctx);
            game.lookup_card(library, card).is_named("Omaru Polka")
        },
        Condition::IsNamedTokinoSora => {
            let card = active_card_of(ctx);
            game.lookup_card(library, card).is_named("Tokino Sora")
        },
        Condition::IsNamedUsadaPekora => {
            let card = active_card_of(ctx);
            game.lookup_card(library, card).is_named("Usada Pekora")
        },
        Condition::IsCard(is_card) => {
            let is_card = is_card.evaluate_with_context(ctx, game);
            let card = active_card_of(ctx);
            card == is_card
        },
        Condition::IsNotCard(not_card) => {
            let not_card = not_card.evaluate_with_context(ctx, game);
            let card = active_card_of(ctx);
            card != not_card
        },
        Condition::IsOdd(n) => {
            let x = evaluate_number(ctx, game, library, n, depth);
            x % 2 == 1
        },
        Condition::IsSupportLimited => {
            let card = active_card_of(ctx);
            game.lookup_card(library, card).is_support_limited()
        },
        Condition::LessThanEquals(a, b) => {
            let x = evaluate_number(ctx, game, library, a, depth);
            let y = evaluate_number(ctx, game, library, b, depth);
            x <= y
        },
        Condition::Not(a) => !evaluate_condition(ctx, game, library, a, depth),
        Condition::Or(a, b) => {
            let x = evaluate_condition(ctx, game, library, a, depth);
            let y = evaluate_condition(ctx, game, library, b, depth);
            x || y
        },
        Condition::True => true,
        Condition::Var(v) => match lookup_var(&ctx.variables, v.0.as_str()) {
            Some(LetValue::Condition(stored)) => {
                let stored2 = condition_clone(stored);
                evaluate_condition(ctx, game, library, &stored2, depth - 1)
            },
            _ => false,
        },
        Condition::Yours => {
            let card = active_card_of(ctx);
            let p = match ctx.active_player {
                Some(p) => p,
                None => Player::One,
            };
            game.player_for_card(card) == p
        },
    }
}

impl Condition {
    /// Whether the condition holds in the game. A chain of condition variables is followed
    /// at most as deep as there are variables.
    pub fn evaluate_with_context(
        &self,
        ctx: &EvaluateContext,
        game: &GameState,
        library: &GlobalLibrary,
    ) -> (res: bool)
        requires
            eval_condition(ctx@, *game, *library, self@, ctx.variables@.len() as nat) is Some,
        ensures
            eval_condition(ctx@, *game, *library, self@, ctx.variables@.len() as nat) == Some(res),
    {
        evaluate_condition(ctx, game, library, self, ctx.variables.len())
    }
}

impl Number {
    pub fn evaluate_with_context(
        &self,
        ctx: &EvaluateContext,
        game: &GameState,
        library: &GlobalLibrary,
    ) -> (res: usize)
        requires
            eval_number(ctx@, *game, *library, self@, ctx.variables@.len() as nat) is Some,
        ensures
            eval_number(ctx@, *game, *library, self@, ctx.variables@.len() as nat) == Some(
                res as int,
            ),
    {
        evaluate_number(ctx, game, library, self, ctx.variables.len())
    }
}

impl CardReferences {
    pub fn evaluate_with_context(
        &self,
        ctx: &EvaluateContext,
        game: &GameState,
        library: &GlobalLibrary,
    ) -> (res: Vec<CardRef>)
        requires
            eval_card_references(ctx@, *game, *library, self@, ctx.variables@.len() as nat) is Some,
        ensures
            eval_card_references(ctx@, *game, *library, self@, ctx.variables@.len() as nat)
                == Some(res@),
    {
        evaluate_card_references(ctx, game, library, self, ctx.variables.len())
    }
}


// ------------------------------------------------------------------
// lists of conditions, and setting up the context
// ------------------------------------------------------------------

/// Whether every condition of a list holds; each is evaluated, in order. The empty list
/// holds.
pub open spec fn eval_all_conditions(
    ctx: ContextV,
    s: GameState,
    lib: GlobalLibrary,
    cs: Seq<ConditionV>,
    depth: nat,
) -> Option<bool>
    decreases cs.len(),
{
    if cs.len() == 0 {
        Some(true)
    } else {
        match (
            eval_all_conditions(ctx, s, lib, cs.drop_last(), depth),
            eval_condition(ctx, s, lib, cs.last(), depth),
        ) {
            (Some(a), Some(b)) => Some(a && b),
            _ => None,
        }
    }
}

/// Twice a whole number.
pub open spec fn twice(k: int) -> int {
    2 * k
}

/// `IsOdd` holds exactly when its number is odd, one more than twice some whole number, and
/// `IsEven` exactly when it is twice some whole number: on the same number one of the two
/// holds and the other does not.
pub proof fn lemma_odd_and_even(ctx: ContextV, s: GameState, lib: GlobalLibrary, n: NumberV, depth: nat)
    ensures
        eval_condition(ctx, s, lib, ConditionV::IsOdd(n), depth) is Some <==> eval_number(
            ctx,
            s,
            lib,
            n,
            depth,
        ) is Some,
        eval_condition(ctx, s, lib, ConditionV::IsEven(n), depth) is Some <==> eval_number(
            ctx,
            s,
            lib,
            n,
            depth,
        ) is Some,
        eval_number(ctx, s, lib, n, depth) matches Some(x) ==> {
            &&& eval_condition(ctx, s, lib, ConditionV::IsOdd(n), depth) == Some(
                exists|k: int| x == #[trigger] twice(k) + 1,
            )
            &&& eval_condition(ctx, s, lib, ConditionV::IsEven(n), depth) == Some(
                exists|k: int| x == #[trigger] twice(k),
            )
            &&& eval_condition(ctx, s, lib, ConditionV::IsOdd(n), depth) == Some(
                !(eval_condition(ctx, s, lib, ConditionV::IsEven(n), depth)->0),
            )
        },
{
    if let Some(x) = eval_number(ctx, s, lib, n, depth) {
        let q = x / 2;
        assert(x == 2 * q + x % 2);
        if x % 2 == 1 {
            assert(x == twice(q) + 1);
            assert(!exists|k: int| x == #[trigger] twice(k)) by {
                if exists|k: int| x == #[trigger] twice(k) {
                    let k = choose|k: int| x == #[trigger] twice(k);
                    assert(false) by (nonlinear_arith)
                        requires
                            2 * k == 2 * q + 1,
                    ;
                }
            }
        } else {
            assert(x == twice(q));
            assert(!exists|k: int| x == #[trigger] twice(k) + 1) by {
                if exists|k: int| x == #[trigger] twice(k) + 1 {
                    let k = choose|k: int| x == #[trigger] twice(k) + 1;
                    assert(false) by (nonlinear_arith)
                        requires
                            2 * k + 1 == 2 * q,
                    ;
                }
            }
        }
    }
}

/// What a list of conditions evaluates to: whether every condition holds, each evaluated in
/// order; a list without a condition gives false.
pub open spec fn eval_conditions(
    ctx: ContextV,
    s: GameState,
    lib: GlobalLibrary,
    cs: Seq<ConditionV>,
    depth: nat,
) -> Option<bool> {
    if cs.len() == 0 {
        Some(false)
    } else {
        eval_all_conditions(ctx, s, lib, cs, depth)
    }
}

/// The variables with one set to a value: where it is, or added at the end.
pub open spec fn set_var(vars: Seq<(Seq<char>, LetValueV)>, name: Seq<char>, v: LetValueV) -> Seq<
    (Seq<char>, LetValueV),
>
    decreases vars.len(),
{
    if vars.len() == 0 {
        seq![(name, v)]
    } else if vars[0].0 == name {
        vars.update(0, (name, v))
    } else {
        seq![vars[0]] + set_var(vars.drop_first(), name, v)
    }
}

proof fn lemma_set_var(vars: Seq<(Seq<char>, LetValueV)>, name: Seq<char>, v: LetValueV, i: int)
    requires
        0 <= i <= vars.len(),
        forall|j: int| 0 <= j < i ==> vars[j].0 != name,
        i < vars.len() ==> vars[i].0 == name,
    ensures
        set_var(vars, name, v) == if i < vars.len() {
            vars.update(i, (name, v))
        } else {
            vars.push((name, v))
        },
    decreases i,
{
    if i > 0 {
        lemma_set_var(vars.drop_first(), name, v, i - 1);
        if i < vars.len() {
            assert(seq![vars[0]] + vars.drop_first().update(i - 1, (name, v)) =~= vars.update(
                i,
                (name, v),
            ));
        } else {
            assert(seq![vars[0]] + vars.drop_first().push((name, v)) =~= vars.push((name, v)));
        }
    } else if vars.len() == 0 {
        assert(seq![(name, v)] =~= vars.push((name, v)));
    }
}

impl EvaluateContext {
    /// An empty context: no card, no player, no variables.
    pub fn new() -> (res: EvaluateContext)
        ensures
            res@.active_card is None,
            res@.active_player is None,
            res@.variables.len() == 0,
            !res@.is_triggered,
    {
        let res = EvaluateContext {
            active_card: None,
            active_player: None,
            variables: Vec::new(),
            is_triggered: false,
        };
        assert(res@.variables =~= Seq::<(Seq<char>, LetValueV)>::empty());
        res
    }

    /// Sets a variable: where it is, or added at the end.
    pub fn insert_variable(&mut self, name: &str, value: LetValue)
        ensures
            final(self)@ == (ContextV {
                variables: set_var(old(self)@.variables, name@, let_value_view(value)),
                ..old(self)@
            }),
    {
        let ghost vs = self@.variables;
        let mut i: usize = 0;
        while i < self.variables.len()
            invariant
                0 <= i <= self.variables@.len(),
                vs == self@.variables,
                self@ == old(self)@,
                forall|j: int| 0 <= j < i ==> vs[j].0 != name@,
            decreases self.variables@.len() - i,
        {
            if str_is(&self.variables[i].0, name) {
                proof {
                    lemma_set_var(vs, name@, let_value_view(value), i as int);
                }
                let ghost lv = let_value_view(value);
                self.variables.remove(i);
                self.variables.insert(i, (name.to_owned(), value));
                assert(self@.variables =~= vs.update(i as int, (name@, lv)));
                return ;
            }
            i = i + 1;
        }
        proof {
            lemma_set_var(vs, name@, let_value_view(value), i as int);
        }
        let ghost lv = let_value_view(value);
        self.variables.push((name.to_owned(), value));
        assert(self@.variables =~= vs.push((name@, lv)));
    }
}

fn one_card(card: CardRef) -> (res: LetValue)
    ensures
        let_value_view(res) == LetValueV::CardReferences(seq![card]),
{
    let mut v: Vec<CardRef> = Vec::new();
    v.push(card);
    assert(v@ =~= seq![card]);
    LetValue::CardReferences(v)
}

/// An effect with the context it is to be evaluated in.
#[derive(Debug)]
pub struct EvaluateBuilder<'a, T> {
    pub effect: &'a T,
    pub context: EvaluateContext,
}

impl<'a, T> EvaluateBuilder<'a, T> {
    /// The effect in an empty context.
    pub fn new(effect: &'a T) -> (res: EvaluateBuilder<'a, T>)
        ensures
            res.effect == effect,
            res.context@.active_card is None,
            res.context@.active_player is None,
            res.context@.variables.len() == 0,
            !res.context@.is_triggered,
    {
        EvaluateBuilder { effect, context: EvaluateContext::new() }
    }

    /// Evaluates for a registered card: it is the active card and `this card`, and its owner
    /// the active player.
    pub fn with_card(self, card: CardRef, game: &GameState) -> (res: EvaluateBuilder<'a, T>)
        requires
            has_entry(game.card_map@, card),
        ensures
            res.effect == self.effect,
            res.context@ == (ContextV {
                active_card: Some(card),
                active_player: Some(game.owner(card)),
                variables: set_var(
                    self.context@.variables,
                    var_this_card(),
                    LetValueV::CardReferences(seq![card]),
                ),
                ..self.context@
            }),
    {
        let mut b = self;
        b.context.active_card = Some(card);
        proof {
            reveal_strlit("&_this_card");
            assert("&_this_card"@ =~= var_this_card());
        }
        b.context.insert_variable("&_this_card", one_card(card));
        b.context.active_player = Some(game.player_for_card(card));
        b
    }

    /// Whether an event started the effect.
    pub fn with_triggered(self, is_triggered: bool) -> (res: EvaluateBuilder<'a, T>)
        ensures
            res.effect == self.effect,
            res.context@ == (ContextV { is_triggered, ..self.context@ }),
    {
        let mut b = self;
        b.context.is_triggered = is_triggered;
        b
    }

    /// The target of an art, as `art_target`.
    pub fn with_art_target(self, target: CardRef) -> (res: EvaluateBuilder<'a, T>)
        ensures
            res.effect == self.effect,
            res.context@ == (ContextV {
                variables: set_var(
                    self.context@.variables,
                    var_art_target(),
                    LetValueV::CardReferences(seq![target]),
                ),
                ..self.context@
            }),
    {
        let mut b = self;
        proof {
            reveal_strlit("&_art_target");
            assert("&_art_target"@ =~= var_art_target());
        }
        b.context.insert_variable("&_art_target", one_card(target));
        b
    }

    /// The card that a support card is attached to, as `attach_target`.
    pub fn with_attach_target(self, target: CardRef) -> (res: EvaluateBuilder<'a, T>)
        ensures
            res.effect == self.effect,
            res.context@ == (ContextV {
                variables: set_var(
                    self.context@.variables,
                    var_attach_target(),
                    LetValueV::CardReferences(seq![target]),
                ),
                ..self.context@
            }),
    {
        let mut b = self;
        proof {
            reveal_strlit("&_attach_target");
            assert("&_attach_target"@ =~= var_attach_target());
        }
        b.context.insert_variable("&_attach_target", one_card(target));
        b
    }
}

impl<'a> EvaluateBuilder<'a, Vec<Condition>> {
    /// Whether every condition holds, each one evaluated; no condition gives false.
    pub fn evaluate(self, game: &GameState, library: &GlobalLibrary) -> (res: bool)
        requires
            eval_conditions(
                self.context@,
                *game,
                *library,
                super::effects::condition_views(self.effect@),
                self.context@.variables.len() as nat,
            ) is Some,
        ensures
            eval_conditions(
                self.context@,
                *game,
                *library,
                super::effects::condition_views(self.effect@),
                self.context@.variables.len() as nat,
            ) == Some(res),
    {
        let cs = self.effect;
        let ctx = &self.context;
        let ghost cv = super::effects::condition_views(cs@);
        let ghost depth = ctx.variables@.len() as nat;
        proof {
            super::effects::lemma_condition_views(cs@);
        }
        let mut acc = true;
        let mut i: usize = 0;
        while i < cs.len()
            invariant
                0 <= i <= cs@.len(),
                cv == super::effects::condition_views(cs@),
                cv.len() == cs@.len(),
                forall|j: int| 0 <= j < cs@.len() ==> #[trigger] cv[j] == cs@[j]@,
                depth == ctx.variables@.len(),
                eval_all_conditions(ctx@, *game, *library, cv, depth) is Some,
                eval_all_conditions(ctx@, *game, *library, cv.take(i as int), depth) == Some(acc),
            decreases cs@.len() - i,
        {
            proof {
                lemma_conditions_prefix(ctx@, *game, *library, cv, depth, i + 1);
                assert(cv.take(i + 1).drop_last() =~= cv.take(i as int));
                assert(cv.take(i + 1).last() == cs@[i as int]@);
            }
            let b = cs[i].evaluate_with_context(ctx, game, library);
            acc = acc && b;
            i = i + 1;
        }
        proof {
            assert(cv.take(cs@.len() as int) =~= cv);
        }
        cs.len() > 0 && acc
    }
}

proof fn lemma_conditions_prefix(
    ctx: ContextV,
    s: GameState,
    lib: GlobalLibrary,
    cs: Seq<ConditionV>,
    depth: nat,
    n: int,
)
    requires
        eval_all_conditions(ctx, s, lib, cs, depth) is Some,
        0 <= n <= cs.len(),
    ensures
        eval_all_conditions(ctx, s, lib, cs.take(n), depth) is Some,
        n > 0 ==> eval_condition(ctx, s, lib, cs[n - 1], depth) is Some,
    decreases cs.len(),
{
    if n < cs.len() {
        lemma_conditions_prefix(ctx, s, lib, cs.drop_last(), depth, n);
        assert(cs.drop_last().take(n) =~= cs.take(n));
        if n > 0 {
            assert(cs.drop_last()[n - 1] == cs[n - 1]);
        }
    } else {
        assert(cs.take(n) =~= cs);
    }
}

} // verus!
