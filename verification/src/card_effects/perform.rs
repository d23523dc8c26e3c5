use vstd::prelude::*;

use super::effects::{condition_clone, Action, ActionV, CardReferences, Condition, ConditionV, Number, NumberV};
use super::effects::LetValue as EffectLetValue;
use super::effects::LetValueV as EffectLetValueV;
use super::effects::LifeTime as EffectLifeTime;
use super::effects::LifeTimeV as EffectLifeTimeV;
use super::effects::Modifier as EffectModifier;
use super::effects::ModifierV as EffectModifierV;
use super::evaluate::{eval_card_reference, eval_card_references, eval_condition, eval_number, eval_player, eval_zone, set_var, var_leftovers, ContextV, EvaluateContext, LetValue, LetValueV};
use crate::actions::collect;
use crate::choices::select_fn;
use crate::gameplay::{CardRef, Player, Zone, ZoneAddLocation};
use crate::groups::{grouped_by_place, place_groups_view, placed};
use crate::library::GlobalLibrary;
use crate::modifiers::{DamageMarkers, LifeTime, ModifierKind, ModifierKindV};
use crate::state::GameState;

verus! {

// ------------------------------------------------------------------
// the modifiers that effects give
// ------------------------------------------------------------------

/// How long a modifier that an effect gives lasts.
pub open spec fn eval_life_time(ctx: ContextV, s: GameState, l: EffectLifeTimeV) -> Option<LifeTime> {
    match l {
        EffectLifeTimeV::ThisGame => Some(LifeTime::ThisGame),
        EffectLifeTimeV::ThisTurn => Some(LifeTime::ThisTurn),
        EffectLifeTimeV::NextTurn(p) => match eval_player(ctx, p) {
            Some(x) => Some(LifeTime::NextTurn(x)),
            None => None,
        },
        EffectLifeTimeV::ThisStep => Some(LifeTime::ThisStep),
        EffectLifeTimeV::ThisArt => Some(LifeTime::ThisArt),
        EffectLifeTimeV::ThisEffect => Some(LifeTime::ThisEffect),
        EffectLifeTimeV::UntilRemoved => Some(LifeTime::UntilRemoved),
        EffectLifeTimeV::WhileAttached(cr) => match eval_card_reference(ctx, s, cr) {
            Some(c) => Some(LifeTime::WhileAttached(c)),
            None => None,
        },
    }
}

/// A number of an effect, as a count.
pub open spec fn eval_amount(ctx: ContextV, s: GameState, lib: GlobalLibrary, n: NumberV) -> Option<usize> {
    match eval_number(ctx, s, lib, n, ctx.variables.len() as nat) {
        Some(v) => if 0 <= v <= usize::MAX {
            Some(v as usize)
        } else {
            None
        },
        None => None,
    }
}

/// The modifier that an effect gives: its numbers evaluated, and its condition kept to be
/// checked when the modifier is looked at.
pub open spec fn eval_modifier(ctx: ContextV, s: GameState, lib: GlobalLibrary, m: EffectModifierV) -> Option<
    ModifierKindV,
>
    decreases m,
{
    match m {
        EffectModifierV::AsArtCost(n, c) => match eval_amount(ctx, s, lib, n) {
            Some(k) => Some(ModifierKindV::AsArtCost(c, k)),
            None => None,
        },
        EffectModifierV::AsCheer(n, c) => match eval_amount(ctx, s, lib, n) {
            Some(k) => Some(ModifierKindV::AsCheer(c, k)),
            None => None,
        },
        EffectModifierV::DealLessDamage(n) => match eval_amount(ctx, s, lib, n) {
            Some(k) => Some(ModifierKindV::DealLessDamage(k)),
            None => None,
        },
        EffectModifierV::DealMoreDamage(n) => match eval_amount(ctx, s, lib, n) {
            Some(k) => Some(ModifierKindV::DealMoreDamage(k)),
            None => None,
        },
        EffectModifierV::ReceiveLessDamage(n) => match eval_amount(ctx, s, lib, n) {
            Some(k) => Some(ModifierKindV::ReceiveLessDamage(k)),
            None => None,
        },
        EffectModifierV::ReceiveMoreDamage(n) => match eval_amount(ctx, s, lib, n) {
            Some(k) => Some(ModifierKindV::ReceiveMoreDamage(k)),
            None => None,
        },
        EffectModifierV::NextDiceRoll(n) => match eval_amount(ctx, s, lib, n) {
            Some(k) => Some(ModifierKindV::NextDiceRoll(k)),
            None => None,
        },
        EffectModifierV::NoLifeLoss => Some(ModifierKindV::NoLifeLoss),
        EffectModifierV::When(c, m2) => match eval_modifier(ctx, s, lib, *m2) {
            Some(k) => Some(ModifierKindV::Conditional(c, Box::new(k))),
            None => None,
        },
    }
}

fn amount(n: &Number, ctx: &EvaluateContext, game: &GameState, library: &GlobalLibrary) -> (res: usize)
    requires
        eval_amount(ctx@, *game, *library, n@) is Some,
    ensures
        eval_amount(ctx@, *game, *library, n@) == Some(res),
{
    n.evaluate_with_context(ctx, game, library)
}

impl EffectLifeTime {
    /// How long the modifier lasts: a player or card it names is evaluated.
    pub fn evaluate_with_context(&self, ctx: &EvaluateContext, game: &GameState) -> (res: LifeTime)
        requires
            eval_life_time(ctx@, *game, self@) is Some,
        ensures
            eval_life_time(ctx@, *game, self@) == Some(res),
    {
        match self {
            EffectLifeTime::ThisGame => LifeTime::ThisGame,
            EffectLifeTime::ThisTurn => LifeTime::ThisTurn,
            EffectLifeTime::NextTurn(p) => LifeTime::NextTurn(p.evaluate_with_context(ctx, game)),
            EffectLifeTime::ThisStep => LifeTime::ThisStep,
            EffectLifeTime::ThisArt => LifeTime::ThisArt,
            EffectLifeTime::ThisEffect => LifeTime::ThisEffect,
            EffectLifeTime::UntilRemoved => LifeTime::UntilRemoved,
            EffectLifeTime::WhileAttached(cr) => LifeTime::WhileAttached(
                cr.evaluate_with_context(ctx, game),
            ),
        }
    }
}

impl EffectModifier {
    /// The modifier that the effect gives.
    pub fn evaluate_with_context(&self, ctx: &EvaluateContext, game: &GameState, library: &GlobalLibrary) -> (res: ModifierKind)
        requires
            eval_modifier(ctx@, *game, *library, self@) is Some,
        ensures
            eval_modifier(ctx@, *game, *library, self@) == Some(res@),
        decreases self,
    {
        match self {
            EffectModifier::AsArtCost(n, c) => ModifierKind::AsArtCost(*c, amount(n, ctx, game, library)),
            EffectModifier::AsCheer(n, c) => ModifierKind::AsCheer(*c, amount(n, ctx, game, library)),
            EffectModifier::DealLessDamage(n) => ModifierKind::DealLessDamage(amount(n, ctx, game, library)),
            EffectModifier::DealMoreDamage(n) => ModifierKind::DealMoreDamage(amount(n, ctx, game, library)),
            EffectModifier::ReceiveLessDamage(n) => ModifierKind::ReceiveLessDamage(
                amount(n, ctx, game, library),
            ),
            EffectModifier::ReceiveMoreDamage(n) => ModifierKind::ReceiveMoreDamage(
                amount(n, ctx, game, library),
            ),
            EffectModifier::NextDiceRoll(n) => ModifierKind::NextDiceRoll(amount(n, ctx, game, library)),
            EffectModifier::NoLifeLoss => ModifierKind::NoLifeLoss,
            EffectModifier::When(c, m) => {
                let k = m.evaluate_with_context(ctx, game, library);
                ModifierKind::Conditional(condition_clone(c), Box::new(k))
            },
        }
    }
}

// ------------------------------------------------------------------
// what a player is asked for a variable
// ------------------------------------------------------------------

/// What a player is asked to give a variable its value.
#[derive(Debug)]
pub enum LetRequest {
    /// whether to activate an optional effect
    OptionalActivate { player: Player },
    /// a roll of the die
    RollDice { player: Player },
    /// between `min` and `max` of the choices, among the cards looked at
    Select { player: Player, cards: Vec<CardRef>, choices: Vec<CardRef>, min: usize, max: usize },
    /// a number between `min` and `max`
    Number { player: Player, min: usize, max: usize },
}

pub enum LetRequestV {
    OptionalActivate { player: Player },
    RollDice { player: Player },
    Select { player: Player, cards: Seq<CardRef>, choices: Seq<CardRef>, min: usize, max: usize },
    Number { player: Player, min: usize, max: usize },
}

pub open spec fn request_view(r: LetRequest) -> LetRequestV {
    match r {
        LetRequest::OptionalActivate { player } => LetRequestV::OptionalActivate { player },
        LetRequest::RollDice { player } => LetRequestV::RollDice { player },
        LetRequest::Select { player, cards, choices, min, max } => LetRequestV::Select {
            player,
            cards: cards@,
            choices: choices@,
            min,
            max,
        },
        LetRequest::Number { player, min, max } => LetRequestV::Number { player, min, max },
    }
}

impl View for LetRequest {
    type V = LetRequestV;

    open spec fn view(&self) -> LetRequestV {
        request_view(*self)
    }
}

/// What the active player is asked for a variable: the cards looked at are evaluated, and
/// the choices are those that meet the condition.
pub open spec fn spec_let_request(ctx: ContextV, s: GameState, lib: GlobalLibrary, lv: EffectLetValueV) -> Option<
    LetRequestV,
> {
    let d = ctx.variables.len() as nat;
    match ctx.active_player {
        Some(player) => match lv {
            EffectLetValueV::OptionalActivate => Some(LetRequestV::OptionalActivate { player }),
            EffectLetValueV::RollDice => Some(LetRequestV::RollDice { player }),
            EffectLetValueV::SelectAny(crs, cond) => match eval_card_references(ctx, s, lib, *crs, d) {
                Some(cards) => match collect(cards, select_fn(ctx, s, lib, *cond)) {
                    Some(choices) => Some(
                        LetRequestV::Select { player, cards, choices, min: 0, max: usize::MAX },
                    ),
                    None => None,
                },
                None => None,
            },
            EffectLetValueV::SelectOne(crs, cond) => match eval_card_references(ctx, s, lib, *crs, d) {
                Some(cards) => match collect(cards, select_fn(ctx, s, lib, *cond)) {
                    Some(choices) => Some(LetRequestV::Select { player, cards, choices, min: 1, max: 1 }),
                    None => None,
                },
                None => None,
            },
            EffectLetValueV::SelectNumberBetween(a, b) => match (
                eval_amount(ctx, s, lib, *a),
                eval_amount(ctx, s, lib, *b),
            ) {
                (Some(min), Some(max)) => Some(LetRequestV::Number { player, min, max }),
                _ => None,
            },
            EffectLetValueV::SelectUpTo(n, crs, cond) => match (
                eval_amount(ctx, s, lib, *n),
                eval_card_references(ctx, s, lib, *crs, d),
            ) {
                (Some(max), Some(cards)) => match collect(cards, select_fn(ctx, s, lib, *cond)) {
                    Some(choices) => Some(LetRequestV::Select { player, cards, choices, min: 0, max }),
                    None => None,
                },
                _ => None,
            },
        },
        None => None,
    }
}

impl EffectLetValue {
    /// What the active player is asked to give the variable its value.
    pub fn request(&self, ctx: &EvaluateContext, game: &GameState, library: &GlobalLibrary) -> (res: LetRequest)
        requires
            spec_let_request(ctx@, *game, *library, self@) is Some,
        ensures
            spec_let_request(ctx@, *game, *library, self@) == Some(res@),
    {
        let player = match ctx.active_player {
            Some(p) => p,
            None => Player::One,
        };
        match self {
            EffectLetValue::OptionalActivate => LetRequest::OptionalActivate { player },
            EffectLetValue::RollDice => LetRequest::RollDice { player },
            EffectLetValue::SelectAny(crs, cond) => {
                let cards = crs.evaluate_with_context(ctx, game, library);
                let choices = game.select_choices(library, &cards, cond, ctx);
                LetRequest::Select { player, cards, choices, min: 0, max: usize::MAX }
            },
            EffectLetValue::SelectOne(crs, cond) => {
                let cards = crs.evaluate_with_context(ctx, game, library);
                let choices = game.select_choices(library, &cards, cond, ctx);
                LetRequest::Select { player, cards, choices, min: 1, max: 1 }
            },
            EffectLetValue::SelectNumberBetween(a, b) => {
                let min = amount(a, ctx, game, library);
                let max = amount(b, ctx, game, library);
                LetRequest::Number { player, min, max }
            },
            EffectLetValue::SelectUpTo(n, crs, cond) => {
                let max = amount(n, ctx, game, library);
                let cards = crs.evaluate_with_context(ctx, game, library);
                let choices = game.select_choices(library, &cards, cond, ctx);
                LetRequest::Select { player, cards, choices, min: 0, max }
            },
        }
    }
}

/// What a player answered.
#[derive(Debug)]
pub enum LetAnswer {
    YesNo(bool),
    Number(usize),
    Cards(Vec<CardRef>),
}

pub enum LetAnswerV {
    YesNo(bool),
    Number(usize),
    Cards(Seq<CardRef>),
}

pub open spec fn answer_view(a: LetAnswer) -> LetAnswerV {
    match a {
        LetAnswer::YesNo(b) => LetAnswerV::YesNo(b),
        LetAnswer::Number(n) => LetAnswerV::Number(n),
        LetAnswer::Cards(v) => LetAnswerV::Cards(v@),
    }
}

impl View for LetAnswer {
    type V = LetAnswerV;

    open spec fn view(&self) -> LetAnswerV {
        answer_view(*self)
    }
}

/// Whether the answer is of the kind asked for.
pub open spec fn answer_fits(r: LetRequestV, a: LetAnswerV) -> bool {
    match r {
        LetRequestV::OptionalActivate { .. } => a is YesNo,
        LetRequestV::RollDice { .. } => a is Number,
        LetRequestV::Number { .. } => a is Number,
        LetRequestV::Select { .. } => a is Cards,
    }
}

/// The cards that were not chosen, in order.
pub open spec fn left_over(cards: Seq<CardRef>, chosen: Seq<CardRef>) -> Seq<CardRef>
    decreases cards.len(),
{
    if cards.len() == 0 {
        Seq::empty()
    } else if chosen.contains(cards.last()) {
        left_over(cards.drop_last(), chosen)
    } else {
        left_over(cards.drop_last(), chosen).push(cards.last())
    }
}

/// The context once the answer is the value of the variable: a yes or no as a condition that
/// holds or not, a number as a number, and chosen cards as cards, the cards not chosen being
/// the leftovers.
pub open spec fn spec_bind_answer(ctx: ContextV, name: Seq<char>, r: LetRequestV, a: LetAnswerV) -> ContextV {
    match (r, a) {
        (LetRequestV::Select { cards, .. }, LetAnswerV::Cards(chosen)) => ContextV {
            variables: set_var(
                set_var(ctx.variables, var_leftovers(), LetValueV::CardReferences(left_over(cards, chosen))),
                name,
                LetValueV::CardReferences(chosen),
            ),
            ..ctx
        },
        (_, LetAnswerV::YesNo(b)) => ContextV {
            variables: set_var(
                ctx.variables,
                name,
                LetValueV::Condition(
                    if b {
                        ConditionV::True
                    } else {
                        ConditionV::False
                    },
                ),
            ),
            ..ctx
        },
        (_, LetAnswerV::Number(n)) => ContextV {
            variables: set_var(ctx.variables, name, LetValueV::Number(n)),
            ..ctx
        },
        _ => ctx,
    }
}

fn card_chosen(c: CardRef, chosen: &Vec<CardRef>) -> (res: bool)
    ensures
        res == chosen@.contains(c),
{
    let mut i: usize = 0;
    while i < chosen.len()
        invariant
            0 <= i <= chosen@.len(),
            forall|j: int| 0 <= j < i ==> chosen@[j] != c,
        decreases chosen@.len() - i,
    {
        if chosen[i] == c {
            assert(chosen@[i as int] == c);
            return true;
        }
        i = i + 1;
    }
    false
}

fn left_over_exec(cards: &Vec<CardRef>, chosen: &Vec<CardRef>) -> (res: Vec<CardRef>)
    ensures
        res@ == left_over(cards@, chosen@),
{
    let mut out: Vec<CardRef> = Vec::new();
    let mut i: usize = 0;
    assert(cards@.take(0) =~= Seq::<CardRef>::empty());
    while i < cards.len()
        invariant
            0 <= i <= cards@.len(),
            out@ == left_over(cards@.take(i as int), chosen@),
        decreases cards@.len() - i,
    {
        assert(cards@.take(i + 1).drop_last() =~= cards@.take(i as int));
        if !card_chosen(cards[i], chosen) {
            out.push(cards[i]);
        }
        i = i + 1;
    }
    assert(cards@.take(cards@.len() as int) =~= cards@);
    out
}

/// Gives the variable its value from what the player answered.
pub fn bind_answer(ctx: &mut EvaluateContext, name: &str, request: &LetRequest, answer: LetAnswer)
    requires
        answer_fits(request@, answer@),
    ensures
        final(ctx)@ == spec_bind_answer(old(ctx)@, name@, request@, answer@),
{
    match answer {
        LetAnswer::YesNo(b) => {
            let c = if b {
                Condition::True
            } else {
                Condition::False
            };
            ctx.insert_variable(name, LetValue::Condition(c));
        },
        LetAnswer::Number(n) => {
            ctx.insert_variable(name, LetValue::Number(n));
        },
        LetAnswer::Cards(chosen) => {
            match request {
                LetRequest::Select { cards, .. } => {
                    let rest = left_over_exec(cards, &chosen);
                    proof {
                        reveal_strlit("&_leftovers");
                        assert("&_leftovers"@ =~= var_leftovers());
                    }
                    ctx.insert_variable("&_leftovers", LetValue::CardReferences(rest));
                    ctx.insert_variable(name, LetValue::CardReferences(chosen));
                },
                _ => {},
            }
        },
    }
}

// ------------------------------------------------------------------
// what an action asks of the game
// ------------------------------------------------------------------

/// What an action asks of the game once what it names is evaluated.
#[derive(Debug)]
pub enum ActionCommand {
    Nothing,
    /// the actions of the `if` run now, one after the other
    RunActions,
    AddZoneModifier { player: Player, zone: Zone, kind: ModifierKind, life_time: LifeTime },
    AddModifiers { cards: Vec<CardRef>, kind: ModifierKind, life_time: LifeTime },
    AttachCards { attachments: Vec<CardRef>, target: CardRef },
    DealDamage { card: CardRef, targets: Vec<CardRef>, damage: DamageMarkers, special: bool },
    Draw { player: Player, amount: usize },
    KnockOut { cards: Vec<CardRef> },
    /// the player is asked for the value of the variable
    Ask { name: String, request: LetRequest },
    Reveal { groups: Vec<((Player, Zone), Vec<CardRef>)> },
    SendTo { cards: Vec<CardRef>, zone: Zone, location: Option<ZoneAddLocation> },
    Shuffle { player: Player, zone: Zone },
}

pub enum ActionCommandV {
    Nothing,
    RunActions,
    AddZoneModifier { player: Player, zone: Zone, kind: ModifierKindV, life_time: LifeTime },
    AddModifiers { cards: Seq<CardRef>, kind: ModifierKindV, life_time: LifeTime },
    AttachCards { attachments: Seq<CardRef>, target: CardRef },
    DealDamage { card: CardRef, targets: Seq<CardRef>, damage: DamageMarkers, special: bool },
    Draw { player: Player, amount: usize },
    KnockOut { cards: Seq<CardRef> },
    Ask { name: Seq<char>, request: LetRequestV },
    Reveal { groups: Seq<((Player, Zone), Seq<CardRef>)> },
    SendTo { cards: Seq<CardRef>, zone: Zone, location: Option<ZoneAddLocation> },
    Shuffle { player: Player, zone: Zone },
}

pub open spec fn command_view(c: ActionCommand) -> ActionCommandV {
    match c {
        ActionCommand::Nothing => ActionCommandV::Nothing,
        ActionCommand::RunActions => ActionCommandV::RunActions,
        ActionCommand::AddZoneModifier { player, zone, kind, life_time } => ActionCommandV::AddZoneModifier {
            player,
            zone,
            kind: kind@,
            life_time,
        },
        ActionCommand::AddModifiers { cards, kind, life_time } => ActionCommandV::AddModifiers {
            cards: cards@,
            kind: kind@,
            life_time,
        },
        ActionCommand::AttachCards { attachments, target } => ActionCommandV::AttachCards {
            attachments: attachments@,
            target,
        },
        ActionCommand::DealDamage { card, targets, damage, special } => ActionCommandV::DealDamage {
            card,
            targets: targets@,
            damage,
            special,
        },
        ActionCommand::Draw { player, amount } => ActionCommandV::Draw { player, amount },
        ActionCommand::KnockOut { cards } => ActionCommandV::KnockOut { cards: cards@ },
        ActionCommand::Ask { name, request } => ActionCommandV::Ask { name: name@, request: request@ },
        ActionCommand::Reveal { groups } => ActionCommandV::Reveal { groups: place_groups_view(groups@) },
        ActionCommand::SendTo { cards, zone, location } => ActionCommandV::SendTo {
            cards: cards@,
            zone,
            location,
        },
        ActionCommand::Shuffle { player, zone } => ActionCommandV::Shuffle { player, zone },
    }
}

impl View for ActionCommand {
    type V = ActionCommandV;

    open spec fn view(&self) -> ActionCommandV {
        command_view(*self)
    }
}

/// The damage markers for an amount of hp, taken as a `u16`.
pub open spec fn damage_for(amount: usize) -> DamageMarkers {
    DamageMarkers(((amount as u16) / 10) as usize)
}

/// What an action asks of the game, and the context after it: a `let` sets its variable, an
/// `if` runs its actions when its condition holds, and the other actions ask the game to do
/// what they say with what they name.
pub open spec fn spec_action_step(ctx: ContextV, s: GameState, lib: GlobalLibrary, a: ActionV) -> Option<
    (ContextV, ActionCommandV),
> {
    let d = ctx.variables.len() as nat;
    match a {
        ActionV::AddGlobalModifier(p, m, l) => match (
            eval_player(ctx, p),
            eval_modifier(ctx, s, lib, m),
            eval_life_time(ctx, s, l),
        ) {
            (Some(player), Some(kind), Some(life_time)) => Some(
                (ctx, ActionCommandV::AddZoneModifier { player, zone: Zone::All, kind, life_time }),
            ),
            _ => None,
        },
        ActionV::AddModifier(crs, m, l) => match eval_card_references(ctx, s, lib, crs, d) {
            Some(cards) => if cards.len() == 0 {
                Some((ctx, ActionCommandV::Nothing))
            } else {
                match (eval_modifier(ctx, s, lib, m), eval_life_time(ctx, s, l)) {
                    (Some(kind), Some(life_time)) => Some(
                        (ctx, ActionCommandV::AddModifiers { cards, kind, life_time }),
                    ),
                    _ => None,
                }
            },
            None => None,
        },
        ActionV::AddZoneModifier(z, m, l) => match (
            eval_zone(ctx, z),
            eval_modifier(ctx, s, lib, m),
            eval_life_time(ctx, s, l),
        ) {
            (Some((player, zone)), Some(kind), Some(life_time)) => Some(
                (ctx, ActionCommandV::AddZoneModifier { player, zone, kind, life_time }),
            ),
            _ => None,
        },
        ActionV::AttachCards(crs, cr) => match (
            eval_card_references(ctx, s, lib, crs, d),
            eval_card_reference(ctx, s, cr),
        ) {
            (Some(attachments), Some(target)) => if attachments.len() == 0 {
                Some((ctx, ActionCommandV::Nothing))
            } else {
                Some((ctx, ActionCommandV::AttachCards { attachments, target }))
            },
            _ => None,
        },
        ActionV::DealDamage(crs, n) => match (
            ctx.active_card,
            eval_card_references(ctx, s, lib, crs, d),
            eval_amount(ctx, s, lib, n),
        ) {
            (Some(card), Some(targets), Some(k)) => Some(
                (ctx, ActionCommandV::DealDamage { card, targets, damage: damage_for(k), special: false }),
            ),
            _ => None,
        },
        ActionV::DealSpecialDamage(crs, n) => match (
            ctx.active_card,
            eval_card_references(ctx, s, lib, crs, d),
            eval_amount(ctx, s, lib, n),
        ) {
            (Some(card), Some(targets), Some(k)) => Some(
                (ctx, ActionCommandV::DealDamage { card, targets, damage: damage_for(k), special: true }),
            ),
            _ => None,
        },
        ActionV::Draw(n) => match (ctx.active_player, eval_amount(ctx, s, lib, n)) {
            (Some(player), Some(amount)) => Some((ctx, ActionCommandV::Draw { player, amount })),
            _ => None,
        },
        ActionV::If(c, _) => match eval_condition(ctx, s, lib, c, d) {
            Some(true) => Some((ctx, ActionCommandV::RunActions)),
            Some(false) => Some((ctx, ActionCommandV::Nothing)),
            None => None,
        },
        ActionV::KnockOut(crs) => match eval_card_references(ctx, s, lib, crs, d) {
            Some(cards) => Some((ctx, ActionCommandV::KnockOut { cards })),
            None => None,
        },
        ActionV::LetCardReferences(l) => match eval_card_references(ctx, s, lib, l.1, d) {
            Some(cards) => Some(
                (
                    ContextV {
                        variables: set_var(ctx.variables, l.0, LetValueV::CardReferences(cards)),
                        ..ctx
                    },
                    ActionCommandV::Nothing,
                ),
            ),
            None => None,
        },
        ActionV::LetCondition(l) => Some(
            (
                ContextV { variables: set_var(ctx.variables, l.0, LetValueV::Condition(l.1)), ..ctx },
                ActionCommandV::Nothing,
            ),
        ),
        ActionV::LetSelect(l) => match spec_let_request(ctx, s, lib, l.1) {
            Some(request) => Some((ctx, ActionCommandV::Ask { name: l.0, request })),
            None => None,
        },
        ActionV::LetNumber(l) => match eval_amount(ctx, s, lib, l.1) {
            Some(k) => Some(
                (
                    ContextV { variables: set_var(ctx.variables, l.0, LetValueV::Number(k)), ..ctx },
                    ActionCommandV::Nothing,
                ),
            ),
            None => None,
        },
        ActionV::Noop => Some((ctx, ActionCommandV::Nothing)),
        ActionV::Reveal(crs) => match eval_card_references(ctx, s, lib, crs, d) {
            Some(cards) => if forall|i: int| 0 <= i < cards.len() ==> placed(s, #[trigger] cards[i]) {
                Some((ctx, ActionCommandV::Reveal { groups: grouped_by_place(s, cards) }))
            } else {
                None
            },
            None => None,
        },
        ActionV::SendTo(z, crs) => match (eval_zone(ctx, z), eval_card_references(ctx, s, lib, crs, d)) {
            (Some((_, zone)), Some(cards)) => Some(
                (ctx, ActionCommandV::SendTo { cards, zone, location: None }),
            ),
            _ => None,
        },
        ActionV::SendToBottom(z, crs) => match (
            eval_zone(ctx, z),
            eval_card_references(ctx, s, lib, crs, d),
        ) {
            (Some((_, zone)), Some(cards)) => Some(
                (ctx, ActionCommandV::SendTo { cards, zone, location: Some(ZoneAddLocation::Bottom) }),
            ),
            _ => None,
        },
        ActionV::SendToTop(z, crs) => match (
            eval_zone(ctx, z),
            eval_card_references(ctx, s, lib, crs, d),
        ) {
            (Some((_, zone)), Some(cards)) => Some(
                (ctx, ActionCommandV::SendTo { cards, zone, location: Some(ZoneAddLocation::Top) }),
            ),
            _ => None,
        },
        ActionV::Shuffle(z) => match eval_zone(ctx, z) {
            Some((player, zone)) => Some((ctx, ActionCommandV::Shuffle { player, zone })),
            None => None,
        },
    }
}

fn cards_of(crs: &CardReferences, ctx: &EvaluateContext, game: &GameState, library: &GlobalLibrary) -> (res: Vec<CardRef>)
    requires
        eval_card_references(ctx@, *game, *library, crs@, ctx.variables@.len() as nat) is Some,
    ensures
        eval_card_references(ctx@, *game, *library, crs@, ctx.variables@.len() as nat) == Some(res@),
{
    crs.evaluate_with_context(ctx, game, library)
}

impl Action {
    /// Evaluates what the action names, and gives what it asks of the game; a `let` sets its
    /// variable in the context.
    #[verifier::spinoff_prover]
    #[verifier::rlimit(40)]
    pub fn evaluate_step(&self, ctx: &mut EvaluateContext, game: &GameState, library: &GlobalLibrary) -> (res: ActionCommand)
        requires
            spec_action_step(old(ctx)@, *game, *library, self@) is Some,
        ensures
            spec_action_step(old(ctx)@, *game, *library, self@) == Some((final(ctx)@, res@)),
    {
        match self {
            Action::AddGlobalModifier(p, m, l) => {
                let player = p.evaluate_with_context(ctx, game);
                let kind = m.evaluate_with_context(ctx, game, library);
                let life_time = l.evaluate_with_context(ctx, game);
                ActionCommand::AddZoneModifier { player, zone: Zone::All, kind, life_time }
            },
            Action::AddModifier(crs, m, l) => {
                let cards = cards_of(crs, ctx, game, library);
                if cards.len() == 0 {
                    ActionCommand::Nothing
                } else {
                    let kind = m.evaluate_with_context(ctx, game, library);
                    let life_time = l.evaluate_with_context(ctx, game);
                    ActionCommand::AddModifiers { cards, kind, life_time }
                }
            },
            Action::AddZoneModifier(z, m, l) => {
                let (player, zone) = z.evaluate_with_context(ctx, game);
                let kind = m.evaluate_with_context(ctx, game, library);
                let life_time = l.evaluate_with_context(ctx, game);
                ActionCommand::AddZoneModifier { player, zone, kind, life_time }
            },
            Action::AttachCards(crs, cr) => {
                let attachments = cards_of(crs, ctx, game, library);
                let target = cr.evaluate_with_context(ctx, game);
                if attachments.len() == 0 {
                    ActionCommand::Nothing
                } else {
                    ActionCommand::AttachCards { attachments, target }
                }
            },
            Action::DealDamage(crs, n) => {
                let card = ctx.active_card.unwrap();
                let targets = cards_of(crs, ctx, game, library);
                let k = amount(n, ctx, game, library);
                let damage = DamageMarkers::from_hp(#[verifier::truncate] (k as u16));
                ActionCommand::DealDamage { card, targets, damage, special: false }
            },
            Action::DealSpecialDamage(crs, n) => {
                let card = ctx.active_card.unwrap();
                let targets = cards_of(crs, ctx, game, library);
                let k = amount(n, ctx, game, library);
                let damage = DamageMarkers::from_hp(#[verifier::truncate] (k as u16));
                ActionCommand::DealDamage { card, targets, damage, special: true }
            },
            Action::Draw(n) => {
                let player = ctx.active_player.unwrap();
                let k = amount(n, ctx, game, library);
                ActionCommand::Draw { player, amount: k }
            },
            Action::If(c, _) => {
                if c.evaluate_with_context(ctx, game, library) {
                    ActionCommand::RunActions
                } else {
                    ActionCommand::Nothing
                }
            },
            Action::KnockOut(crs) => ActionCommand::KnockOut { cards: cards_of(crs, ctx, game, library) },
            Action::LetCardReferences(l) => {
                let cards = cards_of(&l.1, ctx, game, library);
                ctx.insert_variable(l.0.0.as_str(), LetValue::CardReferences(cards));
                ActionCommand::Nothing
            },
            Action::LetCondition(l) => {
                ctx.insert_variable(l.0.0.as_str(), LetValue::Condition(condition_clone(&l.1)));
                ActionCommand::Nothing
            },
            Action::LetSelect(l) => {
                let request = l.1.request(ctx, game, library);
                ActionCommand::Ask { name: l.0.0.clone(), request }
            },
            Action::LetNumber(l) => {
                let k = amount(&l.1, ctx, game, library);
                ctx.insert_variable(l.0.0.as_str(), LetValue::Number(k));
                ActionCommand::Nothing
            },
            Action::Noop => ActionCommand::Nothing,
            Action::Reveal(crs) => {
                let cards = cards_of(crs, ctx, game, library);
                ActionCommand::Reveal { groups: game.group_by_player_and_zone(&cards) }
            },
            Action::SendTo(z, crs) => {
                let (_, zone) = z.evaluate_with_context(ctx, game);
                let cards = cards_of(crs, ctx, game, library);
                ActionCommand::SendTo { cards, zone, location: None }
            },
            Action::SendToBottom(z, crs) => {
                let (_, zone) = z.evaluate_with_context(ctx, game);
                let cards = cards_of(crs, ctx, game, library);
                ActionCommand::SendTo { cards, zone, location: Some(ZoneAddLocation::Bottom) }
            },
            Action::SendToTop(z, crs) => {
                let (_, zone) = z.evaluate_with_context(ctx, game);
                let cards = cards_of(crs, ctx, game, library);
                ActionCommand::SendTo { cards, zone, location: Some(ZoneAddLocation::Top) }
            },
            Action::Shuffle(z) => {
                let (player, zone) = z.evaluate_with_context(ctx, game);
                ActionCommand::Shuffle { player, zone }
            },
        }
    }
}

} // verus!
