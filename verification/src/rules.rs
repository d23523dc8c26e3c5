use vstd::prelude::*;

use crate::card_effects::effects::{condition_views, Color, Condition};
use crate::card_effects::evaluate::{damage_hp, eval_conditions, set_var, var_art_target, var_attach_target, var_this_card, ContextV, EvaluateBuilder, LetValueV};
use crate::cards::{level_number, level_rank, member_names, Card, HoloMemberAbility, HoloMemberCard, HoloMemberLevel, MemberAbilityKind, OshiHoloMemberCard, SupportCard};
use crate::events::{Event, TriggeredEvent};
use crate::card_effects::trigger::Trigger;
use crate::gameplay::{CardRef, Zone};
use crate::library::GlobalLibrary;
use crate::modifier_rules::mods_have_kind;
use crate::modifiers::{ModifierKind, ModifierKindV};
use crate::state::{punique_keys, spec_board, GameState};

verus! {

// ------------------------------------------------------------------
// cheers
// ------------------------------------------------------------------

pub open spec fn color_index(c: Color) -> int {
    match c {
        Color::White => 0,
        Color::Green => 1,
        Color::Red => 2,
        Color::Blue => 3,
        Color::Purple => 4,
        Color::Yellow => 5,
        Color::Colorless => 6,
    }
}

fn color_number(c: Color) -> (res: usize)
    ensures
        res == color_index(c),
{
    match c {
        Color::White => 0,
        Color::Green => 1,
        Color::Red => 2,
        Color::Blue => 3,
        Color::Purple => 4,
        Color::Yellow => 5,
        Color::Colorless => 6,
    }
}

/// How many cheers of each color a cost asks for.
pub open spec fn count_colors(cs: Seq<Color>) -> Seq<int>
    decreases cs.len(),
{
    if cs.len() == 0 {
        seq![0int, 0, 0, 0, 0, 0, 0]
    } else {
        let p = count_colors(cs.drop_last());
        p.update(color_index(cs.last()), p[color_index(cs.last())] + 1)
    }
}

/// A cheer pays for one cheer of its color, or else for a colorless one.
pub open spec fn pay_step(p: Seq<int>, color: Color) -> Seq<int> {
    let i = color_index(color);
    if p[i] > 0 {
        p.update(i, p[i] - 1)
    } else if p[6] > 0 {
        p.update(6, p[6] - 1)
    } else {
        p
    }
}

/// What is left of a cost once the cheers paid, one after the other.
pub open spec fn pay_cheers(req: Seq<int>, colors: Seq<Color>) -> Seq<int>
    decreases colors.len(),
{
    if colors.len() == 0 {
        req
    } else {
        pay_step(pay_cheers(req, colors.drop_last()), colors.last())
    }
}

/// The colors of the cheers among the cards, in order; every card must be in the library.
#[verifier::opaque]
pub open spec fn cheer_colors(s: GameState, lib: GlobalLibrary, atts: Seq<CardRef>) -> Option<
    Seq<Color>,
>
    decreases atts.len(),
{
    if atts.len() == 0 {
        Some(Seq::empty())
    } else {
        match cheer_colors(s, lib, atts.drop_last()) {
            Some(cols) => if s.in_library(&lib, atts.last()) {
                match s.card_of(&lib, atts.last()) {
                    Card::Cheer(c) => Some(cols.push(c.color)),
                    _ => Some(cols),
                }
            } else {
                None
            },
            None => None,
        }
    }
}

/// Whether the cheers attached to a card pay for the cost.
pub open spec fn spec_required_attached_cheers(
    s: GameState,
    lib: GlobalLibrary,
    card: CardRef,
    cheers: Seq<Color>,
) -> Option<bool> {
    if s.is_registered(card) {
        match cheer_colors(s, lib, s.spec_attachments(card)) {
            Some(cols) => Some(
                forall|i: int| 0 <= i < 7 ==> #[trigger] pay_cheers(count_colors(cheers), cols)[i] == 0,
            ),
            None => None,
        }
    } else {
        None
    }
}

proof fn lemma_count_len(cs: Seq<Color>)
    ensures
        count_colors(cs).len() == 7,
        forall|i: int| 0 <= i < 7 ==> 0 <= #[trigger] count_colors(cs)[i] <= cs.len(),
    decreases cs.len(),
{
    if cs.len() > 0 {
        lemma_count_len(cs.drop_last());
    }
}

proof fn lemma_pay_len(req: Seq<int>, colors: Seq<Color>)
    requires
        req.len() == 7,
    ensures
        pay_cheers(req, colors).len() == 7,
        forall|i: int| 0 <= i < 7 ==> #[trigger] pay_cheers(req, colors)[i] <= req[i],
        forall|i: int| 0 <= i < 7 ==> req[i] >= 0 ==> #[trigger] pay_cheers(req, colors)[i] >= 0,
    decreases colors.len(),
{
    if colors.len() > 0 {
        lemma_pay_len(req, colors.drop_last());
    }
}

/// What is left of `a` after `b` is taken from it, never below zero.
pub open spec fn left_after(a: int, b: int) -> int {
    if a > b {
        a - b
    } else {
        0
    }
}

/// The cheers that are more than their color asks for, together with the colorless cheers:
/// those can pay for the colorless part of a cost.
pub open spec fn spare_cheers(req: Seq<int>, have: Seq<int>) -> int {
    have[6] + left_after(have[0], req[0]) + left_after(have[1], req[1]) + left_after(
        have[2],
        req[2],
    ) + left_after(have[3], req[3]) + left_after(have[4], req[4]) + left_after(have[5], req[5])
}

/// Paying a cost with cheers, in any order, leaves of each color what the cheers of that
/// color do not cover, and of the colorless part what the spare cheers do not cover. So the
/// cost is paid exactly when each color is covered by its own cheers and the spare cheers
/// cover the colorless part.
pub proof fn lemma_pay_cheers_leaves(req: Seq<int>, colors: Seq<Color>)
    requires
        req.len() == 7,
        forall|i: int| 0 <= i < 7 ==> req[i] >= 0,
    ensures
        pay_cheers(req, colors).len() == 7,
        forall|i: int|
            0 <= i < 6 ==> #[trigger] pay_cheers(req, colors)[i] == left_after(
                req[i],
                count_colors(colors)[i],
            ),
        pay_cheers(req, colors)[6] == left_after(req[6], spare_cheers(req, count_colors(colors))),
        (forall|i: int| 0 <= i < 7 ==> #[trigger] pay_cheers(req, colors)[i] == 0) <==> ((forall|
            i: int,
        |
            0 <= i < 6 ==> #[trigger] count_colors(colors)[i] >= req[i]) && spare_cheers(
            req,
            count_colors(colors),
        ) >= req[6]),
    decreases colors.len(),
{
    lemma_count_len(colors);
    lemma_pay_len(req, colors);
    if colors.len() > 0 {
        let prev = colors.drop_last();
        lemma_pay_cheers_leaves(req, prev);
        lemma_count_len(prev);
        let x = colors.last();
        let ix = color_index(x);
        let p = pay_cheers(req, prev);
        let h0 = count_colors(prev);
        let h = count_colors(colors);
        assert(h == h0.update(ix, h0[ix] + 1));
        assert(pay_cheers(req, colors) == pay_step(p, x));
        if ix < 6 {
            if p[ix] > 0 {
                assert(spare_cheers(req, h) == spare_cheers(req, h0));
            } else {
                assert(spare_cheers(req, h) == spare_cheers(req, h0) + 1);
            }
        } else {
            assert(spare_cheers(req, h) == spare_cheers(req, h0) + 1);
        }
    }
    let q = pay_cheers(req, colors);
    let h = count_colors(colors);
    if forall|i: int| 0 <= i < 7 ==> #[trigger] q[i] == 0 {
        assert forall|i: int| 0 <= i < 6 implies #[trigger] h[i] >= req[i] by {
            assert(q[i] == 0);
        }
        assert(q[6] == 0);
    }
}

impl GameState {
    /// The cheers attached to a registered card; every attachment must be in the library.
    pub fn attached_cheers(&self, library: &GlobalLibrary, card: CardRef) -> (res: Vec<CardRef>)
        requires
            self.is_registered(card),
            forall|i: int|
                0 <= i < self.spec_attachments(card).len() ==> self.in_library(
                    library,
                    #[trigger] self.spec_attachments(card)[i],
                ),
        ensures
            res@ == self.spec_attachments(card).filter(|a: CardRef| self.card_of(library, a) is Cheer),
    {
        let atts = self.attachments(card);
        let mut out: Vec<CardRef> = Vec::new();
        let mut i: usize = 0;
        while i < atts.len()
            invariant
                0 <= i <= atts@.len(),
                atts@ == self.spec_attachments(card),
                forall|j: int| 0 <= j < atts@.len() ==> self.in_library(library, #[trigger] atts@[j]),
                out@ == atts@.take(i as int).filter(|a: CardRef| self.card_of(library, a) is Cheer),
            decreases atts@.len() - i,
        {
            proof {
                assert(atts@.take(i + 1).drop_last() =~= atts@.take(i as int));
                reveal(Seq::filter);
            }
            if self.lookup_cheer(library, atts[i]).is_some() {
                out.push(atts[i]);
            }
            i = i + 1;
        }
        proof {
            assert(atts@.take(atts@.len() as int) =~= atts@);
        }
        out
    }

    /// Whether the cheers attached to a registered card pay for the cost: each cheer pays for
    /// one cheer of its color, or else for a colorless one.
    #[verifier::spinoff_prover]
    #[verifier::rlimit(60)]
    pub fn required_attached_cheers(&self, library: &GlobalLibrary, card: CardRef, cheers: &[Color]) -> (res: bool)
        requires
            spec_required_attached_cheers(*self, *library, card, cheers@) is Some,
        ensures
            spec_required_attached_cheers(*self, *library, card, cheers@) == Some(res),
    {
        let mut req = count_cost(cheers);
        let ghost req0 = count_colors(cheers@);
        proof {
            lemma_count_len(cheers@);
        }
        let atts = self.attachments(card);
        proof {
            reveal(cheer_colors);
            assert(atts@.take(0) =~= Seq::<CardRef>::empty());
        }
        let mut i: usize = 0;
        while i < atts.len()
            invariant
                0 <= i <= atts@.len(),
                atts@ == self.spec_attachments(card),
                req0.len() == 7,
                forall|j: int| 0 <= j < 7 ==> req0[j] >= 0,
                cheer_colors(*self, *library, atts@) is Some,
                cheer_colors(*self, *library, atts@.take(i as int)) is Some,
                req@.len() == 7,
                counts_view(req@) == pay_cheers(
                    req0,
                    cheer_colors(*self, *library, atts@.take(i as int))->0,
                ),
            decreases atts@.len() - i,
        {
            proof {
                lemma_cheer_step(*self, *library, atts@, i as int, req0);
            }
            pay_for_card(self, library, &mut req, atts[i]);
            i = i + 1;
        }
        proof {
            assert(atts@.take(atts@.len() as int) =~= atts@);
        }
        let res = all_zero(&req);
        proof {
            let cols = cheer_colors(*self, *library, atts@)->0;
            assert(counts_view(req@) == pay_cheers(count_colors(cheers@), cols));
        }
        res
    }
}

pub open spec fn counts_view(v: Seq<usize>) -> Seq<int> {
    v.map_values(|x: usize| x as int)
}

fn count_cost(cheers: &[Color]) -> (res: Vec<usize>)
    ensures
        counts_view(res@) == count_colors(cheers@),
{
    let mut req: Vec<usize> = vec![0, 0, 0, 0, 0, 0, 0];
    assert(counts_view(req@) =~= count_colors(cheers@.take(0)));
    let mut k: usize = 0;
    while k < cheers.len()
        invariant
            0 <= k <= cheers@.len(),
            counts_view(req@) == count_colors(cheers@.take(k as int)),
        decreases cheers@.len() - k,
    {
        proof {
            assert(cheers@.take(k + 1).drop_last() =~= cheers@.take(k as int));
            lemma_count_len(cheers@.take(k as int));
        }
        let ci = color_number(cheers[k]);
        let v = req[ci];
        assert(v as int == counts_view(req@)[ci as int]);
        req.set(ci, v + 1);
        assert(counts_view(req@) =~= count_colors(cheers@.take(k + 1)));
        k = k + 1;
    }
    assert(cheers@.take(cheers@.len() as int) =~= cheers@);
    req
}

fn pay_one(req: &mut Vec<usize>, color: Color)
    requires
        old(req)@.len() == 7,
    ensures
        final(req)@.len() == 7,
        counts_view(final(req)@) == pay_step(counts_view(old(req)@), color),
{
    let ci = color_number(color);
    let ghost p = counts_view(req@);
    if req[ci] > 0 {
        let v = req[ci];
        req.set(ci, v - 1);
        assert(counts_view(req@) =~= p.update(ci as int, p[ci as int] - 1));
    } else if req[6] > 0 {
        let v = req[6];
        req.set(6, v - 1);
        assert(counts_view(req@) =~= p.update(6, p[6] - 1));
    } else {
        assert(counts_view(req@) =~= p);
    }
}

fn all_zero(req: &Vec<usize>) -> (res: bool)
    requires
        req@.len() == 7,
    ensures
        res == forall|i: int| 0 <= i < 7 ==> #[trigger] counts_view(req@)[i] == 0,
{
    let mut j: usize = 0;
    while j < 7
        invariant
            0 <= j <= 7,
            req@.len() == 7,
            forall|t: int| 0 <= t < j ==> req@[t] == 0,
        decreases 7 - j,
    {
        if req[j] != 0 {
            assert(counts_view(req@)[j as int] != 0);
            return false;
        }
        j = j + 1;
    }
    proof {
        assert forall|i: int| 0 <= i < 7 implies #[trigger] counts_view(req@)[i] == 0 by {
            assert(req@[i] == 0);
        }
    }
    true
}

/// What a card pays of a cost: a cheer pays for one of its color, or else a colorless one.
pub open spec fn paid_for(p: Seq<int>, s: GameState, lib: GlobalLibrary, a: CardRef) -> Seq<int> {
    match s.card_of(&lib, a) {
        Card::Cheer(c) => pay_step(p, c.color),
        _ => p,
    }
}

#[verifier::spinoff_prover]
proof fn lemma_cheer_step(s: GameState, lib: GlobalLibrary, atts: Seq<CardRef>, i: int, req0: Seq<int>)
    requires
        0 <= i < atts.len(),
        cheer_colors(s, lib, atts) is Some,
    ensures
        cheer_colors(s, lib, atts.take(i)) is Some,
        cheer_colors(s, lib, atts.take(i + 1)) is Some,
        s.in_library(&lib, atts[i]),
        pay_cheers(req0, cheer_colors(s, lib, atts.take(i + 1))->0) == paid_for(
            pay_cheers(req0, cheer_colors(s, lib, atts.take(i))->0),
            s,
            lib,
            atts[i],
        ),
{
    lemma_cheer_prefix(s, lib, atts, i + 1);
    reveal(cheer_colors);
    let t = atts.take(i + 1);
    assert(t.drop_last() =~= atts.take(i));
    assert(t.last() == atts[i]);
    let cols = cheer_colors(s, lib, atts.take(i))->0;
    if let Card::Cheer(c) = s.card_of(&lib, atts[i]) {
        assert(cols.push(c.color).drop_last() =~= cols);
    }
}

fn pay_for_card(game: &GameState, library: &GlobalLibrary, req: &mut Vec<usize>, a: CardRef)
    requires
        old(req)@.len() == 7,
        game.in_library(library, a),
    ensures
        final(req)@.len() == 7,
        counts_view(final(req)@) == paid_for(counts_view(old(req)@), *game, *library, a),
{
    match game.lookup_cheer(library, a) {
        Some(c) => {
            pay_one(req, c.color);
        },
        None => {},
    }
}

proof fn lemma_cheer_prefix(s: GameState, lib: GlobalLibrary, atts: Seq<CardRef>, n: int)
    requires
        cheer_colors(s, lib, atts) is Some,
        0 <= n <= atts.len(),
    ensures
        cheer_colors(s, lib, atts.take(n)) is Some,
    decreases atts.len(),
{
    reveal(cheer_colors);
    if n < atts.len() {
        lemma_cheer_prefix(s, lib, atts.drop_last(), n);
        assert(atts.drop_last().take(n) =~= atts.take(n));
    } else {
        assert(atts.take(n) =~= atts);
    }
}


// ------------------------------------------------------------------
// what a card can do
// ------------------------------------------------------------------

/// Whether a registered card has a modifier of the kind that applies.
pub open spec fn has_kind(s: GameState, lib: GlobalLibrary, c: CardRef, k: ModifierKindV) -> Option<
    bool,
> {
    if s.is_registered(c) {
        mods_have_kind(s, lib, c, s.spec_find_modifiers(c), k)
    } else {
        None
    }
}

/// The context of a card's own condition: the card, its owner, the card as `this card`.
pub open spec fn card_ctx(s: GameState, card: CardRef, triggered: bool) -> ContextV {
    ContextV {
        active_card: Some(card),
        active_player: Some(s.owner(card)),
        variables: set_var(
            Seq::empty(),
            var_this_card(),
            LetValueV::CardReferences(seq![card]),
        ),
        is_triggered: triggered,
    }
}

pub open spec fn with_target(ctx: ContextV, name: Seq<char>, target: CardRef) -> ContextV {
    ContextV {
        variables: set_var(ctx.variables, name, LetValueV::CardReferences(seq![target])),
        ..ctx
    }
}

/// Whether the conditions hold in a context.
pub open spec fn conditions_hold(
    ctx: ContextV,
    s: GameState,
    lib: GlobalLibrary,
    cs: Seq<Condition>,
) -> Option<bool> {
    eval_conditions(ctx, s, lib, condition_views(cs), ctx.variables.len() as nat)
}

/// `false` if a modifier prevents it, else what follows.
pub open spec fn unless(prevented: Option<bool>, then: Option<bool>) -> Option<bool> {
    match prevented {
        Some(true) => Some(false),
        Some(false) => then,
        None => None,
    }
}

fn card_conditions_hold(
    conditions: &Vec<Condition>,
    card: CardRef,
    game: &GameState,
    library: &GlobalLibrary,
    is_triggered: bool,
) -> (res: bool)
    requires
        crate::state::has_entry(game.card_map@, card),
        conditions_hold(card_ctx(*game, card, is_triggered), *game, *library, conditions@) is Some,
    ensures
        conditions_hold(card_ctx(*game, card, is_triggered), *game, *library, conditions@) == Some(
            res,
        ),
{
    let b = EvaluateBuilder::new(conditions).with_card(card, game).with_triggered(is_triggered);
    assert(b.context@ == card_ctx(*game, card, is_triggered));
    b.evaluate(game, library)
}

impl OshiHoloMemberCard {
    pub open spec fn spec_can_use_skill(
        &self,
        card: CardRef,
        skill_idx: int,
        s: GameState,
        lib: GlobalLibrary,
        is_triggered: bool,
    ) -> Option<bool> {
        if spec_board(s, s.owner(card)).zone_seq(Zone::HoloPower).len() < self.skills@[skill_idx].cost {
            Some(false)
        } else {
            unless(
                has_kind(s, lib, card, ModifierKindV::PreventOshiSkill(skill_idx as usize)),
                conditions_hold(
                    card_ctx(s, card, is_triggered),
                    s,
                    lib,
                    self.skills@[skill_idx].condition@,
                ),
            )
        }
    }

    /// Whether a skill can be used: there is enough holo power to pay for it, no modifier
    /// prevents it, and its condition holds.
    pub fn can_use_skill(
        &self,
        card: CardRef,
        skill_idx: usize,
        game: &GameState,
        library: &GlobalLibrary,
        is_triggered: bool,
    ) -> (res: bool)
        requires
            game.is_registered(card),
            punique_keys(game.zone_modifiers@),
            skill_idx < self.skills@.len(),
            self.spec_can_use_skill(card, skill_idx as int, *game, *library, is_triggered) is Some,
        ensures
            self.spec_can_use_skill(card, skill_idx as int, *game, *library, is_triggered) == Some(
                res,
            ),
    {
        let player = game.player_for_card(card);
        let holo_power_count = game.board(player).zone_count(Zone::HoloPower);
        if holo_power_count < self.skills[skill_idx].cost as usize {
            return false;
        }
        if game.has_modifier(library, card, ModifierKind::PreventOshiSkill(skill_idx)) {
            return false;
        }
        card_conditions_hold(&self.skills[skill_idx].condition, card, game, library, is_triggered)
    }
}

/// Whether every card rests, looked at in order until one does not.
pub open spec fn all_resting(s: GameState, lib: GlobalLibrary, cards: Seq<CardRef>) -> Option<bool>
    decreases cards.len(),
{
    if cards.len() == 0 {
        Some(true)
    } else {
        match has_kind(s, lib, cards[0], ModifierKindV::Resting) {
            Some(true) => all_resting(s, lib, cards.drop_first()),
            Some(false) => Some(false),
            None => None,
        }
    }
}

#[verifier::spinoff_prover]
#[verifier::rlimit(50)]
proof fn lemma_all_resting_step(s: GameState, lib: GlobalLibrary, cards: Seq<CardRef>, i: int)
    requires
        0 <= i < cards.len(),
        all_resting(s, lib, cards.skip(i)) is Some,
    ensures
        s.is_registered(cards[i]),
        mods_have_kind(s, lib, cards[i], s.spec_find_modifiers(cards[i]), ModifierKindV::Resting) is Some,
        mods_have_kind(s, lib, cards[i], s.spec_find_modifiers(cards[i]), ModifierKindV::Resting)
            == Some(false) ==> all_resting(s, lib, cards.skip(i)) == Some(false),
        mods_have_kind(s, lib, cards[i], s.spec_find_modifiers(cards[i]), ModifierKindV::Resting)
            == Some(true) ==> all_resting(s, lib, cards.skip(i)) == all_resting(
            s,
            lib,
            cards.skip(i + 1),
        ),
{
    assert(cards.skip(i)[0] == cards[i]);
    assert(cards.skip(i).drop_first() =~= cards.skip(i + 1));
}

#[verifier::spinoff_prover]
fn all_resting_exec(game: &GameState, library: &GlobalLibrary, cards: &Vec<CardRef>) -> (res: bool)
    requires
        punique_keys(game.zone_modifiers@),
        all_resting(*game, *library, cards@) is Some,
    ensures
        all_resting(*game, *library, cards@) == Some(res),
{
    let mut i: usize = 0;
    assert(cards@.skip(0) =~= cards@);
    while i < cards.len()
        invariant
            0 <= i <= cards@.len(),
            punique_keys(game.zone_modifiers@),
            all_resting(*game, *library, cards@) == all_resting(*game, *library, cards@.skip(i as int)),
            all_resting(*game, *library, cards@) is Some,
        decreases cards@.len() - i,
    {
        proof {
            lemma_all_resting_step(*game, *library, cards@, i as int);
        }
        if !game.has_modifier(library, cards[i], ModifierKind::Resting) {
            return false;
        }
        i = i + 1;
    }
    proof {
        assert(cards@.skip(i as int) =~= Seq::<CardRef>::empty());
    }
    true
}

/// The members among the cards, in order; every card must be in the library.
pub open spec fn attached_members(s: GameState, lib: GlobalLibrary, atts: Seq<CardRef>) -> Option<
    Seq<HoloMemberCard>,
>
    decreases atts.len(),
{
    if atts.len() == 0 {
        Some(Seq::empty())
    } else {
        match attached_members(s, lib, atts.drop_last()) {
            Some(ms) => if s.in_library(&lib, atts.last()) {
                match s.card_of(&lib, atts.last()) {
                    Card::HoloMember(m) => Some(ms.push(m)),
                    _ => Some(ms),
                }
            } else {
                None
            },
            None => None,
        }
    }
}

/// A name that every one of the members goes by.
pub open spec fn common_name(a: HoloMemberCard, b: HoloMemberCard, ms: Seq<HoloMemberCard>) -> bool {
    exists|n: Seq<char>|
        #[trigger] member_names(a).contains(n) && member_names(b).contains(n) && forall|j: int|
            0 <= j < ms.len() ==> member_names(ms[j]).contains(n)
}

proof fn lemma_members_prefix(s: GameState, lib: GlobalLibrary, atts: Seq<CardRef>, n: int)
    requires
        attached_members(s, lib, atts) is Some,
        0 <= n <= atts.len(),
    ensures
        attached_members(s, lib, atts.take(n)) is Some,
    decreases atts.len(),
{
    if n < atts.len() {
        lemma_members_prefix(s, lib, atts.drop_last(), n);
        assert(atts.drop_last().take(n) =~= atts.take(n));
    } else {
        assert(atts.take(n) =~= atts);
    }
}

#[verifier::spinoff_prover]
#[verifier::rlimit(80)]
fn members_of<'a>(game: &GameState, library: &'a GlobalLibrary, atts: &Vec<CardRef>) -> (res: Vec<
    &'a HoloMemberCard,
>)
    requires
        attached_members(*game, *library, atts@) is Some,
    ensures
        res@.len() == attached_members(*game, *library, atts@)->0.len(),
        forall|j: int|
            0 <= j < res@.len() ==> *res@[j] == attached_members(*game, *library, atts@)->0[j],
{
    let mut out: Vec<&'a HoloMemberCard> = Vec::new();
    let mut i: usize = 0;
    while i < atts.len()
        invariant
            0 <= i <= atts@.len(),
            attached_members(*game, *library, atts@) is Some,
            attached_members(*game, *library, atts@.take(i as int)) is Some,
            out@.len() == attached_members(*game, *library, atts@.take(i as int))->0.len(),
            forall|j: int|
                0 <= j < out@.len() ==> *out@[j] == attached_members(
                    *game,
                    *library,
                    atts@.take(i as int),
                )->0[j],
        decreases atts@.len() - i,
    {
        proof {
            lemma_members_prefix(*game, *library, atts@, i + 1);
            assert(atts@.take(i + 1).drop_last() =~= atts@.take(i as int));
            assert(atts@.take(i + 1).last() == atts@[i as int]);
        }
        match game.lookup_holo_member(library, atts[i]) {
            Some(m) => out.push(m),
            None => {},
        }
        i = i + 1;
    }
    proof {
        assert(atts@.take(atts@.len() as int) =~= atts@);
    }
    out
}

fn has_common_name(
    a: &HoloMemberCard,
    b: &HoloMemberCard,
    members: &Vec<&HoloMemberCard>,
    Ghost(ms): Ghost<Seq<HoloMemberCard>>,
) -> (res: bool)
    requires
        members@.len() == ms.len(),
        forall|j: int| 0 <= j < members@.len() ==> *members@[j] == ms[j],
    ensures
        res == common_name(*a, *b, ms),
{
    let names = a.names();
    let mut i: usize = 0;
    while i < names.len()
        invariant
            0 <= i <= names@.len(),
            names@.len() == member_names(*a).len(),
            forall|j: int| 0 <= j < names@.len() ==> #[trigger] names@[j]@ == member_names(*a)[j],
            members@.len() == ms.len(),
            forall|j: int| 0 <= j < members@.len() ==> *members@[j] == ms[j],
            forall|j: int|
                0 <= j < i ==> !(member_names(*b).contains(member_names(*a)[j]) && forall|k: int|
                    0 <= k < ms.len() ==> member_names(ms[k]).contains(member_names(*a)[j])),
        decreases names@.len() - i,
    {
        let name = names[i].as_str();
        if b.has_name(name) {
            let mut all = true;
            let mut k: usize = 0;
            while k < members.len()
                invariant
                    0 <= k <= members@.len(),
                    members@.len() == ms.len(),
                    forall|j: int| 0 <= j < members@.len() ==> *members@[j] == ms[j],
                    all == forall|t: int| 0 <= t < k ==> member_names(ms[t]).contains(name@),
                decreases members@.len() - k,
            {
                let h = members[k].has_name(name);
                assert(h == member_names(ms[k as int]).contains(name@));
                if !h {
                    all = false;
                }
                k = k + 1;
            }
            if all {
                proof {
                    assert(member_names(*a)[i as int] == name@);
                    assert(member_names(*a).contains(name@));
                }
                return true;
            }
        }
        i = i + 1;
    }
    proof {
        assert forall|n: Seq<char>| #[trigger] member_names(*a).contains(n) implies !(member_names(
            *b,
        ).contains(n) && forall|j: int| 0 <= j < ms.len() ==> member_names(ms[j]).contains(n)) by {
            let j = choose|j: int| 0 <= j < member_names(*a).len() && member_names(*a)[j] == n;
        }
    }
    false
}

impl HoloMemberCard {
    pub open spec fn spec_can_baton_pass(&self, card: CardRef, s: GameState, lib: GlobalLibrary) -> Option<
        bool,
    > {
        unless(
            has_kind(s, lib, card, ModifierKindV::PreventBatonPass),
            unless(
                has_kind(s, lib, card, ModifierKindV::Resting),
                unless(
                    all_resting(s, lib, spec_board(s, s.owner(card)).back_stage@),
                    spec_required_attached_cheers(
                        s,
                        lib,
                        card,
                        Seq::new(self.baton_pass_cost as nat, |i: int| Color::Colorless),
                    ),
                ),
            ),
        )
    }

    /// Whether the member can baton pass: once per turn, not resting, with a back stage
    /// member that does not rest, and the cheers to pay for it.
    #[verifier::spinoff_prover]
    #[verifier::rlimit(80)]
    pub fn can_baton_pass(&self, card: CardRef, game: &GameState, library: &GlobalLibrary) -> (res: bool)
        requires
            game.is_registered(card),
            punique_keys(game.zone_modifiers@),
            self.spec_can_baton_pass(card, *game, *library) is Some,
        ensures
            self.spec_can_baton_pass(card, *game, *library) == Some(res),
    {
        let player = game.player_for_card(card);
        if game.has_modifier(library, card, ModifierKind::PreventBatonPass) {
            return false;
        }
        if game.has_modifier(library, card, ModifierKind::Resting) {
            return false;
        }
        let back = game.board(player).back_stage();
        if all_resting_exec(game, library, &back) {
            return false;
        }
        let mut cost: Vec<Color> = Vec::new();
        let mut i: u8 = 0;
        while i < self.baton_pass_cost
            invariant
                i <= self.baton_pass_cost,
                cost@ == Seq::new(i as nat, |k: int| Color::Colorless),
            decreases self.baton_pass_cost - i,
        {
            cost.push(Color::Colorless);
            assert(cost@ =~= Seq::new((i + 1) as nat, |k: int| Color::Colorless));
            i = i + 1;
        }
        game.required_attached_cheers(library, card, cost.as_slice())
    }

    pub open spec fn spec_can_bloom_target(
        &self,
        s: GameState,
        lib: GlobalLibrary,
        target_card: CardRef,
        target: HoloMemberCard,
    ) -> Option<bool> {
        if self.level == HoloMemberLevel::Debut || self.level == HoloMemberLevel::Spot {
            Some(false)
        } else if level_rank(self.level) < level_rank(target.level) {
            Some(false)
        } else if level_rank(self.level) - level_rank(target.level) > 1 {
            Some(false)
        } else {
            unless(
                has_kind(s, lib, target_card, ModifierKindV::PreventBloom),
                match damage_hp(s, target_card) {
                    Some(d) => if d >= self.hp {
                        Some(false)
                    } else if s.is_registered(target_card) {
                        match attached_members(s, lib, s.spec_attachments(target_card)) {
                            Some(ms) => Some(common_name(*self, target, ms)),
                            None => None,
                        }
                    } else {
                        None
                    },
                    None => None,
                },
            )
        }
    }

    /// Whether the member can bloom the target: one level up, once per turn, without the
    /// damage defeating it, and with a name in common with the target and the members
    /// attached to it.
    #[verifier::spinoff_prover]
    #[verifier::rlimit(80)]
    pub fn can_bloom_target(
        &self,
        _card: CardRef,
        game: &GameState,
        library: &GlobalLibrary,
        target: (CardRef, &HoloMemberCard),
    ) -> (res: bool)
        requires
            punique_keys(game.zone_modifiers@),
            self.spec_can_bloom_target(*game, *library, target.0, *target.1) is Some,
        ensures
            self.spec_can_bloom_target(*game, *library, target.0, *target.1) == Some(res),
    {
        if self.level == HoloMemberLevel::Debut || self.level == HoloMemberLevel::Spot {
            return false;
        }
        let my_level = level_number(self.level);
        let target_level = level_number(target.1.level);
        if my_level < target_level {
            return false;
        }
        if my_level - target_level > 1 {
            return false;
        }
        if game.has_modifier(library, target.0, ModifierKind::PreventBloom) {
            return false;
        }
        if game.get_damage(target.0).to_hp() >= self.hp {
            return false;
        }
        let atts = game.attachments(target.0);
        let members = members_of(game, library, &atts);
        let ghost ms = attached_members(*game, *library, atts@)->0;
        let res = has_common_name(self, target.1, &members, Ghost(ms));
        res
    }

    pub open spec fn spec_can_use_ability(
        &self,
        card: CardRef,
        ability_idx: int,
        s: GameState,
        lib: GlobalLibrary,
        is_triggered: bool,
    ) -> Option<bool> {
        unless(
            has_kind(s, lib, card, ModifierKindV::PreventAbility(ability_idx as usize)),
            unless(
                has_kind(s, lib, card, ModifierKindV::PreventAbilities),
                conditions_hold(
                    card_ctx(s, card, is_triggered),
                    s,
                    lib,
                    self.abilities@[ability_idx].condition@,
                ),
            ),
        )
    }

    /// Whether an ability can be used: no modifier prevents it, and its condition holds.
    pub fn can_use_ability(
        &self,
        card: CardRef,
        ability_idx: usize,
        game: &GameState,
        library: &GlobalLibrary,
        is_triggered: bool,
    ) -> (res: bool)
        requires
            game.is_registered(card),
            punique_keys(game.zone_modifiers@),
            ability_idx < self.abilities@.len(),
            self.spec_can_use_ability(card, ability_idx as int, *game, *library, is_triggered) is Some,
        ensures
            self.spec_can_use_ability(card, ability_idx as int, *game, *library, is_triggered)
                == Some(res),
    {
        if game.has_modifier(library, card, ModifierKind::PreventAbility(ability_idx)) {
            return false;
        }
        if game.has_modifier(library, card, ModifierKind::PreventAbilities) {
            return false;
        }
        card_conditions_hold(&self.abilities[ability_idx].condition, card, game, library, is_triggered)
    }

    pub open spec fn spec_can_use_art(
        &self,
        card: CardRef,
        art_idx: int,
        target_card: CardRef,
        s: GameState,
        lib: GlobalLibrary,
    ) -> Option<bool> {
        unless(
            has_kind(s, lib, card, ModifierKindV::PreventArt(art_idx as usize)),
            unless(
                has_kind(s, lib, card, ModifierKindV::PreventAllArts),
                unless(
                    has_kind(s, lib, card, ModifierKindV::Resting),
                    match spec_required_attached_cheers(s, lib, card, self.arts@[art_idx].cost@) {
                        Some(true) => conditions_hold(
                            with_target(card_ctx(s, card, false), var_art_target(), target_card),
                            s,
                            lib,
                            self.arts@[art_idx].condition@,
                        ),
                        Some(false) => Some(false),
                        None => None,
                    },
                ),
            ),
        )
    }

    /// Whether an art can be used on a target: no modifier prevents it, the member does not
    /// rest, its cheers pay for the art, and its condition holds.
    pub fn can_use_art(
        &self,
        card: CardRef,
        art_idx: usize,
        target_card: CardRef,
        game: &GameState,
        library: &GlobalLibrary,
    ) -> (res: bool)
        requires
            game.is_registered(card),
            punique_keys(game.zone_modifiers@),
            art_idx < self.arts@.len(),
            self.spec_can_use_art(card, art_idx as int, target_card, *game, *library) is Some,
        ensures
            self.spec_can_use_art(card, art_idx as int, target_card, *game, *library) == Some(res),
    {
        if game.has_modifier(library, card, ModifierKind::PreventArt(art_idx)) {
            return false;
        }
        if game.has_modifier(library, card, ModifierKind::PreventAllArts) {
            return false;
        }
        if game.has_modifier(library, card, ModifierKind::Resting) {
            return false;
        }
        if !game.required_attached_cheers(library, card, self.arts[art_idx].cost.as_slice()) {
            return false;
        }
        let b = EvaluateBuilder::new(&self.arts[art_idx].condition).with_card(card, game).with_art_target(
            target_card,
        );
        assert(b.context@ == with_target(card_ctx(*game, card, false), var_art_target(), target_card));
        b.evaluate(game, library)
    }
}

impl SupportCard {
    pub open spec fn spec_can_use_support(&self, card: CardRef, effect_idx: int, s: GameState, lib: GlobalLibrary) -> Option<bool> {
        unless(
            if self.limited {
                has_kind(s, lib, card, ModifierKindV::PreventLimitedSupport)
            } else {
                Some(false)
            },
            conditions_hold(card_ctx(s, card, false), s, lib, self.effects@[effect_idx].condition@),
        )
    }

    /// Whether an effect of the support card can be used: a limited card only while no
    /// modifier prevents it, and when the effect's condition holds.
    pub fn can_use_support(&self, card: CardRef, effect_idx: usize, game: &GameState, library: &GlobalLibrary) -> (res: bool)
        requires
            game.is_registered(card),
            punique_keys(game.zone_modifiers@),
            effect_idx < self.effects@.len(),
            self.spec_can_use_support(card, effect_idx as int, *game, *library) is Some,
        ensures
            self.spec_can_use_support(card, effect_idx as int, *game, *library) == Some(res),
    {
        if self.limited && game.has_modifier(library, card, ModifierKind::PreventLimitedSupport) {
            return false;
        }
        card_conditions_hold(&self.effects[effect_idx].condition, card, game, library, false)
    }

    pub open spec fn spec_can_attach_target(
        &self,
        card: CardRef,
        effect_idx: int,
        target: CardRef,
        s: GameState,
        lib: GlobalLibrary,
    ) -> Option<bool> {
        unless(
            if self.limited {
                has_kind(s, lib, card, ModifierKindV::PreventLimitedSupport)
            } else {
                Some(false)
            },
            conditions_hold(
                with_target(card_ctx(s, card, false), var_attach_target(), target),
                s,
                lib,
                self.effects@[effect_idx].condition@,
            ),
        )
    }

    /// Whether the support card can be attached to the target.
    pub fn can_attach_target(
        &self,
        card: CardRef,
        effect_idx: usize,
        target: CardRef,
        game: &GameState,
        library: &GlobalLibrary,
    ) -> (res: bool)
        requires
            game.is_registered(card),
            punique_keys(game.zone_modifiers@),
            effect_idx < self.effects@.len(),
            self.spec_can_attach_target(card, effect_idx as int, target, *game, *library) is Some,
        ensures
            self.spec_can_attach_target(card, effect_idx as int, target, *game, *library) == Some(
                res,
            ),
    {
        if self.limited && game.has_modifier(library, card, ModifierKind::PreventLimitedSupport) {
            return false;
        }
        let b = EvaluateBuilder::new(&self.effects[effect_idx].condition).with_card(card, game).with_attach_target(
            target,
        );
        assert(b.context@ == with_target(card_ctx(*game, card, false), var_attach_target(), target));
        b.evaluate(game, library)
    }

    pub open spec fn spec_can_use_effect(
        &self,
        card: CardRef,
        effect_idx: int,
        s: GameState,
        lib: GlobalLibrary,
        is_triggered: bool,
    ) -> Option<bool> {
        unless(
            has_kind(s, lib, card, ModifierKindV::PreventAbilities),
            conditions_hold(
                card_ctx(s, card, is_triggered),
                s,
                lib,
                self.effects@[effect_idx].condition@,
            ),
        )
    }

    /// Whether an effect of the support card can start: no modifier prevents abilities, and
    /// its condition holds.
    pub fn can_use_effect(
        &self,
        card: CardRef,
        effect_idx: usize,
        game: &GameState,
        library: &GlobalLibrary,
        is_triggered: bool,
    ) -> (res: bool)
        requires
            game.is_registered(card),
            punique_keys(game.zone_modifiers@),
            effect_idx < self.effects@.len(),
            self.spec_can_use_effect(card, effect_idx as int, *game, *library, is_triggered) is Some,
        ensures
            self.spec_can_use_effect(card, effect_idx as int, *game, *library, is_triggered) == Some(
                res,
            ),
    {
        if game.has_modifier(library, card, ModifierKind::PreventAbilities) {
            return false;
        }
        card_conditions_hold(&self.effects[effect_idx].condition, card, game, library, is_triggered)
    }
}

// ------------------------------------------------------------------
// triggers
// ------------------------------------------------------------------

pub open spec fn spec_trigger_activates(t: Trigger, e: TriggeredEvent) -> bool {
    match t {
        Trigger::OnStartTurn => e matches TriggeredEvent::After(Event::StartTurn(_)),
        Trigger::OnEndTurn => e matches TriggeredEvent::After(Event::EndTurn(_)),
        Trigger::OnEnterStep(step) => e matches TriggeredEvent::After(Event::EnterStep(x))
            && x.active_step == step,
        Trigger::OnExitStep(step) => e matches TriggeredEvent::After(Event::ExitStep(x))
            && x.active_step == step,
        Trigger::OnBeforePerformArt => e matches TriggeredEvent::Before(Event::PerformArt(_)),
        Trigger::OnAfterPerformArt => e matches TriggeredEvent::After(Event::PerformArt(_)),
        Trigger::OnBeforeRollDice => e matches TriggeredEvent::Before(Event::RollDice(_)),
        Trigger::OnAfterRollDice => e matches TriggeredEvent::After(Event::RollDice(_)),
        _ => false,
    }
}

impl Trigger {
    /// Whether the trigger starts its effect on the event.
    pub fn should_activate(&self, triggered_event: &TriggeredEvent) -> (res: bool)
        ensures
            res == spec_trigger_activates(*self, *triggered_event),
    {
        match self {
            Trigger::Never => false,
            Trigger::ActivateInMainStep => false,
            Trigger::PlayFromHand => false,
            Trigger::Attach => false,
            Trigger::OnStartTurn => matches!(triggered_event, TriggeredEvent::After(Event::StartTurn(_))),
            Trigger::OnEndTurn => matches!(triggered_event, TriggeredEvent::After(Event::EndTurn(_))),
            Trigger::OnEnterStep(step) => match triggered_event {
                TriggeredEvent::After(Event::EnterStep(x)) => x.active_step == *step,
                _ => false,
            },
            Trigger::OnExitStep(step) => match triggered_event {
                TriggeredEvent::After(Event::ExitStep(x)) => x.active_step == *step,
                _ => false,
            },
            Trigger::OnBeforePerformArt => matches!(
                triggered_event,
                TriggeredEvent::Before(Event::PerformArt(_))
            ),
            Trigger::OnAfterPerformArt => matches!(
                triggered_event,
                TriggeredEvent::After(Event::PerformArt(_))
            ),
            Trigger::OnBeforeRollDice => matches!(
                triggered_event,
                TriggeredEvent::Before(Event::RollDice(_))
            ),
            Trigger::OnAfterRollDice => matches!(
                triggered_event,
                TriggeredEvent::After(Event::RollDice(_))
            ),
        }
    }
}

impl HoloMemberAbility {
    /// Whether a collab or bloom effect starts on the event: after the member collabs, or
    /// after the member blooms.
    pub fn should_activate(&self, card: CardRef, triggered_event: &TriggeredEvent) -> (res: bool)
        requires
            !(self.kind is Gift),
        ensures
            res == match self.kind {
                MemberAbilityKind::CollabEffect => *triggered_event matches TriggeredEvent::After(
                    Event::Collab(x),
                ) && x.card == card,
                _ => *triggered_event matches TriggeredEvent::After(Event::Bloom(x))
                    && x.from_card == card,
            },
    {
        match self.kind {
            MemberAbilityKind::CollabEffect => match triggered_event {
                TriggeredEvent::After(Event::Collab(x)) => x.card == card,
                _ => false,
            },
            _ => match triggered_event {
                TriggeredEvent::After(Event::Bloom(x)) => x.from_card == card,
                _ => false,
            },
        }
    }
}

// ------------------------------------------------------------------
// laws of blooms and arts
// ------------------------------------------------------------------

/// A bloom goes up one level at most, and never down: a member can bloom onto a target only
/// when it is of the target's level or the level just above it, and a debut or spot member
/// never blooms.
pub proof fn lemma_bloom_goes_up_at_most_one_level(
    m: HoloMemberCard,
    s: GameState,
    lib: GlobalLibrary,
    target_card: CardRef,
    target: HoloMemberCard,
)
    ensures
        m.spec_can_bloom_target(s, lib, target_card, target) == Some(true) ==> {
            &&& m.level != HoloMemberLevel::Debut
            &&& m.level != HoloMemberLevel::Spot
            &&& level_rank(target.level) <= level_rank(m.level) <= level_rank(target.level) + 1
        },
        level_rank(m.level) > level_rank(target.level) + 1 ==> m.spec_can_bloom_target(
            s,
            lib,
            target_card,
            target,
        ) == Some(false),
{
}

/// An art is used only when the cheers attached to the member pay for its cost: where they
/// do not, the art cannot be used, on any target.
pub proof fn lemma_art_needs_its_cheers(
    m: HoloMemberCard,
    card: CardRef,
    art_idx: int,
    target_card: CardRef,
    s: GameState,
    lib: GlobalLibrary,
)
    ensures
        m.spec_can_use_art(card, art_idx, target_card, s, lib) == Some(true)
            ==> spec_required_attached_cheers(s, lib, card, m.arts@[art_idx].cost@) == Some(true),
        spec_required_attached_cheers(s, lib, card, m.arts@[art_idx].cost@) == Some(false)
            ==> m.spec_can_use_art(card, art_idx, target_card, s, lib) != Some(true),
{
}

/// A member that rests, or whose arts a modifier prevents, uses no art, on any target.
pub proof fn lemma_art_blocked_by_modifiers(
    m: HoloMemberCard,
    card: CardRef,
    art_idx: int,
    target_card: CardRef,
    s: GameState,
    lib: GlobalLibrary,
)
    ensures
        has_kind(s, lib, card, ModifierKindV::Resting) == Some(true) ==> m.spec_can_use_art(
            card,
            art_idx,
            target_card,
            s,
            lib,
        ) != Some(true),
        has_kind(s, lib, card, ModifierKindV::PreventAllArts) == Some(true) ==> m.spec_can_use_art(
            card,
            art_idx,
            target_card,
            s,
            lib,
        ) != Some(true),
        has_kind(s, lib, card, ModifierKindV::PreventArt(art_idx as usize)) == Some(true)
            ==> m.spec_can_use_art(card, art_idx, target_card, s, lib) != Some(true),
{
}

/// No member blooms onto a target that a modifier keeps from blooming.
pub proof fn lemma_bloom_blocked_by_modifier(
    m: HoloMemberCard,
    s: GameState,
    lib: GlobalLibrary,
    target_card: CardRef,
    target: HoloMemberCard,
)
    ensures
        has_kind(s, lib, target_card, ModifierKindV::PreventBloom) == Some(true)
            ==> m.spec_can_bloom_target(s, lib, target_card, target) != Some(true),
{
}

} // verus!
