use vstd::prelude::*;

use crate::actions::{bloom_test, collect, lemma_collect_prefix, lookup, member_entry, members_among, offer};
use crate::card_effects::effects::{Condition, ConditionV};
use crate::card_effects::evaluate::{eval_condition, for_card, ContextV, EvaluateContext};
use crate::cards::{Card, HoloMemberCard, HoloMemberLevel};
use crate::events::IntentResponse;
use crate::gameplay::{
    spec_default_add_location, CardRef, MainStepAction, PerformanceStepAction, Player, Rps, Zone,
    ZoneAddLocation,
};
use crate::library::GlobalLibrary;
use crate::modifiers::{LifeTime, ModifierKind, ModifierKindV};
use crate::rules::has_kind;
use crate::state::{punique_keys, spec_board, GameState};

verus! {

// ------------------------------------------------------------------
// the cards a player may choose from
// ------------------------------------------------------------------

/// A card of the hand when it is a debut member, or also a spot member.
pub open spec fn debut_entry(s: GameState, lib: GlobalLibrary, c: CardRef, spot_too: bool) -> Option<
    Option<CardRef>,
> {
    match lookup(s, lib, c) {
        Some(Card::HoloMember(m)) => Some(
            if m.level == HoloMemberLevel::Debut || (spot_too && m.level == HoloMemberLevel::Spot) {
                Some(c)
            } else {
                None
            },
        ),
        Some(_) => Some(None),
        None => None,
    }
}

pub open spec fn debut_fn(s: GameState, lib: GlobalLibrary, spot_too: bool) -> spec_fn(CardRef) -> Option<
    Option<CardRef>,
> {
    |c: CardRef| debut_entry(s, lib, c, spot_too)
}

/// The debut members of the hand, in order, for the first center; with the spot members,
/// for the first back stage.
pub open spec fn debut_choices(s: GameState, lib: GlobalLibrary, p: Player, spot_too: bool) -> Option<
    Seq<CardRef>,
> {
    collect(spec_board(s, p).hand@, debut_fn(s, lib, spot_too))
}

/// Whether one of the cards is a debut member, looked at in order until one is found.
pub open spec fn any_debut(s: GameState, lib: GlobalLibrary, cs: Seq<CardRef>) -> Option<bool>
    decreases cs.len(),
{
    if cs.len() == 0 {
        Some(false)
    } else {
        match debut_entry(s, lib, cs[0], false) {
            Some(Some(_)) => Some(true),
            Some(None) => any_debut(s, lib, cs.drop_first()),
            None => None,
        }
    }
}

/// A back stage member that does not rest.
#[verifier::opaque]
pub open spec fn awake_entry(s: GameState, lib: GlobalLibrary, c: CardRef) -> Option<Option<CardRef>> {
    match has_kind(s, lib, c, ModifierKindV::Resting) {
        Some(true) => Some(None),
        Some(false) => member_entry(s, lib, c),
        None => None,
    }
}

pub open spec fn awake_fn(s: GameState, lib: GlobalLibrary) -> spec_fn(CardRef) -> Option<Option<CardRef>> {
    |c: CardRef| awake_entry(s, lib, c)
}

/// The back stage members that may go to the center: those that do not rest; when all rest
/// and it is not for a baton pass, all of them. The back stage must hold a card.
pub open spec fn center_choices(s: GameState, lib: GlobalLibrary, p: Player, baton_pass: bool) -> Option<
    Seq<CardRef>,
> {
    let back = spec_board(s, p).back_stage@;
    if back.len() == 0 {
        None
    } else {
        match collect(back, awake_fn(s, lib)) {
            Some(awake) => if awake.len() == 0 && !baton_pass {
                members_among(s, lib, back)
            } else {
                Some(awake)
            },
            None => None,
        }
    }
}

/// A stage member that the member can bloom.
pub open spec fn bloom_fn(s: GameState, lib: GlobalLibrary, m: HoloMemberCard) -> spec_fn(CardRef) -> Option<
    Option<CardRef>,
> {
    |c: CardRef| offer(bloom_test(s, lib, m, c), c)
}

/// The stage members that a member in hand can bloom, in order. The card must be a member,
/// and one of them must be there.
pub open spec fn bloom_choices(s: GameState, lib: GlobalLibrary, p: Player, card: CardRef) -> Option<
    Seq<CardRef>,
> {
    match lookup(s, lib, card) {
        Some(Card::HoloMember(m)) => match collect(
            spec_board(s, p).zone_cards(Zone::Stage),
            bloom_fn(s, lib, m),
        ) {
            Some(v) => if v.len() == 0 {
                None
            } else {
                Some(v)
            },
            None => None,
        },
        _ => None,
    }
}

/// The cards that meet the condition, each looked at as the card of the context.
pub open spec fn select_entry(ctx: ContextV, s: GameState, lib: GlobalLibrary, cond: ConditionV, c: CardRef) -> Option<
    Option<CardRef>,
> {
    offer(eval_condition(for_card(ctx, c), s, lib, cond, ctx.variables.len() as nat), c)
}

pub open spec fn select_fn(ctx: ContextV, s: GameState, lib: GlobalLibrary, cond: ConditionV) -> spec_fn(CardRef) -> Option<
    Option<CardRef>,
> {
    |c: CardRef| select_entry(ctx, s, lib, cond, c)
}

/// Steps through a list of cards, keeping what `keep` picks from each.
proof fn lemma_pick_step(cs: Seq<CardRef>, f: spec_fn(CardRef) -> Option<Option<CardRef>>, i: int, out: Seq<CardRef>)
    requires
        collect(cs, f) is Some,
        0 <= i < cs.len(),
        collect(cs.take(i), f) == Some(out),
    ensures
        f(cs[i]) is Some,
        collect(cs.take(i + 1), f) == Some(
            match f(cs[i]) {
                Some(Some(c)) => out.push(c),
                _ => out,
            },
        ),
{
    lemma_collect_prefix(cs, f, i);
}

impl GameState {
    fn debut_test(&self, library: &GlobalLibrary, c: CardRef, spot_too: bool) -> (res: bool)
        requires
            debut_entry(*self, *library, c, spot_too) is Some,
        ensures
            debut_entry(*self, *library, c, spot_too) == Some(if res { Some(c) } else { None }),
    {
        reveal(lookup);
        match self.lookup_holo_member(library, c) {
            Some(m) => m.level == HoloMemberLevel::Debut || (spot_too && m.level == HoloMemberLevel::Spot),
            None => false,
        }
    }

    fn awake_test(&self, library: &GlobalLibrary, c: CardRef) -> (res: bool)
        requires
            punique_keys(self.zone_modifiers@),
            awake_entry(*self, *library, c) is Some,
        ensures
            awake_entry(*self, *library, c) == Some(if res { Some(c) } else { None }),
    {
        reveal(lookup);
        reveal(awake_entry);
        !self.has_modifier(library, c, ModifierKind::Resting) && self.lookup_holo_member(library, c).is_some()
    }

    /// The debut members in a player's hand, for the first center; with `spot_too`, also the
    /// spot members, for the first back stage.
    pub fn first_debut_choices(&self, library: &GlobalLibrary, player: Player, spot_too: bool) -> (res: Vec<CardRef>)
        requires
            player != Player::Both,
            debut_choices(*self, *library, player, spot_too) is Some,
        ensures
            res@ == debut_choices(*self, *library, player, spot_too)->0,
    {
        let hand = self.board(player).hand();
        let ghost f = debut_fn(*self, *library, spot_too);
        let mut out: Vec<CardRef> = Vec::new();
        let mut i: usize = 0;
        assert(hand@.take(0) =~= Seq::<CardRef>::empty());
        while i < hand.len()
            invariant
                0 <= i <= hand@.len(),
                f == debut_fn(*self, *library, spot_too),
                collect(hand@, f) is Some,
                collect(hand@.take(i as int), f) == Some(out@),
            decreases hand@.len() - i,
        {
            proof {
                lemma_pick_step(hand@, f, i as int, out@);
            }
            let c = hand[i];
            assert(f(c) == debut_entry(*self, *library, c, spot_too));
            if self.debut_test(library, c, spot_too) {
                out.push(c);
            }
            i = i + 1;
        }
        assert(hand@.take(hand@.len() as int) =~= hand@);
        out
    }

    /// Whether a player must take a mulligan: the hand holds no debut member to put on the
    /// stage.
    pub fn need_mulligan(&self, library: &GlobalLibrary, player: Player) -> (res: bool)
        requires
            player != Player::Both,
            any_debut(*self, *library, spec_board(*self, player).hand@) is Some,
        ensures
            any_debut(*self, *library, spec_board(*self, player).hand@) == Some(!res),
    {
        let hand = self.board(player).hand();
        let mut i: usize = 0;
        assert(hand@.skip(0) =~= hand@);
        while i < hand.len()
            invariant
                0 <= i <= hand@.len(),
                hand@ == spec_board(*self, player).hand@,
                any_debut(*self, *library, hand@) is Some,
                any_debut(*self, *library, hand@) == any_debut(*self, *library, hand@.skip(i as int)),
            decreases hand@.len() - i,
        {
            proof {
                assert(hand@.skip(i as int)[0] == hand@[i as int]);
                assert(hand@.skip(i as int).drop_first() =~= hand@.skip(i + 1));
            }
            if self.debut_test(library, hand[i], false) {
                assert(any_debut(*self, *library, hand@.skip(i as int)) == Some(true));
                return false;
            }
            i = i + 1;
        }
        assert(hand@.skip(hand@.len() as int) =~= Seq::<CardRef>::empty());
        true
    }

    /// The back stage members of a player that may go to the center.
    pub fn center_choices(&self, library: &GlobalLibrary, player: Player, baton_pass: bool) -> (res: Vec<CardRef>)
        requires
            player != Player::Both,
            punique_keys(self.zone_modifiers@),
            center_choices(*self, *library, player, baton_pass) is Some,
        ensures
            res@ == center_choices(*self, *library, player, baton_pass)->0,
    {
        let back = self.board(player).back_stage();
        let awake = self.awake_members(library, &back);
        if awake.len() == 0 && !baton_pass {
            self.members_among_exec(library, &back)
        } else {
            awake
        }
    }

    fn awake_members(&self, library: &GlobalLibrary, back: &Vec<CardRef>) -> (res: Vec<CardRef>)
        requires
            punique_keys(self.zone_modifiers@),
            collect(back@, awake_fn(*self, *library)) is Some,
        ensures
            res@ == collect(back@, awake_fn(*self, *library))->0,
    {
        let ghost f = awake_fn(*self, *library);
        let mut out: Vec<CardRef> = Vec::new();
        let mut i: usize = 0;
        assert(back@.take(0) =~= Seq::<CardRef>::empty());
        while i < back.len()
            invariant
                0 <= i <= back@.len(),
                punique_keys(self.zone_modifiers@),
                f == awake_fn(*self, *library),
                collect(back@, f) is Some,
                collect(back@.take(i as int), f) == Some(out@),
            decreases back@.len() - i,
        {
            proof {
                lemma_pick_step(back@, f, i as int, out@);
            }
            let c = back[i];
            assert(f(c) == awake_entry(*self, *library, c));
            if self.awake_test(library, c) {
                out.push(c);
            }
            i = i + 1;
        }
        assert(back@.take(back@.len() as int) =~= back@);
        out
    }

    /// The stage members of a player that can receive a cheer.
    pub fn cheer_choices(&self, library: &GlobalLibrary, player: Player) -> (res: Vec<CardRef>)
        requires
            player != Player::Both,
            members_among(*self, *library, spec_board(*self, player).zone_cards(Zone::Stage)) is Some,
        ensures
            res@ == members_among(
                *self,
                *library,
                spec_board(*self, player).zone_cards(Zone::Stage),
            )->0,
    {
        let stage = self.board(player).stage();
        self.members_among_exec(library, &stage)
    }

    /// The stage members of a player that the member in hand can bloom.
    pub fn bloom_choices(&self, library: &GlobalLibrary, player: Player, card: CardRef) -> (res: Vec<CardRef>)
        requires
            player != Player::Both,
            punique_keys(self.zone_modifiers@),
            bloom_choices(*self, *library, player, card) is Some,
        ensures
            res@ == bloom_choices(*self, *library, player, card)->0,
    {
        proof {
            reveal(lookup);
        }
        let bloom = self.lookup_holo_member(library, card).unwrap();
        let stage = self.board(player).stage();
        let ghost f = bloom_fn(*self, *library, *bloom);
        let mut out: Vec<CardRef> = Vec::new();
        let mut i: usize = 0;
        assert(stage@.take(0) =~= Seq::<CardRef>::empty());
        while i < stage.len()
            invariant
                0 <= i <= stage@.len(),
                punique_keys(self.zone_modifiers@),
                f == bloom_fn(*self, *library, *bloom),
                collect(stage@, f) is Some,
                collect(stage@.take(i as int), f) == Some(out@),
            decreases stage@.len() - i,
        {
            proof {
                lemma_pick_step(stage@, f, i as int, out@);
            }
            let c = stage[i];
            assert(f(c) == offer(bloom_test(*self, *library, *bloom, c), c));
            if self.bloom_target_test(library, bloom, c) {
                out.push(c);
            }
            i = i + 1;
        }
        assert(stage@.take(stage@.len() as int) =~= stage@);
        out
    }

    fn bloom_target_test(&self, library: &GlobalLibrary, m: &HoloMemberCard, c: CardRef) -> (res: bool)
        requires
            punique_keys(self.zone_modifiers@),
            bloom_test(*self, *library, *m, c) is Some,
        ensures
            bloom_test(*self, *library, *m, c) == Some(res),
    {
        reveal(bloom_test);
        reveal(lookup);
        match self.lookup_holo_member(library, c) {
            Some(t) => m.can_bloom_target(c, self, library, (c, t)),
            None => false,
        }
    }

    /// The cards that meet the condition, each looked at as the card of the context.
    pub fn select_choices(
        &self,
        library: &GlobalLibrary,
        cards: &Vec<CardRef>,
        condition: &Condition,
        ctx: &EvaluateContext,
    ) -> (res: Vec<CardRef>)
        requires
            collect(cards@, select_fn(ctx@, *self, *library, condition@)) is Some,
        ensures
            res@ == collect(cards@, select_fn(ctx@, *self, *library, condition@))->0,
    {
        let ghost f = select_fn(ctx@, *self, *library, condition@);
        let mut out: Vec<CardRef> = Vec::new();
        let mut i: usize = 0;
        assert(cards@.take(0) =~= Seq::<CardRef>::empty());
        while i < cards.len()
            invariant
                0 <= i <= cards@.len(),
                f == select_fn(ctx@, *self, *library, condition@),
                collect(cards@, f) is Some,
                collect(cards@.take(i as int), f) == Some(out@),
            decreases cards@.len() - i,
        {
            proof {
                lemma_pick_step(cards@, f, i as int, out@);
            }
            let c = cards[i];
            assert(f(c) == select_entry(ctx@, *self, *library, condition@, c));
            let cx = ctx.for_card(c);
            if condition.evaluate_with_context(&cx, self, library) {
                out.push(c);
            }
            i = i + 1;
        }
        assert(cards@.take(cards@.len() as int) =~= cards@);
        out
    }
}

// ------------------------------------------------------------------
// the answers of the players
// ------------------------------------------------------------------

fn main_action_among(a: MainStepAction, offered: &Vec<MainStepAction>) -> (res: bool)
    ensures
        res == offered@.contains(a),
{
    let mut i: usize = 0;
    while i < offered.len()
        invariant
            0 <= i <= offered@.len(),
            forall|j: int| 0 <= j < i ==> offered@[j] != a,
        decreases offered@.len() - i,
    {
        if offered[i] == a {
            assert(offered@[i as int] == a);
            return true;
        }
        i = i + 1;
    }
    false
}

fn art_action_among(a: PerformanceStepAction, offered: &Vec<PerformanceStepAction>) -> (res: bool)
    ensures
        res == offered@.contains(a),
{
    let mut i: usize = 0;
    while i < offered.len()
        invariant
            0 <= i <= offered@.len(),
            forall|j: int| 0 <= j < i ==> offered@[j] != a,
        decreases offered@.len() - i,
    {
        if offered[i] == a {
            assert(offered@[i as int] == a);
            return true;
        }
        i = i + 1;
    }
    false
}

/// Whether every card of the first list is among the second.
pub open spec fn all_among(xs: Seq<CardRef>, ys: Seq<CardRef>) -> bool {
    forall|i: int| 0 <= i < xs.len() ==> ys.contains(#[trigger] xs[i])
}

fn card_among(c: CardRef, ys: &Vec<CardRef>) -> (res: bool)
    ensures
        res == ys@.contains(c),
{
    let mut i: usize = 0;
    while i < ys.len()
        invariant
            0 <= i <= ys@.len(),
            forall|j: int| 0 <= j < i ==> ys@[j] != c,
        decreases ys@.len() - i,
    {
        if ys[i] == c {
            assert(ys@[i as int] == c);
            return true;
        }
        i = i + 1;
    }
    false
}

fn all_cards_among(xs: &Vec<CardRef>, ys: &Vec<CardRef>) -> (res: bool)
    ensures
        res == all_among(xs@, ys@),
{
    let mut i: usize = 0;
    while i < xs.len()
        invariant
            0 <= i <= xs@.len(),
            forall|j: int| 0 <= j < i ==> ys@.contains(#[trigger] xs@[j]),
        decreases xs@.len() - i,
    {
        if !card_among(xs[i], ys) {
            return false;
        }
        i = i + 1;
    }
    true
}

/// The main step action chosen: an answer for the main step, from the player, among the
/// actions offered.
pub open spec fn chosen_main_step_action(player: Player, offered: Seq<MainStepAction>, resp: IntentResponse) -> Option<
    MainStepAction,
> {
    match resp {
        IntentResponse::MainStepAction { player: p, select_action } => if p == player
            && offered.contains(select_action) {
            Some(select_action)
        } else {
            None
        },
        _ => None,
    }
}

/// The main step action a player chose, when the answer is a valid one.
pub fn choose_main_step_action(player: Player, offered: &Vec<MainStepAction>, resp: &IntentResponse) -> (res: Option<MainStepAction>)
    ensures
        res == chosen_main_step_action(player, offered@, *resp),
{
    match resp {
        IntentResponse::MainStepAction { player: p, select_action } => {
            if *p == player && main_action_among(*select_action, offered) {
                Some(*select_action)
            } else {
                None
            }
        },
        _ => None,
    }
}

/// The performance step action chosen: an answer for the performance step, from the player,
/// among the actions offered.
pub open spec fn chosen_art_action(player: Player, offered: Seq<PerformanceStepAction>, resp: IntentResponse) -> Option<
    PerformanceStepAction,
> {
    match resp {
        IntentResponse::PerformanceStepAction { player: p, select_action } => if p == player
            && offered.contains(select_action) {
            Some(select_action)
        } else {
            None
        },
        _ => None,
    }
}

/// The performance step action a player chose, when the answer is a valid one.
pub fn choose_art_action(player: Player, offered: &Vec<PerformanceStepAction>, resp: &IntentResponse) -> (res: Option<PerformanceStepAction>)
    ensures
        res == chosen_art_action(player, offered@, *resp),
{
    match resp {
        IntentResponse::PerformanceStepAction { player: p, select_action } => {
            if *p == player && art_action_among(*select_action, offered) {
                Some(*select_action)
            } else {
                None
            }
        },
        _ => None,
    }
}

/// The card chosen to move from one zone to another: the first of those picked, which must
/// be among the choices, in an answer from the player.
pub open spec fn chosen_card(player: Player, choices: Seq<CardRef>, resp: IntentResponse) -> Option<CardRef> {
    match resp {
        IntentResponse::LookSelectZoneToZone { player: p, select_cards } => if p == player
            && select_cards@.len() > 0 && choices.contains(select_cards@[0]) {
            Some(select_cards@[0])
        } else {
            None
        },
        _ => None,
    }
}

/// The card a player chose to move, when the answer is a valid one.
pub fn choose_card(player: Player, choices: &Vec<CardRef>, resp: &IntentResponse) -> (res: Option<CardRef>)
    ensures
        res == chosen_card(player, choices@, *resp),
{
    match resp {
        IntentResponse::LookSelectZoneToZone { player: p, select_cards } => {
            if *p == player && select_cards.len() > 0 && card_among(select_cards[0], choices) {
                Some(select_cards[0])
            } else {
                None
            }
        },
        _ => None,
    }
}

/// The cards chosen to move from one zone to another: all of them among the choices, in an
/// answer from the player.
pub open spec fn chosen_cards(player: Player, choices: Seq<CardRef>, resp: IntentResponse) -> Option<Seq<CardRef>> {
    match resp {
        IntentResponse::LookSelectZoneToZone { player: p, select_cards } => if p == player
            && all_among(select_cards@, choices) {
            Some(select_cards@)
        } else {
            None
        },
        _ => None,
    }
}

/// The cards a player chose to move, when the answer is a valid one.
pub fn choose_cards(player: Player, choices: &Vec<CardRef>, resp: &IntentResponse) -> (res: Option<Vec<CardRef>>)
    ensures
        match res {
            Some(v) => chosen_cards(player, choices@, *resp) == Some(v@),
            None => chosen_cards(player, choices@, *resp) is None,
        },
{
    match resp {
        IntentResponse::LookSelectZoneToZone { player: p, select_cards } => {
            if *p == player && all_cards_among(select_cards, choices) {
                Some(select_cards.clone())
            } else {
                None
            }
        },
        _ => None,
    }
}

/// The member chosen to receive a card: among the choices, in an answer from the player.
pub open spec fn chosen_attach_target(player: Player, choices: Seq<CardRef>, resp: IntentResponse) -> Option<CardRef> {
    match resp {
        IntentResponse::SelectToAttach { player: p, select_card } => if p == player
            && choices.contains(select_card) {
            Some(select_card)
        } else {
            None
        },
        _ => None,
    }
}

/// The member a player chose to receive a card, when the answer is a valid one.
pub fn choose_attach_target(player: Player, choices: &Vec<CardRef>, resp: &IntentResponse) -> (res: Option<CardRef>)
    ensures
        res == chosen_attach_target(player, choices@, *resp),
{
    match resp {
        IntentResponse::SelectToAttach { player: p, select_card } => {
            if *p == player && card_among(*select_card, choices) {
                Some(*select_card)
            } else {
                None
            }
        },
        _ => None,
    }
}

/// The attachments chosen: all among the choices, in an answer from the player.
pub open spec fn chosen_attachments(player: Player, choices: Seq<CardRef>, resp: IntentResponse) -> Option<Seq<CardRef>> {
    match resp {
        IntentResponse::SelectAttachments { player: p, select_attachments } => if p == player
            && all_among(select_attachments@, choices) {
            Some(select_attachments@)
        } else {
            None
        },
        _ => None,
    }
}

/// The attachments a player chose, when the answer is a valid one.
pub fn choose_attachments(player: Player, choices: &Vec<CardRef>, resp: &IntentResponse) -> (res: Option<Vec<CardRef>>)
    ensures
        match res {
            Some(v) => chosen_attachments(player, choices@, *resp) == Some(v@),
            None => chosen_attachments(player, choices@, *resp) is None,
        },
{
    match resp {
        IntentResponse::SelectAttachments { player: p, select_attachments } => {
            if *p == player && all_cards_among(select_attachments, choices) {
                Some(select_attachments.clone())
            } else {
                None
            }
        },
        _ => None,
    }
}

/// The hand a player chose for rock, paper, scissors, when the answer is from the player.
pub fn choose_rps(player: Player, resp: &IntentResponse) -> (res: Option<Rps>)
    ensures
        res == match *resp {
            IntentResponse::Rps { player: p, select_rps } => if p == player {
                Some(select_rps)
            } else {
                None
            },
            _ => None,
        },
{
    match resp {
        IntentResponse::Rps { player: p, select_rps } => if *p == player {
            Some(*select_rps)
        } else {
            None
        },
        _ => None,
    }
}

/// Whether a player takes a mulligan, when the answer is from the player.
pub fn choose_mulligan(player: Player, resp: &IntentResponse) -> (res: Option<bool>)
    ensures
        res == match *resp {
            IntentResponse::Mulligan { player: p, select_yes_no } => if p == player {
                Some(select_yes_no)
            } else {
                None
            },
            _ => None,
        },
{
    match resp {
        IntentResponse::Mulligan { player: p, select_yes_no } => if *p == player {
            Some(*select_yes_no)
        } else {
            None
        },
        _ => None,
    }
}

/// Whether a player activates an optional effect, when the answer is from the player.
pub fn choose_optional_activate(player: Player, resp: &IntentResponse) -> (res: Option<bool>)
    ensures
        res == match *resp {
            IntentResponse::ActivateEffect { player: p, select_yes_no } => if p == player {
                Some(select_yes_no)
            } else {
                None
            },
            _ => None,
        },
{
    match resp {
        IntentResponse::ActivateEffect { player: p, select_yes_no } => if *p == player {
            Some(*select_yes_no)
        } else {
            None
        },
        _ => None,
    }
}

/// The number a player chose, when the answer is from the player and the number lies between
/// the bounds.
pub fn choose_number(player: Player, min: usize, max: usize, resp: &IntentResponse) -> (res: Option<usize>)
    ensures
        res == match *resp {
            IntentResponse::SelectNumber { player: p, select_number } => if p == player && min
                <= select_number <= max {
                Some(select_number)
            } else {
                None
            },
            _ => None,
        },
{
    match resp {
        IntentResponse::SelectNumber { player: p, select_number } => if *p == player && min
            <= *select_number && *select_number <= max {
            Some(*select_number)
        } else {
            None
        },
        _ => None,
    }
}

// ------------------------------------------------------------------
// what an action of the main step does
// ------------------------------------------------------------------

/// What the game does for an action of the main step.
#[derive(Debug)]
pub enum MainStepEffect {
    /// The card goes from the hand to the zone at the location, then gets the modifier, for
    /// that long.
    ToBackStage { card: CardRef, zone: Zone, location: ZoneAddLocation, modifier: ModifierKind, life_time: LifeTime },
    /// The player picks, among the targets, the member that the card blooms; then the card
    /// blooms it.
    Bloom { card: CardRef, targets: Vec<CardRef> },
    /// The support card is used.
    UseSupport { card: CardRef },
    /// The member goes to collab, with that many cards of holo power.
    Collab { card: CardRef, holo_power_amount: usize },
    /// The player picks, among the choices, the back member that takes the center; then the
    /// center member passes the baton to it.
    BatonPass { center: CardRef, choices: Vec<CardRef> },
    /// The oshi uses the skill, not as a trigger.
    UseOshiSkill { card: CardRef, skill_idx: usize, is_triggered: bool },
    /// The main step ends.
    Done,
}

/// The plain values of what an action of the main step does.
pub enum MainStepEffectV {
    ToBackStage { card: CardRef, zone: Zone, location: ZoneAddLocation, modifier: ModifierKindV, life_time: LifeTime },
    Bloom { card: CardRef, targets: Seq<CardRef> },
    UseSupport { card: CardRef },
    Collab { card: CardRef, holo_power_amount: usize },
    BatonPass { center: CardRef, choices: Seq<CardRef> },
    UseOshiSkill { card: CardRef, skill_idx: usize, is_triggered: bool },
    Done,
}

impl View for MainStepEffect {
    type V = MainStepEffectV;

    open spec fn view(&self) -> MainStepEffectV {
        match *self {
            MainStepEffect::ToBackStage { card, zone, location, modifier, life_time } =>
                MainStepEffectV::ToBackStage { card, zone, location, modifier: modifier@, life_time },
            MainStepEffect::Bloom { card, targets } => MainStepEffectV::Bloom { card, targets: targets@ },
            MainStepEffect::UseSupport { card } => MainStepEffectV::UseSupport { card },
            MainStepEffect::Collab { card, holo_power_amount } => MainStepEffectV::Collab {
                card,
                holo_power_amount,
            },
            MainStepEffect::BatonPass { center, choices } => MainStepEffectV::BatonPass {
                center,
                choices: choices@,
            },
            MainStepEffect::UseOshiSkill { card, skill_idx, is_triggered } =>
                MainStepEffectV::UseOshiSkill { card, skill_idx, is_triggered },
            MainStepEffect::Done => MainStepEffectV::Done,
        }
    }
}

/// What an action of the main step does: a member played from the hand goes to the back stage
/// and cannot bloom this turn; a bloom asks for the member it blooms; a support card is used;
/// a collab takes one card of holo power; a baton pass, only from the center, asks for the
/// back member that takes the center; an oshi skill is used; done ends the step. `None` when
/// what it needs is not known.
pub open spec fn spec_main_step_effect(s: GameState, lib: GlobalLibrary, p: Player, a: MainStepAction) -> Option<
    MainStepEffectV,
> {
    match a {
        MainStepAction::BackStageMember(card) => Some(
            MainStepEffectV::ToBackStage {
                card,
                zone: Zone::BackStage,
                location: spec_default_add_location(Zone::BackStage),
                modifier: ModifierKindV::PreventBloom,
                life_time: LifeTime::ThisTurn,
            },
        ),
        MainStepAction::BloomMember(card) => match bloom_choices(s, lib, p, card) {
            Some(t) => Some(MainStepEffectV::Bloom { card, targets: t }),
            None => None,
        },
        MainStepAction::UseSupportCard(card) => Some(MainStepEffectV::UseSupport { card }),
        MainStepAction::CollabMember(card) => Some(
            MainStepEffectV::Collab { card, holo_power_amount: 1 },
        ),
        MainStepAction::BatonPass(card) => if spec_board(s, p).center_stage == Some(card) {
            match center_choices(s, lib, p, true) {
                Some(cs) => Some(MainStepEffectV::BatonPass { center: card, choices: cs }),
                None => None,
            }
        } else {
            None
        },
        MainStepAction::UseOshiSkill(card, i) => Some(
            MainStepEffectV::UseOshiSkill { card, skill_idx: i, is_triggered: false },
        ),
        MainStepAction::Done => Some(MainStepEffectV::Done),
    }
}

impl GameState {
    /// What an action of the main step does. A baton pass must come from the center member.
    pub fn main_step_effect(&self, library: &GlobalLibrary, player: Player, action: MainStepAction) -> (res:
        MainStepEffect)
        requires
            player != Player::Both,
            punique_keys(self.zone_modifiers@),
            spec_main_step_effect(*self, *library, player, action) is Some,
        ensures
            spec_main_step_effect(*self, *library, player, action) == Some(res@),
    {
        match action {
            MainStepAction::BackStageMember(card) => MainStepEffect::ToBackStage {
                card,
                zone: Zone::BackStage,
                location: Zone::BackStage.default_add_location(),
                modifier: ModifierKind::PreventBloom,
                life_time: LifeTime::ThisTurn,
            },
            MainStepAction::BloomMember(card) => MainStepEffect::Bloom {
                card,
                targets: self.bloom_choices(library, player, card),
            },
            MainStepAction::UseSupportCard(card) => MainStepEffect::UseSupport { card },
            MainStepAction::CollabMember(card) => MainStepEffect::Collab { card, holo_power_amount: 1 },
            MainStepAction::BatonPass(card) => MainStepEffect::BatonPass {
                center: card,
                choices: self.center_choices(library, player, true),
            },
            MainStepAction::UseOshiSkill(card, i) => MainStepEffect::UseOshiSkill {
                card,
                skill_idx: i,
                is_triggered: false,
            },
            MainStepAction::Done => MainStepEffect::Done,
        }
    }
}

} // verus!
