use vstd::prelude::*;

use crate::actions::lookup;
use crate::board::{opt_seq, BoardState};
use crate::card_effects::trigger::Trigger;
use crate::cards::{
    Card, HoloMemberAbility, HoloMemberCard, MemberAbilityKind, OshiHoloMemberCard, SupportCard,
};
use crate::events::{Event, TriggeredEvent};
use crate::gameplay::{spec_opponent, CardRef, Player, Zone};
use crate::library::GlobalLibrary;
use crate::rules::spec_trigger_activates;
use crate::state::{punique_keys, spec_board, GameState};

verus! {

// ------------------------------------------------------------------
// which cards answer an event
// ------------------------------------------------------------------

/// The cards, each followed by the cards attached to it.
pub open spec fn with_attachments(b: BoardState, cs: Seq<CardRef>) -> Seq<CardRef>
    decreases cs.len(),
{
    if cs.len() == 0 {
        Seq::empty()
    } else {
        with_attachments(b, cs.drop_last()) + seq![cs.last()] + b.attachments_of(cs.last())
    }
}

/// The cards of a player that may answer an event: the oshi and the stage, each followed by
/// its attachments.
pub open spec fn player_trigger_cards(s: GameState, p: Player) -> Seq<CardRef> {
    let b = spec_board(s, p);
    with_attachments(b@, opt_seq(b.oshi) + b.zone_cards(Zone::Stage))
}

/// The cards that may answer an event: those of the active player first, then those of the
/// opponent.
pub open spec fn trigger_cards(s: GameState) -> Seq<CardRef> {
    player_trigger_cards(s, s.active_player) + player_trigger_cards(
        s,
        spec_opponent(s.active_player),
    )
}

/// Whether one of the triggers starts its effect on the event.
pub open spec fn triggers_activate(ts: Seq<Trigger>, e: TriggeredEvent) -> bool {
    exists|i: int| 0 <= i < ts.len() && spec_trigger_activates(#[trigger] ts[i], e)
}

/// What starts when a card answers an event: the last of the oshi skills, of the member
/// abilities, and of the support effects that the event starts and that can be used.
#[derive(Debug, Clone, Copy, PartialEq, Eq, Structural)]
pub struct TriggerPlan {
    pub oshi_skill: Option<usize>,
    pub member_ability: Option<usize>,
    pub support_effect: Option<usize>,
}

/// The last of the first `n` skills that the event starts and that can be used; `None` where
/// a check cannot be made.
pub open spec fn last_skill(s: GameState, lib: GlobalLibrary, o: OshiHoloMemberCard, card: CardRef, e: TriggeredEvent, n: nat) -> Option<
    Option<usize>,
>
    decreases n,
{
    if n == 0 {
        Some(None)
    } else {
        let i = n - 1;
        match last_skill(s, lib, o, card, e, (n - 1) as nat) {
            Some(prev) => if triggers_activate(o.skills@[i].triggers@, e) {
                match o.spec_can_use_skill(card, i, s, lib, false) {
                    Some(true) => Some(Some(i as usize)),
                    Some(false) => Some(prev),
                    None => None,
                }
            } else {
                Some(prev)
            },
            None => None,
        }
    }
}

/// Whether an ability of a member starts on the event: a collab effect when the member
/// collabs, a bloom effect when it blooms; a gift has no answer.
pub open spec fn ability_activates(a: HoloMemberAbility, card: CardRef, e: TriggeredEvent) -> Option<bool> {
    match a.kind {
        MemberAbilityKind::CollabEffect => Some(
            e matches TriggeredEvent::After(Event::Collab(x)) && x.card == card,
        ),
        MemberAbilityKind::BloomEffect => Some(
            e matches TriggeredEvent::After(Event::Bloom(x)) && x.from_card == card,
        ),
        MemberAbilityKind::Gift(_) => None,
    }
}

/// The last of the first `n` abilities that the event starts and that can be used.
pub open spec fn last_ability(s: GameState, lib: GlobalLibrary, m: HoloMemberCard, card: CardRef, e: TriggeredEvent, n: nat) -> Option<
    Option<usize>,
>
    decreases n,
{
    if n == 0 {
        Some(None)
    } else {
        let i = n - 1;
        match last_ability(s, lib, m, card, e, (n - 1) as nat) {
            Some(prev) => match ability_activates(m.abilities@[i], card, e) {
                Some(true) => match m.spec_can_use_ability(card, i, s, lib, false) {
                    Some(true) => Some(Some(i as usize)),
                    Some(false) => Some(prev),
                    None => None,
                },
                Some(false) => Some(prev),
                None => None,
            },
            None => None,
        }
    }
}

/// The last of the first `n` effects of a support card that the event starts and that can be
/// used.
pub open spec fn last_effect(s: GameState, lib: GlobalLibrary, sup: SupportCard, card: CardRef, e: TriggeredEvent, n: nat) -> Option<
    Option<usize>,
>
    decreases n,
{
    if n == 0 {
        Some(None)
    } else {
        let i = n - 1;
        match last_effect(s, lib, sup, card, e, (n - 1) as nat) {
            Some(prev) => if triggers_activate(sup.effects@[i].triggers@, e) {
                match sup.spec_can_use_effect(card, i, s, lib, false) {
                    Some(true) => Some(Some(i as usize)),
                    Some(false) => Some(prev),
                    None => None,
                }
            } else {
                Some(prev)
            },
            None => None,
        }
    }
}

/// What a card starts on an event.
pub open spec fn spec_trigger_plan(s: GameState, lib: GlobalLibrary, card: CardRef, e: TriggeredEvent) -> Option<
    TriggerPlan,
> {
    let none = TriggerPlan { oshi_skill: None, member_ability: None, support_effect: None };
    match lookup(s, lib, card) {
        Some(Card::OshiHoloMember(o)) => match last_skill(s, lib, o, card, e, o.skills@.len()) {
            Some(k) => Some(TriggerPlan { oshi_skill: k, ..none }),
            None => None,
        },
        Some(Card::HoloMember(m)) => match last_ability(s, lib, m, card, e, m.abilities@.len()) {
            Some(k) => Some(TriggerPlan { member_ability: k, ..none }),
            None => None,
        },
        Some(Card::Support(sup)) => match last_effect(s, lib, sup, card, e, sup.effects@.len()) {
            Some(k) => Some(TriggerPlan { support_effect: k, ..none }),
            None => None,
        },
        Some(Card::Cheer(_)) => Some(none),
        None => None,
    }
}

fn any_trigger_activates(ts: &Vec<Trigger>, e: &TriggeredEvent) -> (res: bool)
    ensures
        res == triggers_activate(ts@, *e),
{
    let mut i: usize = 0;
    while i < ts.len()
        invariant
            0 <= i <= ts@.len(),
            forall|j: int| 0 <= j < i ==> !spec_trigger_activates(#[trigger] ts@[j], *e),
        decreases ts@.len() - i,
    {
        if ts[i].should_activate(e) {
            return true;
        }
        i = i + 1;
    }
    false
}

proof fn lemma_last_skill_prefix(s: GameState, lib: GlobalLibrary, o: OshiHoloMemberCard, card: CardRef, e: TriggeredEvent, n: nat, k: nat)
    requires
        last_skill(s, lib, o, card, e, n) is Some,
        k <= n,
    ensures
        last_skill(s, lib, o, card, e, k) is Some,
    decreases n,
{
    if k < n {
        lemma_last_skill_prefix(s, lib, o, card, e, (n - 1) as nat, k);
    }
}

proof fn lemma_last_ability_prefix(s: GameState, lib: GlobalLibrary, m: HoloMemberCard, card: CardRef, e: TriggeredEvent, n: nat, k: nat)
    requires
        last_ability(s, lib, m, card, e, n) is Some,
        k <= n,
    ensures
        last_ability(s, lib, m, card, e, k) is Some,
    decreases n,
{
    if k < n {
        lemma_last_ability_prefix(s, lib, m, card, e, (n - 1) as nat, k);
    }
}

proof fn lemma_last_effect_prefix(s: GameState, lib: GlobalLibrary, sup: SupportCard, card: CardRef, e: TriggeredEvent, n: nat, k: nat)
    requires
        last_effect(s, lib, sup, card, e, n) is Some,
        k <= n,
    ensures
        last_effect(s, lib, sup, card, e, k) is Some,
    decreases n,
{
    if k < n {
        lemma_last_effect_prefix(s, lib, sup, card, e, (n - 1) as nat, k);
    }
}

impl GameState {
    fn board_trigger_cards(&self, player: Player) -> (res: Vec<CardRef>)
        requires
            player != Player::Both,
        ensures
            res@ == player_trigger_cards(*self, player),
    {
        let b = self.board(player);
        let mut base: Vec<CardRef> = Vec::new();
        match b.oshi {
            Some(o) => base.push(o),
            None => {},
        }
        let mut stage = b.stage();
        base.append(&mut stage);
        assert(base@ =~= opt_seq(b.oshi) + b.zone_cards(Zone::Stage));
        let mut out: Vec<CardRef> = Vec::new();
        let mut i: usize = 0;
        assert(base@.take(0) =~= Seq::<CardRef>::empty());
        while i < base.len()
            invariant
                0 <= i <= base@.len(),
                out@ == with_attachments(b@, base@.take(i as int)),
            decreases base@.len() - i,
        {
            let c = base[i];
            out.push(c);
            let mut atts = b.attachments(c);
            out.append(&mut atts);
            proof {
                assert(base@.take(i + 1).drop_last() =~= base@.take(i as int));
                assert(out@ =~= with_attachments(b@, base@.take(i + 1)));
            }
            i = i + 1;
        }
        assert(base@.take(base@.len() as int) =~= base@);
        out
    }

    /// The cards that may answer an event, those of the active player first: each oshi and
    /// stage member, followed by the cards attached to it.
    pub fn trigger_cards(&self) -> (res: Vec<CardRef>)
        requires
            self.active_player != Player::Both,
        ensures
            res@ == trigger_cards(*self),
    {
        let mut out = self.board_trigger_cards(self.active_player);
        let mut theirs = self.board_trigger_cards(self.active_player.opponent());
        out.append(&mut theirs);
        out
    }

    fn last_skill_exec(&self, library: &GlobalLibrary, o: &OshiHoloMemberCard, card: CardRef, e: &TriggeredEvent) -> (res: Option<usize>)
        requires
            self.is_registered(card),
            punique_keys(self.zone_modifiers@),
            last_skill(*self, *library, *o, card, *e, o.skills@.len()) is Some,
        ensures
            last_skill(*self, *library, *o, card, *e, o.skills@.len()) == Some(res),
    {
        let ghost n = o.skills@.len();
        let mut found: Option<usize> = None;
        let mut i: usize = 0;
        while i < o.skills.len()
            invariant
                0 <= i <= o.skills@.len(),
                n == o.skills@.len(),
                self.is_registered(card),
                punique_keys(self.zone_modifiers@),
                last_skill(*self, *library, *o, card, *e, n) is Some,
                last_skill(*self, *library, *o, card, *e, i as nat) == Some(found),
            decreases o.skills@.len() - i,
        {
            proof {
                lemma_last_skill_prefix(*self, *library, *o, card, *e, n, (i + 1) as nat);
            }
            if any_trigger_activates(&o.skills[i].triggers, e) {
                if o.can_use_skill(card, i, self, library, false) {
                    found = Some(i);
                }
            }
            i = i + 1;
        }
        found
    }

    fn last_ability_exec(&self, library: &GlobalLibrary, m: &HoloMemberCard, card: CardRef, e: &TriggeredEvent) -> (res: Option<usize>)
        requires
            self.is_registered(card),
            punique_keys(self.zone_modifiers@),
            last_ability(*self, *library, *m, card, *e, m.abilities@.len()) is Some,
        ensures
            last_ability(*self, *library, *m, card, *e, m.abilities@.len()) == Some(res),
    {
        let ghost n = m.abilities@.len();
        let mut found: Option<usize> = None;
        let mut i: usize = 0;
        while i < m.abilities.len()
            invariant
                0 <= i <= m.abilities@.len(),
                n == m.abilities@.len(),
                self.is_registered(card),
                punique_keys(self.zone_modifiers@),
                last_ability(*self, *library, *m, card, *e, n) is Some,
                last_ability(*self, *library, *m, card, *e, i as nat) == Some(found),
            decreases m.abilities@.len() - i,
        {
            proof {
                lemma_last_ability_prefix(*self, *library, *m, card, *e, n, (i + 1) as nat);
            }
            let a = &m.abilities[i];
            let is_gift = match a.kind {
                MemberAbilityKind::Gift(_) => true,
                _ => false,
            };
            if !is_gift && a.should_activate(card, e) {
                if m.can_use_ability(card, i, self, library, false) {
                    found = Some(i);
                }
            }
            i = i + 1;
        }
        found
    }

    fn last_effect_exec(&self, library: &GlobalLibrary, sup: &SupportCard, card: CardRef, e: &TriggeredEvent) -> (res: Option<usize>)
        requires
            self.is_registered(card),
            punique_keys(self.zone_modifiers@),
            last_effect(*self, *library, *sup, card, *e, sup.effects@.len()) is Some,
        ensures
            last_effect(*self, *library, *sup, card, *e, sup.effects@.len()) == Some(res),
    {
        let ghost n = sup.effects@.len();
        let mut found: Option<usize> = None;
        let mut i: usize = 0;
        while i < sup.effects.len()
            invariant
                0 <= i <= sup.effects@.len(),
                n == sup.effects@.len(),
                self.is_registered(card),
                punique_keys(self.zone_modifiers@),
                last_effect(*self, *library, *sup, card, *e, n) is Some,
                last_effect(*self, *library, *sup, card, *e, i as nat) == Some(found),
            decreases sup.effects@.len() - i,
        {
            proof {
                lemma_last_effect_prefix(*self, *library, *sup, card, *e, n, (i + 1) as nat);
            }
            if any_trigger_activates(&sup.effects[i].triggers, e) {
                if sup.can_use_effect(card, i, self, library, false) {
                    found = Some(i);
                }
            }
            i = i + 1;
        }
        found
    }

    /// What a card starts on an event: the last skill, ability or effect of it that the
    /// event starts and that can be used now.
    pub fn trigger_plan(&self, library: &GlobalLibrary, card: CardRef, triggered_event: &TriggeredEvent) -> (res: TriggerPlan)
        requires
            punique_keys(self.zone_modifiers@),
            spec_trigger_plan(*self, *library, card, *triggered_event) is Some,
        ensures
            spec_trigger_plan(*self, *library, card, *triggered_event) == Some(res),
    {
        proof {
            reveal(lookup);
        }
        let none = TriggerPlan { oshi_skill: None, member_ability: None, support_effect: None };
        match self.lookup_card(library, card) {
            Card::OshiHoloMember(o) => TriggerPlan {
                oshi_skill: self.last_skill_exec(library, o, card, triggered_event),
                ..none
            },
            Card::HoloMember(m) => TriggerPlan {
                member_ability: self.last_ability_exec(library, m, card, triggered_event),
                ..none
            },
            Card::Support(sup) => TriggerPlan {
                support_effect: self.last_effect_exec(library, sup, card, triggered_event),
                ..none
            },
            Card::Cheer(_) => none,
        }
    }
}

} // verus!
