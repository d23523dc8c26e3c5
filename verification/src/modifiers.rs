use vstd::prelude::*;

use crate::card_effects::effects::{condition_clone, condition_eq, Color, Condition, ConditionV};
use crate::card_effects::parse::push_char;
use crate::gameplay::{lemma_trim_hex4, CardRef, Player, Step, Zone};
use crate::hex::{
    hex4, lemma_hex4_round_trip, parse_hex_from, push_hex4, skip_prefixes, spec_parse_hex,
    trim_start_prefix,
};

verus! {

/// A modifier in a game. Numbers are handed out from 1 on.
#[derive(Debug, Clone, Copy, PartialEq, Eq, Structural)]
pub struct ModifierRef(pub u16);

/// The text of a modifier: `m_` and four lower-case hex digits.
pub open spec fn modifier_ref_text(m: ModifierRef) -> Seq<char> {
    seq!['m', '_'] + hex4(m.0)
}

/// The number that a modifier text holds, once every leading `m_` is dropped.
pub open spec fn modifier_ref_number(s: Seq<char>) -> Option<u16> {
    spec_parse_hex(trim_start_prefix(s, seq!['m', '_']))
}

impl ModifierRef {
    pub fn to_text(&self) -> (res: String)
        ensures
            res@ == modifier_ref_text(*self),
    {
        let mut s = String::new();
        push_char(&mut s, 'm');
        push_char(&mut s, '_');
        push_hex4(&mut s, self.0);
        assert(s@ =~= modifier_ref_text(*self));
        s
    }

    /// Reads a modifier from its text. The number must be a hex number other than 0.
    pub fn from_text(value: &str) -> (res: ModifierRef)
        requires
            modifier_ref_number(value@) matches Some(n) && n != 0,
        ensures
            modifier_ref_number(value@) == Some(res.0),
    {
        proof {
            reveal_strlit("m_");
        }
        let start = skip_prefixes(value, "m_");
        assert("m_"@ =~= seq!['m', '_']);
        match parse_hex_from(value, start) {
            Some(n) => ModifierRef(n),
            None => ModifierRef(1),
        }
    }
}

/// Reading the text of a modifier gives the modifier back.
pub proof fn lemma_modifier_ref_round_trip(m: ModifierRef)
    ensures
        modifier_ref_number(modifier_ref_text(m)) == Some(m.0),
{
    lemma_trim_hex4(m.0, 'm');
    lemma_hex4_round_trip(m.0);
}

/// What a modifier does to the card or zone that has it.
#[derive(Debug)]
pub enum ModifierKind {
    /// applies only while the condition holds
    Conditional(Condition, Box<ModifierKind>),
    Resting,
    PreventOshiSkill(usize),
    PreventArt(usize),
    PreventAllArts,
    PreventAbility(usize),
    PreventAbilities,
    PreventCollab,
    PreventBloom,
    PreventLimitedSupport,
    PreventBatonPass,
    SkipStep(Step),
    MoreDamage(usize),
    NextDiceRoll(usize),
    NoLifeLoss,
    /// counts as that many cheers of a color for the cost of an art
    AsArtCost(Color, usize),
    /// counts as that many cheers of a color
    AsCheer(Color, usize),
    DealLessDamage(usize),
    DealMoreDamage(usize),
    ReceiveLessDamage(usize),
    ReceiveMoreDamage(usize),
}

/// The mathematical value of a [`ModifierKind`].
pub enum ModifierKindV {
    Conditional(ConditionV, Box<ModifierKindV>),
    Resting,
    PreventOshiSkill(usize),
    PreventArt(usize),
    PreventAllArts,
    PreventAbility(usize),
    PreventAbilities,
    PreventCollab,
    PreventBloom,
    PreventLimitedSupport,
    PreventBatonPass,
    SkipStep(Step),
    MoreDamage(usize),
    NextDiceRoll(usize),
    NoLifeLoss,
    AsArtCost(Color, usize),
    AsCheer(Color, usize),
    DealLessDamage(usize),
    DealMoreDamage(usize),
    ReceiveLessDamage(usize),
    ReceiveMoreDamage(usize),
}

pub open spec fn modifier_kind_view(k: ModifierKind) -> ModifierKindV
    decreases k,
{
    match k {
        ModifierKind::Conditional(c, k2) => ModifierKindV::Conditional(
            c@,
            Box::new(modifier_kind_view(*k2)),
        ),
        ModifierKind::Resting => ModifierKindV::Resting,
        ModifierKind::PreventOshiSkill(i) => ModifierKindV::PreventOshiSkill(i),
        ModifierKind::PreventArt(i) => ModifierKindV::PreventArt(i),
        ModifierKind::PreventAllArts => ModifierKindV::PreventAllArts,
        ModifierKind::PreventAbility(i) => ModifierKindV::PreventAbility(i),
        ModifierKind::PreventAbilities => ModifierKindV::PreventAbilities,
        ModifierKind::PreventCollab => ModifierKindV::PreventCollab,
        ModifierKind::PreventBloom => ModifierKindV::PreventBloom,
        ModifierKind::PreventLimitedSupport => ModifierKindV::PreventLimitedSupport,
        ModifierKind::PreventBatonPass => ModifierKindV::PreventBatonPass,
        ModifierKind::SkipStep(s) => ModifierKindV::SkipStep(s),
        ModifierKind::MoreDamage(n) => ModifierKindV::MoreDamage(n),
        ModifierKind::NextDiceRoll(n) => ModifierKindV::NextDiceRoll(n),
        ModifierKind::NoLifeLoss => ModifierKindV::NoLifeLoss,
        ModifierKind::AsArtCost(c, n) => ModifierKindV::AsArtCost(c, n),
        ModifierKind::AsCheer(c, n) => ModifierKindV::AsCheer(c, n),
        ModifierKind::DealLessDamage(n) => ModifierKindV::DealLessDamage(n),
        ModifierKind::DealMoreDamage(n) => ModifierKindV::DealMoreDamage(n),
        ModifierKind::ReceiveLessDamage(n) => ModifierKindV::ReceiveLessDamage(n),
        ModifierKind::ReceiveMoreDamage(n) => ModifierKindV::ReceiveMoreDamage(n),
    }
}

impl View for ModifierKind {
    type V = ModifierKindV;

    open spec fn view(&self) -> ModifierKindV {
        modifier_kind_view(*self)
    }
}

impl ModifierKind {
    /// Whether two kinds are the same.
    pub fn same_as(&self, other: &ModifierKind) -> (res: bool)
        ensures
            res == (self@ == other@),
        decreases self,
    {
        match self {
            ModifierKind::Conditional(c, k) => match other {
                ModifierKind::Conditional(c2, k2) => condition_eq(c, c2) && k.same_as(k2),
                _ => false,
            },
            ModifierKind::Resting => matches!(other, ModifierKind::Resting),
            ModifierKind::PreventOshiSkill(i) => match other {
                ModifierKind::PreventOshiSkill(j) => *i == *j,
                _ => false,
            },
            ModifierKind::PreventArt(i) => match other {
                ModifierKind::PreventArt(j) => *i == *j,
                _ => false,
            },
            ModifierKind::PreventAllArts => matches!(other, ModifierKind::PreventAllArts),
            ModifierKind::PreventAbility(i) => match other {
                ModifierKind::PreventAbility(j) => *i == *j,
                _ => false,
            },
            ModifierKind::PreventAbilities => matches!(other, ModifierKind::PreventAbilities),
            ModifierKind::PreventCollab => matches!(other, ModifierKind::PreventCollab),
            ModifierKind::PreventBloom => matches!(other, ModifierKind::PreventBloom),
            ModifierKind::PreventLimitedSupport => matches!(
                other,
                ModifierKind::PreventLimitedSupport
            ),
            ModifierKind::PreventBatonPass => matches!(other, ModifierKind::PreventBatonPass),
            ModifierKind::SkipStep(s) => match other {
                ModifierKind::SkipStep(s2) => *s == *s2,
                _ => false,
            },
            ModifierKind::MoreDamage(n) => match other {
                ModifierKind::MoreDamage(m) => *n == *m,
                _ => false,
            },
            ModifierKind::NextDiceRoll(n) => match other {
                ModifierKind::NextDiceRoll(m) => *n == *m,
                _ => false,
            },
            ModifierKind::NoLifeLoss => matches!(other, ModifierKind::NoLifeLoss),
            ModifierKind::AsArtCost(c, n) => match other {
                ModifierKind::AsArtCost(c2, m) => *c == *c2 && *n == *m,
                _ => false,
            },
            ModifierKind::AsCheer(c, n) => match other {
                ModifierKind::AsCheer(c2, m) => *c == *c2 && *n == *m,
                _ => false,
            },
            ModifierKind::DealLessDamage(n) => match other {
                ModifierKind::DealLessDamage(m) => *n == *m,
                _ => false,
            },
            ModifierKind::DealMoreDamage(n) => match other {
                ModifierKind::DealMoreDamage(m) => *n == *m,
                _ => false,
            },
            ModifierKind::ReceiveLessDamage(n) => match other {
                ModifierKind::ReceiveLessDamage(m) => *n == *m,
                _ => false,
            },
            ModifierKind::ReceiveMoreDamage(n) => match other {
                ModifierKind::ReceiveMoreDamage(m) => *n == *m,
                _ => false,
            },
        }
    }

    /// A copy of the kind.
    pub fn duplicate(&self) -> (res: ModifierKind)
        ensures
            res@ == self@,
        decreases self,
    {
        match self {
            ModifierKind::Conditional(c, k) => ModifierKind::Conditional(
                condition_clone(c),
                Box::new(k.duplicate()),
            ),
            ModifierKind::Resting => ModifierKind::Resting,
            ModifierKind::PreventOshiSkill(i) => ModifierKind::PreventOshiSkill(*i),
            ModifierKind::PreventArt(i) => ModifierKind::PreventArt(*i),
            ModifierKind::PreventAllArts => ModifierKind::PreventAllArts,
            ModifierKind::PreventAbility(i) => ModifierKind::PreventAbility(*i),
            ModifierKind::PreventAbilities => ModifierKind::PreventAbilities,
            ModifierKind::PreventCollab => ModifierKind::PreventCollab,
            ModifierKind::PreventBloom => ModifierKind::PreventBloom,
            ModifierKind::PreventLimitedSupport => ModifierKind::PreventLimitedSupport,
            ModifierKind::PreventBatonPass => ModifierKind::PreventBatonPass,
            ModifierKind::SkipStep(s) => ModifierKind::SkipStep(*s),
            ModifierKind::MoreDamage(n) => ModifierKind::MoreDamage(*n),
            ModifierKind::NextDiceRoll(n) => ModifierKind::NextDiceRoll(*n),
            ModifierKind::NoLifeLoss => ModifierKind::NoLifeLoss,
            ModifierKind::AsArtCost(c, n) => ModifierKind::AsArtCost(*c, *n),
            ModifierKind::AsCheer(c, n) => ModifierKind::AsCheer(*c, *n),
            ModifierKind::DealLessDamage(n) => ModifierKind::DealLessDamage(*n),
            ModifierKind::DealMoreDamage(n) => ModifierKind::DealMoreDamage(*n),
            ModifierKind::ReceiveLessDamage(n) => ModifierKind::ReceiveLessDamage(*n),
            ModifierKind::ReceiveMoreDamage(n) => ModifierKind::ReceiveMoreDamage(*n),
        }
    }
}

/// How long a modifier lasts.
#[derive(Debug, Clone, Copy, PartialEq, Eq, Structural)]
pub enum LifeTime {
    ThisGame,
    ThisTurn,
    /// becomes ThisTurn on player's next start turn
    NextTurn(Player),
    ThisStep,
    ThisArt,
    ThisEffect,
    /// stays until manually removed
    UntilRemoved,
    /// lasts while the card stays attached to the given card
    WhileAttached(CardRef),
}

/// A modifier: what it does, and how long it lasts.
#[derive(Debug)]
pub struct Modifier {
    pub id: ModifierRef,
    pub kind: ModifierKind,
    pub life_time: LifeTime,
}

/// The mathematical value of a [`Modifier`].
pub struct ModifierV {
    pub id: ModifierRef,
    pub kind: ModifierKindV,
    pub life_time: LifeTime,
}

impl View for Modifier {
    type V = ModifierV;

    open spec fn view(&self) -> ModifierV {
        ModifierV { id: self.id, kind: self.kind@, life_time: self.life_time }
    }
}

/// What the start of a player's turn makes of a life time: one for the player's next turn
/// lasts for this turn from then on.
pub open spec fn started_life_time(l: LifeTime, active_player: Player) -> LifeTime {
    match l {
        LifeTime::NextTurn(p) => if p == active_player {
            LifeTime::ThisTurn
        } else {
            l
        },
        _ => l,
    }
}

impl Modifier {
    /// A new modifier for a card, with the next number.
    pub fn for_card(
        _card: CardRef,
        kind: ModifierKind,
        life_time: LifeTime,
        next_modifier_ref: &mut u16,
    ) -> (res: Modifier)
        requires
            *old(next_modifier_ref) != 0,
            *old(next_modifier_ref) < u16::MAX,
        ensures
            res.id == ModifierRef(*old(next_modifier_ref)),
            res.kind == kind,
            res.life_time == life_time,
            *final(next_modifier_ref) == *old(next_modifier_ref) + 1,
    {
        let next_ref = *next_modifier_ref;
        *next_modifier_ref += 1;
        Modifier { id: ModifierRef(next_ref), kind, life_time }
    }

    /// A new modifier for a zone, with the next number.
    pub fn for_zone(
        _player: Player,
        _zone: Zone,
        kind: ModifierKind,
        life_time: LifeTime,
        next_modifier_ref: &mut u16,
    ) -> (res: Modifier)
        requires
            *old(next_modifier_ref) != 0,
            *old(next_modifier_ref) < u16::MAX,
        ensures
            res.id == ModifierRef(*old(next_modifier_ref)),
            res.kind == kind,
            res.life_time == life_time,
            *final(next_modifier_ref) == *old(next_modifier_ref) + 1,
    {
        let next_ref = *next_modifier_ref;
        *next_modifier_ref += 1;
        Modifier { id: ModifierRef(next_ref), kind, life_time }
    }

    /// A modifier for a later turn does not apply yet.
    pub fn is_active(&self) -> (res: bool)
        ensures
            res == !(self.life_time is NextTurn),
    {
        !matches!(self.life_time, LifeTime::NextTurn(_))
    }

    /// At the start of a player's turn, a modifier for that player's next turn starts to
    /// apply, for the turn.
    pub fn start_turn(&mut self, active_player: Player)
        ensures
            final(self).id == old(self).id,
            final(self).kind == old(self).kind,
            final(self).life_time == started_life_time(old(self).life_time, active_player),
    {
        match self.life_time {
            LifeTime::NextTurn(p) => if p == active_player {
                self.life_time = LifeTime::ThisTurn;
            },
            _ => {},
        }
    }

    /// The end of a turn changes no modifier.
    pub fn end_turn(&mut self, _active_player: Player)
        ensures
            *final(self) == *old(self),
    {
    }

    /// A copy of the modifier.
    pub fn duplicate(&self) -> (res: Modifier)
        ensures
            res@ == self@,
    {
        Modifier { id: self.id, kind: self.kind.duplicate(), life_time: self.life_time }
    }
}

/// Damage on a member, in markers of 10 hp.
#[derive(Debug, Clone, Copy, PartialEq, Eq, Structural)]
pub struct DamageMarkers(pub usize);

impl Default for DamageMarkers {
    fn default() -> (res: DamageMarkers)
        ensures
            res.0 == 0,
    {
        DamageMarkers(0)
    }
}

impl DamageMarkers {
    /// The markers for an amount of hp, rounded down.
    pub fn from_hp(hp: u16) -> (res: DamageMarkers)
        ensures
            res.0 == hp / 10,
    {
        DamageMarkers(hp as usize / 10)
    }

    /// The hp of the markers. The number is taken as a `u16`, and ten times it must fit.
    pub fn to_hp(self) -> (res: u16)
        requires
            (self.0 % 0x10000) * 10 <= u16::MAX,
        ensures
            res == (self.0 % 0x10000) * 10,
    {
        let x = self.0;
        let n = #[verifier::truncate] (x as u16);
        assert(n == x % 0x10000) by (bit_vector)
            requires
                n == #[verifier::truncate] (x as u16),
        ;
        n * 10
    }

    /// The markers of both, at most the largest number.
    pub fn add_markers(self, rhs: DamageMarkers) -> (res: DamageMarkers)
        ensures
            res.0 == if self.0 + rhs.0 > usize::MAX {
                usize::MAX as int
            } else {
                self.0 + rhs.0
            },
    {
        DamageMarkers(self.0.saturating_add(rhs.0))
    }

    /// The markers less those of `rhs`, at least none.
    pub fn sub_markers(self, rhs: DamageMarkers) -> (res: DamageMarkers)
        ensures
            res.0 == if self.0 < rhs.0 {
                0
            } else {
                self.0 - rhs.0
            },
    {
        DamageMarkers(self.0.saturating_sub(rhs.0))
    }
}

/// Damage in hp rounds down to markers, and markers give their hp back.
pub proof fn lemma_damage_markers_hp(hp: u16, d: DamageMarkers)
    ensures
        (hp / 10) * 10 == hp - hp % 10,
        d.0 <= 6553 ==> (d.0 % 0x10000) * 10 <= u16::MAX && ((d.0 % 0x10000) * 10) as u16 / 10
            == d.0,
{
}

} // verus!
