use vstd::prelude::*;

use crate::card_effects::evaluate::{eval_condition, var_this_card, ContextV, EvaluateContext, LetValue, LetValueV};
use crate::gameplay::{spec_includes, CardRef, Player, Zone};
use crate::library::GlobalLibrary;
use crate::cards::HoloMemberArtDamage;
use crate::modifiers::{
    DamageMarkers, LifeTime, Modifier, ModifierKind, ModifierKindV, ModifierRef, ModifierV,
};
use crate::state::{
    card_mods, find_entry, modifier_views, or_empty, pfind_entry, spec_board, zone_modifier_views,
    zone_mods_map, GameState, punique_keys,
};

verus! {

/// The modifiers of a zone list that apply to a zone: those of the zones that hold it.
pub open spec fn zone_mods_for(list: Seq<(Zone, ModifierV)>, zone: Zone) -> Seq<ModifierV>
    decreases list.len(),
{
    if list.len() == 0 {
        Seq::empty()
    } else {
        zone_mods_for(list.drop_last(), zone) + if spec_includes(list.last().0, zone) {
            seq![list.last().1]
        } else {
            Seq::empty()
        }
    }
}

impl GameState {
    /// The zone of a card on its owner's board, or `All` when it is in none.
    pub open spec fn zone_of(&self, c: CardRef) -> Zone {
        match spec_board(*self, self.owner(c))@.find_zone(c) {
            Some(z) => z,
            None => Zone::All,
        }
    }

    /// The modifiers that apply to a card: its own, then those of its owner's zones that hold
    /// its zone.
    pub open spec fn spec_find_modifiers(&self, c: CardRef) -> Seq<ModifierV> {
        card_mods(self.card_modifiers@, c) + zone_mods_for(
            or_empty(zone_mods_map(self.zone_modifiers@), self.owner(c)),
            self.zone_of(c),
        )
    }

    /// The context in which a condition of a card's modifier is evaluated: the card, its
    /// owner, and the card as `this card`.
    pub open spec fn card_context(&self, c: CardRef) -> ContextV {
        ContextV {
            active_card: Some(c),
            active_player: Some(self.owner(c)),
            variables: seq![(var_this_card(), LetValueV::CardReferences(seq![c]))],
            is_triggered: false,
        }
    }
}

/// Whether one of the modifiers that apply is of the kind, looked at in order until one is
/// found: a modifier for a later turn does not apply, and a conditional one applies its kind
/// when its condition holds.
pub open spec fn mods_have_kind(
    s: GameState,
    lib: GlobalLibrary,
    c: CardRef,
    ms: Seq<ModifierV>,
    kind: ModifierKindV,
) -> Option<bool>
    decreases ms.len(),
{
    if ms.len() == 0 {
        Some(false)
    } else {
        let m = ms[0];
        let rest = mods_have_kind(s, lib, c, ms.drop_first(), kind);
        if m.life_time is NextTurn {
            rest
        } else {
            match m.kind {
                ModifierKindV::Conditional(cond, k) => match eval_condition(
                    s.card_context(c),
                    s,
                    lib,
                    cond,
                    1,
                ) {
                    Some(true) => if *k == kind {
                        Some(true)
                    } else {
                        rest
                    },
                    Some(false) => rest,
                    None => None,
                },
                other => if other == kind {
                    Some(true)
                } else {
                    rest
                },
            }
        }
    }
}

/// The kinds of the modifiers that apply, in order: a modifier for a later turn does not
/// apply, and a conditional one gives its kind when its condition holds.
pub open spec fn active_kinds(s: GameState, lib: GlobalLibrary, c: CardRef, ms: Seq<ModifierV>) -> Option<
    Seq<ModifierKindV>,
>
    decreases ms.len(),
{
    if ms.len() == 0 {
        Some(Seq::empty())
    } else {
        let m = ms[0];
        match active_kinds(s, lib, c, ms.drop_first()) {
            Some(rest) => if m.life_time is NextTurn {
                Some(rest)
            } else {
                match m.kind {
                    ModifierKindV::Conditional(cond, k) => match eval_condition(
                        s.card_context(c),
                        s,
                        lib,
                        cond,
                        1,
                    ) {
                        Some(true) => Some(seq![*k] + rest),
                        Some(false) => Some(rest),
                        None => None,
                    },
                    other => Some(seq![other] + rest),
                }
            },
            None => None,
        }
    }
}

pub open spec fn kind_views(ks: Seq<ModifierKind>) -> Seq<ModifierKindV> {
    ks.map_values(|k: ModifierKind| k@)
}

impl GameState {
    /// The modifiers that apply to a registered card.
    #[verifier::spinoff_prover]
    pub fn find_modifiers(&self, card: CardRef) -> (res: Vec<crate::modifiers::Modifier>)
        requires
            self.is_registered(card),
            punique_keys(self.zone_modifiers@),
        ensures
            modifier_views(res@) == self.spec_find_modifiers(card),
    {
        let player = self.player_for_card(card);
        let zone = match self.board(player).find_card_zone(card) {
            Some(z) => z,
            None => Zone::All,
        };
        let mut out: Vec<crate::modifiers::Modifier> = Vec::new();
        match find_entry(&self.card_modifiers, card) {
            Some(i) => {
                let v = &self.card_modifiers[i].1;
                let mut k: usize = 0;
                while k < v.len()
                    invariant
                        0 <= k <= v@.len(),
                        modifier_views(out@) == modifier_views(v@.take(k as int)),
                    decreases v@.len() - k,
                {
                    let ghost before = out@;
                    out.push(v[k].duplicate());
                    assert(modifier_views(out@) =~= modifier_views(before).push(v@[k as int]@));
                    assert(modifier_views(v@.take(k + 1)) =~= modifier_views(v@.take(k as int)).push(
                        v@[k as int]@,
                    ));
                    k = k + 1;
                }
                assert(v@.take(v@.len() as int) =~= v@);
            },
            None => {
                assert(modifier_views(out@) =~= Seq::<ModifierV>::empty());
            },
        }
        let ghost own = modifier_views(out@);
        assert(own == card_mods(self.card_modifiers@, card));
        match pfind_entry(&self.zone_modifiers, player) {
            Some(j) => {
                let list = &self.zone_modifiers[j].1;
                let ghost zl = crate::state::zone_modifier_views(list@);
                proof {
                    assert(zone_mods_map(self.zone_modifiers@).contains_key(player));
                    assert(or_empty(zone_mods_map(self.zone_modifiers@), player) == zl);
                }
                let mut k: usize = 0;
                while k < list.len()
                    invariant
                        0 <= k <= list@.len(),
                        zl == crate::state::zone_modifier_views(list@),
                        modifier_views(out@) == own + zone_mods_for(zl.take(k as int), zone),
                    decreases list@.len() - k,
                {
                    proof {
                        assert(zl.take(k + 1).drop_last() =~= zl.take(k as int));
                        assert(zl.take(k + 1).last() == (list@[k as int].0, list@[k as int].1@));
                    }
                    if list[k].0.includes(zone) {
                        let ghost before = out@;
                        out.push(list[k].1.duplicate());
                        assert(modifier_views(out@) =~= modifier_views(before).push(
                            list@[k as int].1@,
                        ));
                    }
                    assert(modifier_views(out@) =~= own + zone_mods_for(zl.take(k + 1), zone));
                    k = k + 1;
                }
                assert(zl.take(list@.len() as int) =~= zl);
            },
            None => {
                assert(or_empty(zone_mods_map(self.zone_modifiers@), player) == Seq::<
                    (Zone, ModifierV),
                >::empty());
                assert(modifier_views(out@) =~= own + zone_mods_for(
                    Seq::<(Zone, ModifierV)>::empty(),
                    zone,
                ));
            },
        }
        out
    }

    /// The context of a registered card, for the conditions of its modifiers.
    fn card_context_exec(&self, card: CardRef) -> (res: EvaluateContext)
        requires
            self.is_registered(card),
        ensures
            res@ == self.card_context(card),
    {
        let player = self.player_for_card(card);
        let mut vars: Vec<(String, LetValue)> = Vec::new();
        let mut cards: Vec<CardRef> = Vec::new();
        cards.push(card);
        vars.push((String::from_str("&_this_card"), LetValue::CardReferences(cards)));
        let res = EvaluateContext {
            active_card: Some(card),
            active_player: Some(player),
            variables: vars,
            is_triggered: false,
        };
        proof {
            reveal_strlit("&_this_card");
            assert("&_this_card"@ =~= var_this_card());
            assert(cards@ =~= seq![card]);
            assert(res@.variables =~= self.card_context(card).variables);
        }
        res
    }

    /// Whether a registered card has a modifier of the kind that applies.
    pub fn has_modifier(&self, library: &GlobalLibrary, card: CardRef, kind: ModifierKind) -> (res: bool)
        requires
            self.is_registered(card),
            punique_keys(self.zone_modifiers@),
            mods_have_kind(*self, *library, card, self.spec_find_modifiers(card), kind@) is Some,
        ensures
            mods_have_kind(*self, *library, card, self.spec_find_modifiers(card), kind@) == Some(
                res,
            ),
    {
        let mods = self.find_modifiers(card);
        let ctx = self.card_context_exec(card);
        let ghost ms = modifier_views(mods@);
        let mut i: usize = 0;
        assert(ms.skip(0) =~= ms);
        while i < mods.len()
            invariant
                0 <= i <= mods@.len(),
                ms == modifier_views(mods@),
                ms == self.spec_find_modifiers(card),
                ctx@ == self.card_context(card),
                ctx.variables@.len() == 1,
                mods_have_kind(*self, *library, card, ms, kind@) == mods_have_kind(
                    *self,
                    *library,
                    card,
                    ms.skip(i as int),
                    kind@,
                ),
                mods_have_kind(*self, *library, card, ms, kind@) is Some,
            decreases mods@.len() - i,
        {
            proof {
                assert(ms.skip(i as int)[0] == mods@[i as int]@);
                assert(ms.skip(i as int).drop_first() =~= ms.skip(i + 1));
            }
            let m = &mods[i];
            if m.is_active() {
                match &m.kind {
                    ModifierKind::Conditional(c, k) => {
                        if c.evaluate_with_context(&ctx, self, library) {
                            if k.same_as(&kind) {
                                return true;
                            }
                        }
                    },
                    other => {
                        if other.same_as(&kind) {
                            return true;
                        }
                    },
                }
            }
            i = i + 1;
        }
        false
    }
    /// The kinds of a registered card's modifiers that apply, in order: a modifier for a later
    /// turn does not apply, and a conditional one gives its kind when its condition holds.
    /// Every condition is evaluated.
    #[verifier::spinoff_prover]
    pub fn active_modifier_kinds(&self, library: &GlobalLibrary, card: CardRef) -> (res: Vec<ModifierKind>)
        requires
            self.is_registered(card),
            punique_keys(self.zone_modifiers@),
            active_kinds(*self, *library, card, self.spec_find_modifiers(card)) is Some,
        ensures
            active_kinds(*self, *library, card, self.spec_find_modifiers(card)) == Some(
                kind_views(res@),
            ),
    {
        let mods = self.find_modifiers(card);
        let ctx = self.card_context_exec(card);
        let ghost ms = modifier_views(mods@);
        let mut out: Vec<ModifierKind> = Vec::new();
        let mut i: usize = 0;
        assert(ms.skip(0) =~= ms);
        assert(kind_views(out@) =~= Seq::<ModifierKindV>::empty());
        while i < mods.len()
            invariant
                0 <= i <= mods@.len(),
                ms == modifier_views(mods@),
                ms == self.spec_find_modifiers(card),
                ctx@ == self.card_context(card),
                ctx.variables@.len() == 1,
                active_kinds(*self, *library, card, ms.skip(i as int)) is Some,
                active_kinds(*self, *library, card, ms) == Some(
                    kind_views(out@) + active_kinds(*self, *library, card, ms.skip(i as int))->0,
                ),
            decreases mods@.len() - i,
        {
            proof {
                assert(ms.skip(i as int)[0] == mods@[i as int]@);
                assert(ms.skip(i as int).drop_first() =~= ms.skip(i + 1));
            }
            let ghost before = out@;
            let m = &mods[i];
            if m.is_active() {
                match &m.kind {
                    ModifierKind::Conditional(c, k) => {
                        if c.evaluate_with_context(&ctx, self, library) {
                            out.push(k.duplicate());
                        }
                    },
                    other => {
                        out.push(other.duplicate());
                    },
                }
            }
            proof {
                if kind_views(out@).len() > kind_views(before).len() {
                    assert(kind_views(out@) =~= kind_views(before).push(kind_views(out@).last()));
                    assert(seq![kind_views(out@).last()] + active_kinds(
                        *self,
                        *library,
                        card,
                        ms.skip(i + 1),
                    )->0 =~= active_kinds(*self, *library, card, ms.skip(i as int))->0);
                    assert(kind_views(out@) + active_kinds(*self, *library, card, ms.skip(i + 1))->0
                        =~= kind_views(before) + active_kinds(*self, *library, card, ms.skip(i as int))->0);
                } else {
                    assert(out@ =~= before);
                }
            }
            i = i + 1;
        }
        proof {
            assert(ms.skip(mods@.len() as int) =~= Seq::<ModifierV>::empty());
            assert(kind_views(out@) + Seq::<ModifierKindV>::empty() =~= kind_views(out@));
        }
        out
    }

    /// The kinds of the modifiers that apply to a player: those of the player's oshi, which is
    /// always there.
    pub fn player_active_modifier_kinds(&self, library: &GlobalLibrary, player: Player) -> (res: Vec<
        ModifierKind,
    >)
        requires
            player != Player::Both,
            spec_board(*self, player).oshi is Some,
            self.is_registered(spec_board(*self, player).oshi.unwrap()),
            punique_keys(self.zone_modifiers@),
            active_kinds(
                *self,
                *library,
                spec_board(*self, player).oshi.unwrap(),
                self.spec_find_modifiers(spec_board(*self, player).oshi.unwrap()),
            ) is Some,
        ensures
            active_kinds(
                *self,
                *library,
                spec_board(*self, player).oshi.unwrap(),
                self.spec_find_modifiers(spec_board(*self, player).oshi.unwrap()),
            ) == Some(kind_views(res@)),
    {
        let oshi = self.board(player).oshi().unwrap();
        self.active_modifier_kinds(library, oshi)
    }

    /// The modifiers that apply to a player: those of the player's oshi, which is always there.
    pub fn find_player_modifiers(&self, player: Player) -> (res: Vec<crate::modifiers::Modifier>)
        requires
            player != Player::Both,
            spec_board(*self, player).oshi is Some,
            self.is_registered(spec_board(*self, player).oshi.unwrap()),
            punique_keys(self.zone_modifiers@),
        ensures
            modifier_views(res@) == self.spec_find_modifiers(
                spec_board(*self, player).oshi.unwrap(),
            ),
    {
        let oshi = self.board(player).oshi().unwrap();
        self.find_modifiers(oshi)
    }

    /// Whether a player has a modifier of the kind: whether the player's oshi, which is always
    /// there, has one that applies.
    pub fn player_has_modifier(&self, library: &GlobalLibrary, player: Player, kind: ModifierKind) -> (res: bool)
        requires
            player != Player::Both,
            spec_board(*self, player).oshi is Some,
            self.is_registered(spec_board(*self, player).oshi.unwrap()),
            punique_keys(self.zone_modifiers@),
            mods_have_kind(
                *self,
                *library,
                spec_board(*self, player).oshi.unwrap(),
                self.spec_find_modifiers(spec_board(*self, player).oshi.unwrap()),
                kind@,
            ) is Some,
        ensures
            mods_have_kind(
                *self,
                *library,
                spec_board(*self, player).oshi.unwrap(),
                self.spec_find_modifiers(spec_board(*self, player).oshi.unwrap()),
                kind@,
            ) == Some(res),
    {
        let oshi = self.board(player).oshi().unwrap();
        self.has_modifier(library, oshi, kind)
    }
}

// ------------------------------------------------------------------
// which modifiers end
// ------------------------------------------------------------------

/// The ids of the modifiers of a kind, in order.
pub open spec fn ids_of_kind(ms: Seq<ModifierV>, kind: ModifierKindV) -> Seq<ModifierRef>
    decreases ms.len(),
{
    if ms.len() == 0 {
        Seq::empty()
    } else {
        ids_of_kind(ms.drop_last(), kind) + if ms.last().kind == kind {
            seq![ms.last().id]
        } else {
            Seq::empty()
        }
    }
}

/// The ids of the modifiers that last for a time, in order.
pub open spec fn ids_lasting(ms: Seq<ModifierV>, life_time: LifeTime) -> Seq<ModifierRef>
    decreases ms.len(),
{
    if ms.len() == 0 {
        Seq::empty()
    } else {
        ids_lasting(ms.drop_last(), life_time) + if ms.last().life_time == life_time {
            seq![ms.last().id]
        } else {
            Seq::empty()
        }
    }
}

/// For each card that has some, in the order of the entries, the ids of its modifiers that
/// last for a time.
pub open spec fn expiring_card_mods(s: Seq<(CardRef, Vec<Modifier>)>, life_time: LifeTime) -> Seq<
    (CardRef, Seq<ModifierRef>),
>
    decreases s.len(),
{
    if s.len() == 0 {
        Seq::empty()
    } else {
        let rest = expiring_card_mods(s.drop_last(), life_time);
        let ids = ids_lasting(modifier_views(s.last().1@), life_time);
        if ids.len() > 0 {
            rest.push((s.last().0, ids))
        } else {
            rest
        }
    }
}

/// The zone modifiers of every player, one after the other, with their player and zone.
pub open spec fn flat_zone_mods(s: Seq<(Player, Vec<(Zone, Modifier)>)>) -> Seq<(Player, Zone, ModifierV)>
    decreases s.len(),
{
    if s.len() == 0 {
        Seq::empty()
    } else {
        let p = s.last().0;
        flat_zone_mods(s.drop_last()) + zone_modifier_views(s.last().1@).map_values(
            |x: (Zone, ModifierV)| (p, x.0, x.1),
        )
    }
}

pub open spec fn has_zone_group(g: Seq<((Player, Zone), Seq<ModifierRef>)>, k: (Player, Zone)) -> bool {
    exists|i: int| 0 <= i < g.len() && g[i].0 == k
}

pub open spec fn zone_group_index(g: Seq<((Player, Zone), Seq<ModifierRef>)>, k: (Player, Zone)) -> int {
    choose|i: int| 0 <= i < g.len() && g[i].0 == k
}

/// The ids of the zone modifiers that last for a time, grouped by player and zone: the
/// groups in the order in which they first come, the ids of a group in their order.
pub open spec fn grouped_expiring(t: Seq<(Player, Zone, ModifierV)>, life_time: LifeTime) -> Seq<
    ((Player, Zone), Seq<ModifierRef>),
>
    decreases t.len(),
{
    if t.len() == 0 {
        Seq::empty()
    } else {
        let g = grouped_expiring(t.drop_last(), life_time);
        let x = t.last();
        let k = (x.0, x.1);
        if x.2.life_time != life_time {
            g
        } else if has_zone_group(g, k) {
            let i = zone_group_index(g, k);
            g.update(i, (k, g[i].1.push(x.2.id)))
        } else {
            g.push((k, seq![x.2.id]))
        }
    }
}

pub open spec fn distinct_zone_groups(g: Seq<((Player, Zone), Seq<ModifierRef>)>) -> bool {
    forall|i: int, j: int| 0 <= i < j < g.len() ==> g[i].0 != g[j].0
}

proof fn lemma_zone_groups_distinct(t: Seq<(Player, Zone, ModifierV)>, life_time: LifeTime)
    ensures
        distinct_zone_groups(grouped_expiring(t, life_time)),
    decreases t.len(),
{
    if t.len() > 0 {
        lemma_zone_groups_distinct(t.drop_last(), life_time);
    }
}

pub open spec fn id_groups_view<K>(g: Seq<(K, Vec<ModifierRef>)>) -> Seq<(K, Seq<ModifierRef>)> {
    g.map_values(|x: (K, Vec<ModifierRef>)| (x.0, x.1@))
}

fn ids_lasting_exec(ms: &Vec<Modifier>, life_time: LifeTime) -> (res: Vec<ModifierRef>)
    ensures
        res@ == ids_lasting(modifier_views(ms@), life_time),
{
    let mut out: Vec<ModifierRef> = Vec::new();
    let mut i: usize = 0;
    while i < ms.len()
        invariant
            0 <= i <= ms@.len(),
            out@ == ids_lasting(modifier_views(ms@.take(i as int)), life_time),
        decreases ms@.len() - i,
    {
        proof {
            assert(modifier_views(ms@.take(i + 1)).drop_last() =~= modifier_views(ms@.take(i as int)));
            assert(modifier_views(ms@.take(i + 1)).last() == ms@[i as int]@);
        }
        if ms[i].life_time == life_time {
            out.push(ms[i].id);
        }
        assert(out@ =~= ids_lasting(modifier_views(ms@.take(i + 1)), life_time));
        i = i + 1;
    }
    assert(ms@.take(ms@.len() as int) =~= ms@);
    out
}

impl GameState {
    /// The ids of a card's modifiers of a kind: those that go when all its modifiers of that
    /// kind are removed.
    pub fn modifiers_of_kind(&self, card: CardRef, kind: &ModifierKind) -> (res: Vec<ModifierRef>)
        ensures
            res@ == ids_of_kind(card_mods(self.card_modifiers@, card), kind@),
    {
        let mut out: Vec<ModifierRef> = Vec::new();
        match find_entry(&self.card_modifiers, card) {
            Some(e) => {
                let ms = &self.card_modifiers[e].1;
                proof {
                    assert(card_mods(self.card_modifiers@, card) == modifier_views(ms@));
                }
                let mut i: usize = 0;
                while i < ms.len()
                    invariant
                        0 <= i <= ms@.len(),
                        out@ == ids_of_kind(modifier_views(ms@.take(i as int)), kind@),
                    decreases ms@.len() - i,
                {
                    proof {
                        assert(modifier_views(ms@.take(i + 1)).drop_last() =~= modifier_views(
                            ms@.take(i as int),
                        ));
                        assert(modifier_views(ms@.take(i + 1)).last() == ms@[i as int]@);
                    }
                    if ms[i].kind.same_as(kind) {
                        out.push(ms[i].id);
                    }
                    assert(out@ =~= ids_of_kind(modifier_views(ms@.take(i + 1)), kind@));
                    i = i + 1;
                }
                assert(ms@.take(ms@.len() as int) =~= ms@);
            },
            None => {
                assert(out@ =~= ids_of_kind(card_mods(self.card_modifiers@, card), kind@));
            },
        }
        out
    }

    /// The card modifiers that end when a time is over: for each card that has some, the ids
    /// of its modifiers that last for that time.
    pub fn expiring_card_modifiers(&self, life_time: LifeTime) -> (res: Vec<(CardRef, Vec<ModifierRef>)>)
        ensures
            id_groups_view(res@) == expiring_card_mods(self.card_modifiers@, life_time),
    {
        let entries = &self.card_modifiers;
        let mut out: Vec<(CardRef, Vec<ModifierRef>)> = Vec::new();
        let mut i: usize = 0;
        while i < entries.len()
            invariant
                0 <= i <= entries@.len(),
                entries@ == self.card_modifiers@,
                id_groups_view(out@) == expiring_card_mods(entries@.take(i as int), life_time),
            decreases entries@.len() - i,
        {
            proof {
                assert(entries@.take(i + 1).drop_last() =~= entries@.take(i as int));
                assert(entries@.take(i + 1).last() == entries@[i as int]);
            }
            let ids = ids_lasting_exec(&entries[i].1, life_time);
            if ids.len() > 0 {
                let ghost before = out@;
                out.push((entries[i].0, ids));
                assert(id_groups_view(out@) =~= id_groups_view(before).push(
                    (entries@[i as int].0, ids@),
                ));
            }
            i = i + 1;
        }
        assert(entries@.take(entries@.len() as int) =~= entries@);
        out
    }

    /// The zone modifiers that end when a time is over: the ids of those that last for that
    /// time, grouped by player and zone.
    #[verifier::spinoff_prover]
    pub fn expiring_zone_modifiers(&self, life_time: LifeTime) -> (res: Vec<((Player, Zone), Vec<ModifierRef>)>)
        ensures
            id_groups_view(res@) == grouped_expiring(flat_zone_mods(self.zone_modifiers@), life_time),
    {
        let entries = &self.zone_modifiers;
        let ghost flat = flat_zone_mods(entries@);
        let mut out: Vec<((Player, Zone), Vec<ModifierRef>)> = Vec::new();
        let mut i: usize = 0;
        assert(flat_zone_mods(entries@.take(0)) =~= Seq::<(Player, Zone, ModifierV)>::empty());
        while i < entries.len()
            invariant
                0 <= i <= entries@.len(),
                entries@ == self.zone_modifiers@,
                id_groups_view(out@) == grouped_expiring(flat_zone_mods(entries@.take(i as int)), life_time),
            decreases entries@.len() - i,
        {
            let p = entries[i].0;
            let list = &entries[i].1;
            let ghost before = flat_zone_mods(entries@.take(i as int));
            let ghost inner = zone_modifier_views(list@).map_values(
                |x: (Zone, ModifierV)| (p, x.0, x.1),
            );
            proof {
                assert(entries@.take(i + 1).drop_last() =~= entries@.take(i as int));
                assert(flat_zone_mods(entries@.take(i + 1)) == before + inner);
            }
            let mut j: usize = 0;
            while j < list.len()
                invariant
                    0 <= j <= list@.len(),
                    inner == zone_modifier_views(list@).map_values(
                        |x: (Zone, ModifierV)| (p, x.0, x.1),
                    ),
                    id_groups_view(out@) == grouped_expiring(before + inner.take(j as int), life_time),
                decreases list@.len() - j,
            {
                let ghost t = before + inner.take(j as int);
                let ghost g = grouped_expiring(t, life_time);
                proof {
                    assert((before + inner.take(j + 1)).drop_last() =~= t);
                    assert((before + inner.take(j + 1)).last() == (p, list@[j as int].0, list@[j as int].1@));
                    lemma_zone_groups_distinct(t, life_time);
                }
                let z = list[j].0;
                if list[j].1.life_time == life_time {
                    let id = list[j].1.id;
                    let mut found: Option<usize> = None;
                    let mut k: usize = 0;
                    while k < out.len()
                        invariant_except_break
                            0 <= k <= out@.len(),
                            found is None,
                            forall|a: int| 0 <= a < k ==> out@[a].0 != (p, z),
                        invariant
                            id_groups_view(out@) == g,
                        ensures
                            match found {
                                Some(k) => k < out@.len() && out@[k as int].0 == (p, z),
                                None => forall|a: int| 0 <= a < out@.len() ==> out@[a].0 != (p, z),
                            },
                        decreases out@.len() - k,
                    {
                        if out[k].0.0 == p && out[k].0.1 == z {
                            found = Some(k);
                            break;
                        }
                        k = k + 1;
                    }
                    match found {
                        Some(k) => {
                            proof {
                                assert(g[k as int].0 == (p, z));
                                assert(has_zone_group(g, (p, z)));
                                let a = zone_group_index(g, (p, z));
                                assert(a == k);
                            }
                            let (key, mut ids) = out.remove(k);
                            ids.push(id);
                            out.insert(k, (key, ids));
                            proof {
                                assert(id_groups_view(out@) =~= grouped_expiring(
                                    before + inner.take(j + 1),
                                    life_time,
                                ));
                            }
                        },
                        None => {
                            proof {
                                assert(!has_zone_group(g, (p, z))) by {
                                    if has_zone_group(g, (p, z)) {
                                        let a = choose|a: int| 0 <= a < g.len() && g[a].0 == (p, z);
                                        assert(out@[a].0 == g[a].0);
                                    }
                                }
                            }
                            let mut ids: Vec<ModifierRef> = Vec::new();
                            ids.push(id);
                            out.push(((p, z), ids));
                            proof {
                                assert(id_groups_view(out@) =~= grouped_expiring(
                                    before + inner.take(j + 1),
                                    life_time,
                                ));
                            }
                        },
                    }
                } else {
                    proof {
                        assert(id_groups_view(out@) =~= grouped_expiring(
                            before + inner.take(j + 1),
                            life_time,
                        ));
                    }
                }
                j = j + 1;
            }
            proof {
                assert(inner.take(list@.len() as int) =~= inner);
            }
            i = i + 1;
        }
        assert(entries@.take(entries@.len() as int) =~= entries@);
        out
    }
}

// ------------------------------------------------------------------
// what modifiers do to arts and dice
// ------------------------------------------------------------------

/// The markers of an art's damage; an uncertain damage has no number.
pub open spec fn base_art_damage(d: HoloMemberArtDamage) -> Option<usize> {
    match d {
        HoloMemberArtDamage::Basic(x) => Some((x / 10) as usize),
        HoloMemberArtDamage::Plus(x) => Some((x / 10) as usize),
        HoloMemberArtDamage::Minus(x) => Some((x / 10) as usize),
        HoloMemberArtDamage::Multiple(x) => Some((x / 10) as usize),
        HoloMemberArtDamage::Uncertain => None,
    }
}

/// The damage with what each modifier that adds damage adds, in markers, at most the largest
/// number.
pub open spec fn with_more_damage(dmg: usize, ms: Seq<ModifierV>) -> usize
    decreases ms.len(),
{
    if ms.len() == 0 {
        dmg
    } else {
        let before = with_more_damage(dmg, ms.drop_last());
        match ms.last().kind {
            ModifierKindV::MoreDamage(hp) => {
                let more = ((hp as u16) / 10) as usize;
                if before + more > usize::MAX {
                    usize::MAX
                } else {
                    (before + more) as usize
                }
            },
            _ => before,
        }
    }
}

/// The roll that a player's modifiers set for the next die: the first modifier that sets
/// one decides; it is used up when it lasts until removed, and otherwise the die is rolled.
pub open spec fn spec_next_dice_roll(ms: Seq<ModifierV>) -> Option<(u8, ModifierRef)>
    decreases ms.len(),
{
    if ms.len() == 0 {
        None
    } else {
        match ms[0].kind {
            ModifierKindV::NextDiceRoll(n) => if ms[0].life_time == LifeTime::UntilRemoved {
                Some((n as u8, ms[0].id))
            } else {
                None
            },
            _ => spec_next_dice_roll(ms.drop_first()),
        }
    }
}

impl GameState {
    /// The damage of an art of a member: the art's damage in markers, and more for each
    /// modifier of the member that adds damage.
    pub fn art_damage(&self, card: CardRef, damage: HoloMemberArtDamage) -> (res: DamageMarkers)
        requires
            self.is_registered(card),
            punique_keys(self.zone_modifiers@),
            base_art_damage(damage) is Some,
        ensures
            res.0 == with_more_damage(base_art_damage(damage)->0, self.spec_find_modifiers(card)),
    {
        let mut dmg = match damage {
            HoloMemberArtDamage::Basic(x) => DamageMarkers::from_hp(x),
            HoloMemberArtDamage::Plus(x) => DamageMarkers::from_hp(x),
            HoloMemberArtDamage::Minus(x) => DamageMarkers::from_hp(x),
            HoloMemberArtDamage::Multiple(x) => DamageMarkers::from_hp(x),
            HoloMemberArtDamage::Uncertain => DamageMarkers(0),
        };
        let mods = self.find_modifiers(card);
        let ghost base = dmg.0;
        let ghost ms = modifier_views(mods@);
        let mut i: usize = 0;
        assert(ms.take(0) =~= Seq::<ModifierV>::empty());
        while i < mods.len()
            invariant
                0 <= i <= mods@.len(),
                ms == modifier_views(mods@),
                dmg.0 == with_more_damage(base, ms.take(i as int)),
            decreases mods@.len() - i,
        {
            proof {
                assert(ms.take(i + 1).drop_last() =~= ms.take(i as int));
                assert(ms.take(i + 1).last() == mods@[i as int]@);
            }
            match mods[i].kind {
                ModifierKind::MoreDamage(hp) => {
                    dmg = dmg.add_markers(DamageMarkers::from_hp(#[verifier::truncate] (hp as u16)));
                },
                _ => {},
            }
            i = i + 1;
        }
        assert(ms.take(ms.len() as int) =~= ms);
        dmg
    }

    /// The roll that a player's modifiers set for the next die, and the modifier that is then
    /// used up; none when the die is rolled.
    pub fn next_dice_roll(&self, player: Player) -> (res: Option<(u8, ModifierRef)>)
        requires
            player != Player::Both,
            crate::state::spec_board(*self, player).oshi is Some,
            self.is_registered(crate::state::spec_board(*self, player).oshi.unwrap()),
            punique_keys(self.zone_modifiers@),
        ensures
            res == spec_next_dice_roll(
                self.spec_find_modifiers(crate::state::spec_board(*self, player).oshi.unwrap()),
            ),
    {
        let mods = self.find_player_modifiers(player);
        let ghost ms = modifier_views(mods@);
        let mut i: usize = 0;
        assert(ms.skip(0) =~= ms);
        while i < mods.len()
            invariant
                0 <= i <= mods@.len(),
                ms == modifier_views(mods@),
                ms == self.spec_find_modifiers(crate::state::spec_board(*self, player).oshi.unwrap()),
                spec_next_dice_roll(ms) == spec_next_dice_roll(ms.skip(i as int)),
            decreases mods@.len() - i,
        {
            proof {
                assert(ms.skip(i as int)[0] == mods@[i as int]@);
                assert(ms.skip(i as int).drop_first() =~= ms.skip(i + 1));
            }
            match mods[i].kind {
                ModifierKind::NextDiceRoll(n) => {
                    if mods[i].life_time == LifeTime::UntilRemoved {
                        return Some((#[verifier::truncate] (n as u8), mods[i].id));
                    } else {
                        return None;
                    }
                },
                _ => {},
            }
            i = i + 1;
        }
        assert(ms.skip(ms.len() as int) =~= Seq::<ModifierV>::empty());
        None
    }
}

} // verus!
