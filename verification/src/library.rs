use vstd::prelude::*;

use crate::card_effects::effects::{
    action_views, condition_views, spec_vec_action_tokens, spec_vec_condition_tokens,
    vec_action_eq, vec_condition_eq, lemma_action_views_push, lemma_condition_views_push, Action,
    ActionV, Condition, ConditionV,
};
use crate::card_effects::parse::{spec_text, SerializeEffect};
use crate::card_effects::trigger::Trigger;
use crate::card_effects::{
    parse_effect_actions, parse_effect_conditions, spec_parse_effect_actions,
    spec_parse_effect_conditions,
};
use crate::cards::{
    spec_card_number, Card, CheerCard, HoloMemberAbility, HoloMemberArt, HoloMemberCard,
    OshiHoloMemberCard, OshiSkill, SupportCard, SupportEffect,
};

verus! {

/// Every card that can be played, by card number.
#[derive(Debug)]
pub struct GlobalLibrary {
    pub cards: Vec<(String, Card)>,
}

/// The numbers of the cards of a library, in order.
pub open spec fn library_numbers(cards: Seq<(String, Card)>) -> Seq<Seq<char>> {
    cards.map_values(|p: (String, Card)| p.0@)
}

impl GlobalLibrary {
    /// A library lists each card number once.
    pub open spec fn wf(&self) -> bool {
        library_numbers(self.cards@).no_duplicates()
    }

    /// Whether the library has a card of that number.
    pub open spec fn has_card(&self, n: Seq<char>) -> bool {
        library_numbers(self.cards@).contains(n)
    }

    /// The position of the first card of that number.
    pub open spec fn card_index(&self, n: Seq<char>) -> int {
        choose|i: int|
            0 <= i < self.cards@.len() && self.cards@[i].0@ == n && forall|j: int|
                0 <= j < i ==> self.cards@[j].0@ != n
    }

    /// The card of that number: the first one listed under it.
    pub open spec fn spec_lookup(&self, n: Seq<char>) -> Card {
        self.cards@[self.card_index(n)].1
    }

    /// An empty library.
    pub fn new() -> (res: GlobalLibrary)
        ensures
            res.cards@.len() == 0,
            res.wf(),
    {
        let res = GlobalLibrary { cards: Vec::new() };
        assert(library_numbers(res.cards@) =~= Seq::<Seq<char>>::empty());
        res
    }

    /// Adds a card under its own number, in place of a card listed under that number.
    pub fn insert_card(&mut self, card: Card)
        ensures
            old(self).wf() ==> final(self).wf(),
            final(self).has_card(spec_card_number(card)),
            final(self).spec_lookup(spec_card_number(card)) == card,
            forall|n: Seq<char>|
                n != spec_card_number(card) ==> (final(self).has_card(n) == old(self).has_card(n)
                    && (final(self).has_card(n) ==> final(self).spec_lookup(n) == old(self).spec_lookup(n))),
    {
        let number = card.card_number().clone();
        let ghost l1 = *self;
        match self.position(&number) {
            Some(i) => {
                self.cards.remove(i);
                self.cards.insert(i, (number, card));
                proof {
                    assert(self.cards@ =~= l1.cards@.update(i as int, self.cards@[i as int]));
                    lemma_first(*self, number@, i as int);
                    assert(library_numbers(self.cards@) =~= library_numbers(l1.cards@));
                    assert forall|n: Seq<char>|
                        n != spec_card_number(card) && #[trigger] self.has_card(n) implies self.spec_lookup(n)
                        == l1.spec_lookup(n) by {
                        let w = choose|j: int| 0 <= j < self.cards@.len() && library_numbers(self.cards@)[j] == n;
                        lemma_first_exists(l1, n, w);
                        let k = l1.card_index(n);
                        lemma_first(l1, n, k);
                        lemma_first(*self, n, k);
                    }
                }
            },
            None => {
                self.cards.push((number, card));
                proof {
                    assert forall|j: int| 0 <= j < l1.cards@.len() implies self.cards@[j].0@ != number@ by {
                        assert(library_numbers(l1.cards@)[j] == l1.cards@[j].0@);
                    }
                    lemma_first(*self, number@, self.cards@.len() - 1);
                    assert(library_numbers(self.cards@) =~= library_numbers(l1.cards@).push(number@));
                    if l1.wf() {
                        let ns = library_numbers(self.cards@);
                        assert forall|a: int, b: int| 0 <= a < ns.len() && 0 <= b < ns.len() && a != b implies ns[a] != ns[b] by {
                            if a == ns.len() - 1 {
                                assert(ns[b] == library_numbers(l1.cards@)[b]);
                                assert(l1.cards@[b].0@ != number@);
                            } else if b == ns.len() - 1 {
                                assert(ns[a] == library_numbers(l1.cards@)[a]);
                                assert(l1.cards@[a].0@ != number@);
                            } else {
                                assert(ns[a] == library_numbers(l1.cards@)[a]);
                                assert(ns[b] == library_numbers(l1.cards@)[b]);
                            }
                        }
                    }
                    assert forall|n: Seq<char>|
                        n != spec_card_number(card) && #[trigger] self.has_card(n) implies self.spec_lookup(n)
                        == l1.spec_lookup(n) && l1.has_card(n) by {
                        let w = choose|j: int| 0 <= j < self.cards@.len() && library_numbers(self.cards@)[j] == n;
                        assert(w < l1.cards@.len());
                        assert(library_numbers(l1.cards@)[w] == n);
                        lemma_first_exists(l1, n, w);
                        let k = l1.card_index(n);
                        lemma_first(l1, n, k);
                        lemma_first(*self, n, k);
                    }
                    assert forall|n: Seq<char>| n != spec_card_number(card) && #[trigger] l1.has_card(n) implies self.has_card(n) by {
                        let w = choose|j: int| 0 <= j < l1.cards@.len() && library_numbers(l1.cards@)[j] == n;
                        assert(library_numbers(self.cards@)[w] == n);
                    }
                }
            },
        }
    }

    fn position(&self, number: &String) -> (res: Option<usize>)
        ensures
            match res {
                Some(i) => i < self.cards@.len() && self.cards@[i as int].0@ == number@ && forall|
                    j: int,
                | 0 <= j < i ==> self.cards@[j].0@ != number@,
                None => !self.has_card(number@),
            },
    {
        let mut i: usize = 0;
        while i < self.cards.len()
            invariant
                0 <= i <= self.cards@.len(),
                forall|j: int| 0 <= j < i ==> self.cards@[j].0@ != number@,
            decreases self.cards@.len() - i,
        {
            if self.cards[i].0 == *number {
                return Some(i);
            }
            i = i + 1;
        }
        proof {
            assert forall|j: int| 0 <= j < self.cards@.len() implies library_numbers(self.cards@)[j]
                != number@ by {
                assert(self.cards@[j].0@ != number@);
            }
        }
        None
    }

    /// The card of that number. The library must have it.
    pub fn lookup_card(&self, card_number: &String) -> (res: &Card)
        requires
            self.has_card(card_number@),
        ensures
            *res == self.spec_lookup(card_number@),
    {
        match self.position(card_number) {
            Some(i) => {
                proof {
                    lemma_first(*self, card_number@, i as int);
                }
                &self.cards[i].1
            },
            None => {
                proof {
                    assert(false);
                }
                &self.cards[0].1
            },
        }
    }

    pub fn is_oshi(&self, card_number: &String) -> (res: bool)
        requires
            self.has_card(card_number@),
        ensures
            res == (self.spec_lookup(card_number@) is OshiHoloMember),
    {
        matches!(self.lookup_card(card_number), Card::OshiHoloMember(_))
    }

    pub fn lookup_oshi(&self, card_number: &String) -> (res: Option<&OshiHoloMemberCard>)
        requires
            self.has_card(card_number@),
        ensures
            match self.spec_lookup(card_number@) {
                Card::OshiHoloMember(o) => res == Some(&o),
                _ => res is None,
            },
    {
        if let Card::OshiHoloMember(o) = self.lookup_card(card_number) {
            Some(o)
        } else {
            None
        }
    }

    pub fn is_holo_member(&self, card_number: &String) -> (res: bool)
        requires
            self.has_card(card_number@),
        ensures
            res == (self.spec_lookup(card_number@) is HoloMember),
    {
        matches!(self.lookup_card(card_number), Card::HoloMember(_))
    }

    pub fn lookup_holo_member(&self, card_number: &String) -> (res: Option<&HoloMemberCard>)
        requires
            self.has_card(card_number@),
        ensures
            match self.spec_lookup(card_number@) {
                Card::HoloMember(m) => res == Some(&m),
                _ => res is None,
            },
    {
        if let Card::HoloMember(m) = self.lookup_card(card_number) {
            Some(m)
        } else {
            None
        }
    }

    pub fn is_support(&self, card_number: &String) -> (res: bool)
        requires
            self.has_card(card_number@),
        ensures
            res == (self.spec_lookup(card_number@) is Support),
    {
        matches!(self.lookup_card(card_number), Card::Support(_))
    }

    pub fn lookup_support(&self, card_number: &String) -> (res: Option<&SupportCard>)
        requires
            self.has_card(card_number@),
        ensures
            match self.spec_lookup(card_number@) {
                Card::Support(s) => res == Some(&s),
                _ => res is None,
            },
    {
        if let Card::Support(s) = self.lookup_card(card_number) {
            Some(s)
        } else {
            None
        }
    }

    pub fn is_cheer(&self, card_number: &String) -> (res: bool)
        requires
            self.has_card(card_number@),
        ensures
            res == (self.spec_lookup(card_number@) is Cheer),
    {
        matches!(self.lookup_card(card_number), Card::Cheer(_))
    }

    pub fn lookup_cheer(&self, card_number: &String) -> (res: Option<&CheerCard>)
        requires
            self.has_card(card_number@),
        ensures
            match self.spec_lookup(card_number@) {
                Card::Cheer(c) => res == Some(&c),
                _ => res is None,
            },
    {
        if let Card::Cheer(c) = self.lookup_card(card_number) {
            Some(c)
        } else {
            None
        }
    }
}

proof fn lemma_first(lib: GlobalLibrary, n: Seq<char>, i: int)
    requires
        0 <= i < lib.cards@.len(),
        lib.cards@[i].0@ == n,
        forall|j: int| 0 <= j < i ==> lib.cards@[j].0@ != n,
    ensures
        lib.card_index(n) == i,
        lib.has_card(n),
{
    let k = lib.card_index(n);
    assert(library_numbers(lib.cards@)[i] == n);
    if k < i {
        assert(lib.cards@[k].0@ != n);
    }
    if i < k {
        assert(lib.cards@[i].0@ != n);
    }
}

proof fn lemma_first_exists(lib: GlobalLibrary, n: Seq<char>, w: int)
    requires
        0 <= w < lib.cards@.len(),
        library_numbers(lib.cards@)[w] == n,
    ensures
        exists|i: int|
            0 <= i < lib.cards@.len() && lib.cards@[i].0@ == n && forall|j: int|
                0 <= j < i ==> lib.cards@[j].0@ != n,
    decreases w,
{
    if exists|j: int| 0 <= j < w && lib.cards@[j].0@ == n {
        let j = choose|j: int| 0 <= j < w && lib.cards@[j].0@ == n;
        assert(library_numbers(lib.cards@)[j] == n);
        lemma_first_exists(lib, n, j);
    } else {
        assert(lib.cards@[w].0@ == n);
    }
}

// ------------------------------------------------------------------
// filling in what card files leave out, and checking effects
// ------------------------------------------------------------------

/// The picture of a card that has none.
pub open spec fn default_url() -> Seq<char> {
    "https://qrimpuff.github.io/hocg-fan-sim-assets/img/card-back.webp"@
}

pub open spec fn filled_url(o: String, n: String) -> bool {
    n@ == if o@.len() == 0 {
        default_url()
    } else {
        o@
    }
}

/// No triggers means never; no condition means always; no effect means no action.
pub open spec fn filled_triggers(t: Seq<Trigger>) -> Seq<Trigger> {
    if t.len() == 0 {
        seq![Trigger::Never]
    } else {
        t
    }
}

pub open spec fn filled_conditions(c: Seq<ConditionV>) -> Seq<ConditionV> {
    if c.len() == 0 {
        seq![ConditionV::True]
    } else {
        c
    }
}

pub open spec fn filled_actions(a: Seq<ActionV>) -> Seq<ActionV> {
    if a.len() == 0 {
        seq![ActionV::Noop]
    } else {
        a
    }
}

pub open spec fn skill_filled(o: OshiSkill, n: OshiSkill) -> bool {
    &&& n.kind == o.kind
    &&& n.name == o.name
    &&& n.cost == o.cost
    &&& n.text == o.text
    &&& n.triggers@ == filled_triggers(o.triggers@)
    &&& condition_views(n.condition@) == filled_conditions(condition_views(o.condition@))
    &&& action_views(n.effect@) == filled_actions(action_views(o.effect@))
}

pub open spec fn ability_filled(o: HoloMemberAbility, n: HoloMemberAbility) -> bool {
    &&& n.kind == o.kind
    &&& n.name == o.name
    &&& n.text == o.text
    &&& condition_views(n.condition@) == filled_conditions(condition_views(o.condition@))
    &&& action_views(n.effect@) == filled_actions(action_views(o.effect@))
}

pub open spec fn art_filled(o: HoloMemberArt, n: HoloMemberArt) -> bool {
    &&& n.name == o.name
    &&& n.cost == o.cost
    &&& n.damage == o.damage
    &&& n.special_damage == o.special_damage
    &&& n.text == o.text
    &&& condition_views(n.condition@) == filled_conditions(condition_views(o.condition@))
    &&& action_views(n.effect@) == filled_actions(action_views(o.effect@))
}

pub open spec fn support_effect_filled(o: SupportEffect, n: SupportEffect) -> bool {
    &&& n.triggers@ == filled_triggers(o.triggers@)
    &&& condition_views(n.condition@) == filled_conditions(condition_views(o.condition@))
    &&& action_views(n.effect@) == filled_actions(action_views(o.effect@))
}

/// A card with what its file left out filled in: the picture, and the triggers, conditions
/// and effects of its skills, abilities, arts and effects.
pub open spec fn card_filled(o: Card, n: Card) -> bool {
    match (o, n) {
        (Card::OshiHoloMember(a), Card::OshiHoloMember(b)) => {
            &&& filled_url(a.illustration_url, b.illustration_url)
            &&& b.card_number == a.card_number && b.name == a.name && b.color == a.color
            &&& b.life == a.life && b.rarity == a.rarity && b.artist == a.artist
            &&& b.skills@.len() == a.skills@.len()
            &&& forall|j: int| 0 <= j < a.skills@.len() ==> skill_filled(a.skills@[j], b.skills@[j])
        },
        (Card::HoloMember(a), Card::HoloMember(b)) => {
            &&& filled_url(a.illustration_url, b.illustration_url)
            &&& b.card_number == a.card_number && b.name == a.name && b.colors == a.colors
            &&& b.hp == a.hp && b.level == a.level && b.hash_tags == a.hash_tags
            &&& b.baton_pass_cost == a.baton_pass_cost && b.attributes == a.attributes
            &&& b.rarity == a.rarity && b.artist == a.artist
            &&& b.abilities@.len() == a.abilities@.len()
            &&& forall|j: int|
                0 <= j < a.abilities@.len() ==> ability_filled(a.abilities@[j], b.abilities@[j])
            &&& b.arts@.len() == a.arts@.len()
            &&& forall|j: int| 0 <= j < a.arts@.len() ==> art_filled(a.arts@[j], b.arts@[j])
        },
        (Card::Support(a), Card::Support(b)) => {
            &&& filled_url(a.illustration_url, b.illustration_url)
            &&& b.card_number == a.card_number && b.name == a.name && b.kind == a.kind
            &&& b.limited == a.limited && b.text == a.text && b.rarity == a.rarity
            &&& b.artist == a.artist
            &&& b.effects@.len() == a.effects@.len()
            &&& forall|j: int|
                0 <= j < a.effects@.len() ==> support_effect_filled(a.effects@[j], b.effects@[j])
        },
        (Card::Cheer(a), Card::Cheer(b)) => {
            &&& filled_url(a.illustration_url, b.illustration_url)
            &&& b.card_number == a.card_number && b.name == a.name && b.color == a.color
            &&& b.text == a.text && b.rarity == a.rarity && b.artist == a.artist
        },
        _ => false,
    }
}

fn fill_url(url: &mut String)
    ensures
        filled_url(*old(url), *final(url)),
{
    if url.as_str().unicode_len() == 0 {
        proof {
            reveal_strlit("https://qrimpuff.github.io/hocg-fan-sim-assets/img/card-back.webp");
        }
        *url = String::from_str("https://qrimpuff.github.io/hocg-fan-sim-assets/img/card-back.webp");
    }
}

fn fill_triggers(t: &mut Vec<Trigger>)
    ensures
        final(t)@ == filled_triggers(old(t)@),
{
    if t.len() == 0 {
        t.push(Trigger::Never);
        assert(t@ =~= seq![Trigger::Never]);
    }
}

fn fill_conditions(c: &mut Vec<Condition>)
    ensures
        condition_views(final(c)@) == filled_conditions(condition_views(old(c)@)),
{
    if c.len() == 0 {
        proof {
            lemma_condition_views_push(c@, Condition::True);
            assert(condition_views(c@) =~= Seq::<ConditionV>::empty());
        }
        c.push(Condition::True);
        assert(condition_views(c@) =~= seq![ConditionV::True]);
    }
}

fn fill_actions(a: &mut Vec<Action>)
    ensures
        action_views(final(a)@) == filled_actions(action_views(old(a)@)),
{
    if a.len() == 0 {
        proof {
            lemma_action_views_push(a@, Action::Noop);
            assert(action_views(a@) =~= Seq::<ActionV>::empty());
        }
        a.push(Action::Noop);
        assert(action_views(a@) =~= seq![ActionV::Noop]);
    }
}

fn fill_skills(v: Vec<OshiSkill>) -> (res: Vec<OshiSkill>)
    ensures
        res@.len() == v@.len(),
        forall|j: int| 0 <= j < v@.len() ==> skill_filled(v@[j], res@[j]),
{
    let ghost v0 = v@;
    let mut rest = v;
    let mut out: Vec<OshiSkill> = Vec::new();
    while rest.len() > 0
        invariant
            out@.len() + rest@.len() == v0.len(),
            rest@ == v0.skip(out@.len() as int),
            forall|j: int| 0 <= j < out@.len() ==> skill_filled(v0[j], out@[j]),
        decreases rest@.len(),
    {
        let mut s = rest.remove(0);
        assert(s == v0[out@.len() as int]);
        fill_triggers(&mut s.triggers);
        fill_conditions(&mut s.condition);
        fill_actions(&mut s.effect);
        out.push(s);
        assert(rest@ =~= v0.skip(out@.len() as int));
    }
    out
}

fn fill_abilities(v: Vec<HoloMemberAbility>) -> (res: Vec<HoloMemberAbility>)
    ensures
        res@.len() == v@.len(),
        forall|j: int| 0 <= j < v@.len() ==> ability_filled(v@[j], res@[j]),
{
    let ghost v0 = v@;
    let mut rest = v;
    let mut out: Vec<HoloMemberAbility> = Vec::new();
    while rest.len() > 0
        invariant
            out@.len() + rest@.len() == v0.len(),
            rest@ == v0.skip(out@.len() as int),
            forall|j: int| 0 <= j < out@.len() ==> ability_filled(v0[j], out@[j]),
        decreases rest@.len(),
    {
        let mut s = rest.remove(0);
        assert(s == v0[out@.len() as int]);
        fill_conditions(&mut s.condition);
        fill_actions(&mut s.effect);
        out.push(s);
        assert(rest@ =~= v0.skip(out@.len() as int));
    }
    out
}

fn fill_arts(v: Vec<HoloMemberArt>) -> (res: Vec<HoloMemberArt>)
    ensures
        res@.len() == v@.len(),
        forall|j: int| 0 <= j < v@.len() ==> art_filled(v@[j], res@[j]),
{
    let ghost v0 = v@;
    let mut rest = v;
    let mut out: Vec<HoloMemberArt> = Vec::new();
    while rest.len() > 0
        invariant
            out@.len() + rest@.len() == v0.len(),
            rest@ == v0.skip(out@.len() as int),
            forall|j: int| 0 <= j < out@.len() ==> art_filled(v0[j], out@[j]),
        decreases rest@.len(),
    {
        let mut s = rest.remove(0);
        assert(s == v0[out@.len() as int]);
        fill_conditions(&mut s.condition);
        fill_actions(&mut s.effect);
        out.push(s);
        assert(rest@ =~= v0.skip(out@.len() as int));
    }
    out
}

fn fill_support_effects(v: Vec<SupportEffect>) -> (res: Vec<SupportEffect>)
    ensures
        res@.len() == v@.len(),
        forall|j: int| 0 <= j < v@.len() ==> support_effect_filled(v@[j], res@[j]),
{
    let ghost v0 = v@;
    let mut rest = v;
    let mut out: Vec<SupportEffect> = Vec::new();
    while rest.len() > 0
        invariant
            out@.len() + rest@.len() == v0.len(),
            rest@ == v0.skip(out@.len() as int),
            forall|j: int| 0 <= j < out@.len() ==> support_effect_filled(v0[j], out@[j]),
        decreases rest@.len(),
    {
        let mut s = rest.remove(0);
        assert(s == v0[out@.len() as int]);
        fill_triggers(&mut s.triggers);
        fill_conditions(&mut s.condition);
        fill_actions(&mut s.effect);
        out.push(s);
        assert(rest@ =~= v0.skip(out@.len() as int));
    }
    out
}

/// Fills in what a card file left out.
pub fn fill_card(card: Card) -> (res: Card)
    ensures
        card_filled(card, res),
{
    match card {
        Card::OshiHoloMember(mut o) => {
            fill_url(&mut o.illustration_url);
            let skills = fill_skills(o.skills);
            Card::OshiHoloMember(OshiHoloMemberCard { skills, ..o })
        },
        Card::HoloMember(mut m) => {
            fill_url(&mut m.illustration_url);
            let abilities = fill_abilities(m.abilities);
            let arts = fill_arts(m.arts);
            Card::HoloMember(HoloMemberCard { abilities, arts, ..m })
        },
        Card::Support(mut s) => {
            fill_url(&mut s.illustration_url);
            let effects = fill_support_effects(s.effects);
            Card::Support(SupportCard { effects, ..s })
        },
        Card::Cheer(mut c) => {
            fill_url(&mut c.illustration_url);
            Card::Cheer(c)
        },
    }
}

/// Writing the conditions and reading them back gives them back, or the default condition.
pub open spec fn conditions_round_trip(cs: Seq<ConditionV>) -> bool {
    match spec_parse_effect_conditions(spec_text(spec_vec_condition_tokens(cs))) {
        Ok(d) => d == cs || d == seq![ConditionV::True],
        Err(_) => false,
    }
}

/// Writing the actions and reading them back gives them back, or the default action.
pub open spec fn actions_round_trip(acts: Seq<ActionV>) -> bool {
    match spec_parse_effect_actions(spec_text(spec_vec_action_tokens(acts))) {
        Ok(d) => d == acts || d == seq![ActionV::Noop],
        Err(_) => false,
    }
}

/// Whether the effects of a card, once filled in, survive being written and read back.
pub open spec fn card_round_trips(c: Card) -> bool {
    match c {
        Card::OshiHoloMember(o) => forall|j: int|
            0 <= j < o.skills@.len() ==> entry_round_trips(
                #[trigger] o.skills@[j].condition@,
                o.skills@[j].effect@,
            ),
        Card::HoloMember(m) => (forall|j: int|
            0 <= j < m.abilities@.len() ==> entry_round_trips(
                #[trigger] m.abilities@[j].condition@,
                m.abilities@[j].effect@,
            )) && (forall|j: int|
            0 <= j < m.arts@.len() ==> entry_round_trips(
                #[trigger] m.arts@[j].condition@,
                m.arts@[j].effect@,
            )),
        Card::Support(s) => forall|j: int|
            0 <= j < s.effects@.len() ==> entry_round_trips(
                #[trigger] s.effects@[j].condition@,
                s.effects@[j].effect@,
            ),
        Card::Cheer(_) => true,
    }
}

fn conditions_round_trip_exec(cs: &Vec<Condition>) -> (res: bool)
    ensures
        res == conditions_round_trip(filled_conditions(condition_views(cs@))),
{
    let mut filled: Vec<Condition> = Vec::new();
    let mut used = cs;
    if cs.len() == 0 {
        filled.push(Condition::True);
        proof {
            assert(condition_views(filled@) =~= seq![ConditionV::True]) by {
                lemma_condition_views_push(Seq::<Condition>::empty(), Condition::True);
                assert(condition_views(Seq::<Condition>::empty()) =~= Seq::<ConditionV>::empty());
                assert(filled@ =~= Seq::<Condition>::empty().push(Condition::True));
            }
        }
        used = &filled;
    }
    let text = used.serialize_effect();
    match parse_effect_conditions(text.as_str()) {
        Ok(d) => {
            let mut default: Vec<Condition> = Vec::new();
            default.push(Condition::True);
            proof {
                lemma_condition_views_push(Seq::<Condition>::empty(), Condition::True);
                assert(condition_views(Seq::<Condition>::empty()) =~= Seq::<ConditionV>::empty());
                assert(default@ =~= Seq::<Condition>::empty().push(Condition::True));
            }
            vec_condition_eq(&d, used) || vec_condition_eq(&d, &default)
        },
        Err(_) => false,
    }
}

fn actions_round_trip_exec(acts: &Vec<Action>) -> (res: bool)
    ensures
        res == actions_round_trip(filled_actions(action_views(acts@))),
{
    let mut filled: Vec<Action> = Vec::new();
    let mut used = acts;
    if acts.len() == 0 {
        filled.push(Action::Noop);
        proof {
            assert(action_views(filled@) =~= seq![ActionV::Noop]) by {
                lemma_action_views_push(Seq::<Action>::empty(), Action::Noop);
                assert(action_views(Seq::<Action>::empty()) =~= Seq::<ActionV>::empty());
                assert(filled@ =~= Seq::<Action>::empty().push(Action::Noop));
            }
        }
        used = &filled;
    }
    let text = used.serialize_effect();
    match parse_effect_actions(text.as_str()) {
        Ok(d) => {
            let mut default: Vec<Action> = Vec::new();
            default.push(Action::Noop);
            proof {
                lemma_action_views_push(Seq::<Action>::empty(), Action::Noop);
                assert(action_views(Seq::<Action>::empty()) =~= Seq::<ActionV>::empty());
                assert(default@ =~= Seq::<Action>::empty().push(Action::Noop));
            }
            vec_action_eq(&d, used) || vec_action_eq(&d, &default)
        },
        Err(_) => false,
    }
}

pub open spec fn entry_round_trips(c: Seq<Condition>, e: Seq<Action>) -> bool {
    conditions_round_trip(filled_conditions(condition_views(c))) && actions_round_trip(
        filled_actions(action_views(e)),
    )
}

fn skills_round_trip(v: &Vec<OshiSkill>) -> (res: bool)
    ensures
        res == forall|j: int|
            0 <= j < v@.len() ==> entry_round_trips(#[trigger] v@[j].condition@, v@[j].effect@),
{
    let mut j: usize = 0;
    while j < v.len()
        invariant
            0 <= j <= v@.len(),
            forall|k: int| 0 <= k < j ==> entry_round_trips(#[trigger] v@[k].condition@, v@[k].effect@),
        decreases v@.len() - j,
    {
        if !conditions_round_trip_exec(&v[j].condition) || !actions_round_trip_exec(&v[j].effect) {
            assert(!entry_round_trips(v@[j as int].condition@, v@[j as int].effect@));
            return false;
        }
        j = j + 1;
    }
    true
}

fn abilities_round_trip(v: &Vec<HoloMemberAbility>) -> (res: bool)
    ensures
        res == forall|j: int|
            0 <= j < v@.len() ==> entry_round_trips(#[trigger] v@[j].condition@, v@[j].effect@),
{
    let mut j: usize = 0;
    while j < v.len()
        invariant
            0 <= j <= v@.len(),
            forall|k: int| 0 <= k < j ==> entry_round_trips(#[trigger] v@[k].condition@, v@[k].effect@),
        decreases v@.len() - j,
    {
        if !conditions_round_trip_exec(&v[j].condition) || !actions_round_trip_exec(&v[j].effect) {
            assert(!entry_round_trips(v@[j as int].condition@, v@[j as int].effect@));
            return false;
        }
        j = j + 1;
    }
    true
}

fn arts_round_trip(v: &Vec<HoloMemberArt>) -> (res: bool)
    ensures
        res == forall|j: int|
            0 <= j < v@.len() ==> entry_round_trips(#[trigger] v@[j].condition@, v@[j].effect@),
{
    let mut j: usize = 0;
    while j < v.len()
        invariant
            0 <= j <= v@.len(),
            forall|k: int| 0 <= k < j ==> entry_round_trips(#[trigger] v@[k].condition@, v@[k].effect@),
        decreases v@.len() - j,
    {
        if !conditions_round_trip_exec(&v[j].condition) || !actions_round_trip_exec(&v[j].effect) {
            assert(!entry_round_trips(v@[j as int].condition@, v@[j as int].effect@));
            return false;
        }
        j = j + 1;
    }
    true
}

fn support_effects_round_trip(v: &Vec<SupportEffect>) -> (res: bool)
    ensures
        res == forall|j: int|
            0 <= j < v@.len() ==> entry_round_trips(#[trigger] v@[j].condition@, v@[j].effect@),
{
    let mut j: usize = 0;
    while j < v.len()
        invariant
            0 <= j <= v@.len(),
            forall|k: int| 0 <= k < j ==> entry_round_trips(#[trigger] v@[k].condition@, v@[k].effect@),
        decreases v@.len() - j,
    {
        if !conditions_round_trip_exec(&v[j].condition) || !actions_round_trip_exec(&v[j].effect) {
            assert(!entry_round_trips(v@[j as int].condition@, v@[j as int].effect@));
            return false;
        }
        j = j + 1;
    }
    true
}

/// Whether the effects of a card, once filled in, survive being written and read back.
pub fn card_effects_round_trip(card: &Card) -> (res: bool)
    ensures
        res == card_round_trips(*card),
{
    match card {
        Card::OshiHoloMember(o) => skills_round_trip(&o.skills),
        Card::HoloMember(m) => abilities_round_trip(&m.abilities) && arts_round_trip(&m.arts),
        Card::Support(s) => support_effects_round_trip(&s.effects),
        Card::Cheer(_) => true,
    }
}

impl GlobalLibrary {
    /// Whether every card's effects, once filled in, survive being written and read back.
    pub open spec fn round_trips(&self) -> bool {
        forall|i: int| 0 <= i < self.cards@.len() ==> card_round_trips(#[trigger] self.cards@[i].1)
    }

    /// Whether every card's effects, once filled in, survive being written and read back.
    pub fn effects_round_trip(&self) -> (res: bool)
        ensures
            res == self.round_trips(),
    {
        let mut i: usize = 0;
        while i < self.cards.len()
            invariant
                0 <= i <= self.cards@.len(),
                forall|k: int| 0 <= k < i ==> card_round_trips(#[trigger] self.cards@[k].1),
            decreases self.cards@.len() - i,
        {
            if !card_effects_round_trip(&self.cards[i].1) {
                assert(!card_round_trips(self.cards@[i as int].1));
                return false;
            }
            i = i + 1;
        }
        true
    }

    /// Fills in what the card files left out: a picture, and the trigger, condition and effect
    /// that stand for none. Every effect must then survive being written and read back.
    pub fn pre_process(&mut self)
        requires
            old(self).round_trips(),
        ensures
            final(self).cards@.len() == old(self).cards@.len(),
            forall|i: int|
                0 <= i < old(self).cards@.len() ==> (#[trigger] final(self).cards@[i]).0
                    == old(self).cards@[i].0 && card_filled(
                    old(self).cards@[i].1,
                    final(self).cards@[i].1,
                ),
            old(self).wf() ==> final(self).wf(),
    {
        let ghost c0 = self.cards@;
        let mut i: usize = 0;
        while i < self.cards.len()
            invariant
                0 <= i <= self.cards@.len(),
                self.cards@.len() == c0.len(),
                forall|k: int| i <= k < c0.len() ==> #[trigger] self.cards@[k] == c0[k],
                forall|k: int|
                    0 <= k < i ==> (#[trigger] self.cards@[k]).0 == c0[k].0 && card_filled(
                        c0[k].1,
                        self.cards@[k].1,
                    ),
            decreases self.cards@.len() - i,
        {
            let ghost before = self.cards@;
            let (number, card) = self.cards.remove(i);
            assert(card == c0[i as int].1 && number == c0[i as int].0) by {
                assert(before[i as int] == c0[i as int]);
            }
            let filled = fill_card(card);
            self.cards.insert(i, (number, filled));
            assert(self.cards@ =~= before.update(i as int, (number, filled)));
            assert forall|k: int| 0 <= k < i + 1 implies (#[trigger] self.cards@[k]).0 == c0[k].0
                && card_filled(c0[k].1, self.cards@[k].1) by {
                if k < i {
                    assert(self.cards@[k] == before[k]);
                }
            }
            i = i + 1;
        }
        proof {
            assert(library_numbers(self.cards@) =~= library_numbers(c0));
        }
    }
}

/// A set of cards.
#[derive(Debug)]
pub struct CardSet {
    pub number: String,
    pub name: String,
}

/// The cards that a player brings: an oshi, a main deck and a cheer deck.
#[derive(Debug, Clone)]
pub struct Loadout {
    pub oshi: String,
    pub main_deck: Vec<String>,
    pub cheer_deck: Vec<String>,
}

} // verus!
