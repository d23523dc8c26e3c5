use vstd::prelude::*;

use crate::actions::{collect, lemma_collect_prefix, lookup, members_among, MAX_MEMBERS_ON_STAGE};
use crate::cards::{same_attribute, Card, HoloMemberExtraAttribute};
use crate::board::GameBoard;
use crate::gameplay::{CardRef, Player, Zone};
use crate::library::GlobalLibrary;
use crate::modifiers::{DamageMarkers, ModifierKind, ModifierKindV};
use crate::rules::has_kind;
use crate::state::{card_damage, punique_keys, spec_board, GameState};

verus! {

// ------------------------------------------------------------------
// cards by player
// ------------------------------------------------------------------

/// The owner of a card, as the groups see it.
#[verifier::opaque]
pub open spec fn owner_of(s: GameState, c: CardRef) -> Player {
    s.owner(c)
}

/// Each player has one group at most.
pub open spec fn distinct_players(g: Seq<(Player, Seq<CardRef>)>) -> bool {
    forall|i: int, j: int| 0 <= i < j < g.len() ==> g[i].0 != g[j].0
}

pub open spec fn player_group_index(g: Seq<(Player, Seq<CardRef>)>, p: Player) -> int {
    choose|i: int| 0 <= i < g.len() && g[i].0 == p
}

pub open spec fn has_player_group(g: Seq<(Player, Seq<CardRef>)>, p: Player) -> bool {
    exists|i: int| 0 <= i < g.len() && g[i].0 == p
}

/// The cards grouped by their owner: the groups in the order in which their owners first
/// come, and the cards of a group in their order.
pub open spec fn grouped_by_player(s: GameState, cards: Seq<CardRef>) -> Seq<(Player, Seq<CardRef>)>
    decreases cards.len(),
{
    if cards.len() == 0 {
        Seq::empty()
    } else {
        let g = grouped_by_player(s, cards.drop_last());
        let c = cards.last();
        let p = owner_of(s, c);
        if has_player_group(g, p) {
            let i = player_group_index(g, p);
            g.update(i, (p, g[i].1.push(c)))
        } else {
            g.push((p, seq![c]))
        }
    }
}

pub open spec fn player_groups_view(g: Seq<(Player, Vec<CardRef>)>) -> Seq<(Player, Seq<CardRef>)> {
    g.map_values(|x: (Player, Vec<CardRef>)| (x.0, x.1@))
}

proof fn lemma_player_groups_distinct(s: GameState, cards: Seq<CardRef>)
    ensures
        distinct_players(grouped_by_player(s, cards)),
    decreases cards.len(),
{
    if cards.len() > 0 {
        lemma_player_groups_distinct(s, cards.drop_last());
    }
}

impl GameState {
    fn owner_exec(&self, c: CardRef) -> (res: Player)
        requires
            crate::state::has_entry(self.card_map@, c),
        ensures
            res == owner_of(*self, c),
    {
        reveal(owner_of);
        self.player_for_card(c)
    }

    /// The cards grouped by their owner.
    pub fn group_by_player(&self, cards: &Vec<CardRef>) -> (res: Vec<(Player, Vec<CardRef>)>)
        requires
            forall|i: int| 0 <= i < cards@.len() ==> crate::state::has_entry(self.card_map@, #[trigger] cards@[i]),
        ensures
            player_groups_view(res@) == grouped_by_player(*self, cards@),
    {
        let mut res: Vec<(Player, Vec<CardRef>)> = Vec::new();
        let mut k: usize = 0;
        while k < cards.len()
            invariant
                0 <= k <= cards@.len(),
                forall|i: int| 0 <= i < cards@.len() ==> crate::state::has_entry(self.card_map@, #[trigger] cards@[i]),
                player_groups_view(res@) == grouped_by_player(*self, cards@.take(k as int)),
            decreases cards@.len() - k,
        {
            let c = cards[k];
            assert(crate::state::has_entry(self.card_map@, cards@[k as int]));
            let p = self.owner_exec(c);
            proof {
                assert(cards@.take(k + 1).drop_last() =~= cards@.take(k as int));
                lemma_player_groups_distinct(*self, cards@.take(k as int));
            }
            let ghost g = grouped_by_player(*self, cards@.take(k as int));
            let mut found: Option<usize> = None;
            let mut j: usize = 0;
            while j < res.len()
                invariant_except_break
                    0 <= j <= res@.len(),
                    found is None,
                    forall|i: int| 0 <= i < j ==> res@[i].0 != p,
                invariant
                    player_groups_view(res@) == g,
                ensures
                    match found {
                        Some(j) => j < res@.len() && res@[j as int].0 == p,
                        None => forall|i: int| 0 <= i < res@.len() ==> res@[i].0 != p,
                    },
                decreases res@.len() - j,
            {
                if res[j].0 == p {
                    found = Some(j);
                    break;
                }
                j = j + 1;
            }
            match found {
                Some(j) => {
                    proof {
                        assert(g[j as int].0 == p);
                        assert(has_player_group(g, p));
                        let i = player_group_index(g, p);
                        assert(distinct_players(g));
                        assert(i == j);
                    }
                    let (p0, mut group) = res.remove(j);
                    group.push(c);
                    res.insert(j, (p0, group));
                    proof {
                        assert(player_groups_view(res@) =~= grouped_by_player(*self, cards@.take(k + 1)));
                    }
                },
                None => {
                    proof {
                        assert(!has_player_group(g, p)) by {
                            if has_player_group(g, p) {
                                let i = choose|i: int| 0 <= i < g.len() && g[i].0 == p;
                                assert(res@[i].0 == g[i].0);
                            }
                        }
                    }
                    let mut group: Vec<CardRef> = Vec::new();
                    group.push(c);
                    res.push((p, group));
                    proof {
                        assert(player_groups_view(res@) =~= grouped_by_player(*self, cards@.take(k + 1)));
                    }
                },
            }
            k = k + 1;
        }
        proof {
            assert(cards@.take(cards@.len() as int) =~= cards@);
        }
        res
    }
}

// ------------------------------------------------------------------
// defeated members and lost lives
// ------------------------------------------------------------------

/// The hp a member has left: its hp less its damage, at least 0; `None` when the card is not
/// a member of the library, or its damage in hp does not fit a `u16`.
pub open spec fn hp_left(s: GameState, lib: GlobalLibrary, c: CardRef) -> Option<int> {
    match lookup(s, lib, c) {
        Some(Card::HoloMember(m)) => {
            let dmg = (card_damage(s.card_damage_markers@, c) % 0x10000) * 10;
            if dmg <= u16::MAX {
                Some(
                    if m.hp < dmg {
                        0
                    } else {
                        m.hp - dmg
                    },
                )
            } else {
                None
            }
        },
        _ => None,
    }
}

pub open spec fn defeated_fn(s: GameState, lib: GlobalLibrary) -> spec_fn(CardRef) -> Option<Option<CardRef>> {
    |c: CardRef| match hp_left(s, lib, c) {
        Some(h) => Some(
            if h == 0 {
                Some(c)
            } else {
                None
            },
        ),
        None => None,
    }
}

/// The members among the cards that have no hp left, in order.
pub open spec fn defeated_members(s: GameState, lib: GlobalLibrary, cards: Seq<CardRef>) -> Option<Seq<CardRef>> {
    collect(cards, defeated_fn(s, lib))
}

/// Whether a member is a buzz member.
pub open spec fn is_buzz(m: crate::cards::HoloMemberCard) -> bool {
    exists|i: int|
        0 <= i < m.attributes@.len() && same_attribute(
            #[trigger] m.attributes@[i],
            HoloMemberExtraAttribute::Buzz,
        )
}

/// The lives a defeated card costs its owner: none when a modifier saves them, two for a
/// buzz member, one for another member, none for another card.
#[verifier::opaque]
pub open spec fn lives_lost(s: GameState, lib: GlobalLibrary, c: CardRef) -> Option<nat> {
    match has_kind(s, lib, c, ModifierKindV::NoLifeLoss) {
        Some(true) => Some(0),
        Some(false) => match lookup(s, lib, c) {
            Some(Card::HoloMember(m)) => Some(
                if is_buzz(m) {
                    2
                } else {
                    1
                },
            ),
            Some(_) => Some(0),
            None => None,
        },
        None => None,
    }
}

/// The lives that the defeated cards cost their owner.
pub open spec fn life_loss(s: GameState, lib: GlobalLibrary, cards: Seq<CardRef>) -> Option<nat>
    decreases cards.len(),
{
    if cards.len() == 0 {
        Some(0)
    } else {
        match (life_loss(s, lib, cards.drop_last()), lives_lost(s, lib, cards.last())) {
            (Some(a), Some(b)) => Some(a + b),
            _ => None,
        }
    }
}

/// A defeated member costs its owner two lives when it is a buzz member and one life
/// otherwise, unless a modifier saves them: adding it to the defeated cards adds that many
/// lives to their loss.
pub proof fn lemma_defeated_member_costs_lives(
    s: GameState,
    lib: GlobalLibrary,
    cards: Seq<CardRef>,
    c: CardRef,
    m: crate::cards::HoloMemberCard,
)
    requires
        life_loss(s, lib, cards) is Some,
        has_kind(s, lib, c, ModifierKindV::NoLifeLoss) == Some(false),
        lookup(s, lib, c) == Some(Card::HoloMember(m)),
    ensures
        m.attributes@.contains(HoloMemberExtraAttribute::Buzz) ==> life_loss(s, lib, cards.push(c))
            == Some(life_loss(s, lib, cards)->0 + 2),
        !m.attributes@.contains(HoloMemberExtraAttribute::Buzz) ==> life_loss(
            s,
            lib,
            cards.push(c),
        ) == Some(life_loss(s, lib, cards)->0 + 1),
        m.attributes@.contains(HoloMemberExtraAttribute::Buzz) ==> life_loss(s, lib, seq![c])
            == Some(2nat),
        !m.attributes@.contains(HoloMemberExtraAttribute::Buzz) ==> life_loss(s, lib, seq![c])
            == Some(1nat),
{
    lemma_member_lives_lost(s, lib, c, m);
    let n: nat = if m.attributes@.contains(HoloMemberExtraAttribute::Buzz) { 2 } else { 1 };
    assert(lives_lost(s, lib, c) == Some(n));
    let p = cards.push(c);
    assert(p.drop_last() =~= cards);
    assert(p.last() == c);
    assert(life_loss(s, lib, p) == Some(life_loss(s, lib, cards)->0 + n));
    let one = seq![c];
    assert(one.drop_last() =~= Seq::<CardRef>::empty());
    assert(one.last() == c);
    assert(life_loss(s, lib, one.drop_last()) == Some(0nat));
    assert(life_loss(s, lib, one) == Some(n));
}

proof fn lemma_buzz_attribute(m: crate::cards::HoloMemberCard)
    ensures
        is_buzz(m) <==> m.attributes@.contains(HoloMemberExtraAttribute::Buzz),
{
    if m.attributes@.contains(HoloMemberExtraAttribute::Buzz) {
        let i = choose|i: int| 0 <= i < m.attributes@.len() && m.attributes@[i] == HoloMemberExtraAttribute::Buzz;
        assert(same_attribute(m.attributes@[i], HoloMemberExtraAttribute::Buzz));
    }
    if is_buzz(m) {
        let i = choose|i: int|
            0 <= i < m.attributes@.len() && same_attribute(
                #[trigger] m.attributes@[i],
                HoloMemberExtraAttribute::Buzz,
            );
        assert(m.attributes@[i] == HoloMemberExtraAttribute::Buzz);
    }
}

proof fn lemma_member_lives_lost(s: GameState, lib: GlobalLibrary, c: CardRef, m: crate::cards::HoloMemberCard)
    requires
        has_kind(s, lib, c, ModifierKindV::NoLifeLoss) == Some(false),
        lookup(s, lib, c) == Some(Card::HoloMember(m)),
    ensures
        m.attributes@.contains(HoloMemberExtraAttribute::Buzz) ==> lives_lost(s, lib, c) == Some(2nat),
        !m.attributes@.contains(HoloMemberExtraAttribute::Buzz) ==> lives_lost(s, lib, c) == Some(1nat),
{
    reveal(lives_lost);
    lemma_buzz_attribute(m);
}

proof fn lemma_life_loss_prefix(s: GameState, lib: GlobalLibrary, cards: Seq<CardRef>, i: int)
    requires
        life_loss(s, lib, cards) is Some,
        0 <= i <= cards.len(),
    ensures
        life_loss(s, lib, cards.take(i)) is Some,
        life_loss(s, lib, cards.take(i))->0 <= 2 * i,
        i < cards.len() ==> lives_lost(s, lib, cards[i]) is Some,
    decreases cards.len(),
{
    if i == cards.len() {
        assert(cards.take(i) =~= cards);
        lemma_life_loss_bound(s, lib, cards);
    } else {
        if i == cards.len() - 1 {
            assert(cards.take(i) =~= cards.drop_last());
            lemma_life_loss_bound(s, lib, cards.drop_last());
        } else {
            lemma_life_loss_prefix(s, lib, cards.drop_last(), i);
            assert(cards.drop_last().take(i) =~= cards.take(i));
        }
    }
}

proof fn lemma_life_loss_bound(s: GameState, lib: GlobalLibrary, cards: Seq<CardRef>)
    requires
        life_loss(s, lib, cards) is Some,
    ensures
        life_loss(s, lib, cards)->0 <= 2 * cards.len(),
    decreases cards.len(),
{
    if cards.len() > 0 {
        reveal(lives_lost);
        lemma_life_loss_bound(s, lib, cards.drop_last());
    }
}

impl GameState {
    fn is_defeated(&self, library: &GlobalLibrary, c: CardRef) -> (res: bool)
        requires
            defeated_fn(*self, *library)(c) is Some,
        ensures
            defeated_fn(*self, *library)(c) == Some(if res { Some(c) } else { None }),
    {
        proof {
            reveal(lookup);
        }
        self.remaining_hp(library, c) == 0
    }

    /// The members among the cards that have no hp left.
    #[verifier::spinoff_prover]
    pub fn defeated_members(&self, library: &GlobalLibrary, cards: &Vec<CardRef>) -> (res: Vec<CardRef>)
        requires
            defeated_members(*self, *library, cards@) is Some,
        ensures
            res@ == defeated_members(*self, *library, cards@)->0,
    {
        let ghost f = defeated_fn(*self, *library);
        let mut out: Vec<CardRef> = Vec::new();
        let mut i: usize = 0;
        assert(cards@.take(0) =~= Seq::<CardRef>::empty());
        while i < cards.len()
            invariant
                0 <= i <= cards@.len(),
                f == defeated_fn(*self, *library),
                collect(cards@, f) is Some,
                collect(cards@.take(i as int), f) == Some(out@),
            decreases cards@.len() - i,
        {
            proof {
                lemma_collect_prefix(cards@, f, i as int);
            }
            if self.is_defeated(library, cards[i]) {
                out.push(cards[i]);
            }
            i = i + 1;
        }
        assert(cards@.take(cards@.len() as int) =~= cards@);
        out
    }

    fn lives_lost_exec(&self, library: &GlobalLibrary, c: CardRef) -> (res: usize)
        requires
            punique_keys(self.zone_modifiers@),
            lives_lost(*self, *library, c) is Some,
        ensures
            lives_lost(*self, *library, c) == Some(res as nat),
            res <= 2,
    {
        proof {
            reveal(lookup);
            reveal(lives_lost);
        }
        if self.has_modifier(library, c, ModifierKind::NoLifeLoss) {
            return 0;
        }
        let card = self.lookup_card(library, c);
        if card.is_member() {
            if card.is_attribute(HoloMemberExtraAttribute::Buzz) {
                2
            } else {
                1
            }
        } else {
            0
        }
    }

    /// The lives that the defeated cards cost their owner.
    pub fn life_loss(&self, library: &GlobalLibrary, defeated: &Vec<CardRef>) -> (res: usize)
        requires
            punique_keys(self.zone_modifiers@),
            life_loss(*self, *library, defeated@) is Some,
            defeated@.len() <= usize::MAX / 2,
        ensures
            life_loss(*self, *library, defeated@) == Some(res as nat),
    {
        let mut total: usize = 0;
        let mut i: usize = 0;
        assert(defeated@.take(0) =~= Seq::<CardRef>::empty());
        while i < defeated.len()
            invariant
                0 <= i <= defeated@.len(),
                defeated@.len() <= usize::MAX / 2,
                punique_keys(self.zone_modifiers@),
                life_loss(*self, *library, defeated@) is Some,
                life_loss(*self, *library, defeated@.take(i as int)) == Some(total as nat),
                total <= 2 * i,
            decreases defeated@.len() - i,
        {
            proof {
                lemma_life_loss_prefix(*self, *library, defeated@, i as int);
                assert(defeated@.take(i + 1).drop_last() =~= defeated@.take(i as int));
            }
            let n = self.lives_lost_exec(library, defeated[i]);
            total = total + n;
            i = i + 1;
        }
        assert(defeated@.take(defeated@.len() as int) =~= defeated@);
        total
    }
}

// ------------------------------------------------------------------
// what damage leads to
// ------------------------------------------------------------------

/// The members of an owner's group that have no hp left, and the lives they cost the owner.
pub open spec fn group_outcome(s: GameState, lib: GlobalLibrary, g: (Player, Seq<CardRef>)) -> Option<
    (Player, Seq<CardRef>, nat),
> {
    match defeated_members(s, lib, g.1) {
        Some(d) => match life_loss(s, lib, d) {
            Some(n) => Some((g.0, d, n)),
            None => None,
        },
        None => None,
    }
}

/// What damage leads to once its markers are on the cards: for each owner of the cards, in
/// the order in which the owners first come, the defeated members and the lives they cost.
/// Damage of no marker leads to nothing.
pub open spec fn damage_outcome(s: GameState, lib: GlobalLibrary, cards: Seq<CardRef>, dmg: usize) -> Seq<
    (Player, Seq<CardRef>, nat),
> {
    if dmg < 1 {
        Seq::empty()
    } else {
        grouped_by_player(s, cards).map_values(
            |g: (Player, Seq<CardRef>)| group_outcome(s, lib, g)->0,
        )
    }
}

/// What the damage outcome needs: every card registered, and each group's defeated members
/// and lives known.
pub open spec fn damage_outcome_known(s: GameState, lib: GlobalLibrary, cards: Seq<CardRef>) -> bool {
    &&& forall|i: int| 0 <= i < cards.len() ==> crate::state::has_entry(s.card_map@, #[trigger] cards[i])
    &&& forall|i: int|
        0 <= i < grouped_by_player(s, cards).len() ==> (#[trigger] group_outcome(
            s,
            lib,
            grouped_by_player(s, cards)[i],
        )) is Some
}

pub open spec fn outcome_view(o: Seq<(Player, Vec<CardRef>, usize)>) -> Seq<(Player, Seq<CardRef>, nat)> {
    o.map_values(|x: (Player, Vec<CardRef>, usize)| (x.0, x.1@, x.2 as nat))
}

proof fn lemma_group_sizes(s: GameState, cards: Seq<CardRef>)
    ensures
        forall|i: int|
            0 <= i < grouped_by_player(s, cards).len() ==> (#[trigger] grouped_by_player(s, cards)[i]).1.len()
                <= cards.len(),
    decreases cards.len(),
{
    if cards.len() > 0 {
        let prev = cards.drop_last();
        lemma_group_sizes(s, prev);
        let g = grouped_by_player(s, prev);
        let p = owner_of(s, cards.last());
        if has_player_group(g, p) {
            let k = player_group_index(g, p);
            assert(0 <= k < g.len());
            let r = g.update(k, (p, g[k].1.push(cards.last())));
            assert(grouped_by_player(s, cards) == r);
            assert forall|i: int| 0 <= i < r.len() implies (#[trigger] r[i]).1.len() <= cards.len() by {
                if i != k {
                    assert(r[i] == g[i]);
                }
            }
        } else {
            let r = g.push((p, seq![cards.last()]));
            assert(grouped_by_player(s, cards) == r);
            assert forall|i: int| 0 <= i < r.len() implies (#[trigger] r[i]).1.len() <= cards.len() by {
                if i < g.len() {
                    assert(r[i] == g[i]);
                }
            }
        }
    }
}

proof fn lemma_collect_len<A>(cs: Seq<CardRef>, f: spec_fn(CardRef) -> Option<Option<A>>)
    requires
        collect(cs, f) is Some,
    ensures
        collect(cs, f)->0.len() <= cs.len(),
    decreases cs.len(),
{
    if cs.len() > 0 {
        lemma_collect_len(cs.drop_last(), f);
    }
}

impl GameState {
    /// What damage of `dmg` markers leads to once they are on the cards: for each owner, the
    /// members that have no hp left, which go to the archive, and the lives they cost.
    pub fn damage_outcome(&self, library: &GlobalLibrary, cards: &Vec<CardRef>, dmg: DamageMarkers) -> (res:
        Vec<(Player, Vec<CardRef>, usize)>)
        requires
            punique_keys(self.zone_modifiers@),
            damage_outcome_known(*self, *library, cards@),
            cards@.len() <= usize::MAX / 2,
        ensures
            outcome_view(res@) == damage_outcome(*self, *library, cards@, dmg.0),
    {
        let mut res: Vec<(Player, Vec<CardRef>, usize)> = Vec::new();
        if dmg.0 < 1 {
            assert(outcome_view(res@) =~= Seq::<(Player, Seq<CardRef>, nat)>::empty());
            return res;
        }
        let groups = self.group_by_player(cards);
        let ghost g = grouped_by_player(*self, cards@);
        proof {
            lemma_group_sizes(*self, cards@);
        }
        let mut i: usize = 0;
        while i < groups.len()
            invariant
                0 <= i <= groups@.len(),
                player_groups_view(groups@) == g,
                g == grouped_by_player(*self, cards@),
                punique_keys(self.zone_modifiers@),
                damage_outcome_known(*self, *library, cards@),
                cards@.len() <= usize::MAX / 2,
                forall|j: int| 0 <= j < g.len() ==> (#[trigger] g[j]).1.len() <= cards@.len(),
                outcome_view(res@) == g.take(i as int).map_values(
                    |x: (Player, Seq<CardRef>)| group_outcome(*self, *library, x)->0,
                ),
            decreases groups@.len() - i,
        {
            let ghost gi = g[i as int];
            proof {
                assert(group_outcome(*self, *library, g[i as int]) is Some);
                assert(groups@[i as int].1@ == gi.1);
                lemma_collect_len(gi.1, defeated_fn(*self, *library));
            }
            let defeated = self.defeated_members(library, &groups[i].1);
            let lives = self.life_loss(library, &defeated);
            let ghost before = res@;
            res.push((groups[i].0, defeated, lives));
            proof {
                assert(outcome_view(res@) =~= outcome_view(before).push((gi.0, defeated@, lives as nat)));
                assert(g.take(i + 1) =~= g.take(i as int).push(gi));
                assert(g.take(i + 1).map_values(
                    |x: (Player, Seq<CardRef>)| group_outcome(*self, *library, x)->0,
                ) =~= g.take(i as int).map_values(
                    |x: (Player, Seq<CardRef>)| group_outcome(*self, *library, x)->0,
                ).push(group_outcome(*self, *library, gi)->0));
            }
            i = i + 1;
        }
        proof {
            assert(g.take(g.len() as int) =~= g);
        }
        res
    }
}

// ------------------------------------------------------------------
// cards that leave the stage, and lost lives
// ------------------------------------------------------------------

/// The cards attached to each of the cards, card after card.
#[verifier::opaque]
pub open spec fn all_attachments(s: GameState, cards: Seq<CardRef>) -> Seq<CardRef>
    decreases cards.len(),
{
    if cards.len() == 0 {
        Seq::empty()
    } else {
        all_attachments(s, cards.drop_last()) + s.spec_attachments(cards.last())
    }
}

proof fn lemma_all_attachments_step(s: GameState, cards: Seq<CardRef>, i: int)
    requires
        0 <= i < cards.len(),
    ensures
        all_attachments(s, cards.take(i + 1)) == all_attachments(s, cards.take(i))
            + s.spec_attachments(cards[i]),
        all_attachments(s, cards.take(0)) == Seq::<CardRef>::empty(),
{
    reveal(all_attachments);
    assert(cards.take(i + 1).drop_last() =~= cards.take(i));
    assert(cards.take(0) =~= Seq::<CardRef>::empty());
}

impl GameState {
    /// The cards attached to each of the cards, card after card: when cards leave the stage,
    /// these go to the archive with them.
    #[verifier::spinoff_prover]
    pub fn attachments_of_cards(&self, cards: &Vec<CardRef>) -> (res: Vec<CardRef>)
        requires
            forall|i: int| 0 <= i < cards@.len() ==> self.is_registered(#[trigger] cards@[i]),
        ensures
            res@ == all_attachments(*self, cards@),
    {
        let mut out: Vec<CardRef> = Vec::new();
        let mut i: usize = 0;
        proof {
            if cards@.len() > 0 {
                lemma_all_attachments_step(*self, cards@, 0);
            } else {
                reveal(all_attachments);
                assert(cards@.take(0) =~= Seq::<CardRef>::empty());
            }
        }
        while i < cards.len()
            invariant
                0 <= i <= cards@.len(),
                forall|j: int| 0 <= j < cards@.len() ==> self.is_registered(#[trigger] cards@[j]),
                out@ == all_attachments(*self, cards@.take(i as int)),
            decreases cards@.len() - i,
        {
            proof {
                lemma_all_attachments_step(*self, cards@, i as int);
                assert(self.is_registered(cards@[i as int]));
            }
            let mut more = self.attachments(cards[i]);
            out.append(&mut more);
            i = i + 1;
        }
        proof {
            assert(cards@.take(cards@.len() as int) =~= cards@);
        }
        out
    }
}

/// What a player does to lose lives.
#[derive(Debug, Clone)]
pub enum LifeLoss {
    /// No life is lost.
    Nothing,
    /// Too few lives are left: all of them are shown and go to the archive.
    ArchiveAll(Vec<CardRef>),
    /// The lives, from the top of the life zone, are attached to members.
    Attach(usize),
}

impl GameBoard {
    /// How the board loses `amount` lives: nothing for none, all of its lives to the archive
    /// when it has no more than that, else that many attached from its life zone.
    pub fn lose_lives(&self, amount: usize) -> (res: LifeLoss)
        ensures
            amount < 1 ==> res is Nothing,
            amount >= 1 && self.life@.len() <= amount ==> (res matches LifeLoss::ArchiveAll(cs)
                && cs@ == self.life@),
            amount >= 1 && self.life@.len() > amount ==> res == LifeLoss::Attach(amount),
    {
        if amount < 1 {
            LifeLoss::Nothing
        } else if self.life.len() <= amount {
            LifeLoss::ArchiveAll(crate::board::deque_all_cards(&self.life))
        } else {
            LifeLoss::Attach(amount)
        }
    }
}

// ------------------------------------------------------------------
// room on the stage
// ------------------------------------------------------------------

/// The number of cards of the first list that are in the second.
pub open spec fn count_in(cs: Seq<CardRef>, others: Seq<CardRef>) -> nat
    decreases cs.len(),
{
    if cs.len() == 0 {
        0
    } else {
        count_in(cs.drop_last(), others) + if others.contains(cs.last()) {
            1nat
        } else {
            0nat
        }
    }
}

/// Whether the stage of a player has room for the cards: its members, with those of the
/// cards that are not on it yet, are at most the most a stage holds.
pub open spec fn stage_has_room(s: GameState, lib: GlobalLibrary, p: Player, cards: Seq<CardRef>) -> Option<bool> {
    match members_among(s, lib, spec_board(s, p).zone_cards(Zone::Stage)) {
        Some(ms) => Some(ms.len() + cards.len() - count_in(ms, cards) <= MAX_MEMBERS_ON_STAGE),
        None => None,
    }
}

proof fn lemma_count_in_bound(cs: Seq<CardRef>, others: Seq<CardRef>)
    ensures
        count_in(cs, others) <= cs.len(),
    decreases cs.len(),
{
    if cs.len() > 0 {
        lemma_count_in_bound(cs.drop_last(), others);
    }
}

fn card_in(c: CardRef, others: &Vec<CardRef>) -> (res: bool)
    ensures
        res == others@.contains(c),
{
    let mut i: usize = 0;
    while i < others.len()
        invariant
            0 <= i <= others@.len(),
            forall|j: int| 0 <= j < i ==> others@[j] != c,
        decreases others@.len() - i,
    {
        if others[i] == c {
            assert(others@[i as int] == c);
            return true;
        }
        i = i + 1;
    }
    false
}

impl GameState {
    /// Whether the stage of a player has room for the cards sent to it.
    pub fn stage_has_room(&self, library: &GlobalLibrary, player: Player, cards: &Vec<CardRef>) -> (res: bool)
        requires
            player != Player::Both,
            stage_has_room(*self, *library, player, cards@) is Some,
        ensures
            stage_has_room(*self, *library, player, cards@) == Some(res),
    {
        let stage = self.board(player).stage();
        let members = self.members_among_exec(library, &stage);
        let mut already: usize = 0;
        let mut i: usize = 0;
        assert(members@.take(0) =~= Seq::<CardRef>::empty());
        while i < members.len()
            invariant
                0 <= i <= members@.len(),
                already == count_in(members@.take(i as int), cards@),
                already <= i,
            decreases members@.len() - i,
        {
            assert(members@.take(i + 1).drop_last() =~= members@.take(i as int));
            if card_in(members[i], cards) {
                already = already + 1;
            }
            i = i + 1;
        }
        assert(members@.take(members@.len() as int) =~= members@);
        proof {
            lemma_count_in_bound(members@, cards@);
        }
        let staying = members.len() - already;
        if staying > MAX_MEMBERS_ON_STAGE {
            return false;
        }
        cards.len() <= MAX_MEMBERS_ON_STAGE - staying
    }
}

} // verus!
