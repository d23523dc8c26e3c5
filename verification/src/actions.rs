use vstd::prelude::*;

use crate::card_effects::trigger::Trigger;
use crate::cards::{Card, HoloMemberCard, HoloMemberLevel, OshiHoloMemberCard, SupportCard};
use crate::gameplay::{CardRef, MainStepAction, PerformanceStepAction, Player, Zone};
use crate::library::GlobalLibrary;
use crate::modifiers::{ModifierKind, ModifierKindV};
use crate::rules::has_kind;
use crate::state::{punique_keys, spec_board, GameState};

verus! {

// ------------------------------------------------------------------
// the order of actions, as the players are offered them
// ------------------------------------------------------------------

/// Three numbers compared one after the other.
pub open spec fn key_le(a: (int, int, int), b: (int, int, int)) -> bool {
    a.0 < b.0 || (a.0 == b.0 && (a.1 < b.1 || (a.1 == b.1 && a.2 <= b.2)))
}

/// What orders main step actions: the kind of action in the order the kinds are declared,
/// then the card, then the skill.
pub open spec fn main_key(a: MainStepAction) -> (int, int, int) {
    match a {
        MainStepAction::BackStageMember(c) => (0, c.0 as int, 0),
        MainStepAction::BloomMember(c) => (1, c.0 as int, 0),
        MainStepAction::UseSupportCard(c) => (2, c.0 as int, 0),
        MainStepAction::CollabMember(c) => (3, c.0 as int, 0),
        MainStepAction::BatonPass(c) => (4, c.0 as int, 0),
        MainStepAction::UseOshiSkill(c, i) => (5, c.0 as int, i as int),
        MainStepAction::Done => (6, 0, 0),
    }
}

pub open spec fn main_le(a: MainStepAction, b: MainStepAction) -> bool {
    key_le(main_key(a), main_key(b))
}

/// Main step actions in order, each no later than those after it.
pub open spec fn main_sorted(s: Seq<MainStepAction>) -> bool {
    forall|i: int, j: int| 0 <= i < j < s.len() ==> main_le(#[trigger] s[i], #[trigger] s[j])
}

/// Two actions with the same key are the same action.
pub proof fn lemma_main_key_injective(a: MainStepAction, b: MainStepAction)
    requires
        main_key(a) == main_key(b),
    ensures
        a == b,
{
    match a {
        MainStepAction::BackStageMember(c) => assert(c.0 == b->BackStageMember_0.0),
        MainStepAction::BloomMember(c) => assert(c.0 == b->BloomMember_0.0),
        MainStepAction::UseSupportCard(c) => assert(c.0 == b->UseSupportCard_0.0),
        MainStepAction::CollabMember(c) => assert(c.0 == b->CollabMember_0.0),
        MainStepAction::BatonPass(c) => assert(c.0 == b->BatonPass_0.0),
        MainStepAction::UseOshiSkill(c, i) => assert(c.0 == b->UseOshiSkill_0.0),
        MainStepAction::Done => {},
    }
}

/// Two lists of main step actions in order, with the same actions, are the same list: the
/// order leaves nothing open.
pub proof fn lemma_main_sorted_unique(a: Seq<MainStepAction>, b: Seq<MainStepAction>)
    requires
        main_sorted(a),
        main_sorted(b),
        a.to_multiset() == b.to_multiset(),
    ensures
        a == b,
    decreases a.len(),
{
    vstd::seq_lib::to_multiset_len(a);
    vstd::seq_lib::to_multiset_len(b);
    if a.len() > 0 {
        vstd::seq_lib::to_multiset_contains(a, b[0]);
        vstd::seq_lib::to_multiset_contains(b, a[0]);
        vstd::seq_lib::to_multiset_contains(a, a[0]);
        vstd::seq_lib::to_multiset_contains(b, b[0]);
        let i = choose|i: int| 0 <= i < a.len() && a[i] == b[0];
        let j = choose|j: int| 0 <= j < b.len() && b[j] == a[0];
        assert(main_le(a[0], b[0])) by {
            if i > 0 {
                assert(main_le(a[0], a[i]));
            }
        }
        assert(main_le(b[0], a[0])) by {
            if j > 0 {
                assert(main_le(b[0], b[j]));
            }
        }
        lemma_main_key_injective(a[0], b[0]);
        vstd::seq_lib::to_multiset_remove(a, 0);
        vstd::seq_lib::to_multiset_remove(b, 0);
        assert(a.remove(0) =~= a.drop_first());
        assert(b.remove(0) =~= b.drop_first());
        lemma_main_sorted_unique(a.drop_first(), b.drop_first());
        assert(a =~= seq![a[0]] + a.drop_first());
        assert(b =~= seq![b[0]] + b.drop_first());
    }
}

fn main_key_exec(a: &MainStepAction) -> (res: (u8, u16, usize))
    ensures
        (res.0 as int, res.1 as int, res.2 as int) == main_key(*a),
{
    match a {
        MainStepAction::BackStageMember(c) => (0, c.0, 0),
        MainStepAction::BloomMember(c) => (1, c.0, 0),
        MainStepAction::UseSupportCard(c) => (2, c.0, 0),
        MainStepAction::CollabMember(c) => (3, c.0, 0),
        MainStepAction::BatonPass(c) => (4, c.0, 0),
        MainStepAction::UseOshiSkill(c, i) => (5, c.0, *i),
        MainStepAction::Done => (6, 0, 0),
    }
}

/// Whether a main step action comes no later than another.
pub fn main_action_le(a: &MainStepAction, b: &MainStepAction) -> (res: bool)
    ensures
        res == main_le(*a, *b),
{
    let ka = main_key_exec(a);
    let kb = main_key_exec(b);
    ka.0 < kb.0 || (ka.0 == kb.0 && (ka.1 < kb.1 || (ka.1 == kb.1 && ka.2 <= kb.2)))
}

/// The actions, in order.
pub fn sort_main_actions(v: Vec<MainStepAction>) -> (res: Vec<MainStepAction>)
    ensures
        main_sorted(res@),
        res@.to_multiset() == v@.to_multiset(),
{
    let mut out: Vec<MainStepAction> = Vec::new();
    let mut k: usize = 0;
    assert(v@.take(0) =~= Seq::<MainStepAction>::empty());
    assert(out@ =~= Seq::<MainStepAction>::empty());
    while k < v.len()
        invariant
            0 <= k <= v@.len(),
            main_sorted(out@),
            out@.to_multiset() == v@.take(k as int).to_multiset(),
        decreases v@.len() - k,
    {
        let x = v[k];
        let mut p: usize = 0;
        while p < out.len() && main_action_le(&out[p], &x)
            invariant
                0 <= p <= out@.len(),
                main_sorted(out@),
                forall|j: int| 0 <= j < p ==> main_le(#[trigger] out@[j], x),
            decreases out@.len() - p,
        {
            p = p + 1;
        }
        let ghost before = out@;
        out.insert(p, x);
        proof {
            assert forall|j: int| p <= j < before.len() implies main_le(x, #[trigger] before[j]) by {
                assert(main_le(before[p as int], before[j]) || j == p);
            }
            assert forall|i: int, j: int| 0 <= i < j < out@.len() implies main_le(
                #[trigger] out@[i],
                #[trigger] out@[j],
            ) by {
                if j < p {
                    assert(out@[i] == before[i] && out@[j] == before[j]);
                } else if j == p {
                    assert(out@[i] == before[i]);
                } else if i == p {
                    assert(out@[j] == before[j - 1]);
                } else if i < p {
                    assert(out@[i] == before[i] && out@[j] == before[j - 1]);
                    assert(main_le(before[i], before[j - 1]));
                } else {
                    assert(out@[i] == before[i - 1] && out@[j] == before[j - 1]);
                    assert(main_le(before[i - 1], before[j - 1]));
                }
            }
            vstd::seq_lib::to_multiset_insert(before, p as int, x);
            vstd::seq_lib::to_multiset_build(v@.take(k as int), x);
            assert(v@.take(k + 1) =~= v@.take(k as int).push(x));
        }
        k = k + 1;
    }
    assert(v@.take(v@.len() as int) =~= v@);
    out
}

/// What orders performance step actions: arts before being done, then the card, the art and
/// the target.
pub open spec fn art_key(a: PerformanceStepAction) -> (int, int, int) {
    match a {
        PerformanceStepAction::UseArt { card, art_idx, target } => (
            card.0 as int,
            art_idx as int,
            target.0 as int,
        ),
        PerformanceStepAction::Done => (0x10000, 0, 0),
    }
}

pub open spec fn art_le(a: PerformanceStepAction, b: PerformanceStepAction) -> bool {
    key_le(art_key(a), art_key(b))
}

/// Performance step actions in order, each no later than those after it.
pub open spec fn art_sorted(s: Seq<PerformanceStepAction>) -> bool {
    forall|i: int, j: int| 0 <= i < j < s.len() ==> art_le(#[trigger] s[i], #[trigger] s[j])
}

/// Two actions with the same key are the same action.
pub proof fn lemma_art_key_injective(a: PerformanceStepAction, b: PerformanceStepAction)
    requires
        art_key(a) == art_key(b),
    ensures
        a == b,
{
    match a {
        PerformanceStepAction::UseArt { card, art_idx, target } => match b {
            PerformanceStepAction::UseArt { card: c2, art_idx: i2, target: t2 } => {
                assert(card.0 == c2.0 && target.0 == t2.0);
            },
            PerformanceStepAction::Done => {},
        },
        PerformanceStepAction::Done => {},
    }
}

/// Two lists of performance step actions in order, with the same actions, are the same list.
pub proof fn lemma_art_sorted_unique(a: Seq<PerformanceStepAction>, b: Seq<PerformanceStepAction>)
    requires
        art_sorted(a),
        art_sorted(b),
        a.to_multiset() == b.to_multiset(),
    ensures
        a == b,
    decreases a.len(),
{
    vstd::seq_lib::to_multiset_len(a);
    vstd::seq_lib::to_multiset_len(b);
    if a.len() > 0 {
        vstd::seq_lib::to_multiset_contains(a, b[0]);
        vstd::seq_lib::to_multiset_contains(b, a[0]);
        vstd::seq_lib::to_multiset_contains(a, a[0]);
        vstd::seq_lib::to_multiset_contains(b, b[0]);
        let i = choose|i: int| 0 <= i < a.len() && a[i] == b[0];
        let j = choose|j: int| 0 <= j < b.len() && b[j] == a[0];
        assert(art_le(a[0], b[0])) by {
            if i > 0 {
                assert(art_le(a[0], a[i]));
            }
        }
        assert(art_le(b[0], a[0])) by {
            if j > 0 {
                assert(art_le(b[0], b[j]));
            }
        }
        lemma_art_key_injective(a[0], b[0]);
        vstd::seq_lib::to_multiset_remove(a, 0);
        vstd::seq_lib::to_multiset_remove(b, 0);
        assert(a.remove(0) =~= a.drop_first());
        assert(b.remove(0) =~= b.drop_first());
        lemma_art_sorted_unique(a.drop_first(), b.drop_first());
        assert(a =~= seq![a[0]] + a.drop_first());
        assert(b =~= seq![b[0]] + b.drop_first());
    }
}

fn art_key_exec(a: &PerformanceStepAction) -> (res: (u32, usize, u16))
    ensures
        (res.0 as int, res.1 as int, res.2 as int) == art_key(*a),
{
    match a {
        PerformanceStepAction::UseArt { card, art_idx, target } => (card.0 as u32, *art_idx, target.0),
        PerformanceStepAction::Done => (0x10000, 0, 0),
    }
}

/// Whether a performance step action comes no later than another.
pub fn art_action_le(a: &PerformanceStepAction, b: &PerformanceStepAction) -> (res: bool)
    ensures
        res == art_le(*a, *b),
{
    let ka = art_key_exec(a);
    let kb = art_key_exec(b);
    ka.0 < kb.0 || (ka.0 == kb.0 && (ka.1 < kb.1 || (ka.1 == kb.1 && ka.2 <= kb.2)))
}

/// The actions, in order.
pub fn sort_art_actions(v: Vec<PerformanceStepAction>) -> (res: Vec<PerformanceStepAction>)
    ensures
        art_sorted(res@),
        res@.to_multiset() == v@.to_multiset(),
{
    let mut out: Vec<PerformanceStepAction> = Vec::new();
    let mut k: usize = 0;
    assert(v@.take(0) =~= Seq::<PerformanceStepAction>::empty());
    assert(out@ =~= Seq::<PerformanceStepAction>::empty());
    while k < v.len()
        invariant
            0 <= k <= v@.len(),
            art_sorted(out@),
            out@.to_multiset() == v@.take(k as int).to_multiset(),
        decreases v@.len() - k,
    {
        let x = v[k];
        let mut p: usize = 0;
        while p < out.len() && art_action_le(&out[p], &x)
            invariant
                0 <= p <= out@.len(),
                art_sorted(out@),
                forall|j: int| 0 <= j < p ==> art_le(#[trigger] out@[j], x),
            decreases out@.len() - p,
        {
            p = p + 1;
        }
        let ghost before = out@;
        out.insert(p, x);
        proof {
            assert forall|j: int| p <= j < before.len() implies art_le(x, #[trigger] before[j]) by {
                assert(art_le(before[p as int], before[j]) || j == p);
            }
            assert forall|i: int, j: int| 0 <= i < j < out@.len() implies art_le(
                #[trigger] out@[i],
                #[trigger] out@[j],
            ) by {
                if j < p {
                    assert(out@[i] == before[i] && out@[j] == before[j]);
                } else if j == p {
                    assert(out@[i] == before[i]);
                } else if i == p {
                    assert(out@[j] == before[j - 1]);
                } else if i < p {
                    assert(out@[i] == before[i] && out@[j] == before[j - 1]);
                    assert(art_le(before[i], before[j - 1]));
                } else {
                    assert(out@[i] == before[i - 1] && out@[j] == before[j - 1]);
                    assert(art_le(before[i - 1], before[j - 1]));
                }
            }
            vstd::seq_lib::to_multiset_insert(before, p as int, x);
            vstd::seq_lib::to_multiset_build(v@.take(k as int), x);
            assert(v@.take(k + 1) =~= v@.take(k as int).push(x));
        }
        k = k + 1;
    }
    assert(v@.take(v@.len() as int) =~= v@);
    out
}

// ------------------------------------------------------------------
// what a player can do in the main step
// ------------------------------------------------------------------

/// The most members a stage holds.
pub const MAX_MEMBERS_ON_STAGE: usize = 6;

/// The card of a registered card, when the library has it.
#[verifier::opaque]
pub open spec fn lookup(s: GameState, lib: GlobalLibrary, c: CardRef) -> Option<Card> {
    if s.is_registered(c) && s.in_library(&lib, c) {
        Some(s.card_of(&lib, c))
    } else {
        None
    }
}

/// A list with one more item, when there is one.
pub open spec fn opt_push<A>(acc: Option<Seq<A>>, x: Option<Option<A>>) -> Option<Seq<A>> {
    match acc {
        Some(a) => match x {
            Some(Some(v)) => Some(a.push(v)),
            Some(None) => Some(a),
            None => None,
        },
        None => None,
    }
}

/// What each card gives, in the order of the cards; `None` when one of them gives `None`.
pub open spec fn collect<A>(cs: Seq<CardRef>, f: spec_fn(CardRef) -> Option<Option<A>>) -> Option<
    Seq<A>,
>
    decreases cs.len(),
{
    if cs.len() == 0 {
        Some(Seq::empty())
    } else {
        opt_push(collect(cs.drop_last(), f), f(cs.last()))
    }
}

pub proof fn lemma_collect_prefix<A>(cs: Seq<CardRef>, f: spec_fn(CardRef) -> Option<Option<A>>, i: int)
    requires
        collect(cs, f) is Some,
        0 <= i <= cs.len(),
    ensures
        collect(cs.take(i), f) is Some,
        i < cs.len() ==> f(cs[i]) is Some,
        i < cs.len() ==> collect(cs.take(i + 1), f) == opt_push(collect(cs.take(i), f), f(cs[i])),
    decreases cs.len(),
{
    if i == cs.len() {
        assert(cs.take(i) =~= cs);
    } else {
        assert(cs.take(i + 1).drop_last() =~= cs.take(i));
        if i == cs.len() - 1 {
            assert(cs.take(i) =~= cs.drop_last());
        } else {
            lemma_collect_prefix(cs.drop_last(), f, i);
            assert(cs.drop_last().take(i) =~= cs.take(i));
        }
    }
}

/// A card when it is a member, nothing when it is another card, `None` when the library
/// lacks it.
pub open spec fn member_entry(s: GameState, lib: GlobalLibrary, c: CardRef) -> Option<Option<CardRef>> {
    match lookup(s, lib, c) {
        Some(Card::HoloMember(_)) => Some(Some(c)),
        Some(_) => Some(None),
        None => None,
    }
}

/// The members among the cards, in order.
pub open spec fn members_among(s: GameState, lib: GlobalLibrary, cs: Seq<CardRef>) -> Option<Seq<CardRef>> {
    collect(cs, member_fn(s, lib))
}

pub open spec fn member_fn(s: GameState, lib: GlobalLibrary) -> spec_fn(CardRef) -> Option<Option<CardRef>> {
    |c: CardRef| member_entry(s, lib, c)
}

/// Whether the member can bloom the card: `false` when it is not a member.
#[verifier::opaque]
pub open spec fn bloom_test(s: GameState, lib: GlobalLibrary, m: HoloMemberCard, c: CardRef) -> Option<bool> {
    match lookup(s, lib, c) {
        Some(Card::HoloMember(t)) => m.spec_can_bloom_target(s, lib, c, t),
        Some(_) => Some(false),
        None => None,
    }
}

/// Whether the member can bloom one of the members among the cards, looked at in order
/// until one is found.
pub open spec fn can_bloom_any(s: GameState, lib: GlobalLibrary, m: HoloMemberCard, cs: Seq<CardRef>) -> Option<bool>
    decreases cs.len(),
{
    if cs.len() == 0 {
        Some(false)
    } else {
        match bloom_test(s, lib, m, cs[0]) {
            Some(true) => Some(true),
            Some(false) => can_bloom_any(s, lib, m, cs.drop_first()),
            None => None,
        }
    }
}

/// Whether one of the effects of the support card from the `i`th on can be used, looked at
/// in order until one is found.
pub open spec fn can_use_any_effect(sup: SupportCard, c: CardRef, s: GameState, lib: GlobalLibrary, i: int) -> Option<bool>
    decreases sup.effects@.len() - i,
{
    if i < 0 || i >= sup.effects@.len() {
        Some(false)
    } else {
        match sup.spec_can_use_support(c, i, s, lib) {
            Some(true) => Some(true),
            Some(false) => can_use_any_effect(sup, c, s, lib, i + 1),
            None => None,
        }
    }
}

/// A choice when the test holds.
pub open spec fn offer<A>(b: Option<bool>, a: A) -> Option<Option<A>> {
    match b {
        Some(true) => Some(Some(a)),
        Some(false) => Some(None),
        None => None,
    }
}

/// What a card in hand offers: a debut or spot member goes to the back stage while the stage
/// has room, a member of a higher level blooms one on the stage, a support card is used when
/// one of its effects can be.
#[verifier::opaque]
pub closed spec fn hand_action(s: GameState, lib: GlobalLibrary, p: Player, c: CardRef) -> Option<
    Option<MainStepAction>,
> {
    let stage = spec_board(s, p).zone_cards(Zone::Stage);
    match lookup(s, lib, c) {
        Some(Card::HoloMember(m)) => if m.level == HoloMemberLevel::Debut || m.level
            == HoloMemberLevel::Spot {
            match members_among(s, lib, stage) {
                Some(ms) => offer(Some(ms.len() < MAX_MEMBERS_ON_STAGE), MainStepAction::BackStageMember(c)),
                None => None,
            }
        } else {
            offer(can_bloom_any(s, lib, m, stage), MainStepAction::BloomMember(c))
        },
        Some(Card::Support(sup)) => offer(
            can_use_any_effect(sup, c, s, lib, 0),
            MainStepAction::UseSupportCard(c),
        ),
        _ => None,
    }
}

/// What a back stage member offers: a collab, when it does not rest, nothing prevents it,
/// and the collab position is free.
#[verifier::opaque]
pub closed spec fn collab_action(s: GameState, lib: GlobalLibrary, p: Player, c: CardRef) -> Option<
    Option<MainStepAction>,
> {
    match has_kind(s, lib, c, ModifierKindV::Resting) {
        Some(true) => Some(None),
        Some(false) => match has_kind(s, lib, c, ModifierKindV::PreventCollab) {
            Some(true) => Some(None),
            Some(false) => match lookup(s, lib, c) {
                Some(Card::HoloMember(_)) => offer(
                    Some(spec_board(s, p).collab is None),
                    MainStepAction::CollabMember(c),
                ),
                _ => None,
            },
            None => None,
        },
        None => None,
    }
}

/// What the center member offers: a baton pass, when it can.
#[verifier::opaque]
pub closed spec fn baton_action(s: GameState, lib: GlobalLibrary, c: CardRef) -> Option<
    Option<MainStepAction>,
> {
    match lookup(s, lib, c) {
        Some(Card::HoloMember(m)) => offer(m.spec_can_baton_pass(c, s, lib), MainStepAction::BatonPass(c)),
        _ => None,
    }
}

/// The skills among the first `n` of the oshi that are used in the main step and can be
/// used now, in order.
pub open spec fn skill_actions(s: GameState, lib: GlobalLibrary, o: OshiHoloMemberCard, c: CardRef, n: nat) -> Option<
    Seq<MainStepAction>,
>
    decreases n,
{
    if n == 0 {
        Some(Seq::empty())
    } else {
        let i = n - 1;
        opt_push(
            skill_actions(s, lib, o, c, (n - 1) as nat),
            if o.skills@[i].triggers@.contains(Trigger::ActivateInMainStep) {
                offer(
                    o.spec_can_use_skill(c, i, s, lib, false),
                    MainStepAction::UseOshiSkill(c, i as usize),
                )
            } else {
                Some(None)
            },
        )
    }
}

/// What the oshi offers: its skills for the main step that can be used.
pub open spec fn oshi_actions(s: GameState, lib: GlobalLibrary, p: Player) -> Option<Seq<MainStepAction>> {
    match spec_board(s, p).oshi {
        None => Some(Seq::empty()),
        Some(c) => match lookup(s, lib, c) {
            Some(Card::OshiHoloMember(o)) => skill_actions(s, lib, o, c, o.skills@.len()),
            _ => None,
        },
    }
}

pub open spec fn hand_fn(s: GameState, lib: GlobalLibrary, p: Player) -> spec_fn(CardRef) -> Option<Option<MainStepAction>> {
    |c: CardRef| hand_action(s, lib, p, c)
}

pub open spec fn collab_fn(s: GameState, lib: GlobalLibrary, p: Player) -> spec_fn(CardRef) -> Option<Option<MainStepAction>> {
    |c: CardRef| collab_action(s, lib, p, c)
}

pub open spec fn baton_fn(s: GameState, lib: GlobalLibrary) -> spec_fn(CardRef) -> Option<Option<MainStepAction>> {
    |c: CardRef| baton_action(s, lib, c)
}

/// Everything a player can do in the main step: from the hand, the back stage, the center
/// and the oshi, then being done; `None` where a card is not where it can be.
pub open spec fn main_step_candidates(s: GameState, lib: GlobalLibrary, p: Player) -> Option<
    Seq<MainStepAction>,
> {
    let b = spec_board(s, p);
    let hand = collect(b.hand@, hand_fn(s, lib, p));
    let collab = collect(b.back_stage@, collab_fn(s, lib, p));
    let baton = collect(crate::board::opt_seq(b.center_stage), baton_fn(s, lib));
    match (hand, collab, baton, oshi_actions(s, lib, p)) {
        (Some(h), Some(co), Some(ba), Some(sk)) => Some(h + co + ba + sk + seq![MainStepAction::Done]),
        _ => None,
    }
}

/// Whether an action is a collab only while the collab position of the player is free.
pub open spec fn collab_only_when_free(s: GameState, p: Player) -> spec_fn(MainStepAction) -> bool {
    |a: MainStepAction| a is CollabMember ==> spec_board(s, p).collab is None
}

proof fn lemma_collect_keeps<A>(cs: Seq<CardRef>, f: spec_fn(CardRef) -> Option<Option<A>>, ok: spec_fn(A) -> bool)
    requires
        collect(cs, f) is Some,
        forall|j: int| 0 <= j < cs.len() ==> (#[trigger] f(cs[j]) matches Some(Some(a)) ==> ok(a)),
    ensures
        forall|k: int| 0 <= k < collect(cs, f)->0.len() ==> ok(#[trigger] collect(cs, f)->0[k]),
    decreases cs.len(),
{
    if cs.len() > 0 {
        let prev = cs.drop_last();
        assert forall|j: int| 0 <= j < prev.len() implies (#[trigger] f(prev[j]) matches Some(Some(a)) ==> ok(a)) by {
            assert(prev[j] == cs[j]);
        }
        lemma_collect_keeps(prev, f, ok);
        assert(f(cs[cs.len() - 1]) == f(cs.last()));
    }
}

proof fn lemma_skill_actions_are_skills(s: GameState, lib: GlobalLibrary, o: OshiHoloMemberCard, c: CardRef, n: nat)
    requires
        skill_actions(s, lib, o, c, n) is Some,
    ensures
        forall|k: int|
            0 <= k < skill_actions(s, lib, o, c, n)->0.len() ==> #[trigger] skill_actions(s, lib, o, c, n)->0[k] is UseOshiSkill,
    decreases n,
{
    if n > 0 {
        lemma_skill_actions_are_skills(s, lib, o, c, (n - 1) as nat);
    }
}

proof fn lemma_hand_offers_no_collab(s: GameState, lib: GlobalLibrary, p: Player)
    ensures
        forall|c: CardRef| (#[trigger] hand_fn(s, lib, p)(c) matches Some(Some(a)) ==> collab_only_when_free(s, p)(a)),
{
    assert forall|c: CardRef| (#[trigger] hand_fn(s, lib, p)(c) matches Some(Some(a)) ==> collab_only_when_free(s, p)(a)) by {
        reveal(hand_action);
        assert(hand_fn(s, lib, p)(c) == hand_action(s, lib, p, c));
    }
}

proof fn lemma_collab_needs_free_position(s: GameState, lib: GlobalLibrary, p: Player)
    ensures
        forall|c: CardRef| (#[trigger] collab_fn(s, lib, p)(c) matches Some(Some(a)) ==> collab_only_when_free(s, p)(a)),
{
    assert forall|c: CardRef| (#[trigger] collab_fn(s, lib, p)(c) matches Some(Some(a)) ==> collab_only_when_free(s, p)(a)) by {
        reveal(collab_action);
        assert(collab_fn(s, lib, p)(c) == collab_action(s, lib, p, c));
    }
}

proof fn lemma_baton_offers_no_collab(s: GameState, lib: GlobalLibrary, p: Player)
    ensures
        forall|c: CardRef| (#[trigger] baton_fn(s, lib)(c) matches Some(Some(a)) ==> collab_only_when_free(s, p)(a)),
{
    assert forall|c: CardRef| (#[trigger] baton_fn(s, lib)(c) matches Some(Some(a)) ==> collab_only_when_free(s, p)(a)) by {
        reveal(baton_action);
        assert(baton_fn(s, lib)(c) == baton_action(s, lib, c));
    }
}

/// A collab is offered in the main step only while the collab position of the player is
/// free: every collab among the actions of the main step comes from a board whose collab
/// position holds no member.
pub proof fn lemma_collab_offered_only_when_free(s: GameState, lib: GlobalLibrary, p: Player)
    requires
        main_step_candidates(s, lib, p) is Some,
    ensures
        forall|k: int|
            0 <= k < main_step_candidates(s, lib, p)->0.len() && (
            #[trigger] main_step_candidates(s, lib, p)->0[k]) is CollabMember ==> spec_board(s, p).collab is None,
{
    let b = spec_board(s, p);
    let ok = collab_only_when_free(s, p);
    let fh = hand_fn(s, lib, p);
    let fc = collab_fn(s, lib, p);
    let fb = baton_fn(s, lib);
    let hs = b.hand@;
    let bs = b.back_stage@;
    let cs = crate::board::opt_seq(b.center_stage);
    lemma_hand_offers_no_collab(s, lib, p);
    lemma_collab_needs_free_position(s, lib, p);
    lemma_baton_offers_no_collab(s, lib, p);
    lemma_collect_keeps(hs, fh, ok);
    lemma_collect_keeps(bs, fc, ok);
    lemma_collect_keeps(cs, fb, ok);
    let h = collect(hs, fh)->0;
    let co = collect(bs, fc)->0;
    let ba = collect(cs, fb)->0;
    let sk = oshi_actions(s, lib, p)->0;
    match b.oshi {
        None => {},
        Some(c) => match lookup(s, lib, c) {
            Some(Card::OshiHoloMember(o)) => lemma_skill_actions_are_skills(s, lib, o, c, o.skills@.len()),
            _ => {},
        },
    }
    let all = h + co + ba + sk + seq![MainStepAction::Done];
    assert(main_step_candidates(s, lib, p)->0 == all);
    assert forall|k: int| 0 <= k < all.len() && (#[trigger] all[k]) is CollabMember implies b.collab is None by {
        if k < h.len() {
            assert(all[k] == h[k]);
            assert(ok(h[k]));
        } else if k < h.len() + co.len() {
            assert(all[k] == co[k - h.len()]);
            assert(ok(co[k - h.len()]));
        } else if k < h.len() + co.len() + ba.len() {
            assert(all[k] == ba[k - h.len() - co.len()]);
            assert(ok(ba[k - h.len() - co.len()]));
        } else if k < h.len() + co.len() + ba.len() + sk.len() {
            assert(all[k] == sk[k - h.len() - co.len() - ba.len()]);
        } else {
            assert(all[k] == MainStepAction::Done);
        }
    }
}

pub proof fn lemma_skill_prefix(s: GameState, lib: GlobalLibrary, o: OshiHoloMemberCard, c: CardRef, n: nat, k: nat)
    requires
        skill_actions(s, lib, o, c, n) is Some,
        k <= n,
    ensures
        skill_actions(s, lib, o, c, k) is Some,
    decreases n,
{
    if k < n {
        lemma_skill_prefix(s, lib, o, c, (n - 1) as nat, k);
    }
}

fn has_trigger(ts: &Vec<Trigger>, t: Trigger) -> (res: bool)
    ensures
        res == ts@.contains(t),
{
    let mut i: usize = 0;
    while i < ts.len()
        invariant
            0 <= i <= ts@.len(),
            forall|j: int| 0 <= j < i ==> ts@[j] != t,
        decreases ts@.len() - i,
    {
        if ts[i] == t {
            assert(ts@[i as int] == t);
            return true;
        }
        i = i + 1;
    }
    false
}

impl GameState {
    pub(crate) fn members_among_exec(&self, library: &GlobalLibrary, cs: &Vec<CardRef>) -> (res: Vec<CardRef>)
        requires
            members_among(*self, *library, cs@) is Some,
        ensures
            res@ == members_among(*self, *library, cs@)->0,
    {
        let ghost f = member_fn(*self, *library);
        let mut out: Vec<CardRef> = Vec::new();
        let mut i: usize = 0;
        assert(cs@.take(0) =~= Seq::<CardRef>::empty());
        while i < cs.len()
            invariant
                0 <= i <= cs@.len(),
                f == member_fn(*self, *library),
                collect(cs@, f) is Some,
                collect(cs@.take(i as int), f) == Some(out@),
            decreases cs@.len() - i,
        {
            proof {
                reveal(lookup);
                lemma_collect_prefix(cs@, f, i as int);
            }
            let c = cs[i];
            assert(f(c) == member_entry(*self, *library, c));
            if self.lookup_holo_member(library, c).is_some() {
                out.push(c);
            }
            i = i + 1;
        }
        assert(cs@.take(cs@.len() as int) =~= cs@);
        out
    }

    fn bloom_test_exec(&self, library: &GlobalLibrary, m: &HoloMemberCard, c: CardRef) -> (res: bool)
        requires
            punique_keys(self.zone_modifiers@),
            bloom_test(*self, *library, *m, c) is Some,
        ensures
            bloom_test(*self, *library, *m, c) == Some(res),
    {
        reveal(bloom_test);
        reveal(lookup);
        match self.lookup_holo_member(library, c) {
            Some(t) => m.can_bloom_target(c, self, library, (c, t)),
            None => false,
        }
    }

    fn can_bloom_any_exec(&self, library: &GlobalLibrary, m: &HoloMemberCard, cs: &Vec<CardRef>) -> (res: bool)
        requires
            punique_keys(self.zone_modifiers@),
            can_bloom_any(*self, *library, *m, cs@) is Some,
        ensures
            can_bloom_any(*self, *library, *m, cs@) == Some(res),
    {
        let mut i: usize = 0;
        assert(cs@.skip(0) =~= cs@);
        while i < cs.len()
            invariant
                0 <= i <= cs@.len(),
                punique_keys(self.zone_modifiers@),
                can_bloom_any(*self, *library, *m, cs@) is Some,
                can_bloom_any(*self, *library, *m, cs@) == can_bloom_any(
                    *self,
                    *library,
                    *m,
                    cs@.skip(i as int),
                ),
            decreases cs@.len() - i,
        {
            proof {
                assert(cs@.skip(i as int)[0] == cs@[i as int]);
                assert(cs@.skip(i as int).drop_first() =~= cs@.skip(i + 1));
            }
            if self.bloom_test_exec(library, m, cs[i]) {
                return true;
            }
            i = i + 1;
        }
        assert(cs@.skip(cs@.len() as int) =~= Seq::<CardRef>::empty());
        false
    }

    fn can_use_any_effect_exec(&self, library: &GlobalLibrary, sup: &SupportCard, c: CardRef) -> (res: bool)
        requires
            self.is_registered(c),
            punique_keys(self.zone_modifiers@),
            can_use_any_effect(*sup, c, *self, *library, 0) is Some,
        ensures
            can_use_any_effect(*sup, c, *self, *library, 0) == Some(res),
    {
        let mut i: usize = 0;
        while i < sup.effects.len()
            invariant
                0 <= i <= sup.effects@.len(),
                self.is_registered(c),
                punique_keys(self.zone_modifiers@),
                can_use_any_effect(*sup, c, *self, *library, 0) is Some,
                can_use_any_effect(*sup, c, *self, *library, 0) == can_use_any_effect(
                    *sup,
                    c,
                    *self,
                    *library,
                    i as int,
                ),
            decreases sup.effects@.len() - i,
        {
            if sup.can_use_support(c, i, self, library) {
                return true;
            }
            i = i + 1;
        }
        false
    }

    fn hand_action_exec(&self, library: &GlobalLibrary, player: Player, c: CardRef) -> (res: Option<MainStepAction>)
        requires
            player != Player::Both,
            punique_keys(self.zone_modifiers@),
            hand_action(*self, *library, player, c) is Some,
        ensures
            hand_action(*self, *library, player, c) == Some(res),
    {
        reveal(hand_action);
        reveal(lookup);
        match self.lookup_card(library, c) {
            Card::HoloMember(m) => {
                let stage = self.board(player).stage();
                if m.level == HoloMemberLevel::Debut || m.level == HoloMemberLevel::Spot {
                    let members = self.members_among_exec(library, &stage);
                    if members.len() < MAX_MEMBERS_ON_STAGE {
                        Some(MainStepAction::BackStageMember(c))
                    } else {
                        None
                    }
                } else if self.can_bloom_any_exec(library, m, &stage) {
                    Some(MainStepAction::BloomMember(c))
                } else {
                    None
                }
            },
            Card::Support(sup) => {
                if self.can_use_any_effect_exec(library, sup, c) {
                    Some(MainStepAction::UseSupportCard(c))
                } else {
                    None
                }
            },
            _ => None,
        }
    }

    fn collab_action_exec(&self, library: &GlobalLibrary, player: Player, c: CardRef) -> (res: Option<MainStepAction>)
        requires
            player != Player::Both,
            punique_keys(self.zone_modifiers@),
            collab_action(*self, *library, player, c) is Some,
        ensures
            collab_action(*self, *library, player, c) == Some(res),
    {
        reveal(collab_action);
        reveal(lookup);
        if self.has_modifier(library, c, ModifierKind::Resting) {
            return None;
        }
        if self.has_modifier(library, c, ModifierKind::PreventCollab) {
            return None;
        }
        match self.lookup_card(library, c) {
            Card::HoloMember(_) => {
                if self.board(player).collab.is_none() {
                    Some(MainStepAction::CollabMember(c))
                } else {
                    None
                }
            },
            _ => None,
        }
    }

    fn baton_action_exec(&self, library: &GlobalLibrary, c: CardRef) -> (res: Option<MainStepAction>)
        requires
            punique_keys(self.zone_modifiers@),
            baton_action(*self, *library, c) is Some,
        ensures
            baton_action(*self, *library, c) == Some(res),
    {
        reveal(baton_action);
        reveal(lookup);
        match self.lookup_card(library, c) {
            Card::HoloMember(m) => {
                if m.can_baton_pass(c, self, library) {
                    Some(MainStepAction::BatonPass(c))
                } else {
                    None
                }
            },
            _ => None,
        }
    }

    fn oshi_actions_exec(&self, library: &GlobalLibrary, player: Player) -> (res: Vec<MainStepAction>)
        requires
            player != Player::Both,
            punique_keys(self.zone_modifiers@),
            oshi_actions(*self, *library, player) is Some,
        ensures
            res@ == oshi_actions(*self, *library, player)->0,
    {
        reveal(lookup);
        let mut out: Vec<MainStepAction> = Vec::new();
        match self.board(player).oshi {
            None => {
                assert(out@ =~= Seq::<MainStepAction>::empty());
            },
            Some(c) => match self.lookup_card(library, c) {
                Card::OshiHoloMember(o) => {
                    let ghost n = o.skills@.len();
                    let mut i: usize = 0;
                    assert(out@ =~= Seq::<MainStepAction>::empty());
                    while i < o.skills.len()
                        invariant
                            0 <= i <= o.skills@.len(),
                            n == o.skills@.len(),
                            self.is_registered(c),
                            punique_keys(self.zone_modifiers@),
                            skill_actions(*self, *library, *o, c, n) is Some,
                            skill_actions(*self, *library, *o, c, i as nat) == Some(out@),
                        decreases o.skills@.len() - i,
                    {
                        proof {
                            lemma_skill_prefix(*self, *library, *o, c, n, (i + 1) as nat);
                        }
                        if has_trigger(&o.skills[i].triggers, Trigger::ActivateInMainStep) {
                            if o.can_use_skill(c, i, self, library, false) {
                                out.push(MainStepAction::UseOshiSkill(c, i));
                            }
                        }
                        i = i + 1;
                    }
                },
                _ => {},
            },
        }
        out
    }

    /// Everything a player can do in the main step, in order: members from the hand to the
    /// back stage or blooming, support cards, collabs, a baton pass, oshi skills, and being
    /// done.
    pub fn main_step_actions(&self, library: &GlobalLibrary, player: Player) -> (res: Vec<MainStepAction>)
        requires
            player != Player::Both,
            punique_keys(self.zone_modifiers@),
            main_step_candidates(*self, *library, player) is Some,
        ensures
            main_sorted(res@),
            res@.to_multiset() == main_step_candidates(*self, *library, player)->0.to_multiset(),
            forall|k: int|
                0 <= k < res@.len() && (#[trigger] res@[k]) is CollabMember ==> spec_board(
                    *self,
                    player,
                ).collab is None,
    {
        let ghost b = spec_board(*self, player);
        let ghost fh = hand_fn(*self, *library, player);
        let ghost fc = collab_fn(*self, *library, player);
        let ghost fb = baton_fn(*self, *library);
        let mut actions: Vec<MainStepAction> = Vec::new();

        let hand = self.board(player).hand();
        let mut i: usize = 0;
        assert(hand@.take(0) =~= Seq::<CardRef>::empty());
        while i < hand.len()
            invariant
                0 <= i <= hand@.len(),
                player != Player::Both,
                punique_keys(self.zone_modifiers@),
                fh == hand_fn(*self, *library, player),
                collect(hand@, fh) is Some,
                collect(hand@.take(i as int), fh) == Some(actions@),
            decreases hand@.len() - i,
        {
            proof {
                lemma_collect_prefix(hand@, fh, i as int);
            }
            let c = hand[i];
            assert(fh(c) == hand_action(*self, *library, player, c));
            match self.hand_action_exec(library, player, c) {
                Some(a) => actions.push(a),
                None => {},
            }
            i = i + 1;
        }
        assert(hand@.take(hand@.len() as int) =~= hand@);
        let ghost from_hand = actions@;

        let back = self.board(player).back_stage();
        let mut j: usize = 0;
        let mut collabs: Vec<MainStepAction> = Vec::new();
        assert(back@.take(0) =~= Seq::<CardRef>::empty());
        while j < back.len()
            invariant
                0 <= j <= back@.len(),
                player != Player::Both,
                punique_keys(self.zone_modifiers@),
                fc == collab_fn(*self, *library, player),
                collect(back@, fc) is Some,
                collect(back@.take(j as int), fc) == Some(collabs@),
            decreases back@.len() - j,
        {
            proof {
                lemma_collect_prefix(back@, fc, j as int);
            }
            let c = back[j];
            assert(fc(c) == collab_action(*self, *library, player, c));
            match self.collab_action_exec(library, player, c) {
                Some(a) => collabs.push(a),
                None => {},
            }
            j = j + 1;
        }
        assert(back@.take(back@.len() as int) =~= back@);

        let mut batons: Vec<MainStepAction> = Vec::new();
        match self.board(player).center_stage {
            Some(c) => {
                let ghost cs = crate::board::opt_seq(b.center_stage);
                proof {
                    assert(cs.drop_last() =~= Seq::<CardRef>::empty());
                    assert(collect(cs.drop_last(), fb) == Some(Seq::<MainStepAction>::empty()));
                    assert(cs.last() == c);
                    assert(fb(c) == baton_action(*self, *library, c));
                }
                match self.baton_action_exec(library, c) {
                    Some(a) => batons.push(a),
                    None => {},
                }
                assert(collect(cs, fb) == Some(batons@));
            },
            None => {
                assert(crate::board::opt_seq(b.center_stage) =~= Seq::<CardRef>::empty());
                assert(batons@ =~= Seq::<MainStepAction>::empty());
            },
        }

        let skills = self.oshi_actions_exec(library, player);
        let mut all = actions;
        all.append(&mut collabs);
        all.append(&mut batons);
        let mut skills = skills;
        all.append(&mut skills);
        all.push(MainStepAction::Done);
        let ghost cands = main_step_candidates(*self, *library, player)->0;
        assert(all@ =~= cands);
        let res = sort_main_actions(all);
        proof {
            broadcast use vstd::seq_lib::group_to_multiset_ensures;

            lemma_collab_offered_only_when_free(*self, *library, player);
            assert forall|k: int| 0 <= k < res@.len() && (#[trigger] res@[k]) is CollabMember implies spec_board(
                *self,
                player,
            ).collab is None by {
                assert(res@.contains(res@[k]));
                assert(cands.to_multiset().count(res@[k]) > 0);
                assert(cands.contains(res@[k]));
                let i = choose|i: int| 0 <= i < cands.len() && cands[i] == res@[k];
                assert(cands[i] is CollabMember);
            }
        }
        res
    }
}

// ------------------------------------------------------------------
// what a player can do in the performance step
// ------------------------------------------------------------------

/// Two lists one after the other, when both are there.
pub open spec fn opt_concat<A>(a: Option<Seq<A>>, b: Option<Seq<A>>) -> Option<Seq<A>> {
    match (a, b) {
        (Some(x), Some(y)) => Some(x + y),
        _ => None,
    }
}

/// The arts among the first `n` of the member that can be used on the target, in order.
pub open spec fn usable_arts(s: GameState, lib: GlobalLibrary, c: CardRef, m: HoloMemberCard, target: CardRef, n: nat) -> Option<
    Seq<PerformanceStepAction>,
>
    decreases n,
{
    if n == 0 {
        Some(Seq::empty())
    } else {
        opt_push(
            usable_arts(s, lib, c, m, target, (n - 1) as nat),
            offer(
                m.spec_can_use_art(c, n - 1, target, s, lib),
                PerformanceStepAction::UseArt { card: c, art_idx: (n - 1) as usize, target },
            ),
        )
    }
}

/// The arts of the member that can be used on each of the targets, target after target.
pub open spec fn arts_on_targets(s: GameState, lib: GlobalLibrary, c: CardRef, m: HoloMemberCard, targets: Seq<CardRef>) -> Option<
    Seq<PerformanceStepAction>,
>
    decreases targets.len(),
{
    if targets.len() == 0 {
        Some(Seq::empty())
    } else {
        opt_concat(
            arts_on_targets(s, lib, c, m, targets.drop_last()),
            usable_arts(s, lib, c, m, targets.last(), m.arts@.len()),
        )
    }
}

/// The arts that each of the members can use on the targets, member after member.
pub open spec fn arts_of_members(s: GameState, lib: GlobalLibrary, members: Seq<CardRef>, targets: Seq<CardRef>) -> Option<
    Seq<PerformanceStepAction>,
>
    decreases members.len(),
{
    if members.len() == 0 {
        Some(Seq::empty())
    } else {
        opt_concat(
            arts_of_members(s, lib, members.drop_last(), targets),
            match lookup(s, lib, members.last()) {
                Some(Card::HoloMember(m)) => arts_on_targets(s, lib, members.last(), m, targets),
                _ => None,
            },
        )
    }
}

/// Everything a player can do in the performance step: each art of a member of the main
/// stage on each member of the opponent's main stage, when it can be used, then being done.
/// The opponent's stage is looked at only when the player has a member there.
pub open spec fn art_step_candidates(s: GameState, lib: GlobalLibrary, p: Player) -> Option<
    Seq<PerformanceStepAction>,
> {
    match members_among(s, lib, spec_board(s, p).zone_cards(Zone::MainStage)) {
        Some(ms) => if ms.len() == 0 {
            Some(seq![PerformanceStepAction::Done])
        } else {
            match members_among(
                s,
                lib,
                spec_board(s, crate::gameplay::spec_opponent(p)).zone_cards(Zone::MainStage),
            ) {
                Some(os) => match arts_of_members(s, lib, ms, os) {
                    Some(a) => Some(a.push(PerformanceStepAction::Done)),
                    None => None,
                },
                None => None,
            }
        },
        None => None,
    }
}

pub proof fn lemma_usable_arts_prefix(
    s: GameState,
    lib: GlobalLibrary,
    c: CardRef,
    m: HoloMemberCard,
    target: CardRef,
    n: nat,
    k: nat,
)
    requires
        usable_arts(s, lib, c, m, target, n) is Some,
        k <= n,
    ensures
        usable_arts(s, lib, c, m, target, k) is Some,
    decreases n,
{
    if k < n {
        lemma_usable_arts_prefix(s, lib, c, m, target, (n - 1) as nat, k);
    }
}

pub proof fn lemma_targets_prefix(s: GameState, lib: GlobalLibrary, c: CardRef, m: HoloMemberCard, ts: Seq<CardRef>, i: int)
    requires
        arts_on_targets(s, lib, c, m, ts) is Some,
        0 <= i <= ts.len(),
    ensures
        arts_on_targets(s, lib, c, m, ts.take(i)) is Some,
        i < ts.len() ==> usable_arts(s, lib, c, m, ts[i], m.arts@.len()) is Some,
        i < ts.len() ==> arts_on_targets(s, lib, c, m, ts.take(i + 1)) == opt_concat(
            arts_on_targets(s, lib, c, m, ts.take(i)),
            usable_arts(s, lib, c, m, ts[i], m.arts@.len()),
        ),
    decreases ts.len(),
{
    if i == ts.len() {
        assert(ts.take(i) =~= ts);
    } else {
        assert(ts.take(i + 1).drop_last() =~= ts.take(i));
        if i == ts.len() - 1 {
            assert(ts.take(i) =~= ts.drop_last());
        } else {
            lemma_targets_prefix(s, lib, c, m, ts.drop_last(), i);
            assert(ts.drop_last().take(i) =~= ts.take(i));
        }
    }
}

pub proof fn lemma_members_prefix(s: GameState, lib: GlobalLibrary, ms: Seq<CardRef>, ts: Seq<CardRef>, i: int)
    requires
        arts_of_members(s, lib, ms, ts) is Some,
        0 <= i <= ms.len(),
    ensures
        arts_of_members(s, lib, ms.take(i), ts) is Some,
        i < ms.len() ==> (match lookup(s, lib, ms[i]) {
            Some(Card::HoloMember(m)) => arts_on_targets(s, lib, ms[i], m, ts),
            _ => None,
        }) is Some,
        i < ms.len() ==> arts_of_members(s, lib, ms.take(i + 1), ts) == opt_concat(
            arts_of_members(s, lib, ms.take(i), ts),
            match lookup(s, lib, ms[i]) {
                Some(Card::HoloMember(m)) => arts_on_targets(s, lib, ms[i], m, ts),
                _ => None,
            },
        ),
    decreases ms.len(),
{
    if i == ms.len() {
        assert(ms.take(i) =~= ms);
    } else {
        assert(ms.take(i + 1).drop_last() =~= ms.take(i));
        if i == ms.len() - 1 {
            assert(ms.take(i) =~= ms.drop_last());
        } else {
            lemma_members_prefix(s, lib, ms.drop_last(), ts, i);
            assert(ms.drop_last().take(i) =~= ms.take(i));
        }
    }
}

impl GameState {
    fn usable_arts_exec(&self, library: &GlobalLibrary, c: CardRef, m: &HoloMemberCard, target: CardRef) -> (res: Vec<PerformanceStepAction>)
        requires
            self.is_registered(c),
            punique_keys(self.zone_modifiers@),
            usable_arts(*self, *library, c, *m, target, m.arts@.len()) is Some,
        ensures
            res@ == usable_arts(*self, *library, c, *m, target, m.arts@.len())->0,
    {
        let ghost n = m.arts@.len();
        let mut out: Vec<PerformanceStepAction> = Vec::new();
        let mut i: usize = 0;
        assert(out@ =~= Seq::<PerformanceStepAction>::empty());
        while i < m.arts.len()
            invariant
                0 <= i <= m.arts@.len(),
                n == m.arts@.len(),
                self.is_registered(c),
                punique_keys(self.zone_modifiers@),
                usable_arts(*self, *library, c, *m, target, n) is Some,
                usable_arts(*self, *library, c, *m, target, i as nat) == Some(out@),
            decreases m.arts@.len() - i,
        {
            proof {
                lemma_usable_arts_prefix(*self, *library, c, *m, target, n, (i + 1) as nat);
            }
            if m.can_use_art(c, i, target, self, library) {
                out.push(PerformanceStepAction::UseArt { card: c, art_idx: i, target });
            }
            i = i + 1;
        }
        out
    }

    fn arts_on_targets_exec(&self, library: &GlobalLibrary, c: CardRef, m: &HoloMemberCard, targets: &Vec<CardRef>) -> (res: Vec<PerformanceStepAction>)
        requires
            self.is_registered(c),
            punique_keys(self.zone_modifiers@),
            arts_on_targets(*self, *library, c, *m, targets@) is Some,
        ensures
            res@ == arts_on_targets(*self, *library, c, *m, targets@)->0,
    {
        let mut out: Vec<PerformanceStepAction> = Vec::new();
        let mut i: usize = 0;
        assert(targets@.take(0) =~= Seq::<CardRef>::empty());
        assert(out@ =~= Seq::<PerformanceStepAction>::empty());
        while i < targets.len()
            invariant
                0 <= i <= targets@.len(),
                self.is_registered(c),
                punique_keys(self.zone_modifiers@),
                arts_on_targets(*self, *library, c, *m, targets@) is Some,
                arts_on_targets(*self, *library, c, *m, targets@.take(i as int)) == Some(out@),
            decreases targets@.len() - i,
        {
            proof {
                lemma_targets_prefix(*self, *library, c, *m, targets@, i as int);
            }
            let mut more = self.usable_arts_exec(library, c, m, targets[i]);
            out.append(&mut more);
            i = i + 1;
        }
        assert(targets@.take(targets@.len() as int) =~= targets@);
        out
    }

    #[verifier::rlimit(40)]
    fn arts_of_members_exec(&self, library: &GlobalLibrary, members: &Vec<CardRef>, targets: &Vec<CardRef>) -> (res: Vec<PerformanceStepAction>)
        requires
            punique_keys(self.zone_modifiers@),
            arts_of_members(*self, *library, members@, targets@) is Some,
        ensures
            res@ == arts_of_members(*self, *library, members@, targets@)->0,
    {
        let mut out: Vec<PerformanceStepAction> = Vec::new();
        let mut i: usize = 0;
        assert(members@.take(0) =~= Seq::<CardRef>::empty());
        assert(out@ =~= Seq::<PerformanceStepAction>::empty());
        while i < members.len()
            invariant
                0 <= i <= members@.len(),
                punique_keys(self.zone_modifiers@),
                arts_of_members(*self, *library, members@, targets@) is Some,
                arts_of_members(*self, *library, members@.take(i as int), targets@) == Some(out@),
            decreases members@.len() - i,
        {
            proof {
                reveal(lookup);
                lemma_members_prefix(*self, *library, members@, targets@, i as int);
            }
            let c = members[i];
            match self.lookup_holo_member(library, c) {
                Some(m) => {
                    let mut more = self.arts_on_targets_exec(library, c, m, targets);
                    out.append(&mut more);
                },
                None => {},
            }
            i = i + 1;
        }
        assert(members@.take(members@.len() as int) =~= members@);
        out
    }

    /// Everything a player can do in the performance step, in order: each art of a member of
    /// the main stage that can be used on a member of the opponent's main stage, and being
    /// done.
    pub fn art_step_actions(&self, library: &GlobalLibrary, player: Player) -> (res: Vec<PerformanceStepAction>)
        requires
            player != Player::Both,
            punique_keys(self.zone_modifiers@),
            art_step_candidates(*self, *library, player) is Some,
        ensures
            art_sorted(res@),
            res@.to_multiset() == art_step_candidates(*self, *library, player)->0.to_multiset(),
    {
        let mine = self.board(player).main_stage();
        let members = self.members_among_exec(library, &mine);
        let mut actions: Vec<PerformanceStepAction> = Vec::new();
        if members.len() > 0 {
            let theirs = self.board(player.opponent()).main_stage();
            let targets = self.members_among_exec(library, &theirs);
            actions = self.arts_of_members_exec(library, &members, &targets);
        }
        actions.push(PerformanceStepAction::Done);
        proof {
            let cands = art_step_candidates(*self, *library, player)->0;
            if members@.len() == 0 {
                assert(actions@ =~= cands);
            } else {
                assert(actions@ =~= cands);
            }
        }
        sort_art_actions(actions)
    }
}

} // verus!
