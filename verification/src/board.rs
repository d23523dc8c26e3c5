use std::collections::VecDeque;
use vstd::multiset::Multiset;
use vstd::prelude::*;

use crate::gameplay::{is_single_zone, is_storage_zone, spec_default_add_location, CardRef, Zone, ZoneAddLocation};

verus! {

// ------------------------------------------------------------------
// a pile of cards and a slot for one card
// ------------------------------------------------------------------

/// The position of the first copy of a card.
pub open spec fn first_index(s: Seq<CardRef>, c: CardRef) -> int {
    choose|i: int| 0 <= i < s.len() && s[i] == c && forall|j: int| 0 <= j < i ==> s[j] != c
}

/// The pile without the first copy of a card.
pub open spec fn remove_first(s: Seq<CardRef>, c: CardRef) -> Seq<CardRef> {
    if s.contains(c) {
        s.remove(first_index(s, c))
    } else {
        s
    }
}

/// The pile with the first copy of a card replaced.
pub open spec fn replace_first(s: Seq<CardRef>, from: CardRef, to: CardRef) -> Seq<CardRef> {
    if s.contains(from) {
        s.update(first_index(s, from), to)
    } else {
        s
    }
}

pub open spec fn add_at(s: Seq<CardRef>, c: CardRef, location: ZoneAddLocation) -> Seq<CardRef> {
    match location {
        ZoneAddLocation::Top => seq![c] + s,
        ZoneAddLocation::Bottom => s.push(c),
    }
}

pub open spec fn opt_seq(o: Option<CardRef>) -> Seq<CardRef> {
    match o {
        Some(c) => seq![c],
        None => Seq::empty(),
    }
}

pub open spec fn min(a: int, b: int) -> int {
    if a <= b {
        a
    } else {
        b
    }
}

pub fn position_of(d: &VecDeque<CardRef>, c: CardRef) -> (res: Option<usize>)
    ensures
        match res {
            Some(i) => i < d@.len() && d@[i as int] == c && forall|j: int| 0 <= j < i ==> d@[j]
                != c,
            None => !d@.contains(c),
        },
{
    let mut i: usize = 0;
    while i < d.len()
        invariant
            0 <= i <= d@.len(),
            forall|j: int| 0 <= j < i ==> d@[j] != c,
        decreases d@.len() - i,
    {
        if d[i] == c {
            return Some(i);
        }
        i = i + 1;
    }
    None
}

proof fn lemma_first_index(s: Seq<CardRef>, c: CardRef, i: int)
    requires
        0 <= i < s.len(),
        s[i] == c,
        forall|j: int| 0 <= j < i ==> s[j] != c,
    ensures
        first_index(s, c) == i,
        s.contains(c),
{
    let k = first_index(s, c);
    assert(0 <= k < s.len() && s[k] == c && forall|j: int| 0 <= j < k ==> s[j] != c);
    if k < i {
        assert(s[k] != c);
    }
    if i < k {
        assert(s[i] != c);
    }
}

pub fn deque_contains(d: &VecDeque<CardRef>, c: CardRef) -> (res: bool)
    ensures
        res == d@.contains(c),
{
    position_of(d, c).is_some()
}

pub fn deque_remove(d: &mut VecDeque<CardRef>, c: CardRef)
    ensures
        final(d)@ == remove_first(old(d)@, c),
{
    match position_of(d, c) {
        Some(i) => {
            proof {
                lemma_first_index(d@, c, i as int);
            }
            d.remove(i);
        },
        None => {},
    }
}

pub fn deque_add(d: &mut VecDeque<CardRef>, c: CardRef, location: ZoneAddLocation)
    ensures
        final(d)@ == add_at(old(d)@, c, location),
{
    match location {
        ZoneAddLocation::Top => {
            d.push_front(c);
        },
        ZoneAddLocation::Bottom => {
            d.push_back(c);
        },
    }
}

pub fn deque_replace(d: &mut VecDeque<CardRef>, from: CardRef, to: CardRef)
    ensures
        final(d)@ == replace_first(old(d)@, from, to),
{
    match position_of(d, from) {
        Some(i) => {
            proof {
                lemma_first_index(d@, from, i as int);
            }
            let ghost old_d = d@;
            d.remove(i);
            d.insert(i, to);
            assert(d@ =~= old_d.update(i as int, to));
        },
        None => {},
    }
}

pub fn deque_peek_top_cards(d: &VecDeque<CardRef>, amount: usize) -> (res: Vec<CardRef>)
    ensures
        res@ == d@.take(min(amount as int, d@.len() as int)),
{
    let mut out: Vec<CardRef> = Vec::new();
    let mut i: usize = 0;
    while i < amount && i < d.len()
        invariant
            0 <= i <= d@.len(),
            i <= amount,
            out@ == d@.take(i as int),
        decreases d@.len() - i,
    {
        out.push(d[i]);
        assert(d@.take(i + 1) =~= d@.take(i as int).push(d@[i as int]));
        i = i + 1;
    }
    out
}

pub fn deque_all_cards(d: &VecDeque<CardRef>) -> (res: Vec<CardRef>)
    ensures
        res@ == d@,
{
    let res = deque_peek_top_cards(d, d.len());
    assert(d@.take(d@.len() as int) =~= d@);
    res
}


// ------------------------------------------------------------------
// a player's board
// ------------------------------------------------------------------

/// The zones of one player, and the cards attached to others, as (attachment, card).
#[derive(Debug)]
pub struct GameBoard {
    pub oshi: Option<CardRef>,
    pub main_deck: VecDeque<CardRef>,
    pub center_stage: Option<CardRef>,
    pub collab: Option<CardRef>,
    pub back_stage: VecDeque<CardRef>,
    pub life: VecDeque<CardRef>,
    pub cheer_deck: VecDeque<CardRef>,
    pub holo_power: VecDeque<CardRef>,
    pub archive: VecDeque<CardRef>,
    pub hand: VecDeque<CardRef>,
    pub activate_support: VecDeque<CardRef>,
    pub attachments: Vec<(CardRef, CardRef)>,
}

/// The zones that keep cards, in the order in which a card is looked for.
pub open spec fn storage_zones() -> Seq<Zone> {
    seq![
        Zone::MainDeck,
        Zone::Oshi,
        Zone::CenterStage,
        Zone::Collab,
        Zone::BackStage,
        Zone::Life,
        Zone::CheerDeck,
        Zone::HoloPower,
        Zone::Archive,
        Zone::Hand,
        Zone::ActivateSupport,
    ]
}

pub proof fn lemma_storage_zones()
    ensures
        storage_zones().no_duplicates(),
        forall|z: Zone| is_storage_zone(z) <==> storage_zones().contains(z),
{
    let zs = storage_zones();
    assert forall|z: Zone| is_storage_zone(z) implies zs.contains(z) by {
        match z {
            Zone::MainDeck => assert(zs[0] == z),
            Zone::Oshi => assert(zs[1] == z),
            Zone::CenterStage => assert(zs[2] == z),
            Zone::Collab => assert(zs[3] == z),
            Zone::BackStage => assert(zs[4] == z),
            Zone::Life => assert(zs[5] == z),
            Zone::CheerDeck => assert(zs[6] == z),
            Zone::HoloPower => assert(zs[7] == z),
            Zone::Archive => assert(zs[8] == z),
            Zone::Hand => assert(zs[9] == z),
            Zone::ActivateSupport => assert(zs[10] == z),
            _ => {},
        }
    }
}

/// The keys of an association list.
pub open spec fn pair_keys(s: Seq<(CardRef, CardRef)>) -> Seq<CardRef> {
    s.map_values(|p: (CardRef, CardRef)| p.0)
}

/// The value of the first pair with the key.
pub open spec fn pair_value(s: Seq<(CardRef, CardRef)>, k: CardRef) -> Option<CardRef> {
    if pair_keys(s).contains(k) {
        Some(s[first_index(pair_keys(s), k)].1)
    } else {
        None
    }
}

/// The pairs whose key is not the card.
pub open spec fn without_key(s: Seq<(CardRef, CardRef)>, k: CardRef) -> Seq<(CardRef, CardRef)>
    decreases s.len(),
{
    if s.len() == 0 {
        Seq::empty()
    } else {
        without_key(s.drop_last(), k) + (if s.last().0 == k {
            Seq::empty()
        } else {
            seq![s.last()]
        })
    }
}

/// The pairs with every value of the key set to `v`.
pub open spec fn set_value(s: Seq<(CardRef, CardRef)>, k: CardRef, v: CardRef) -> Seq<
    (CardRef, CardRef),
> {
    s.map_values(|p: (CardRef, CardRef)| if p.0 == k { (k, v) } else { p })
}

/// The pairs where the key now maps to `v`: updated where it is, added at the end if not.
pub open spec fn insert_pair(s: Seq<(CardRef, CardRef)>, k: CardRef, v: CardRef) -> Seq<
    (CardRef, CardRef),
> {
    if pair_keys(s).contains(k) {
        set_value(s, k, v)
    } else {
        s.push((k, v))
    }
}

/// The pairs with every value `from` changed to `to`.
pub open spec fn retarget(s: Seq<(CardRef, CardRef)>, from: CardRef, to: CardRef) -> Seq<
    (CardRef, CardRef),
> {
    s.map_values(|p: (CardRef, CardRef)| if p.1 == from { (p.0, to) } else { p })
}

/// The keys whose value is the card, in order.
pub open spec fn keys_with_value(s: Seq<(CardRef, CardRef)>, v: CardRef) -> Seq<CardRef>
    decreases s.len(),
{
    if s.len() == 0 {
        Seq::empty()
    } else {
        keys_with_value(s.drop_last(), v) + (if s.last().1 == v {
            seq![s.last().0]
        } else {
            Seq::empty()
        })
    }
}

impl GameBoard {
    /// The cards of a zone, top first. A zone that groups others has no cards of its own.
    pub open spec fn zone_seq(&self, z: Zone) -> Seq<CardRef> {
        match z {
            Zone::MainDeck => self.main_deck@,
            Zone::Oshi => opt_seq(self.oshi),
            Zone::CenterStage => opt_seq(self.center_stage),
            Zone::Collab => opt_seq(self.collab),
            Zone::BackStage => self.back_stage@,
            Zone::Life => self.life@,
            Zone::CheerDeck => self.cheer_deck@,
            Zone::HoloPower => self.holo_power@,
            Zone::Archive => self.archive@,
            Zone::Hand => self.hand@,
            Zone::ActivateSupport => self.activate_support@,
            _ => Seq::empty(),
        }
    }

    /// The cards of a zone, with the zones that it groups: the stage is the center, the
    /// collab and the back stage, in that order.
    pub open spec fn zone_cards(&self, z: Zone) -> Seq<CardRef> {
        match z {
            Zone::Stage => opt_seq(self.center_stage) + opt_seq(self.collab) + self.back_stage@,
            Zone::MainStage => opt_seq(self.center_stage) + opt_seq(self.collab),
            _ => self.zone_seq(z),
        }
    }

    pub open spec fn spec_find_card_zone(&self, c: CardRef) -> Option<Zone> {
        self@.find_zone(c)
    }
}

/// What a board holds: the cards of each zone, top first, and the attachments as
/// (attachment, card) pairs.
#[verifier::ext_equal]
pub struct BoardState {
    pub zones: spec_fn(Zone) -> Seq<CardRef>,
    pub attachments: Seq<(CardRef, CardRef)>,
}

impl View for GameBoard {
    type V = BoardState;

    open spec fn view(&self) -> BoardState {
        BoardState { zones: |z: Zone| self.zone_seq(z), attachments: self.attachments@ }
    }
}

impl BoardState {
    pub open spec fn zone(self, z: Zone) -> Seq<CardRef> {
        (self.zones)(z)
    }

    /// The cards attached to others.
    pub open spec fn keys(self) -> Seq<CardRef> {
        pair_keys(self.attachments)
    }

    pub open spec fn zones_multiset(self, zs: Seq<Zone>) -> Multiset<CardRef>
        decreases zs.len(),
    {
        if zs.len() == 0 {
            Multiset::empty()
        } else {
            self.zones_multiset(zs.drop_last()).add(self.zone(zs.last()).to_multiset())
        }
    }

    /// Every card of the board: in zones, or attached.
    pub open spec fn cards(self) -> Multiset<CardRef> {
        self.zones_multiset(storage_zones()).add(self.keys().to_multiset())
    }

    /// A card is in one place at most.
    pub open spec fn wf(self) -> bool {
        forall|c: CardRef| #[trigger] self.cards().count(c) <= 1
    }

    /// The first zone, in [`storage_zones`] order, that holds the card.
    pub open spec fn find_zone(self, c: CardRef) -> Option<Zone> {
        if self.zone(Zone::MainDeck).contains(c) {
            Some(Zone::MainDeck)
        } else if self.zone(Zone::Oshi).contains(c) {
            Some(Zone::Oshi)
        } else if self.zone(Zone::CenterStage).contains(c) {
            Some(Zone::CenterStage)
        } else if self.zone(Zone::Collab).contains(c) {
            Some(Zone::Collab)
        } else if self.zone(Zone::BackStage).contains(c) {
            Some(Zone::BackStage)
        } else if self.zone(Zone::Life).contains(c) {
            Some(Zone::Life)
        } else if self.zone(Zone::CheerDeck).contains(c) {
            Some(Zone::CheerDeck)
        } else if self.zone(Zone::HoloPower).contains(c) {
            Some(Zone::HoloPower)
        } else if self.zone(Zone::Archive).contains(c) {
            Some(Zone::Archive)
        } else if self.zone(Zone::Hand).contains(c) {
            Some(Zone::Hand)
        } else if self.zone(Zone::ActivateSupport).contains(c) {
            Some(Zone::ActivateSupport)
        } else {
            None
        }
    }

    pub open spec fn attached_to(self, a: CardRef) -> Option<CardRef> {
        pair_value(self.attachments, a)
    }

    /// The cards attached to a card, in the order in which they were attached.
    pub open spec fn attachments_of(self, c: CardRef) -> Seq<CardRef> {
        keys_with_value(self.attachments, c)
    }

    /// A card that is in a zone or attached can be moved.
    pub open spec fn is_movable(self, c: CardRef) -> bool {
        self.find_zone(c) is Some || self.keys().contains(c)
    }

    pub open spec fn with_zone(self, z: Zone, s: Seq<CardRef>) -> BoardState {
        BoardState {
            zones: |z2: Zone|
                if z2 == z {
                    s
                } else {
                    self.zone(z2)
                },
            attachments: self.attachments,
        }
    }

    pub open spec fn with_attachments(self, a: Seq<(CardRef, CardRef)>) -> BoardState {
        BoardState { zones: self.zones, attachments: a }
    }

    /// The board with a card taken from where it is: the first zone that holds it, or
    /// else its attachment.
    pub open spec fn removed(self, c: CardRef) -> BoardState {
        match self.find_zone(c) {
            Some(z) => self.with_zone(z, remove_first(self.zone(z), c)),
            None => if self.keys().contains(c) {
                self.with_attachments(without_key(self.attachments, c))
            } else {
                self
            },
        }
    }

    /// A zone can take a card that it does not hold; a zone for one card must be empty.
    pub open spec fn can_add(self, c: CardRef, z: Zone) -> bool {
        &&& is_storage_zone(z)
        &&& !self.zone(z).contains(c)
        &&& is_single_zone(z) ==> self.zone(z).len() == 0
    }

    pub open spec fn can_send(self, c: CardRef, target: Zone) -> bool {
        self.is_movable(c) ==> self.removed(c).can_add(c, target)
    }

    /// The board after a card is sent to a zone; a card that is nowhere stays so.
    pub open spec fn sent(self, c: CardRef, target: Zone, location: ZoneAddLocation) -> BoardState {
        if self.is_movable(c) {
            let r = self.removed(c);
            r.with_zone(target, add_at(r.zone(target), c, location))
        } else {
            self
        }
    }

    /// The board after the cards are sent one after the other.
    pub open spec fn sent_all(
        self,
        cards: Seq<CardRef>,
        target: Zone,
        location: ZoneAddLocation,
    ) -> BoardState
        decreases cards.len(),
    {
        if cards.len() == 0 {
            self
        } else {
            self.sent_all(cards.drop_last(), target, location).sent(cards.last(), target, location)
        }
    }

    pub open spec fn can_send_all(
        self,
        cards: Seq<CardRef>,
        target: Zone,
        location: ZoneAddLocation,
    ) -> bool
        decreases cards.len(),
    {
        cards.len() == 0 || (self.can_send_all(cards.drop_last(), target, location) && self.sent_all(
            cards.drop_last(),
            target,
            location,
        ).can_send(cards.last(), target))
    }

    /// The board after the top card of a zone is sent, `n` times over.
    pub open spec fn sent_from(
        self,
        from: Zone,
        target: Zone,
        location: ZoneAddLocation,
        n: nat,
    ) -> BoardState
        decreases n,
    {
        if n == 0 {
            self
        } else {
            let v = self.sent_from(from, target, location, (n - 1) as nat);
            match top_of(v.zone(from)) {
                Some(c) => v.sent(c, target, location),
                None => v,
            }
        }
    }

    pub open spec fn can_send_from(self, from: Zone, target: Zone, location: ZoneAddLocation, n: nat) -> bool
        decreases n,
    {
        n == 0 || {
            let v = self.sent_from(from, target, location, (n - 1) as nat);
            &&& self.can_send_from(from, target, location, (n - 1) as nat)
            &&& match top_of(v.zone(from)) {
                Some(c) => v.can_send(c, target),
                None => true,
            }
        }
    }

    /// The board after a card is attached to another: taken from its zone if it is in one,
    /// and recorded as attached.
    pub open spec fn attached(self, a: CardRef, card: CardRef) -> BoardState {
        let v = match self.find_zone(a) {
            Some(z) => self.with_zone(z, remove_first(self.zone(z), a)),
            None => self,
        };
        v.with_attachments(insert_pair(self.attachments, a, card))
    }

    /// A card that is in no zone can only be attached to a card that is not itself attached.
    pub open spec fn can_attach(self, a: CardRef, card: CardRef) -> bool {
        self.find_zone(a) is None ==> !self.keys().contains(card)
    }

    /// The board after an attachment takes the place of the card it was attached to, which
    /// becomes attached to it, with the other attachments.
    pub open spec fn promoted(self, a: CardRef, parent: CardRef) -> BoardState {
        match self.find_zone(parent) {
            Some(z) => {
                let v1 = self.with_zone(z, replace_first(self.zone(z), parent, a));
                let v2 = v1.with_attachments(without_key(v1.attachments, a));
                let v3 = v2.attached(parent, a);
                v3.with_attachments(retarget(v3.attachments, parent, a))
            },
            None => self,
        }
    }
}

/// Two boards that differ at most in one zone.
pub open spec fn same_except(a: BoardState, b: BoardState, z: Zone) -> bool {
    &&& forall|z2: Zone| z2 != z ==> #[trigger] a.zone(z2) == b.zone(z2)
    &&& a.attachments == b.attachments
}

proof fn lemma_zones_multiset_except(a: BoardState, b: BoardState, z: Zone, zs: Seq<Zone>)
    requires
        same_except(a, b, z),
        zs.no_duplicates(),
    ensures
        zs.contains(z) ==> a.zones_multiset(zs).add(b.zone(z).to_multiset())
            == b.zones_multiset(zs).add(a.zone(z).to_multiset()),
        !zs.contains(z) ==> a.zones_multiset(zs) == b.zones_multiset(zs),
    decreases zs.len(),
{
    if zs.len() > 0 {
        let p = zs.drop_last();
        assert(p.no_duplicates());
        lemma_zones_multiset_except(a, b, z, p);
        if zs.last() == z {
            assert(!p.contains(z)) by {
                if p.contains(z) {
                    let i = choose|i: int| 0 <= i < p.len() && p[i] == z;
                    assert(zs[i] == zs[zs.len() - 1]);
                }
            }
            assert(a.zones_multiset(zs).add(b.zone(z).to_multiset()) =~= b.zones_multiset(
                zs,
            ).add(a.zone(z).to_multiset()));
        } else {
            assert(a.zone(zs.last()) == b.zone(zs.last()));
            assert(zs.contains(z) ==> p.contains(z)) by {
                if zs.contains(z) {
                    let i = choose|i: int| 0 <= i < zs.len() && zs[i] == z;
                    assert(i < zs.len() - 1);
                    assert(p[i] == z);
                }
            }
            assert(!p.contains(z) ==> !zs.contains(z)) by {
                if zs.contains(z) && !p.contains(z) {
                    let i = choose|i: int| 0 <= i < zs.len() && zs[i] == z;
                    assert(i < zs.len() - 1);
                    assert(p[i] == z);
                }
            }
            if zs.contains(z) {
                let ma = a.zones_multiset(p);
                let mb = b.zones_multiset(p);
                let za = a.zone(z).to_multiset();
                let zb = b.zone(z).to_multiset();
                let l = a.zone(zs.last()).to_multiset();
                assert(ma.add(zb) == mb.add(za));
                assert forall|x: CardRef| ma.count(x) + zb.count(x) == mb.count(x) + za.count(x) by {
                    assert(ma.add(zb).count(x) == mb.add(za).count(x));
                }
                assert(a.zones_multiset(zs) == ma.add(l));
                assert(b.zones_multiset(zs) == mb.add(l));
                assert(ma.add(l).add(zb) =~= mb.add(l).add(za));
            } else {
                assert(a.zones_multiset(zs) =~= b.zones_multiset(zs));
            }
        }
    }
}

/// Changing one zone changes the cards of the board by what that zone lost and gained.
pub proof fn lemma_cards_except(a: BoardState, b: BoardState, z: Zone)
    requires
        same_except(a, b, z),
        is_storage_zone(z),
    ensures
        forall|x: CardRef|
            a.cards().count(x) + b.zone(z).to_multiset().count(x) == b.cards().count(x)
                + a.zone(z).to_multiset().count(x),
{
    lemma_storage_zones();
    assert(storage_zones().contains(z));
    lemma_zones_multiset_except(a, b, z, storage_zones());
    assert(a.keys() == b.keys());
    let ma = a.zones_multiset(storage_zones());
    let mb = b.zones_multiset(storage_zones());
    let za = a.zone(z).to_multiset();
    let zb = b.zone(z).to_multiset();
    assert forall|x: CardRef| ma.count(x) + zb.count(x) == mb.count(x) + za.count(x) by {
        assert(ma.add(zb).count(x) == mb.add(za).count(x));
    }
}

proof fn lemma_zones_multiset_same_zones(a: BoardState, b: BoardState, zs: Seq<Zone>)
    requires
        forall|z: Zone| #[trigger] a.zone(z) == b.zone(z),
    ensures
        a.zones_multiset(zs) == b.zones_multiset(zs),
    decreases zs.len(),
{
    if zs.len() > 0 {
        lemma_zones_multiset_same_zones(a, b, zs.drop_last());
    }
}

/// The zone search finds a storage zone that holds the card, or the card is in no zone.
pub proof fn lemma_find_zone(v: BoardState, c: CardRef)
    ensures
        v.find_zone(c) matches Some(z) ==> is_storage_zone(z) && v.zone(z).contains(c),
        v.find_zone(c) is None ==> forall|z: Zone|
            is_storage_zone(z) ==> !#[trigger] v.zone(z).contains(c),
{
}

pub proof fn lemma_zones_multiset_count(v: BoardState, zs: Seq<Zone>, z: Zone, c: CardRef)
    requires
        zs.contains(z),
    ensures
        v.zones_multiset(zs).count(c) >= v.zone(z).to_multiset().count(c),
    decreases zs.len(),
{
    if zs.last() != z {
        let p = zs.drop_last();
        let i = choose|i: int| 0 <= i < zs.len() && zs[i] == z;
        assert(p[i] == z);
        lemma_zones_multiset_count(v, p, z, c);
    }
}

proof fn lemma_zones_multiset_absent(v: BoardState, zs: Seq<Zone>, c: CardRef)
    requires
        forall|i: int| 0 <= i < zs.len() ==> !v.zone(#[trigger] zs[i]).contains(c),
    ensures
        v.zones_multiset(zs).count(c) == 0,
    decreases zs.len(),
{
    broadcast use vstd::seq_lib::group_to_multiset_ensures;

    if zs.len() > 0 {
        let p = zs.drop_last();
        assert forall|i: int| 0 <= i < p.len() implies !v.zone(#[trigger] p[i]).contains(c) by {
            assert(p[i] == zs[i]);
        }
        lemma_zones_multiset_absent(v, p, c);
        assert(!v.zone(zs[zs.len() - 1]).contains(c));
    }
}

/// A card in a storage zone counts among the cards of the board.
pub proof fn lemma_zone_card_counts(v: BoardState, z: Zone, c: CardRef)
    requires
        is_storage_zone(z),
        v.zone(z).contains(c),
    ensures
        v.cards().count(c) >= v.zone(z).to_multiset().count(c),
        v.zone(z).to_multiset().count(c) >= 1,
{
    lemma_storage_zones();
    lemma_zones_multiset_count(v, storage_zones(), z, c);
    broadcast use vstd::seq_lib::group_to_multiset_ensures;

}

proof fn lemma_keys_push(s: Seq<(CardRef, CardRef)>, p: (CardRef, CardRef))
    ensures
        pair_keys(s.push(p)) == pair_keys(s).push(p.0),
{
    assert(pair_keys(s.push(p)) =~= pair_keys(s).push(p.0));
}

/// Taking a key out of the pairs takes every copy of it out of the keys.
proof fn lemma_without_key(s: Seq<(CardRef, CardRef)>, k: CardRef)
    ensures
        forall|x: CardRef| #[trigger]
            pair_keys(without_key(s, k)).to_multiset().count(x) == if x == k {
                0
            } else {
                pair_keys(s).to_multiset().count(x)
            },
    decreases s.len(),
{
    broadcast use vstd::seq_lib::group_to_multiset_ensures;

    if s.len() == 0 {
        assert(pair_keys(without_key(s, k)) =~= Seq::<CardRef>::empty());
        assert(pair_keys(s) =~= Seq::<CardRef>::empty());
    } else {
        let p = s.drop_last();
        lemma_without_key(p, k);
        assert(s =~= p.push(s.last()));
        lemma_keys_push(p, s.last());
        if s.last().0 == k {
            assert(without_key(s, k) =~= without_key(p, k));
        } else {
            assert(without_key(s, k) =~= without_key(p, k).push(s.last()));
            lemma_keys_push(without_key(p, k), s.last());
        }
    }
}

proof fn lemma_map_keys(s: Seq<(CardRef, CardRef)>, k: CardRef, v: CardRef, from: CardRef)
    ensures
        pair_keys(set_value(s, k, v)) == pair_keys(s),
        pair_keys(retarget(s, from, v)) == pair_keys(s),
{
    assert(pair_keys(set_value(s, k, v)) =~= pair_keys(s));
    assert(pair_keys(retarget(s, from, v)) =~= pair_keys(s));
}

proof fn lemma_add_at_multiset(s: Seq<CardRef>, c: CardRef, location: ZoneAddLocation)
    ensures
        add_at(s, c, location).to_multiset() == s.to_multiset().insert(c),
{
    broadcast use vstd::seq_lib::group_to_multiset_ensures;

    match location {
        ZoneAddLocation::Top => {
            assert(seq![c] + s =~= s.insert(0, c));
        },
        ZoneAddLocation::Bottom => {},
    }
}

proof fn lemma_remove_first_multiset(s: Seq<CardRef>, c: CardRef)
    requires
        s.contains(c),
    ensures
        remove_first(s, c).to_multiset() == s.to_multiset().remove(c),
{
    broadcast use vstd::seq_lib::group_to_multiset_ensures;

    let i = first_index(s, c);
    let w = choose|i: int| 0 <= i < s.len() && s[i] == c;
    assert(0 <= w < s.len() && s[w] == c);
    assert(exists|i: int| 0 <= i < s.len() && s[i] == c && forall|j: int| 0 <= j < i ==> s[j] != c) by {
        lemma_first_exists(s, c, w);
    }
}

proof fn lemma_first_exists(s: Seq<CardRef>, c: CardRef, w: int)
    requires
        0 <= w < s.len(),
        s[w] == c,
    ensures
        exists|i: int| 0 <= i < s.len() && s[i] == c && forall|j: int| 0 <= j < i ==> s[j] != c,
    decreases w,
{
    if exists|j: int| 0 <= j < w && s[j] == c {
        let j = choose|j: int| 0 <= j < w && s[j] == c;
        lemma_first_exists(s, c, j);
    } else {
        assert(forall|j: int| 0 <= j < w ==> s[j] != c);
    }
}

/// Taking a card from its place takes one copy of it from the cards of a board where each
/// card is in one place.
proof fn lemma_removed_cards(v: BoardState, c: CardRef)
    requires
        v.wf(),
        v.is_movable(c),
    ensures
        forall|x: CardRef| #[trigger] v.removed(c).cards().count(x) + (if x == c { 1int } else { 0 })
            == v.cards().count(x),
        forall|z: Zone| #[trigger] v.removed(c).zone(z) == v.zone(z) || v.find_zone(c) == Some(z),
{
    broadcast use vstd::seq_lib::group_to_multiset_ensures;

    let r = v.removed(c);
    lemma_find_zone(v, c);
    match v.find_zone(c) {
        Some(z) => {
            assert(same_except(v, r, z));
            lemma_cards_except(v, r, z);
            lemma_remove_first_multiset(v.zone(z), c);
            lemma_zone_card_counts(v, z, c);
        },
        None => {
            lemma_without_key(v.attachments, c);
            lemma_storage_zones();
            assert forall|i: int| 0 <= i < storage_zones().len() implies !v.zone(
                #[trigger] storage_zones()[i],
            ).contains(c) by {
                assert(storage_zones().contains(storage_zones()[i]));
            }
            lemma_zones_multiset_absent(v, storage_zones(), c);
            assert(r.zones == v.zones);
            assert(v.cards().count(c) <= 1);
            assert forall|x: CardRef| #[trigger] r.cards().count(x) + (if x == c { 1int } else { 0 })
                == v.cards().count(x) by {
                lemma_zones_multiset_same_zones(r, v, storage_zones());
            }
        },
    }
}

/// Sending a card from where it is to a zone keeps the cards of the board, and each card
/// in one place.
pub proof fn lemma_sent_keeps_cards(v: BoardState, c: CardRef, target: Zone, location: ZoneAddLocation)
    requires
        v.wf(),
        v.can_send(c, target),
    ensures
        v.sent(c, target, location).cards() == v.cards(),
        v.sent(c, target, location).wf(),
{
    broadcast use vstd::seq_lib::group_to_multiset_ensures;

    if v.is_movable(c) {
        let r = v.removed(c);
        let a = v.sent(c, target, location);
        lemma_removed_cards(v, c);
        assert(same_except(r, a, target));
        lemma_cards_except(r, a, target);
        lemma_add_at_multiset(r.zone(target), c, location);
        assert(a.cards() =~= v.cards());
    }
}

/// A card in two different storage zones counts twice among the cards of those zones.
proof fn lemma_two_zones(v: BoardState, zs: Seq<Zone>, z1: Zone, z2: Zone, c: CardRef)
    requires
        zs.contains(z1),
        zs.contains(z2),
        z1 != z2,
        v.zone(z1).contains(c),
        v.zone(z2).contains(c),
    ensures
        v.zones_multiset(zs).count(c) >= 2,
    decreases zs.len(),
{
    broadcast use vstd::seq_lib::group_to_multiset_ensures;

    let p = zs.drop_last();
    if zs.last() == z1 {
        let i = choose|i: int| 0 <= i < zs.len() && zs[i] == z2;
        assert(p[i] == z2);
        lemma_zones_multiset_count(v, p, z2, c);
    } else if zs.last() == z2 {
        let i = choose|i: int| 0 <= i < zs.len() && zs[i] == z1;
        assert(p[i] == z1);
        lemma_zones_multiset_count(v, p, z1, c);
    } else {
        let i = choose|i: int| 0 <= i < zs.len() && zs[i] == z1;
        let j = choose|j: int| 0 <= j < zs.len() && zs[j] == z2;
        assert(p[i] == z1 && p[j] == z2);
        lemma_two_zones(v, p, z1, z2, c);
    }
}

/// A card sent from where it is to a zone is then found in that zone.
pub proof fn lemma_sent_finds(v: BoardState, c: CardRef, target: Zone, location: ZoneAddLocation)
    requires
        v.wf(),
        v.can_send(c, target),
        v.is_movable(c),
    ensures
        v.sent(c, target, location).find_zone(c) == Some(target),
{
    broadcast use vstd::seq_lib::group_to_multiset_ensures;

    lemma_sent_keeps_cards(v, c, target, location);
    let a = v.sent(c, target, location);
    assert(a.zone(target) == add_at(v.removed(c).zone(target), c, location));
    assert(a.zone(target).contains(c)) by {
        match location {
            ZoneAddLocation::Top => assert(a.zone(target)[0] == c),
            ZoneAddLocation::Bottom => assert(a.zone(target).last() == c),
        }
    }
    lemma_find_zone(a, c);
    lemma_storage_zones();
    match a.find_zone(c) {
        Some(z) => {
            if z != target {
                lemma_two_zones(a, storage_zones(), z, target, c);
                assert(a.cards().count(c) >= 2);
            }
        },
        None => {},
    }
}

/// Sending cards one after the other keeps the cards of the board, and each card in one
/// place.
pub proof fn lemma_sent_all_keeps_cards(
    v: BoardState,
    cards: Seq<CardRef>,
    target: Zone,
    location: ZoneAddLocation,
)
    requires
        v.wf(),
        v.can_send_all(cards, target, location),
    ensures
        v.sent_all(cards, target, location).cards() == v.cards(),
        v.sent_all(cards, target, location).wf(),
    decreases cards.len(),
{
    if cards.len() > 0 {
        lemma_sent_all_keeps_cards(v, cards.drop_last(), target, location);
        lemma_sent_keeps_cards(
            v.sent_all(cards.drop_last(), target, location),
            cards.last(),
            target,
            location,
        );
    }
}

/// Sending the top card of a zone `n` times over keeps the cards of the board, and each
/// card in one place.
pub proof fn lemma_sent_from_keeps_cards(
    v: BoardState,
    from: Zone,
    target: Zone,
    location: ZoneAddLocation,
    n: nat,
)
    requires
        v.wf(),
        v.can_send_from(from, target, location, n),
    ensures
        v.sent_from(from, target, location, n).cards() == v.cards(),
        v.sent_from(from, target, location, n).wf(),
    decreases n,
{
    if n > 0 {
        lemma_sent_from_keeps_cards(v, from, target, location, (n - 1) as nat);
        let w = v.sent_from(from, target, location, (n - 1) as nat);
        match top_of(w.zone(from)) {
            Some(c) => lemma_sent_keeps_cards(w, c, target, location),
            None => {},
        }
    }
}

// ------------------------------------------------------------------
// one zone of a board
// ------------------------------------------------------------------

pub fn opt_contains(o: &Option<CardRef>, c: CardRef) -> (res: bool)
    ensures
        res == opt_seq(*o).contains(c),
        res == (*o == Some(c)),
{
    proof {
        lemma_opt_seq(*o, c);
    }
    match o {
        Some(x) => *x == c,
        None => false,
    }
}

proof fn lemma_opt_seq(o: Option<CardRef>, c: CardRef)
    ensures
        opt_seq(o).contains(c) <==> o == Some(c),
        o == Some(c) ==> remove_first(opt_seq(o), c) == Seq::<CardRef>::empty(),
        o != Some(c) ==> remove_first(opt_seq(o), c) == opt_seq(o),
        o == Some(c) ==> forall|t: CardRef| replace_first(opt_seq(o), c, t) == opt_seq(Some(t)),
        forall|loc: ZoneAddLocation| add_at(Seq::<CardRef>::empty(), c, loc) == opt_seq(Some(c)),
{
    if let Some(x) = o {
        assert(opt_seq(o)[0] == x);
        if x == c {
            lemma_first_index(opt_seq(o), c, 0);
            assert(opt_seq(o).remove(0) =~= Seq::<CardRef>::empty());
            assert forall|t: CardRef| replace_first(opt_seq(o), c, t) == opt_seq(Some(t)) by {
                assert(opt_seq(o).update(0, t) =~= opt_seq(Some(t)));
            }
        }
    }
    assert forall|loc: ZoneAddLocation| add_at(Seq::<CardRef>::empty(), c, loc) == opt_seq(
        Some(c),
    ) by {
        assert(seq![c] + Seq::<CardRef>::empty() =~= seq![c]);
        assert(Seq::<CardRef>::empty().push(c) =~= seq![c]);
    }
}

/// The top card of a pile, if any.
pub open spec fn top_of(s: Seq<CardRef>) -> Option<CardRef> {
    if s.len() > 0 {
        Some(s[0])
    } else {
        None
    }
}

impl GameBoard {
    /// The number of cards in a zone.
    pub fn zone_count(&self, z: Zone) -> (res: usize)
        requires
            is_storage_zone(z),
        ensures
            res == self.zone_seq(z).len(),
    {
        match z {
            Zone::MainDeck => self.main_deck.len(),
            Zone::Oshi => if self.oshi.is_some() { 1 } else { 0 },
            Zone::CenterStage => if self.center_stage.is_some() { 1 } else { 0 },
            Zone::Collab => if self.collab.is_some() { 1 } else { 0 },
            Zone::BackStage => self.back_stage.len(),
            Zone::Life => self.life.len(),
            Zone::CheerDeck => self.cheer_deck.len(),
            Zone::HoloPower => self.holo_power.len(),
            Zone::Archive => self.archive.len(),
            Zone::Hand => self.hand.len(),
            Zone::ActivateSupport => self.activate_support.len(),
            _ => 0,
        }
    }

    /// The top card of a zone.
    pub fn zone_peek_top(&self, z: Zone) -> (res: Option<CardRef>)
        requires
            is_storage_zone(z),
        ensures
            res == top_of(self.zone_seq(z)),
    {
        let n = self.zone_count(z);
        if n == 0 {
            return None;
        }
        let ghost s = self.zone_seq(z);
        match z {
            Zone::MainDeck => Some(self.main_deck[0]),
            Zone::Oshi => self.oshi,
            Zone::CenterStage => self.center_stage,
            Zone::Collab => self.collab,
            Zone::BackStage => Some(self.back_stage[0]),
            Zone::Life => Some(self.life[0]),
            Zone::CheerDeck => Some(self.cheer_deck[0]),
            Zone::HoloPower => Some(self.holo_power[0]),
            Zone::Archive => Some(self.archive[0]),
            Zone::Hand => Some(self.hand[0]),
            Zone::ActivateSupport => Some(self.activate_support[0]),
            _ => None,
        }
    }

    #[verifier::spinoff_prover]
    #[verifier::rlimit(40)]
    fn zone_remove(&mut self, z: Zone, c: CardRef)
        requires
            is_storage_zone(z),
        ensures
            final(self).zone_seq(z) == remove_first(old(self).zone_seq(z), c),
            same_except(old(self)@, final(self)@, z),
    {
        proof {
            lemma_opt_seq(self.oshi, c);
            lemma_opt_seq(self.center_stage, c);
            lemma_opt_seq(self.collab, c);
        }
        match z {
            Zone::MainDeck => deque_remove(&mut self.main_deck, c),
            Zone::Oshi => if opt_contains(&self.oshi, c) {
                self.oshi = None;
            },
            Zone::CenterStage => if opt_contains(&self.center_stage, c) {
                self.center_stage = None;
            },
            Zone::Collab => if opt_contains(&self.collab, c) {
                self.collab = None;
            },
            Zone::BackStage => deque_remove(&mut self.back_stage, c),
            Zone::Life => deque_remove(&mut self.life, c),
            Zone::CheerDeck => deque_remove(&mut self.cheer_deck, c),
            Zone::HoloPower => deque_remove(&mut self.holo_power, c),
            Zone::Archive => deque_remove(&mut self.archive, c),
            Zone::Hand => deque_remove(&mut self.hand, c),
            Zone::ActivateSupport => deque_remove(&mut self.activate_support, c),
            _ => {},
        }
    }

    fn zone_add(&mut self, z: Zone, c: CardRef, location: ZoneAddLocation)
        requires
            is_storage_zone(z),
            is_single_zone(z) ==> old(self).zone_seq(z).len() == 0,
            !old(self).zone_seq(z).contains(c),
        ensures
            final(self).zone_seq(z) == add_at(old(self).zone_seq(z), c, location),
            same_except(old(self)@, final(self)@, z),
    {
        proof {
            lemma_opt_seq(None, c);
        }
        match z {
            Zone::MainDeck => deque_add(&mut self.main_deck, c, location),
            Zone::Oshi => {
                self.oshi = Some(c);
            },
            Zone::CenterStage => {
                self.center_stage = Some(c);
            },
            Zone::Collab => {
                self.collab = Some(c);
            },
            Zone::BackStage => deque_add(&mut self.back_stage, c, location),
            Zone::Life => deque_add(&mut self.life, c, location),
            Zone::CheerDeck => deque_add(&mut self.cheer_deck, c, location),
            Zone::HoloPower => deque_add(&mut self.holo_power, c, location),
            Zone::Archive => deque_add(&mut self.archive, c, location),
            Zone::Hand => deque_add(&mut self.hand, c, location),
            Zone::ActivateSupport => deque_add(&mut self.activate_support, c, location),
            _ => {},
        }
    }

    fn zone_replace(&mut self, z: Zone, from: CardRef, to: CardRef)
        requires
            is_storage_zone(z),
            old(self).zone_seq(z).contains(from),
        ensures
            final(self).zone_seq(z) == replace_first(old(self).zone_seq(z), from, to),
            same_except(old(self)@, final(self)@, z),
    {
        proof {
            lemma_opt_seq(self.oshi, from);
            lemma_opt_seq(self.center_stage, from);
            lemma_opt_seq(self.collab, from);
        }
        match z {
            Zone::MainDeck => deque_replace(&mut self.main_deck, from, to),
            Zone::Oshi => {
                self.oshi = Some(to);
            },
            Zone::CenterStage => {
                self.center_stage = Some(to);
            },
            Zone::Collab => {
                self.collab = Some(to);
            },
            Zone::BackStage => deque_replace(&mut self.back_stage, from, to),
            Zone::Life => deque_replace(&mut self.life, from, to),
            Zone::CheerDeck => deque_replace(&mut self.cheer_deck, from, to),
            Zone::HoloPower => deque_replace(&mut self.holo_power, from, to),
            Zone::Archive => deque_replace(&mut self.archive, from, to),
            Zone::Hand => deque_replace(&mut self.hand, from, to),
            Zone::ActivateSupport => deque_replace(&mut self.activate_support, from, to),
            _ => {},
        }
    }

    /// The zone that holds a card.
    pub fn find_card_zone(&self, card: CardRef) -> (res: Option<Zone>)
        ensures
            res == self.spec_find_card_zone(card),
    {
        if deque_contains(&self.main_deck, card) {
            Some(Zone::MainDeck)
        } else if opt_contains(&self.oshi, card) {
            Some(Zone::Oshi)
        } else if opt_contains(&self.center_stage, card) {
            Some(Zone::CenterStage)
        } else if opt_contains(&self.collab, card) {
            Some(Zone::Collab)
        } else if deque_contains(&self.back_stage, card) {
            Some(Zone::BackStage)
        } else if deque_contains(&self.life, card) {
            Some(Zone::Life)
        } else if deque_contains(&self.cheer_deck, card) {
            Some(Zone::CheerDeck)
        } else if deque_contains(&self.holo_power, card) {
            Some(Zone::HoloPower)
        } else if deque_contains(&self.archive, card) {
            Some(Zone::Archive)
        } else if deque_contains(&self.hand, card) {
            Some(Zone::Hand)
        } else if deque_contains(&self.activate_support, card) {
            Some(Zone::ActivateSupport)
        } else {
            None
        }
    }
}


// ------------------------------------------------------------------
// attachments
// ------------------------------------------------------------------

fn key_position(s: &Vec<(CardRef, CardRef)>, k: CardRef) -> (res: Option<usize>)
    ensures
        match res {
            Some(i) => i < s@.len() && s@[i as int].0 == k && pair_value(s@, k) == Some(
                s@[i as int].1,
            ) && pair_keys(s@).contains(k),
            None => !pair_keys(s@).contains(k) && pair_value(s@, k) is None,
        },
{
    let mut i: usize = 0;
    while i < s.len()
        invariant
            0 <= i <= s@.len(),
            forall|j: int| 0 <= j < i ==> s@[j].0 != k,
        decreases s@.len() - i,
    {
        if s[i].0 == k {
            proof {
                assert forall|j: int| 0 <= j < i implies pair_keys(s@)[j] != k by {
                    assert(s@[j].0 != k);
                }
                lemma_first_index(pair_keys(s@), k, i as int);
            }
            return Some(i);
        }
        i = i + 1;
    }
    proof {
        assert forall|j: int| 0 <= j < pair_keys(s@).len() implies pair_keys(s@)[j] != k by {
            assert(s@[j].0 != k);
        }
    }
    None
}

impl GameBoard {
    /// Whether a card is attached to another.
    pub fn is_attached(&self, attachment: CardRef) -> (res: bool)
        ensures
            res == self@.keys().contains(attachment),
    {
        key_position(&self.attachments, attachment).is_some()
    }

    /// Whether a card is attached to a given card.
    pub fn is_attached_to(&self, attachment: CardRef, card: CardRef) -> (res: bool)
        ensures
            res == (self@.attached_to(attachment) == Some(card)),
    {
        match self.attached_to(attachment) {
            Some(c) => c == card,
            None => false,
        }
    }

    /// The card that a card is attached to.
    pub fn attached_to(&self, attachment: CardRef) -> (res: Option<CardRef>)
        ensures
            res == self@.attached_to(attachment),
    {
        match key_position(&self.attachments, attachment) {
            Some(i) => Some(self.attachments[i].1),
            None => None,
        }
    }

    /// The cards attached to a card.
    pub fn attachments(&self, card: CardRef) -> (res: Vec<CardRef>)
        ensures
            res@ == self@.attachments_of(card),
    {
        let mut out: Vec<CardRef> = Vec::new();
        let mut i: usize = 0;
        while i < self.attachments.len()
            invariant
                0 <= i <= self.attachments@.len(),
                out@ == keys_with_value(self.attachments@.take(i as int), card),
            decreases self.attachments@.len() - i,
        {
            let p = self.attachments[i];
            proof {
                assert(self.attachments@.take(i + 1).drop_last() =~= self.attachments@.take(
                    i as int,
                ));
            }
            if p.1 == card {
                out.push(p.0);
                proof {
                    assert(out@ =~= keys_with_value(self.attachments@.take(i + 1), card));
                }
            } else {
                proof {
                    assert(keys_with_value(self.attachments@.take(i + 1), card) =~= keys_with_value(
                        self.attachments@.take(i as int),
                        card,
                    ));
                }
            }
            i = i + 1;
        }
        proof {
            assert(self.attachments@.take(self.attachments@.len() as int) =~= self.attachments@);
        }
        out
    }

    fn remove_key(&mut self, k: CardRef)
        ensures
            final(self)@ == old(self)@.with_attachments(without_key(old(self).attachments@, k)),
    {
        let mut out: Vec<(CardRef, CardRef)> = Vec::new();
        let mut i: usize = 0;
        while i < self.attachments.len()
            invariant
                0 <= i <= self.attachments@.len(),
                out@ == without_key(self.attachments@.take(i as int), k),
            decreases self.attachments@.len() - i,
        {
            let p = self.attachments[i];
            proof {
                assert(self.attachments@.take(i + 1).drop_last() =~= self.attachments@.take(
                    i as int,
                ));
            }
            if p.0 != k {
                out.push(p);
                proof {
                    assert(out@ =~= without_key(self.attachments@.take(i + 1), k));
                }
            } else {
                proof {
                    assert(without_key(self.attachments@.take(i + 1), k) =~= without_key(
                        self.attachments@.take(i as int),
                        k,
                    ));
                }
            }
            i = i + 1;
        }
        proof {
            assert(self.attachments@.take(self.attachments@.len() as int) =~= self.attachments@);
        }
        self.attachments = out;
        assert(self@ =~= old(self)@.with_attachments(without_key(old(self).attachments@, k)));
    }

    fn map_attachments(&mut self, k: CardRef, v: CardRef, by_key: bool)
        ensures
            by_key ==> final(self)@ == old(self)@.with_attachments(
                set_value(old(self).attachments@, k, v),
            ),
            !by_key ==> final(self)@ == old(self)@.with_attachments(
                retarget(old(self).attachments@, k, v),
            ),
    {
        let ghost old_a = self.attachments@;
        let ghost target = if by_key {
            set_value(old_a, k, v)
        } else {
            retarget(old_a, k, v)
        };
        let mut out: Vec<(CardRef, CardRef)> = Vec::new();
        let mut i: usize = 0;
        while i < self.attachments.len()
            invariant
                0 <= i <= self.attachments@.len(),
                old_a == self.attachments@,
                target.len() == old_a.len(),
                by_key ==> target == set_value(old_a, k, v),
                !by_key ==> target == retarget(old_a, k, v),
                out@ == target.take(i as int),
            decreases self.attachments@.len() - i,
        {
            let p = self.attachments[i];
            if by_key && p.0 == k {
                out.push((k, v));
            } else if !by_key && p.1 == k {
                out.push((p.0, v));
            } else {
                out.push(p);
            }
            assert(out@ =~= target.take(i + 1));
            i = i + 1;
        }
        assert(out@ =~= target);
        self.attachments = out;
        assert(self@ =~= old(self)@.with_attachments(target));
    }

    /// Records a card as attached to another: updated where it is attached, added if not.
    pub(crate) fn insert_attachment(&mut self, k: CardRef, v: CardRef)
        ensures
            final(self)@ == old(self)@.with_attachments(insert_pair(old(self).attachments@, k, v)),
    {
        if self.is_attached(k) {
            self.map_attachments(k, v, true);
        } else {
            self.attachments.push((k, v));
            assert(self@ =~= old(self)@.with_attachments(insert_pair(old(self).attachments@, k, v)));
        }
    }

    /// Attaches a card to another, taking it from its zone if it is in one.
    pub fn attach_to_card(&mut self, attachment: CardRef, card: CardRef)
        requires
            old(self)@.can_attach(attachment, card),
        ensures
            final(self)@ == old(self)@.attached(attachment, card),
    {
        let current_zone = self.find_card_zone(attachment);
        let ghost v0 = self@;
        match current_zone {
            Some(zone) => {
                proof {
                    lemma_find_zone(self@, attachment);
                }
                self.zone_remove(zone, attachment);
                assert(self@ =~= v0.with_zone(zone, remove_first(v0.zone(zone), attachment)));
            },
            None => {},
        }
        self.insert_attachment(attachment, card);
        assert(self@ =~= v0.attached(attachment, card));
    }

    /// Sends a card from where it is, a zone or an attachment, to a zone.
    pub fn send_to_zone(&mut self, card: CardRef, target_zone: Zone, location: ZoneAddLocation)
        requires
            old(self)@.can_send(card, target_zone),
        ensures
            final(self)@ == old(self)@.sent(card, target_zone, location),
    {
        let ghost v0 = self@;
        let current_zone = self.find_card_zone(card);
        match current_zone {
            Some(zone) => {
                proof {
                    lemma_find_zone(self@, card);
                }
                self.zone_remove(zone, card);
                assert(self@ =~= v0.removed(card));
                self.zone_add(target_zone, card, location);
                assert(self@ =~= v0.sent(card, target_zone, location));
            },
            None => {
                if self.is_attached(card) {
                    self.remove_key(card);
                    assert(self@ =~= v0.removed(card));
                    self.zone_add(target_zone, card, location);
                    assert(self@ =~= v0.sent(card, target_zone, location));
                }
            },
        }
    }

    /// Sends cards to a zone, one after the other.
    pub fn send_many_to_zone(&mut self, cards: Vec<CardRef>, target_zone: Zone, location: ZoneAddLocation)
        requires
            old(self)@.can_send_all(cards@, target_zone, location),
        ensures
            final(self)@ == old(self)@.sent_all(cards@, target_zone, location),
    {
        let ghost v0 = self@;
        let mut i: usize = 0;
        while i < cards.len()
            invariant
                0 <= i <= cards@.len(),
                v0.can_send_all(cards@, target_zone, location),
                self@ == v0.sent_all(cards@.take(i as int), target_zone, location),
            decreases cards@.len() - i,
        {
            proof {
                assert(cards@.take(i + 1).drop_last() =~= cards@.take(i as int));
                lemma_can_send_all_prefix(v0, cards@, target_zone, location, i + 1);
            }
            self.send_to_zone(cards[i], target_zone, location);
            i = i + 1;
        }
        proof {
            assert(cards@.take(cards@.len() as int) =~= cards@);
        }
    }

    /// Sends a card that is attached to the archive.
    pub fn remove_attachment(&mut self, attachment: CardRef)
        requires
            old(self)@.can_send(attachment, Zone::Archive),
        ensures
            final(self)@ == old(self)@.sent(
                attachment,
                Zone::Archive,
                spec_default_add_location(Zone::Archive),
            ),
    {
        let location = Zone::Archive.default_add_location();
        self.send_to_zone(attachment, Zone::Archive, location)
    }

    /// Sends cards that are attached to the archive.
    pub fn remove_many_attachments(&mut self, attachments: Vec<CardRef>)
        requires
            old(self)@.can_send_all(
                attachments@,
                Zone::Archive,
                spec_default_add_location(Zone::Archive),
            ),
        ensures
            final(self)@ == old(self)@.sent_all(
                attachments@,
                Zone::Archive,
                spec_default_add_location(Zone::Archive),
            ),
    {
        let location = Zone::Archive.default_add_location();
        self.send_many_to_zone(attachments, Zone::Archive, location)
    }

    /// Sends every card attached to a card to a zone.
    pub fn send_all_attachments_to_zone(
        &mut self,
        card: CardRef,
        target_zone: Zone,
        location: ZoneAddLocation,
    )
        requires
            old(self)@.can_send_all(old(self)@.attachments_of(card), target_zone, location),
        ensures
            final(self)@ == old(self)@.sent_all(
                old(self)@.attachments_of(card),
                target_zone,
                location,
            ),
    {
        let attached = self.attachments(card);
        self.send_many_to_zone(attached, target_zone, location)
    }

    /// Sends the top card of a zone to another zone, `amount` times.
    pub fn send_from_zone(
        &mut self,
        current_zone: Zone,
        target_zone: Zone,
        location: ZoneAddLocation,
        amount: usize,
    )
        requires
            amount > 0 ==> is_storage_zone(current_zone),
            old(self)@.can_send_from(current_zone, target_zone, location, amount as nat),
        ensures
            final(self)@ == old(self)@.sent_from(current_zone, target_zone, location, amount as nat),
    {
        let ghost v0 = self@;
        let mut i: usize = 0;
        while i < amount
            invariant
                0 <= i <= amount,
                amount > 0 ==> is_storage_zone(current_zone),
                v0.can_send_from(current_zone, target_zone, location, amount as nat),
                self@ == v0.sent_from(current_zone, target_zone, location, i as nat),
            decreases amount - i,
        {
            proof {
                lemma_can_send_from_prefix(
                    v0,
                    current_zone,
                    target_zone,
                    location,
                    amount as nat,
                    (i + 1) as nat,
                );
            }
            match self.zone_peek_top(current_zone) {
                Some(card) => {
                    self.send_to_zone(card, target_zone, location);
                },
                None => {},
            }
            i = i + 1;
        }
    }

    /// Sends every card of a zone to another zone, and gives how many there were.
    pub fn send_all_from_zone(
        &mut self,
        current_zone: Zone,
        target_zone: Zone,
        location: ZoneAddLocation,
    ) -> (res: usize)
        requires
            is_storage_zone(current_zone),
            old(self)@.can_send_from(
                current_zone,
                target_zone,
                location,
                old(self)@.zone(current_zone).len(),
            ),
        ensures
            res == old(self)@.zone(current_zone).len(),
            final(self)@ == old(self)@.sent_from(current_zone, target_zone, location, res as nat),
    {
        let amount = self.zone_count(current_zone);
        self.send_from_zone(current_zone, target_zone, location, amount);
        amount
    }

    /// Puts an attachment in the place of the card that it is attached to, which becomes
    /// attached to it, with the other attachments of that card. Used for a bloom.
    pub fn promote_attachment(&mut self, attachment: CardRef, parent: CardRef)
        ensures
            final(self)@ == old(self)@.promoted(attachment, parent),
    {
        let ghost v0 = self@;
        match self.find_card_zone(parent) {
            Some(current_zone) => {
                proof {
                    lemma_find_zone(self@, parent);
                }
                self.zone_replace(current_zone, parent, attachment);
                let ghost v1 = v0.with_zone(
                    current_zone,
                    replace_first(v0.zone(current_zone), parent, attachment),
                );
                assert(self@ =~= v1);
                self.remove_key(attachment);
                let ghost v2 = v1.with_attachments(without_key(v1.attachments, attachment));
                assert(self@ =~= v2);
                proof {
                    lemma_without_key(v1.attachments, attachment);
                    broadcast use vstd::seq_lib::group_to_multiset_ensures;

                    assert(pair_keys(v2.attachments).to_multiset().count(attachment) == 0);
                }
                self.attach_to_card(parent, attachment);
                let ghost v3 = v2.attached(parent, attachment);
                self.map_attachments(parent, attachment, false);
                assert(self@ =~= v3.with_attachments(retarget(v3.attachments, parent, attachment)));
            },
            None => {},
        }
    }
}

proof fn lemma_can_send_all_prefix(
    v: BoardState,
    cards: Seq<CardRef>,
    target: Zone,
    location: ZoneAddLocation,
    n: int,
)
    requires
        v.can_send_all(cards, target, location),
        0 < n <= cards.len(),
    ensures
        v.sent_all(cards.take(n - 1), target, location).can_send(cards[n - 1], target),
    decreases cards.len(),
{
    let p = cards.drop_last();
    if n < cards.len() {
        lemma_can_send_all_prefix(v, p, target, location, n);
        assert(p.take(n - 1) =~= cards.take(n - 1));
        assert(p[n - 1] == cards[n - 1]);
    } else {
        assert(p =~= cards.take(n - 1));
        assert(cards.last() == cards[n - 1]);
    }
}

proof fn lemma_can_send_from_prefix(
    v: BoardState,
    from: Zone,
    target: Zone,
    location: ZoneAddLocation,
    n: nat,
    m: nat,
)
    requires
        v.can_send_from(from, target, location, n),
        0 < m <= n,
    ensures
        v.can_send_from(from, target, location, m),
    decreases n,
{
    if m < n {
        lemma_can_send_from_prefix(v, from, target, location, (n - 1) as nat, m);
    }
}


// ------------------------------------------------------------------
// reading a board
// ------------------------------------------------------------------

fn opt_cards(o: Option<CardRef>) -> (res: Vec<CardRef>)
    ensures
        res@ == opt_seq(o),
{
    let mut v: Vec<CardRef> = Vec::new();
    match o {
        Some(c) => {
            v.push(c);
            assert(v@ =~= opt_seq(o));
        },
        None => {
            assert(v@ =~= opt_seq(o));
        },
    }
    v
}

fn append_cards(a: &mut Vec<CardRef>, b: Vec<CardRef>)
    ensures
        final(a)@ == old(a)@ + b@,
{
    let mut i: usize = 0;
    let ghost a0 = a@;
    while i < b.len()
        invariant
            0 <= i <= b@.len(),
            a@ == a0 + b@.take(i as int),
        decreases b@.len() - i,
    {
        a.push(b[i]);
        assert(a@ =~= a0 + b@.take(i + 1));
        i = i + 1;
    }
    assert(b@.take(b@.len() as int) =~= b@);
}

impl GameBoard {
    pub fn oshi(&self) -> (res: Option<CardRef>)
        ensures
            res == self.oshi,
    {
        self.oshi
    }

    pub fn hand(&self) -> (res: Vec<CardRef>)
        ensures
            res@ == self.hand@,
    {
        deque_all_cards(&self.hand)
    }

    /// The center, the collab and the back stage, in that order.
    pub fn stage(&self) -> (res: Vec<CardRef>)
        ensures
            res@ == self.zone_cards(Zone::Stage),
    {
        let mut v = self.main_stage();
        append_cards(&mut v, self.back_stage());
        v
    }

    pub fn center_stage(&self) -> (res: Vec<CardRef>)
        ensures
            res@ == opt_seq(self.center_stage),
    {
        opt_cards(self.center_stage)
    }

    pub fn collab(&self) -> (res: Vec<CardRef>)
        ensures
            res@ == opt_seq(self.collab),
    {
        opt_cards(self.collab)
    }

    /// The center and the collab, in that order.
    pub fn main_stage(&self) -> (res: Vec<CardRef>)
        ensures
            res@ == self.zone_cards(Zone::MainStage),
    {
        let mut v = self.center_stage();
        append_cards(&mut v, self.collab());
        v
    }

    pub fn back_stage(&self) -> (res: Vec<CardRef>)
        ensures
            res@ == self.back_stage@,
    {
        deque_all_cards(&self.back_stage)
    }

    /// The cards of a zone, top first; a zone that groups others gives their cards.
    pub fn all_cards(&self, zone: Zone) -> (res: Vec<CardRef>)
        requires
            zone != Zone::All,
        ensures
            res@ == self.zone_cards(zone),
    {
        match zone {
            Zone::MainDeck => deque_all_cards(&self.main_deck),
            Zone::Oshi => opt_cards(self.oshi),
            Zone::Stage => self.stage(),
            Zone::MainStage => self.main_stage(),
            Zone::CenterStage => opt_cards(self.center_stage),
            Zone::Collab => opt_cards(self.collab),
            Zone::BackStage => deque_all_cards(&self.back_stage),
            Zone::Life => deque_all_cards(&self.life),
            Zone::CheerDeck => deque_all_cards(&self.cheer_deck),
            Zone::HoloPower => deque_all_cards(&self.holo_power),
            Zone::Archive => deque_all_cards(&self.archive),
            Zone::Hand => deque_all_cards(&self.hand),
            Zone::ActivateSupport => deque_all_cards(&self.activate_support),
            Zone::All => Vec::new(),
        }
    }
}

/// The index of the group of a zone.
pub open spec fn group_index(g: Seq<(Zone, Seq<CardRef>)>, z: Zone) -> int {
    choose|i: int| 0 <= i < g.len() && g[i].0 == z
}

pub open spec fn has_group(g: Seq<(Zone, Seq<CardRef>)>, z: Zone) -> bool {
    exists|i: int| 0 <= i < g.len() && g[i].0 == z
}

/// The cards grouped by the zone that holds them: the groups in the order in which their
/// zones first come, and the cards of a group in their order.
pub open spec fn grouped_by_zone(v: BoardState, cards: Seq<CardRef>) -> Seq<(Zone, Seq<CardRef>)>
    decreases cards.len(),
{
    if cards.len() == 0 {
        Seq::empty()
    } else {
        let g = grouped_by_zone(v, cards.drop_last());
        let c = cards.last();
        let z = v.find_zone(c)->0;
        if has_group(g, z) {
            let i = group_index(g, z);
            g.update(i, (z, g[i].1.push(c)))
        } else {
            g.push((z, seq![c]))
        }
    }
}

pub open spec fn groups_view(g: Seq<(Zone, Vec<CardRef>)>) -> Seq<(Zone, Seq<CardRef>)> {
    g.map_values(|p: (Zone, Vec<CardRef>)| (p.0, p.1@))
}

/// Each zone has one group at most.
pub open spec fn distinct_groups(g: Seq<(Zone, Seq<CardRef>)>) -> bool {
    forall|i: int, j: int| 0 <= i < j < g.len() ==> g[i].0 != g[j].0
}

/// Whether a card is in a given zone of the board (the zone that first holds it).
pub open spec fn in_zone_of(v: BoardState, z: Zone) -> spec_fn(CardRef) -> bool {
    |c: CardRef| v.find_zone(c)->0 == z
}

/// Grouping cards by their zone gives the zone of each of the cards a group, and each group
/// holds exactly those of the cards that are in its zone, in their order.
pub proof fn lemma_grouped_by_zone_filters(v: BoardState, cards: Seq<CardRef>)
    ensures
        forall|i: int|
            0 <= i < grouped_by_zone(v, cards).len() ==> #[trigger] grouped_by_zone(v, cards)[i].1
                == cards.filter(in_zone_of(v, grouped_by_zone(v, cards)[i].0)),
        forall|j: int|
            0 <= j < cards.len() ==> has_group(
                grouped_by_zone(v, cards),
                v.find_zone(#[trigger] cards[j])->0,
            ),
    decreases cards.len(),
{
    if cards.len() > 0 {
        let prev = cards.drop_last();
        let c = cards.last();
        let zc = v.find_zone(c)->0;
        lemma_grouped_by_zone_filters(v, prev);
        lemma_grouped_distinct(v, prev);
        assert(cards =~= prev.push(c));
        let g0 = grouped_by_zone(v, prev);
        let g = grouped_by_zone(v, cards);
        if has_group(g0, zc) {
            let idx = group_index(g0, zc);
            assert forall|i: int| 0 <= i < g.len() implies #[trigger] g[i].1 == cards.filter(
                in_zone_of(v, g[i].0),
            ) by {
                prev.lemma_filter_push(c, in_zone_of(v, g[i].0));
                assert(g0[i].1 == prev.filter(in_zone_of(v, g0[i].0)));
            }
            assert forall|j: int| 0 <= j < cards.len() implies has_group(
                g,
                v.find_zone(#[trigger] cards[j])->0,
            ) by {
                if j < prev.len() {
                    assert(prev[j] == cards[j]);
                    let k = choose|k: int| 0 <= k < g0.len() && g0[k].0 == v.find_zone(prev[j])->0;
                    assert(g[k].0 == g0[k].0);
                } else {
                    assert(g[idx].0 == zc);
                }
            }
        } else {
            assert forall|i: int| 0 <= i < g.len() implies #[trigger] g[i].1 == cards.filter(
                in_zone_of(v, g[i].0),
            ) by {
                prev.lemma_filter_push(c, in_zone_of(v, g[i].0));
                if i < g0.len() {
                    assert(g[i] == g0[i]);
                    assert(g0[i].1 == prev.filter(in_zone_of(v, g0[i].0)));
                } else {
                    let f = prev.filter(in_zone_of(v, zc));
                    prev.filter_lemma(in_zone_of(v, zc));
                    if f.len() > 0 {
                        assert(f.contains(f[0]));
                        prev.lemma_filter_contains_rev(in_zone_of(v, zc), f[0]);
                        let j = choose|j: int| 0 <= j < prev.len() && prev[j] == f[0];
                        assert(v.find_zone(prev[j])->0 == zc);
                        assert(has_group(g0, v.find_zone(prev[j])->0));
                    }
                    assert(f =~= Seq::<CardRef>::empty());
                    assert(g[i].1 =~= f.push(c));
                }
            }
            assert forall|j: int| 0 <= j < cards.len() implies has_group(
                g,
                v.find_zone(#[trigger] cards[j])->0,
            ) by {
                if j < prev.len() {
                    assert(prev[j] == cards[j]);
                    let k = choose|k: int| 0 <= k < g0.len() && g0[k].0 == v.find_zone(prev[j])->0;
                    assert(g[k].0 == g0[k].0);
                } else {
                    assert(g[g0.len() as int].0 == zc);
                }
            }
        }
    }
}

proof fn lemma_grouped_distinct(v: BoardState, cards: Seq<CardRef>)
    ensures
        distinct_groups(grouped_by_zone(v, cards)),
    decreases cards.len(),
{
    if cards.len() > 0 {
        lemma_grouped_distinct(v, cards.drop_last());
    }
}

impl GameBoard {
    /// The cards grouped by the zone that holds them.
    pub fn group_cards_by_zone(&self, cards: &[CardRef]) -> (res: Vec<(Zone, Vec<CardRef>)>)
        requires
            forall|i: int| 0 <= i < cards@.len() ==> self@.find_zone(#[trigger] cards@[i]) is Some,
        ensures
            groups_view(res@) == grouped_by_zone(self@, cards@),
    {
        let mut res: Vec<(Zone, Vec<CardRef>)> = Vec::new();
        let mut k: usize = 0;
        while k < cards.len()
            invariant
                0 <= k <= cards@.len(),
                forall|i: int| 0 <= i < cards@.len() ==> self@.find_zone(#[trigger] cards@[i]) is Some,
                groups_view(res@) == grouped_by_zone(self@, cards@.take(k as int)),
            decreases cards@.len() - k,
        {
            let c = cards[k];
            let zone = match self.find_card_zone(c) {
                Some(z) => z,
                None => Zone::All,
            };
            proof {
                assert(cards@.take(k + 1).drop_last() =~= cards@.take(k as int));
                assert(self@.find_zone(cards@[k as int]) is Some);
                lemma_grouped_distinct(self@, cards@.take(k as int));
            }
            let ghost g = grouped_by_zone(self@, cards@.take(k as int));
            let mut found: Option<usize> = None;
            let mut j: usize = 0;
            while j < res.len()
                invariant_except_break
                    0 <= j <= res@.len(),
                    found is None,
                    forall|i: int| 0 <= i < j ==> res@[i].0 != zone,
                invariant
                    groups_view(res@) == g,
                ensures
                    match found {
                        Some(j) => j < res@.len() && res@[j as int].0 == zone,
                        None => forall|i: int| 0 <= i < res@.len() ==> res@[i].0 != zone,
                    },
                decreases res@.len() - j,
            {
                if res[j].0 == zone {
                    found = Some(j);
                    break;
                }
                j = j + 1;
            }
            match found {
                Some(j) => {
                    proof {
                        assert(g[j as int].0 == zone);
                        assert(has_group(g, zone));
                        let i = group_index(g, zone);
                        assert(distinct_groups(g));
                        assert(i == j);
                    }
                    let (z0, mut group) = res.remove(j);
                    group.push(c);
                    res.insert(j, (z0, group));
                    proof {
                        assert(groups_view(res@) =~= grouped_by_zone(self@, cards@.take(k + 1)));
                    }
                },
                None => {
                    proof {
                        assert(!has_group(g, zone)) by {
                            if has_group(g, zone) {
                                let i = choose|i: int| 0 <= i < g.len() && g[i].0 == zone;
                                assert(res@[i].0 == g[i].0);
                            }
                        }
                    }
                    let mut group: Vec<CardRef> = Vec::new();
                    group.push(c);
                    res.push((zone, group));
                    proof {
                        assert(groups_view(res@) =~= grouped_by_zone(self@, cards@.take(k + 1)));
                    }
                },
            }
            k = k + 1;
        }
        proof {
            assert(cards@.take(cards@.len() as int) =~= cards@);
        }
        res
    }
}


// ------------------------------------------------------------------
// what attaching and blooming keep
// ------------------------------------------------------------------

proof fn lemma_insert_pair_value(s: Seq<(CardRef, CardRef)>, k: CardRef, v: CardRef)
    ensures
        pair_value(insert_pair(s, k, v), k) == Some(v),
        pair_keys(insert_pair(s, k, v)).contains(k),
{
    if pair_keys(s).contains(k) {
        lemma_map_keys(s, k, v, k);
        let w = choose|i: int| 0 <= i < pair_keys(s).len() && pair_keys(s)[i] == k;
        lemma_first_exists(pair_keys(s), k, w);
        let i = first_index(pair_keys(s), k);
        assert(pair_keys(s)[i] == k);
        assert(s[i].0 == k);
    } else {
        lemma_keys_push(s, (k, v));
        let t = pair_keys(s.push((k, v)));
        assert forall|j: int| 0 <= j < s.len() implies t[j] != k by {
            assert(t[j] == pair_keys(s)[j]);
        }
        lemma_first_index(t, k, s.len() as int);
    }
}

proof fn lemma_cards_parts(v: BoardState, c: CardRef)
    ensures
        v.cards().count(c) == v.zones_multiset(storage_zones()).count(c)
            + v.keys().to_multiset().count(c),
        v.keys().contains(c) ==> v.keys().to_multiset().count(c) >= 1,
        !v.keys().contains(c) ==> v.keys().to_multiset().count(c) == 0,
{
    broadcast use vstd::seq_lib::group_to_multiset_ensures;

}

/// A card that counts for nothing on a board is in no zone and not attached.
proof fn lemma_absent(v: BoardState, c: CardRef)
    requires
        v.cards().count(c) == 0,
    ensures
        v.find_zone(c) is None,
        !v.keys().contains(c),
        !v.is_movable(c),
{
    lemma_cards_parts(v, c);
    lemma_find_zone(v, c);
    if let Some(z) = v.find_zone(c) {
        lemma_zone_card_counts(v, z, c);
    }
}

/// Attaching keeps each card in one place: a card taken from a zone, or already attached,
/// stays among the cards of the board, and a card from nowhere joins them. The card is then
/// attached to the given card.
pub proof fn lemma_attach_keeps_cards(v: BoardState, a: CardRef, card: CardRef)
    requires
        v.wf(),
        v.can_attach(a, card),
    ensures
        v.attached(a, card).attached_to(a) == Some(card),
        v.is_movable(a) ==> v.attached(a, card).cards() == v.cards(),
        !v.is_movable(a) ==> v.attached(a, card).cards() == v.cards().insert(a),
        v.attached(a, card).wf(),
{
    broadcast use vstd::seq_lib::group_to_multiset_ensures;

    let w = v.attached(a, card);
    lemma_insert_pair_value(v.attachments, a, card);
    lemma_find_zone(v, a);
    lemma_cards_parts(v, a);
    match v.find_zone(a) {
        Some(z) => {
            let r = v.removed(a);
            lemma_removed_cards(v, a);
            lemma_zone_card_counts(v, z, a);
            lemma_storage_zones();
            lemma_zones_multiset_count(v, storage_zones(), z, a);
            assert(!v.keys().contains(a));
            lemma_keys_push(v.attachments, (a, card));
            lemma_zones_multiset_same_zones(w, r, storage_zones());
            assert forall|x: CardRef| #[trigger] w.cards().count(x) == v.cards().count(x) by {
                lemma_cards_parts(w, x);
                lemma_cards_parts(r, x);
            }
            assert(w.cards() =~= v.cards());
        },
        None => {
            lemma_zones_multiset_same_zones(w, v, storage_zones());
            if v.keys().contains(a) {
                lemma_map_keys(v.attachments, a, card, a);
                assert(w.keys() == v.keys());
                assert(w.cards() =~= v.cards());
            } else {
                lemma_keys_push(v.attachments, (a, card));
                lemma_storage_zones();
                assert forall|i: int| 0 <= i < storage_zones().len() implies !v.zone(
                    #[trigger] storage_zones()[i],
                ).contains(a) by {
                    assert(storage_zones().contains(storage_zones()[i]));
                }
                lemma_zones_multiset_absent(v, storage_zones(), a);
                assert(w.cards() =~= v.cards().insert(a));
            }
        },
    }
}

/// A bloom keeps the cards of the board, each in one place: the attachment takes the place
/// of the card it was attached to, and that card becomes attached to it.
pub proof fn lemma_promote_keeps_cards(v: BoardState, a: CardRef, parent: CardRef)
    requires
        v.wf(),
        v.find_zone(parent) is Some,
        v.keys().contains(a),
    ensures
        v.promoted(a, parent).cards() == v.cards(),
        v.promoted(a, parent).wf(),
        v.promoted(a, parent).attached_to(parent) == Some(a),
        v.promoted(a, parent).zone(v.find_zone(parent)->0) == replace_first(
            v.zone(v.find_zone(parent)->0),
            parent,
            a,
        ),
{
    broadcast use vstd::seq_lib::group_to_multiset_ensures;

    let z = v.find_zone(parent)->0;
    lemma_find_zone(v, parent);
    lemma_storage_zones();
    lemma_zone_card_counts(v, z, parent);
    lemma_cards_parts(v, a);
    lemma_cards_parts(v, parent);
    lemma_zones_multiset_count(v, storage_zones(), z, parent);
    assert(a != parent);
    // the parent gives way to the attachment in its zone
    let v1 = v.with_zone(z, replace_first(v.zone(z), parent, a));
    let w = choose|i: int| 0 <= i < v.zone(z).len() && v.zone(z)[i] == parent;
    lemma_first_exists(v.zone(z), parent, w);
    assert(same_except(v, v1, z));
    lemma_cards_except(v, v1, z);
    // the attachment is no longer attached
    let v2 = v1.with_attachments(without_key(v1.attachments, a));
    lemma_without_key(v1.attachments, a);
    lemma_zones_multiset_same_zones(v2, v1, storage_zones());
    assert forall|x: CardRef| #[trigger] v2.cards().count(x) == v.cards().count(x) - (if x
        == parent {
        1int
    } else {
        0
    }) by {
        lemma_cards_parts(v1, x);
        lemma_cards_parts(v2, x);
        lemma_cards_parts(v, x);
    }
    lemma_absent(v2, parent);
    // the parent is attached to the attachment
    let v3 = v2.attached(parent, a);
    lemma_keys_push(v2.attachments, (parent, a));
    lemma_zones_multiset_same_zones(v3, v2, storage_zones());
    lemma_insert_pair_value(v2.attachments, parent, a);
    let v4 = v3.with_attachments(retarget(v3.attachments, parent, a));
    lemma_map_keys(v3.attachments, parent, a, parent);
    lemma_zones_multiset_same_zones(v4, v3, storage_zones());
    assert forall|x: CardRef| #[trigger] v4.cards().count(x) == v.cards().count(x) by {
        lemma_cards_parts(v2, x);
        lemma_cards_parts(v3, x);
        lemma_cards_parts(v4, x);
    }
    assert(v4.cards() =~= v.cards());
    assert(v4 == v.promoted(a, parent));
    // the value of the parent's pair is the attachment, which the retargeting keeps
    let s3 = v3.attachments;
    let i = first_index(pair_keys(s3), parent);
    assert(pair_keys(retarget(s3, parent, a)) == pair_keys(s3));
    assert(s3[i].0 == parent);
    assert(s3[i].1 == a);
}


proof fn lemma_remove_first_keeps(s: Seq<CardRef>, a: CardRef, b: CardRef)
    requires
        s.contains(b),
        a != b,
    ensures
        remove_first(s, a).contains(b),
{
    if s.contains(a) {
        let i = first_index(s, a);
        let w = choose|k: int| 0 <= k < s.len() && s[k] == a;
        lemma_first_exists(s, a, w);
        let j = choose|k: int| 0 <= k < s.len() && s[k] == b;
        assert(j != i);
        let r = s.remove(i);
        if j < i {
            assert(r[j] == b);
        } else {
            assert(r[j - 1] == b);
        }
    }
}

/// A bloom keeps every card of the board, each in one place: the blooming card, from a zone
/// or an attachment, takes the place of the member on the stage, which becomes attached to
/// it.
pub proof fn lemma_bloom_keeps_cards(v: BoardState, from: CardRef, to: CardRef)
    requires
        v.wf(),
        v.is_movable(from),
        v.find_zone(to) is Some,
        from != to,
    ensures
        v.can_attach(from, to),
        v.attached(from, to).promoted(from, to).cards() == v.cards(),
        v.attached(from, to).promoted(from, to).wf(),
        v.attached(from, to).promoted(from, to).attached_to(to) == Some(from),
{
    let z = v.find_zone(to)->0;
    lemma_find_zone(v, to);
    lemma_zone_card_counts(v, z, to);
    lemma_cards_parts(v, to);
    lemma_storage_zones();
    lemma_zones_multiset_count(v, storage_zones(), z, to);
    assert(!v.keys().contains(to));
    lemma_attach_keeps_cards(v, from, to);
    let w = v.attached(from, to);
    // the member is still in its zone
    lemma_find_zone(v, from);
    let zr = match v.find_zone(from) {
        Some(zf) => if zf == z {
            remove_first(v.zone(z), from)
        } else {
            v.zone(z)
        },
        None => v.zone(z),
    };
    assert(w.zone(z) == zr);
    if let Some(zf) = v.find_zone(from) {
        if zf == z {
            lemma_remove_first_keeps(v.zone(z), from, to);
        }
    }
    assert(w.zone(z).contains(to));
    assert(w.find_zone(to) is Some) by {
        lemma_find_zone(w, to);
    }
    lemma_insert_pair_value(v.attachments, from, to);
    assert(w.keys().contains(from));
    lemma_promote_keeps_cards(w, from, to);
}


/// The first cards of a list, at most `amount` of them.
pub fn take_cards(v: &Vec<CardRef>, amount: usize) -> (res: Vec<CardRef>)
    ensures
        res@ == v@.take(min(amount as int, v@.len() as int)),
{
    let mut out: Vec<CardRef> = Vec::new();
    let mut i: usize = 0;
    while i < amount && i < v.len()
        invariant
            0 <= i <= v@.len(),
            i <= amount,
            out@ == v@.take(i as int),
        decreases v@.len() - i,
    {
        out.push(v[i]);
        assert(out@ =~= v@.take(i + 1));
        i = i + 1;
    }
    out
}

impl GameBoard {
    /// The top cards of a zone, at most `amount` of them.
    pub fn peek_top_cards(&self, zone: Zone, amount: usize) -> (res: Vec<CardRef>)
        requires
            is_storage_zone(zone),
        ensures
            res@ == self.zone_seq(zone).take(min(amount as int, self.zone_seq(zone).len() as int)),
    {
        let all = self.all_cards(zone);
        take_cards(&all, amount)
    }
}

} // verus!
