use std::collections::VecDeque;
use vstd::prelude::*;

use crate::board::{first_index, BoardState, GameBoard};
use crate::cards::{Card, CheerCard, HoloMemberCard, OshiHoloMemberCard, SupportCard};
use crate::events::EventSpan;
use crate::gameplay::{spec_opponent, CardRef, GameOutcome, Player, Step, Zone};
use crate::library::GlobalLibrary;
use crate::modifiers::{started_life_time, DamageMarkers, Modifier, ModifierV};

verus! {

// ------------------------------------------------------------------
// lists of entries by card
// ------------------------------------------------------------------

/// The cards of a list of entries, in order.
pub open spec fn entry_keys<V>(s: Seq<(CardRef, V)>) -> Seq<CardRef> {
    s.map_values(|e: (CardRef, V)| e.0)
}

pub open spec fn has_entry<V>(s: Seq<(CardRef, V)>, k: CardRef) -> bool {
    entry_keys(s).contains(k)
}

/// The position of the first entry of a card.
pub open spec fn entry_index<V>(s: Seq<(CardRef, V)>, k: CardRef) -> int {
    first_index(entry_keys(s), k)
}

/// The value of the first entry of a card.
pub open spec fn entry_value<V>(s: Seq<(CardRef, V)>, k: CardRef) -> V {
    s[entry_index(s, k)].1
}

pub proof fn lemma_entry_index<V>(s: Seq<(CardRef, V)>, k: CardRef, i: int)
    requires
        0 <= i < s.len(),
        s[i].0 == k,
        forall|j: int| 0 <= j < i ==> s[j].0 != k,
    ensures
        entry_index(s, k) == i,
        has_entry(s, k),
{
    let ks = entry_keys(s);
    let c = first_index(ks, k);
    assert(ks[i] == k);
    assert(0 <= c < ks.len() && ks[c] == k && forall|j: int| 0 <= j < c ==> ks[j] != k);
    if c < i {
        assert(s[c].0 != k);
    }
    if i < c {
        assert(ks[i] != k);
    }
}

/// Finds the first entry of a card.
pub fn find_entry<V>(s: &Vec<(CardRef, V)>, k: CardRef) -> (res: Option<usize>)
    ensures
        match res {
            Some(i) => i < s@.len() && s@[i as int].0 == k && entry_index(s@, k) == i && has_entry(
                s@,
                k,
            ),
            None => !has_entry(s@, k),
        },
{
    let mut i: usize = 0;
    while i < s.len()
        invariant
            0 <= i <= s@.len(),
            forall|j: int| 0 <= j < i ==> s@[j].0 != k,
        decreases s@.len() - i,
    {
        if s[i].0 == k {
            proof {
                lemma_entry_index(s@, k, i as int);
            }
            return Some(i);
        }
        i = i + 1;
    }
    proof {
        assert forall|j: int| 0 <= j < s@.len() implies entry_keys(s@)[j] != k by {
            assert(s@[j].0 != k);
        }
    }
    None
}

/// Each card has one entry at most.
pub open spec fn unique_keys<V>(s: Seq<(CardRef, V)>) -> bool {
    entry_keys(s).no_duplicates()
}

/// The entries as a map.
pub open spec fn entries_map<V>(s: Seq<(CardRef, V)>) -> Map<CardRef, V> {
    Map::new(|c: CardRef| has_entry(s, c), |c: CardRef| entry_value(s, c))
}

proof fn lemma_unique_index<V>(s: Seq<(CardRef, V)>, j: int)
    requires
        unique_keys(s),
        0 <= j < s.len(),
    ensures
        entry_index(s, s[j].0) == j,
        has_entry(s, s[j].0),
{
    let ks = entry_keys(s);
    assert forall|i: int| 0 <= i < j implies s[i].0 != s[j].0 by {
        assert(ks[i] == s[i].0 && ks[j] == s[j].0);
    }
    lemma_entry_index(s, s[j].0, j);
}

proof fn lemma_has_entry_index<V>(s: Seq<(CardRef, V)>, c: CardRef)
    requires
        has_entry(s, c),
    ensures
        exists|j: int| 0 <= j < s.len() && s[j].0 == c,
{
    let j = choose|j: int| 0 <= j < entry_keys(s).len() && entry_keys(s)[j] == c;
    assert(s[j].0 == c);
}

/// Changing the value of an entry changes the map at its card only.
proof fn lemma_entries_update<V>(s: Seq<(CardRef, V)>, i: int, v: V)
    requires
        unique_keys(s),
        0 <= i < s.len(),
    ensures
        unique_keys(s.update(i, (s[i].0, v))),
        entries_map(s.update(i, (s[i].0, v))) == entries_map(s).insert(s[i].0, v),
{
    let t = s.update(i, (s[i].0, v));
    assert(entry_keys(t) =~= entry_keys(s));
    lemma_unique_index(t, i);
    assert forall|c: CardRef| has_entry(t, c) implies entry_value(t, c) == entries_map(s).insert(
        s[i].0,
        v,
    )[c] by {
        lemma_has_entry_index(t, c);
        let j = choose|j: int| 0 <= j < t.len() && t[j].0 == c;
        lemma_unique_index(t, j);
        lemma_unique_index(s, j);
    }
    assert(entries_map(t) =~= entries_map(s).insert(s[i].0, v));
}

/// A new entry adds its card to the map.
proof fn lemma_entries_push<V>(s: Seq<(CardRef, V)>, k: CardRef, v: V)
    requires
        unique_keys(s),
        !has_entry(s, k),
    ensures
        unique_keys(s.push((k, v))),
        entries_map(s.push((k, v))) == entries_map(s).insert(k, v),
{
    let t = s.push((k, v));
    assert(entry_keys(t) =~= entry_keys(s).push(k));
    assert(unique_keys(t)) by {
        assert forall|a: int, b: int| 0 <= a < b < entry_keys(t).len() implies entry_keys(t)[a]
            != entry_keys(t)[b] by {
            if b == s.len() {
                assert(entry_keys(t)[a] == entry_keys(s)[a]);
            } else {
                assert(entry_keys(t)[a] == entry_keys(s)[a]);
                assert(entry_keys(t)[b] == entry_keys(s)[b]);
            }
        }
    }
    assert forall|c: CardRef| has_entry(t, c) implies entry_value(t, c) == entries_map(s).insert(
        k,
        v,
    )[c] && (has_entry(s, c) || c == k) by {
        lemma_has_entry_index(t, c);
        let j = choose|j: int| 0 <= j < t.len() && t[j].0 == c;
        lemma_unique_index(t, j);
        if j < s.len() {
            lemma_unique_index(s, j);
        }
    }
    assert forall|c: CardRef| has_entry(s, c) implies has_entry(t, c) by {
        lemma_has_entry_index(s, c);
        let j = choose|j: int| 0 <= j < s.len() && s[j].0 == c;
        assert(t[j].0 == c);
        lemma_unique_index(t, j);
    }
    lemma_unique_index(t, s.len() as int);
    assert(entries_map(t) =~= entries_map(s).insert(k, v));
}

/// Taking an entry out takes its card out of the map.
proof fn lemma_entries_remove<V>(s: Seq<(CardRef, V)>, i: int)
    requires
        unique_keys(s),
        0 <= i < s.len(),
    ensures
        unique_keys(s.remove(i)),
        entries_map(s.remove(i)) == entries_map(s).remove(s[i].0),
{
    let t = s.remove(i);
    assert(entry_keys(t) =~= entry_keys(s).remove(i));
    assert(unique_keys(t)) by {
        assert forall|a: int, b: int| 0 <= a < b < entry_keys(t).len() implies entry_keys(t)[a]
            != entry_keys(t)[b] by {
            let a2 = if a < i { a } else { a + 1 };
            let b2 = if b < i { b } else { b + 1 };
            assert(entry_keys(t)[a] == entry_keys(s)[a2]);
            assert(entry_keys(t)[b] == entry_keys(s)[b2]);
        }
    }
    assert forall|c: CardRef| has_entry(t, c) implies entry_value(t, c) == entries_map(s)[c]
        && has_entry(s, c) && c != s[i].0 by {
        lemma_has_entry_index(t, c);
        let j = choose|j: int| 0 <= j < t.len() && t[j].0 == c;
        lemma_unique_index(t, j);
        let j2 = if j < i { j } else { j + 1 };
        assert(t[j] == s[j2]);
        lemma_unique_index(s, j2);
        lemma_unique_index(s, i);
    }
    assert forall|c: CardRef| has_entry(s, c) && c != s[i].0 implies has_entry(t, c) by {
        lemma_has_entry_index(s, c);
        let j = choose|j: int| 0 <= j < s.len() && s[j].0 == c;
        assert(j != i);
        let j2 = if j < i { j } else { j - 1 };
        assert(t[j2].0 == c);
        lemma_unique_index(t, j2);
    }
    assert(entries_map(t) =~= entries_map(s).remove(s[i].0));
}

/// Sets the value of the entry of a card, adding the entry when there is none.
pub fn set_entry<V>(s: &mut Vec<(CardRef, V)>, k: CardRef, v: V)
    requires
        unique_keys(old(s)@),
    ensures
        unique_keys(final(s)@),
        entries_map(final(s)@) == entries_map(old(s)@).insert(k, v),
{
    match find_entry(s, k) {
        Some(i) => {
            proof {
                lemma_entries_update(s@, i as int, v);
            }
            s.set(i, (k, v));
        },
        None => {
            proof {
                lemma_entries_push(s@, k, v);
            }
            s.push((k, v));
        },
    }
}

// entries by player

pub open spec fn pfirst_index(s: Seq<Player>, c: Player) -> int {
    choose|i: int| 0 <= i < s.len() && s[i] == c && forall|j: int| 0 <= j < i ==> s[j] != c
}

/// The players of a list of entries, in order.
pub open spec fn pentry_keys<V>(s: Seq<(Player, V)>) -> Seq<Player> {
    s.map_values(|e: (Player, V)| e.0)
}

pub open spec fn phas_entry<V>(s: Seq<(Player, V)>, k: Player) -> bool {
    pentry_keys(s).contains(k)
}

/// The position of the first entry of a card.
pub open spec fn pentry_index<V>(s: Seq<(Player, V)>, k: Player) -> int {
    pfirst_index(pentry_keys(s), k)
}

/// The value of the first entry of a card.
pub open spec fn pentry_value<V>(s: Seq<(Player, V)>, k: Player) -> V {
    s[pentry_index(s, k)].1
}

pub proof fn plemma_entry_index<V>(s: Seq<(Player, V)>, k: Player, i: int)
    requires
        0 <= i < s.len(),
        s[i].0 == k,
        forall|j: int| 0 <= j < i ==> s[j].0 != k,
    ensures
        pentry_index(s, k) == i,
        phas_entry(s, k),
{
    let ks = pentry_keys(s);
    let c = pfirst_index(ks, k);
    assert(ks[i] == k);
    assert(0 <= c < ks.len() && ks[c] == k && forall|j: int| 0 <= j < c ==> ks[j] != k);
    if c < i {
        assert(s[c].0 != k);
    }
    if i < c {
        assert(ks[i] != k);
    }
}

/// Finds the first entry of a card.
pub fn pfind_entry<V>(s: &Vec<(Player, V)>, k: Player) -> (res: Option<usize>)
    ensures
        match res {
            Some(i) => i < s@.len() && s@[i as int].0 == k && pentry_index(s@, k) == i && phas_entry(
                s@,
                k,
            ),
            None => !phas_entry(s@, k),
        },
{
    let mut i: usize = 0;
    while i < s.len()
        invariant
            0 <= i <= s@.len(),
            forall|j: int| 0 <= j < i ==> s@[j].0 != k,
        decreases s@.len() - i,
    {
        if s[i].0 == k {
            proof {
                plemma_entry_index(s@, k, i as int);
            }
            return Some(i);
        }
        i = i + 1;
    }
    proof {
        assert forall|j: int| 0 <= j < s@.len() implies pentry_keys(s@)[j] != k by {
            assert(s@[j].0 != k);
        }
    }
    None
}

/// Each card has one entry at most.
pub open spec fn punique_keys<V>(s: Seq<(Player, V)>) -> bool {
    pentry_keys(s).no_duplicates()
}

/// The entries as a map.
pub open spec fn pentries_map<V>(s: Seq<(Player, V)>) -> Map<Player, V> {
    Map::new(|c: Player| phas_entry(s, c), |c: Player| pentry_value(s, c))
}

proof fn plemma_unique_index<V>(s: Seq<(Player, V)>, j: int)
    requires
        punique_keys(s),
        0 <= j < s.len(),
    ensures
        pentry_index(s, s[j].0) == j,
        phas_entry(s, s[j].0),
{
    let ks = pentry_keys(s);
    assert forall|i: int| 0 <= i < j implies s[i].0 != s[j].0 by {
        assert(ks[i] == s[i].0 && ks[j] == s[j].0);
    }
    plemma_entry_index(s, s[j].0, j);
}

proof fn plemma_has_entry_index<V>(s: Seq<(Player, V)>, c: Player)
    requires
        phas_entry(s, c),
    ensures
        exists|j: int| 0 <= j < s.len() && s[j].0 == c,
{
    let j = choose|j: int| 0 <= j < pentry_keys(s).len() && pentry_keys(s)[j] == c;
    assert(s[j].0 == c);
}

/// Changing the value of an entry changes the map at its card only.
proof fn plemma_entries_update<V>(s: Seq<(Player, V)>, i: int, v: V)
    requires
        punique_keys(s),
        0 <= i < s.len(),
    ensures
        punique_keys(s.update(i, (s[i].0, v))),
        pentries_map(s.update(i, (s[i].0, v))) == pentries_map(s).insert(s[i].0, v),
{
    let t = s.update(i, (s[i].0, v));
    assert(pentry_keys(t) =~= pentry_keys(s));
    plemma_unique_index(t, i);
    assert forall|c: Player| phas_entry(t, c) implies pentry_value(t, c) == pentries_map(s).insert(
        s[i].0,
        v,
    )[c] by {
        plemma_has_entry_index(t, c);
        let j = choose|j: int| 0 <= j < t.len() && t[j].0 == c;
        plemma_unique_index(t, j);
        plemma_unique_index(s, j);
    }
    assert(pentries_map(t) =~= pentries_map(s).insert(s[i].0, v));
}

/// A new entry adds its card to the map.
proof fn plemma_entries_push<V>(s: Seq<(Player, V)>, k: Player, v: V)
    requires
        punique_keys(s),
        !phas_entry(s, k),
    ensures
        punique_keys(s.push((k, v))),
        pentries_map(s.push((k, v))) == pentries_map(s).insert(k, v),
{
    let t = s.push((k, v));
    assert(pentry_keys(t) =~= pentry_keys(s).push(k));
    assert(punique_keys(t)) by {
        assert forall|a: int, b: int| 0 <= a < b < pentry_keys(t).len() implies pentry_keys(t)[a]
            != pentry_keys(t)[b] by {
            if b == s.len() {
                assert(pentry_keys(t)[a] == pentry_keys(s)[a]);
            } else {
                assert(pentry_keys(t)[a] == pentry_keys(s)[a]);
                assert(pentry_keys(t)[b] == pentry_keys(s)[b]);
            }
        }
    }
    assert forall|c: Player| phas_entry(t, c) implies pentry_value(t, c) == pentries_map(s).insert(
        k,
        v,
    )[c] && (phas_entry(s, c) || c == k) by {
        plemma_has_entry_index(t, c);
        let j = choose|j: int| 0 <= j < t.len() && t[j].0 == c;
        plemma_unique_index(t, j);
        if j < s.len() {
            plemma_unique_index(s, j);
        }
    }
    assert forall|c: Player| phas_entry(s, c) implies phas_entry(t, c) by {
        plemma_has_entry_index(s, c);
        let j = choose|j: int| 0 <= j < s.len() && s[j].0 == c;
        assert(t[j].0 == c);
        plemma_unique_index(t, j);
    }
    plemma_unique_index(t, s.len() as int);
    assert(pentries_map(t) =~= pentries_map(s).insert(k, v));
}

/// The views of a list of modifiers.
pub open spec fn modifier_views(s: Seq<Modifier>) -> Seq<ModifierV> {
    s.map_values(|m: Modifier| m@)
}

/// The modifiers of a card: those of its entry, or none.
pub open spec fn card_mods(s: Seq<(CardRef, Vec<Modifier>)>, c: CardRef) -> Seq<ModifierV> {
    if has_entry(s, c) {
        modifier_views(entry_value(s, c)@)
    } else {
        Seq::empty()
    }
}

/// The damage on a card: that of its entry, or none.
pub open spec fn card_damage(s: Seq<(CardRef, DamageMarkers)>, c: CardRef) -> usize {
    if has_entry(s, c) {
        entry_value(s, c).0
    } else {
        0
    }
}

// ------------------------------------------------------------------
// the state of a game
// ------------------------------------------------------------------

/// Everything about a game in progress.
#[derive(Debug)]
pub struct GameState {
    pub game_outcome: Option<GameOutcome>,
    /// who owns each card, and its card number
    pub card_map: Vec<(CardRef, (Player, String))>,
    pub player_1: GameBoard,
    pub player_2: GameBoard,
    pub active_player: Player,
    pub active_step: Step,
    pub turn_number: u8,
    /// the modifiers of the zones of each player
    pub zone_modifiers: Vec<(Player, Vec<(Zone, Modifier)>)>,
    pub card_modifiers: Vec<(CardRef, Vec<Modifier>)>,
    pub card_damage_markers: Vec<(CardRef, DamageMarkers)>,
    pub event_span: EventSpan,
}

pub fn empty_board() -> (res: GameBoard)
    ensures
        forall|z: Zone| #[trigger] res.zone_seq(z).len() == 0,
        res.attachments@.len() == 0,
{
    GameBoard {
        oshi: None,
        main_deck: VecDeque::new(),
        center_stage: None,
        collab: None,
        back_stage: VecDeque::new(),
        life: VecDeque::new(),
        cheer_deck: VecDeque::new(),
        holo_power: VecDeque::new(),
        archive: VecDeque::new(),
        hand: VecDeque::new(),
        activate_support: VecDeque::new(),
        attachments: Vec::new(),
    }
}

/// The board of a player; both players have none.
pub open spec fn spec_board(s: GameState, p: Player) -> GameBoard {
    if p == Player::One {
        s.player_1
    } else {
        s.player_2
    }
}

/// Two states that differ at most in the boards.
pub open spec fn same_but_boards(a: GameState, b: GameState) -> bool {
    &&& a.game_outcome == b.game_outcome
    &&& a.card_map == b.card_map
    &&& a.active_player == b.active_player
    &&& a.active_step == b.active_step
    &&& a.turn_number == b.turn_number
    &&& a.zone_modifiers == b.zone_modifiers
    &&& a.card_modifiers == b.card_modifiers
    &&& a.card_damage_markers == b.card_damage_markers
    &&& a.event_span == b.event_span
}

impl GameState {
    /// The player that owns a registered card.
    pub open spec fn owner(&self, c: CardRef) -> Player {
        entry_value(self.card_map@, c).0
    }

    /// A card with an owner, one of the two players.
    pub open spec fn is_registered(&self, c: CardRef) -> bool {
        has_entry(self.card_map@, c) && self.owner(c) != Player::Both
    }

    pub open spec fn spec_card_number(&self, c: CardRef) -> Seq<char> {
        entry_value(self.card_map@, c).1@
    }

    /// A new game: no cards, empty boards, the setup step of player one.
    pub fn new() -> (res: GameState)
        ensures
            res.game_outcome is None,
            res.card_map@.len() == 0,
            forall|z: Zone| #[trigger] res.player_1.zone_seq(z).len() == 0,
            forall|z: Zone| #[trigger] res.player_2.zone_seq(z).len() == 0,
            res.player_1.attachments@.len() == 0,
            res.player_2.attachments@.len() == 0,
            res.active_player == Player::One,
            res.active_step == Step::Setup,
            res.turn_number == 0,
            res.zone_modifiers@.len() == 0,
            res.card_modifiers@.len() == 0,
            res.card_damage_markers@.len() == 0,
            res.event_span.origin_stack@.len() == 0,
            res.event_span.event_stack@.len() == 0,
    {
        GameState {
            game_outcome: None,
            card_map: Vec::new(),
            player_1: empty_board(),
            player_2: empty_board(),
            active_player: Player::One,
            active_step: Step::Setup,
            turn_number: 0,
            zone_modifiers: Vec::new(),
            card_modifiers: Vec::new(),
            card_damage_markers: Vec::new(),
            event_span: EventSpan::new(),
        }
    }

    /// The board of the active player.
    pub fn active_board(&self) -> (res: &GameBoard)
        requires
            self.active_player != Player::Both,
        ensures
            *res == spec_board(*self, self.active_player),
    {
        self.board(self.active_player)
    }

    pub fn active_board_mut(&mut self) -> (res: &mut GameBoard)
        requires
            old(self).active_player != Player::Both,
        ensures
            *res == spec_board(*old(self), old(self).active_player),
            spec_board(*final(self), old(self).active_player) == *final(res),
            spec_board(*final(self), spec_opponent(old(self).active_player)) == spec_board(
                *old(self),
                spec_opponent(old(self).active_player),
            ),
            same_but_boards(*old(self), *final(self)),
    {
        let p = self.active_player;
        self.board_mut(p)
    }

    /// The board of a player, one of the two.
    pub fn board(&self, player: Player) -> (res: &GameBoard)
        requires
            player != Player::Both,
        ensures
            *res == spec_board(*self, player),
    {
        match player {
            Player::One => &self.player_1,
            _ => &self.player_2,
        }
    }

    pub fn board_mut(&mut self, player: Player) -> (res: &mut GameBoard)
        requires
            player != Player::Both,
        ensures
            *res == spec_board(*old(self), player),
            spec_board(*final(self), player) == *final(res),
            spec_board(*final(self), spec_opponent(player)) == spec_board(
                *old(self),
                spec_opponent(player),
            ),
            same_but_boards(*old(self), *final(self)),
    {
        match player {
            Player::One => &mut self.player_1,
            _ => &mut self.player_2,
        }
    }

    /// The player that owns a card. The card must be registered.
    pub fn player_for_card(&self, card: CardRef) -> (res: Player)
        requires
            has_entry(self.card_map@, card),
        ensures
            res == self.owner(card),
    {
        match find_entry(&self.card_map, card) {
            Some(i) => self.card_map[i].1.0,
            None => Player::One,
        }
    }

    pub fn board_for_card(&self, card: CardRef) -> (res: &GameBoard)
        requires
            self.is_registered(card),
        ensures
            *res == spec_board(*self, self.owner(card)),
    {
        let player = self.player_for_card(card);
        self.board(player)
    }

    pub fn board_for_card_mut(&mut self, card: CardRef) -> (res: &mut GameBoard)
        requires
            old(self).is_registered(card),
        ensures
            *res == spec_board(*old(self), old(self).owner(card)),
            spec_board(*final(self), old(self).owner(card)) == *final(res),
            spec_board(*final(self), spec_opponent(old(self).owner(card))) == spec_board(
                *old(self),
                spec_opponent(old(self).owner(card)),
            ),
            same_but_boards(*old(self), *final(self)),
    {
        let player = self.player_for_card(card);
        self.board_mut(player)
    }

    /// The card number of a card. The card must be registered.
    pub fn lookup_card_number(&self, card: CardRef) -> (res: &String)
        requires
            has_entry(self.card_map@, card),
        ensures
            res@ == self.spec_card_number(card),
    {
        match find_entry(&self.card_map, card) {
            Some(i) => &self.card_map[i].1.1,
            None => &self.card_map[0].1.1,
        }
    }

    /// Whether the library has the card of a registered card.
    pub open spec fn in_library(&self, library: &GlobalLibrary, c: CardRef) -> bool {
        has_entry(self.card_map@, c) && library.has_card(self.spec_card_number(c))
    }

    pub open spec fn card_of(&self, library: &GlobalLibrary, c: CardRef) -> Card {
        library.spec_lookup(self.spec_card_number(c))
    }

    /// The card of a registered card, from the library.
    pub fn lookup_card<'a>(&self, library: &'a GlobalLibrary, card: CardRef) -> (res: &'a Card)
        requires
            self.in_library(library, card),
        ensures
            *res == self.card_of(library, card),
    {
        let card_number = self.lookup_card_number(card);
        library.lookup_card(card_number)
    }

    pub fn lookup_oshi<'a>(&self, library: &'a GlobalLibrary, card: CardRef) -> (res: Option<
        &'a OshiHoloMemberCard,
    >)
        requires
            self.in_library(library, card),
        ensures
            match self.card_of(library, card) {
                Card::OshiHoloMember(o) => res == Some(&o),
                _ => res is None,
            },
    {
        if let Card::OshiHoloMember(o) = self.lookup_card(library, card) {
            Some(o)
        } else {
            None
        }
    }

    pub fn lookup_holo_member<'a>(&self, library: &'a GlobalLibrary, card: CardRef) -> (res: Option<
        &'a HoloMemberCard,
    >)
        requires
            self.in_library(library, card),
        ensures
            match self.card_of(library, card) {
                Card::HoloMember(m) => res == Some(&m),
                _ => res is None,
            },
    {
        if let Card::HoloMember(m) = self.lookup_card(library, card) {
            Some(m)
        } else {
            None
        }
    }

    pub fn lookup_support<'a>(&self, library: &'a GlobalLibrary, card: CardRef) -> (res: Option<
        &'a SupportCard,
    >)
        requires
            self.in_library(library, card),
        ensures
            match self.card_of(library, card) {
                Card::Support(s) => res == Some(&s),
                _ => res is None,
            },
    {
        if let Card::Support(s) = self.lookup_card(library, card) {
            Some(s)
        } else {
            None
        }
    }

    pub fn lookup_cheer<'a>(&self, library: &'a GlobalLibrary, card: CardRef) -> (res: Option<
        &'a CheerCard,
    >)
        requires
            self.in_library(library, card),
        ensures
            match self.card_of(library, card) {
                Card::Cheer(c) => res == Some(&c),
                _ => res is None,
            },
    {
        if let Card::Cheer(c) = self.lookup_card(library, card) {
            Some(c)
        } else {
            None
        }
    }

    /// The cards attached to a registered card, on its owner's board.
    pub open spec fn spec_attachments(&self, c: CardRef) -> Seq<CardRef> {
        spec_board(*self, self.owner(c))@.attachments_of(c)
    }

    pub fn attachments(&self, card: CardRef) -> (res: Vec<CardRef>)
        requires
            self.is_registered(card),
        ensures
            res@ == self.spec_attachments(card),
    {
        self.board_for_card(card).attachments(card)
    }

    // damage markers

    pub fn has_damage(&self, card: CardRef) -> (res: bool)
        ensures
            res == (card_damage(self.card_damage_markers@, card) > 0),
    {
        match find_entry(&self.card_damage_markers, card) {
            Some(i) => self.card_damage_markers[i].1.0 > 0,
            None => false,
        }
    }

    pub fn get_damage(&self, card: CardRef) -> (res: DamageMarkers)
        ensures
            res.0 == card_damage(self.card_damage_markers@, card),
    {
        match find_entry(&self.card_damage_markers, card) {
            Some(i) => self.card_damage_markers[i].1,
            None => DamageMarkers(0),
        }
    }

    /// The hp that a member has left: its hp less its damage, at least 0.
    pub fn remaining_hp(&self, library: &GlobalLibrary, card: CardRef) -> (res: u16)
        requires
            self.in_library(library, card),
            self.card_of(library, card) is HoloMember,
            (card_damage(self.card_damage_markers@, card) % 0x10000) * 10 <= u16::MAX,
        ensures
            ({
                let hp = self.card_of(library, card)->HoloMember_0.hp;
                let dmg = (card_damage(self.card_damage_markers@, card) % 0x10000) * 10;
                res == if hp < dmg {
                    0
                } else {
                    hp - dmg
                }
            }),
    {
        let dmg = self.get_damage(card);
        let hp = match self.lookup_holo_member(library, card) {
            Some(m) => m.hp,
            None => 0,
        };
        hp.saturating_sub(dmg.to_hp())
    }
}


// ------------------------------------------------------------------
// modifiers and damage, as maps
// ------------------------------------------------------------------

/// The modifiers of each card that has an entry.
pub open spec fn mods_map(s: Seq<(CardRef, Vec<Modifier>)>) -> Map<CardRef, Seq<ModifierV>> {
    entries_map(s).map_values(|v: Vec<Modifier>| modifier_views(v@))
}

/// The damage of each card that has an entry.
pub open spec fn damage_map(s: Seq<(CardRef, DamageMarkers)>) -> Map<CardRef, usize> {
    entries_map(s).map_values(|d: DamageMarkers| d.0)
}

pub open spec fn zone_modifier_views(s: Seq<(Zone, Modifier)>) -> Seq<(Zone, ModifierV)> {
    s.map_values(|p: (Zone, Modifier)| (p.0, p.1@))
}

/// The zone modifiers of each player that has an entry.
pub open spec fn zone_mods_map(s: Seq<(Player, Vec<(Zone, Modifier)>)>) -> Map<
    Player,
    Seq<(Zone, ModifierV)>,
> {
    pentries_map(s).map_values(|v: Vec<(Zone, Modifier)>| zone_modifier_views(v@))
}

/// The list of a key in a map, or an empty one.
pub open spec fn or_empty<K, A>(m: Map<K, Seq<A>>, k: K) -> Seq<A> {
    if m.contains_key(k) {
        m[k]
    } else {
        Seq::empty()
    }
}

/// The modifiers added to each of the cards, once per time a card is listed.
pub open spec fn added_mods(
    m: Map<CardRef, Seq<ModifierV>>,
    cards: Seq<CardRef>,
    mods: Seq<ModifierV>,
) -> Map<CardRef, Seq<ModifierV>>
    decreases cards.len(),
{
    if cards.len() == 0 {
        m
    } else {
        let p = added_mods(m, cards.drop_last(), mods);
        p.insert(cards.last(), or_empty(p, cards.last()) + mods)
    }
}

/// The entries of the cards taken out.
pub open spec fn cleared<V>(m: Map<CardRef, V>, cards: Seq<CardRef>) -> Map<CardRef, V>
    decreases cards.len(),
{
    if cards.len() == 0 {
        m
    } else {
        cleared(m, cards.drop_last()).remove(cards.last())
    }
}

/// The damage of each of the cards changed by `f`, once per time a card is listed; a card
/// without damage counts as 0.
pub open spec fn changed_damage(
    m: Map<CardRef, usize>,
    cards: Seq<CardRef>,
    dmg: usize,
    add: bool,
) -> Map<CardRef, usize>
    decreases cards.len(),
{
    if cards.len() == 0 {
        m
    } else {
        let p = changed_damage(m, cards.drop_last(), dmg, add);
        let c = cards.last();
        let old_d = if p.contains_key(c) {
            p[c]
        } else {
            0
        };
        p.insert(c, if add { saturating_add(old_d, dmg) } else { saturating_sub(old_d, dmg) })
    }
}

pub open spec fn saturating_add(a: usize, b: usize) -> usize {
    if a + b > usize::MAX {
        usize::MAX
    } else {
        (a + b) as usize
    }
}

pub open spec fn saturating_sub(a: usize, b: usize) -> usize {
    if a < b {
        0
    } else {
        (a - b) as usize
    }
}

/// The damage of a card in a map of damage; a card without an entry has none.
pub open spec fn damage_of(m: Map<CardRef, usize>, c: CardRef) -> int {
    if m.contains_key(c) {
        m[c] as int
    } else {
        0
    }
}

/// How many times a card is listed.
pub open spec fn times_listed(cards: Seq<CardRef>, c: CardRef) -> nat
    decreases cards.len(),
{
    if cards.len() == 0 {
        0
    } else {
        times_listed(cards.drop_last(), c) + if cards.last() == c {
            1nat
        } else {
            0nat
        }
    }
}

proof fn lemma_added_damage(m: Map<CardRef, usize>, cards: Seq<CardRef>, dmg: usize, c: CardRef)
    requires
        damage_of(m, c) + times_listed(cards, c) * dmg <= usize::MAX,
    ensures
        damage_of(changed_damage(m, cards, dmg, true), c) == damage_of(m, c) + times_listed(cards, c)
            * dmg,
    decreases cards.len(),
{
    if cards.len() > 0 {
        let prev = cards.drop_last();
        let k = times_listed(prev, c);
        if cards.last() == c {
            assert(times_listed(cards, c) == k + 1);
            assert(k * dmg + dmg == (k + 1) * dmg) by (nonlinear_arith);
        } else {
            assert(times_listed(cards, c) == k);
        }
        assert(k * dmg <= times_listed(cards, c) * dmg) by (nonlinear_arith)
            requires
                k <= times_listed(cards, c),
        ;
        lemma_added_damage(m, prev, dmg, c);
        let p = changed_damage(m, prev, dmg, true);
        assert(damage_of(p, c) == damage_of(m, c) + k * dmg);
        if cards.last() == c {
            assert(damage_of(p, c) + dmg <= usize::MAX);
            assert(changed_damage(m, cards, dmg, true) == p.insert(
                c,
                saturating_add(damage_of(p, c) as usize, dmg),
            ));
        } else {
            assert(changed_damage(m, cards, dmg, true) == p.insert(
                cards.last(),
                saturating_add(damage_of(p, cards.last()) as usize, dmg),
            ));
        }
        assert(damage_of(changed_damage(m, cards, dmg, true), c) == damage_of(m, c) + times_listed(
            cards,
            c,
        ) * dmg);
    } else {
        assert(times_listed(cards, c) == 0);
        assert(0 * dmg == 0);
    }
}

proof fn lemma_removed_damage(m: Map<CardRef, usize>, cards: Seq<CardRef>, dmg: usize, c: CardRef)
    ensures
        damage_of(changed_damage(m, cards, dmg, false), c) == if damage_of(m, c) < times_listed(
            cards,
            c,
        ) * dmg {
            0
        } else {
            damage_of(m, c) - times_listed(cards, c) * dmg
        },
    decreases cards.len(),
{
    if cards.len() > 0 {
        let prev = cards.drop_last();
        let k = times_listed(prev, c);
        lemma_removed_damage(m, prev, dmg, c);
        let p = changed_damage(m, prev, dmg, false);
        if cards.last() == c {
            assert(times_listed(cards, c) == k + 1);
            assert(k * dmg + dmg == (k + 1) * dmg) by (nonlinear_arith);
            assert(changed_damage(m, cards, dmg, false) == p.insert(
                c,
                saturating_sub(damage_of(p, c) as usize, dmg),
            ));
        } else {
            assert(times_listed(cards, c) == k);
            assert(changed_damage(m, cards, dmg, false) == p.insert(
                cards.last(),
                saturating_sub(damage_of(p, cards.last()) as usize, dmg),
            ));
        }
    } else {
        assert(times_listed(cards, c) == 0);
        assert(0 * dmg == 0);
    }
}

/// Damage removed from cards right after the same damage was added to them gives each card
/// back the damage it had, as long as no card's damage reached the most a count holds.
pub proof fn lemma_remove_undoes_add(m: Map<CardRef, usize>, cards: Seq<CardRef>, dmg: usize, c: CardRef)
    requires
        damage_of(m, c) + times_listed(cards, c) * dmg <= usize::MAX,
    ensures
        damage_of(changed_damage(changed_damage(m, cards, dmg, true), cards, dmg, false), c)
            == damage_of(m, c),
{
    lemma_added_damage(m, cards, dmg, c);
    lemma_removed_damage(changed_damage(m, cards, dmg, true), cards, dmg, c);
}

fn clone_modifiers(src: &Vec<Modifier>) -> (res: Vec<Modifier>)
    ensures
        modifier_views(res@) == modifier_views(src@),
{
    let mut out: Vec<Modifier> = Vec::new();
    append_modifiers(&mut out, src);
    assert(modifier_views(out@) =~= modifier_views(src@));
    out
}

fn append_modifiers(dst: &mut Vec<Modifier>, src: &Vec<Modifier>)
    ensures
        modifier_views(final(dst)@) == modifier_views(old(dst)@) + modifier_views(src@),
{
    let ghost d0 = modifier_views(dst@);
    let mut i: usize = 0;
    while i < src.len()
        invariant
            0 <= i <= src@.len(),
            modifier_views(dst@) == d0 + modifier_views(src@.take(i as int)),
        decreases src@.len() - i,
    {
        let m = src[i].duplicate();
        let ghost before = dst@;
        dst.push(m);
        assert(modifier_views(dst@) =~= modifier_views(before).push(m@));
        assert(modifier_views(src@.take(i + 1)) =~= modifier_views(src@.take(i as int)).push(
            src@[i as int]@,
        ));
        assert(modifier_views(dst@) =~= d0 + modifier_views(src@.take(i + 1)));
        i = i + 1;
    }
    assert(src@.take(src@.len() as int) =~= src@);
}

/// The fields of a state other than its modifiers and damage.
pub open spec fn same_board_state(a: GameState, b: GameState) -> bool {
    &&& a.game_outcome == b.game_outcome
    &&& a.card_map == b.card_map
    &&& a.player_1 == b.player_1
    &&& a.player_2 == b.player_2
    &&& a.active_player == b.active_player
    &&& a.active_step == b.active_step
    &&& a.turn_number == b.turn_number
    &&& a.event_span == b.event_span
}

impl GameState {
    /// Each card and player has one entry at most in each list.
    pub open spec fn wf(&self) -> bool {
        &&& unique_keys(self.card_map@)
        &&& unique_keys(self.card_modifiers@)
        &&& unique_keys(self.card_damage_markers@)
        &&& punique_keys(self.zone_modifiers@)
    }

    /// Adds copies of the modifiers to each card, once per time it is listed.
    pub fn add_card_modifiers(&mut self, cards: &Vec<CardRef>, modifiers: &Vec<Modifier>)
        requires
            unique_keys(old(self).card_modifiers@),
        ensures
            unique_keys(final(self).card_modifiers@),
            mods_map(final(self).card_modifiers@) == added_mods(
                mods_map(old(self).card_modifiers@),
                cards@,
                modifier_views(modifiers@),
            ),
            same_board_state(*old(self), *final(self)),
            final(self).zone_modifiers == old(self).zone_modifiers,
            final(self).card_damage_markers == old(self).card_damage_markers,
    {
        let ghost m0 = mods_map(self.card_modifiers@);
        let ghost mv = modifier_views(modifiers@);
        let mut i: usize = 0;
        while i < cards.len()
            invariant
                0 <= i <= cards@.len(),
                unique_keys(self.card_modifiers@),
                mods_map(self.card_modifiers@) == added_mods(m0, cards@.take(i as int), mv),
                mv == modifier_views(modifiers@),
                same_board_state(*old(self), *self),
                self.zone_modifiers == old(self).zone_modifiers,
                self.card_damage_markers == old(self).card_damage_markers,
            decreases cards@.len() - i,
        {
            let c = cards[i];
            let ghost s0 = self.card_modifiers@;
            let ghost p = added_mods(m0, cards@.take(i as int), mv);
            proof {
                assert(cards@.take(i + 1).drop_last() =~= cards@.take(i as int));
            }
            match find_entry(&self.card_modifiers, c) {
                Some(j) => {
                    let (k, mut v) = self.card_modifiers.remove(j);
                    append_modifiers(&mut v, modifiers);
                    self.card_modifiers.insert(j, (k, v));
                    proof {
                        assert(self.card_modifiers@ =~= s0.update(j as int, (c, v)));
                        lemma_entries_update(s0, j as int, v);
                        assert(mods_map(self.card_modifiers@) =~= added_mods(
                            m0,
                            cards@.take(i + 1),
                            mv,
                        ));
                    }
                },
                None => {
                    let v = clone_modifiers(modifiers);
                    self.card_modifiers.push((c, v));
                    proof {
                        lemma_entries_push(s0, c, v);
                        assert(mods_map(self.card_modifiers@) =~= added_mods(
                            m0,
                            cards@.take(i + 1),
                            mv,
                        ));
                    }
                },
            }
            i = i + 1;
        }
        proof {
            assert(cards@.take(cards@.len() as int) =~= cards@);
        }
    }

    /// Takes the modifiers of the cards away.
    pub fn clear_card_modifiers(&mut self, cards: &Vec<CardRef>)
        requires
            unique_keys(old(self).card_modifiers@),
        ensures
            unique_keys(final(self).card_modifiers@),
            mods_map(final(self).card_modifiers@) == cleared(
                mods_map(old(self).card_modifiers@),
                cards@,
            ),
            same_board_state(*old(self), *final(self)),
            final(self).zone_modifiers == old(self).zone_modifiers,
            final(self).card_damage_markers == old(self).card_damage_markers,
    {
        let ghost m0 = mods_map(self.card_modifiers@);
        let mut i: usize = 0;
        while i < cards.len()
            invariant
                0 <= i <= cards@.len(),
                unique_keys(self.card_modifiers@),
                mods_map(self.card_modifiers@) == cleared(m0, cards@.take(i as int)),
                same_board_state(*old(self), *self),
                self.zone_modifiers == old(self).zone_modifiers,
                self.card_damage_markers == old(self).card_damage_markers,
            decreases cards@.len() - i,
        {
            let c = cards[i];
            let ghost s0 = self.card_modifiers@;
            proof {
                assert(cards@.take(i + 1).drop_last() =~= cards@.take(i as int));
            }
            match find_entry(&self.card_modifiers, c) {
                Some(j) => {
                    self.card_modifiers.remove(j);
                    proof {
                        lemma_entries_remove(s0, j as int);
                    }
                },
                None => {},
            }
            assert(mods_map(self.card_modifiers@) =~= cleared(m0, cards@.take(i + 1)));
            i = i + 1;
        }
        proof {
            assert(cards@.take(cards@.len() as int) =~= cards@);
        }
    }

    /// Adds damage to each card, or takes it away, once per time a card is listed.
    fn change_damage(&mut self, cards: &Vec<CardRef>, dmg: DamageMarkers, add: bool)
        requires
            unique_keys(old(self).card_damage_markers@),
        ensures
            unique_keys(final(self).card_damage_markers@),
            damage_map(final(self).card_damage_markers@) == changed_damage(
                damage_map(old(self).card_damage_markers@),
                cards@,
                dmg.0,
                add,
            ),
            same_board_state(*old(self), *final(self)),
            final(self).zone_modifiers == old(self).zone_modifiers,
            final(self).card_modifiers == old(self).card_modifiers,
    {
        let ghost m0 = damage_map(self.card_damage_markers@);
        let mut i: usize = 0;
        while i < cards.len()
            invariant
                0 <= i <= cards@.len(),
                unique_keys(self.card_damage_markers@),
                damage_map(self.card_damage_markers@) == changed_damage(
                    m0,
                    cards@.take(i as int),
                    dmg.0,
                    add,
                ),
                same_board_state(*old(self), *self),
                self.zone_modifiers == old(self).zone_modifiers,
                self.card_modifiers == old(self).card_modifiers,
            decreases cards@.len() - i,
        {
            let c = cards[i];
            let ghost s0 = self.card_damage_markers@;
            proof {
                assert(cards@.take(i + 1).drop_last() =~= cards@.take(i as int));
            }
            match find_entry(&self.card_damage_markers, c) {
                Some(j) => {
                    let (k, d) = self.card_damage_markers.remove(j);
                    let d2 = if add {
                        d.add_markers(dmg)
                    } else {
                        d.sub_markers(dmg)
                    };
                    self.card_damage_markers.insert(j, (k, d2));
                    proof {
                        assert(self.card_damage_markers@ =~= s0.update(j as int, (c, d2)));
                        lemma_entries_update(s0, j as int, d2);
                    }
                },
                None => {
                    let d2 = if add {
                        DamageMarkers(0).add_markers(dmg)
                    } else {
                        DamageMarkers(0).sub_markers(dmg)
                    };
                    self.card_damage_markers.push((c, d2));
                    proof {
                        lemma_entries_push(s0, c, d2);
                    }
                },
            }
            assert(damage_map(self.card_damage_markers@) =~= changed_damage(
                m0,
                cards@.take(i + 1),
                dmg.0,
                add,
            ));
            i = i + 1;
        }
        proof {
            assert(cards@.take(cards@.len() as int) =~= cards@);
        }
    }

    /// Adds damage to each card, once per time it is listed, at most the largest number.
    pub fn add_damage_markers(&mut self, cards: &Vec<CardRef>, dmg: DamageMarkers)
        requires
            unique_keys(old(self).card_damage_markers@),
        ensures
            unique_keys(final(self).card_damage_markers@),
            damage_map(final(self).card_damage_markers@) == changed_damage(
                damage_map(old(self).card_damage_markers@),
                cards@,
                dmg.0,
                true,
            ),
            same_board_state(*old(self), *final(self)),
            final(self).zone_modifiers == old(self).zone_modifiers,
            final(self).card_modifiers == old(self).card_modifiers,
    {
        self.change_damage(cards, dmg, true)
    }

    /// Takes damage from each card, once per time it is listed, at least to 0.
    pub fn remove_damage_markers(&mut self, cards: &Vec<CardRef>, dmg: DamageMarkers)
        requires
            unique_keys(old(self).card_damage_markers@),
        ensures
            unique_keys(final(self).card_damage_markers@),
            damage_map(final(self).card_damage_markers@) == changed_damage(
                damage_map(old(self).card_damage_markers@),
                cards@,
                dmg.0,
                false,
            ),
            same_board_state(*old(self), *final(self)),
            final(self).zone_modifiers == old(self).zone_modifiers,
            final(self).card_modifiers == old(self).card_modifiers,
    {
        self.change_damage(cards, dmg, false)
    }

    /// Takes all the damage of the cards away.
    pub fn clear_damage_markers(&mut self, cards: &Vec<CardRef>)
        requires
            unique_keys(old(self).card_damage_markers@),
        ensures
            unique_keys(final(self).card_damage_markers@),
            damage_map(final(self).card_damage_markers@) == cleared(
                damage_map(old(self).card_damage_markers@),
                cards@,
            ),
            same_board_state(*old(self), *final(self)),
            final(self).zone_modifiers == old(self).zone_modifiers,
            final(self).card_modifiers == old(self).card_modifiers,
    {
        let ghost m0 = damage_map(self.card_damage_markers@);
        let mut i: usize = 0;
        while i < cards.len()
            invariant
                0 <= i <= cards@.len(),
                unique_keys(self.card_damage_markers@),
                damage_map(self.card_damage_markers@) == cleared(m0, cards@.take(i as int)),
                same_board_state(*old(self), *self),
                self.zone_modifiers == old(self).zone_modifiers,
                self.card_modifiers == old(self).card_modifiers,
            decreases cards@.len() - i,
        {
            let c = cards[i];
            let ghost s0 = self.card_damage_markers@;
            proof {
                assert(cards@.take(i + 1).drop_last() =~= cards@.take(i as int));
            }
            match find_entry(&self.card_damage_markers, c) {
                Some(j) => {
                    self.card_damage_markers.remove(j);
                    proof {
                        lemma_entries_remove(s0, j as int);
                    }
                },
                None => {},
            }
            assert(damage_map(self.card_damage_markers@) =~= cleared(m0, cards@.take(i + 1)));
            i = i + 1;
        }
        proof {
            assert(cards@.take(cards@.len() as int) =~= cards@);
        }
    }

    /// Moves the modifiers of a card to the card that takes its place, after its own.
    pub fn promote_modifiers(&mut self, attachment: CardRef, parent: CardRef)
        requires
            unique_keys(old(self).card_modifiers@),
        ensures
            unique_keys(final(self).card_modifiers@),
            ({
                let m = mods_map(old(self).card_modifiers@);
                mods_map(final(self).card_modifiers@) == if m.contains_key(parent) {
                    let r = m.remove(parent);
                    r.insert(attachment, or_empty(r, attachment) + m[parent])
                } else {
                    m
                }
            }),
            same_board_state(*old(self), *final(self)),
            final(self).zone_modifiers == old(self).zone_modifiers,
            final(self).card_damage_markers == old(self).card_damage_markers,
    {
        let ghost m = mods_map(self.card_modifiers@);
        let ghost s0 = self.card_modifiers@;
        if let Some(i) = find_entry(&self.card_modifiers, parent) {
            let (_, modifiers) = self.card_modifiers.remove(i);
            let ghost s1 = self.card_modifiers@;
            proof {
                lemma_entries_remove(s0, i as int);
                assert(mods_map(s1) =~= m.remove(parent));
            }
            match find_entry(&self.card_modifiers, attachment) {
                Some(j) => {
                    let (k, mut v) = self.card_modifiers.remove(j);
                    append_modifiers(&mut v, &modifiers);
                    self.card_modifiers.insert(j, (k, v));
                    proof {
                        assert(self.card_modifiers@ =~= s1.update(j as int, (attachment, v)));
                        lemma_entries_update(s1, j as int, v);
                    }
                },
                None => {
                    let ghost mv = modifier_views(modifiers@);
                    self.card_modifiers.push((attachment, modifiers));
                    proof {
                        lemma_entries_push(s1, attachment, modifiers);
                        assert(Seq::<ModifierV>::empty() + mv =~= mv);
                    }
                },
            }
            let ghost r = m.remove(parent);
            assert(mods_map(self.card_modifiers@) =~= r.insert(
                attachment,
                or_empty(r, attachment) + m[parent],
            ));
        }
    }

    /// Moves the damage of a card to the card that takes its place, adding to its own.
    pub fn promote_damage_markers(&mut self, attachment: CardRef, parent: CardRef)
        requires
            unique_keys(old(self).card_damage_markers@),
        ensures
            unique_keys(final(self).card_damage_markers@),
            ({
                let m = damage_map(old(self).card_damage_markers@);
                damage_map(final(self).card_damage_markers@) == if m.contains_key(parent) {
                    let r = m.remove(parent);
                    r.insert(
                        attachment,
                        saturating_add(
                            if r.contains_key(attachment) {
                                r[attachment]
                            } else {
                                0
                            },
                            m[parent],
                        ),
                    )
                } else {
                    m
                }
            }),
            same_board_state(*old(self), *final(self)),
            final(self).zone_modifiers == old(self).zone_modifiers,
            final(self).card_modifiers == old(self).card_modifiers,
    {
        let ghost m = damage_map(self.card_damage_markers@);
        let ghost s0 = self.card_damage_markers@;
        if let Some(i) = find_entry(&self.card_damage_markers, parent) {
            let (_, dmg) = self.card_damage_markers.remove(i);
            let ghost s1 = self.card_damage_markers@;
            proof {
                lemma_entries_remove(s0, i as int);
                assert(damage_map(s1) =~= m.remove(parent));
            }
            match find_entry(&self.card_damage_markers, attachment) {
                Some(j) => {
                    let (k, d) = self.card_damage_markers.remove(j);
                    let d2 = d.add_markers(dmg);
                    self.card_damage_markers.insert(j, (k, d2));
                    proof {
                        assert(self.card_damage_markers@ =~= s1.update(j as int, (attachment, d2)));
                        lemma_entries_update(s1, j as int, d2);
                    }
                },
                None => {
                    let d2 = DamageMarkers(0).add_markers(dmg);
                    self.card_damage_markers.push((attachment, d2));
                    proof {
                        lemma_entries_push(s1, attachment, d2);
                    }
                },
            }
            let ghost r = m.remove(parent);
            assert(damage_map(self.card_damage_markers@) =~= r.insert(
                attachment,
                saturating_add(
                    if r.contains_key(attachment) {
                        r[attachment]
                    } else {
                        0
                    },
                    m[parent],
                ),
            ));
        }
    }
}


// ------------------------------------------------------------------
// removing modifiers by number, and the turn of modifiers
// ------------------------------------------------------------------

/// What is left of a list of modifiers of a card when each token (card, number) takes away
/// one modifier of that number, first come first served; and the tokens left.
pub open spec fn retained(
    list: Seq<ModifierV>,
    c: CardRef,
    t: Multiset<(CardRef, ModifierRef)>,
) -> (Seq<ModifierV>, Multiset<(CardRef, ModifierRef)>)
    decreases list.len(),
{
    if list.len() == 0 {
        (list, t)
    } else {
        let r = retained(list.drop_last(), c, t);
        let m = list.last();
        if r.1.count((c, m.id)) > 0 {
            (r.0, r.1.remove((c, m.id)))
        } else {
            (r.0.push(m), r.1)
        }
    }
}

/// The modifiers of the cards after the tokens took theirs away, card after card; a card
/// without modifiers gets an empty entry.
pub open spec fn removed_mods(
    m: Map<CardRef, Seq<ModifierV>>,
    cards: Seq<CardRef>,
    t: Multiset<(CardRef, ModifierRef)>,
) -> (Map<CardRef, Seq<ModifierV>>, Multiset<(CardRef, ModifierRef)>)
    decreases cards.len(),
{
    if cards.len() == 0 {
        (m, t)
    } else {
        let p = removed_mods(m, cards.drop_last(), t);
        let c = cards.last();
        let k = retained(or_empty(p.0, c), c, p.1);
        (p.0.insert(c, k.0), k.1)
    }
}

/// Every pair of a card and a number, card by card.
pub open spec fn card_tokens(cards: Seq<CardRef>, ids: Seq<ModifierRef>) -> Seq<(CardRef, ModifierRef)>
    decreases cards.len(),
{
    if cards.len() == 0 {
        Seq::empty()
    } else {
        card_tokens(cards.drop_last(), ids) + ids.map_values(|r: ModifierRef| (cards.last(), r))
    }
}

use vstd::multiset::Multiset;
use crate::modifiers::ModifierRef;

fn find_token(t: &Vec<(CardRef, ModifierRef)>, c: CardRef, id: ModifierRef) -> (res: Option<usize>)
    ensures
        match res {
            Some(i) => i < t@.len() && t@[i as int] == (c, id),
            None => t@.to_multiset().count((c, id)) == 0,
        },
{
    let mut i: usize = 0;
    while i < t.len()
        invariant
            0 <= i <= t@.len(),
            forall|j: int| 0 <= j < i ==> t@[j] != (c, id),
        decreases t@.len() - i,
    {
        if t[i].0 == c && t[i].1 == id {
            return Some(i);
        }
        i = i + 1;
    }
    proof {
        broadcast use vstd::seq_lib::group_to_multiset_ensures;

        assert(!t@.contains((c, id)));
    }
    None
}

fn retain_modifiers(
    list: &Vec<Modifier>,
    c: CardRef,
    tokens: &mut Vec<(CardRef, ModifierRef)>,
) -> (res: Vec<Modifier>)
    ensures
        (modifier_views(res@), final(tokens)@.to_multiset()) == retained(
            modifier_views(list@),
            c,
            old(tokens)@.to_multiset(),
        ),
{
    broadcast use vstd::seq_lib::group_to_multiset_ensures;

    let ghost t0 = tokens@.to_multiset();
    let mut kept: Vec<Modifier> = Vec::new();
    let mut i: usize = 0;
    while i < list.len()
        invariant
            0 <= i <= list@.len(),
            (modifier_views(kept@), tokens@.to_multiset()) == retained(
                modifier_views(list@.take(i as int)),
                c,
                t0,
            ),
        decreases list@.len() - i,
    {
        let ghost lv = modifier_views(list@.take(i + 1));
        let ghost kept0 = modifier_views(kept@);
        let ghost tok0 = tokens@;
        assert(lv.drop_last() =~= modifier_views(list@.take(i as int)));
        assert(lv.last() == list@[i as int]@);
        let id = list[i].id;
        assert(lv.last().id == id);
        match find_token(tokens, c, id) {
            Some(j) => {
                proof {
                    assert(tok0.contains((c, id))) by {
                        assert(tok0[j as int] == (c, id));
                    }
                    vstd::seq_lib::to_multiset_contains(tok0, (c, id));
                    assert(tok0.to_multiset().count((c, id)) > 0);
                    vstd::seq_lib::to_multiset_remove(tok0, j as int);
                }
                tokens.remove(j);
                assert(tokens@ == tok0.remove(j as int));
                assert(tokens@.to_multiset() == tok0.to_multiset().remove((c, id)));
            },
            None => {
                let ghost before = kept@;
                kept.push(list[i].duplicate());
                assert(modifier_views(kept@) =~= modifier_views(before).push(list@[i as int]@));
            },
        }
        i = i + 1;
    }
    assert(list@.take(list@.len() as int) =~= list@);
    kept
}

impl GameState {
    /// Takes modifiers away from cards: each pair of a listed card and a listed number takes
    /// away one modifier of that number from that card.
    pub fn remove_card_modifiers(&mut self, cards: &Vec<CardRef>, modifiers: &Vec<ModifierRef>)
        requires
            unique_keys(old(self).card_modifiers@),
        ensures
            unique_keys(final(self).card_modifiers@),
            mods_map(final(self).card_modifiers@) == removed_mods(
                mods_map(old(self).card_modifiers@),
                cards@,
                card_tokens(cards@, modifiers@).to_multiset(),
            ).0,
            same_board_state(*old(self), *final(self)),
            final(self).zone_modifiers == old(self).zone_modifiers,
            final(self).card_damage_markers == old(self).card_damage_markers,
    {
        // the tokens
        let mut tokens: Vec<(CardRef, ModifierRef)> = Vec::new();
        let mut a: usize = 0;
        while a < cards.len()
            invariant
                0 <= a <= cards@.len(),
                tokens@ == card_tokens(cards@.take(a as int), modifiers@),
            decreases cards@.len() - a,
        {
            let ghost before = tokens@;
            let mut b: usize = 0;
            while b < modifiers.len()
                invariant
                    0 <= a < cards@.len(),
                    0 <= b <= modifiers@.len(),
                    tokens@ == before + modifiers@.take(b as int).map_values(
                        |r: ModifierRef| (cards@[a as int], r),
                    ),
                decreases modifiers@.len() - b,
            {
                tokens.push((cards[a], modifiers[b]));
                assert(tokens@ =~= before + modifiers@.take(b + 1).map_values(
                    |r: ModifierRef| (cards@[a as int], r),
                ));
                b = b + 1;
            }
            proof {
                assert(modifiers@.take(modifiers@.len() as int) =~= modifiers@);
                assert(cards@.take(a + 1).drop_last() =~= cards@.take(a as int));
                assert(cards@.take(a + 1).last() == cards@[a as int]);
            }
            a = a + 1;
        }
        proof {
            assert(cards@.take(cards@.len() as int) =~= cards@);
        }
        let ghost m0 = mods_map(self.card_modifiers@);
        let ghost t0 = tokens@.to_multiset();
        let mut i: usize = 0;
        while i < cards.len()
            invariant
                0 <= i <= cards@.len(),
                unique_keys(self.card_modifiers@),
                (mods_map(self.card_modifiers@), tokens@.to_multiset()) == removed_mods(
                    m0,
                    cards@.take(i as int),
                    t0,
                ),
                same_board_state(*old(self), *self),
                self.zone_modifiers == old(self).zone_modifiers,
                self.card_damage_markers == old(self).card_damage_markers,
            decreases cards@.len() - i,
        {
            let c = cards[i];
            let ghost s0 = self.card_modifiers@;
            let ghost p = removed_mods(m0, cards@.take(i as int), t0);
            proof {
                assert(cards@.take(i + 1).drop_last() =~= cards@.take(i as int));
            }
            match find_entry(&self.card_modifiers, c) {
                Some(j) => {
                    let (k, v) = self.card_modifiers.remove(j);
                    let kept = retain_modifiers(&v, c, &mut tokens);
                    self.card_modifiers.insert(j, (k, kept));
                    proof {
                        assert(self.card_modifiers@ =~= s0.update(j as int, (c, kept)));
                        lemma_entries_update(s0, j as int, kept);
                    }
                },
                None => {
                    let empty: Vec<Modifier> = Vec::new();
                    let kept = retain_modifiers(&empty, c, &mut tokens);
                    proof {
                        assert(modifier_views(empty@) =~= Seq::<ModifierV>::empty());
                    }
                    self.card_modifiers.push((c, kept));
                    proof {
                        lemma_entries_push(s0, c, kept);
                    }
                },
            }
            assert(mods_map(self.card_modifiers@) =~= removed_mods(m0, cards@.take(i + 1), t0).0);
            i = i + 1;
        }
        proof {
            assert(cards@.take(cards@.len() as int) =~= cards@);
        }
    }
}


/// The modifiers after the start of a player's turn.
pub open spec fn started_mods(list: Seq<ModifierV>, p: Player) -> Seq<ModifierV> {
    list.map_values(
        |m: ModifierV|
            ModifierV { id: m.id, kind: m.kind, life_time: started_life_time(m.life_time, p) },
    )
}

pub open spec fn started_zone_mods(list: Seq<(Zone, ModifierV)>, p: Player) -> Seq<(Zone, ModifierV)> {
    list.map_values(
        |e: (Zone, ModifierV)|
            (
                e.0,
                ModifierV {
                    id: e.1.id,
                    kind: e.1.kind,
                    life_time: started_life_time(e.1.life_time, p),
                },
            ),
    )
}

/// The zone modifiers after the tokens took theirs away: each token takes one modifier of
/// that number in the zone.
pub open spec fn zone_retained(
    list: Seq<(Zone, ModifierV)>,
    zone: Zone,
    t: Multiset<ModifierRef>,
) -> (Seq<(Zone, ModifierV)>, Multiset<ModifierRef>)
    decreases list.len(),
{
    if list.len() == 0 {
        (list, t)
    } else {
        let r = zone_retained(list.drop_last(), zone, t);
        let e = list.last();
        if e.0 == zone && r.1.count(e.1.id) > 0 {
            (r.0, r.1.remove(e.1.id))
        } else {
            (r.0.push(e), r.1)
        }
    }
}

fn started_modifiers(v: &Vec<Modifier>, p: Player) -> (res: Vec<Modifier>)
    ensures
        modifier_views(res@) == started_mods(modifier_views(v@), p),
{
    let mut out: Vec<Modifier> = Vec::new();
    let mut k: usize = 0;
    while k < v.len()
        invariant
            0 <= k <= v@.len(),
            modifier_views(out@) == started_mods(modifier_views(v@.take(k as int)), p),
        decreases v@.len() - k,
    {
        let mut m = v[k].duplicate();
        m.start_turn(p);
        let ghost before = out@;
        out.push(m);
        assert(modifier_views(out@) =~= modifier_views(before).push(m@));
        assert(modifier_views(v@.take(k + 1)) =~= modifier_views(v@.take(k as int)).push(
            v@[k as int]@,
        ));
        assert(modifier_views(out@) =~= started_mods(modifier_views(v@.take(k + 1)), p));
        k = k + 1;
    }
    assert(v@.take(v@.len() as int) =~= v@);
    out
}

fn started_zone_modifiers(v: &Vec<(Zone, Modifier)>, p: Player) -> (res: Vec<(Zone, Modifier)>)
    ensures
        zone_modifier_views(res@) == started_zone_mods(zone_modifier_views(v@), p),
{
    let mut out: Vec<(Zone, Modifier)> = Vec::new();
    let mut k: usize = 0;
    while k < v.len()
        invariant
            0 <= k <= v@.len(),
            zone_modifier_views(out@) == started_zone_mods(zone_modifier_views(v@.take(k as int)), p),
        decreases v@.len() - k,
    {
        let mut m = v[k].1.duplicate();
        m.start_turn(p);
        let ghost before = out@;
        out.push((v[k].0, m));
        assert(zone_modifier_views(out@) =~= zone_modifier_views(before).push((v@[k as int].0, m@)));
        assert(zone_modifier_views(v@.take(k + 1)) =~= zone_modifier_views(v@.take(k as int)).push(
            (v@[k as int].0, v@[k as int].1@),
        ));
        assert(zone_modifier_views(out@) =~= started_zone_mods(
            zone_modifier_views(v@.take(k + 1)),
            p,
        ));
        k = k + 1;
    }
    assert(v@.take(v@.len() as int) =~= v@);
    out
}

fn clone_zone_modifiers(zone: Zone, src: &Vec<Modifier>, dst: &mut Vec<(Zone, Modifier)>)
    ensures
        zone_modifier_views(final(dst)@) == zone_modifier_views(old(dst)@) + modifier_views(
            src@,
        ).map_values(|m: ModifierV| (zone, m)),
{
    let ghost d0 = zone_modifier_views(dst@);
    let mut i: usize = 0;
    while i < src.len()
        invariant
            0 <= i <= src@.len(),
            zone_modifier_views(dst@) == d0 + modifier_views(src@.take(i as int)).map_values(
                |m: ModifierV| (zone, m),
            ),
        decreases src@.len() - i,
    {
        let m = src[i].duplicate();
        let ghost before = dst@;
        dst.push((zone, m));
        assert(zone_modifier_views(dst@) =~= zone_modifier_views(before).push((zone, m@)));
        assert(modifier_views(src@.take(i + 1)) =~= modifier_views(src@.take(i as int)).push(
            src@[i as int]@,
        ));
        assert(zone_modifier_views(dst@) =~= d0 + modifier_views(src@.take(i + 1)).map_values(
            |m: ModifierV| (zone, m),
        ));
        i = i + 1;
    }
    assert(src@.take(src@.len() as int) =~= src@);
}

impl GameState {
    /// The state of the card modifiers after the start of a player's turn.
    pub open spec fn card_mods_started(&self, p: Player) -> Map<CardRef, Seq<ModifierV>> {
        let m = mods_map(self.card_modifiers@);
        Map::new(
            |c: CardRef| m.contains_key(c),
            |c: CardRef|
                if self.owner(c) == p {
                    started_mods(m[c], p)
                } else {
                    m[c]
                },
        )
    }

    /// At the start of a player's turn, the modifiers of that player's cards and zones for
    /// that player's next turn start to apply. Every card with modifiers must be registered.
    pub fn start_turn_modifiers(&mut self, player: Player)
        requires
            old(self).wf(),
            forall|c: CardRef| #[trigger]
                has_entry(old(self).card_modifiers@, c) ==> has_entry(old(self).card_map@, c),
        ensures
            final(self).wf(),
            mods_map(final(self).card_modifiers@) == old(self).card_mods_started(player),
            zone_mods_map(final(self).zone_modifiers@) == if zone_mods_map(
                old(self).zone_modifiers@,
            ).contains_key(player) {
                zone_mods_map(old(self).zone_modifiers@).insert(
                    player,
                    started_zone_mods(zone_mods_map(old(self).zone_modifiers@)[player], player),
                )
            } else {
                zone_mods_map(old(self).zone_modifiers@)
            },
            same_board_state(*old(self), *final(self)),
            final(self).card_damage_markers == old(self).card_damage_markers,
    {
        let ghost s0 = self.card_modifiers@;
        let ghost st0 = *self;
        let mut i: usize = 0;
        while i < self.card_modifiers.len()
            invariant
                0 <= i <= self.card_modifiers@.len(),
                self.card_modifiers@.len() == s0.len(),
                forall|j: int| 0 <= j < s0.len() ==> #[trigger] self.card_modifiers@[j].0 == s0[j].0,
                forall|j: int| i <= j < s0.len() ==> #[trigger] self.card_modifiers@[j] == s0[j],
                forall|j: int|
                    0 <= j < i ==> #[trigger] modifier_views(self.card_modifiers@[j].1@) == if st0.owner(
                        s0[j].0,
                    ) == player {
                        started_mods(modifier_views(s0[j].1@), player)
                    } else {
                        modifier_views(s0[j].1@)
                    },
                unique_keys(s0),
                s0 == st0.card_modifiers@,
                st0.wf(),
                forall|c: CardRef| #[trigger]
                    has_entry(s0, c) ==> has_entry(st0.card_map@, c),
                same_board_state(st0, *self),
                self.card_damage_markers == st0.card_damage_markers,
                self.zone_modifiers == st0.zone_modifiers,
            decreases s0.len() - i,
        {
            let c = self.card_modifiers[i].0;
            proof {
                lemma_unique_index(s0, i as int);
            }
            let owner = self.player_for_card(c);
            if owner == player {
                let (k, v) = self.card_modifiers.remove(i);
                let v2 = started_modifiers(&v, player);
                self.card_modifiers.insert(i, (k, v2));
            }
            i = i + 1;
        }
        proof {
            let s1 = self.card_modifiers@;
            assert(entry_keys(s1) =~= entry_keys(s0));
            assert forall|c: CardRef| #[trigger] has_entry(s1, c) == has_entry(s0, c) by {}
            assert forall|c: CardRef| has_entry(s1, c) implies modifier_views(entry_value(s1, c)@)
                == st0.card_mods_started(player)[c] by {
                lemma_has_entry_index(s1, c);
                let j = choose|j: int| 0 <= j < s1.len() && s1[j].0 == c;
                lemma_unique_index(s1, j);
                lemma_unique_index(s0, j);
            }
            assert(mods_map(s1) =~= st0.card_mods_started(player));
        }
        // the zone modifiers of the player
        let ghost z0 = self.zone_modifiers@;
        match pfind_entry(&self.zone_modifiers, player) {
            Some(j) => {
                let (k, v) = self.zone_modifiers.remove(j);
                let v2 = started_zone_modifiers(&v, player);
                self.zone_modifiers.insert(j, (k, v2));
                proof {
                    assert(self.zone_modifiers@ =~= z0.update(j as int, (player, v2)));
                    plemma_entries_update(z0, j as int, v2);
                    assert(zone_mods_map(self.zone_modifiers@) =~= zone_mods_map(z0).insert(
                        player,
                        started_zone_mods(zone_mods_map(z0)[player], player),
                    ));
                }
            },
            None => {},
        }
    }

    /// The end of a turn changes no modifier. Every card with modifiers must be registered.
    pub fn end_turn_modifiers(&mut self, player: Player)
        requires
            forall|c: CardRef| #[trigger]
                has_entry(old(self).card_modifiers@, c) ==> has_entry(old(self).card_map@, c),
        ensures
            final(self).card_modifiers == old(self).card_modifiers,
            final(self).zone_modifiers == old(self).zone_modifiers,
            same_board_state(*old(self), *final(self)),
            final(self).card_damage_markers == old(self).card_damage_markers,
    {
        let mut i: usize = 0;
        while i < self.card_modifiers.len()
            invariant
                0 <= i <= self.card_modifiers@.len(),
                forall|c: CardRef| #[trigger]
                    has_entry(self.card_modifiers@, c) ==> has_entry(self.card_map@, c),
            decreases self.card_modifiers@.len() - i,
        {
            let c = self.card_modifiers[i].0;
            proof {
                assert(entry_keys(self.card_modifiers@)[i as int] == c);
                assert(has_entry(self.card_modifiers@, c));
            }
            let _owner = self.player_for_card(c);
            i = i + 1;
        }
    }

    /// Adds copies of modifiers to a zone of a player, after those it has.
    pub fn add_zone_modifiers(&mut self, player: Player, zone: Zone, modifiers: &Vec<Modifier>)
        requires
            punique_keys(old(self).zone_modifiers@),
        ensures
            punique_keys(final(self).zone_modifiers@),
            zone_mods_map(final(self).zone_modifiers@) == zone_mods_map(
                old(self).zone_modifiers@,
            ).insert(
                player,
                or_empty(zone_mods_map(old(self).zone_modifiers@), player) + modifier_views(
                    modifiers@,
                ).map_values(|m: ModifierV| (zone, m)),
            ),
            same_board_state(*old(self), *final(self)),
            final(self).card_modifiers == old(self).card_modifiers,
            final(self).card_damage_markers == old(self).card_damage_markers,
    {
        let ghost z0 = self.zone_modifiers@;
        match pfind_entry(&self.zone_modifiers, player) {
            Some(j) => {
                let (k, mut v) = self.zone_modifiers.remove(j);
                clone_zone_modifiers(zone, modifiers, &mut v);
                self.zone_modifiers.insert(j, (k, v));
                proof {
                    assert(self.zone_modifiers@ =~= z0.update(j as int, (player, v)));
                    plemma_entries_update(z0, j as int, v);
                }
            },
            None => {
                let mut v: Vec<(Zone, Modifier)> = Vec::new();
                assert(zone_modifier_views(v@) =~= Seq::empty());
                clone_zone_modifiers(zone, modifiers, &mut v);
                self.zone_modifiers.push((player, v));
                proof {
                    plemma_entries_push(z0, player, v);
                }
            },
        }
        assert(zone_mods_map(self.zone_modifiers@) =~= zone_mods_map(z0).insert(
            player,
            or_empty(zone_mods_map(z0), player) + modifier_views(modifiers@).map_values(
                |m: ModifierV| (zone, m),
            ),
        ));
    }
}


fn zone_retain(
    list: &Vec<(Zone, Modifier)>,
    zone: Zone,
    tokens: &mut Vec<ModifierRef>,
) -> (res: Vec<(Zone, Modifier)>)
    ensures
        (zone_modifier_views(res@), final(tokens)@.to_multiset()) == zone_retained(
            zone_modifier_views(list@),
            zone,
            old(tokens)@.to_multiset(),
        ),
{
    let ghost t0 = tokens@.to_multiset();
    let mut kept: Vec<(Zone, Modifier)> = Vec::new();
    let mut i: usize = 0;
    while i < list.len()
        invariant
            0 <= i <= list@.len(),
            (zone_modifier_views(kept@), tokens@.to_multiset()) == zone_retained(
                zone_modifier_views(list@.take(i as int)),
                zone,
                t0,
            ),
        decreases list@.len() - i,
    {
        let ghost lv = zone_modifier_views(list@.take(i + 1));
        let ghost tok0 = tokens@;
        assert(lv.drop_last() =~= zone_modifier_views(list@.take(i as int)));
        assert(lv.last() == (list@[i as int].0, list@[i as int].1@));
        let z = list[i].0;
        let id = list[i].1.id;
        let mut found: Option<usize> = None;
        if z == zone {
            let mut j: usize = 0;
            while j < tokens.len()
                invariant_except_break
                    found is None,
                    forall|k: int| 0 <= k < j ==> tokens@[k] != id,
                invariant
                    0 <= j <= tokens@.len(),
                    tokens@ == tok0,
                ensures
                    match found {
                        Some(x) => x < tok0.len() && tok0[x as int] == id,
                        None => forall|k: int| 0 <= k < tok0.len() ==> tok0[k] != id,
                    },
                decreases tokens@.len() - j,
            {
                if tokens[j] == id {
                    found = Some(j);
                    break;
                }
                j = j + 1;
            }
            proof {
                if found is None {
                    assert(!tok0.contains(id));
                    vstd::seq_lib::to_multiset_contains(tok0, id);
                }
            }
        }
        match found {
            Some(j) => {
                proof {
                    vstd::seq_lib::to_multiset_contains(tok0, id);
                    vstd::seq_lib::to_multiset_remove(tok0, j as int);
                }
                tokens.remove(j);
            },
            None => {
                let ghost before = kept@;
                let m = list[i].1.duplicate();
                kept.push((z, m));
                assert(zone_modifier_views(kept@) =~= zone_modifier_views(before).push(
                    (z, list@[i as int].1@),
                ));
            },
        }
        i = i + 1;
    }
    assert(list@.take(list@.len() as int) =~= list@);
    kept
}

impl GameState {
    /// Takes modifiers away from a zone of a player: each listed number takes away one
    /// modifier of that number in the zone. The player gets an entry if it had none.
    pub fn remove_zone_modifiers(&mut self, player: Player, zone: Zone, modifiers: &Vec<ModifierRef>)
        requires
            punique_keys(old(self).zone_modifiers@),
        ensures
            punique_keys(final(self).zone_modifiers@),
            zone_mods_map(final(self).zone_modifiers@) == zone_mods_map(
                old(self).zone_modifiers@,
            ).insert(
                player,
                zone_retained(
                    or_empty(zone_mods_map(old(self).zone_modifiers@), player),
                    zone,
                    modifiers@.to_multiset(),
                ).0,
            ),
            same_board_state(*old(self), *final(self)),
            final(self).card_modifiers == old(self).card_modifiers,
            final(self).card_damage_markers == old(self).card_damage_markers,
    {
        let ghost z0 = self.zone_modifiers@;
        let mut tokens: Vec<ModifierRef> = Vec::new();
        let mut i: usize = 0;
        while i < modifiers.len()
            invariant
                0 <= i <= modifiers@.len(),
                tokens@ == modifiers@.take(i as int),
            decreases modifiers@.len() - i,
        {
            tokens.push(modifiers[i]);
            assert(tokens@ =~= modifiers@.take(i + 1));
            i = i + 1;
        }
        assert(tokens@ =~= modifiers@);
        match pfind_entry(&self.zone_modifiers, player) {
            Some(j) => {
                let (k, v) = self.zone_modifiers.remove(j);
                let kept = zone_retain(&v, zone, &mut tokens);
                self.zone_modifiers.insert(j, (k, kept));
                proof {
                    assert(self.zone_modifiers@ =~= z0.update(j as int, (player, kept)));
                    plemma_entries_update(z0, j as int, kept);
                }
            },
            None => {
                let empty: Vec<(Zone, Modifier)> = Vec::new();
                assert(zone_modifier_views(empty@) =~= Seq::empty());
                let kept = zone_retain(&empty, zone, &mut tokens);
                self.zone_modifiers.push((player, kept));
                proof {
                    plemma_entries_push(z0, player, kept);
                }
            },
        }
        assert(zone_mods_map(self.zone_modifiers@) =~= zone_mods_map(z0).insert(
            player,
            zone_retained(or_empty(zone_mods_map(z0), player), zone, modifiers@.to_multiset()).0,
        ));
    }
}

// ------------------------------------------------------------------
// moving cards on the boards of both players
// ------------------------------------------------------------------

/// The owner of a card in a card map.
pub open spec fn owner_in(cm: Seq<(CardRef, (Player, String))>, c: CardRef) -> Player {
    entry_value(cm, c).0
}

pub open spec fn registered_in(cm: Seq<(CardRef, (Player, String))>, c: CardRef) -> bool {
    has_entry(cm, c) && owner_in(cm, c) != Player::Both
}

/// The boards of both players after the cards are sent to a zone of their owners, one after
/// the other.
pub open spec fn sent_cards(
    cm: Seq<(CardRef, (Player, String))>,
    b: (BoardState, BoardState),
    cards: Seq<CardRef>,
    zone: Zone,
    location: ZoneAddLocation,
) -> (BoardState, BoardState)
    decreases cards.len(),
{
    if cards.len() == 0 {
        b
    } else {
        let p = sent_cards(cm, b, cards.drop_last(), zone, location);
        let c = cards.last();
        if owner_in(cm, c) == Player::One {
            (p.0.sent(c, zone, location), p.1)
        } else {
            (p.0, p.1.sent(c, zone, location))
        }
    }
}

pub open spec fn can_send_cards(
    cm: Seq<(CardRef, (Player, String))>,
    b: (BoardState, BoardState),
    cards: Seq<CardRef>,
    zone: Zone,
    location: ZoneAddLocation,
) -> bool
    decreases cards.len(),
{
    cards.len() == 0 || {
        let p = sent_cards(cm, b, cards.drop_last(), zone, location);
        let c = cards.last();
        &&& can_send_cards(cm, b, cards.drop_last(), zone, location)
        &&& registered_in(cm, c)
        &&& if owner_in(cm, c) == Player::One {
            p.0.can_send(c, zone)
        } else {
            p.1.can_send(c, zone)
        }
    }
}

/// The board of a player after attachments are attached to a card, one after the other.
pub open spec fn attached_all(b: BoardState, attachments: Seq<CardRef>, card: CardRef) -> BoardState
    decreases attachments.len(),
{
    if attachments.len() == 0 {
        b
    } else {
        attached_all(b, attachments.drop_last(), card).attached(attachments.last(), card)
    }
}

pub open spec fn can_attach_all(b: BoardState, attachments: Seq<CardRef>, card: CardRef) -> bool
    decreases attachments.len(),
{
    attachments.len() == 0 || (can_attach_all(b, attachments.drop_last(), card) && attached_all(
        b,
        attachments.drop_last(),
        card,
    ).can_attach(attachments.last(), card))
}

use crate::gameplay::ZoneAddLocation;

proof fn lemma_prefix_sent_cards(
    cm: Seq<(CardRef, (Player, String))>,
    b: (BoardState, BoardState),
    cards: Seq<CardRef>,
    zone: Zone,
    location: ZoneAddLocation,
    n: int,
)
    requires
        can_send_cards(cm, b, cards, zone, location),
        0 < n <= cards.len(),
    ensures
        can_send_cards(cm, b, cards.take(n), zone, location),
    decreases cards.len(),
{
    if n < cards.len() {
        lemma_prefix_sent_cards(cm, b, cards.drop_last(), zone, location, n);
        assert(cards.drop_last().take(n) =~= cards.take(n));
    } else {
        assert(cards.take(n) =~= cards);
    }
}

proof fn lemma_prefix_attach(b: BoardState, attachments: Seq<CardRef>, card: CardRef, n: int)
    requires
        can_attach_all(b, attachments, card),
        0 < n <= attachments.len(),
    ensures
        can_attach_all(b, attachments.take(n), card),
    decreases attachments.len(),
{
    if n < attachments.len() {
        lemma_prefix_attach(b, attachments.drop_last(), card, n);
        assert(attachments.drop_last().take(n) =~= attachments.take(n));
    } else {
        assert(attachments.take(n) =~= attachments);
    }
}

impl GameState {
    /// Sends each card to a zone of its owner, one after the other.
    pub fn send_cards_to_zone(&mut self, cards: &Vec<CardRef>, zone: Zone, location: ZoneAddLocation)
        requires
            can_send_cards(
                old(self).card_map@,
                (old(self).player_1@, old(self).player_2@),
                cards@,
                zone,
                location,
            ),
        ensures
            (final(self).player_1@, final(self).player_2@) == sent_cards(
                old(self).card_map@,
                (old(self).player_1@, old(self).player_2@),
                cards@,
                zone,
                location,
            ),
            same_but_boards(*old(self), *final(self)),
    {
        let ghost cm = self.card_map@;
        let ghost b0 = (self.player_1@, self.player_2@);
        let mut i: usize = 0;
        while i < cards.len()
            invariant
                0 <= i <= cards@.len(),
                cm == self.card_map@,
                can_send_cards(cm, b0, cards@, zone, location),
                (self.player_1@, self.player_2@) == sent_cards(
                    cm,
                    b0,
                    cards@.take(i as int),
                    zone,
                    location,
                ),
                same_but_boards(*old(self), *self),
            decreases cards@.len() - i,
        {
            let c = cards[i];
            proof {
                lemma_prefix_sent_cards(cm, b0, cards@, zone, location, i + 1);
                assert(cards@.take(i + 1).drop_last() =~= cards@.take(i as int));
                assert(cards@.take(i + 1).last() == c);
            }
            let owner = self.player_for_card(c);
            match owner {
                Player::One => self.player_1.send_to_zone(c, zone, location),
                _ => self.player_2.send_to_zone(c, zone, location),
            }
            i = i + 1;
        }
        proof {
            assert(cards@.take(cards@.len() as int) =~= cards@);
        }
    }

    /// Attaches each card to a card, on the board of that card's owner, one after the other.
    pub fn attach_cards_to_card(&mut self, attachments: &Vec<CardRef>, card: CardRef)
        requires
            old(self).is_registered(card),
            can_attach_all(spec_board(*old(self), old(self).owner(card))@, attachments@, card),
        ensures
            spec_board(*final(self), old(self).owner(card))@ == attached_all(
                spec_board(*old(self), old(self).owner(card))@,
                attachments@,
                card,
            ),
            spec_board(*final(self), spec_opponent(old(self).owner(card))) == spec_board(
                *old(self),
                spec_opponent(old(self).owner(card)),
            ),
            same_but_boards(*old(self), *final(self)),
    {
        let ghost p = self.owner(card);
        let ghost b0 = spec_board(*self, p)@;
        let mut i: usize = 0;
        while i < attachments.len()
            invariant
                0 <= i <= attachments@.len(),
                self.is_registered(card),
                p == self.owner(card),
                p != Player::Both,
                can_attach_all(b0, attachments@, card),
                spec_board(*self, p)@ == attached_all(b0, attachments@.take(i as int), card),
                spec_board(*self, spec_opponent(p)) == spec_board(*old(self), spec_opponent(p)),
                same_but_boards(*old(self), *self),
            decreases attachments@.len() - i,
        {
            let a = attachments[i];
            proof {
                lemma_prefix_attach(b0, attachments@, card, i + 1);
                assert(attachments@.take(i + 1).drop_last() =~= attachments@.take(i as int));
                assert(attachments@.take(i + 1).last() == a);
            }
            let owner = self.player_for_card(card);
            match owner {
                Player::One => self.player_1.attach_to_card(a, card),
                _ => self.player_2.attach_to_card(a, card),
            }
            i = i + 1;
        }
        proof {
            assert(attachments@.take(attachments@.len() as int) =~= attachments@);
        }
    }
}

} // verus!
