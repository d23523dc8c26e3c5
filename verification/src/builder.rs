use std::collections::VecDeque;
use vstd::prelude::*;

use crate::board::{insert_pair, opt_seq, GameBoard};
use crate::gameplay::{is_storage_zone, CardRef, Player, Step, Zone};
use crate::modifiers::{DamageMarkers, LifeTime, Modifier, ModifierKind, ModifierV};
use crate::setup::{dealt, lemma_registered_concat, register_cards, registered};
use crate::state::{entries_map, modifier_views, or_empty, punique_keys, same_board_state, set_entry, spec_board, unique_keys, zone_mods_map, GameState};

verus! {

/// A board given by the card numbers of each of its zones.
#[derive(Debug, Default, Clone)]
pub struct TestGameBoard {
    pub oshi: Option<String>,
    pub main_deck: Vec<String>,
    pub center_stage: Option<String>,
    pub collab: Option<String>,
    pub back_stage: Vec<String>,
    pub life: Vec<String>,
    pub cheer_deck: Vec<String>,
    pub holo_power: Vec<String>,
    pub archive: Vec<String>,
    pub hand: Vec<String>,
}

pub open spec fn opt_numbers(o: Option<String>) -> Seq<String> {
    match o {
        Some(n) => seq![n],
        None => Seq::empty(),
    }
}

/// The lists of card numbers, zone after zone, in the order in which they are dealt.
pub open spec fn zone_lists(tb: TestGameBoard) -> Seq<Seq<String>> {
    seq![
        opt_numbers(tb.oshi),
        tb.main_deck@,
        opt_numbers(tb.center_stage),
        opt_numbers(tb.collab),
        tb.back_stage@,
        tb.life@,
        tb.cheer_deck@,
        tb.holo_power@,
        tb.archive@,
        tb.hand@,
    ]
}

/// The lists one after the other.
pub open spec fn concat_all(s: Seq<Seq<String>>) -> Seq<String>
    decreases s.len(),
{
    if s.len() == 0 {
        Seq::empty()
    } else {
        concat_all(s.drop_last()) + s.last()
    }
}

/// Every card number of the board, in the order in which they are dealt.
pub open spec fn test_numbers(tb: TestGameBoard) -> Seq<String> {
    concat_all(zone_lists(tb))
}

/// The cards dealt for the `k`th list of the board, from `next`.
pub open spec fn dealt_zone(tb: TestGameBoard, player: Player, k: int, next: int) -> Seq<CardRef> {
    dealt(
        player,
        1,
        zone_lists(tb)[k].len(),
        next + concat_all(zone_lists(tb).take(k)).len(),
    )
}

/// The board holds the cards dealt for each of its zones, one after the other from `next`,
/// and nothing else.
pub open spec fn built_board(b: GameBoard, tb: TestGameBoard, player: Player, next: int) -> bool {
    &&& opt_seq(b.oshi) == dealt_zone(tb, player, 0, next)
    &&& b.main_deck@ == dealt_zone(tb, player, 1, next)
    &&& opt_seq(b.center_stage) == dealt_zone(tb, player, 2, next)
    &&& opt_seq(b.collab) == dealt_zone(tb, player, 3, next)
    &&& b.back_stage@ == dealt_zone(tb, player, 4, next)
    &&& b.life@ == dealt_zone(tb, player, 5, next)
    &&& b.cheer_deck@ == dealt_zone(tb, player, 6, next)
    &&& b.holo_power@ == dealt_zone(tb, player, 7, next)
    &&& b.archive@ == dealt_zone(tb, player, 8, next)
    &&& b.hand@ == dealt_zone(tb, player, 9, next)
    &&& b.activate_support@.len() == 0
    &&& b.attachments@.len() == 0
}

fn opt_vec(o: &Option<String>) -> (res: Vec<String>)
    ensures
        res@ == opt_numbers(*o),
{
    let mut v: Vec<String> = Vec::new();
    match o {
        Some(n) => v.push(n.clone()),
        None => {},
    }
    assert(v@ =~= opt_numbers(*o));
    v
}

fn first_card(d: VecDeque<CardRef>) -> (res: Option<CardRef>)
    requires
        d@.len() <= 1,
    ensures
        opt_seq(res) == d@,
{
    if d.len() == 0 {
        assert(d@ =~= Seq::<CardRef>::empty());
        None
    } else {
        let c = d[0];
        assert(d@ =~= seq![c]);
        Some(c)
    }
}

fn register_zone(
    player: Player,
    numbers: &Vec<String>,
    next_card_ref: &mut u8,
    card_map: &mut Vec<(CardRef, (Player, String))>,
    Ghost(m0): Ghost<Map<CardRef, (Player, String)>>,
    Ghost(n0): Ghost<int>,
    Ghost(acc): Ghost<Seq<String>>,
) -> (res: VecDeque<CardRef>)
    requires
        entries_map(old(card_map)@) == registered(m0, player, 1, acc, n0),
        *old(next_card_ref) == n0 + acc.len(),
        *old(next_card_ref) + numbers@.len() <= 255,
        unique_keys(old(card_map)@),
    ensures
        res@ == dealt(player, 1, numbers@.len(), n0 + acc.len()),
        *final(next_card_ref) == n0 + (acc + numbers@).len(),
        unique_keys(final(card_map)@),
        entries_map(final(card_map)@) == registered(m0, player, 1, acc + numbers@, n0),
{
    let res = register_cards(player, 1, numbers, next_card_ref, card_map);
    proof {
        lemma_registered_concat(m0, player, 1, acc, numbers@, n0);
    }
    res
}

impl TestGameBoard {
    /// The board of a player with these cards: each card gets the next number of the player,
    /// zone after zone.
    pub fn to_game_board(&self, player: Player, next_card_ref: &mut u8, state: &mut GameState) -> (res: GameBoard)
        requires
            *old(next_card_ref) + test_numbers(*self).len() <= 255,
            unique_keys(old(state).card_map@),
        ensures
            built_board(res, *self, player, *old(next_card_ref) as int),
            *final(next_card_ref) == *old(next_card_ref) + test_numbers(*self).len(),
            unique_keys(final(state).card_map@),
            entries_map(final(state).card_map@) == registered(
                entries_map(old(state).card_map@),
                player,
                1,
                test_numbers(*self),
                *old(next_card_ref) as int,
            ),
            *final(state) == (GameState { card_map: final(state).card_map, ..*old(state) }),
    {
        let ghost m0 = entries_map(state.card_map@);
        let ghost n0 = *next_card_ref as int;
        let ghost lists = zone_lists(*self);
        proof {
            assert forall|k: int| 0 <= k <= 10 implies concat_all(lists.take(k)).len()
                <= test_numbers(*self).len() by {
                lemma_concat_prefix_len(lists, k);
            }
            assert(lists.take(10) =~= lists);
            assert(lists.take(0) =~= Seq::<Seq<String>>::empty());
            assert(entries_map(state.card_map@) == registered(m0, player, 1, Seq::empty(), n0));
        }
        let v0 = opt_vec(&self.oshi);
        proof { lemma_concat_step(lists, 0); }
        let oshi = register_zone(player, &v0, next_card_ref, &mut state.card_map, Ghost(m0), Ghost(n0), Ghost(concat_all(lists.take(0))));
        proof { lemma_concat_step(lists, 1); }
        let main_deck = register_zone(player, &self.main_deck, next_card_ref, &mut state.card_map, Ghost(m0), Ghost(n0), Ghost(concat_all(lists.take(1))));
        let v2 = opt_vec(&self.center_stage);
        proof { lemma_concat_step(lists, 2); }
        let center_stage = register_zone(player, &v2, next_card_ref, &mut state.card_map, Ghost(m0), Ghost(n0), Ghost(concat_all(lists.take(2))));
        let v3 = opt_vec(&self.collab);
        proof { lemma_concat_step(lists, 3); }
        let collab = register_zone(player, &v3, next_card_ref, &mut state.card_map, Ghost(m0), Ghost(n0), Ghost(concat_all(lists.take(3))));
        proof { lemma_concat_step(lists, 4); }
        let back_stage = register_zone(player, &self.back_stage, next_card_ref, &mut state.card_map, Ghost(m0), Ghost(n0), Ghost(concat_all(lists.take(4))));
        proof { lemma_concat_step(lists, 5); }
        let life = register_zone(player, &self.life, next_card_ref, &mut state.card_map, Ghost(m0), Ghost(n0), Ghost(concat_all(lists.take(5))));
        proof { lemma_concat_step(lists, 6); }
        let cheer_deck = register_zone(player, &self.cheer_deck, next_card_ref, &mut state.card_map, Ghost(m0), Ghost(n0), Ghost(concat_all(lists.take(6))));
        proof { lemma_concat_step(lists, 7); }
        let holo_power = register_zone(player, &self.holo_power, next_card_ref, &mut state.card_map, Ghost(m0), Ghost(n0), Ghost(concat_all(lists.take(7))));
        proof { lemma_concat_step(lists, 8); }
        let archive = register_zone(player, &self.archive, next_card_ref, &mut state.card_map, Ghost(m0), Ghost(n0), Ghost(concat_all(lists.take(8))));
        proof { lemma_concat_step(lists, 9); }
        let hand = register_zone(player, &self.hand, next_card_ref, &mut state.card_map, Ghost(m0), Ghost(n0), Ghost(concat_all(lists.take(9))));
        GameBoard {
            oshi: first_card(oshi),
            main_deck,
            center_stage: first_card(center_stage),
            collab: first_card(collab),
            back_stage,
            life,
            cheer_deck,
            holo_power,
            archive,
            hand,
            activate_support: VecDeque::new(),
            attachments: Vec::new(),
        }
    }
}

proof fn lemma_concat_step(s: Seq<Seq<String>>, k: int)
    requires
        0 <= k < s.len(),
    ensures
        concat_all(s.take(k + 1)) == concat_all(s.take(k)) + s[k],
{
    assert(s.take(k + 1).drop_last() =~= s.take(k));
}

proof fn lemma_concat_prefix_len(s: Seq<Seq<String>>, k: int)
    requires
        0 <= k <= s.len(),
    ensures
        concat_all(s.take(k)).len() <= concat_all(s).len(),
    decreases s.len() - k,
{
    if k < s.len() {
        lemma_concat_step(s, k);
        lemma_concat_prefix_len(s, k + 1);
    } else {
        assert(s.take(k) =~= s);
    }
}

/// The attachments with each of the cards attached to one card, one after the other.
pub open spec fn attach_all(s: Seq<(CardRef, CardRef)>, atts: Seq<CardRef>, card: CardRef) -> Seq<
    (CardRef, CardRef),
>
    decreases atts.len(),
{
    if atts.len() == 0 {
        s
    } else {
        insert_pair(attach_all(s, atts.drop_last(), card), atts.last(), card)
    }
}

/// Builds the state of a game piece by piece.
pub struct GameStateBuilder {
    pub next_modifier_ref: u16,
    pub next_p1_card_ref: u8,
    pub next_p2_card_ref: u8,
    pub state: GameState,
}

impl GameStateBuilder {
    /// A builder of a new game; the modifiers it adds are numbered from near the end, away
    /// from those that the game adds.
    pub fn new() -> (res: Self)
        ensures
            res.next_modifier_ref == u16::MAX - 100,
            res.next_p1_card_ref == 1,
            res.next_p2_card_ref == 1,
            res.state.game_outcome is None,
            res.state.card_map@.len() == 0,
            forall|z: Zone| #[trigger] res.state.player_1.zone_seq(z).len() == 0,
            forall|z: Zone| #[trigger] res.state.player_2.zone_seq(z).len() == 0,
            res.state.player_1.attachments@.len() == 0,
            res.state.player_2.attachments@.len() == 0,
            res.state.active_player == Player::One,
            res.state.active_step == Step::Setup,
            res.state.turn_number == 0,
            res.state.zone_modifiers@.len() == 0,
            res.state.card_modifiers@.len() == 0,
            res.state.card_damage_markers@.len() == 0,
    {
        GameStateBuilder {
            next_modifier_ref: u16::MAX - 100,
            next_p1_card_ref: 1,
            next_p2_card_ref: 1,
            state: GameState::new(),
        }
    }

    /// The state built, where each player has an entry for zone modifiers, empty if none was
    /// added.
    pub fn build(self) -> (res: GameState)
        requires
            punique_keys(self.state.zone_modifiers@),
        ensures
            punique_keys(res.zone_modifiers@),
            zone_mods_map(res.zone_modifiers@) == zone_mods_map(self.state.zone_modifiers@).insert(
                Player::One,
                or_empty(zone_mods_map(self.state.zone_modifiers@), Player::One),
            ).insert(Player::Two, or_empty(zone_mods_map(self.state.zone_modifiers@), Player::Two)),
            same_board_state(self.state, res),
            res.card_modifiers == self.state.card_modifiers,
            res.card_damage_markers == self.state.card_damage_markers,
    {
        let mut state = self.state;
        let none: Vec<Modifier> = Vec::new();
        assert(modifier_views(none@).map_values(|m: ModifierV| (Zone::All, m)) =~= Seq::<
            (Zone, ModifierV),
        >::empty());
        let ghost z0 = zone_mods_map(state.zone_modifiers@);
        state.add_zone_modifiers(Player::One, Zone::All, &none);
        let ghost z1 = zone_mods_map(state.zone_modifiers@);
        assert(or_empty(z0, Player::One) + Seq::<(Zone, ModifierV)>::empty() =~= or_empty(
            z0,
            Player::One,
        ));
        state.add_zone_modifiers(Player::Two, Zone::All, &none);
        assert(or_empty(z1, Player::Two) + Seq::<(Zone, ModifierV)>::empty() =~= or_empty(
            z1,
            Player::Two,
        ));
        assert(or_empty(z1, Player::Two) == or_empty(z0, Player::Two));
        state
    }

    /// Sets the board of player one, its cards numbered after those it has.
    pub fn with_player_1(self, player_1: TestGameBoard) -> (res: Self)
        requires
            self.next_p1_card_ref + test_numbers(player_1).len() <= 255,
            unique_keys(self.state.card_map@),
        ensures
            built_board(res.state.player_1, player_1, Player::One, self.next_p1_card_ref as int),
            res.next_p1_card_ref == self.next_p1_card_ref + test_numbers(player_1).len(),
            unique_keys(res.state.card_map@),
            entries_map(res.state.card_map@) == registered(
                entries_map(self.state.card_map@),
                Player::One,
                1,
                test_numbers(player_1),
                self.next_p1_card_ref as int,
            ),
            res.state == (GameState {
                card_map: res.state.card_map,
                player_1: res.state.player_1,
                ..self.state
            }),
            res.next_p2_card_ref == self.next_p2_card_ref,
            res.next_modifier_ref == self.next_modifier_ref,
    {
        let mut b = self;
        let board = player_1.to_game_board(Player::One, &mut b.next_p1_card_ref, &mut b.state);
        b.state.player_1 = board;
        b
    }

    /// Sets the board of player two, its cards numbered after those it has.
    pub fn with_player_2(self, player_2: TestGameBoard) -> (res: Self)
        requires
            self.next_p2_card_ref + test_numbers(player_2).len() <= 255,
            unique_keys(self.state.card_map@),
        ensures
            built_board(res.state.player_2, player_2, Player::Two, self.next_p2_card_ref as int),
            res.next_p2_card_ref == self.next_p2_card_ref + test_numbers(player_2).len(),
            unique_keys(res.state.card_map@),
            entries_map(res.state.card_map@) == registered(
                entries_map(self.state.card_map@),
                Player::Two,
                1,
                test_numbers(player_2),
                self.next_p2_card_ref as int,
            ),
            res.state == (GameState {
                card_map: res.state.card_map,
                player_2: res.state.player_2,
                ..self.state
            }),
            res.next_p1_card_ref == self.next_p1_card_ref,
            res.next_modifier_ref == self.next_modifier_ref,
    {
        let mut b = self;
        let board = player_2.to_game_board(Player::Two, &mut b.next_p2_card_ref, &mut b.state);
        b.state.player_2 = board;
        b
    }

    /// Attaches new cards of these numbers to the `card_idx`th card of a zone of a player.
    pub fn with_attachments(self, player: Player, zone: Zone, card_idx: usize, attachments: Vec<String>) -> (res: Self)
        requires
            player != Player::Both,
            is_storage_zone(zone),
            card_idx < spec_board(self.state, player).zone_cards(zone).len(),
            (if player == Player::One {
                self.next_p1_card_ref
            } else {
                self.next_p2_card_ref
            }) + attachments@.len() <= 255,
            unique_keys(self.state.card_map@),
        ensures
            ({
                let next = if player == Player::One {
                    self.next_p1_card_ref
                } else {
                    self.next_p2_card_ref
                };
                let card = spec_board(self.state, player).zone_cards(zone)[card_idx as int];
                let atts = dealt(player, 3, attachments@.len(), next as int);
                &&& unique_keys(res.state.card_map@)
                &&& entries_map(res.state.card_map@) == registered(
                    entries_map(self.state.card_map@),
                    player,
                    3,
                    attachments@,
                    next as int,
                )
                &&& spec_board(res.state, player)@ == spec_board(self.state, player)@.with_attachments(
                    attach_all(spec_board(self.state, player).attachments@, atts, card),
                )
                &&& spec_board(res.state, crate::gameplay::spec_opponent(player)) == spec_board(
                    self.state,
                    crate::gameplay::spec_opponent(player),
                )
                &&& (if player == Player::One {
                    res.next_p1_card_ref == next + attachments@.len() && res.next_p2_card_ref
                        == self.next_p2_card_ref
                } else {
                    res.next_p2_card_ref == next + attachments@.len() && res.next_p1_card_ref
                        == self.next_p1_card_ref
                })
            }),
            res.next_modifier_ref == self.next_modifier_ref,
            res.state.active_player == self.state.active_player,
            res.state.active_step == self.state.active_step,
            res.state.turn_number == self.state.turn_number,
            res.state.zone_modifiers == self.state.zone_modifiers,
            res.state.card_modifiers == self.state.card_modifiers,
            res.state.card_damage_markers == self.state.card_damage_markers,
    {
        let mut b = self;
        let card = b.state.board(player).all_cards(zone)[card_idx];
        let ghost b0 = spec_board(b.state, player);
        let atts = if player == Player::One {
            register_cards(player, 3, &attachments, &mut b.next_p1_card_ref, &mut b.state.card_map)
        } else {
            register_cards(player, 3, &attachments, &mut b.next_p2_card_ref, &mut b.state.card_map)
        };
        let board = b.state.board_mut(player);
        let mut i: usize = 0;
        assert(atts@.take(0) =~= Seq::<CardRef>::empty());
        while i < atts.len()
            invariant
                0 <= i <= atts@.len(),
                board@ == b0@.with_attachments(attach_all(b0.attachments@, atts@.take(i as int), card)),
            decreases atts@.len() - i,
        {
            board.insert_attachment(atts[i], card);
            proof {
                assert(atts@.take(i + 1).drop_last() =~= atts@.take(i as int));
            }
            i = i + 1;
        }
        assert(atts@.take(atts@.len() as int) =~= atts@);
        b
    }

    pub fn with_active_player(self, active_player: Player) -> (res: Self)
        ensures
            res == (GameStateBuilder { state: GameState { active_player, ..self.state }, ..self }),
    {
        let mut b = self;
        b.state.active_player = active_player;
        b
    }

    pub fn with_active_step(self, active_step: Step) -> (res: Self)
        ensures
            res == (GameStateBuilder { state: GameState { active_step, ..self.state }, ..self }),
    {
        let mut b = self;
        b.state.active_step = active_step;
        b
    }

    pub fn with_turn_number(self, turn_number: u8) -> (res: Self)
        ensures
            res == (GameStateBuilder { state: GameState { turn_number, ..self.state }, ..self }),
    {
        let mut b = self;
        b.state.turn_number = turn_number;
        b
    }

    /// Adds a new modifier to a zone of a player, with the next modifier number.
    pub fn with_zone_modifiers(self, player: Player, zone: Zone, kind: ModifierKind, life_time: LifeTime) -> (res: Self)
        requires
            self.next_modifier_ref != 0,
            self.next_modifier_ref < u16::MAX,
            punique_keys(self.state.zone_modifiers@),
        ensures
            res.next_modifier_ref == self.next_modifier_ref + 1,
            punique_keys(res.state.zone_modifiers@),
            zone_mods_map(res.state.zone_modifiers@) == zone_mods_map(
                self.state.zone_modifiers@,
            ).insert(
                player,
                or_empty(zone_mods_map(self.state.zone_modifiers@), player).push(
                    (
                        zone,
                        ModifierV {
                            id: crate::modifiers::ModifierRef(self.next_modifier_ref),
                            kind: kind@,
                            life_time,
                        },
                    ),
                ),
            ),
            same_board_state(self.state, res.state),
            res.state.card_modifiers == self.state.card_modifiers,
            res.state.card_damage_markers == self.state.card_damage_markers,
            res.next_p1_card_ref == self.next_p1_card_ref,
            res.next_p2_card_ref == self.next_p2_card_ref,
    {
        let mut b = self;
        let m = Modifier::for_zone(player, zone, kind, life_time, &mut b.next_modifier_ref);
        let mut ms: Vec<Modifier> = Vec::new();
        ms.push(m);
        let ghost z0 = zone_mods_map(b.state.zone_modifiers@);
        b.state.add_zone_modifiers(player, zone, &ms);
        proof {
            assert(modifier_views(ms@).map_values(|x: ModifierV| (zone, x)) =~= seq![(zone, m@)]);
            assert(or_empty(z0, player) + seq![(zone, m@)] =~= or_empty(z0, player).push((zone, m@)));
        }
        b
    }

    pub fn with_card_modifiers(self, card_modifiers: Vec<(CardRef, Vec<Modifier>)>) -> (res: Self)
        ensures
            res == (GameStateBuilder {
                state: GameState { card_modifiers, ..self.state },
                ..self
            }),
    {
        let mut b = self;
        b.state.card_modifiers = card_modifiers;
        b
    }

    /// Sets the damage on the `card_idx`th card of a zone of a player.
    pub fn with_damage_markers(self, player: Player, zone: Zone, card_idx: usize, damage_markers: DamageMarkers) -> (res: Self)
        requires
            player != Player::Both,
            is_storage_zone(zone),
            card_idx < spec_board(self.state, player).zone_cards(zone).len(),
            unique_keys(self.state.card_damage_markers@),
        ensures
            unique_keys(res.state.card_damage_markers@),
            entries_map(res.state.card_damage_markers@) == entries_map(
                self.state.card_damage_markers@,
            ).insert(spec_board(self.state, player).zone_cards(zone)[card_idx as int], damage_markers),
            res.state == (GameState {
                card_damage_markers: res.state.card_damage_markers,
                ..self.state
            }),
            res.next_modifier_ref == self.next_modifier_ref,
            res.next_p1_card_ref == self.next_p1_card_ref,
            res.next_p2_card_ref == self.next_p2_card_ref,
    {
        let mut b = self;
        let card = b.state.board(player).all_cards(zone)[card_idx];
        set_entry(&mut b.state.card_damage_markers, card, damage_markers);
        b
    }
}

} // verus!
