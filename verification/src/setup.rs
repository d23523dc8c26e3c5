use std::collections::VecDeque;
use vstd::prelude::*;

use crate::board::GameBoard;
use crate::events::EventSpan;
use crate::gameplay::{player_index, spec_opponent, CardRef, Player, Step, Zone};
use crate::modifiers::{LifeTime, ModifierKind, ModifierKindV};
use crate::library::Loadout;
use crate::state::{entries_map, set_entry, unique_keys, GameState};

verus! {

/// The number of a card: the order in which it was dealt in its high byte, then the kind of
/// place it was dealt to (0 the oshi, 1 the main deck, 2 the cheer deck) times sixteen, the
/// player, and one, so that it is never zero.
pub open spec fn card_ref_value(player: Player, card_type_id: u16, next: int) -> int {
    next * 256 + (card_type_id as int * 16) % 65536 + player_index(player) + 1
}

/// The map of cards with cards of these numbers added, dealt one after the other from `next`.
pub open spec fn registered(
    m: Map<CardRef, (Player, String)>,
    player: Player,
    card_type_id: u16,
    numbers: Seq<String>,
    next: int,
) -> Map<CardRef, (Player, String)>
    decreases numbers.len(),
{
    if numbers.len() == 0 {
        m
    } else {
        registered(m, player, card_type_id, numbers.drop_last(), next).insert(
            CardRef(card_ref_value(player, card_type_id, next + numbers.len() - 1) as u16),
            (player, numbers.last()),
        )
    }
}

/// The cards dealt one after the other from `next`.
pub open spec fn dealt(player: Player, card_type_id: u16, n: nat, next: int) -> Seq<CardRef> {
    Seq::new(n, |i: int| CardRef(card_ref_value(player, card_type_id, next + i) as u16))
}

/// Gives a card its number, the next one for the player, and records who owns it and what
/// card it is.
pub fn register_card(
    player: Player,
    card_type_id: u16,
    card_number: &String,
    next_card_ref: &mut u8,
    card_map: &mut Vec<(CardRef, (Player, String))>,
) -> (res: CardRef)
    requires
        *old(next_card_ref) < 255,
        card_ref_value(player, card_type_id, *old(next_card_ref) as int) <= 65535,
        unique_keys(old(card_map)@),
    ensures
        res.0 == card_ref_value(player, card_type_id, *old(next_card_ref) as int),
        *final(next_card_ref) == *old(next_card_ref) + 1,
        unique_keys(final(card_map)@),
        entries_map(final(card_map)@) == entries_map(old(card_map)@).insert(
            res,
            (player, *card_number),
        ),
{
    let next_ref = *next_card_ref as u16;
    *next_card_ref = *next_card_ref + 1;
    let p: u16 = crate::gameplay::player_number(player);
    let kind = card_type_id.wrapping_mul(16);
    let card = CardRef(next_ref * 256 + kind + p + 1);
    set_entry(card_map, card, (player, card_number.clone()));
    card
}

pub(crate) fn register_cards(
    player: Player,
    card_type_id: u16,
    numbers: &Vec<String>,
    next_card_ref: &mut u8,
    card_map: &mut Vec<(CardRef, (Player, String))>,
) -> (res: VecDeque<CardRef>)
    requires
        *old(next_card_ref) + numbers@.len() <= 255,
        card_type_id <= 3,
        unique_keys(old(card_map)@),
    ensures
        res@ == dealt(player, card_type_id, numbers@.len(), *old(next_card_ref) as int),
        *final(next_card_ref) == *old(next_card_ref) + numbers@.len(),
        unique_keys(final(card_map)@),
        entries_map(final(card_map)@) == registered(
            entries_map(old(card_map)@),
            player,
            card_type_id,
            numbers@,
            *old(next_card_ref) as int,
        ),
{
    let ghost n0 = *next_card_ref as int;
    let ghost m0 = entries_map(card_map@);
    let mut out: VecDeque<CardRef> = VecDeque::new();
    let mut i: usize = 0;
    assert(numbers@.take(0) =~= Seq::<String>::empty());
    while i < numbers.len()
        invariant
            0 <= i <= numbers@.len(),
            n0 + numbers@.len() <= 255,
            card_type_id <= 3,
            *next_card_ref == n0 + i,
            unique_keys(card_map@),
            out@ == dealt(player, card_type_id, i as nat, n0),
            entries_map(card_map@) == registered(m0, player, card_type_id, numbers@.take(i as int), n0),
        decreases numbers@.len() - i,
    {
        assert(card_type_id as int * 16 < 65536);
        let c = register_card(player, card_type_id, &numbers[i], next_card_ref, card_map);
        out.push_back(c);
        proof {
            assert(numbers@.take(i + 1).drop_last() =~= numbers@.take(i as int));
            assert(numbers@.take(i + 1).last() == numbers@[i as int]);
            assert(out@ =~= dealt(player, card_type_id, (i + 1) as nat, n0));
        }
        i = i + 1;
    }
    assert(numbers@.take(numbers@.len() as int) =~= numbers@);
    out
}

impl GameBoard {
    /// The board of a player at the start of a game: the oshi, then the main deck, then the
    /// cheer deck get their numbers, one after the other; the other zones are empty.
    pub fn setup(
        player: Player,
        loadout: &Loadout,
        next_card_ref: &mut u8,
        card_map: &mut Vec<(CardRef, (Player, String))>,
    ) -> (res: GameBoard)
        requires
            *old(next_card_ref) + 1 + loadout.main_deck@.len() + loadout.cheer_deck@.len() <= 255,
            unique_keys(old(card_map)@),
        ensures
            res.oshi == Some(CardRef(card_ref_value(player, 0, *old(next_card_ref) as int) as u16)),
            res.main_deck@ == dealt(
                player,
                1,
                loadout.main_deck@.len(),
                *old(next_card_ref) + 1,
            ),
            res.cheer_deck@ == dealt(
                player,
                2,
                loadout.cheer_deck@.len(),
                *old(next_card_ref) + 1 + loadout.main_deck@.len(),
            ),
            res.center_stage is None,
            res.collab is None,
            res.back_stage@.len() == 0,
            res.life@.len() == 0,
            res.holo_power@.len() == 0,
            res.archive@.len() == 0,
            res.hand@.len() == 0,
            res.activate_support@.len() == 0,
            res.attachments@.len() == 0,
            *final(next_card_ref) == *old(next_card_ref) + 1 + loadout.main_deck@.len()
                + loadout.cheer_deck@.len(),
            unique_keys(final(card_map)@),
            entries_map(final(card_map)@) == registered(
                registered(
                    entries_map(old(card_map)@).insert(
                        CardRef(card_ref_value(player, 0, *old(next_card_ref) as int) as u16),
                        (player, loadout.oshi),
                    ),
                    player,
                    1,
                    loadout.main_deck@,
                    *old(next_card_ref) + 1,
                ),
                player,
                2,
                loadout.cheer_deck@,
                *old(next_card_ref) + 1 + loadout.main_deck@.len(),
            ),
    {
        let oshi = register_card(player, 0, &loadout.oshi, next_card_ref, card_map);
        let main_deck = register_cards(player, 1, &loadout.main_deck, next_card_ref, card_map);
        let cheer_deck = register_cards(player, 2, &loadout.cheer_deck, next_card_ref, card_map);
        GameBoard {
            oshi: Some(oshi),
            main_deck,
            center_stage: None,
            collab: None,
            back_stage: VecDeque::new(),
            life: VecDeque::new(),
            cheer_deck,
            holo_power: VecDeque::new(),
            archive: VecDeque::new(),
            hand: VecDeque::new(),
            activate_support: VecDeque::new(),
            attachments: Vec::new(),
        }
    }
}

impl GameState {
    /// The state of a new game between two loadouts: each player's cards get their numbers,
    /// counted from one for each player, and the game is in its setup step.
    pub fn setup(player_1: &Loadout, player_2: &Loadout) -> (res: GameState)
        requires
            2 + player_1.main_deck@.len() + player_1.cheer_deck@.len() <= 255,
            2 + player_2.main_deck@.len() + player_2.cheer_deck@.len() <= 255,
        ensures
            res.game_outcome is None,
            res.player_1.oshi == Some(CardRef(card_ref_value(Player::One, 0, 1) as u16)),
            res.player_1.main_deck@ == dealt(Player::One, 1, player_1.main_deck@.len(), 2),
            res.player_1.cheer_deck@ == dealt(
                Player::One,
                2,
                player_1.cheer_deck@.len(),
                2 + player_1.main_deck@.len() as int,
            ),
            res.player_2.oshi == Some(CardRef(card_ref_value(Player::Two, 0, 1) as u16)),
            res.player_2.main_deck@ == dealt(Player::Two, 1, player_2.main_deck@.len(), 2),
            res.player_2.cheer_deck@ == dealt(
                Player::Two,
                2,
                player_2.cheer_deck@.len(),
                2 + player_2.main_deck@.len() as int,
            ),
            unique_keys(res.card_map@),
            entries_map(res.card_map@) == registered(
                registered(
                    registered(
                        registered(
                            Map::empty().insert(
                                CardRef(card_ref_value(Player::One, 0, 1) as u16),
                                (Player::One, player_1.oshi),
                            ),
                            Player::One,
                            1,
                            player_1.main_deck@,
                            2,
                        ),
                        Player::One,
                        2,
                        player_1.cheer_deck@,
                        2 + player_1.main_deck@.len() as int,
                    ).insert(
                        CardRef(card_ref_value(Player::Two, 0, 1) as u16),
                        (Player::Two, player_2.oshi),
                    ),
                    Player::Two,
                    1,
                    player_2.main_deck@,
                    2,
                ),
                Player::Two,
                2,
                player_2.cheer_deck@,
                2 + player_2.main_deck@.len() as int,
            ),
            res.active_player == Player::One,
            res.active_step == Step::Setup,
            res.turn_number == 0,
            res.zone_modifiers@.len() == 0,
            res.card_modifiers@.len() == 0,
            res.card_damage_markers@.len() == 0,
    {
        let mut next_p1_card_ref: u8 = 1;
        let mut next_p2_card_ref: u8 = 1;
        let mut card_map: Vec<(CardRef, (Player, String))> = Vec::new();
        assert(entries_map(card_map@) =~= Map::<CardRef, (Player, String)>::empty());
        let player_1 = GameBoard::setup(Player::One, player_1, &mut next_p1_card_ref, &mut card_map);
        let player_2 = GameBoard::setup(Player::Two, player_2, &mut next_p2_card_ref, &mut card_map);
        GameState {
            game_outcome: None,
            player_1,
            player_2,
            card_map,
            active_player: Player::One,
            active_step: Step::Setup,
            turn_number: 0,
            zone_modifiers: Vec::new(),
            card_modifiers: Vec::new(),
            card_damage_markers: Vec::new(),
            event_span: EventSpan::new(),
        }
    }
}

/// Registering two lists one after the other registers the two together.
pub proof fn lemma_registered_concat(
    m: Map<CardRef, (Player, String)>,
    player: Player,
    card_type_id: u16,
    a: Seq<String>,
    b: Seq<String>,
    next: int,
)
    ensures
        registered(m, player, card_type_id, a + b, next) == registered(
            registered(m, player, card_type_id, a, next),
            player,
            card_type_id,
            b,
            next + a.len(),
        ),
    decreases b.len(),
{
    if b.len() == 0 {
        assert(a + b =~= a);
    } else {
        assert((a + b).drop_last() =~= a + b.drop_last());
        lemma_registered_concat(m, player, card_type_id, a, b.drop_last(), next);
    }
}

// ------------------------------------------------------------------
// the order of the setup
// ------------------------------------------------------------------

/// A zone modifier that the setup adds, as plain values.
pub open spec fn zone_mod_view(m: (Player, Zone, ModifierKind, LifeTime)) -> (Player, Zone, ModifierKindV, LifeTime) {
    (m.0, m.1, m.2@, m.3)
}

/// The zone modifiers of the first turns, in order: each player skips its first reset step;
/// the first player uses no limited support on its first turn; no player blooms on its first
/// turn; the first player skips the first performance step of the game. Each lasts until the
/// next turn of its player.
pub open spec fn spec_first_turn_modifiers(first: Player) -> Seq<(Player, Zone, ModifierKindV, LifeTime)> {
    let second = spec_opponent(first);
    seq![
        (first, Zone::All, ModifierKindV::SkipStep(Step::Reset), LifeTime::NextTurn(first)),
        (second, Zone::All, ModifierKindV::SkipStep(Step::Reset), LifeTime::NextTurn(second)),
        (first, Zone::All, ModifierKindV::PreventLimitedSupport, LifeTime::NextTurn(first)),
        (first, Zone::All, ModifierKindV::PreventBloom, LifeTime::NextTurn(first)),
        (second, Zone::All, ModifierKindV::PreventBloom, LifeTime::NextTurn(second)),
        (first, Zone::All, ModifierKindV::SkipStep(Step::Performance), LifeTime::NextTurn(first)),
    ]
}

/// The zone modifiers that the setup adds for the first turns.
pub fn first_turn_modifiers(first: Player) -> (res: Vec<(Player, Zone, ModifierKind, LifeTime)>)
    requires
        first != Player::Both,
    ensures
        res@.map_values(|m: (Player, Zone, ModifierKind, LifeTime)| zone_mod_view(m))
            == spec_first_turn_modifiers(first),
{
    let second = first.opponent();
    let mut res: Vec<(Player, Zone, ModifierKind, LifeTime)> = Vec::new();
    res.push((first, Zone::All, ModifierKind::SkipStep(Step::Reset), LifeTime::NextTurn(first)));
    res.push((second, Zone::All, ModifierKind::SkipStep(Step::Reset), LifeTime::NextTurn(second)));
    res.push((first, Zone::All, ModifierKind::PreventLimitedSupport, LifeTime::NextTurn(first)));
    res.push((first, Zone::All, ModifierKind::PreventBloom, LifeTime::NextTurn(first)));
    res.push((second, Zone::All, ModifierKind::PreventBloom, LifeTime::NextTurn(second)));
    res.push(
        (first, Zone::All, ModifierKind::SkipStep(Step::Performance), LifeTime::NextTurn(first)),
    );
    assert(res@.map_values(|m: (Player, Zone, ModifierKind, LifeTime)| zone_mod_view(m))
        =~= spec_first_turn_modifiers(first));
    res
}

/// What the setup does, once the first player is known.
#[derive(Debug)]
pub enum SetupAction {
    /// The winner of rock, paper, scissors is told.
    ReportRpsWin(Player),
    /// The player who goes first is told.
    ReportGoingFirst(Player),
    /// The player draws a first hand, with mulligans.
    Mulligan(Player),
    /// The player puts a debut member on the center stage.
    FirstDebut(Player),
    /// The player puts other debut or spot members on the back stage.
    FirstBackStage(Player),
    /// The cards of a zone of the player are shown.
    Reveal(Player, Zone),
    /// The player puts as many cheers from its cheer deck in its life zone as its oshi has life.
    CheersToLife(Player),
    /// A modifier is added to a zone of a player.
    AddZoneModifier(Player, Zone, ModifierKind, LifeTime),
}

/// The plain values of a setup action.
pub enum SetupActionV {
    ReportRpsWin(Player),
    ReportGoingFirst(Player),
    Mulligan(Player),
    FirstDebut(Player),
    FirstBackStage(Player),
    Reveal(Player, Zone),
    CheersToLife(Player),
    AddZoneModifier(Player, Zone, ModifierKindV, LifeTime),
}

impl View for SetupAction {
    type V = SetupActionV;

    open spec fn view(&self) -> SetupActionV {
        match *self {
            SetupAction::ReportRpsWin(p) => SetupActionV::ReportRpsWin(p),
            SetupAction::ReportGoingFirst(p) => SetupActionV::ReportGoingFirst(p),
            SetupAction::Mulligan(p) => SetupActionV::Mulligan(p),
            SetupAction::FirstDebut(p) => SetupActionV::FirstDebut(p),
            SetupAction::FirstBackStage(p) => SetupActionV::FirstBackStage(p),
            SetupAction::Reveal(p, z) => SetupActionV::Reveal(p, z),
            SetupAction::CheersToLife(p) => SetupActionV::CheersToLife(p),
            SetupAction::AddZoneModifier(p, z, k, l) => SetupActionV::AddZoneModifier(p, z, k@, l),
        }
    }
}

/// The decks shuffled when the setup starts: the main decks, then the cheer decks.
pub open spec fn spec_setup_shuffles() -> Seq<(Player, Zone)> {
    seq![
        (Player::One, Zone::MainDeck),
        (Player::Two, Zone::MainDeck),
        (Player::One, Zone::CheerDeck),
        (Player::Two, Zone::CheerDeck),
    ]
}

pub fn setup_shuffles() -> (res: Vec<(Player, Zone)>)
    ensures
        res@ == spec_setup_shuffles(),
{
    let mut res: Vec<(Player, Zone)> = Vec::new();
    res.push((Player::One, Zone::MainDeck));
    res.push((Player::Two, Zone::MainDeck));
    res.push((Player::One, Zone::CheerDeck));
    res.push((Player::Two, Zone::CheerDeck));
    assert(res@ =~= spec_setup_shuffles());
    res
}

/// The setup once a player won rock, paper, scissors and goes first, in order: the win and
/// who goes first are told; each player, the first one first, draws its hand, then puts its
/// center, then its back stage; the oshis, the centers and the back stages are shown, the
/// first player's first each time; each player fills its life; the modifiers of the first
/// turns are added.
pub open spec fn spec_setup_sequence(first: Player) -> Seq<SetupActionV> {
    let second = spec_opponent(first);
    seq![
        SetupActionV::ReportRpsWin(first),
        SetupActionV::ReportGoingFirst(first),
        SetupActionV::Mulligan(first),
        SetupActionV::Mulligan(second),
        SetupActionV::FirstDebut(first),
        SetupActionV::FirstDebut(second),
        SetupActionV::FirstBackStage(first),
        SetupActionV::FirstBackStage(second),
        SetupActionV::Reveal(first, Zone::Oshi),
        SetupActionV::Reveal(second, Zone::Oshi),
        SetupActionV::Reveal(first, Zone::CenterStage),
        SetupActionV::Reveal(second, Zone::CenterStage),
        SetupActionV::Reveal(first, Zone::BackStage),
        SetupActionV::Reveal(second, Zone::BackStage),
        SetupActionV::CheersToLife(first),
        SetupActionV::CheersToLife(second),
    ] + spec_first_turn_modifiers(first).map_values(
        |m: (Player, Zone, ModifierKindV, LifeTime)| SetupActionV::AddZoneModifier(m.0, m.1, m.2, m.3),
    )
}

pub open spec fn setup_action_views(s: Seq<SetupAction>) -> Seq<SetupActionV> {
    s.map_values(|a: SetupAction| a@)
}

/// What the setup does once `first` won rock, paper, scissors.
pub fn setup_sequence(first: Player) -> (res: Vec<SetupAction>)
    requires
        first != Player::Both,
    ensures
        setup_action_views(res@) == spec_setup_sequence(first),
{
    let second = first.opponent();
    let mut res: Vec<SetupAction> = Vec::new();
    res.push(SetupAction::ReportRpsWin(first));
    res.push(SetupAction::ReportGoingFirst(first));
    res.push(SetupAction::Mulligan(first));
    res.push(SetupAction::Mulligan(second));
    res.push(SetupAction::FirstDebut(first));
    res.push(SetupAction::FirstDebut(second));
    res.push(SetupAction::FirstBackStage(first));
    res.push(SetupAction::FirstBackStage(second));
    res.push(SetupAction::Reveal(first, Zone::Oshi));
    res.push(SetupAction::Reveal(second, Zone::Oshi));
    res.push(SetupAction::Reveal(first, Zone::CenterStage));
    res.push(SetupAction::Reveal(second, Zone::CenterStage));
    res.push(SetupAction::Reveal(first, Zone::BackStage));
    res.push(SetupAction::Reveal(second, Zone::BackStage));
    res.push(SetupAction::CheersToLife(first));
    res.push(SetupAction::CheersToLife(second));
    let ghost head = setup_action_views(res@);
    let mods = first_turn_modifiers(first);
    let ghost mv = mods@.map_values(|m: (Player, Zone, ModifierKind, LifeTime)| zone_mod_view(m));
    let mut mods = mods;
    let mut i: usize = 0;
    let n = mods.len();
    assert(mv.len() == 6);
    while i < n
        invariant
            0 <= i <= n,
            n == 6,
            mv.len() == 6,
            mods@.len() == n - i,
            forall|j: int| 0 <= j < mods@.len() ==> zone_mod_view(#[trigger] mods@[j]) == mv[j + i],
            setup_action_views(res@) == head + mv.take(i as int).map_values(
                |m: (Player, Zone, ModifierKindV, LifeTime)| SetupActionV::AddZoneModifier(m.0, m.1, m.2, m.3),
            ),
        decreases n - i,
    {
        let ghost before = mods@;
        let (p, z, k, l) = mods.remove(0);
        assert(zone_mod_view(before[0]) == mv[i as int]);
        let ghost r0 = res@;
        res.push(SetupAction::AddZoneModifier(p, z, k, l));
        proof {
            assert(setup_action_views(res@) =~= setup_action_views(r0).push(
                SetupActionV::AddZoneModifier(mv[i as int].0, mv[i as int].1, mv[i as int].2, mv[i as int].3),
            ));
            assert(mv.take(i + 1) =~= mv.take(i as int).push(mv[i as int]));
            assert forall|j: int| 0 <= j < mods@.len() implies zone_mod_view(#[trigger] mods@[j]) == mv[j + i + 1] by {
                assert(mods@[j] == before[j + 1]);
            }
        }
        i = i + 1;
    }
    proof {
        assert(mv.take(6) =~= mv);
        assert(setup_action_views(res@) =~= spec_setup_sequence(first));
    }
    res
}

} // verus!
