use vstd::prelude::*;

use crate::gameplay::{CardRef, GameOutcome, MainStepAction, PerformanceStepAction, Player, Rps, Step, Zone, ZoneAddLocation};
use crate::modifiers::{DamageMarkers, Modifier, ModifierRef};

use crate::state::{added_mods, attached_all, can_attach_all, can_send_cards, card_tokens, changed_damage, cleared, damage_map, mods_map, modifier_views, or_empty, punique_keys, removed_mods, same_board_state, same_but_boards, saturating_add, sent_cards, spec_board, unique_keys, zone_mods_map, zone_retained, has_entry, GameState};
use crate::modifiers::ModifierV;

verus! {

/// What the game sends to a client.
#[derive(Debug)]
pub enum ClientReceive {
    Event(Event),
    IntentRequest(IntentRequest),
}

/// What a client sends to the game.
#[derive(Debug)]
pub enum ClientSend {
    IntentResponse(IntentResponse),
}

/// An event, seen before or after it happens.
#[derive(Debug)]
pub enum TriggeredEvent<'a> {
    Before(&'a Event),
    After(&'a Event),
}

impl<'a> TriggeredEvent<'a> {
    pub fn event(&self) -> (res: &Event)
        ensures
            match *self {
                TriggeredEvent::Before(e) => *res == *e,
                TriggeredEvent::After(e) => *res == *e,
            },
    {
        match self {
            TriggeredEvent::Before(e) => e,
            TriggeredEvent::After(e) => e,
        }
    }
}

/// Whether an event goes on after the cards had their say.
#[derive(Debug, Clone, Copy, PartialEq, Eq, Structural)]
pub enum AdjustEventOutcome {
    ContinueEvent,
    PreventEvent,
}

/// Everything that happens in a game.
#[derive(Debug)]
pub enum Event {
    SyncGameState(SyncGameState),
    Setup(Setup),
    Shuffle(Shuffle),
    RpsOutcome(RpsOutcome),
    PlayerGoingFirst(PlayerGoingFirst),
    Reveal(Reveal),
    GameStart(GameStart),
    GameOver(GameOver),
    StartTurn(StartTurn),
    EndTurn(EndTurn),
    EnterStep(EnterStep),
    ExitStep(ExitStep),
    AddCardModifiers(AddCardModifiers),
    RemoveCardModifiers(RemoveCardModifiers),
    ClearCardModifiers(ClearCardModifiers),
    AddZoneModifiers(AddZoneModifiers),
    RemoveZoneModifiers(RemoveZoneModifiers),
    AddDamageMarkers(AddDamageMarkers),
    RemoveDamageMarkers(RemoveDamageMarkers),
    ClearDamageMarkers(ClearDamageMarkers),
    LookAndSelect(LookAndSelect),
    SendToZone(SendToZone),
    AttachToCard(AttachToCard),
    /// marker event before zone to attach (deck -> hand)
    Draw(Draw),
    /// marker event after zone to zone (back stage -> collab stage)
    Collab(Collab),
    /// marker event before zone to attach (life -> temp zone -> attach)
    LoseLives(LoseLives),
    /// marker event before zone to attach (hand -> attach)
    Bloom(Bloom),
    BatonPass(BatonPass),
    ActivateSupportCard(ActivateSupportCard),
    ActivateSupportAbility(ActivateSupportAbility),
    ActivateOshiSkill(ActivateOshiSkill),
    ActivateHoloMemberAbility(ActivateHoloMemberAbility),
    ActivateHoloMemberArtEffect(ActivateHoloMemberArtEffect),
    PerformArt(PerformArt),
    WaitingForPlayerIntent(WaitingForPlayerIntent),
    HoloMemberDefeated(HoloMemberDefeated),
    DealDamage(DealDamage),
    RollDice(RollDice),
}

/// What the game asks of a player.
#[derive(Debug)]
#[allow(inconsistent_fields)]
pub enum IntentRequest {
    Rps { player: Player, select_rps: Vec<Rps> },
    Mulligan { player: Player, select_yes_no: Vec<bool> },
    ActivateEffect { player: Player, select_yes_no: Vec<bool> },
    LookSelectZoneToZone {
        player: Player,
        from_zone: Zone,
        to_zone: Zone,
        look_cards: Vec<CardRef>,
        select_cards: Vec<CardRef>,
        min_amount: usize,
        max_amount: usize,
    },
    SelectToAttach { player: Player, zones: Vec<Zone>, select_cards: Vec<CardRef> },
    MainStepAction { player: Player, select_actions: Vec<MainStepAction> },
    SelectAttachments {
        player: Player,
        card: (Zone, CardRef),
        select_attachments: Vec<CardRef>,
        min_amount: usize,
        max_amount: usize,
    },
    PerformanceStepAction { player: Player, select_actions: Vec<PerformanceStepAction> },
    SelectNumber { player: Player, select_numbers: Vec<usize> },
}

/// What a player answers.
#[derive(Debug)]
#[allow(inconsistent_fields)]
pub enum IntentResponse {
    Rps { player: Player, select_rps: Rps },
    Mulligan { player: Player, select_yes_no: bool },
    ActivateEffect { player: Player, select_yes_no: bool },
    LookSelectZoneToZone { player: Player, select_cards: Vec<CardRef> },
    SelectToAttach { player: Player, select_card: CardRef },
    MainStepAction { player: Player, select_action: MainStepAction },
    SelectAttachments { player: Player, select_attachments: Vec<CardRef> },
    PerformanceStepAction { player: Player, select_action: PerformanceStepAction },
    SelectNumber { player: Player, select_number: usize },
}

#[derive(Debug)]
pub struct SyncGameState {
    pub state: Box<GameState>,
}

#[derive(Debug)]
pub struct Setup {}

#[derive(Debug)]
pub struct Shuffle {
    pub decks: Vec<(Player, Zone)>,
}

#[derive(Debug)]
pub struct RpsOutcome {
    pub winning_player: Option<Player>,
}

#[derive(Debug)]
pub struct PlayerGoingFirst {
    pub first_player: Player,
}

#[derive(Debug)]
pub struct Reveal {
    pub player: Player,
    pub zone: Zone,
    pub cards: Vec<(CardRef, String)>,
}

#[derive(Debug)]
pub struct GameStart {
    pub active_player: Player,
}

#[derive(Debug)]
pub struct GameOver {
    pub game_outcome: GameOutcome,
    pub turn_number: u8,
}

#[derive(Debug)]
pub struct StartTurn {
    pub active_player: Player,
    pub turn_number: u8,
}

#[derive(Debug)]
pub struct EndTurn {
    pub active_player: Player,
    pub turn_number: u8,
}

#[derive(Debug)]
pub struct EnterStep {
    pub active_player: Player,
    pub active_step: Step,
}

#[derive(Debug)]
pub struct ExitStep {
    pub active_player: Player,
    pub active_step: Step,
}

#[derive(Debug)]
pub struct AddCardModifiers {
    pub cards: Vec<CardRef>,
    pub modifiers: Vec<Modifier>,
}

#[derive(Debug)]
pub struct RemoveCardModifiers {
    pub cards: Vec<CardRef>,
    pub modifiers: Vec<ModifierRef>,
}

#[derive(Debug)]
pub struct ClearCardModifiers {
    pub cards: Vec<CardRef>,
}

#[derive(Debug)]
pub struct AddZoneModifiers {
    pub player: Player,
    pub zone: Zone,
    pub modifiers: Vec<Modifier>,
}

#[derive(Debug)]
pub struct RemoveZoneModifiers {
    pub player: Player,
    pub zone: Zone,
    pub modifiers: Vec<ModifierRef>,
}

#[derive(Debug)]
pub struct AddDamageMarkers {
    pub cards: Vec<CardRef>,
    pub dmg: DamageMarkers,
}

#[derive(Debug)]
pub struct RemoveDamageMarkers {
    pub cards: Vec<CardRef>,
    pub dmg: DamageMarkers,
}

#[derive(Debug)]
pub struct ClearDamageMarkers {
    pub cards: Vec<CardRef>,
}

#[derive(Debug)]
pub struct LookAndSelect {
    pub player: Player,
    pub zone: Zone,
    pub cards: Vec<CardRef>,
}

#[derive(Debug)]
pub struct SendToZone {
    pub cards: Vec<CardRef>,
    pub zone: Zone,
    pub zone_location: ZoneAddLocation,
}

#[derive(Debug)]
pub struct AttachToCard {
    pub attachments: Vec<CardRef>,
    pub card: CardRef,
}

#[derive(Debug)]
pub struct Draw {
    pub player: Player,
    pub amount: usize,
}

#[derive(Debug)]
pub struct Collab {
    pub card: CardRef,
    pub holo_power_amount: usize,
}

#[derive(Debug)]
pub struct LoseLives {
    pub player: Player,
    pub amount: usize,
}

#[derive(Debug)]
pub struct Bloom {
    pub from_card: CardRef,
    pub to_card: CardRef,
}

#[derive(Debug)]
pub struct BatonPass {
    pub from_card: CardRef,
    pub to_card: CardRef,
}

#[derive(Debug)]
pub struct ActivateSupportCard {
    pub card: CardRef,
}

#[derive(Debug)]
pub struct ActivateSupportAbility {
    pub card: CardRef,
    pub is_triggered: bool,
}

#[derive(Debug)]
pub struct ActivateOshiSkill {
    pub card: CardRef,
    pub skill_idx: usize,
    pub is_triggered: bool,
}

#[derive(Debug)]
pub struct ActivateHoloMemberAbility {
    pub card: CardRef,
    pub ability_idx: usize,
    pub is_triggered: bool,
}

#[derive(Debug)]
pub struct ActivateHoloMemberArtEffect {
    pub card: CardRef,
    pub skill_idx: usize,
}

#[derive(Debug)]
pub struct PerformArt {
    pub card: CardRef,
    pub art_idx: usize,
    pub target: Option<CardRef>,
}

#[derive(Debug)]
pub struct WaitingForPlayerIntent {
    pub player: Player,
}

#[derive(Debug)]
pub struct HoloMemberDefeated {
    pub cards: Vec<CardRef>,
}

#[derive(Debug)]
pub struct DealDamage {
    pub card: CardRef,
    pub target: CardRef,
    pub dmg: DamageMarkers,
    pub is_special: bool,
}

#[derive(Debug)]
pub struct RollDice {
    pub player: Player,
    pub number: u8,
}

// ------------------------------------------------------------------
// the cards and events that are being resolved
// ------------------------------------------------------------------

/// The cards whose effects are being resolved, and the events in progress, innermost last.
/// A `None` card stands for work that no card started.
#[derive(Debug)]
pub struct EventSpan {
    pub origin_stack: Vec<Option<CardRef>>,
    pub event_stack: Vec<Event>,
}

/// The card at the top of a stack of origins.
pub open spec fn top_card(s: Seq<Option<CardRef>>) -> Option<CardRef> {
    if s.len() > 0 {
        s.last()
    } else {
        None
    }
}

impl EventSpan {
    pub fn new() -> (res: EventSpan)
        ensures
            res.origin_stack@.len() == 0,
            res.event_stack@.len() == 0,
    {
        EventSpan { origin_stack: Vec::new(), event_stack: Vec::new() }
    }

    pub fn open_card_span(&mut self, card: CardRef)
        ensures
            final(self).origin_stack@ == old(self).origin_stack@.push(Some(card)),
            final(self).event_stack@ == old(self).event_stack@,
    {
        self.origin_stack.push(Some(card));
    }

    pub fn open_event_span(&mut self, event: Event)
        ensures
            final(self).origin_stack@ == old(self).origin_stack@,
            final(self).event_stack@ == old(self).event_stack@.push(event),
    {
        self.event_stack.push(event);
    }

    pub fn open_card_event_span(&mut self, card: CardRef, event: Event)
        ensures
            final(self).origin_stack@ == old(self).origin_stack@.push(Some(card)),
            final(self).event_stack@ == old(self).event_stack@.push(event),
    {
        self.open_card_span(card);
        self.open_event_span(event);
    }

    pub fn open_untracked_span(&mut self)
        ensures
            final(self).origin_stack@ == old(self).origin_stack@.push(None),
            final(self).event_stack@ == old(self).event_stack@,
    {
        self.origin_stack.push(None);
    }

    /// Closes the span of the current card, which must be the given one.
    pub fn close_card_span(&mut self, card: CardRef)
        requires
            top_card(old(self).origin_stack@) == Some(card),
        ensures
            final(self).origin_stack@ == old(self).origin_stack@.drop_last(),
            final(self).event_stack@ == old(self).event_stack@,
    {
        self.origin_stack.pop();
    }

    /// Closes the span of the current event, which must be the given one.
    pub fn close_event_span(&mut self, event: &Event)
        requires
            old(self).event_stack@.len() > 0,
            old(self).event_stack@.last() == *event,
        ensures
            final(self).origin_stack@ == old(self).origin_stack@,
            final(self).event_stack@ == old(self).event_stack@.drop_last(),
    {
        self.event_stack.pop();
    }

    /// Closes the span of the current event, if any, whatever it is.
    pub fn close_event_span_unchecked(&mut self)
        ensures
            final(self).origin_stack@ == old(self).origin_stack@,
            old(self).event_stack@.len() > 0 ==> final(self).event_stack@
                == old(self).event_stack@.drop_last(),
            old(self).event_stack@.len() == 0 ==> final(self).event_stack@.len() == 0,
    {
        self.event_stack.pop();
    }

    pub fn close_card_event_span(&mut self, card: CardRef, event: &Event)
        requires
            top_card(old(self).origin_stack@) == Some(card),
            old(self).event_stack@.len() > 0,
            old(self).event_stack@.last() == *event,
        ensures
            final(self).origin_stack@ == old(self).origin_stack@.drop_last(),
            final(self).event_stack@ == old(self).event_stack@.drop_last(),
    {
        self.close_card_span(card);
        self.close_event_span(event);
    }

    /// Closes a span that no card started; the current card must be none.
    pub fn close_untracked_span(&mut self)
        requires
            top_card(old(self).origin_stack@) is None,
        ensures
            old(self).origin_stack@.len() > 0 ==> final(self).origin_stack@
                == old(self).origin_stack@.drop_last(),
            old(self).origin_stack@.len() == 0 ==> final(self).origin_stack@.len() == 0,
            final(self).event_stack@ == old(self).event_stack@,
    {
        self.origin_stack.pop();
    }

    /// The card whose effect is being resolved.
    pub fn current_card(&self) -> (res: Option<CardRef>)
        ensures
            res == top_card(self.origin_stack@),
    {
        let n = self.origin_stack.len();
        if n == 0 {
            None
        } else {
            self.origin_stack[n - 1]
        }
    }

    /// The event in progress.
    pub fn current_event(&self) -> (res: Option<&Event>)
        ensures
            self.event_stack@.len() == 0 ==> res is None,
            self.event_stack@.len() > 0 ==> res == Some(&self.event_stack@.last()),
    {
        let n = self.event_stack.len();
        if n == 0 {
            None
        } else {
            Some(&self.event_stack[n - 1])
        }
    }

    /// The card below the current one: the card whose event started the current effect.
    pub fn trigger_card(&self) -> (res: Option<CardRef>)
        requires
            self.origin_stack@.len() >= 2,
        ensures
            res == self.origin_stack@[self.origin_stack@.len() - 2],
    {
        self.origin_stack[self.origin_stack.len() - 2]
    }

    /// The event below the current one.
    pub fn trigger_event(&self) -> (res: Option<&Event>)
        requires
            self.event_stack@.len() >= 2,
        ensures
            res == Some(&self.event_stack@[self.event_stack@.len() - 2]),
    {
        Some(&self.event_stack[self.event_stack.len() - 2])
    }
}

/// Spans nest: opening a card's span makes it the current card, and closing it gives the
/// stacks back as they were.
pub proof fn lemma_span_nesting(origins: Seq<Option<CardRef>>, card: CardRef)
    ensures
        top_card(origins.push(Some(card))) == Some(card),
        origins.push(Some(card)).drop_last() == origins,
        top_card(origins.push(None)) is None,
        origins.push(None).drop_last() == origins,
{
    assert(origins.push(Some(card)).drop_last() =~= origins);
    assert(origins.push(None).drop_last() =~= origins);
}


// ------------------------------------------------------------------
// what events change in a game
// ------------------------------------------------------------------

/// Every card with modifiers is registered.
pub open spec fn mods_registered(s: GameState) -> bool {
    forall|c: CardRef| #[trigger] has_entry(s.card_modifiers@, c) ==> has_entry(s.card_map@, c)
}

impl Setup {
    pub fn apply_state_change(&self, state: &mut GameState)
        ensures
            final(state).active_step == Step::Setup,
            final(state).active_player == old(state).active_player,
            final(state).turn_number == old(state).turn_number,
            final(state).game_outcome == old(state).game_outcome,
            final(state).player_1 == old(state).player_1,
            final(state).player_2 == old(state).player_2,
            final(state).card_modifiers == old(state).card_modifiers,
            final(state).zone_modifiers == old(state).zone_modifiers,
            final(state).card_damage_markers == old(state).card_damage_markers,
    {
        state.active_step = Step::Setup;
    }
}

impl PlayerGoingFirst {
    pub fn apply_state_change(&self, state: &mut GameState)
        ensures
            *final(state) == (GameState { active_player: self.first_player, ..*old(state) }),
    {
        state.active_player = self.first_player;
    }
}

impl GameStart {
    pub fn apply_state_change(&self, state: &mut GameState)
        ensures
            *final(state) == (GameState { active_player: self.active_player, ..*old(state) }),
    {
        state.active_player = self.active_player;
    }
}

impl GameOver {
    pub fn apply_state_change(&self, state: &mut GameState)
        ensures
            *final(state) == (GameState {
                active_step: Step::GameOver,
                game_outcome: Some(self.game_outcome),
                ..*old(state)
            }),
    {
        state.active_step = Step::GameOver;
        state.game_outcome = Some(self.game_outcome);
    }
}

impl StartTurn {
    /// The player's turn starts: its number, and the modifiers that wait for it.
    pub fn apply_state_change(&self, state: &mut GameState)
        requires
            old(state).wf(),
            mods_registered(*old(state)),
        ensures
            final(state).wf(),
            final(state).active_player == self.active_player,
            final(state).turn_number == self.turn_number,
            ({
                let mid = GameState {
                    active_player: self.active_player,
                    turn_number: self.turn_number,
                    ..*old(state)
                };
                &&& mods_map(final(state).card_modifiers@) == mid.card_mods_started(self.active_player)
                &&& zone_mods_map(final(state).zone_modifiers@) == if zone_mods_map(
                    old(state).zone_modifiers@,
                ).contains_key(self.active_player) {
                    zone_mods_map(old(state).zone_modifiers@).insert(
                        self.active_player,
                        crate::state::started_zone_mods(
                            zone_mods_map(old(state).zone_modifiers@)[self.active_player],
                            self.active_player,
                        ),
                    )
                } else {
                    zone_mods_map(old(state).zone_modifiers@)
                }
                &&& same_board_state(mid, *final(state))
            }),
            final(state).card_damage_markers == old(state).card_damage_markers,
    {
        state.active_player = self.active_player;
        state.turn_number = self.turn_number;
        state.start_turn_modifiers(self.active_player);
    }
}

impl EndTurn {
    pub fn apply_state_change(&self, state: &mut GameState)
        requires
            mods_registered(*old(state)),
        ensures
            *final(state) == *old(state),
    {
        state.end_turn_modifiers(self.active_player);
        assert(*state =~= *old(state));
    }
}

impl EnterStep {
    pub fn apply_state_change(&self, state: &mut GameState)
        ensures
            *final(state) == (GameState { active_step: self.active_step, ..*old(state) }),
    {
        state.active_step = self.active_step;
    }
}

impl AddCardModifiers {
    pub fn apply_state_change(&self, state: &mut GameState)
        requires
            unique_keys(old(state).card_modifiers@),
        ensures
            unique_keys(final(state).card_modifiers@),
            mods_map(final(state).card_modifiers@) == added_mods(
                mods_map(old(state).card_modifiers@),
                self.cards@,
                modifier_views(self.modifiers@),
            ),
            same_board_state(*old(state), *final(state)),
            final(state).zone_modifiers == old(state).zone_modifiers,
            final(state).card_damage_markers == old(state).card_damage_markers,
    {
        state.add_card_modifiers(&self.cards, &self.modifiers);
    }
}

impl RemoveCardModifiers {
    pub fn apply_state_change(&self, state: &mut GameState)
        requires
            unique_keys(old(state).card_modifiers@),
        ensures
            unique_keys(final(state).card_modifiers@),
            mods_map(final(state).card_modifiers@) == removed_mods(
                mods_map(old(state).card_modifiers@),
                self.cards@,
                card_tokens(self.cards@, self.modifiers@).to_multiset(),
            ).0,
            same_board_state(*old(state), *final(state)),
            final(state).zone_modifiers == old(state).zone_modifiers,
            final(state).card_damage_markers == old(state).card_damage_markers,
    {
        state.remove_card_modifiers(&self.cards, &self.modifiers);
    }
}

impl ClearCardModifiers {
    pub fn apply_state_change(&self, state: &mut GameState)
        requires
            unique_keys(old(state).card_modifiers@),
        ensures
            unique_keys(final(state).card_modifiers@),
            mods_map(final(state).card_modifiers@) == cleared(
                mods_map(old(state).card_modifiers@),
                self.cards@,
            ),
            same_board_state(*old(state), *final(state)),
            final(state).zone_modifiers == old(state).zone_modifiers,
            final(state).card_damage_markers == old(state).card_damage_markers,
    {
        state.clear_card_modifiers(&self.cards);
    }
}

impl AddZoneModifiers {
    pub fn apply_state_change(&self, state: &mut GameState)
        requires
            punique_keys(old(state).zone_modifiers@),
        ensures
            punique_keys(final(state).zone_modifiers@),
            zone_mods_map(final(state).zone_modifiers@) == zone_mods_map(
                old(state).zone_modifiers@,
            ).insert(
                self.player,
                or_empty(zone_mods_map(old(state).zone_modifiers@), self.player) + modifier_views(
                    self.modifiers@,
                ).map_values(|m: ModifierV| (self.zone, m)),
            ),
            same_board_state(*old(state), *final(state)),
            final(state).card_modifiers == old(state).card_modifiers,
            final(state).card_damage_markers == old(state).card_damage_markers,
    {
        state.add_zone_modifiers(self.player, self.zone, &self.modifiers);
    }
}

impl RemoveZoneModifiers {
    pub fn apply_state_change(&self, state: &mut GameState)
        requires
            punique_keys(old(state).zone_modifiers@),
        ensures
            punique_keys(final(state).zone_modifiers@),
            zone_mods_map(final(state).zone_modifiers@) == zone_mods_map(
                old(state).zone_modifiers@,
            ).insert(
                self.player,
                zone_retained(
                    or_empty(zone_mods_map(old(state).zone_modifiers@), self.player),
                    self.zone,
                    self.modifiers@.to_multiset(),
                ).0,
            ),
            same_board_state(*old(state), *final(state)),
            final(state).card_modifiers == old(state).card_modifiers,
            final(state).card_damage_markers == old(state).card_damage_markers,
    {
        state.remove_zone_modifiers(self.player, self.zone, &self.modifiers);
    }
}

impl AddDamageMarkers {
    pub fn apply_state_change(&self, state: &mut GameState)
        requires
            unique_keys(old(state).card_damage_markers@),
        ensures
            unique_keys(final(state).card_damage_markers@),
            damage_map(final(state).card_damage_markers@) == changed_damage(
                damage_map(old(state).card_damage_markers@),
                self.cards@,
                self.dmg.0,
                true,
            ),
            same_board_state(*old(state), *final(state)),
            final(state).zone_modifiers == old(state).zone_modifiers,
            final(state).card_modifiers == old(state).card_modifiers,
    {
        state.add_damage_markers(&self.cards, self.dmg);
    }
}

impl RemoveDamageMarkers {
    pub fn apply_state_change(&self, state: &mut GameState)
        requires
            unique_keys(old(state).card_damage_markers@),
        ensures
            unique_keys(final(state).card_damage_markers@),
            damage_map(final(state).card_damage_markers@) == changed_damage(
                damage_map(old(state).card_damage_markers@),
                self.cards@,
                self.dmg.0,
                false,
            ),
            same_board_state(*old(state), *final(state)),
            final(state).zone_modifiers == old(state).zone_modifiers,
            final(state).card_modifiers == old(state).card_modifiers,
    {
        state.remove_damage_markers(&self.cards, self.dmg);
    }
}

impl ClearDamageMarkers {
    pub fn apply_state_change(&self, state: &mut GameState)
        requires
            unique_keys(old(state).card_damage_markers@),
        ensures
            unique_keys(final(state).card_damage_markers@),
            damage_map(final(state).card_damage_markers@) == cleared(
                damage_map(old(state).card_damage_markers@),
                self.cards@,
            ),
            same_board_state(*old(state), *final(state)),
            final(state).zone_modifiers == old(state).zone_modifiers,
            final(state).card_modifiers == old(state).card_modifiers,
    {
        state.clear_damage_markers(&self.cards);
    }
}

impl SendToZone {
    pub fn apply_state_change(&self, state: &mut GameState)
        requires
            can_send_cards(
                old(state).card_map@,
                (old(state).player_1@, old(state).player_2@),
                self.cards@,
                self.zone,
                self.zone_location,
            ),
        ensures
            (final(state).player_1@, final(state).player_2@) == sent_cards(
                old(state).card_map@,
                (old(state).player_1@, old(state).player_2@),
                self.cards@,
                self.zone,
                self.zone_location,
            ),
            same_but_boards(*old(state), *final(state)),
    {
        state.send_cards_to_zone(&self.cards, self.zone, self.zone_location);
    }
}

impl AttachToCard {
    pub fn apply_state_change(&self, state: &mut GameState)
        requires
            old(state).is_registered(self.card),
            can_attach_all(
                spec_board(*old(state), old(state).owner(self.card))@,
                self.attachments@,
                self.card,
            ),
        ensures
            spec_board(*final(state), old(state).owner(self.card))@ == attached_all(
                spec_board(*old(state), old(state).owner(self.card))@,
                self.attachments@,
                self.card,
            ),
            spec_board(*final(state), crate::gameplay::spec_opponent(old(state).owner(self.card)))
                == spec_board(*old(state), crate::gameplay::spec_opponent(old(state).owner(self.card))),
            same_but_boards(*old(state), *final(state)),
    {
        state.attach_cards_to_card(&self.attachments, self.card);
    }
}

impl Bloom {
    /// The card from the hand is attached to the member it blooms, takes its place, and gets
    /// its modifiers and damage.
    pub fn apply_state_change(&self, state: &mut GameState)
        requires
            old(state).is_registered(self.to_card),
            spec_board(*old(state), old(state).owner(self.to_card))@.can_attach(
                self.from_card,
                self.to_card,
            ),
            unique_keys(old(state).card_modifiers@),
            unique_keys(old(state).card_damage_markers@),
        ensures
            spec_board(*final(state), old(state).owner(self.to_card))@ == spec_board(
                *old(state),
                old(state).owner(self.to_card),
            )@.attached(self.from_card, self.to_card).promoted(self.from_card, self.to_card),
            spec_board(*final(state), crate::gameplay::spec_opponent(old(state).owner(self.to_card)))
                == spec_board(*old(state), crate::gameplay::spec_opponent(old(state).owner(self.to_card))),
            unique_keys(final(state).card_modifiers@),
            unique_keys(final(state).card_damage_markers@),
            ({
                let m = mods_map(old(state).card_modifiers@);
                mods_map(final(state).card_modifiers@) == if m.contains_key(self.to_card) {
                    let r = m.remove(self.to_card);
                    r.insert(self.from_card, or_empty(r, self.from_card) + m[self.to_card])
                } else {
                    m
                }
            }),
            ({
                let m = damage_map(old(state).card_damage_markers@);
                damage_map(final(state).card_damage_markers@) == if m.contains_key(self.to_card) {
                    let r = m.remove(self.to_card);
                    r.insert(
                        self.from_card,
                        saturating_add(
                            if r.contains_key(self.from_card) {
                                r[self.from_card]
                            } else {
                                0
                            },
                            m[self.to_card],
                        ),
                    )
                } else {
                    m
                }
            }),
            final(state).card_map == old(state).card_map,
            final(state).zone_modifiers == old(state).zone_modifiers,
            final(state).active_player == old(state).active_player,
            final(state).active_step == old(state).active_step,
            final(state).turn_number == old(state).turn_number,
            final(state).game_outcome == old(state).game_outcome,
    {
        let owner = state.player_for_card(self.to_card);
        match owner {
            Player::One => {
                state.player_1.attach_to_card(self.from_card, self.to_card);
                state.player_1.promote_attachment(self.from_card, self.to_card);
            },
            _ => {
                state.player_2.attach_to_card(self.from_card, self.to_card);
                state.player_2.promote_attachment(self.from_card, self.to_card);
            },
        }
        state.promote_modifiers(self.from_card, self.to_card);
        state.promote_damage_markers(self.from_card, self.to_card);
    }
}


impl Event {
    /// Applies what the event changes in the state of a game. The state that a game sends
    /// takes the place of the state; the events that only mark what happens change nothing.
    pub fn apply_to(self, state: &mut GameState)
        requires
            match self {
                Event::StartTurn(x) => {
                    &&& old(state).wf()
                    &&& mods_registered(*old(state))
                },
                Event::EndTurn(x) => {
                    &&& mods_registered(*old(state))
                },
                Event::AddCardModifiers(x) => {
                    &&& unique_keys(old(state).card_modifiers@)
                },
                Event::RemoveCardModifiers(x) => {
                    &&& unique_keys(old(state).card_modifiers@)
                },
                Event::ClearCardModifiers(x) => {
                    &&& unique_keys(old(state).card_modifiers@)
                },
                Event::AddZoneModifiers(x) => {
                    &&& punique_keys(old(state).zone_modifiers@)
                },
                Event::RemoveZoneModifiers(x) => {
                    &&& punique_keys(old(state).zone_modifiers@)
                },
                Event::AddDamageMarkers(x) => {
                    &&& unique_keys(old(state).card_damage_markers@)
                },
                Event::RemoveDamageMarkers(x) => {
                    &&& unique_keys(old(state).card_damage_markers@)
                },
                Event::ClearDamageMarkers(x) => {
                    &&& unique_keys(old(state).card_damage_markers@)
                },
                Event::SendToZone(x) => {
                    &&& can_send_cards(
                        old(state).card_map@,
                        (old(state).player_1@, old(state).player_2@),
                        x.cards@,
                        x.zone,
                        x.zone_location,
                    )
                },
                Event::AttachToCard(x) => {
                    &&& old(state).is_registered(x.card)
                    &&& can_attach_all(
                        spec_board(*old(state), old(state).owner(x.card))@,
                        x.attachments@,
                        x.card,
                    )
                },
                Event::Bloom(x) => {
                    &&& old(state).is_registered(x.to_card)
                    &&& spec_board(*old(state), old(state).owner(x.to_card))@.can_attach(
                        x.from_card,
                        x.to_card,
                    )
                    &&& unique_keys(old(state).card_modifiers@)
                    &&& unique_keys(old(state).card_damage_markers@)
                },
                _ => true,
            },
        ensures
            match self {
                Event::SyncGameState(x) => *final(state) == *x.state,
                Event::Setup(x) => {
                    &&& final(state).active_step == Step::Setup
                    &&& final(state).active_player == old(state).active_player
                    &&& final(state).turn_number == old(state).turn_number
                    &&& final(state).game_outcome == old(state).game_outcome
                    &&& final(state).player_1 == old(state).player_1
                    &&& final(state).player_2 == old(state).player_2
                    &&& final(state).card_modifiers == old(state).card_modifiers
                    &&& final(state).zone_modifiers == old(state).zone_modifiers
                    &&& final(state).card_damage_markers == old(state).card_damage_markers
                },
                Event::PlayerGoingFirst(x) => {
                    &&& *final(state) == (GameState { active_player: x.first_player, ..*old(state) })
                },
                Event::GameStart(x) => {
                    &&& *final(state) == (GameState { active_player: x.active_player, ..*old(state) })
                },
                Event::GameOver(x) => {
                    &&& *final(state) == (GameState {
                        active_step: Step::GameOver,
                        game_outcome: Some(x.game_outcome),
                        ..*old(state)
                    })
                },
                Event::StartTurn(x) => {
                    &&& final(state).wf()
                    &&& final(state).active_player == x.active_player
                    &&& final(state).turn_number == x.turn_number
                    &&& ({
                        let mid = GameState {
                            active_player: x.active_player,
                            turn_number: x.turn_number,
                            ..*old(state)
                        };
                        &&& mods_map(final(state).card_modifiers@) == mid.card_mods_started(x.active_player)
                        &&& zone_mods_map(final(state).zone_modifiers@) == if zone_mods_map(
                            old(state).zone_modifiers@,
                        ).contains_key(x.active_player) {
                            zone_mods_map(old(state).zone_modifiers@).insert(
                                x.active_player,
                                crate::state::started_zone_mods(
                                    zone_mods_map(old(state).zone_modifiers@)[x.active_player],
                                    x.active_player,
                                ),
                            )
                        } else {
                            zone_mods_map(old(state).zone_modifiers@)
                        }
                        &&& same_board_state(mid, *final(state))
                    })
                    &&& final(state).card_damage_markers == old(state).card_damage_markers
                },
                Event::EndTurn(x) => {
                    &&& *final(state) == *old(state)
                },
                Event::EnterStep(x) => {
                    &&& *final(state) == (GameState { active_step: x.active_step, ..*old(state) })
                },
                Event::AddCardModifiers(x) => {
                    &&& unique_keys(final(state).card_modifiers@)
                    &&& mods_map(final(state).card_modifiers@) == added_mods(
                        mods_map(old(state).card_modifiers@),
                        x.cards@,
                        modifier_views(x.modifiers@),
                    )
                    &&& same_board_state(*old(state), *final(state))
                    &&& final(state).zone_modifiers == old(state).zone_modifiers
                    &&& final(state).card_damage_markers == old(state).card_damage_markers
                },
                Event::RemoveCardModifiers(x) => {
                    &&& unique_keys(final(state).card_modifiers@)
                    &&& mods_map(final(state).card_modifiers@) == removed_mods(
                        mods_map(old(state).card_modifiers@),
                        x.cards@,
                        card_tokens(x.cards@, x.modifiers@).to_multiset(),
                    ).0
                    &&& same_board_state(*old(state), *final(state))
                    &&& final(state).zone_modifiers == old(state).zone_modifiers
                    &&& final(state).card_damage_markers == old(state).card_damage_markers
                },
                Event::ClearCardModifiers(x) => {
                    &&& unique_keys(final(state).card_modifiers@)
                    &&& mods_map(final(state).card_modifiers@) == cleared(
                        mods_map(old(state).card_modifiers@),
                        x.cards@,
                    )
                    &&& same_board_state(*old(state), *final(state))
                    &&& final(state).zone_modifiers == old(state).zone_modifiers
                    &&& final(state).card_damage_markers == old(state).card_damage_markers
                },
                Event::AddZoneModifiers(x) => {
                    &&& punique_keys(final(state).zone_modifiers@)
                    &&& zone_mods_map(final(state).zone_modifiers@) == zone_mods_map(
                        old(state).zone_modifiers@,
                    ).insert(
                        x.player,
                        or_empty(zone_mods_map(old(state).zone_modifiers@), x.player) + modifier_views(
                            x.modifiers@,
                        ).map_values(|m: ModifierV| (x.zone, m)),
                    )
                    &&& same_board_state(*old(state), *final(state))
                    &&& final(state).card_modifiers == old(state).card_modifiers
                    &&& final(state).card_damage_markers == old(state).card_damage_markers
                },
                Event::RemoveZoneModifiers(x) => {
                    &&& punique_keys(final(state).zone_modifiers@)
                    &&& zone_mods_map(final(state).zone_modifiers@) == zone_mods_map(
                        old(state).zone_modifiers@,
                    ).insert(
                        x.player,
                        zone_retained(
                            or_empty(zone_mods_map(old(state).zone_modifiers@), x.player),
                            x.zone,
                            x.modifiers@.to_multiset(),
                        ).0,
                    )
                    &&& same_board_state(*old(state), *final(state))
                    &&& final(state).card_modifiers == old(state).card_modifiers
                    &&& final(state).card_damage_markers == old(state).card_damage_markers
                },
                Event::AddDamageMarkers(x) => {
                    &&& unique_keys(final(state).card_damage_markers@)
                    &&& damage_map(final(state).card_damage_markers@) == changed_damage(
                        damage_map(old(state).card_damage_markers@),
                        x.cards@,
                        x.dmg.0,
                        true,
                    )
                    &&& same_board_state(*old(state), *final(state))
                    &&& final(state).zone_modifiers == old(state).zone_modifiers
                    &&& final(state).card_modifiers == old(state).card_modifiers
                },
                Event::RemoveDamageMarkers(x) => {
                    &&& unique_keys(final(state).card_damage_markers@)
                    &&& damage_map(final(state).card_damage_markers@) == changed_damage(
                        damage_map(old(state).card_damage_markers@),
                        x.cards@,
                        x.dmg.0,
                        false,
                    )
                    &&& same_board_state(*old(state), *final(state))
                    &&& final(state).zone_modifiers == old(state).zone_modifiers
                    &&& final(state).card_modifiers == old(state).card_modifiers
                },
                Event::ClearDamageMarkers(x) => {
                    &&& unique_keys(final(state).card_damage_markers@)
                    &&& damage_map(final(state).card_damage_markers@) == cleared(
                        damage_map(old(state).card_damage_markers@),
                        x.cards@,
                    )
                    &&& same_board_state(*old(state), *final(state))
                    &&& final(state).zone_modifiers == old(state).zone_modifiers
                    &&& final(state).card_modifiers == old(state).card_modifiers
                },
                Event::SendToZone(x) => {
                    &&& (final(state).player_1@, final(state).player_2@) == sent_cards(
                        old(state).card_map@,
                        (old(state).player_1@, old(state).player_2@),
                        x.cards@,
                        x.zone,
                        x.zone_location,
                    )
                    &&& same_but_boards(*old(state), *final(state))
                },
                Event::AttachToCard(x) => {
                    &&& spec_board(*final(state), old(state).owner(x.card))@ == attached_all(
                        spec_board(*old(state), old(state).owner(x.card))@,
                        x.attachments@,
                        x.card,
                    )
                    &&& spec_board(*final(state), crate::gameplay::spec_opponent(old(state).owner(x.card)))
                        == spec_board(*old(state), crate::gameplay::spec_opponent(old(state).owner(x.card)))
                    &&& same_but_boards(*old(state), *final(state))
                },
                Event::Bloom(x) => {
                    &&& spec_board(*final(state), old(state).owner(x.to_card))@ == spec_board(
                        *old(state),
                        old(state).owner(x.to_card),
                    )@.attached(x.from_card, x.to_card).promoted(x.from_card, x.to_card)
                    &&& spec_board(*final(state), crate::gameplay::spec_opponent(old(state).owner(x.to_card)))
                        == spec_board(*old(state), crate::gameplay::spec_opponent(old(state).owner(x.to_card)))
                    &&& unique_keys(final(state).card_modifiers@)
                    &&& unique_keys(final(state).card_damage_markers@)
                    &&& ({
                        let m = mods_map(old(state).card_modifiers@);
                        mods_map(final(state).card_modifiers@) == if m.contains_key(x.to_card) {
                            let r = m.remove(x.to_card);
                            r.insert(x.from_card, or_empty(r, x.from_card) + m[x.to_card])
                        } else {
                            m
                        }
                    })
                    &&& ({
                        let m = damage_map(old(state).card_damage_markers@);
                        damage_map(final(state).card_damage_markers@) == if m.contains_key(x.to_card) {
                            let r = m.remove(x.to_card);
                            r.insert(
                                x.from_card,
                                saturating_add(
                                    if r.contains_key(x.from_card) {
                                        r[x.from_card]
                                    } else {
                                        0
                                    },
                                    m[x.to_card],
                                ),
                            )
                        } else {
                            m
                        }
                    })
                    &&& final(state).card_map == old(state).card_map
                    &&& final(state).zone_modifiers == old(state).zone_modifiers
                    &&& final(state).active_player == old(state).active_player
                    &&& final(state).active_step == old(state).active_step
                    &&& final(state).turn_number == old(state).turn_number
                    &&& final(state).game_outcome == old(state).game_outcome
                },
                _ => *final(state) == *old(state),
            },
    {
        match self {
            Event::SyncGameState(x) => {
                *state = *x.state;
            },
            Event::Setup(x) => x.apply_state_change(state),
            Event::PlayerGoingFirst(x) => x.apply_state_change(state),
            Event::GameStart(x) => x.apply_state_change(state),
            Event::GameOver(x) => x.apply_state_change(state),
            Event::StartTurn(x) => x.apply_state_change(state),
            Event::EndTurn(x) => x.apply_state_change(state),
            Event::EnterStep(x) => x.apply_state_change(state),
            Event::AddCardModifiers(x) => x.apply_state_change(state),
            Event::RemoveCardModifiers(x) => x.apply_state_change(state),
            Event::ClearCardModifiers(x) => x.apply_state_change(state),
            Event::AddZoneModifiers(x) => x.apply_state_change(state),
            Event::RemoveZoneModifiers(x) => x.apply_state_change(state),
            Event::AddDamageMarkers(x) => x.apply_state_change(state),
            Event::RemoveDamageMarkers(x) => x.apply_state_change(state),
            Event::ClearDamageMarkers(x) => x.apply_state_change(state),
            Event::SendToZone(x) => x.apply_state_change(state),
            Event::AttachToCard(x) => x.apply_state_change(state),
            Event::Bloom(x) => x.apply_state_change(state),
            _ => {},
        }
    }
}

} // verus!
