use vstd::prelude::*;

use crate::hex::{hex4, lemma_hex4_round_trip, parse_hex_from, push_hex4, skip_prefixes, spec_parse_hex, trim_start_prefix};
use crate::card_effects::parse::push_char;

verus! {

pub const STARTING_HAND_SIZE: usize = 7;

pub const MAX_MEMBERS_ON_STAGE: usize = 6;

/// A card in a game. The number holds who owns the card, the kind of place it was dealt to,
/// and the order in which it was dealt.
#[derive(Debug, Clone, Copy, PartialEq, Eq, Structural, PartialOrd, Ord, Hash)]
pub struct CardRef(pub u16);

/// The text of a card: `c_` and four lower-case hex digits.
pub open spec fn card_ref_text(c: CardRef) -> Seq<char> {
    seq!['c', '_'] + hex4(c.0)
}

/// The number that a card text holds, once every leading `c_` is dropped.
pub open spec fn card_ref_number(s: Seq<char>) -> Option<u16> {
    spec_parse_hex(trim_start_prefix(s, seq!['c', '_']))
}

impl CardRef {
    /// The text of the card.
    pub fn to_text(&self) -> (res: String)
        ensures
            res@ == card_ref_text(*self),
    {
        let mut s = String::new();
        push_char(&mut s, 'c');
        push_char(&mut s, '_');
        push_hex4(&mut s, self.0);
        assert(s@ =~= card_ref_text(*self));
        s
    }

    /// Reads a card from its text. The number must be a hex number other than 0.
    pub fn from_text(value: &str) -> (res: CardRef)
        requires
            card_ref_number(value@) matches Some(n) && n != 0,
        ensures
            card_ref_number(value@) == Some(res.0),
    {
        proof {
            reveal_strlit("c_");
        }
        let start = skip_prefixes(value, "c_");
        assert("c_"@ =~= seq!['c', '_']);
        match parse_hex_from(value, start) {
            Some(n) => CardRef(n),
            None => CardRef(1),
        }
    }
}

/// A text with a hex digit or a `+` at its start has no leading `c_` or `m_`.
pub proof fn lemma_trim_hex4(n: u16, c: char)
    ensures
        trim_start_prefix(seq![c, '_'] + hex4(n), seq![c, '_']) == hex4(n),
{
    let p = seq![c, '_'];
    let s = p + hex4(n);
    assert(s.take(2) =~= p);
    assert(s.skip(2) =~= hex4(n));
    assert(hex4(n)[1] != '_');
    assert(hex4(n).take(2)[1] != p[1]);
    assert(trim_start_prefix(hex4(n), p) == hex4(n));
    assert(trim_start_prefix(s, p) == trim_start_prefix(s.skip(2), p));
}

/// Reading the text of a card gives the card back.
pub proof fn lemma_card_ref_round_trip(c: CardRef)
    ensures
        card_ref_number(card_ref_text(c)) == Some(c.0),
{
    lemma_trim_hex4(c.0, 'c');
    lemma_hex4_round_trip(c.0);
}

/// The card that stands for a card that a player may not see.
pub fn private_card() -> (res: CardRef)
    ensures
        res.0 == 0xffff,
{
    CardRef(0xffff)
}

/// The two sides of a game; `Both` is only used to address both players at once.
#[derive(Debug, Clone, Copy, PartialEq, Eq, Structural)]
pub enum Player {
    One,
    Two,
    Both,
}

impl Player {
    /// The other player. Only `One` and `Two` have an opponent.
    pub fn opponent(self) -> (res: Player)
        requires
            self != Player::Both,
        ensures
            res == spec_opponent(self),
    {
        match self {
            Player::One => Player::Two,
            Player::Two => Player::One,
            Player::Both => Player::One,
        }
    }
}

pub open spec fn spec_opponent(p: Player) -> Player {
    match p {
        Player::One => Player::Two,
        _ => Player::One,
    }
}

/// The number of a player in a card number.
pub open spec fn player_index(p: Player) -> u16 {
    match p {
        Player::One => 0,
        Player::Two => 1,
        Player::Both => 2,
    }
}

pub fn player_number(p: Player) -> (res: u16)
    ensures
        res == player_index(p),
{
    match p {
        Player::One => 0,
        Player::Two => 1,
        Player::Both => 2,
    }
}

/// The marker that a game goes on.
#[derive(Debug, Clone, Copy, PartialEq, Eq, Structural)]
pub struct GameContinue;

/// Who won a game, and why.
#[derive(Debug, Clone, Copy, PartialEq, Eq, Structural)]
pub struct GameOutcome {
    pub winning_player: Option<Player>,
    pub reason: GameOverReason,
}

#[derive(Debug, Clone, Copy, PartialEq, Eq, Structural)]
pub enum GameOverReason {
    MulliganToZeroCards,
    EmptyDeckInDrawStep,
    EmptyStage,
    EmptyLife,
    Draw,
}

/// The places of a board. `All`, `Stage` and `MainStage` group other zones.
#[derive(Debug, Clone, Copy, PartialEq, Eq, Structural)]
pub enum Zone {
    All,
    MainDeck,
    Oshi,
    /// holds MainStage and BackStage
    Stage,
    /// holds CenterStage and Collab
    MainStage,
    CenterStage,
    Collab,
    BackStage,
    Life,
    CheerDeck,
    HoloPower,
    Archive,
    Hand,
    ActivateSupport,
}

/// The zones where cards are kept, as opposed to those that group others.
pub open spec fn is_storage_zone(z: Zone) -> bool {
    z != Zone::All && z != Zone::Stage && z != Zone::MainStage
}

/// The zones that hold at most one card.
pub open spec fn is_single_zone(z: Zone) -> bool {
    z == Zone::Oshi || z == Zone::CenterStage || z == Zone::Collab
}

pub open spec fn spec_includes(a: Zone, b: Zone) -> bool {
    ||| a == b
    ||| a == Zone::All
    ||| a == Zone::Stage && (b == Zone::MainStage || b == Zone::CenterStage || b == Zone::Collab
        || b == Zone::BackStage)
    ||| a == Zone::MainStage && (b == Zone::CenterStage || b == Zone::Collab)
}

impl Zone {
    /// Whether this zone is `zone` or holds it.
    pub fn includes(&self, zone: Zone) -> (res: bool)
        ensures
            res == spec_includes(*self, zone),
    {
        if *self == zone {
            return true;
        }
        match self {
            Zone::All => true,
            Zone::Stage => matches!(
                zone,
                Zone::MainStage | Zone::CenterStage | Zone::Collab | Zone::BackStage
            ),
            Zone::MainStage => matches!(zone, Zone::CenterStage | Zone::Collab),
            _ => false,
        }
    }

    /// Where a card sent to this zone goes by default.
    pub fn default_add_location(&self) -> (res: ZoneAddLocation)
        requires
            is_storage_zone(*self),
        ensures
            res == spec_default_add_location(*self),
    {
        match self {
            Zone::MainDeck => ZoneAddLocation::Bottom,
            Zone::BackStage => ZoneAddLocation::Bottom,
            Zone::CheerDeck => ZoneAddLocation::Bottom,
            Zone::Hand => ZoneAddLocation::Bottom,
            _ => ZoneAddLocation::Top,
        }
    }
}

pub open spec fn spec_default_add_location(z: Zone) -> ZoneAddLocation {
    if z == Zone::MainDeck || z == Zone::BackStage || z == Zone::CheerDeck || z == Zone::Hand {
        ZoneAddLocation::Bottom
    } else {
        ZoneAddLocation::Top
    }
}

#[derive(Debug, Clone, Copy, PartialEq, Eq, Structural)]
pub enum ZoneAddLocation {
    Top,
    Bottom,
}

/// The steps of a turn.
#[derive(Debug, Clone, Copy, PartialEq, Eq, Structural)]
pub enum Step {
    Setup,
    Reset,
    Draw,
    Cheer,
    Main,
    Performance,
    End,
    GameOver,
}

#[derive(Debug, Clone, Copy, PartialEq, Eq, Structural)]
pub enum Rps {
    Rock,
    Paper,
    Scissor,
}

#[derive(Debug, Clone, Copy, PartialEq, Eq, Structural)]
pub enum RpsOutcome {
    Win,
    Lose,
    Draw,
}

/// Rock beats scissor, scissor beats paper, paper beats rock.
pub open spec fn beats(a: Rps, b: Rps) -> bool {
    (a == Rps::Rock && b == Rps::Scissor) || (a == Rps::Scissor && b == Rps::Paper) || (a
        == Rps::Paper && b == Rps::Rock)
}

impl Rps {
    /// The outcome of this choice against the other one.
    pub fn vs(&self, other: Rps) -> (res: RpsOutcome)
        ensures
            res == (if beats(*self, other) {
                RpsOutcome::Win
            } else if beats(other, *self) {
                RpsOutcome::Lose
            } else {
                RpsOutcome::Draw
            }),
    {
        match (self, other) {
            (Rps::Rock, Rps::Rock) => RpsOutcome::Draw,
            (Rps::Rock, Rps::Paper) => RpsOutcome::Lose,
            (Rps::Rock, Rps::Scissor) => RpsOutcome::Win,
            (Rps::Paper, Rps::Rock) => RpsOutcome::Win,
            (Rps::Paper, Rps::Paper) => RpsOutcome::Draw,
            (Rps::Paper, Rps::Scissor) => RpsOutcome::Lose,
            (Rps::Scissor, Rps::Rock) => RpsOutcome::Lose,
            (Rps::Scissor, Rps::Paper) => RpsOutcome::Win,
            (Rps::Scissor, Rps::Scissor) => RpsOutcome::Draw,
        }
    }
}

/// Playing the same choices the other way round turns a win into a loss.
pub proof fn lemma_rps_antisymmetric(a: Rps, b: Rps)
    ensures
        beats(a, b) ==> !beats(b, a),
        a == b ==> !beats(a, b),
        a != b ==> (beats(a, b) || beats(b, a)),
{
}

/// What a player can do in the main step.
#[derive(Debug, Clone, Copy, PartialEq, Eq, Structural, PartialOrd, Ord)]
pub enum MainStepAction {
    BackStageMember(CardRef),
    BloomMember(CardRef),
    UseSupportCard(CardRef),
    CollabMember(CardRef),
    BatonPass(CardRef),
    UseOshiSkill(CardRef, usize),
    Done,
}

/// What a player can do in the performance step.
#[derive(Debug, Clone, Copy, PartialEq, Eq, Structural, PartialOrd, Ord)]
pub enum PerformanceStepAction {
    UseArt { card: CardRef, art_idx: usize, target: CardRef },
    Done,
}

} // verus!
