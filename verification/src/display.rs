use vstd::prelude::*;

use crate::card_effects::effects::Color;
use crate::card_effects::parse::{decimal, usize_to_string};
use crate::cards::{Card, HoloMemberArtDamage, HoloMemberLevel, SupportKind};
use crate::gameplay::{card_ref_text, CardRef, MainStepAction, PerformanceStepAction};
use crate::library::GlobalLibrary;
use crate::state::{card_damage, GameState};

verus! {

// ------------------------------------------------------------------
// names of the plain kinds, as they print
// ------------------------------------------------------------------

pub open spec fn color_name(c: Color) -> Seq<char> {
    match c {
        Color::White => "White"@,
        Color::Green => "Green"@,
        Color::Red => "Red"@,
        Color::Blue => "Blue"@,
        Color::Purple => "Purple"@,
        Color::Yellow => "Yellow"@,
        Color::Colorless => "Colorless"@,
    }
}

pub fn color_text(c: Color) -> (res: &'static str)
    ensures
        res@ == color_name(c),
{
    match c {
        Color::White => "White",
        Color::Green => "Green",
        Color::Red => "Red",
        Color::Blue => "Blue",
        Color::Purple => "Purple",
        Color::Yellow => "Yellow",
        Color::Colorless => "Colorless",
    }
}

pub open spec fn level_name(l: HoloMemberLevel) -> Seq<char> {
    match l {
        HoloMemberLevel::Spot => "Spot"@,
        HoloMemberLevel::Debut => "Debut"@,
        HoloMemberLevel::First => "First"@,
        HoloMemberLevel::Second => "Second"@,
    }
}

fn level_text(l: HoloMemberLevel) -> (res: &'static str)
    ensures
        res@ == level_name(l),
{
    match l {
        HoloMemberLevel::Spot => "Spot",
        HoloMemberLevel::Debut => "Debut",
        HoloMemberLevel::First => "First",
        HoloMemberLevel::Second => "Second",
    }
}

pub open spec fn support_kind_name(k: SupportKind) -> Seq<char> {
    match k {
        SupportKind::Staff => "Staff"@,
        SupportKind::Item => "Item"@,
        SupportKind::Event => "Event"@,
        SupportKind::Tool => "Tool"@,
        SupportKind::Mascot => "Mascot"@,
        SupportKind::Fan => "Fan"@,
    }
}

fn support_kind_text(k: SupportKind) -> (res: &'static str)
    ensures
        res@ == support_kind_name(k),
{
    match k {
        SupportKind::Staff => "Staff",
        SupportKind::Item => "Item",
        SupportKind::Event => "Event",
        SupportKind::Tool => "Tool",
        SupportKind::Mascot => "Mascot",
        SupportKind::Fan => "Fan",
    }
}

/// The damage of an art as it prints: its kind, and its number in brackets.
pub open spec fn art_damage_name(d: HoloMemberArtDamage) -> Seq<char> {
    match d {
        HoloMemberArtDamage::Basic(n) => "Basic("@ + decimal(n as nat) + ")"@,
        HoloMemberArtDamage::Plus(n) => "Plus("@ + decimal(n as nat) + ")"@,
        HoloMemberArtDamage::Minus(n) => "Minus("@ + decimal(n as nat) + ")"@,
        HoloMemberArtDamage::Multiple(n) => "Multiple("@ + decimal(n as nat) + ")"@,
        HoloMemberArtDamage::Uncertain => "Uncertain"@,
    }
}

pub fn art_damage_text(d: HoloMemberArtDamage) -> (res: String)
    ensures
        res@ == art_damage_name(d),
{
    let (kind, n) = match d {
        HoloMemberArtDamage::Basic(n) => ("Basic(", n),
        HoloMemberArtDamage::Plus(n) => ("Plus(", n),
        HoloMemberArtDamage::Minus(n) => ("Minus(", n),
        HoloMemberArtDamage::Multiple(n) => ("Multiple(", n),
        HoloMemberArtDamage::Uncertain => {
            return String::from_str("Uncertain");
        },
    };
    let mut out = String::from_str(kind);
    let num = usize_to_string(n as usize);
    out.append(num.as_str());
    out.append(")");
    out
}

/// The names of the colors, parted by a comma and a space.
pub open spec fn colors_name(cs: Seq<Color>) -> Seq<char>
    decreases cs.len(),
{
    if cs.len() == 0 {
        Seq::empty()
    } else if cs.len() == 1 {
        color_name(cs[0])
    } else {
        colors_name(cs.drop_last()) + ", "@ + color_name(cs.last())
    }
}

pub fn colors_text(cs: &[Color]) -> (res: String)
    ensures
        res@ == colors_name(cs@),
{
    let mut out = String::new();
    let mut i: usize = 0;
    while i < cs.len()
        invariant
            0 <= i <= cs@.len(),
            out@ == colors_name(cs@.take(i as int)),
        decreases cs@.len() - i,
    {
        proof {
            assert(cs@.take(i + 1).drop_last() =~= cs@.take(i as int));
        }
        if i > 0 {
            out.append(", ");
        }
        out.append(color_text(cs[i]));
        i = i + 1;
    }
    proof {
        assert(cs@.take(cs@.len() as int) =~= cs@);
    }
    out
}

// ------------------------------------------------------------------
// a card, as a player sees it
// ------------------------------------------------------------------

/// The colors of the cheer cards among the cards, in order.
pub open spec fn cheer_color_list(s: GameState, lib: GlobalLibrary, cards: Seq<CardRef>) -> Seq<
    Color,
>
    decreases cards.len(),
{
    if cards.len() == 0 {
        Seq::empty()
    } else {
        let rest = cheer_color_list(s, lib, cards.drop_last());
        match s.card_of(&lib, cards.last()) {
            Card::Cheer(ch) => rest.push(ch.color),
            _ => rest,
        }
    }
}

/// The cheer cards attached to a card.
pub open spec fn spec_attached_cheers(s: GameState, lib: GlobalLibrary, c: CardRef) -> Seq<CardRef> {
    s.spec_attachments(c).filter(|a: CardRef| s.card_of(&lib, a) is Cheer)
}

/// What a member shows of its cheers: nothing without one, else their colors.
pub open spec fn cheers_name(s: GameState, lib: GlobalLibrary, c: CardRef) -> Seq<char> {
    let cheers = spec_attached_cheers(s, lib, c);
    if cheers.len() > 0 {
        " (cheers: "@ + colors_name(cheer_color_list(s, lib, cheers)) + ")"@
    } else {
        Seq::empty()
    }
}

/// The hp that a member has left, as its damage markers count it.
pub open spec fn hp_remaining(s: GameState, hp: u16, c: CardRef) -> nat {
    let dmg = (card_damage(s.card_damage_markers@, c) % 0x10000) * 10;
    if hp < dmg {
        0
    } else {
        (hp - dmg) as nat
    }
}

/// What a card shows: its name, what kind of card it is, its number and its reference; an
/// oshi also its life (the life left prints as -1), a member its level, its hp and its
/// cheers.
pub open spec fn card_name_text(s: GameState, lib: GlobalLibrary, c: CardRef) -> Seq<char> {
    match s.card_of(&lib, c) {
        Card::OshiHoloMember(o) => o.name@ + " (Oshi) (-1/"@ + decimal(o.life as nat)
            + " life) ("@ + o.card_number@ + ") "@ + card_ref_text(c),
        Card::HoloMember(m) => m.name@ + " ("@ + level_name(m.level) + ") ("@ + decimal(
            hp_remaining(s, m.hp, c),
        ) + "/"@ + decimal(m.hp as nat) + ")"@ + cheers_name(s, lib, c) + " ("@ + m.card_number@
            + ") "@ + card_ref_text(c),
        Card::Support(su) => su.name@ + " ("@ + support_kind_name(su.kind) + ") ("@
            + su.card_number@ + ") "@ + card_ref_text(c),
        Card::Cheer(ch) => ch.name@ + " ("@ + color_name(ch.color) + ") ("@ + ch.card_number@
            + ") "@ + card_ref_text(c),
    }
}

/// What a card needs to be shown: to be in the library; a member also to be on a board, with
/// every card attached to it in the library, and with a damage whose hp fits.
pub open spec fn can_show(s: GameState, lib: GlobalLibrary, c: CardRef) -> bool {
    &&& s.in_library(&lib, c)
    &&& s.card_of(&lib, c) is HoloMember ==> {
        &&& s.is_registered(c)
        &&& forall|i: int|
            0 <= i < s.spec_attachments(c).len() ==> s.in_library(
                &lib,
                #[trigger] s.spec_attachments(c)[i],
            )
        &&& (card_damage(s.card_damage_markers@, c) % 0x10000) * 10 <= u16::MAX
    }
}

proof fn lemma_cheers_in_library(s: GameState, lib: GlobalLibrary, c: CardRef)
    requires
        can_show(s, lib, c),
        s.card_of(&lib, c) is HoloMember,
    ensures
        forall|j: int|
            0 <= j < spec_attached_cheers(s, lib, c).len() ==> s.in_library(
                &lib,
                #[trigger] spec_attached_cheers(s, lib, c)[j],
            ),
{
    let atts = s.spec_attachments(c);
    let all = spec_attached_cheers(s, lib, c);
    assert forall|j: int| 0 <= j < all.len() implies s.in_library(&lib, #[trigger] all[j]) by {
        assert(all.contains(all[j]));
        atts.lemma_filter_contains_rev(|a: CardRef| s.card_of(&lib, a) is Cheer, all[j]);
        let k = choose|k: int| 0 <= k < atts.len() && atts[k] == all[j];
        assert(s.in_library(&lib, atts[k]));
    }
}

#[verifier::spinoff_prover]
#[verifier::rlimit(40)]
fn cheer_colors_exec(game: &GameState, library: &GlobalLibrary, cheers: &Vec<CardRef>) -> (res: Vec<
    Color,
>)
    requires
        forall|j: int| 0 <= j < cheers@.len() ==> game.in_library(library, #[trigger] cheers@[j]),
    ensures
        res@ == cheer_color_list(*game, *library, cheers@),
{
    let mut colors: Vec<Color> = Vec::new();
    let mut i: usize = 0;
    while i < cheers.len()
        invariant
            0 <= i <= cheers@.len(),
            forall|j: int| 0 <= j < cheers@.len() ==> game.in_library(library, #[trigger] cheers@[j]),
            colors@ == cheer_color_list(*game, *library, cheers@.take(i as int)),
        decreases cheers@.len() - i,
    {
        proof {
            assert(cheers@.take(i + 1).drop_last() =~= cheers@.take(i as int));
            assert(cheers@.take(i + 1).last() == cheers@[i as int]);
        }
        match game.lookup_cheer(library, cheers[i]) {
            Some(ch) => {
                colors.push(ch.color);
            },
            None => {},
        }
        i = i + 1;
    }
    proof {
        assert(cheers@.take(cheers@.len() as int) =~= cheers@);
    }
    colors
}

#[verifier::spinoff_prover]
fn cheers_text(game: &GameState, library: &GlobalLibrary, card: CardRef) -> (res: String)
    requires
        can_show(*game, *library, card),
        game.card_of(library, card) is HoloMember,
    ensures
        res@ == cheers_name(*game, *library, card),
{
    let cheers = game.attached_cheers(library, card);
    proof {
        lemma_cheers_in_library(*game, *library, card);
        assert(cheers@ =~= spec_attached_cheers(*game, *library, card));
    }
    let colors = cheer_colors_exec(game, library, &cheers);
    if cheers.len() > 0 {
        let mut out = String::from_str(" (cheers: ");
        let names = colors_text(colors.as_slice());
        out.append(names.as_str());
        out.append(")");
        out
    } else {
        String::new()
    }
}

fn card_text(game: &GameState, library: &GlobalLibrary, card: CardRef) -> (res: String)
    requires
        can_show(*game, *library, card),
    ensures
        res@ == card_name_text(*game, *library, card),
{
    let reference = card.to_text();
    let mut out = String::new();
    match game.lookup_card(library, card) {
        Card::OshiHoloMember(o) => {
            out.append(o.name.as_str());
            out.append(" (Oshi) (-1/");
            out.append(usize_to_string(o.life as usize).as_str());
            out.append(" life) (");
            out.append(o.card_number.as_str());
        },
        Card::HoloMember(m) => {
            out.append(m.name.as_str());
            out.append(" (");
            out.append(level_text(m.level));
            out.append(") (");
            let left = game.remaining_hp(library, card);
            out.append(usize_to_string(left as usize).as_str());
            out.append("/");
            out.append(usize_to_string(m.hp as usize).as_str());
            out.append(")");
            out.append(cheers_text(game, library, card).as_str());
            out.append(" (");
            out.append(m.card_number.as_str());
        },
        Card::Support(su) => {
            out.append(su.name.as_str());
            out.append(" (");
            out.append(support_kind_text(su.kind));
            out.append(") (");
            out.append(su.card_number.as_str());
        },
        Card::Cheer(ch) => {
            out.append(ch.name.as_str());
            out.append(" (");
            out.append(color_text(ch.color));
            out.append(") (");
            out.append(ch.card_number.as_str());
        },
    }
    out.append(") ");
    out.append(reference.as_str());
    out
}

/// A card with the text that shows it.
#[derive(Debug, Clone, PartialEq, Eq)]
pub struct CardDisplay {
    pub card: CardRef,
    pub text: String,
}

impl View for CardDisplay {
    type V = Seq<char>;

    open spec fn view(&self) -> Seq<char> {
        self.text@
    }
}

impl CardDisplay {
    pub fn new(card: CardRef, game: &GameState, library: &GlobalLibrary) -> (res: CardDisplay)
        requires
            can_show(*game, *library, card),
        ensures
            res.card == card,
            res@ == card_name_text(*game, *library, card),
    {
        CardDisplay { card, text: card_text(game, library, card) }
    }

    /// The text that shows the card.
    pub fn to_string(&self) -> (res: String)
        ensures
            res@ == self@,
    {
        self.text.clone()
    }
}

// ------------------------------------------------------------------
// an art, and what a player can do
// ------------------------------------------------------------------

/// What an art shows: its name, its damage, its cost, and the number and reference of the
/// member that has it.
pub open spec fn art_name_text(s: GameState, lib: GlobalLibrary, c: CardRef, idx: int) -> Seq<
    char,
> {
    let m = s.card_of(&lib, c)->HoloMember_0;
    let art = m.arts@[idx];
    art.name@ + " ("@ + art_damage_name(art.damage) + ") ("@ + colors_name(art.cost@) + ") ("@
        + m.card_number@ + ") "@ + card_ref_text(c)
}

/// What an art needs to be shown: a member in the library that has it.
pub open spec fn can_show_art(s: GameState, lib: GlobalLibrary, c: CardRef, idx: int) -> bool {
    &&& s.in_library(&lib, c)
    &&& s.card_of(&lib, c) is HoloMember
    &&& 0 <= idx < s.card_of(&lib, c)->HoloMember_0.arts@.len()
}

fn art_text(game: &GameState, library: &GlobalLibrary, card: CardRef, idx: usize) -> (res: String)
    requires
        can_show_art(*game, *library, card, idx as int),
    ensures
        res@ == art_name_text(*game, *library, card, idx as int),
{
    let reference = card.to_text();
    let mut out = String::new();
    match game.lookup_holo_member(library, card) {
        Some(m) => {
            let art = &m.arts[idx];
            out.append(art.name.as_str());
            out.append(" (");
            out.append(art_damage_text(art.damage).as_str());
            out.append(") (");
            out.append(colors_text(art.cost.as_slice()).as_str());
            out.append(") (");
            out.append(m.card_number.as_str());
        },
        None => {},
    }
    out.append(") ");
    out.append(reference.as_str());
    out
}

/// An art of a member with the text that shows it.
#[derive(Debug, Clone, PartialEq, Eq)]
pub struct ArtDisplay {
    card: CardRef,
    idx: usize,
    text: String,
}

impl View for ArtDisplay {
    type V = Seq<char>;

    closed spec fn view(&self) -> Seq<char> {
        self.text@
    }
}

impl ArtDisplay {
    /// The member that has the art.
    pub closed spec fn spec_card(&self) -> CardRef {
        self.card
    }

    /// The place of the art among the member's arts.
    pub closed spec fn spec_idx(&self) -> usize {
        self.idx
    }

    pub fn new(card: CardRef, idx: usize, game: &GameState, library: &GlobalLibrary) -> (res:
        ArtDisplay)
        requires
            can_show_art(*game, *library, card, idx as int),
        ensures
            res.spec_card() == card,
            res.spec_idx() == idx,
            res@ == art_name_text(*game, *library, card, idx as int),
    {
        ArtDisplay { card, idx, text: art_text(game, library, card, idx) }
    }

    /// The text that shows the art.
    pub fn to_string(&self) -> (res: String)
        ensures
            res@ == self@,
    {
        self.text.clone()
    }
}

/// What an action of the main step shows: what it does, and the card it does it with.
pub open spec fn main_action_name(s: GameState, lib: GlobalLibrary, a: MainStepAction) -> Seq<
    char,
> {
    match a {
        MainStepAction::BackStageMember(c) => "put on back stage: "@ + card_name_text(s, lib, c),
        MainStepAction::BloomMember(c) => "bloom member with: "@ + card_name_text(s, lib, c),
        MainStepAction::UseSupportCard(c) => "use support: "@ + card_name_text(s, lib, c),
        MainStepAction::CollabMember(c) => "move to collab: "@ + card_name_text(s, lib, c),
        MainStepAction::BatonPass(c) => "baton pass (retreat): "@ + card_name_text(s, lib, c),
        MainStepAction::UseOshiSkill(c, idx) => {
            let skill = s.card_of(&lib, c)->OshiHoloMember_0.skills@[idx as int];
            "use skill: [-"@ + decimal(skill.cost as nat) + "] "@ + skill.name@ + " - "@
                + card_name_text(s, lib, c)
        },
        MainStepAction::Done => "done"@,
    }
}

/// What an action of the main step needs to be shown: its card can be shown, and a skill
/// is one of the oshi's.
pub open spec fn can_show_main_action(s: GameState, lib: GlobalLibrary, a: MainStepAction) -> bool {
    match a {
        MainStepAction::BackStageMember(c) => can_show(s, lib, c),
        MainStepAction::BloomMember(c) => can_show(s, lib, c),
        MainStepAction::UseSupportCard(c) => can_show(s, lib, c),
        MainStepAction::CollabMember(c) => can_show(s, lib, c),
        MainStepAction::BatonPass(c) => can_show(s, lib, c),
        MainStepAction::UseOshiSkill(c, idx) => {
            &&& can_show(s, lib, c)
            &&& s.card_of(&lib, c) is OshiHoloMember
            &&& idx < s.card_of(&lib, c)->OshiHoloMember_0.skills@.len()
        },
        MainStepAction::Done => true,
    }
}

fn main_action_text(game: &GameState, library: &GlobalLibrary, action: MainStepAction) -> (res:
    String)
    requires
        can_show_main_action(*game, *library, action),
    ensures
        res@ == main_action_name(*game, *library, action),
{
    let (what, card) = match action {
        MainStepAction::BackStageMember(c) => ("put on back stage: ", c),
        MainStepAction::BloomMember(c) => ("bloom member with: ", c),
        MainStepAction::UseSupportCard(c) => ("use support: ", c),
        MainStepAction::CollabMember(c) => ("move to collab: ", c),
        MainStepAction::BatonPass(c) => ("baton pass (retreat): ", c),
        MainStepAction::UseOshiSkill(c, idx) => {
            let shown = card_text(game, library, c);
            let mut out = String::from_str("use skill: [-");
            match game.lookup_oshi(library, c) {
                Some(o) => {
                    let skill = &o.skills[idx];
                    out.append(usize_to_string(skill.cost as usize).as_str());
                    out.append("] ");
                    out.append(skill.name.as_str());
                },
                None => {},
            }
            out.append(" - ");
            out.append(shown.as_str());
            return out;
        },
        MainStepAction::Done => {
            return String::from_str("done");
        },
    };
    let mut out = String::from_str(what);
    out.append(card_text(game, library, card).as_str());
    out
}

/// An action of the main step with the text that shows it.
#[derive(Debug, Clone, PartialEq, Eq, PartialOrd, Ord)]
pub struct MainStepActionDisplay {
    pub action: MainStepAction,
    pub text: String,
}

impl View for MainStepActionDisplay {
    type V = Seq<char>;

    open spec fn view(&self) -> Seq<char> {
        self.text@
    }
}

impl MainStepActionDisplay {
    pub fn new(action: MainStepAction, game: &GameState, library: &GlobalLibrary) -> (res:
        MainStepActionDisplay)
        requires
            can_show_main_action(*game, *library, action),
        ensures
            res.action == action,
            res@ == main_action_name(*game, *library, action),
    {
        MainStepActionDisplay { action, text: main_action_text(game, library, action) }
    }

    /// The text that shows the action.
    pub fn to_string(&self) -> (res: String)
        ensures
            res@ == self@,
    {
        self.text.clone()
    }
}

/// What an action of the performance step shows: the art, and the card it aims at.
pub open spec fn art_action_name(s: GameState, lib: GlobalLibrary, a: PerformanceStepAction) -> Seq<
    char,
> {
    match a {
        PerformanceStepAction::UseArt { card, art_idx, target } => art_name_text(
            s,
            lib,
            card,
            art_idx as int,
        ) + " -> "@ + card_name_text(s, lib, target),
        PerformanceStepAction::Done => "done"@,
    }
}

/// What an action of the performance step needs to be shown: its art and its target can be
/// shown.
pub open spec fn can_show_art_action(s: GameState, lib: GlobalLibrary, a: PerformanceStepAction) -> bool {
    match a {
        PerformanceStepAction::UseArt { card, art_idx, target } => can_show_art(
            s,
            lib,
            card,
            art_idx as int,
        ) && can_show(s, lib, target),
        PerformanceStepAction::Done => true,
    }
}

/// An action of the performance step with the text that shows it.
#[derive(Debug, Clone, PartialEq, Eq, PartialOrd, Ord)]
pub struct PerformanceStepActionDisplay {
    pub action: PerformanceStepAction,
    pub text: String,
}

impl View for PerformanceStepActionDisplay {
    type V = Seq<char>;

    open spec fn view(&self) -> Seq<char> {
        self.text@
    }
}

impl PerformanceStepActionDisplay {
    pub fn new(action: PerformanceStepAction, game: &GameState, library: &GlobalLibrary) -> (res:
        PerformanceStepActionDisplay)
        requires
            can_show_art_action(*game, *library, action),
        ensures
            res.action == action,
            res@ == art_action_name(*game, *library, action),
    {
        let text = match action {
            PerformanceStepAction::UseArt { card, art_idx, target } => {
                let mut out = art_text(game, library, card, art_idx);
                out.append(" -> ");
                out.append(card_text(game, library, target).as_str());
                out
            },
            PerformanceStepAction::Done => String::from_str("done"),
        };
        PerformanceStepActionDisplay { action, text }
    }

    /// The text that shows the action.
    pub fn to_string(&self) -> (res: String)
        ensures
            res@ == self@,
    {
        self.text.clone()
    }
}

} // verus!
