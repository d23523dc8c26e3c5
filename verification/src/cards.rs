use vstd::prelude::*;

pub use crate::card_effects::effects::Color;
use crate::card_effects::effects::{Action, Condition};
use crate::card_effects::parse::{
    decimal, lemma_decimal_round_trip, parse_usize, push_char, spec_parse_usize, usize_to_string,
};
use crate::card_effects::trigger::Trigger;

verus! {

/// A card: an oshi, a member, a support card or a cheer.
#[derive(Debug)]
pub enum Card {
    OshiHoloMember(OshiHoloMemberCard),
    HoloMember(HoloMemberCard),
    Support(SupportCard),
    Cheer(CheerCard),
}

#[derive(Debug, Clone, Copy, PartialEq, Eq, Structural)]
pub enum Rarity {
    OshiSuperRare,
    DoubleRare,
    Rare,
    Uncommon,
    Common,
    Secret,
    OshiUltraRare,
    UltraRare,
}

#[derive(Debug)]
pub struct OshiHoloMemberCard {
    pub card_number: String,
    pub name: String,
    pub color: Color,
    pub life: u8,
    pub skills: Vec<OshiSkill>,
    pub rarity: Rarity,
    pub illustration_url: String,
    pub artist: String,
}

#[derive(Debug)]
pub struct OshiSkill {
    pub kind: OshiSkillKind,
    pub name: String,
    pub cost: u8,
    pub text: String,
    pub triggers: Vec<Trigger>,
    pub condition: Vec<Condition>,
    pub effect: Vec<Action>,
}

#[derive(Debug, Clone, Copy, PartialEq, Eq, Structural)]
pub enum OshiSkillKind {
    Normal,
    Special,
}

#[derive(Debug)]
pub struct HoloMemberCard {
    pub card_number: String,
    pub name: String,
    pub colors: Vec<Color>,
    pub hp: u16,
    pub level: HoloMemberLevel,
    pub hash_tags: Vec<HoloMemberHashTag>,
    pub baton_pass_cost: u8,
    pub abilities: Vec<HoloMemberAbility>,
    pub arts: Vec<HoloMemberArt>,
    pub attributes: Vec<HoloMemberExtraAttribute>,
    pub rarity: Rarity,
    pub illustration_url: String,
    pub artist: String,
}

/// The level of a member, lowest first.
#[derive(Debug, Clone, Copy, PartialEq, Eq, Structural)]
pub enum HoloMemberLevel {
    /// This holomem cannot Bloom.
    Spot,
    Debut,
    First,
    Second,
}

/// The rank of a level, in the order of the levels.
pub open spec fn level_rank(l: HoloMemberLevel) -> int {
    match l {
        HoloMemberLevel::Spot => 0,
        HoloMemberLevel::Debut => 1,
        HoloMemberLevel::First => 2,
        HoloMemberLevel::Second => 3,
    }
}

pub fn level_number(l: HoloMemberLevel) -> (res: u8)
    ensures
        res == level_rank(l),
{
    match l {
        HoloMemberLevel::Spot => 0,
        HoloMemberLevel::Debut => 1,
        HoloMemberLevel::First => 2,
        HoloMemberLevel::Second => 3,
    }
}

#[derive(Debug, Clone, Copy, PartialEq, Eq, Structural)]
pub enum HoloMemberHashTag {
    JP,
    ID,
    EN,
    Gen0,
    Gen3,
    Gen4,
    Gen5,
    SecretSocietyholoX,
    IDGen1,
    IDGen3,
    Myth,
    Promise,
    Alcohol,
    AnimalEars,
    Bird,
    Drawing,
    Song,
}

#[derive(Debug)]
pub enum HoloMemberExtraAttribute {
    /// When this holomem is Knocked Out, you lose 2 Life.
    Buzz,
    /// This card is treated as [<name>].
    Name(String),
    /// You may include any number of this holomem in your deck.
    Unlimited,
    Unknown,
}

/// Two attributes are the same: of one kind, and with one name for `Name`.
pub open spec fn same_attribute(a: HoloMemberExtraAttribute, b: HoloMemberExtraAttribute) -> bool {
    match (a, b) {
        (HoloMemberExtraAttribute::Buzz, HoloMemberExtraAttribute::Buzz) => true,
        (HoloMemberExtraAttribute::Name(x), HoloMemberExtraAttribute::Name(y)) => x@ == y@,
        (HoloMemberExtraAttribute::Unlimited, HoloMemberExtraAttribute::Unlimited) => true,
        (HoloMemberExtraAttribute::Unknown, HoloMemberExtraAttribute::Unknown) => true,
        _ => false,
    }
}

fn attribute_eq(a: &HoloMemberExtraAttribute, b: &HoloMemberExtraAttribute) -> (res: bool)
    ensures
        res == same_attribute(*a, *b),
{
    match (a, b) {
        (HoloMemberExtraAttribute::Buzz, HoloMemberExtraAttribute::Buzz) => true,
        (HoloMemberExtraAttribute::Name(x), HoloMemberExtraAttribute::Name(y)) => *x == *y,
        (HoloMemberExtraAttribute::Unlimited, HoloMemberExtraAttribute::Unlimited) => true,
        (HoloMemberExtraAttribute::Unknown, HoloMemberExtraAttribute::Unknown) => true,
        _ => false,
    }
}

#[derive(Debug)]
pub struct HoloMemberAbility {
    pub kind: MemberAbilityKind,
    pub name: String,
    pub text: String,
    pub condition: Vec<Condition>,
    pub effect: Vec<Action>,
}

#[derive(Debug)]
pub enum MemberAbilityKind {
    CollabEffect,
    BloomEffect,
    Gift(Vec<Trigger>),
}

#[derive(Debug)]
pub struct HoloMemberArt {
    pub name: String,
    pub cost: Vec<Color>,
    pub damage: HoloMemberArtDamage,
    pub special_damage: Option<(Color, u16)>,
    pub text: String,
    pub condition: Vec<Condition>,
    pub effect: Vec<Action>,
}

/// The damage of an art: a number, a number that can grow (`+`) or shrink (`-`), a number
/// to multiply (`x`), or unknown (`?`).
#[derive(Debug, Clone, Copy, PartialEq, Eq, Structural)]
pub enum HoloMemberArtDamage {
    Basic(u16),
    Plus(u16),
    Minus(u16),
    Multiple(u16),
    Uncertain,
}

#[derive(Debug)]
pub struct SupportCard {
    pub card_number: String,
    pub name: String,
    pub kind: SupportKind,
    pub limited: bool,
    pub text: String,
    pub effects: Vec<SupportEffect>,
    pub rarity: Rarity,
    pub illustration_url: String,
    pub artist: String,
}

#[derive(Debug, Clone, Copy, PartialEq, Eq, Structural)]
pub enum SupportKind {
    Staff,
    Item,
    Event,
    Tool,
    Mascot,
    Fan,
}

#[derive(Debug)]
pub struct SupportEffect {
    pub triggers: Vec<Trigger>,
    pub condition: Vec<Condition>,
    pub effect: Vec<Action>,
}

#[derive(Debug)]
pub struct CheerCard {
    pub card_number: String,
    pub name: String,
    pub color: Color,
    pub text: String,
    pub rarity: Rarity,
    pub illustration_url: String,
    pub artist: String,
}

// ------------------------------------------------------------------
// what a card is
// ------------------------------------------------------------------

/// The names that an attribute list adds, in order.
pub open spec fn attribute_names(s: Seq<HoloMemberExtraAttribute>) -> Seq<Seq<char>>
    decreases s.len(),
{
    if s.len() == 0 {
        Seq::empty()
    } else {
        attribute_names(s.drop_last()) + match s.last() {
            HoloMemberExtraAttribute::Name(n) => seq![n@],
            _ => Seq::empty(),
        }
    }
}

/// The names of a member: its own, then those that its attributes give.
pub open spec fn member_names(m: HoloMemberCard) -> Seq<Seq<char>> {
    seq![m.name@] + attribute_names(m.attributes@)
}

pub open spec fn spec_card_number(c: Card) -> Seq<char> {
    match c {
        Card::OshiHoloMember(o) => o.card_number@,
        Card::HoloMember(m) => m.card_number@,
        Card::Support(s) => s.card_number@,
        Card::Cheer(ch) => ch.card_number@,
    }
}

pub open spec fn spec_is_color(c: Card, color: Color) -> bool {
    match c {
        Card::OshiHoloMember(o) => o.color == color,
        Card::HoloMember(m) => m.colors@.contains(color),
        Card::Support(_) => false,
        Card::Cheer(ch) => ch.color == color,
    }
}

pub open spec fn spec_is_named(c: Card, name: Seq<char>) -> bool {
    match c {
        Card::HoloMember(m) => member_names(m).contains(name),
        _ => false,
    }
}

impl Card {
    pub fn card_number(&self) -> (res: &String)
        ensures
            res@ == spec_card_number(*self),
    {
        match self {
            Card::OshiHoloMember(c) => &c.card_number,
            Card::HoloMember(c) => &c.card_number,
            Card::Support(c) => &c.card_number,
            Card::Cheer(c) => &c.card_number,
        }
    }

    pub fn illustration_url(&self) -> (res: &String)
        ensures
            res@ == match *self {
                Card::OshiHoloMember(c) => c.illustration_url@,
                Card::HoloMember(c) => c.illustration_url@,
                Card::Support(c) => c.illustration_url@,
                Card::Cheer(c) => c.illustration_url@,
            },
    {
        match self {
            Card::OshiHoloMember(c) => &c.illustration_url,
            Card::HoloMember(c) => &c.illustration_url,
            Card::Support(c) => &c.illustration_url,
            Card::Cheer(c) => &c.illustration_url,
        }
    }

    /// Whether a member has the attribute.
    pub fn is_attribute(&self, attribute: HoloMemberExtraAttribute) -> (res: bool)
        ensures
            res == (*self matches Card::HoloMember(m) && exists|i: int|
                0 <= i < m.attributes@.len() && same_attribute(
                    #[trigger] m.attributes@[i],
                    attribute,
                )),
    {
        match self {
            Card::HoloMember(m) => has_attribute(&m.attributes, &attribute),
            _ => false,
        }
    }

    pub fn is_color(&self, color: Color) -> (res: bool)
        ensures
            res == spec_is_color(*self, color),
    {
        match self {
            Card::OshiHoloMember(o) => o.color == color,
            Card::HoloMember(m) => has_color(&m.colors, color),
            Card::Support(_s) => false,
            Card::Cheer(c) => c.color == color,
        }
    }

    pub fn is_cheer(&self) -> (res: bool)
        ensures
            res == (*self is Cheer),
    {
        matches!(self, Card::Cheer(_))
    }

    pub fn is_level(&self, level: HoloMemberLevel) -> (res: bool)
        ensures
            res == (*self matches Card::HoloMember(m) && m.level == level),
    {
        match self {
            Card::HoloMember(m) => m.level == level,
            _ => false,
        }
    }

    pub fn is_member(&self) -> (res: bool)
        ensures
            res == (*self is HoloMember),
    {
        matches!(self, Card::HoloMember(_))
    }

    /// Whether a member goes by the name, its own or one that an attribute gives it.
    pub fn is_named(&self, name: &str) -> (res: bool)
        ensures
            res == spec_is_named(*self, name@),
    {
        match self {
            Card::HoloMember(m) => m.has_name(name),
            _ => false,
        }
    }

    pub fn is_support_limited(&self) -> (res: bool)
        ensures
            res == (*self matches Card::Support(s) && s.limited),
    {
        match self {
            Card::Support(s) => s.limited,
            _ => false,
        }
    }
}

fn has_attribute(v: &Vec<HoloMemberExtraAttribute>, attribute: &HoloMemberExtraAttribute) -> (res: bool)
    ensures
        res == exists|i: int| 0 <= i < v@.len() && same_attribute(#[trigger] v@[i], *attribute),
{
    let mut i: usize = 0;
    while i < v.len()
        invariant
            0 <= i <= v@.len(),
            forall|j: int| 0 <= j < i ==> !same_attribute(v@[j], *attribute),
        decreases v@.len() - i,
    {
        if attribute_eq(&v[i], attribute) {
            assert(same_attribute(v@[i as int], *attribute));
            return true;
        }
        i = i + 1;
    }
    false
}

pub fn has_color(v: &Vec<Color>, color: Color) -> (res: bool)
    ensures
        res == v@.contains(color),
{
    let mut i: usize = 0;
    while i < v.len()
        invariant
            0 <= i <= v@.len(),
            forall|j: int| 0 <= j < i ==> v@[j] != color,
        decreases v@.len() - i,
    {
        if v[i] == color {
            assert(v@[i as int] == color);
            return true;
        }
        i = i + 1;
    }
    false
}

impl HoloMemberCard {
    /// Whether the member goes by the name.
    pub fn has_name(&self, name: &str) -> (res: bool)
        ensures
            res == member_names(*self).contains(name@),
    {
        let names = self.names();
        let target = name.to_owned();
        let mut i: usize = 0;
        while i < names.len()
            invariant
                0 <= i <= names@.len(),
                target@ == name@,
                forall|j: int| 0 <= j < names@.len() ==> #[trigger] names@[j]@ == member_names(*self)[j],
                names@.len() == member_names(*self).len(),
                forall|j: int| 0 <= j < i ==> member_names(*self)[j] != name@,
            decreases names@.len() - i,
        {
            if names[i] == target {
                assert(member_names(*self)[i as int] == name@);
                return true;
            }
            i = i + 1;
        }
        false
    }

    /// The names of the member: its own, then those that its attributes give.
    pub fn names(&self) -> (res: Vec<String>)
        ensures
            res@.len() == member_names(*self).len(),
            forall|i: int| 0 <= i < res@.len() ==> #[trigger] res@[i]@ == member_names(*self)[i],
    {
        let mut out: Vec<String> = Vec::new();
        out.push(self.name.clone());
        let mut i: usize = 0;
        while i < self.attributes.len()
            invariant
                0 <= i <= self.attributes@.len(),
                out@.len() == 1 + attribute_names(self.attributes@.take(i as int)).len(),
                out@[0]@ == self.name@,
                forall|j: int|
                    0 <= j < out@.len() - 1 ==> #[trigger] out@[j + 1]@ == attribute_names(
                        self.attributes@.take(i as int),
                    )[j],
            decreases self.attributes@.len() - i,
        {
            proof {
                assert(self.attributes@.take(i + 1).drop_last() =~= self.attributes@.take(i as int));
            }
            match &self.attributes[i] {
                HoloMemberExtraAttribute::Name(n) => {
                    out.push(n.clone());
                },
                _ => {},
            }
            i = i + 1;
        }
        proof {
            assert(self.attributes@.take(self.attributes@.len() as int) =~= self.attributes@);
            assert forall|i: int| 0 <= i < out@.len() implies #[trigger] out@[i]@ == member_names(
                *self,
            )[i] by {
                if i > 0 {
                    assert(out@[(i - 1) + 1]@ == attribute_names(self.attributes@)[i - 1]);
                }
            }
        }
        out
    }
}

// ------------------------------------------------------------------
// the damage of an art, as text
// ------------------------------------------------------------------

/// The text of an art damage: the number and its mark, or `?`.
pub open spec fn damage_text(d: HoloMemberArtDamage) -> Seq<char> {
    match d {
        HoloMemberArtDamage::Basic(n) => decimal(n as nat),
        HoloMemberArtDamage::Plus(n) => decimal(n as nat).push('+'),
        HoloMemberArtDamage::Minus(n) => decimal(n as nat).push('-'),
        HoloMemberArtDamage::Multiple(n) => decimal(n as nat).push('x'),
        HoloMemberArtDamage::Uncertain => seq!['?'],
    }
}

/// The text without every copy of a character at its end.
pub open spec fn trim_end(s: Seq<char>, c: char) -> Seq<char>
    decreases s.len(),
{
    if s.len() > 0 && s.last() == c {
        trim_end(s.drop_last(), c)
    } else {
        s
    }
}

/// What `u16::from_str` gives: an optional `+`, then at least one decimal digit, with a
/// value that fits.
pub open spec fn spec_parse_u16(s: Seq<char>) -> Option<u16> {
    match spec_parse_usize(s) {
        Some(n) => if n <= u16::MAX {
            Some(n as u16)
        } else {
            None
        },
        None => None,
    }
}

/// Reading an art damage: `?`, or a number that may end in `+`, `-` or `x` (every copy of
/// the mark is dropped before the number is read).
pub open spec fn spec_parse_damage(s: Seq<char>) -> Option<HoloMemberArtDamage> {
    if s == seq!['?'] {
        Some(HoloMemberArtDamage::Uncertain)
    } else if s.len() > 0 && s.last() == '+' {
        match spec_parse_u16(trim_end(s, '+')) {
            Some(n) => Some(HoloMemberArtDamage::Plus(n)),
            None => None,
        }
    } else if s.len() > 0 && s.last() == '-' {
        match spec_parse_u16(trim_end(s, '-')) {
            Some(n) => Some(HoloMemberArtDamage::Minus(n)),
            None => None,
        }
    } else if s.len() > 0 && s.last() == 'x' {
        match spec_parse_u16(trim_end(s, 'x')) {
            Some(n) => Some(HoloMemberArtDamage::Multiple(n)),
            None => None,
        }
    } else {
        match spec_parse_u16(s) {
            Some(n) => Some(HoloMemberArtDamage::Basic(n)),
            None => None,
        }
    }
}

/// The text that an art damage cannot be read from.
#[derive(Debug, Clone, Copy, PartialEq, Eq, Structural)]
pub struct ParseDamageError;

fn parse_u16(s: &String) -> (res: Option<u16>)
    ensures
        res == spec_parse_u16(s@),
{
    match parse_usize(s) {
        Some(n) => if n <= 65535 {
            Some(n as u16)
        } else {
            None
        },
        None => None,
    }
}

fn trim_end_string(s: &String, c: char) -> (res: String)
    ensures
        res@ == trim_end(s@, c),
{
    let a = s.as_str();
    let mut end = a.unicode_len();
    assert(s@.take(end as int) =~= s@);
    while end > 0 && a.get_char(end - 1) == c
        invariant
            end <= a@.len(),
            a@ == s@,
            trim_end(s@.take(end as int), c) == trim_end(s@, c),
        decreases end,
    {
        assert(s@.take(end as int).drop_last() =~= s@.take(end - 1));
        end = end - 1;
    }
    let mut out = String::new();
    let mut i: usize = 0;
    while i < end
        invariant
            end <= a@.len(),
            a@ == s@,
            0 <= i <= end,
            out@ == s@.take(i as int),
        decreases end - i,
    {
        push_char(&mut out, a.get_char(i));
        assert(out@ =~= s@.take(i + 1));
        i = i + 1;
    }
    proof {
        if end > 0 {
            assert(s@.take(end as int).last() == s@[end - 1]);
        }
        assert(s@.take(a@.len() as int) =~= s@);
    }
    out
}

fn ends_with_char(s: &String, c: char) -> (res: bool)
    ensures
        res == (s@.len() > 0 && s@.last() == c),
{
    let a = s.as_str();
    let n = a.unicode_len();
    n > 0 && a.get_char(n - 1) == c
}

impl HoloMemberArtDamage {
    /// Reads an art damage from its text.
    pub fn try_from_string(value: &String) -> (res: Result<HoloMemberArtDamage, ParseDamageError>)
        ensures
            match spec_parse_damage(value@) {
                Some(d) => res == Ok::<HoloMemberArtDamage, ParseDamageError>(d),
                None => res is Err,
            },
    {
        let a = value.as_str();
        if a.unicode_len() == 1 && a.get_char(0) == '?' {
            assert(value@ =~= seq!['?']);
            return Ok(HoloMemberArtDamage::Uncertain);
        }
        assert(value@ != seq!['?']);
        let parsed = if ends_with_char(value, '+') {
            match parse_u16(&trim_end_string(value, '+')) {
                Some(n) => Some(HoloMemberArtDamage::Plus(n)),
                None => None,
            }
        } else if ends_with_char(value, '-') {
            match parse_u16(&trim_end_string(value, '-')) {
                Some(n) => Some(HoloMemberArtDamage::Minus(n)),
                None => None,
            }
        } else if ends_with_char(value, 'x') {
            match parse_u16(&trim_end_string(value, 'x')) {
                Some(n) => Some(HoloMemberArtDamage::Multiple(n)),
                None => None,
            }
        } else {
            match parse_u16(value) {
                Some(n) => Some(HoloMemberArtDamage::Basic(n)),
                None => None,
            }
        };
        match parsed {
            Some(d) => Ok(d),
            None => Err(ParseDamageError),
        }
    }

    /// The text of an art damage.
    pub fn into_string(self) -> (res: String)
        ensures
            res@ == damage_text(self),
    {
        match self {
            HoloMemberArtDamage::Basic(dmg) => usize_to_string(dmg as usize),
            HoloMemberArtDamage::Plus(dmg) => {
                let mut s = usize_to_string(dmg as usize);
                push_char(&mut s, '+');
                s
            },
            HoloMemberArtDamage::Minus(dmg) => {
                let mut s = usize_to_string(dmg as usize);
                push_char(&mut s, '-');
                s
            },
            HoloMemberArtDamage::Multiple(dmg) => {
                let mut s = usize_to_string(dmg as usize);
                push_char(&mut s, 'x');
                s
            },
            HoloMemberArtDamage::Uncertain => {
                let mut s = String::new();
                push_char(&mut s, '?');
                assert(s@ =~= seq!['?']);
                s
            },
        }
    }
}

/// Reading the text of an art damage gives the damage back.
pub proof fn lemma_damage_round_trip(d: HoloMemberArtDamage)
    ensures
        spec_parse_damage(damage_text(d)) == Some(d),
{
    match d {
        HoloMemberArtDamage::Basic(n) => {
            lemma_decimal_round_trip(n as usize);
            lemma_decimal_shape(n as nat);
        },
        HoloMemberArtDamage::Plus(n) => {
            lemma_decimal_round_trip(n as usize);
            lemma_decimal_shape(n as nat);
            let t = decimal(n as nat).push('+');
            assert(t.drop_last() =~= decimal(n as nat));
            assert(trim_end(t, '+') == trim_end(decimal(n as nat), '+'));
        },
        HoloMemberArtDamage::Minus(n) => {
            lemma_decimal_round_trip(n as usize);
            lemma_decimal_shape(n as nat);
            let t = decimal(n as nat).push('-');
            assert(t.drop_last() =~= decimal(n as nat));
            assert(trim_end(t, '-') == trim_end(decimal(n as nat), '-'));
        },
        HoloMemberArtDamage::Multiple(n) => {
            lemma_decimal_round_trip(n as usize);
            lemma_decimal_shape(n as nat);
            let t = decimal(n as nat).push('x');
            assert(t.drop_last() =~= decimal(n as nat));
            assert(trim_end(t, 'x') == trim_end(decimal(n as nat), 'x'));
        },
        HoloMemberArtDamage::Uncertain => {},
    }
}

/// The decimal text of a number ends in a digit, so no mark is trimmed from it and it is
/// not `?`.
proof fn lemma_decimal_shape(n: nat)
    ensures
        decimal(n).len() > 0,
        48 <= decimal(n).last() as u32 <= 57,
        trim_end(decimal(n), '+') == decimal(n),
        trim_end(decimal(n), '-') == decimal(n),
        trim_end(decimal(n), 'x') == decimal(n),
        decimal(n) != seq!['?'],
    decreases n,
{
    if n >= 10 {
        lemma_decimal_shape(n / 10);
    }
    assert(decimal(n).last() as u32 >= 48);
    if decimal(n) == seq!['?'] {
        assert(decimal(n).last() == '?');
    }
}

} // verus!
