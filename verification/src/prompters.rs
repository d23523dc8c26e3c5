use vstd::prelude::*;

use crate::events::{IntentRequest, IntentResponse};

verus! {

// ------------------------------------------------------------------
// what picks among choices
// ------------------------------------------------------------------

/// The choices whose places are listed, in the order of the choices.
pub open spec fn picked<T>(choices: Seq<T>, places: Seq<usize>) -> Seq<T>
    decreases choices.len(),
{
    if choices.len() == 0 {
        Seq::empty()
    } else {
        let rest = picked(choices.drop_last(), places);
        if places.contains((choices.len() - 1) as usize) {
            rest.push(choices.last())
        } else {
            rest
        }
    }
}

/// Whether every item of one list is one of the choices.
pub open spec fn all_among<T>(items: Seq<T>, choices: Seq<T>) -> bool {
    forall|i: int| 0 <= i < items.len() ==> choices.contains(#[trigger] items[i])
}

/// The choices at the listed places, in the order of the places.
pub open spec fn at_places<T>(choices: Seq<T>, places: Seq<int>) -> Seq<T> {
    places.map_values(|p: int| choices[p])
}

/// Whether every listed place is one of the `n` places of the choices.
pub open spec fn places_within(places: Seq<int>, n: nat) -> bool {
    forall|k: int| 0 <= k < places.len() ==> 0 <= #[trigger] places[k] < n
}

/// What picks one or several of the choices it is offered, for a player.
pub trait Prompter {
    /// Whether one of `n` choices can be picked now.
    spec fn can_choose(&self, n: nat) -> bool;

    /// Whether between `min` and `max` of `n` choices can be picked now.
    spec fn can_choose_many(&self, n: nat, min: nat, max: nat) -> bool;

    /// Whether the choice at place `i` of `n` choices is one this prompter may pick now.
    spec fn may_pick_at(&self, n: nat, i: int) -> bool;

    /// Whether the choices at `places`, in that order, are a pick this prompter may make now
    /// of `n` choices, asked for between `min` and `max` of them.
    spec fn may_pick_places(&self, n: nat, min: nat, max: nat, places: Seq<int>) -> bool;

    /// Picks one of the choices: the one at a place that the prompter may pick.
    fn prompt_choice<T>(&mut self, text: &str, choices: Vec<T>) -> (res: T)
        requires
            old(self).can_choose(choices@.len()),
        ensures
            exists|i: int|
                0 <= i < choices@.len() && #[trigger] old(self).may_pick_at(choices@.len(), i)
                    && res == choices@[i],
    ;

    /// Picks some of the choices, those at places that the prompter may pick, in the order
    /// of those places.
    fn prompt_multi_choices<T>(&mut self, text: &str, choices: Vec<T>, min: usize, max: usize) -> (res:
        Vec<T>)
        requires
            old(self).can_choose_many(choices@.len(), min as nat, max as nat),
        ensures
            exists|places: Seq<int>|
                places_within(places, choices@.len()) && #[trigger] old(self).may_pick_places(
                    choices@.len(),
                    min as nat,
                    max as nat,
                    places,
                ) && res@ == at_places(choices@, places),
            res@.len() <= choices@.len(),
    ;
}

/// Takes the first choice, and the first `min` choices.
#[derive(Debug, Default)]
pub struct DefaultPrompter {}

impl DefaultPrompter {
    pub fn new() -> (res: DefaultPrompter)
        ensures
            res == (DefaultPrompter {}),
    {
        DefaultPrompter {}
    }
}

fn take_front<T>(choices: Vec<T>, n: usize) -> (res: Vec<T>)
    ensures
        res@ == choices@.take(if n < choices@.len() { n as int } else { choices@.len() as int }),
{
    let end = if n < choices.len() {
        n
    } else {
        choices.len()
    };
    let mut rest = choices;
    let ghost all = rest@;
    let mut out: Vec<T> = Vec::new();
    let mut i: usize = 0;
    while i < end
        invariant
            0 <= i <= end,
            end <= all.len(),
            rest@ == all.skip(i as int),
            out@ == all.take(i as int),
        decreases end - i,
    {
        let c = rest.remove(0);
        out.push(c);
        assert(out@ =~= all.take(i + 1));
        assert(rest@ =~= all.skip(i + 1));
        i = i + 1;
    }
    out
}

/// The first `n` places, in order.
pub open spec fn first_places(n: nat) -> Seq<int> {
    Seq::new(n, |i: int| i)
}

impl Prompter for DefaultPrompter {
    open spec fn can_choose(&self, n: nat) -> bool {
        n > 0
    }

    open spec fn can_choose_many(&self, n: nat, min: nat, max: nat) -> bool {
        true
    }

    /// Only the first choice.
    open spec fn may_pick_at(&self, n: nat, i: int) -> bool {
        i == 0
    }

    /// Only the first `min` choices, or all of them when there are fewer.
    open spec fn may_pick_places(&self, n: nat, min: nat, max: nat, places: Seq<int>) -> bool {
        places == first_places(if min < n { min } else { n })
    }

    fn prompt_choice<T>(&mut self, text: &str, choices: Vec<T>) -> (res: T)
        ensures
            res == choices@[0],
    {
        let mut choices = choices;
        let ghost all = choices@;
        let c = choices.remove(0);
        assert(all[0] == c);
        assert(self.may_pick_at(all.len(), 0));
        c
    }

    fn prompt_multi_choices<T>(&mut self, text: &str, choices: Vec<T>, min: usize, max: usize) -> (res:
        Vec<T>)
        ensures
            res@ == choices@.take(
                if min < choices@.len() {
                    min as int
                } else {
                    choices@.len() as int
                },
            ),
    {
        let ghost all = choices@;
        let res = take_front(choices, min);
        proof {
            let k: nat = if (min as nat) < all.len() { min as nat } else { all.len() };
            let places = first_places(k);
            assert(at_places(all, places) =~= res@);
            assert(self.may_pick_places(all.len(), min as nat, max as nat, places));
        }
        res
    }
}

// ------------------------------------------------------------------
// picking at random
// ------------------------------------------------------------------

/// The random generator of the thread, from rand.
#[verifier::external_type_specification]
#[verifier::external_body]
pub struct ExThreadRng(rand::rngs::ThreadRng);

/// rand's `thread_rng`: the generator of the thread. Nothing is stated of it.
#[verifier::external_body]
fn thread_rng() -> (res: rand::rngs::ThreadRng) {
    rand::thread_rng()
}

/// rand's `IteratorRandom::choose` on the choices: one of them, picked with the generator;
/// none only when there is no choice. Which one is left unsaid: it rests on chance.
#[verifier::external_body]
fn random_choice<T>(choices: Vec<T>, rng: &mut rand::rngs::ThreadRng) -> (res: Option<T>)
    ensures
        (choices@.len() > 0) == (res is Some),
        res matches Some(c) ==> choices@.contains(c),
{
    rand::seq::IteratorRandom::choose(choices.into_iter(), rng)
}

/// rand's `Rng::gen_range` on `min..=max`, which must not be empty: a number between the two,
/// both included. Which one is left unsaid: it rests on chance.
#[verifier::external_body]
fn random_count(rng: &mut rand::rngs::ThreadRng, min: usize, max: usize) -> (res: usize)
    requires
        min <= max,
    ensures
        min <= res <= max,
{
    rand::Rng::gen_range(rng, min..=max)
}

/// Whether `items` are the choices at some distinct places of them, in some order.
pub open spec fn taken_at_distinct_places<T>(items: Seq<T>, choices: Seq<T>) -> bool {
    exists|places: Seq<int>|
        items == at_places(choices, places) && #[trigger] places_within(places, choices.len())
            && places.no_duplicates()
}

/// rand's `IteratorRandom::choose_multiple` on the choices: `amount` of them, or all of them
/// when there are fewer, taken from distinct places of the choices, picked with the
/// generator. Which places, and in what order, is left unsaid: it rests on chance.
#[verifier::external_body]
fn random_choices<T>(choices: Vec<T>, rng: &mut rand::rngs::ThreadRng, amount: usize) -> (res: Vec<T>)
    ensures
        res@.len() == if amount < choices@.len() {
            amount as int
        } else {
            choices@.len() as int
        },
        taken_at_distinct_places(res@, choices@),
{
    rand::seq::IteratorRandom::choose_multiple(choices.into_iter(), rng, amount)
}

/// Picks at random.
#[derive(Debug, Default)]
pub struct RandomPrompter {}

impl RandomPrompter {
    pub fn new() -> (res: RandomPrompter)
        ensures
            res == (RandomPrompter {}),
    {
        RandomPrompter {}
    }
}

impl Prompter for RandomPrompter {
    open spec fn can_choose(&self, n: nat) -> bool {
        n > 0
    }

    /// At least `min` choices must be there, and `min` must not pass `max`.
    open spec fn can_choose_many(&self, n: nat, min: nat, max: nat) -> bool {
        min <= max && min <= n
    }

    /// Any of the choices.
    open spec fn may_pick_at(&self, n: nat, i: int) -> bool {
        0 <= i < n
    }

    /// Between `min` and `max` of the choices, each at most once, in any order.
    open spec fn may_pick_places(&self, n: nat, min: nat, max: nat, places: Seq<int>) -> bool {
        &&& min <= places.len() <= max
        &&& places.no_duplicates()
    }

    fn prompt_choice<T>(&mut self, text: &str, choices: Vec<T>) -> (res: T) {
        let ghost all = choices@;
        let mut rng = thread_rng();
        let c = random_choice(choices, &mut rng).unwrap();
        proof {
            let i = choose|i: int| 0 <= i < all.len() && all[i] == c;
            assert(self.may_pick_at(all.len(), i));
        }
        c
    }

    /// Picks between `min` and `max` of the choices, as many as the generator says, each
    /// choice at most once, in no stated order.
    fn prompt_multi_choices<T>(&mut self, text: &str, choices: Vec<T>, min: usize, max: usize) -> (res:
        Vec<T>)
        ensures
            min <= res@.len() <= max,
    {
        let ghost all = choices@;
        let most = if max < choices.len() {
            max
        } else {
            choices.len()
        };
        let mut rng = thread_rng();
        let amount = random_count(&mut rng, min, most);
        let res = random_choices(choices, &mut rng, amount);
        proof {
            let places = choose|places: Seq<int>|
                res@ == at_places(all, places) && #[trigger] places_within(places, all.len())
                    && places.no_duplicates();
            assert(self.may_pick_places(all.len(), min as nat, max as nat, places));
        }
        res
    }
}

/// Picks what a list of answers, given in advance, says: each answer holds the places of
/// the picked choices, and is used once.
#[derive(Debug, Default)]
pub struct BufferedPrompter {
    buffer: Vec<Vec<usize>>,
}

impl View for BufferedPrompter {
    type V = Seq<Seq<usize>>;

    closed spec fn view(&self) -> Seq<Seq<usize>> {
        self.buffer@.map_values(|b: Vec<usize>| b@)
    }
}

impl BufferedPrompter {
    pub fn new(buffer: &[&[usize]]) -> (res: BufferedPrompter)
        ensures
            res@ == buffer@.map_values(|b: &[usize]| b@),
    {
        let mut out: Vec<Vec<usize>> = Vec::new();
        let mut i: usize = 0;
        while i < buffer.len()
            invariant
                0 <= i <= buffer@.len(),
                out@.map_values(|b: Vec<usize>| b@) == buffer@.take(i as int).map_values(
                    |b: &[usize]| b@,
                ),
            decreases buffer@.len() - i,
        {
            let answer = buffer[i];
            let mut copy: Vec<usize> = Vec::new();
            let mut j: usize = 0;
            while j < answer.len()
                invariant
                    0 <= j <= answer@.len(),
                    copy@ == answer@.take(j as int),
                decreases answer@.len() - j,
            {
                copy.push(answer[j]);
                assert(copy@ =~= answer@.take(j + 1));
                j = j + 1;
            }
            assert(copy@ =~= answer@);
            let ghost before = out@;
            out.push(copy);
            assert(out@.map_values(|b: Vec<usize>| b@) =~= before.map_values(|b: Vec<usize>| b@).push(
                answer@,
            ));
            assert(buffer@.take(i + 1).map_values(|b: &[usize]| b@) =~= buffer@.take(
                i as int,
            ).map_values(|b: &[usize]| b@).push(answer@));
            i = i + 1;
        }
        assert(buffer@.take(buffer@.len() as int) =~= buffer@);
        BufferedPrompter { buffer: out }
    }
}

fn picked_exec<T>(choices: Vec<T>, places: &Vec<usize>) -> (res: Vec<T>)
    ensures
        res@ == picked(choices@, places@),
{
    let mut rest = choices;
    let ghost all = rest@;
    let n = rest.len();
    let mut out: Vec<T> = Vec::new();
    let mut i: usize = 0;
    while i < n
        invariant
            0 <= i <= n,
            n == all.len(),
            rest@ == all.skip(i as int),
            out@ == picked(all.take(i as int), places@),
        decreases n - i,
    {
        let c = rest.remove(0);
        let mut listed = false;
        let mut k: usize = 0;
        while k < places.len()
            invariant
                0 <= k <= places@.len(),
                listed == places@.take(k as int).contains(i),
            decreases places@.len() - k,
        {
            proof {
                assert(places@.take(k + 1) =~= places@.take(k as int).push(places@[k as int]));
            }
            if places[k] == i {
                listed = true;
                assert(places@.take(k + 1)[k as int] == i);
            } else {
                let ghost t1 = places@.take(k + 1);
                let ghost t0 = places@.take(k as int);
                assert(t1.contains(i) ==> t0.contains(i)) by {
                    if t1.contains(i) {
                        let j = choose|j: int| 0 <= j < t1.len() && t1[j] == i;
                        assert(j != k);
                        assert(t0[j] == i);
                    }
                }
                assert(t0.contains(i) ==> t1.contains(i)) by {
                    if t0.contains(i) {
                        let j = choose|j: int| 0 <= j < t0.len() && t0[j] == i;
                        assert(t1[j] == i);
                    }
                }
            }
            k = k + 1;
        }
        proof {
            assert(places@.take(places@.len() as int) =~= places@);
            assert(all.take(i + 1).drop_last() =~= all.take(i as int));
            assert(all.take(i + 1).last() == c);
        }
        if listed {
            out.push(c);
        }
        proof {
            assert(rest@ =~= all.skip(i + 1));
        }
        i = i + 1;
    }
    proof {
        assert(all.take(n as int) =~= all);
    }
    out
}

/// The places among the first `n` that an answer lists, in order.
pub open spec fn listed_places(n: nat, answer: Seq<usize>) -> Seq<int>
    decreases n,
{
    if n == 0 {
        Seq::empty()
    } else {
        let rest = listed_places((n - 1) as nat, answer);
        if answer.contains((n - 1) as usize) {
            rest.push(n - 1)
        } else {
            rest
        }
    }
}

proof fn lemma_listed_places<T>(choices: Seq<T>, answer: Seq<usize>)
    ensures
        places_within(listed_places(choices.len(), answer), choices.len()),
        at_places(choices, listed_places(choices.len(), answer)) == picked(choices, answer),
        listed_places(choices.len(), answer).len() <= choices.len(),
    decreases choices.len(),
{
    if choices.len() > 0 {
        let n = choices.len();
        let prev = choices.drop_last();
        lemma_listed_places(prev, answer);
        let lp = listed_places(prev.len(), answer);
        assert(at_places(choices, lp) =~= at_places(prev, lp)) by {
            assert forall|k: int| 0 <= k < lp.len() implies choices[lp[k]] == prev[lp[k]] by {
                assert(0 <= lp[k] < prev.len());
            }
        }
        if answer.contains((n - 1) as usize) {
            assert(at_places(choices, lp.push(n - 1)) =~= at_places(choices, lp).push(
                choices.last(),
            ));
        }
    }
}

impl Prompter for BufferedPrompter {
    open spec fn can_choose(&self, n: nat) -> bool {
        &&& self@.len() > 0
        &&& self@[0].len() == 1
        &&& self@[0][0] < n
    }

    open spec fn can_choose_many(&self, n: nat, min: nat, max: nat) -> bool {
        &&& self@.len() > 0
        &&& min <= self@[0].len()
        &&& self@[0].len() <= max
        &&& self@[0].len() <= n
    }

    /// The place that the next answer holds.
    open spec fn may_pick_at(&self, n: nat, i: int) -> bool {
        i == self@[0][0]
    }

    /// The places that the next answer lists, in the order of the choices.
    open spec fn may_pick_places(&self, n: nat, min: nat, max: nat, places: Seq<int>) -> bool {
        places == listed_places(n, self@[0])
    }

    fn prompt_choice<T>(&mut self, text: &str, choices: Vec<T>) -> (res: T)
        ensures
            res == choices@[old(self)@[0][0] as int],
            final(self)@ == old(self)@.drop_first(),
    {
        let ghost b0 = self@;
        let mut answer = self.buffer.remove(0);
        proof {
            assert(self@ =~= b0.drop_first());
            assert(answer@ == b0[0]);
        }
        let place = answer.remove(0);
        let mut choices = choices;
        let ghost all = choices@;
        let c = choices.remove(place);
        assert(all[place as int] == c);
        assert(old(self).may_pick_at(all.len(), place as int));
        c
    }

    fn prompt_multi_choices<T>(&mut self, text: &str, choices: Vec<T>, min: usize, max: usize) -> (res:
        Vec<T>)
        ensures
            res@ == picked(choices@, old(self)@[0]),
            final(self)@ == old(self)@.drop_first(),
    {
        let ghost b0 = self@;
        let answer = self.buffer.remove(0);
        proof {
            assert(self@ =~= b0.drop_first());
            assert(answer@ == b0[0]);
            lemma_listed_places(choices@, answer@);
            assert(old(self).may_pick_places(
                choices@.len(),
                min as nat,
                max as nat,
                listed_places(choices@.len(), answer@),
            ));
        }
        picked_exec(choices, &answer)
    }
}

// ------------------------------------------------------------------
// picking with a leaning to the first choices
// ------------------------------------------------------------------

/// The choice picked with a leaning to the first: the first one whose coin came up, or else
/// the last one.
pub fn prefer_first_pick(n: usize, coins: &Vec<bool>) -> (res: usize)
    requires
        n > 0,
        coins@.len() >= n,
    ensures
        res < n,
        forall|j: int| 0 <= j < res ==> !coins@[j],
        coins@[res as int] || res == n - 1,
{
    let mut i: usize = 0;
    while i < n - 1
        invariant
            0 <= i <= n - 1,
            n > 0,
            coins@.len() >= n,
            forall|j: int| 0 <= j < i ==> !coins@[j],
        decreases n - i,
    {
        if coins[i] {
            return i;
        }
        i = i + 1;
    }
    i
}

/// The places picked among the first `i` of `n` choices, with a leaning to the first: a
/// place is taken when its coin came up and fewer than `max` are taken, or when the places
/// left are needed to reach `min`.
pub open spec fn prefer_first_prefix(n: int, min: int, max: int, coins: Seq<bool>, i: int) -> Seq<usize>
    decreases i,
{
    if i <= 0 {
        Seq::empty()
    } else {
        let cs = prefer_first_prefix(n, min, max, coins, i - 1);
        let k = i - 1;
        let missing = if min > cs.len() {
            min - cs.len()
        } else {
            0
        };
        if (coins[k] && cs.len() < max) || missing > (n - 1) - k {
            cs.push(k as usize)
        } else {
            cs
        }
    }
}

/// The places of the choices picked with a leaning to the first: at most `max` of them,
/// unless more are needed to reach `min`, and no more than there are.
pub open spec fn spec_prefer_first_picks(n: int, min: int, max: int, coins: Seq<bool>) -> Seq<usize> {
    prefer_first_prefix(n, min, if max < n { max } else { n }, coins, n)
}

proof fn lemma_prefix_len(n: int, min: int, max: int, coins: Seq<bool>, i: int)
    requires
        0 <= i,
    ensures
        prefer_first_prefix(n, min, max, coins, i).len() <= i,
        forall|j: int|
            0 <= j < prefer_first_prefix(n, min, max, coins, i).len() ==> (#[trigger] prefer_first_prefix(
                n,
                min,
                max,
                coins,
                i,
            )[j]) < i,
    decreases i,
{
    if i > 0 {
        lemma_prefix_len(n, min, max, coins, i - 1);
    }
}

/// The places of the choices picked with a leaning to the first, in order.
pub fn prefer_first_picks(n: usize, min: usize, max: usize, coins: &Vec<bool>) -> (res: Vec<usize>)
    requires
        n > 0,
        coins@.len() >= n,
    ensures
        res@ == spec_prefer_first_picks(n as int, min as int, max as int, coins@),
{
    let most = if max < n {
        max
    } else {
        n
    };
    let last = n - 1;
    let mut cs: Vec<usize> = Vec::new();
    let mut i: usize = 0;
    while i < n
        invariant
            0 <= i <= n,
            n > 0,
            last == n - 1,
            most == if max < n { max } else { n },
            coins@.len() >= n,
            cs@ == prefer_first_prefix(n as int, min as int, most as int, coins@, i as int),
        decreases n - i,
    {
        proof {
            lemma_prefix_len(n as int, min as int, most as int, coins@, i as int);
        }
        let missing = if min > cs.len() {
            min - cs.len()
        } else {
            0
        };
        if (coins[i] && cs.len() < most) || missing > last - i {
            cs.push(i);
        }
        i = i + 1;
    }
    cs
}

// ------------------------------------------------------------------
// answering the requests of a game
// ------------------------------------------------------------------

/// Whether a prompter can answer a request: it can pick among what the request offers.
pub open spec fn can_answer<P: Prompter>(p: P, req: IntentRequest) -> bool {
    match req {
        IntentRequest::Rps { select_rps, .. } => p.can_choose(select_rps@.len()),
        IntentRequest::Mulligan { .. } => p.can_choose(2),
        IntentRequest::ActivateEffect { .. } => p.can_choose(2),
        IntentRequest::LookSelectZoneToZone { select_cards, min_amount, max_amount, .. } => p.can_choose_many(
            select_cards@.len(),
            min_amount as nat,
            max_amount as nat,
        ),
        IntentRequest::SelectToAttach { select_cards, .. } => p.can_choose(select_cards@.len()),
        IntentRequest::MainStepAction { select_actions, .. } => p.can_choose(select_actions@.len()),
        IntentRequest::SelectAttachments { select_attachments, min_amount, max_amount, .. } =>
            p.can_choose_many(select_attachments@.len(), min_amount as nat, max_amount as nat),
        IntentRequest::PerformanceStepAction { select_actions, .. } => p.can_choose(
            select_actions@.len(),
        ),
        IntentRequest::SelectNumber { select_numbers, .. } => p.can_choose(select_numbers@.len()),
    }
}

/// Whether a response answers a request: of its kind, for its player, with what it offered.
pub open spec fn answers(req: IntentRequest, resp: IntentResponse) -> bool {
    match (req, resp) {
        (IntentRequest::Rps { player, select_rps }, IntentResponse::Rps { player: p, select_rps: r }) =>
            p == player && select_rps@.contains(r),
        (IntentRequest::Mulligan { player, .. }, IntentResponse::Mulligan { player: p, .. }) => p
            == player,
        (
            IntentRequest::ActivateEffect { player, .. },
            IntentResponse::ActivateEffect { player: p, .. },
        ) => p == player,
        (
            IntentRequest::LookSelectZoneToZone { player, select_cards, .. },
            IntentResponse::LookSelectZoneToZone { player: p, select_cards: r },
        ) => p == player && all_among(r@, select_cards@) && r@.len() <= select_cards@.len(),
        (
            IntentRequest::SelectToAttach { player, select_cards, .. },
            IntentResponse::SelectToAttach { player: p, select_card: r },
        ) => p == player && select_cards@.contains(r),
        (
            IntentRequest::MainStepAction { player, select_actions },
            IntentResponse::MainStepAction { player: p, select_action: r },
        ) => p == player && select_actions@.contains(r),
        (
            IntentRequest::SelectAttachments { player, select_attachments, .. },
            IntentResponse::SelectAttachments { player: p, select_attachments: r },
        ) => p == player && all_among(r@, select_attachments@) && r@.len()
            <= select_attachments@.len(),
        (
            IntentRequest::PerformanceStepAction { player, select_actions },
            IntentResponse::PerformanceStepAction { player: p, select_action: r },
        ) => p == player && select_actions@.contains(r),
        (
            IntentRequest::SelectNumber { player, select_numbers },
            IntentResponse::SelectNumber { player: p, select_number: r },
        ) => p == player && select_numbers@.contains(r),
        _ => false,
    }
}

/// Whether `res` is the choice at a place that the prompter may pick.
pub open spec fn picks_one<P: Prompter, T>(p: P, choices: Seq<T>, res: T) -> bool {
    exists|i: int| 0 <= i < choices.len() && #[trigger] p.may_pick_at(choices.len(), i) && res == choices[i]
}

/// Whether `res` holds the choices at places that the prompter may pick, in their order.
pub open spec fn picks_some<P: Prompter, T>(p: P, choices: Seq<T>, min: nat, max: nat, res: Seq<T>) -> bool {
    exists|places: Seq<int>|
        places_within(places, choices.len()) && #[trigger] p.may_pick_places(
            choices.len(),
            min,
            max,
            places,
        ) && res == at_places(choices, places)
}

/// Whether a response holds what the prompter picks among what the request offers: for a
/// mulligan or an effect, yes is the first of the two choices and no the second.
pub open spec fn answered_by<P: Prompter>(p: P, req: IntentRequest, resp: IntentResponse) -> bool {
    match (req, resp) {
        (IntentRequest::Rps { player, select_rps }, IntentResponse::Rps { player: q, select_rps: r }) =>
            q == player && picks_one(p, select_rps@, r),
        (IntentRequest::Mulligan { player, .. }, IntentResponse::Mulligan { player: q, select_yes_no: r }) =>
            q == player && picks_one(p, seq![true, false], r),
        (
            IntentRequest::ActivateEffect { player, .. },
            IntentResponse::ActivateEffect { player: q, select_yes_no: r },
        ) => q == player && picks_one(p, seq![true, false], r),
        (
            IntentRequest::LookSelectZoneToZone { player, select_cards, min_amount, max_amount, .. },
            IntentResponse::LookSelectZoneToZone { player: q, select_cards: r },
        ) => q == player && picks_some(p, select_cards@, min_amount as nat, max_amount as nat, r@),
        (
            IntentRequest::SelectToAttach { player, select_cards, .. },
            IntentResponse::SelectToAttach { player: q, select_card: r },
        ) => q == player && picks_one(p, select_cards@, r),
        (
            IntentRequest::MainStepAction { player, select_actions },
            IntentResponse::MainStepAction { player: q, select_action: r },
        ) => q == player && picks_one(p, select_actions@, r),
        (
            IntentRequest::SelectAttachments { player, select_attachments, min_amount, max_amount, .. },
            IntentResponse::SelectAttachments { player: q, select_attachments: r },
        ) => q == player && picks_some(
            p,
            select_attachments@,
            min_amount as nat,
            max_amount as nat,
            r@,
        ),
        (
            IntentRequest::PerformanceStepAction { player, select_actions },
            IntentResponse::PerformanceStepAction { player: q, select_action: r },
        ) => q == player && picks_one(p, select_actions@, r),
        (
            IntentRequest::SelectNumber { player, select_numbers },
            IntentResponse::SelectNumber { player: q, select_number: r },
        ) => q == player && picks_one(p, select_numbers@, r),
        _ => false,
    }
}

/// Answers a request of the game with what the prompter picks: a mulligan or an effect is
/// taken when the prompter picks yes, the first of its two choices.
pub fn handle_intent_request<P: Prompter>(prompter: &mut P, req: IntentRequest) -> (res: IntentResponse)
    requires
        can_answer(*old(prompter), req),
    ensures
        answered_by(*old(prompter), req, res),
        answers(req, res),
{
    match req {
        IntentRequest::Rps { player, select_rps } => {
            let rps = prompter.prompt_choice("choose rock, paper or scissor:", select_rps);
            IntentResponse::Rps { player, select_rps: rps }
        },
        IntentRequest::Mulligan { player, .. } => {
            let mulligan = prompter.prompt_choice("do you want to mulligan?", vec![true, false]);
            IntentResponse::Mulligan { player, select_yes_no: mulligan }
        },
        IntentRequest::ActivateEffect { player, .. } => {
            let activate = prompter.prompt_choice(
                "do you want to activate the effect?",
                vec![true, false],
            );
            IntentResponse::ActivateEffect { player, select_yes_no: activate }
        },
        IntentRequest::LookSelectZoneToZone { player, select_cards, min_amount, max_amount, .. } => {
            let selected = prompter.prompt_multi_choices(
                "choose cards:",
                select_cards,
                min_amount,
                max_amount,
            );
            IntentResponse::LookSelectZoneToZone { player, select_cards: selected }
        },
        IntentRequest::SelectToAttach { player, select_cards, .. } => {
            let selected = prompter.prompt_choice("choose card:", select_cards);
            IntentResponse::SelectToAttach { player, select_card: selected }
        },
        IntentRequest::MainStepAction { player, select_actions } => {
            let selected = prompter.prompt_choice("main step action:", select_actions);
            IntentResponse::MainStepAction { player, select_action: selected }
        },
        IntentRequest::SelectAttachments { player, select_attachments, min_amount, max_amount, .. } => {
            let selected = prompter.prompt_multi_choices(
                "choose attachments:",
                select_attachments,
                min_amount,
                max_amount,
            );
            IntentResponse::SelectAttachments { player, select_attachments: selected }
        },
        IntentRequest::PerformanceStepAction { player, select_actions } => {
            let selected = prompter.prompt_choice("performance step action:", select_actions);
            IntentResponse::PerformanceStepAction { player, select_action: selected }
        },
        IntentRequest::SelectNumber { player, select_numbers } => {
            let number = prompter.prompt_choice("choose a number:", select_numbers);
            IntentResponse::SelectNumber { player, select_number: number }
        },
    }
}

} // verus!
