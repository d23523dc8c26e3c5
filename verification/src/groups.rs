use vstd::prelude::*;

use crate::gameplay::{CardRef, Player, Zone};
use crate::state::{spec_board, GameState};

verus! {

/// Where a card is: its owner, and the zone of the owner's board that holds it.
#[verifier::opaque]
pub open spec fn place_of(s: GameState, c: CardRef) -> (Player, Zone) {
    (s.owner(c), spec_board(s, s.owner(c))@.find_zone(c)->0)
}

/// The index of the group of a place.
pub open spec fn place_group_index(g: Seq<((Player, Zone), Seq<CardRef>)>, k: (Player, Zone)) -> int {
    choose|i: int| 0 <= i < g.len() && g[i].0 == k
}

pub open spec fn has_place_group(g: Seq<((Player, Zone), Seq<CardRef>)>, k: (Player, Zone)) -> bool {
    exists|i: int| 0 <= i < g.len() && g[i].0 == k
}

/// The cards grouped by where they are: the groups in the order in which their places first
/// come, and the cards of a group in their order.
pub open spec fn grouped_by_place(s: GameState, cards: Seq<CardRef>) -> Seq<((Player, Zone), Seq<CardRef>)>
    decreases cards.len(),
{
    if cards.len() == 0 {
        Seq::empty()
    } else {
        let g = grouped_by_place(s, cards.drop_last());
        let c = cards.last();
        let k = place_of(s, c);
        if has_place_group(g, k) {
            let i = place_group_index(g, k);
            g.update(i, (k, g[i].1.push(c)))
        } else {
            g.push((k, seq![c]))
        }
    }
}

pub open spec fn place_groups_view(g: Seq<((Player, Zone), Vec<CardRef>)>) -> Seq<((Player, Zone), Seq<CardRef>)> {
    g.map_values(|p: ((Player, Zone), Vec<CardRef>)| (p.0, p.1@))
}

/// Each place has one group at most.
pub open spec fn distinct_places(g: Seq<((Player, Zone), Seq<CardRef>)>) -> bool {
    forall|i: int, j: int| 0 <= i < j < g.len() ==> g[i].0 != g[j].0
}

proof fn lemma_grouped_places_distinct(s: GameState, cards: Seq<CardRef>)
    ensures
        distinct_places(grouped_by_place(s, cards)),
    decreases cards.len(),
{
    if cards.len() > 0 {
        lemma_grouped_places_distinct(s, cards.drop_last());
    }
}

/// Whether a card is at a given place: with that owner, in that zone of its board.
pub open spec fn at_place_of(s: GameState, k: (Player, Zone)) -> spec_fn(CardRef) -> bool {
    |c: CardRef| place_of(s, c) == k
}

/// Grouping cards by where they are gives the place of each of the cards a group, and each
/// group holds exactly those of the cards that are at its place, in their order.
pub proof fn lemma_grouped_by_place_filters(s: GameState, cards: Seq<CardRef>)
    ensures
        forall|i: int|
            0 <= i < grouped_by_place(s, cards).len() ==> #[trigger] grouped_by_place(s, cards)[i].1
                == cards.filter(at_place_of(s, grouped_by_place(s, cards)[i].0)),
        forall|j: int|
            0 <= j < cards.len() ==> has_place_group(
                grouped_by_place(s, cards),
                place_of(s, #[trigger] cards[j]),
            ),
    decreases cards.len(),
{
    if cards.len() > 0 {
        let prev = cards.drop_last();
        let c = cards.last();
        let zc = place_of(s, c);
        lemma_grouped_by_place_filters(s, prev);
        lemma_grouped_places_distinct(s, prev);
        assert(cards =~= prev.push(c));
        let g0 = grouped_by_place(s, prev);
        let g = grouped_by_place(s, cards);
        if has_place_group(g0, zc) {
            let idx = place_group_index(g0, zc);
            assert forall|i: int| 0 <= i < g.len() implies #[trigger] g[i].1 == cards.filter(
                at_place_of(s, g[i].0),
            ) by {
                prev.lemma_filter_push(c, at_place_of(s, g[i].0));
                assert(g0[i].1 == prev.filter(at_place_of(s, g0[i].0)));
            }
            assert forall|j: int| 0 <= j < cards.len() implies has_place_group(
                g,
                place_of(s, #[trigger] cards[j]),
            ) by {
                if j < prev.len() {
                    assert(prev[j] == cards[j]);
                    let k = choose|k: int| 0 <= k < g0.len() && g0[k].0 == place_of(s, prev[j]);
                    assert(g[k].0 == g0[k].0);
                } else {
                    assert(g[idx].0 == zc);
                }
            }
        } else {
            assert forall|i: int| 0 <= i < g.len() implies #[trigger] g[i].1 == cards.filter(
                at_place_of(s, g[i].0),
            ) by {
                prev.lemma_filter_push(c, at_place_of(s, g[i].0));
                if i < g0.len() {
                    assert(g[i] == g0[i]);
                    assert(g0[i].1 == prev.filter(at_place_of(s, g0[i].0)));
                } else {
                    let f = prev.filter(at_place_of(s, zc));
                    prev.filter_lemma(at_place_of(s, zc));
                    if f.len() > 0 {
                        assert(f.contains(f[0]));
                        prev.lemma_filter_contains_rev(at_place_of(s, zc), f[0]);
                        let j = choose|j: int| 0 <= j < prev.len() && prev[j] == f[0];
                        assert(place_of(s, prev[j]) == zc);
                        assert(has_place_group(g0, place_of(s, prev[j])));
                    }
                    assert(f =~= Seq::<CardRef>::empty());
                    assert(g[i].1 =~= f.push(c));
                }
            }
            assert forall|j: int| 0 <= j < cards.len() implies has_place_group(
                g,
                place_of(s, #[trigger] cards[j]),
            ) by {
                if j < prev.len() {
                    assert(prev[j] == cards[j]);
                    let k = choose|k: int| 0 <= k < g0.len() && g0[k].0 == place_of(s, prev[j]);
                    assert(g[k].0 == g0[k].0);
                } else {
                    assert(g[g0.len() as int].0 == zc);
                }
            }
        }
    }
}

/// A card that can be grouped: registered, and in a zone of its owner's board.
#[verifier::opaque]
pub open spec fn placed(s: GameState, c: CardRef) -> bool {
    s.is_registered(c) && spec_board(s, s.owner(c))@.find_zone(c) is Some
}

impl GameState {
    fn place_exec(&self, c: CardRef) -> (res: (Player, Zone))
        requires
            placed(*self, c),
        ensures
            res == place_of(*self, c),
    {
        reveal(placed);
        reveal(place_of);
        let player = self.player_for_card(c);
        match self.board(player).find_card_zone(c) {
            Some(z) => (player, z),
            None => (player, Zone::All),
        }
    }

    /// The cards grouped by their owner and the zone that holds them.
    pub fn group_by_player_and_zone(&self, cards: &Vec<CardRef>) -> (res: Vec<((Player, Zone), Vec<CardRef>)>)
        requires
            forall|i: int| 0 <= i < cards@.len() ==> placed(*self, #[trigger] cards@[i]),
        ensures
            place_groups_view(res@) == grouped_by_place(*self, cards@),
    {
        let mut res: Vec<((Player, Zone), Vec<CardRef>)> = Vec::new();
        let mut k: usize = 0;
        while k < cards.len()
            invariant
                0 <= k <= cards@.len(),
                forall|i: int| 0 <= i < cards@.len() ==> placed(*self, #[trigger] cards@[i]),
                place_groups_view(res@) == grouped_by_place(*self, cards@.take(k as int)),
            decreases cards@.len() - k,
        {
            let c = cards[k];
            assert(placed(*self, cards@[k as int]));
            let key = self.place_exec(c);
            proof {
                assert(cards@.take(k + 1).drop_last() =~= cards@.take(k as int));
                lemma_grouped_places_distinct(*self, cards@.take(k as int));
            }
            let ghost g = grouped_by_place(*self, cards@.take(k as int));
            let mut found: Option<usize> = None;
            let mut j: usize = 0;
            while j < res.len()
                invariant_except_break
                    0 <= j <= res@.len(),
                    found is None,
                    forall|i: int| 0 <= i < j ==> res@[i].0 != key,
                invariant
                    place_groups_view(res@) == g,
                ensures
                    match found {
                        Some(j) => j < res@.len() && res@[j as int].0 == key,
                        None => forall|i: int| 0 <= i < res@.len() ==> res@[i].0 != key,
                    },
                decreases res@.len() - j,
            {
                if res[j].0.0 == key.0 && res[j].0.1 == key.1 {
                    found = Some(j);
                    break;
                }
                j = j + 1;
            }
            match found {
                Some(j) => {
                    proof {
                        assert(g[j as int].0 == key);
                        assert(has_place_group(g, key));
                        let i = place_group_index(g, key);
                        assert(distinct_places(g));
                        assert(i == j);
                    }
                    let (k0, mut group) = res.remove(j);
                    group.push(c);
                    res.insert(j, (k0, group));
                    proof {
                        assert(place_groups_view(res@) =~= grouped_by_place(*self, cards@.take(k + 1)));
                    }
                },
                None => {
                    proof {
                        assert(!has_place_group(g, key)) by {
                            if has_place_group(g, key) {
                                let i = choose|i: int| 0 <= i < g.len() && g[i].0 == key;
                                assert(res@[i].0 == g[i].0);
                            }
                        }
                    }
                    let mut group: Vec<CardRef> = Vec::new();
                    group.push(c);
                    res.push((key, group));
                    proof {
                        assert(place_groups_view(res@) =~= grouped_by_place(*self, cards@.take(k + 1)));
                    }
                },
            }
            k = k + 1;
        }
        proof {
            assert(cards@.take(cards@.len() as int) =~= cards@);
        }
        res
    }
}

} // verus!
