use hocg_fan_sim::board::GameBoard;
use hocg_fan_sim::gameplay::{CardRef, Zone, ZoneAddLocation};
use hocg_fan_sim::state::empty_board;

fn c(n: u16) -> CardRef {
    CardRef(n)
}

fn board_with_hand(cards: &[u16]) -> GameBoard {
    let mut b = empty_board();
    for n in cards {
        b.hand.push_back(c(*n));
    }
    b
}

#[test]
fn send_to_zone_moves_card_to_top() {
    let mut b = board_with_hand(&[1, 2, 3]);
    b.archive.push_back(c(9));
    b.send_to_zone(c(2), Zone::Archive, ZoneAddLocation::Top);
    assert_eq!(b.hand(), vec![c(1), c(3)]);
    assert_eq!(b.all_cards(Zone::Archive), vec![c(2), c(9)]);
}

#[test]
fn send_to_zone_moves_card_to_bottom() {
    let mut b = board_with_hand(&[1, 2, 3]);
    b.archive.push_back(c(9));
    b.send_to_zone(c(1), Zone::Archive, ZoneAddLocation::Bottom);
    assert_eq!(b.all_cards(Zone::Archive), vec![c(9), c(1)]);
    assert_eq!(b.find_card_zone(c(1)), Some(Zone::Archive));
}

#[test]
fn send_to_zone_ignores_card_nowhere() {
    let mut b = board_with_hand(&[1]);
    b.send_to_zone(c(5), Zone::Archive, ZoneAddLocation::Top);
    assert_eq!(b.hand(), vec![c(1)]);
    assert!(b.all_cards(Zone::Archive).is_empty());
}

#[test]
fn attach_and_bloom_keep_every_card() {
    let mut b = board_with_hand(&[1, 2]);
    b.center_stage = Some(c(7));
    b.attach_to_card(c(1), c(7));
    assert!(b.is_attached(c(1)));
    assert!(b.is_attached_to(c(1), c(7)));
    assert_eq!(b.attached_to(c(1)), Some(c(7)));
    assert_eq!(b.attachments(c(7)), vec![c(1)]);
    // bloom: 2 goes on top of 7
    b.attach_to_card(c(2), c(7));
    b.promote_attachment(c(2), c(7));
    assert_eq!(b.center_stage, Some(c(2)));
    assert_eq!(b.attached_to(c(7)), Some(c(2)));
    assert_eq!(b.attached_to(c(1)), Some(c(2)));
    let mut att = b.attachments(c(2));
    att.sort_by_key(|c| c.0);
    assert_eq!(att, vec![c(1), c(7)]);
}

#[test]
fn send_all_from_zone_counts_cards() {
    let mut b = board_with_hand(&[1, 2, 3]);
    let n = b.send_all_from_zone(Zone::Hand, Zone::Archive, ZoneAddLocation::Top);
    assert_eq!(n, 3);
    assert_eq!(b.all_cards(Zone::Archive), vec![c(3), c(2), c(1)]);
    assert!(b.hand().is_empty());
}

#[test]
fn stage_lists_center_collab_back() {
    let mut b = empty_board();
    b.center_stage = Some(c(1));
    b.collab = Some(c(2));
    b.back_stage.push_back(c(3));
    assert_eq!(b.stage(), vec![c(1), c(2), c(3)]);
    assert_eq!(b.main_stage(), vec![c(1), c(2)]);
    assert_eq!(b.all_cards(Zone::Stage), vec![c(1), c(2), c(3)]);
}

#[test]
fn group_cards_by_zone_keeps_order() {
    let mut b = board_with_hand(&[1, 2]);
    b.archive.push_back(c(3));
    let g = b.group_cards_by_zone(&[c(1), c(3), c(2)]);
    assert_eq!(g.len(), 2);
    assert_eq!(g[0].0, Zone::Hand);
    assert_eq!(g[0].1, vec![c(1), c(2)]);
    assert_eq!(g[1].0, Zone::Archive);
    assert_eq!(g[1].1, vec![c(3)]);
}

#[test]
fn send_from_zone_keeps_every_card() {
    let mut b = board_with_hand(&[1, 2, 3]);
    b.archive.push_back(c(9));
    b.send_from_zone(Zone::Hand, Zone::Archive, ZoneAddLocation::Bottom, 2);
    assert_eq!(b.hand(), vec![c(3)]);
    assert_eq!(b.all_cards(Zone::Archive), vec![c(9), c(1), c(2)]);
    let mut all = b.hand();
    all.extend(b.all_cards(Zone::Archive));
    all.sort_by_key(|c| c.0);
    assert_eq!(all, vec![c(1), c(2), c(3), c(9)]);
}

#[test]
fn cards_grouped_by_zone_are_those_of_each_zone_in_order() {
    let mut b = board_with_hand(&[1, 2]);
    b.archive.push_back(c(3));
    b.archive.push_back(c(4));
    let groups = b.group_cards_by_zone(&[c(4), c(1), c(3), c(2)]);
    assert_eq!(groups, vec![(Zone::Archive, vec![c(4), c(3)]), (Zone::Hand, vec![c(1), c(2)])]);
}
