use forest::hand::Hand;
use forest::plants::PlantInstance;

fn inst(species: usize) -> PlantInstance {
    PlantInstance { species, age: 0, size: 0 }
}

fn hand_of_three() -> Hand {
    Hand::new(vec![inst(0), inst(1), inst(2)])
}

#[test]
fn select_wraps_backward_from_start() {
    let mut h = hand_of_three();
    assert_eq!(h.index, Some(0));
    h.select_prev();
    assert_eq!(h.index, Some(2));
}

#[test]
fn select_wraps_forward_from_end() {
    let mut h = hand_of_three();
    h.select_prev();
    assert_eq!(h.index, Some(2));
    h.select_next();
    assert_eq!(h.index, Some(0));
}

#[test]
fn select_steps_through_all_slots() {
    let mut h = hand_of_three();
    h.select_next();
    assert_eq!(h.index, Some(1));
    h.select_next();
    assert_eq!(h.index, Some(2));
    h.select_prev();
    assert_eq!(h.index, Some(1));
}

#[test]
fn select_on_empty_hand_is_noop() {
    let mut h = Hand::new(vec![]);
    assert_eq!(h.index, None);
    h.select_next();
    assert_eq!(h.index, None);
    h.select_prev();
    assert_eq!(h.index, None);
}

#[test]
fn take_last_slot_shrinks_without_swap() {
    let mut h = hand_of_three();
    h.select_next();
    h.select_next();
    assert_eq!(h.index, Some(2));
    let taken = h.take_selected();
    assert_eq!(taken, Some(inst(2)));
    // Removing the actual last element: no swap happened.
    assert_eq!(h.plants, vec![inst(0), inst(1)]);
    // Selection steps back by one since the index was above zero.
    assert_eq!(h.index, Some(1));
}

#[test]
fn take_first_slot_swaps_last_into_place() {
    let mut h = hand_of_three();
    let taken = h.take_selected();
    assert_eq!(taken, Some(inst(0)));
    // The previously last element now occupies the freed slot.
    assert_eq!(h.plants, vec![inst(2), inst(1)]);
    // Selection stays at zero.
    assert_eq!(h.index, Some(0));
}

#[test]
fn take_middle_slot_swaps_last_into_place() {
    let mut h = hand_of_three();
    h.select_next();
    let taken = h.take_selected();
    assert_eq!(taken, Some(inst(1)));
    assert_eq!(h.plants, vec![inst(0), inst(2)]);
    assert_eq!(h.index, Some(0));
}

#[test]
fn take_down_to_empty_clears_selection() {
    let mut h = Hand::new(vec![inst(7)]);
    let taken = h.take_selected();
    assert_eq!(taken, Some(inst(7)));
    assert!(h.plants.is_empty());
    assert_eq!(h.index, None);
}

#[test]
fn take_from_empty_hand_returns_nothing() {
    let mut h = Hand::new(vec![]);
    assert_eq!(h.take_selected(), None);
    assert_eq!(h.index, None);
}

#[test]
fn selected_clones_current_slot() {
    let h = hand_of_three();
    assert_eq!(h.selected(), Some(inst(0)));
    assert_eq!(Hand::new(vec![]).selected(), None);
}

#[test]
fn append_keeps_selection_and_order() {
    let mut h = hand_of_three();
    h.select_next();
    let mut more = vec![inst(3), inst(4)];
    h.append(&mut more);
    assert!(more.is_empty());
    assert_eq!(h.plants, vec![inst(0), inst(1), inst(2), inst(3), inst(4)]);
    assert_eq!(h.index, Some(1));
}

#[test]
fn append_to_empty_hand_resets_selection() {
    let mut h = Hand::new(vec![]);
    let mut more = vec![inst(5)];
    h.append(&mut more);
    assert_eq!(h.index, Some(0));
    assert_eq!(h.plants, vec![inst(5)]);
}

#[test]
fn push_to_empty_hand_resets_selection() {
    let mut h = Hand::new(vec![]);
    h.push(inst(6));
    assert_eq!(h.index, Some(0));
    assert_eq!(h.plants, vec![inst(6)]);
}
