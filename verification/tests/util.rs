use night_gamma::util::{lerp, GlobalSlot, TakeIfExt};

#[test]
fn lerp_ends_and_middle() {
    assert_eq!(lerp(3500, 6500, 0, 1800), 3500 * 1800);
    assert_eq!(lerp(3500, 6500, 1800, 1800), 6500 * 1800);
    assert_eq!(lerp(3500, 6500, 900, 1800), 5000 * 1800);
    assert_eq!(lerp(6500, 3500, 600, 1800), 5500 * 1800);
    assert_eq!(lerp(10, 20, 1, 4), 10 * 3 + 20);
}

#[test]
fn lerp_beyond_the_ends() {
    // Twice as far as the end, on a rising and on a falling line.
    assert_eq!(lerp(10, 20, 8, 4), 30 * 4);
    assert_eq!(lerp(20, 10, 8, 4), 0);
    assert_eq!(lerp(20, 10, 12, 4), -10 * 4);
}

#[test]
fn lerp_extremes_do_not_overflow() {
    let most = u32::MAX as i128 * u64::MAX as i128;
    assert_eq!(lerp(u32::MAX, u32::MAX, u64::MAX, u64::MAX), most);
    assert_eq!(lerp(u32::MAX, 0, u64::MAX, 0), -most);
    assert_eq!(lerp(0, u32::MAX, u64::MAX, 0), most);
}

#[test]
fn take_if_takes_the_first_match() {
    let mut items = vec![1, 4, 6, 7, 8];
    let taken = items.take_if(|item: &i32| *item % 2 == 0);
    assert_eq!(taken, Some(4));
    // The last element has taken the place of the one removed.
    assert_eq!(items, vec![1, 8, 6, 7]);
}

#[test]
fn take_if_without_a_match_changes_nothing() {
    let mut items = vec![1, 3, 5];
    assert_eq!(items.take_if(|item: &i32| *item > 5), None);
    assert_eq!(items, vec![1, 3, 5]);
    let mut empty: Vec<i32> = Vec::new();
    assert_eq!(empty.take_if(|_: &i32| true), None);
}

#[test]
fn take_if_last_and_only_element() {
    let mut items = vec![String::from("a"), String::from("b")];
    assert_eq!(items.take_if(|item: &String| item == "b"), Some(String::from("b")));
    assert_eq!(items, vec![String::from("a")]);
    assert_eq!(items.take_if(|item: &String| item == "a"), Some(String::from("a")));
    assert!(items.is_empty());
}

#[test]
fn global_slot_binds_the_wanted_interface() {
    let mut slot = GlobalSlot::new(String::from("zwlr_gamma_control_manager_v1"));
    assert_eq!(slot.name(), None);
    assert!(!slot.global(1, &String::from("wl_compositor")));
    assert_eq!(slot.name(), None);
    assert!(slot.global(2, &String::from("zwlr_gamma_control_manager_v1")));
    assert_eq!(slot.name(), Some(2));
    assert!(!slot.global(3, &String::from("wl_output")));
    assert_eq!(slot.name(), Some(2));
}

#[test]
fn global_slot_later_global_takes_over() {
    let mut slot = GlobalSlot::new(String::from("wl_seat"));
    assert!(slot.global(4, &String::from("wl_seat")));
    assert!(slot.global(9, &String::from("wl_seat")));
    assert_eq!(slot.name(), Some(9));
}

#[test]
fn global_slot_empties_when_its_global_goes() {
    let mut slot = GlobalSlot::new(String::from("wl_seat"));
    assert!(!slot.global_remove(4));
    assert!(slot.global(4, &String::from("wl_seat")));
    assert!(!slot.global_remove(5));
    assert_eq!(slot.name(), Some(4));
    assert!(slot.global_remove(4));
    assert_eq!(slot.name(), None);
    assert!(!slot.global_remove(4));
}
