use acmensa::meal::AllergenList;
use acmensa::schedule::{menu_slot, next_day_slot};

#[test]
fn menu_slot_maps_days_to_pages() {
    assert_eq!(menu_slot(0), Some((false, 0)));
    assert_eq!(menu_slot(4), Some((false, 4)));
    assert_eq!(menu_slot(5), None);
    assert_eq!(menu_slot(6), None);
    assert_eq!(menu_slot(7), Some((true, 0)));
    assert_eq!(menu_slot(11), Some((true, 4)));
    assert_eq!(menu_slot(13), None);
    assert_eq!(menu_slot(14), None);
    assert_eq!(menu_slot(-1), None);
}

#[test]
fn next_day_slot_skips_weekends() {
    assert_eq!(next_day_slot(1), Some((false, 1)));
    assert_eq!(next_day_slot(4), Some((false, 4)));
    assert_eq!(next_day_slot(5), None);
    assert_eq!(next_day_slot(6), Some((true, 0)));
    assert_eq!(next_day_slot(7), Some((true, 0)));
}

#[test]
fn allergen_list_from_codes_sorts_and_dedups() {
    let codes = vec!["C".to_string(), "A".to_string(), "C".to_string(), "B".to_string()];
    let list = AllergenList::from_codes(&codes);
    assert_eq!(list.codes(), &vec!["A".to_string(), "B".to_string(), "C".to_string()]);
    assert!(AllergenList::from_codes(&vec![]).is_empty());
}
