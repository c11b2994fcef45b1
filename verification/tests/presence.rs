use usb_wait::device_id::DeviceID;
use usb_wait::presence::{first_present, is_connected, is_wanted};
use usb_wait::usb::UsbError;

const KEYBOARD: DeviceID = DeviceID { vid: 0x046d, pid: 0xc31c };
const MOUSE: DeviceID = DeviceID { vid: 0x046d, pid: 0xc52b };
const HUB: DeviceID = DeviceID { vid: 0x1d6b, pid: 0x0002 };
const STICK: DeviceID = DeviceID { vid: 0x0781, pid: 0x5567 };

#[test]
fn a_listed_target_is_found() {
    let listing = vec![Some(HUB), Some(KEYBOARD), Some(MOUSE)];
    assert_eq!(is_connected(Ok(listing), &vec![MOUSE]), Some(MOUSE));
}

#[test]
fn the_only_match_is_answered_wherever_it_stands() {
    for at in 0..4 {
        let mut listing = vec![Some(HUB), Some(HUB), Some(HUB), Some(HUB)];
        listing[at] = Some(STICK);
        assert_eq!(is_connected(Ok(listing), &vec![KEYBOARD, STICK]), Some(STICK));
    }
}

#[test]
fn nothing_is_found_without_targets() {
    let listing = vec![Some(HUB), Some(KEYBOARD)];
    assert_eq!(is_connected(Ok(listing), &Vec::new()), None);
    assert_eq!(is_connected(Ok(Vec::new()), &Vec::new()), None);
}

#[test]
fn nothing_is_found_when_no_device_matches() {
    let listing = vec![Some(HUB), Some(KEYBOARD)];
    assert_eq!(is_connected(Ok(listing), &vec![MOUSE, STICK]), None);
}

#[test]
fn nothing_is_found_in_an_empty_listing() {
    assert_eq!(is_connected(Ok(Vec::new()), &vec![MOUSE]), None);
}

#[test]
fn both_fields_must_match() {
    let listing = vec![Some(DeviceID { vid: 0x046d, pid: 1 }), Some(DeviceID { vid: 1, pid: 0xc52b })];
    assert_eq!(is_connected(Ok(listing), &vec![MOUSE]), None);
    let swapped = vec![Some(DeviceID { vid: MOUSE.pid, pid: MOUSE.vid })];
    assert_eq!(is_connected(Ok(swapped), &vec![MOUSE]), None);
}

#[test]
fn the_first_listed_match_wins() {
    let listing = vec![Some(HUB), Some(MOUSE), Some(KEYBOARD)];
    assert_eq!(is_connected(Ok(listing), &vec![KEYBOARD, MOUSE]), Some(MOUSE));
    let listing = vec![Some(HUB), Some(KEYBOARD), Some(MOUSE)];
    assert_eq!(is_connected(Ok(listing), &vec![KEYBOARD, MOUSE]), Some(KEYBOARD));
}

#[test]
fn the_order_of_the_targets_does_not_count() {
    let listing = vec![Some(HUB), Some(MOUSE), Some(KEYBOARD), Some(STICK)];
    let orders = [
        vec![KEYBOARD, MOUSE, STICK],
        vec![KEYBOARD, STICK, MOUSE],
        vec![MOUSE, KEYBOARD, STICK],
        vec![MOUSE, STICK, KEYBOARD],
        vec![STICK, KEYBOARD, MOUSE],
        vec![STICK, MOUSE, KEYBOARD],
    ];
    for ids in orders.iter() {
        assert_eq!(is_connected(Ok(listing.clone()), ids), Some(MOUSE));
    }
}

#[test]
fn repeated_targets_do_no_harm() {
    let listing = vec![Some(HUB), Some(MOUSE)];
    assert_eq!(is_connected(Ok(listing.clone()), &vec![MOUSE, MOUSE, MOUSE]), Some(MOUSE));
    assert_eq!(is_connected(Ok(listing), &vec![STICK, STICK]), None);
}

#[test]
fn unreadable_entries_are_passed_over() {
    let listing = vec![None, Some(HUB), None, Some(MOUSE), None];
    assert_eq!(is_connected(Ok(listing), &vec![MOUSE]), Some(MOUSE));
    assert_eq!(is_connected(Ok(vec![None, None]), &vec![MOUSE]), None);
}

#[test]
fn a_failed_listing_holds_no_device() {
    assert_eq!(is_connected(Err(UsbError::Io), &vec![MOUSE]), None);
    assert_eq!(is_connected(Err(UsbError::Access), &vec![MOUSE, HUB]), None);
    assert_eq!(is_connected(Err(UsbError::NoDevice), &Vec::new()), None);
}

#[test]
fn wanted_is_membership() {
    let ids = vec![KEYBOARD, MOUSE];
    assert!(is_wanted(KEYBOARD, &ids));
    assert!(is_wanted(MOUSE, &ids));
    assert!(!is_wanted(HUB, &ids));
    assert!(!is_wanted(HUB, &Vec::new()));
}

#[test]
fn a_listing_is_searched_in_its_own_order() {
    let listing = vec![None, Some(HUB), Some(STICK), Some(MOUSE), Some(STICK)];
    assert_eq!(first_present(&listing, &vec![MOUSE, STICK]), Some(STICK));
    assert_eq!(first_present(&listing, &vec![MOUSE]), Some(MOUSE));
    assert_eq!(first_present(&listing, &vec![KEYBOARD]), None);
    assert_eq!(first_present(&listing, &Vec::new()), None);
    assert_eq!(first_present(&Vec::new(), &vec![MOUSE]), None);
}

#[test]
fn searching_leaves_listing_and_targets_as_they_were() {
    let listing = vec![Some(HUB), None, Some(MOUSE)];
    let ids = vec![MOUSE, STICK];
    assert_eq!(first_present(&listing, &ids), Some(MOUSE));
    assert_eq!(listing, vec![Some(HUB), None, Some(MOUSE)]);
    assert_eq!(ids, vec![MOUSE, STICK]);
}
