use statusline::batteries::battery_from_vars;
use statusline::batteries::battery_is_warning;
use statusline::batteries::battery_percentage;
use statusline::batteries::devpath_from_link;
use statusline::batteries::Batteries;
use statusline::uevent::parse_datagram;
use statusline::uevent::Event;

fn event(parts: &[&[u8]]) -> Event {
    let mut buf = Vec::new();
    for part in parts {
        buf.extend_from_slice(part);
        buf.push(0);
    }
    parse_datagram(&buf).unwrap()
}

fn add_bat0() -> Event {
    event(&[
        b"add@/devices/bat0",
        b"ACTION=add",
        b"DEVPATH=/devices/bat0",
        b"POWER_SUPPLY_ENERGY_FULL=1000",
        b"POWER_SUPPLY_ENERGY_NOW=500",
        b"POWER_SUPPLY_STATUS=Discharging",
    ])
}

#[test]
fn add_to_empty_map_yields_one_entry() {
    let mut bats = Batteries::new();
    let dirty = bats.apply_event(&add_bat0());
    assert!(dirty);
    assert_eq!(bats.len(), 1);
    let (devpath, info) = bats.entry_at(0);
    assert_eq!(devpath.as_str(), "/devices/bat0");
    assert_eq!(info.energy_full, 1000);
    assert_eq!(info.energy_now, 500);
    assert_eq!(info.status.as_str(), "Discharging");
    assert_eq!(battery_percentage(info), 50);
}

#[test]
fn percentage_rounds_down() {
    let ev = event(&[
        b"change@/devices/bat0",
        b"ACTION=change",
        b"DEVPATH=/devices/bat0",
        b"POWER_SUPPLY_ENERGY_FULL=3",
        b"POWER_SUPPLY_ENERGY_NOW=1",
        b"POWER_SUPPLY_STATUS=Full",
    ]);
    let mut bats = Batteries::new();
    assert!(bats.apply_event(&ev));
    let (_, info) = bats.entry_at(0);
    assert_eq!(battery_percentage(info), 33);
}

#[test]
fn remove_absent_path_is_clean_noop() {
    let mut bats = Batteries::new();
    bats.apply_event(&add_bat0());
    let ev = event(&[
        b"remove@/devices/bat1",
        b"ACTION=remove",
        b"DEVPATH=/devices/bat1",
    ]);
    let dirty = bats.apply_event(&ev);
    assert!(!dirty);
    assert_eq!(bats.len(), 1);
}

#[test]
fn remove_present_path_deletes_and_is_dirty() {
    let mut bats = Batteries::new();
    bats.apply_event(&add_bat0());
    let ev = event(&[
        b"remove@/devices/bat0",
        b"ACTION=remove",
        b"DEVPATH=/devices/bat0",
    ]);
    assert!(bats.apply_event(&ev));
    assert_eq!(bats.len(), 0);
}

#[test]
fn change_replaces_entry() {
    let mut bats = Batteries::new();
    bats.apply_event(&add_bat0());
    let ev = event(&[
        b"change@/devices/bat0",
        b"ACTION=change",
        b"DEVPATH=/devices/bat0",
        b"POWER_SUPPLY_ENERGY_FULL=1000",
        b"POWER_SUPPLY_ENERGY_NOW=100",
        b"POWER_SUPPLY_STATUS=Charging",
    ]);
    assert!(bats.apply_event(&ev));
    assert_eq!(bats.len(), 1);
    let (_, info) = bats.entry_at(0);
    assert_eq!(battery_percentage(info), 10);
    assert_eq!(info.status.as_str(), "Charging");
}

#[test]
fn event_without_battery_fields_is_skipped() {
    let mut bats = Batteries::new();
    let ev = event(&[
        b"add@/devices/usb1",
        b"ACTION=add",
        b"DEVPATH=/devices/usb1",
    ]);
    assert!(!bats.apply_event(&ev));
    assert_eq!(bats.len(), 0);
}

#[test]
fn event_without_action_or_devpath_is_skipped() {
    let mut bats = Batteries::new();
    let ev = event(&[b"libudev", b"SUBSYSTEM=power_supply"]);
    assert!(!bats.apply_event(&ev));
    assert_eq!(bats.len(), 0);
}

#[test]
fn zero_full_capacity_is_rejected() {
    let ev = event(&[
        b"add@/devices/bat0",
        b"ACTION=add",
        b"DEVPATH=/devices/bat0",
        b"POWER_SUPPLY_ENERGY_FULL=0",
        b"POWER_SUPPLY_ENERGY_NOW=0",
        b"POWER_SUPPLY_STATUS=Unknown",
    ]);
    assert!(battery_from_vars(&ev.vars).is_err());
    let mut bats = Batteries::new();
    assert!(!bats.apply_event(&ev));
    assert_eq!(bats.len(), 0);
}

#[test]
fn non_numeric_capacity_is_rejected() {
    let ev = event(&[
        b"add@/devices/bat0",
        b"ACTION=add",
        b"DEVPATH=/devices/bat0",
        b"POWER_SUPPLY_ENERGY_FULL=many",
        b"POWER_SUPPLY_ENERGY_NOW=500",
        b"POWER_SUPPLY_STATUS=Unknown",
    ]);
    assert!(battery_from_vars(&ev.vars).is_err());
}

#[test]
fn empty_batch_reports_not_dirty() {
    let mut bats = Batteries::new();
    bats.apply_event(&add_bat0());
    let events: Vec<Event> = Vec::new();
    assert!(!bats.apply_events(&events));
    assert_eq!(bats.len(), 1);
}

#[test]
fn batch_is_dirty_when_any_record_is() {
    let mut bats = Batteries::new();
    let events = vec![
        event(&[b"libudev", b"SUBSYSTEM=power_supply"]),
        add_bat0(),
    ];
    assert!(bats.apply_events(&events));
    assert_eq!(bats.len(), 1);
}

#[test]
fn warning_at_fifteen_percent_boundary() {
    assert!(battery_is_warning(15));
    assert!(battery_is_warning(0));
    assert!(!battery_is_warning(16));
}

#[test]
fn devpath_is_stripped_from_link_target() {
    let r = devpath_from_link(b"../../devices/platform/bat0").unwrap();
    assert_eq!(r, b"/devices/platform/bat0".to_vec());
    assert!(devpath_from_link(b"/sys/devices/bat0").is_none());
    assert!(devpath_from_link(b"..").is_none());
}
