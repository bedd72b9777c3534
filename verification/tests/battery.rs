use fluxsyncd::battery::{
    battery_tick, parse_pmset, read_battery, read_linux, read_windows, PowerStatus, PowerSupply,
    RawBattery,
};
use fluxsyncd::wire::Event;

#[test]
fn discharging_reports_not_charging() {
    let s = "Now drawing from 'Battery Power'\n \
             -InternalBattery-0 (id=1234567)\t85%; discharging; 10:00 remaining present: true";
    assert_eq!(parse_pmset(s), Some((85, false)));
}

#[test]
fn charging_on_ac_reports_charging() {
    let s = "Now drawing from 'AC Power'\n \
             -InternalBattery-0 (id=1234567)\t42%; charging; 1:30 remaining present: true";
    assert_eq!(parse_pmset(s), Some((42, true)));
}

#[test]
fn charged_on_ac_reports_on_power() {
    let s = "Now drawing from 'AC Power'\n \
             -InternalBattery-0 (id=1234567)\t100%; charged; 0:00 remaining present: true";
    assert_eq!(parse_pmset(s), Some((100, true)));
}

#[test]
fn not_charging_on_ac_reports_on_power() {
    let s = "Now drawing from 'AC Power'\n \
             -InternalBattery-0 (id=1234567)\t80%; not charging; (no estimate) present: true";
    assert_eq!(parse_pmset(s), Some((80, true)));
}

#[test]
fn desktop_without_internal_battery_is_none() {
    assert_eq!(parse_pmset("Now drawing from 'AC Power'"), None);
}

#[test]
fn pmset_edges() {
    assert_eq!(parse_pmset(""), None);
    assert_eq!(parse_pmset("InternalBattery no level"), None);
    assert_eq!(parse_pmset("InternalBattery %"), None);
    assert_eq!(parse_pmset("InternalBattery 300%"), None);
    assert_eq!(parse_pmset("InternalBattery 200%"), Some((100, false)));
    assert_eq!(parse_pmset("InternalBattery 007%"), Some((7, false)));
    assert_eq!(parse_pmset("InternalBattery-0 10%\nInternalBattery-1 20%"), Some((20, false)));
    assert_eq!(parse_pmset("InternalBattery-0 10%\r\nInternalBattery-1 x%"), Some((10, false)));
    assert_eq!(parse_pmset("OtherBattery 10%"), None);
}

fn supply(name: &str, capacity: Option<&str>, status: Option<&str>) -> PowerSupply {
    PowerSupply {
        name: name.to_string(),
        capacity: capacity.map(str::to_string),
        status: status.map(str::to_string),
    }
}

#[test]
fn first_linux_battery_counts() {
    let s = vec![
        supply("AC", Some("1"), None),
        supply("BAT0", Some("57\n"), Some("Discharging\n")),
        supply("BAT1", Some("99\n"), Some("Full\n")),
    ];
    assert_eq!(read_linux(&s), Some((57, false)));
    assert_eq!(read_linux(&vec![supply("BAT0", Some("130"), Some("Not charging"))]), Some((100, true)));
    assert_eq!(read_linux(&vec![supply("BAT0", Some("+5"), Some("Charging"))]), Some((5, true)));
    assert_eq!(read_linux(&vec![supply("BAT0", Some("5"), None)]), Some((5, false)));
    assert_eq!(read_linux(&vec![supply("BAT0", Some("5"), Some("Unknown"))]), Some((5, false)));
    assert_eq!(read_linux(&vec![supply("BAT0", None, None), supply("BAT1", Some("5"), None)]), None);
    assert_eq!(read_linux(&vec![supply("BAT0", Some("x"), None)]), None);
    assert_eq!(read_linux(&vec![supply("BAT0", Some("4294967296"), None)]), None);
    assert_eq!(read_linux(&vec![supply("AC", Some("5"), None)]), None);
}

#[test]
fn windows_power_status_is_read() {
    let st = |ac_line, battery_flag, percent| PowerStatus { ac_line, battery_flag, percent };
    assert_eq!(read_windows(st(1, 8, 77)), Some((77, true)));
    assert_eq!(read_windows(st(0, 1, 101)), Some((100, false)));
    assert_eq!(read_windows(st(1, 128, 77)), None);
    assert_eq!(read_windows(st(1, 0, 255)), None);
}

#[test]
fn battery_is_read_per_system() {
    let mac = RawBattery::MacOs { pmset: "InternalBattery 12% 'AC Power'".to_string() };
    assert_eq!(read_battery(&mac), Some((12, true)));
    let linux = RawBattery::Linux { supplies: vec![supply("BATX", Some("3"), Some("Full"))] };
    assert_eq!(read_battery(&linux), Some((3, true)));
    let win = RawBattery::Windows {
        status: PowerStatus { ac_line: 2, battery_flag: 0, percent: 50 },
    };
    assert_eq!(read_battery(&win), Some((50, false)));
    assert_eq!(read_battery(&RawBattery::Unavailable), None);
}

#[test]
fn only_a_new_reading_is_told() {
    let mut last = None;
    assert!(battery_tick(&mut last, None).is_none());
    assert!(matches!(
        battery_tick(&mut last, Some((50, true))),
        Some(Event::BatteryChangedSelf { level: 50, charging: true })
    ));
    assert!(battery_tick(&mut last, Some((50, true))).is_none());
    assert!(battery_tick(&mut last, None).is_none());
    assert!(matches!(
        battery_tick(&mut last, Some((50, false))),
        Some(Event::BatteryChangedSelf { level: 50, charging: false })
    ));
    assert_eq!(last, Some((50, false)));
}
