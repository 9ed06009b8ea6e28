use smart_home::{Reading, Report, Room, SmartHome, SmartHomeError, Socket, Thermometer};

fn reading(v: f32) -> Reading {
    Reading { bits: v.to_bits(), text: v.to_string() }
}

fn make_home() -> SmartHome {
    let mut home = SmartHome::new("Apartment");

    let mut living_room = Room::new("Living room");
    living_room.add_device("sensor", Thermometer::new("Sensor", reading(20.0)).into());
    living_room.add_device("lamp", Socket::new("Lamp", reading(60.0)).into());

    let mut bedroom = Room::new("Bedroom");
    bedroom.add_device("sensor", Thermometer::new("Sensor", reading(18.0)).into());
    bedroom.add_device("heater", Socket::new("Space heater", reading(2000.0)).into());

    home.add_room("living_room", living_room);
    home.add_room("bedroom", bedroom);
    home
}

#[test]
fn test_creation() {
    let home = SmartHome::new("Apartment");
    assert_eq!(home.name(), "Apartment");
    assert_eq!(home.room_count(), 0);
}

#[test]
fn test_add_remove_room() {
    let mut home = SmartHome::new("Home");
    home.add_room("kitchen", Room::new("Kitchen"));
    assert_eq!(home.room_count(), 1);

    assert!(home.remove_room("kitchen").is_some());
    assert_eq!(home.room_count(), 0);
    assert!(home.remove_room("kitchen").is_none());
}

#[test]
fn test_get_room() {
    let home = make_home();
    assert!(home.get_room("living_room").is_some());
    assert!(home.get_room("nonexistent").is_none());
}

#[test]
fn test_get_room_mut_and_toggle_socket() {
    let mut home = make_home();
    home.get_room_mut("bedroom")
        .unwrap()
        .get_device_mut("heater")
        .unwrap()
        .as_socket_mut()
        .unwrap()
        .turn_on();

    assert!(home
        .get_room("bedroom")
        .unwrap()
        .get_device("heater")
        .unwrap()
        .as_socket()
        .unwrap()
        .is_on());
}

#[test]
fn smart_home_test_get_device_ok() {
    let home = make_home();
    assert!(home.get_device("living_room", "lamp").is_ok());
}

#[test]
fn smart_home_test_get_device_room_not_found() {
    let home = make_home();
    assert!(matches!(
        home.get_device("no_such_room", "lamp"),
        Err(SmartHomeError::RoomNotFound(_))
    ));
}

#[test]
fn smart_home_test_get_device_device_not_found() {
    let home = make_home();
    assert!(matches!(
        home.get_device("living_room", "no_such_device"),
        Err(SmartHomeError::DeviceNotFound(_))
    ));
}

#[test]
fn test_report_contains_home_and_rooms() {
    let home = make_home();
    let r = home.report();
    assert!(r.contains("Apartment"));
    assert!(r.contains("living_room"));
    assert!(r.contains("bedroom"));
}

#[test]
fn test_home_report_orders_room_keys() {
    let mut home = SmartHome::new("Ordered");
    home.add_room("b", Room::new("B room"));
    home.add_room("a", Room::new("A room"));
    home.add_room("c", Room::new("C room"));

    let r = home.report();
    let pa = r.find("[Room: a]").unwrap();
    let pb = r.find("[Room: b]").unwrap();
    let pc = r.find("[Room: c]").unwrap();
    assert!(pa < pb);
    assert!(pb < pc);
}

#[test]
fn test_error_messages_carry_the_key() {
    let home = make_home();

    let e1 = home.get_device("no_such_room", "lamp").unwrap_err();
    assert_eq!(e1.message(), "Room 'no_such_room' not found");

    let e2 = home.get_device("living_room", "ghost").unwrap_err();
    assert_eq!(e2.message(), "Device 'ghost' not found");
}

#[test]
fn test_end_to_end_heater_scenario() {
    let mut home = SmartHome::new("Apartment");
    let mut bedroom = Room::new("Bedroom");
    bedroom.add_device("heater", Socket::new("Space heater", reading(2000.0)).into());
    home.add_room("bedroom", bedroom);

    assert!(home.report().contains("off"));

    home.get_room_mut("bedroom")
        .unwrap()
        .get_device_mut("heater")
        .unwrap()
        .as_socket_mut()
        .unwrap()
        .turn_on();

    let heater = home.get_device("bedroom", "heater").unwrap().as_socket().unwrap();
    assert_eq!(heater.power(), reading(2000.0));
    let r = home.report();
    assert!(r.contains("on"));
    assert!(r.contains("2000"));

    home.get_room_mut("bedroom")
        .unwrap()
        .get_device_mut("heater")
        .unwrap()
        .as_socket_mut()
        .unwrap()
        .turn_off();

    let r = home.report();
    assert!(r.contains("off"));
    assert!(r.contains("0"));
}
