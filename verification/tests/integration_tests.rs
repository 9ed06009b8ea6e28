use smart_home::{Reading, Report, Room, SmartDevice, SmartHome, SmartHomeError, Socket, Thermometer};

fn reading(v: f32) -> Reading {
    Reading { bits: v.to_bits(), text: v.to_string() }
}

fn make_home() -> SmartHome {
    let mut home = SmartHome::new("Home");

    let mut living_room = Room::new("Living room");
    living_room.add_device("sensor", Thermometer::new("Sensor", reading(22.0)).into());
    living_room.add_device("lamp", Socket::new("Lamp", reading(60.0)).into());

    let mut bedroom = Room::new("Bedroom");
    bedroom.add_device("sensor", Thermometer::new("Sensor", reading(20.0)).into());
    bedroom.add_device("heater", Socket::new("Space heater", reading(2000.0)).into());

    home.add_room("living_room", living_room);
    home.add_room("bedroom", bedroom);
    home
}

#[test]
fn test_report_contains_expected_data() {
    let home = make_home();
    let report = home.report();

    assert!(report.contains("Home"));
    assert!(report.contains("living_room"));
    assert!(report.contains("bedroom"));
}

#[test]
fn smart_home_toggle_socket() {
    let mut home = make_home();

    let socket = home
        .get_room_mut("bedroom")
        .unwrap()
        .get_device_mut("heater")
        .unwrap()
        .as_socket_mut()
        .expect("expected a socket");

    socket.turn_on();
    assert!(socket.is_on());
    assert_eq!(socket.power(), reading(2000.0));

    socket.turn_off();
    assert!(!socket.is_on());
    assert_eq!(socket.power(), reading(0.0));

    let report = home.report();
    assert!(report.contains("Space heater"));
    assert!(report.contains("off"));
}

#[test]
fn test_dynamic_room_management() {
    let mut home = SmartHome::new("Home");
    assert_eq!(home.room_count(), 0);

    home.add_room("kitchen", Room::new("Kitchen"));
    assert_eq!(home.room_count(), 1);
    assert!(home.get_room("kitchen").is_some());

    let removed = home.remove_room("kitchen");
    assert!(removed.is_some());
    assert_eq!(home.room_count(), 0);
    assert!(home.remove_room("kitchen").is_none());
}

#[test]
fn test_dynamic_device_management() {
    let mut room = Room::new("Living room");
    assert_eq!(room.device_count(), 0);

    room.add_device("lamp", Socket::new("Lamp", reading(60.0)).into());
    assert_eq!(room.device_count(), 1);
    assert!(room.get_device("lamp").is_some());

    assert!(room.remove_device("lamp").is_some());
    assert_eq!(room.device_count(), 0);
    assert!(room.remove_device("lamp").is_none());
}

#[test]
fn integration_tests_test_get_device_ok() {
    let home = make_home();
    assert!(home.get_device("living_room", "lamp").is_ok());
}

#[test]
fn integration_tests_test_get_device_room_not_found() {
    let home = make_home();
    let result = home.get_device("no_such_room", "lamp");
    assert!(matches!(result, Err(SmartHomeError::RoomNotFound(_))));
    assert!(result.unwrap_err().message().contains("no_such_room"));
}

#[test]
fn integration_tests_test_get_device_device_not_found() {
    let home = make_home();
    let result = home.get_device("living_room", "no_such_device");
    assert!(matches!(result, Err(SmartHomeError::DeviceNotFound(_))));
    assert!(result.unwrap_err().message().contains("no_such_device"));
}

#[test]
fn integration_tests_test_from_socket() {
    let device: SmartDevice = Socket::new("Lamp", reading(60.0)).into();
    assert!(device.as_socket().is_some());
    assert!(device.as_thermometer().is_none());
}

#[test]
fn integration_tests_test_from_thermometer() {
    let device: SmartDevice = Thermometer::new("Sensor", reading(22.0)).into();
    assert!(device.as_thermometer().is_some());
    assert!(device.as_socket().is_none());
}

#[test]
fn test_room_macro_with_devices() {
    let mut room = Room::new("Living room");
    room.add_device("sensor", Thermometer::new("Sensor", reading(22.0)).into());
    room.add_device("lamp", Socket::new("Lamp", reading(60.0)).into());

    assert_eq!(room.name(), "Living room");
    assert_eq!(room.device_count(), 2);
    assert!(room.get_device("sensor").is_some());
    assert!(room.get_device("lamp").is_some());
}

#[test]
fn test_room_macro_empty() {
    let room = Room::new("Empty");
    assert_eq!(room.name(), "Empty");
    assert_eq!(room.device_count(), 0);
}

#[test]
fn test_report_trait_device() {
    let device: SmartDevice = Socket::new("Lamp", reading(60.0)).into();
    let r = device.report();
    assert!(r.contains("Lamp"));
    assert!(r.contains("off"));
}

#[test]
fn test_report_trait_room() {
    let mut room = Room::new("Bedroom");
    room.add_device("lamp", Socket::new("Lamp", reading(60.0)).into());
    let r = room.report();
    assert!(r.contains("Bedroom"));
    assert!(r.contains("lamp"));
}

#[test]
fn test_report_trait_home() {
    let home = make_home();
    let r = home.report();
    assert!(r.contains("Home"));
    assert!(r.contains("living_room"));
    assert!(r.contains("bedroom"));
}
