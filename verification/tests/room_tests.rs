use smart_home::{Reading, Report, Room, Socket, Thermometer};

fn reading(v: f32) -> Reading {
    Reading { bits: v.to_bits(), text: v.to_string() }
}

#[test]
fn test_room_creation() {
    let room = Room::new("Living room");
    assert_eq!(room.name(), "Living room");
    assert_eq!(room.device_count(), 0);
}

#[test]
fn test_add_and_count() {
    let mut room = Room::new("Bedroom");
    room.add_device("sensor", Thermometer::new("Sensor", reading(20.0)).into());
    room.add_device("lamp", Socket::new("Lamp", reading(100.0)).into());
    assert_eq!(room.device_count(), 2);
}

#[test]
fn test_get_device() {
    let mut room = Room::new("Bedroom");
    room.add_device("sensor", Thermometer::new("Sensor", reading(20.0)).into());

    assert!(room.get_device("sensor").unwrap().as_thermometer().is_some());
    assert!(room.get_device("nonexistent").is_none());
}

#[test]
fn test_get_device_mut() {
    let mut room = Room::new("Kitchen");
    room.add_device("lamp", Socket::new("Lamp", reading(100.0)).into());

    room.get_device_mut("lamp").and_then(|d| d.as_socket_mut()).unwrap().turn_on();

    assert!(room.get_device("lamp").unwrap().as_socket().unwrap().is_on());
}

#[test]
fn test_remove_device() {
    let mut room = Room::new("Bathroom");
    room.add_device("light", Socket::new("Light", reading(60.0)).into());
    assert_eq!(room.device_count(), 1);

    assert!(room.remove_device("light").is_some());
    assert_eq!(room.device_count(), 0);
    assert!(room.remove_device("light").is_none());
}

#[test]
fn test_report_contains_name_and_key() {
    let mut room = Room::new("Hall");
    room.add_device("sensor", Thermometer::new("Sensor", reading(22.5)).into());
    let r = room.report();
    assert!(r.contains("Hall"));
    assert!(r.contains("sensor"));
    assert!(r.contains("22.5"));
}

#[test]
fn test_overwrite_last_wins() {
    let mut room = Room::new("Study");
    room.add_device("spot", Socket::new("Old lamp", reading(40.0)).into());
    room.add_device("spot", Socket::new("New lamp", reading(60.0)).into());

    assert_eq!(room.device_count(), 1);
    let got = room.get_device("spot").unwrap().as_socket().unwrap();
    assert_eq!(got.name(), "New lamp");
    assert_eq!(got.power_consumption(), reading(60.0));
}

#[test]
fn test_remove_absent_key_returns_none_and_keeps_count() {
    let mut room = Room::new("Study");
    room.add_device("spot", Socket::new("Lamp", reading(60.0)).into());

    assert!(room.remove_device("ghost").is_none());
    assert_eq!(room.device_count(), 1);
}

#[test]
fn test_report_orders_keys_not_insertions() {
    let mut room = Room::new("Hall");
    room.add_device("b", Socket::new("B lamp", reading(1.0)).into());
    room.add_device("a", Socket::new("A lamp", reading(2.0)).into());
    room.add_device("c", Socket::new("C lamp", reading(3.0)).into());

    let r = room.report();
    let pa = r.find("[a]").unwrap();
    let pb = r.find("[b]").unwrap();
    let pc = r.find("[c]").unwrap();
    assert!(pa < pb);
    assert!(pb < pc);
}
