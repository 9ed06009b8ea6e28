use smart_home::{Reading, Report, SmartDevice, Socket, Thermometer};

fn reading(v: f32) -> Reading {
    Reading { bits: v.to_bits(), text: v.to_string() }
}

#[test]
fn test_as_thermometer_and_socket() {
    let therm = Thermometer::new("Living room", reading(22.0));
    let device = SmartDevice::Thermometer(therm);
    assert!(device.as_thermometer().is_some());
    assert!(device.as_socket().is_none());

    let socket = Socket::new("Lamp", reading(100.0));
    let device = SmartDevice::Socket(socket);
    assert!(device.as_socket().is_some());
    assert!(device.as_thermometer().is_none());
}

#[test]
fn test_as_socket_mut() {
    let socket = Socket::new("Lamp", reading(100.0));
    let mut device = SmartDevice::Socket(socket);
    device.as_socket_mut().unwrap().turn_on();
    assert!(device.as_socket().unwrap().is_on());
}

#[test]
fn smart_device_test_from_socket() {
    let device: SmartDevice = Socket::new("Lamp", reading(60.0)).into();
    assert!(device.as_socket().is_some());
}

#[test]
fn smart_device_test_from_thermometer() {
    let device: SmartDevice = Thermometer::new("Sensor", reading(22.0)).into();
    assert!(device.as_thermometer().is_some());
}

#[test]
fn test_report_thermometer() {
    let device: SmartDevice = Thermometer::new("Sensor", reading(22.5)).into();
    let r = device.report();
    assert!(r.contains("Sensor"));
    assert!(r.contains("22.5"));
}

#[test]
fn test_report_socket_off() {
    let device: SmartDevice = Socket::new("Lamp", reading(60.0)).into();
    let r = device.report();
    assert!(r.contains("Lamp"));
    assert!(r.contains("off"));
}

#[test]
fn test_report_socket_on() {
    let mut device: SmartDevice = Socket::new("Lamp", reading(60.0)).into();
    device.as_socket_mut().unwrap().turn_on();
    let r = device.report();
    assert!(r.contains("on"));
    assert!(r.contains("60"));
}

#[test]
fn test_socket_round_trip_keeps_fields() {
    let mut socket = Socket::new("Heater", reading(2000.0));
    socket.turn_on();
    let device: SmartDevice = socket.into();
    let back = device.as_socket().unwrap();
    assert_eq!(back.name(), "Heater");
    assert!(back.is_on());
    assert_eq!(back.power_consumption(), reading(2000.0));
}

#[test]
fn test_thermometer_round_trip_keeps_fields() {
    let therm = Thermometer::new("Sensor", reading(22.5));
    let device: SmartDevice = therm.into();
    let back = device.as_thermometer().unwrap();
    assert_eq!(back.name(), "Sensor");
    assert_eq!(back.temperature(), reading(22.5));
}

#[test]
fn test_device_report_exact_text() {
    let t: SmartDevice = Thermometer::new("Sensor", reading(22.5)).into();
    assert_eq!(t.report(), "Thermometer 'Sensor': 22.5 °C");

    let mut s: SmartDevice = Socket::new("Lamp", reading(60.0)).into();
    assert_eq!(s.report(), "Socket 'Lamp': off (power: 0 W)");
    s.as_socket_mut().unwrap().turn_on();
    assert_eq!(s.report(), "Socket 'Lamp': on (power: 60 W)");
}
