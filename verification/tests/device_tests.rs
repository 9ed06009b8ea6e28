use smart_home::{Reading, Socket, Thermometer};

fn reading(v: f32) -> Reading {
    Reading { bits: v.to_bits(), text: v.to_string() }
}

#[test]
fn test_socket_creation() {
    let socket = Socket::new("Air conditioner", reading(1500.0));
    assert!(!socket.is_on());
    assert_eq!(socket.power(), reading(0.0));
    assert_eq!(socket.name(), "Air conditioner");
}

#[test]
fn test_socket_turn_on_off() {
    let mut socket = Socket::new("Kettle", reading(2000.0));

    socket.turn_on();
    assert!(socket.is_on());
    assert_eq!(socket.power(), reading(2000.0));

    socket.turn_off();
    assert!(!socket.is_on());
    assert_eq!(socket.power(), reading(0.0));
}

#[test]
fn test_socket_power_consumption() {
    let socket = Socket::new("Fridge", reading(800.0));
    assert_eq!(socket.power_consumption(), reading(800.0));
}

#[test]
fn test_thermometer_creation() {
    let thermometer = Thermometer::new("Living room thermometer", reading(20.0));
    assert_eq!(thermometer.temperature(), reading(20.0));
    assert_eq!(thermometer.name(), "Living room thermometer");
}

#[test]
fn test_thermometer_update_temperature() {
    let mut thermometer = Thermometer::new("Test thermometer", reading(18.0));
    thermometer.set_temperature(reading(25.5));
    assert_eq!(thermometer.temperature(), reading(25.5));
}

#[test]
fn test_turn_on_twice_is_turn_on_once() {
    let mut once = Socket::new("Kettle", reading(2000.0));
    once.turn_on();

    let mut twice = Socket::new("Kettle", reading(2000.0));
    twice.turn_on();
    twice.turn_on();

    assert_eq!(once.is_on(), twice.is_on());
    assert_eq!(once.power(), twice.power());
    assert_eq!(once.name(), twice.name());
}

#[test]
fn test_thermometer_non_finite_readings() {
    let mut t = Thermometer::new("Probe", reading(0.0));
    t.set_temperature(reading(f32::NAN));
    assert_eq!(t.temperature(), reading(f32::NAN));
    t.set_temperature(reading(f32::INFINITY));
    assert_eq!(t.temperature(), reading(f32::INFINITY));
    t.set_temperature(reading(-0.5));
    assert_eq!(t.temperature(), reading(-0.5));
}

#[test]
fn test_zero_reading_matches_zero_float() {
    assert_eq!(Reading::zero(), reading(0.0));
}
