use life_of_pi::metrics::gpio::{
    pin_read_result, GpioProvider, GpioStatus, MockGpio, PiGpioPins, PinFunction, PinMode,
    PinReading, PinState,
};

#[test]
fn test_gpio_status_default() {
    let status = GpioStatus::default();
    assert!(!status.gpio_available);
    assert!(status.available_pins.is_empty());
    assert!(status.pin_states.is_empty());
}

#[test]
fn test_mock_gpio_provider() {
    let mut provider = MockGpio::new().unwrap();
    let status = provider.read_gpio_status().unwrap();
    assert!(!status.gpio_available);
    assert!(!provider.is_pin_available(18));
}

#[test]
fn mock_gpio_refuses_every_pin_read() {
    let mut provider = MockGpio::new().unwrap();
    let err = provider.read_pin(18).unwrap_err();
    assert_eq!(
        err.to_display_string(),
        "GPIO error: GPIO not available on this system (attempted to read pin 18)"
    );
}

#[test]
fn pi_pins_are_zero_to_twenty_seven() {
    let pins = PiGpioPins::new();
    let list = pins.available_pins();
    assert_eq!(list.len(), 28);
    assert_eq!(list[0], 0);
    assert_eq!(list[27], 27);
    assert!(pins.is_pin_available(0));
    assert!(pins.is_pin_available(27));
    assert!(!pins.is_pin_available(28));
}

#[test]
fn pi_status_records_each_pin_reading() {
    let pins = PiGpioPins::new();
    let mut readings = Vec::new();
    for pin in 0..28u8 {
        let reading = match pin {
            2 => Some(PinReading { mode: PinMode::Output, is_high: true }),
            3 => Some(PinReading { mode: PinMode::Output, is_high: false }),
            4 => Some(PinReading { mode: PinMode::Input, is_high: true }),
            5 => Some(PinReading { mode: PinMode::Alt(3), is_high: false }),
            6 => Some(PinReading { mode: PinMode::I2c, is_high: false }),
            7 => None,
            _ => Some(PinReading { mode: PinMode::Input, is_high: false }),
        };
        readings.push(reading);
    }
    let status = pins.status_from_readings(&readings);
    assert!(status.gpio_available);
    assert_eq!(status.available_pins.len(), 28);
    assert_eq!(status.pin_states.len(), 28);
    assert_eq!(status.pin_states[&2], PinState::High);
    assert_eq!(status.pin_states[&3], PinState::Low);
    assert_eq!(status.pin_states[&4], PinState::Input);
    assert_eq!(status.pin_states[&5], PinState::Unknown);
    assert_eq!(status.pin_states[&7], PinState::Unknown);
    assert_eq!(status.pin_functions[&2], PinFunction::Output);
    assert_eq!(status.pin_functions[&5], PinFunction::Alt(3));
    assert_eq!(status.pin_functions[&6], PinFunction::I2c);
    assert_eq!(status.pin_functions[&7], PinFunction::Unknown);
}

#[test]
fn pi_pin_checks_and_reads() {
    let pins = PiGpioPins::new();
    assert!(pins.check_pin(17).is_ok());
    let err = pins.check_pin(40).unwrap_err();
    assert_eq!(err.to_display_string(), "GPIO error: Pin 40 is not available");

    let state = pin_read_result(17, Ok(PinReading { mode: PinMode::Output, is_high: true }));
    assert_eq!(state.unwrap(), PinState::High);
    let state = pin_read_result(17, Ok(PinReading { mode: PinMode::Pwm, is_high: true }));
    assert_eq!(state.unwrap(), PinState::Unknown);
    let err = pin_read_result(17, Err("Pin 17 is in use".to_string())).unwrap_err();
    assert_eq!(
        err.to_display_string(),
        "GPIO error: Failed to access pin 17: Pin 17 is in use"
    );
}
