//! GPIO pin status model: pin states and functions, the status report, the
//! provider interface, the provider for boards without GPIO, and the decisions
//! of the Raspberry Pi provider.
use vstd::prelude::*;
use std::collections::HashMap;

use crate::error::SystemError;
use crate::number::{decimal, push_decimal};

verus! {

broadcast use vstd::std_specs::hash::group_hash_axioms;

/// State of a GPIO pin.
#[derive(Debug, Clone, Copy, PartialEq, Eq, Structural)]
pub enum PinState {
    /// Pin is configured as output and driven low
    Low,
    /// Pin is configured as output and driven high
    High,
    /// Pin is configured as input
    Input,
    /// Pin state is unknown or inaccessible
    Unknown,
}

/// Function/mode of a GPIO pin.
#[derive(Debug, Clone, PartialEq, Eq, Structural)]
pub enum PinFunction {
    /// Pin is configured as input
    Input,
    /// Pin is configured as output
    Output,
    /// Pin is used for PWM (Pulse Width Modulation)
    Pwm,
    /// Pin is used for SPI communication
    Spi,
    /// Pin is used for I2C communication
    I2c,
    /// Pin is used for UART communication
    Uart,
    /// Pin has an alternative function
    Alt(u8),
    /// Pin function is unknown
    Unknown,
}

/// The mode in which the GPIO hardware reports a pin.
#[derive(Debug, Clone, Copy, PartialEq, Eq, Structural)]
pub enum PinMode {
    Input,
    Output,
    Pwm,
    Spi,
    I2c,
    Uart,
    Alt(u8),
}

/// What the GPIO hardware reports of one pin: its mode and whether its level is high.
#[derive(Debug, Clone, Copy, PartialEq, Eq, Structural)]
pub struct PinReading {
    pub mode: PinMode,
    pub is_high: bool,
}

/// What a [`GpioStatus`] holds, as plain values.
pub struct GpioStatusView {
    pub available_pins: Seq<u8>,
    pub pin_states: Map<u8, PinState>,
    pub pin_functions: Map<u8, PinFunction>,
    pub gpio_available: bool,
}

impl GpioStatusView {
    /// The status of a board without GPIO access: no pins, nothing available.
    pub open spec fn unavailable() -> GpioStatusView {
        GpioStatusView {
            available_pins: Seq::empty(),
            pin_states: Map::empty(),
            pin_functions: Map::empty(),
            gpio_available: false,
        }
    }
}

/// GPIO pin status and configuration.
#[derive(Debug, Clone)]
pub struct GpioStatus {
    /// Available GPIO pins on the system
    pub available_pins: Vec<u8>,
    /// Current pin states (pin_number -> state)
    pub pin_states: HashMap<u8, PinState>,
    /// Pin functions (pin_number -> function)
    pub pin_functions: HashMap<u8, PinFunction>,
    /// Whether GPIO access is available
    pub gpio_available: bool,
}

impl View for GpioStatus {
    type V = GpioStatusView;

    open spec fn view(&self) -> GpioStatusView {
        GpioStatusView {
            available_pins: self.available_pins@,
            pin_states: self.pin_states@,
            pin_functions: self.pin_functions@,
            gpio_available: self.gpio_available,
        }
    }
}

impl Default for GpioStatus {
    /// No pins and no GPIO access.
    fn default() -> (s: Self)
        ensures
            s@ == GpioStatusView::unavailable(),
    {
        GpioStatus {
            available_pins: Vec::new(),
            pin_states: HashMap::new(),
            pin_functions: HashMap::new(),
            gpio_available: false,
        }
    }
}

/// Trait for GPIO operations.
pub trait GpioProvider {
    /// Read the current state of all GPIO pins.
    fn read_gpio_status(&mut self) -> Result<GpioStatus, SystemError>;

    /// Check if a specific pin is available.
    fn is_pin_available(&self, pin: u8) -> bool;

    /// Read the state of a specific pin.
    fn read_pin(&mut self, pin: u8) -> Result<PinState, SystemError>;
}

/// Mock GPIO provider for systems without GPIO support.
pub struct MockGpio;

/// The message of a read of `pin` on a system without GPIO.
pub open spec fn no_gpio_message(pin: u8) -> Seq<char> {
    "GPIO not available on this system (attempted to read pin "@ + decimal(pin as nat) + ")"@
}

impl MockGpio {
    /// A provider that reports no GPIO; it cannot fail.
    pub fn new() -> (r: Result<Self, SystemError>)
        ensures
            r is Ok,
    {
        Ok(MockGpio)
    }
}

impl GpioProvider for MockGpio {
    /// Always the status of a board without GPIO.
    fn read_gpio_status(&mut self) -> (r: Result<GpioStatus, SystemError>)
        ensures
            r matches Ok(s) && s@ == GpioStatusView::unavailable(),
    {
        Ok(GpioStatus::default())
    }

    /// No pin is available.
    fn is_pin_available(&self, pin: u8) -> (b: bool)
        ensures
            !b,
    {
        false
    }

    /// Always a GPIO error that names the pin.
    fn read_pin(&mut self, pin: u8) -> (r: Result<PinState, SystemError>)
        ensures
            r matches Err(e) && e is Gpio && e.message() == no_gpio_message(pin),
    {
        let mut m = String::from_str("GPIO not available on this system (attempted to read pin ");
        push_decimal(&mut m, pin as u64);
        m.append(")");
        Err(SystemError::gpio_error(m.as_str()))
    }
}

} // verus!

verus! {

/// The function that a pin in `mode` serves.
pub open spec fn function_of_mode(mode: PinMode) -> PinFunction {
    match mode {
        PinMode::Input => PinFunction::Input,
        PinMode::Output => PinFunction::Output,
        PinMode::Pwm => PinFunction::Pwm,
        PinMode::Spi => PinFunction::Spi,
        PinMode::I2c => PinFunction::I2c,
        PinMode::Uart => PinFunction::Uart,
        PinMode::Alt(a) => PinFunction::Alt(a),
    }
}

/// The state of a pin read as `reading`: inputs are `Input`, outputs are `High` or
/// `Low` by their level, and a pin in any other mode is `Unknown`.
pub open spec fn state_of_reading(reading: PinReading) -> PinState {
    match reading.mode {
        PinMode::Input => PinState::Input,
        PinMode::Output => if reading.is_high {
            PinState::High
        } else {
            PinState::Low
        },
        _ => PinState::Unknown,
    }
}

/// The state recorded for a pin whose reading is `r` (`None`: the pin could not be accessed).
pub open spec fn recorded_state(r: Option<PinReading>) -> PinState {
    match r {
        Some(reading) => state_of_reading(reading),
        None => PinState::Unknown,
    }
}

/// The function recorded for a pin whose reading is `r`.
pub open spec fn recorded_function(r: Option<PinReading>) -> PinFunction {
    match r {
        Some(reading) => function_of_mode(reading.mode),
        None => PinFunction::Unknown,
    }
}

/// The pin states recorded by going through `pins` in order, each with its reading;
/// a pin listed twice keeps what was recorded last.
pub open spec fn states_of(pins: Seq<u8>, readings: Seq<Option<PinReading>>) -> Map<u8, PinState>
    decreases pins.len(),
{
    if pins.len() == 0 {
        Map::empty()
    } else {
        states_of(pins.drop_last(), readings.take(pins.len() - 1)).insert(
            pins.last(),
            recorded_state(readings[pins.len() - 1]),
        )
    }
}

/// The pin functions recorded by going through `pins` in order, each with its reading.
pub open spec fn functions_of(pins: Seq<u8>, readings: Seq<Option<PinReading>>) -> Map<u8, PinFunction>
    decreases pins.len(),
{
    if pins.len() == 0 {
        Map::empty()
    } else {
        functions_of(pins.drop_last(), readings.take(pins.len() - 1)).insert(
            pins.last(),
            recorded_function(readings[pins.len() - 1]),
        )
    }
}

/// The function that a pin in `mode` serves.
pub fn pin_function_of(mode: PinMode) -> (f: PinFunction)
    ensures
        f == function_of_mode(mode),
{
    match mode {
        PinMode::Input => PinFunction::Input,
        PinMode::Output => PinFunction::Output,
        PinMode::Pwm => PinFunction::Pwm,
        PinMode::Spi => PinFunction::Spi,
        PinMode::I2c => PinFunction::I2c,
        PinMode::Uart => PinFunction::Uart,
        PinMode::Alt(a) => PinFunction::Alt(a),
    }
}

/// The state of a pin read as `reading`.
pub fn pin_state_of(reading: PinReading) -> (s: PinState)
    ensures
        s == state_of_reading(reading),
{
    match reading.mode {
        PinMode::Input => PinState::Input,
        PinMode::Output => if reading.is_high {
            PinState::High
        } else {
            PinState::Low
        },
        _ => PinState::Unknown,
    }
}

/// The pin list and the decisions of the Raspberry Pi GPIO provider; the hardware
/// access itself stands outside this library.
pub struct PiGpioPins {
    pins: Vec<u8>,
}

/// The message of a read of a pin that the provider does not offer.
pub open spec fn unavailable_pin_message(pin: u8) -> Seq<char> {
    "Pin "@ + decimal(pin as nat) + " is not available"@
}

/// The message of a read of a pin that the hardware refused, with the cause.
pub open spec fn pin_access_message(pin: u8, cause: Seq<char>) -> Seq<char> {
    "Failed to access pin "@ + decimal(pin as nat) + ": "@ + cause
}

impl PiGpioPins {
    /// The pins that the provider offers, in order.
    pub closed spec fn pins(&self) -> Seq<u8> {
        self.pins@
    }

    /// The standard Raspberry Pi GPIO pins, 0 to 27.
    pub fn new() -> (p: Self)
        ensures
            p.pins() == Seq::new(28, |i: int| i as u8),
    {
        let mut pins: Vec<u8> = Vec::new();
        let mut i: u8 = 0;
        while i <= 27
            invariant
                i <= 28,
                pins@ == Seq::new(i as nat, |k: int| k as u8),
            decreases 28 - i,
        {
            pins.push(i);
            i = i + 1;
        }
        PiGpioPins { pins }
    }

    /// The pins that the provider offers.
    pub fn available_pins(&self) -> (v: Vec<u8>)
        ensures
            v@ == self.pins(),
    {
        self.pins.clone()
    }

    /// Whether `pin` is one that the provider offers.
    pub fn is_pin_available(&self, pin: u8) -> (b: bool)
        ensures
            b == self.pins().contains(pin),
    {
        let mut i: usize = 0;
        while i < self.pins.len()
            invariant
                i <= self.pins.len(),
                forall|k: int| 0 <= k < i ==> self.pins@[k] != pin,
            decreases self.pins.len() - i,
        {
            if self.pins[i] == pin {
                assert(self.pins@[i as int] == pin);
                return true;
            }
            i = i + 1;
        }
        false
    }

    /// The status report built from `readings`, one per offered pin in order
    /// (`None` where the hardware refused the pin).
    pub fn status_from_readings(&self, readings: &Vec<Option<PinReading>>) -> (s: GpioStatus)
        requires
            readings.len() == self.pins().len(),
        ensures
            s@.available_pins == self.pins(),
            s@.pin_states == states_of(self.pins(), readings@),
            s@.pin_functions == functions_of(self.pins(), readings@),
            s@.gpio_available,
    {
        let mut pin_states: HashMap<u8, PinState> = HashMap::new();
        let mut pin_functions: HashMap<u8, PinFunction> = HashMap::new();
        let n = self.pins.len();
        let mut i: usize = 0;
        while i < n
            invariant
                n == self.pins.len(),
                readings.len() == n,
                i <= n,
                pin_states@ == states_of(self.pins@.take(i as int), readings@.take(i as int)),
                pin_functions@ == functions_of(self.pins@.take(i as int), readings@.take(i as int)),
            decreases n - i,
        {
            let pin = self.pins[i];
            let (state, function) = match readings[i] {
                Some(r) => (pin_state_of(r), pin_function_of(r.mode)),
                None => (PinState::Unknown, PinFunction::Unknown),
            };
            pin_states.insert(pin, state);
            pin_functions.insert(pin, function);
            proof {
                let p = self.pins@.take(i + 1);
                let r = readings@.take(i + 1);
                assert(p.drop_last() =~= self.pins@.take(i as int));
                assert(r.take(p.len() - 1) =~= readings@.take(i as int));
            }
            i = i + 1;
        }
        assert(self.pins@.take(n as int) =~= self.pins@);
        assert(readings@.take(n as int) =~= readings@);
        GpioStatus {
            available_pins: self.pins.clone(),
            pin_states,
            pin_functions,
            gpio_available: true,
        }
    }

    /// The first half of a pin read: a pin that the provider does not offer is
    /// refused with a GPIO error, before any hardware access.
    pub fn check_pin(&self, pin: u8) -> (r: Result<(), SystemError>)
        ensures
            r is Ok <==> self.pins().contains(pin),
            r matches Err(e) ==> e is Gpio && e.message() == unavailable_pin_message(pin),
    {
        if self.is_pin_available(pin) {
            Ok(())
        } else {
            let mut m = String::from_str("Pin ");
            push_decimal(&mut m, pin as u64);
            m.append(" is not available");
            Err(SystemError::gpio_error(m.as_str()))
        }
    }
}

/// The second half of a pin read: the state from what the hardware answered for
/// `pin`, or a GPIO error that carries the hardware's complaint.
pub fn pin_read_result(pin: u8, access: Result<PinReading, String>) -> (r: Result<PinState, SystemError>)
    ensures
        match access {
            Ok(reading) => r == Ok::<PinState, SystemError>(state_of_reading(reading)),
            Err(cause) => r matches Err(e) && e is Gpio && e.message() == pin_access_message(pin, cause@),
        },
{
    match access {
        Ok(reading) => Ok(pin_state_of(reading)),
        Err(cause) => {
            let mut m = String::from_str("Failed to access pin ");
            push_decimal(&mut m, pin as u64);
            m.append(": ");
            m.append(cause.as_str());
            Err(SystemError::gpio_error(m.as_str()))
        },
    }
}

} // verus!

verus! {

/// With each pin listed once, the status records exactly the listed pins, and for
/// each of them the state and the function of its own reading.
pub proof fn law_each_pin_recorded(pins: Seq<u8>, readings: Seq<Option<PinReading>>)
    requires
        pins.no_duplicates(),
        readings.len() == pins.len(),
    ensures
        states_of(pins, readings).dom() == pins.to_set(),
        functions_of(pins, readings).dom() == pins.to_set(),
        forall|i: int|
            0 <= i < pins.len() ==> states_of(pins, readings)[#[trigger] pins[i]]
                == recorded_state(readings[i]) && functions_of(pins, readings)[pins[i]]
                == recorded_function(readings[i]),
    decreases pins.len(),
{
    if pins.len() == 0 {
        assert(pins.to_set() =~= Set::empty());
    } else {
        let n = pins.len() - 1;
        let front = pins.drop_last();
        let rs = readings.take(n as int);
        assert(front.no_duplicates()) by {
            assert forall|a: int, b: int| 0 <= a < front.len() && 0 <= b < front.len() && a != b
                implies front[a] != front[b] by {
                assert(front[a] == pins[a] && front[b] == pins[b]);
            }
        }
        law_each_pin_recorded(front, rs);
        assert(pins.to_set() =~= front.to_set().insert(pins.last())) by {
            assert forall|x: u8| pins.to_set().contains(x) <==> front.to_set().insert(
                pins.last(),
            ).contains(x) by {
                if pins.to_set().contains(x) {
                    let k = choose|k: int| 0 <= k < pins.len() && pins[k] == x;
                    if k < n {
                        assert(front[k] == x);
                    }
                }
                if front.to_set().contains(x) {
                    let k = choose|k: int| 0 <= k < front.len() && front[k] == x;
                    assert(pins[k] == x);
                }
            }
        }
        assert forall|i: int| 0 <= i < pins.len() implies states_of(pins, readings)[
            #[trigger] pins[i]] == recorded_state(readings[i]) && functions_of(pins, readings)[pins[i]]
            == recorded_function(readings[i]) by {
            if i < n {
                assert(front[i] == pins[i]);
                assert(rs[i] == readings[i]);
                assert(pins[i] != pins[n as int]);
            }
        }
    }
}

} // verus!

verus! {

/// The status names, for each pin, the function and state that its reading reports:
/// a refused pin is `Unknown` in both; an input pin has function and state `Input`; an
/// output pin has function `Output` and state `High` or `Low` by its level; a pin in
/// PWM, SPI, I2C, UART or an alternative mode has that same function, with state
/// `Unknown`.
pub proof fn law_status_names_reported_modes(pins: Seq<u8>, readings: Seq<Option<PinReading>>)
    requires
        pins.no_duplicates(),
        readings.len() == pins.len(),
    ensures
        forall|i: int|
            0 <= i < pins.len() ==> {
                let s = states_of(pins, readings)[#[trigger] pins[i]];
                let f = functions_of(pins, readings)[pins[i]];
                match readings[i] {
                    None => s == PinState::Unknown && f == PinFunction::Unknown,
                    Some(r) => match r.mode {
                        PinMode::Input => s == PinState::Input && f == PinFunction::Input,
                        PinMode::Output => f == PinFunction::Output && s == (if r.is_high {
                            PinState::High
                        } else {
                            PinState::Low
                        }),
                        PinMode::Pwm => s == PinState::Unknown && f == PinFunction::Pwm,
                        PinMode::Spi => s == PinState::Unknown && f == PinFunction::Spi,
                        PinMode::I2c => s == PinState::Unknown && f == PinFunction::I2c,
                        PinMode::Uart => s == PinState::Unknown && f == PinFunction::Uart,
                        PinMode::Alt(a) => s == PinState::Unknown && f == PinFunction::Alt(a),
                    },
                }
            },
{
    law_each_pin_recorded(pins, readings);
}

/// Different hardware modes are recorded as different functions, and none of them as
/// `Unknown`, which is kept for pins that could not be read.
pub proof fn law_modes_recorded_apart(m1: PinMode, m2: PinMode)
    ensures
        m1 != m2 ==> function_of_mode(m1) != function_of_mode(m2),
        function_of_mode(m1) != PinFunction::Unknown,
        (state_of_reading(PinReading { mode: m1, is_high: false }) == PinState::Input)
            <==> (function_of_mode(m1) == PinFunction::Input),
{
}

} // verus!
