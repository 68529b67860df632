//! Axes: what is measured along one, how it is aggregated, and the series
//! that come back.

use super::graph_state_request::Resolution;
use vstd::prelude::*;
use vstd::string::StringExecFns;

verus! {

/// The series that one axis asks for.
#[derive(Debug, PartialEq, Eq)]
pub struct AxisControlsRequest {
    pub requests: Vec<(AxisDataType, AxisDataOption)>,
}

impl Clone for AxisControlsRequest {
    fn clone(&self) -> (copy: AxisControlsRequest)
        ensures
            copy.requests@ == self.requests@,
    {
        let mut requests: Vec<(AxisDataType, AxisDataOption)> = Vec::new();
        let mut i: usize = 0;
        while i < self.requests.len()
            invariant
                i <= self.requests.len(),
                requests@ == self.requests@.take(i as int),
            decreases self.requests.len() - i,
        {
            requests.push(self.requests[i]);
            proof {
                assert(self.requests@.take(i as int + 1) =~= self.requests@.take(i as int).push(
                    self.requests[i as int],
                ));
            }
            i = i + 1;
        }
        proof {
            assert(self.requests@.take(self.requests.len() as int) =~= self.requests@);
        }
        AxisControlsRequest { requests }
    }
}

impl Default for AxisControlsRequest {
    fn default() -> (r: AxisControlsRequest)
        ensures
            r.requests@ == Seq::<(AxisDataType, AxisDataOption)>::empty(),
    {
        AxisControlsRequest { requests: Vec::new() }
    }
}

/// What is measured along an axis.
#[derive(Clone, Copy, Debug, PartialEq, Eq, Structural, PartialOrd, Ord, Hash)]
pub enum AxisDataType {
    Time,
    PeriodicTime,
    BatteryVoltage,
    BatteryAmps,
    SolarWatts,
    LoadWatts,
    StateOfChargePercent,
    CellVoltage(u16),
    ControllerPanelVoltage(u16),
    ControllerAmps(u16),
    ControllerTemperatureF(u16),
}

/// The character of a digit.
pub open spec fn digit_char(d: int) -> char {
    if d == 0 {
        '0'
    } else if d == 1 {
        '1'
    } else if d == 2 {
        '2'
    } else if d == 3 {
        '3'
    } else if d == 4 {
        '4'
    } else if d == 5 {
        '5'
    } else if d == 6 {
        '6'
    } else if d == 7 {
        '7'
    } else if d == 8 {
        '8'
    } else {
        '9'
    }
}

/// The decimal digits of a number, without leading zeros.
pub open spec fn decimal_chars(n: nat) -> Seq<char>
    decreases n,
{
    if n < 10 {
        seq![digit_char(n as int)]
    } else {
        decimal_chars(n / 10).push(digit_char((n % 10) as int))
    }
}

fn digit_text(d: u16) -> (text: &'static str)
    requires
        d < 10,
    ensures
        text@ == seq![digit_char(d as int)],
{
    proof {
        reveal_strlit("0");
        reveal_strlit("1");
        reveal_strlit("2");
        reveal_strlit("3");
        reveal_strlit("4");
        reveal_strlit("5");
        reveal_strlit("6");
        reveal_strlit("7");
        reveal_strlit("8");
        reveal_strlit("9");
    }
    let text = if d == 0 {
        "0"
    } else if d == 1 {
        "1"
    } else if d == 2 {
        "2"
    } else if d == 3 {
        "3"
    } else if d == 4 {
        "4"
    } else if d == 5 {
        "5"
    } else if d == 6 {
        "6"
    } else if d == 7 {
        "7"
    } else if d == 8 {
        "8"
    } else {
        "9"
    };
    assert(text@ =~= seq![digit_char(d as int)]);
    text
}

/// Appends the decimal digits of `n` to `text`.
pub fn push_decimal(text: &mut String, n: u16)
    ensures
        final(text)@ == old(text)@ + decimal_chars(n as nat),
    decreases n,
{
    if n >= 10 {
        push_decimal(text, n / 10);
    }
    text.append(digit_text(n % 10));
    proof {
        if n >= 10 {
            assert(final(text)@ =~= old(text)@ + decimal_chars(n as nat));
        }
    }
}

impl AxisDataType {
    /// The name shown for the axis.
    pub open spec fn name_spec(&self) -> Seq<char> {
        match self {
            AxisDataType::Time => "Time"@,
            AxisDataType::PeriodicTime => "Time"@,
            AxisDataType::BatteryVoltage => "Battery Voltage"@,
            AxisDataType::BatteryAmps => "Battery Amps"@,
            AxisDataType::SolarWatts => "Solar Watts"@,
            AxisDataType::LoadWatts => "Load Watts"@,
            AxisDataType::StateOfChargePercent => "S.O.C. %"@,
            AxisDataType::CellVoltage(cell) => "Cell #"@ + decimal_chars(*cell as nat)
                + " Voltage"@,
            AxisDataType::ControllerPanelVoltage(controller) => "Controller #"@ + decimal_chars(
                *controller as nat,
            ) + " Voltage"@,
            AxisDataType::ControllerAmps(controller) => "Controller #"@ + decimal_chars(
                *controller as nat,
            ) + " Amps"@,
            AxisDataType::ControllerTemperatureF(controller) => "Controller #"@ + decimal_chars(
                *controller as nat,
            ) + " TemperatureF"@,
        }
    }

    /// The unit in which the axis is measured.
    pub open spec fn unit_spec(&self) -> DataUnit {
        match self {
            AxisDataType::Time => DataUnit::Time,
            AxisDataType::PeriodicTime => DataUnit::PeriodicTime,
            AxisDataType::BatteryVoltage => DataUnit::Voltage,
            AxisDataType::CellVoltage(_) => DataUnit::Voltage,
            AxisDataType::ControllerPanelVoltage(_) => DataUnit::Voltage,
            AxisDataType::BatteryAmps => DataUnit::Amps,
            AxisDataType::ControllerAmps(_) => DataUnit::Amps,
            AxisDataType::SolarWatts => DataUnit::Watts,
            AxisDataType::LoadWatts => DataUnit::Watts,
            AxisDataType::StateOfChargePercent => DataUnit::Percent,
            AxisDataType::ControllerTemperatureF(_) => DataUnit::Farenheight,
        }
    }

    /// The name shown for the axis.
    pub fn get_name(&self) -> (name: String)
        ensures
            name@ == self.name_spec(),
    {
        match self {
            AxisDataType::Time => String::from_str("Time"),
            AxisDataType::PeriodicTime => String::from_str("Time"),
            AxisDataType::BatteryVoltage => String::from_str("Battery Voltage"),
            AxisDataType::BatteryAmps => String::from_str("Battery Amps"),
            AxisDataType::SolarWatts => String::from_str("Solar Watts"),
            AxisDataType::LoadWatts => String::from_str("Load Watts"),
            AxisDataType::StateOfChargePercent => String::from_str("S.O.C. %"),
            AxisDataType::CellVoltage(cell) => {
                let mut name = String::from_str("Cell #");
                push_decimal(&mut name, *cell);
                name.append(" Voltage");
                name
            },
            AxisDataType::ControllerPanelVoltage(controller) => {
                let mut name = String::from_str("Controller #");
                push_decimal(&mut name, *controller);
                name.append(" Voltage");
                name
            },
            AxisDataType::ControllerAmps(controller) => {
                let mut name = String::from_str("Controller #");
                push_decimal(&mut name, *controller);
                name.append(" Amps");
                name
            },
            AxisDataType::ControllerTemperatureF(controller) => {
                let mut name = String::from_str("Controller #");
                push_decimal(&mut name, *controller);
                name.append(" TemperatureF");
                name
            },
        }
    }

    /// The unit in which the axis is measured.
    pub fn get_unit(&self) -> (unit: DataUnit)
        ensures
            unit == self.unit_spec(),
    {
        match self {
            AxisDataType::Time => DataUnit::Time,
            AxisDataType::PeriodicTime => DataUnit::PeriodicTime,
            AxisDataType::BatteryVoltage
            | AxisDataType::CellVoltage(_)
            | AxisDataType::ControllerPanelVoltage(_) => DataUnit::Voltage,
            AxisDataType::BatteryAmps | AxisDataType::ControllerAmps(_) => DataUnit::Amps,
            AxisDataType::SolarWatts | AxisDataType::LoadWatts => DataUnit::Watts,
            AxisDataType::StateOfChargePercent => DataUnit::Percent,
            AxisDataType::ControllerTemperatureF(_) => DataUnit::Farenheight,
        }
    }
}

/// The unit of an axis.
#[derive(Clone, Copy, Debug, PartialEq, Eq, Structural, Hash)]
pub enum DataUnit {
    Time,
    PeriodicTime,
    Voltage,
    Amps,
    Watts,
    Percent,
    Farenheight,
}

impl DataUnit {
    /// The name shown for the unit.
    pub open spec fn name_spec(&self) -> Seq<char> {
        match self {
            DataUnit::Time => "Time"@,
            DataUnit::PeriodicTime => "Time"@,
            DataUnit::Voltage => "Voltage"@,
            DataUnit::Amps => "Amps"@,
            DataUnit::Watts => "Watts"@,
            DataUnit::Percent => "Percent"@,
            DataUnit::Farenheight => "°Fahrenheit"@,
        }
    }

    /// The name shown for the unit.
    pub fn get_name(&self) -> (name: &'static str)
        ensures
            name@ == self.name_spec(),
    {
        match self {
            DataUnit::Time => "Time",
            DataUnit::PeriodicTime => "Time",
            DataUnit::Voltage => "Voltage",
            DataUnit::Amps => "Amps",
            DataUnit::Watts => "Watts",
            DataUnit::Percent => "Percent",
            DataUnit::Farenheight => "°Fahrenheit",
        }
    }
}

/// How the samples of one bucket become one point.
#[derive(Clone, Copy, Debug, PartialEq, Eq, Structural, PartialOrd, Ord, Hash)]
pub enum AxisDataOption {
    Average,
    Minimum,
    Maximum,
}

/// The series of one chart: those of the primary and of the secondary y axis.
#[derive(Debug, PartialEq)]
pub struct LineSeriesHolder {
    pub series: Vec<LineSeriesData>,
    pub secondary_series: Vec<LineSeriesData>,
}

impl Default for LineSeriesHolder {
    fn default() -> (r: LineSeriesHolder)
        ensures
            r.series@ == Seq::<LineSeriesData>::empty(),
            r.secondary_series@ == Seq::<LineSeriesData>::empty(),
    {
        LineSeriesHolder { series: Vec::new(), secondary_series: Vec::new() }
    }
}

/// One named series. A coordinate on the time axis is in whole seconds since
/// 1970-01-01T00:00:00Z; any other coordinate is in millionths of its unit.
#[derive(Debug, PartialEq)]
pub struct LineSeriesData {
    pub name: String,
    pub data_points: Vec<(i64, i64)>,
    pub x_axis: LineSeriesAxisData,
    pub y_axis: LineSeriesAxisData,
}

/// What one axis of a series shows.
#[derive(Clone, Copy, Debug, PartialEq, Eq, Structural)]
pub struct LineSeriesAxisData {
    pub data_type: AxisDataType,
    pub data_option: AxisDataOption,
}

/// The window of time of a request. With no resolution given, the span of the
/// window decides it.
#[derive(Clone, Copy, Debug, PartialEq, Eq, Structural)]
pub struct AxisTimeRequest {
    pub start: i64,
    pub end: i64,
    pub manual_resolution: Option<Resolution>,
}

/// The resolution for a window of `span` seconds: up to three hours one
/// minute, up to a day five minutes, up to three days a quarter of an hour,
/// up to ten days an hour, beyond that a day.
pub open spec fn resolution_for_span(span: int) -> Resolution {
    if span <= 10_800 {
        Resolution::OneMinute
    } else if span <= 86_400 {
        Resolution::FiveMinute
    } else if span <= 259_200 {
        Resolution::FifteenMinute
    } else if span <= 864_000 {
        Resolution::OneHour
    } else {
        Resolution::OneDay
    }
}

impl AxisTimeRequest {
    /// The resolution in force: the one asked for, or else the one of the span.
    pub open spec fn resolution_spec(&self) -> Resolution {
        match self.manual_resolution {
            Some(resolution) => resolution,
            None => resolution_for_span(self.end - self.start),
        }
    }

    /// The resolution in force: the one asked for, or else the one that fits
    /// the span from `start` to `end`.
    pub fn get_resolution(&self) -> (resolution: Resolution)
        ensures
            resolution == self.resolution_spec(),
    {
        match self.manual_resolution {
            Some(resolution) => resolution,
            None => {
                let span: i128 = self.end as i128 - self.start as i128;
                if span <= 10_800 {
                    Resolution::OneMinute
                } else if span <= 86_400 {
                    Resolution::FiveMinute
                } else if span <= 259_200 {
                    Resolution::FifteenMinute
                } else if span <= 864_000 {
                    Resolution::OneHour
                } else {
                    Resolution::OneDay
                }
            },
        }
    }
}

} // verus!
