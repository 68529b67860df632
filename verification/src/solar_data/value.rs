//! One scalar measurement and the kind it belongs to.

use std::cmp::Ordering;
use vstd::prelude::*;
use vstd::std_specs::cmp::PartialEqSpecImpl;
use vstd::std_specs::cmp::PartialOrdSpecImpl;

verus! {

/// One measurement of a line. Amounts are counts of millionths of the unit;
/// cells and controllers are numbered from zero.
#[derive(Clone, Copy, Debug)]
pub enum DataValue {
    AlarmCode(i32),
    BatteryVoltage(i64),
    BatteryAmps(i64),
    SolarWatts(i64),
    LoadWatts(i64),
    StateOfChargePercent(i64),
    AmpHoursSinceMidnight(i64),
    CellVoltage { cell: u16, voltage: i64 },
    ControllerPanelVoltage { controller: u16, voltage: i64 },
    ControllerBatteryVoltage { controller: u16, voltage: i64 },
    ControllerAmps { controller: u16, amps: i64 },
    ControllerTemperatureF { controller: u16, temperature: i64 },
    StatisticsCellVoltageHigh { cell: u16, voltage: i64 },
    StatisticsCellVoltageLow { cell: u16, voltage: i64 },
    StatisticsSolarWatts(i64),
    StatisticsLoadWatts(i64),
    StatisticsStateOfChargePercentHigh(i64),
    StatisticsStateOfChargePercentLow(i64),
}

/// How many sub-device ids there are: the width of one tag in a kind key.
pub const IDS_PER_TAG: u32 = 65_536;

impl DataValue {
    /// The tag's name.
    pub open spec fn tag_name_spec(&self) -> Seq<char> {
        match self {
            DataValue::AlarmCode(_) => "AlarmCode"@,
            DataValue::BatteryVoltage(_) => "BatteryVoltage"@,
            DataValue::BatteryAmps(_) => "BatteryAmps"@,
            DataValue::SolarWatts(_) => "SolarWatts"@,
            DataValue::LoadWatts(_) => "LoadWatts"@,
            DataValue::StateOfChargePercent(_) => "StateOfChargePercent"@,
            DataValue::AmpHoursSinceMidnight(_) => "AmpHoursSinceMidnight"@,
            DataValue::CellVoltage { .. } => "CellVoltage"@,
            DataValue::ControllerPanelVoltage { .. } => "ControllerPanelVoltage"@,
            DataValue::ControllerBatteryVoltage { .. } => "ControllerBatteryVoltage"@,
            DataValue::ControllerAmps { .. } => "ControllerAmps"@,
            DataValue::ControllerTemperatureF { .. } => "ControllerTemperatureF"@,
            DataValue::StatisticsCellVoltageHigh { .. } => "StatisticsCellVoltageHigh"@,
            DataValue::StatisticsCellVoltageLow { .. } => "StatisticsCellVoltageLow"@,
            DataValue::StatisticsSolarWatts(_) => "StatisticsSolarWatts"@,
            DataValue::StatisticsLoadWatts(_) => "StatisticsLoadWatts"@,
            DataValue::StatisticsStateOfChargePercentHigh(_) => "StatisticsStateOfChargePercentHigh"@,
            DataValue::StatisticsStateOfChargePercentLow(_) => "StatisticsStateOfChargePercentLow"@,
        }
    }

    /// The place of the tag when all tag names are put in lexicographic order.
    pub open spec fn tag_rank(&self) -> int {
        match self {
            DataValue::AlarmCode(_) => 0,
            DataValue::AmpHoursSinceMidnight(_) => 1,
            DataValue::BatteryAmps(_) => 2,
            DataValue::BatteryVoltage(_) => 3,
            DataValue::CellVoltage { .. } => 4,
            DataValue::ControllerAmps { .. } => 5,
            DataValue::ControllerBatteryVoltage { .. } => 6,
            DataValue::ControllerPanelVoltage { .. } => 7,
            DataValue::ControllerTemperatureF { .. } => 8,
            DataValue::LoadWatts(_) => 9,
            DataValue::SolarWatts(_) => 10,
            DataValue::StateOfChargePercent(_) => 11,
            DataValue::StatisticsCellVoltageHigh { .. } => 12,
            DataValue::StatisticsCellVoltageLow { .. } => 13,
            DataValue::StatisticsLoadWatts(_) => 14,
            DataValue::StatisticsSolarWatts(_) => 15,
            DataValue::StatisticsStateOfChargePercentHigh(_) => 16,
            DataValue::StatisticsStateOfChargePercentLow(_) => 17,
        }
    }

    /// The cell or controller that the measurement belongs to; 0 for a
    /// measurement of the whole system.
    pub open spec fn sub_id(&self) -> int {
        match self {
            DataValue::CellVoltage { cell, .. } => *cell as int,
            DataValue::ControllerPanelVoltage { controller, .. } => *controller as int,
            DataValue::ControllerBatteryVoltage { controller, .. } => *controller as int,
            DataValue::ControllerAmps { controller, .. } => *controller as int,
            DataValue::ControllerTemperatureF { controller, .. } => *controller as int,
            DataValue::StatisticsCellVoltageHigh { cell, .. } => *cell as int,
            DataValue::StatisticsCellVoltageLow { cell, .. } => *cell as int,
            _ => 0,
        }
    }

    /// The kind as one number: kinds are ordered by tag name first and by
    /// sub-device id second, and so are their keys.
    pub open spec fn kind_key(&self) -> int {
        self.tag_rank() * 65_536 + self.sub_id()
    }

    /// The amount measured, whatever the kind.
    pub open spec fn amount_spec(&self) -> int {
        match self {
            DataValue::AlarmCode(v) => *v as int,
            DataValue::BatteryVoltage(v) => *v as int,
            DataValue::BatteryAmps(v) => *v as int,
            DataValue::SolarWatts(v) => *v as int,
            DataValue::LoadWatts(v) => *v as int,
            DataValue::StateOfChargePercent(v) => *v as int,
            DataValue::AmpHoursSinceMidnight(v) => *v as int,
            DataValue::CellVoltage { voltage, .. } => *voltage as int,
            DataValue::ControllerPanelVoltage { voltage, .. } => *voltage as int,
            DataValue::ControllerBatteryVoltage { voltage, .. } => *voltage as int,
            DataValue::ControllerAmps { amps, .. } => *amps as int,
            DataValue::ControllerTemperatureF { temperature, .. } => *temperature as int,
            DataValue::StatisticsCellVoltageHigh { voltage, .. } => *voltage as int,
            DataValue::StatisticsCellVoltageLow { voltage, .. } => *voltage as int,
            DataValue::StatisticsSolarWatts(v) => *v as int,
            DataValue::StatisticsLoadWatts(v) => *v as int,
            DataValue::StatisticsStateOfChargePercentHigh(v) => *v as int,
            DataValue::StatisticsStateOfChargePercentLow(v) => *v as int,
        }
    }

    /// The tag's name.
    pub fn tag_name(&self) -> (name: &'static str)
        ensures
            name@ == self.tag_name_spec(),
    {
        match self {
            DataValue::AlarmCode(_) => "AlarmCode",
            DataValue::BatteryVoltage(_) => "BatteryVoltage",
            DataValue::BatteryAmps(_) => "BatteryAmps",
            DataValue::SolarWatts(_) => "SolarWatts",
            DataValue::LoadWatts(_) => "LoadWatts",
            DataValue::StateOfChargePercent(_) => "StateOfChargePercent",
            DataValue::AmpHoursSinceMidnight(_) => "AmpHoursSinceMidnight",
            DataValue::CellVoltage { .. } => "CellVoltage",
            DataValue::ControllerPanelVoltage { .. } => "ControllerPanelVoltage",
            DataValue::ControllerBatteryVoltage { .. } => "ControllerBatteryVoltage",
            DataValue::ControllerAmps { .. } => "ControllerAmps",
            DataValue::ControllerTemperatureF { .. } => "ControllerTemperatureF",
            DataValue::StatisticsCellVoltageHigh { .. } => "StatisticsCellVoltageHigh",
            DataValue::StatisticsCellVoltageLow { .. } => "StatisticsCellVoltageLow",
            DataValue::StatisticsSolarWatts(_) => "StatisticsSolarWatts",
            DataValue::StatisticsLoadWatts(_) => "StatisticsLoadWatts",
            DataValue::StatisticsStateOfChargePercentHigh(_) => "StatisticsStateOfChargePercentHigh",
            DataValue::StatisticsStateOfChargePercentLow(_) => "StatisticsStateOfChargePercentLow",
        }
    }

    fn rank(&self) -> (r: u32)
        ensures
            r == self.tag_rank(),
            r < 18,
    {
        match self {
            DataValue::AlarmCode(_) => 0,
            DataValue::AmpHoursSinceMidnight(_) => 1,
            DataValue::BatteryAmps(_) => 2,
            DataValue::BatteryVoltage(_) => 3,
            DataValue::CellVoltage { .. } => 4,
            DataValue::ControllerAmps { .. } => 5,
            DataValue::ControllerBatteryVoltage { .. } => 6,
            DataValue::ControllerPanelVoltage { .. } => 7,
            DataValue::ControllerTemperatureF { .. } => 8,
            DataValue::LoadWatts(_) => 9,
            DataValue::SolarWatts(_) => 10,
            DataValue::StateOfChargePercent(_) => 11,
            DataValue::StatisticsCellVoltageHigh { .. } => 12,
            DataValue::StatisticsCellVoltageLow { .. } => 13,
            DataValue::StatisticsLoadWatts(_) => 14,
            DataValue::StatisticsSolarWatts(_) => 15,
            DataValue::StatisticsStateOfChargePercentHigh(_) => 16,
            DataValue::StatisticsStateOfChargePercentLow(_) => 17,
        }
    }

    /// The cell or controller of the measurement, where it has one.
    pub fn sub_device(&self) -> (id: Option<u16>)
        ensures
            match id {
                Some(n) => n == self.sub_id(),
                None => self.sub_id() == 0,
            },
            id is Some <==> (self is CellVoltage || self is ControllerPanelVoltage
                || self is ControllerBatteryVoltage || self is ControllerAmps
                || self is ControllerTemperatureF || self is StatisticsCellVoltageHigh
                || self is StatisticsCellVoltageLow),
    {
        match self {
            DataValue::CellVoltage { cell, .. } => Some(*cell),
            DataValue::ControllerPanelVoltage { controller, .. } => Some(*controller),
            DataValue::ControllerBatteryVoltage { controller, .. } => Some(*controller),
            DataValue::ControllerAmps { controller, .. } => Some(*controller),
            DataValue::ControllerTemperatureF { controller, .. } => Some(*controller),
            DataValue::StatisticsCellVoltageHigh { cell, .. } => Some(*cell),
            DataValue::StatisticsCellVoltageLow { cell, .. } => Some(*cell),
            _ => None,
        }
    }

    /// The key of the kind: smaller keys come first in a record.
    pub fn kind(&self) -> (key: u32)
        ensures
            key == self.kind_key(),
    {
        let id: u32 = match self.sub_device() {
            Some(n) => n as u32,
            None => 0,
        };
        self.rank() * IDS_PER_TAG + id
    }

    /// Whether both measurements have the same tag and the same sub-device.
    pub fn same_kind(&self, other: &DataValue) -> (same: bool)
        ensures
            same == (self.kind_key() == other.kind_key()),
    {
        self.kind() == other.kind()
    }

    /// The amount measured: millionths of the unit, or the alarm code itself.
    pub fn amount(&self) -> (v: i64)
        ensures
            v == self.amount_spec(),
    {
        match self {
            DataValue::AlarmCode(v) => *v as i64,
            DataValue::BatteryVoltage(v) => *v,
            DataValue::BatteryAmps(v) => *v,
            DataValue::SolarWatts(v) => *v,
            DataValue::LoadWatts(v) => *v,
            DataValue::StateOfChargePercent(v) => *v,
            DataValue::AmpHoursSinceMidnight(v) => *v,
            DataValue::CellVoltage { voltage, .. } => *voltage,
            DataValue::ControllerPanelVoltage { voltage, .. } => *voltage,
            DataValue::ControllerBatteryVoltage { voltage, .. } => *voltage,
            DataValue::ControllerAmps { amps, .. } => *amps,
            DataValue::ControllerTemperatureF { temperature, .. } => *temperature,
            DataValue::StatisticsCellVoltageHigh { voltage, .. } => *voltage,
            DataValue::StatisticsCellVoltageLow { voltage, .. } => *voltage,
            DataValue::StatisticsSolarWatts(v) => *v,
            DataValue::StatisticsLoadWatts(v) => *v,
            DataValue::StatisticsStateOfChargePercentHigh(v) => *v,
            DataValue::StatisticsStateOfChargePercentLow(v) => *v,
        }
    }

    /// How two measurements are ordered: by kind key, whatever they measure.
    pub open spec fn cmp_spec(&self, other: &DataValue) -> Ordering {
        if self.kind_key() < other.kind_key() {
            Ordering::Less
        } else if self.kind_key() == other.kind_key() {
            Ordering::Equal
        } else {
            Ordering::Greater
        }
    }

    /// Orders two measurements by kind: by tag name, and by cell or controller
    /// where the tags agree.
    pub fn cmp(&self, other: &DataValue) -> (o: Ordering)
        ensures
            o == self.cmp_spec(other),
    {
        let a = self.kind();
        let b = other.kind();
        if a < b {
            Ordering::Less
        } else if a == b {
            Ordering::Equal
        } else {
            Ordering::Greater
        }
    }
}

/// Two measurements are equal when they are of the same kind: the amount takes
/// no part.
impl PartialEq for DataValue {
    fn eq(&self, other: &DataValue) -> (r: bool) {
        self.same_kind(other)
    }
}

impl PartialEqSpecImpl for DataValue {
    open spec fn obeys_eq_spec() -> bool {
        true
    }

    open spec fn eq_spec(&self, other: &DataValue) -> bool {
        self.kind_key() == other.kind_key()
    }
}

impl PartialOrd for DataValue {
    fn partial_cmp(&self, other: &DataValue) -> (r: Option<Ordering>) {
        Some(self.cmp(other))
    }
}

impl PartialOrdSpecImpl for DataValue {
    open spec fn obeys_partial_cmp_spec() -> bool {
        true
    }

    open spec fn partial_cmp_spec(&self, other: &DataValue) -> Option<Ordering> {
        Some(self.cmp_spec(other))
    }
}

} // verus!
