//! A whole request for one chart, and the bucket widths it can ask for.

use super::graph_axis::AxisControlsRequest;
use super::graph_axis::AxisDataOption;
use super::graph_axis::AxisDataType;
use super::graph_axis::AxisTimeRequest;
use vstd::prelude::*;

verus! {

/// Everything one chart asks for: the series of its x axis, those of its
/// primary and secondary y axis, and the window of time.
#[derive(Debug, PartialEq)]
pub struct GraphStateRequest {
    pub graph_id: String,
    pub x_axis: AxisControlsRequest,
    pub y_axis: (AxisControlsRequest, AxisControlsRequest),
    pub time_frame: AxisTimeRequest,
}

/// The width of one bucket. Every width divides a day of 86 400 seconds evenly.
#[derive(Clone, Copy, Debug, PartialEq, Eq, Structural)]
pub enum Resolution {
    OneMinute,
    FiveMinute,
    FifteenMinute,
    OneHour,
    OneDay,
}

impl Resolution {
    /// The bucket width in seconds.
    pub open spec fn seconds(&self) -> int {
        match self {
            Resolution::OneMinute => 60,
            Resolution::FiveMinute => 300,
            Resolution::FifteenMinute => 900,
            Resolution::OneHour => 3_600,
            Resolution::OneDay => 86_400,
        }
    }

    /// The bucket width in seconds.
    pub fn get_timestamp_offset(&self) -> (width: i64)
        ensures
            width == self.seconds(),
            width > 0,
            86_400int % (width as int) == 0,
    {
        match self {
            Resolution::OneMinute => 60,
            Resolution::FiveMinute => 300,
            Resolution::FifteenMinute => 900,
            Resolution::OneHour => 3_600,
            Resolution::OneDay => 86_400,
        }
    }
}

/// Start of the default window: 2022-01-01T00:00:00Z.
pub const DEFAULT_WINDOW_START: i64 = 1_640_995_200;

/// End of the default window: 2023-06-01T00:00:00Z.
pub const DEFAULT_WINDOW_END: i64 = 1_685_577_600;

impl Clone for GraphStateRequest {
    fn clone(&self) -> (copy: GraphStateRequest)
        ensures
            copy.graph_id@ == self.graph_id@,
            copy.x_axis.requests@ == self.x_axis.requests@,
            copy.y_axis.0.requests@ == self.y_axis.0.requests@,
            copy.y_axis.1.requests@ == self.y_axis.1.requests@,
            copy.time_frame == self.time_frame,
    {
        GraphStateRequest {
            graph_id: self.graph_id.clone(),
            x_axis: self.x_axis.clone(),
            y_axis: (self.y_axis.0.clone(), self.y_axis.1.clone()),
            time_frame: self.time_frame,
        }
    }
}

impl GraphStateRequest {
    /// The request a new chart starts with: average battery voltage over
    /// time, in buckets of one day, from 2022-01-01 to 2023-06-01.
    pub fn default_with_name(name: String) -> (request: GraphStateRequest)
        ensures
            request.graph_id == name,
            request.x_axis.requests@ == seq![(AxisDataType::Time, AxisDataOption::Average)],
            request.y_axis.0.requests@ == seq![
                (AxisDataType::BatteryVoltage, AxisDataOption::Average),
            ],
            request.y_axis.1.requests@ == Seq::<(AxisDataType, AxisDataOption)>::empty(),
            request.time_frame.start == DEFAULT_WINDOW_START,
            request.time_frame.end == DEFAULT_WINDOW_END,
            request.time_frame.manual_resolution == Some(Resolution::OneDay),
    {
        let mut x: Vec<(AxisDataType, AxisDataOption)> = Vec::new();
        x.push((AxisDataType::Time, AxisDataOption::Average));
        let mut y: Vec<(AxisDataType, AxisDataOption)> = Vec::new();
        y.push((AxisDataType::BatteryVoltage, AxisDataOption::Average));
        GraphStateRequest {
            graph_id: name,
            x_axis: AxisControlsRequest { requests: x },
            y_axis: (AxisControlsRequest { requests: y }, AxisControlsRequest::default()),
            time_frame: AxisTimeRequest {
                start: DEFAULT_WINDOW_START,
                end: DEFAULT_WINDOW_END,
                manual_resolution: Some(Resolution::OneDay),
            },
        }
    }
}

} // verus!
