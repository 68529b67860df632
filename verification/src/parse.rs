//! Reading lines of the two dialects.

pub mod parse_error;
pub mod fields;
pub mod utils;
pub mod version;
pub mod traits;
pub mod live_data;
pub mod stored_data;
