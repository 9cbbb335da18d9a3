pub mod commands;
pub mod config;
pub mod datetime;
pub mod duration;
pub mod background;
pub mod ids;
pub mod legacy_process;
pub mod process;
pub mod process_scanner;
pub mod socket;
pub mod text;
pub mod user_commands;

pub use config::{MIN_AUTOSAVE_INTERVAL, MIN_DURATION_UPDATE_INTERVAL, MIN_POLL_INTERVAL};
pub use datetime::parse_datetime;
pub use duration::{duration_to_string, string_to_duration};
pub use ids::parse_range;
pub use socket::get_socket_name;
