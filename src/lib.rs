//! Locating and erasing byte patterns in the private writable memory regions
//! of a process: catalog parsing, admission, search and erase planning.

pub mod hexnum;
pub mod search;
pub mod maps;
pub mod grep;
pub mod scan;

pub use hexnum::{format_address_range, parse_hex_u64};
pub use search::{find_first, match_positions};
pub use maps::{parse_address_range, split_address_range, str_eq, MapsError, MapsPath, MapsRecord};
pub use grep::{check_read_len, fill_bytes, plan_region, region_read_size, EraseWrite, GrepError, MatchResult, RegionPlan};
pub use scan::{ok_but_complain, plan_line, resolve_pattern, LineStep, PatternError};
