pub mod brick;
mod calls;
pub mod color;
pub mod fetch;
pub mod files;
pub mod load;
pub mod map;
pub mod opt;
pub mod redact;
pub mod save;
pub mod sculpt;
pub mod text;
pub mod tiles;
pub mod units;
pub mod util;
pub mod zones;
