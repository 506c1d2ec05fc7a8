pub mod runner;
pub mod scan;
pub mod shared;

pub use runner::Runner;
pub use shared::Day;
pub use shared::DayRunner;
pub use shared::Part;
pub use shared::RunError;
