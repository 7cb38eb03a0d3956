//! The concrete strategies: bisection for bulk removal, random probing for
//! dependency-breaking, and exhaustive window sweeps for final cleanup.

mod bisection;
mod random_lines;
mod random_ranges;
mod sliding_window;
mod up_to_n_lines;
pub use bisection::BisectionStrategy;
pub use random_lines::RandomLinesStrategy;
pub use random_ranges::RandomRangesStrategy;
pub use sliding_window::SlidingWindowStrategy;
pub use up_to_n_lines::UpToNLinesStrategy;
