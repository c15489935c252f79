pub mod algebra;
pub mod basic_math;
pub mod batch;
pub mod combinatorics;
pub mod registry;
pub mod statistics;
pub mod traits;

pub use registry::execute_tool;
pub use registry::get_all_tools;
pub use registry::DefaultToolRegistry;
pub use traits::ToolRegistry;
