//! Core logic of a Gantt-chart task planner: an ordered store of scheduled
//! tasks, a drag-interaction controller that turns pointer gestures into
//! date shifts, a persistence codec for the task list, and the arithmetic
//! that places task bars on the date grid.
//!
//! Timestamps are plain integers: minutes relative to the chart epoch
//! (midnight at the start of the chart's first day). The host shell is
//! responsible for rendering and file I/O; everything here is pure logic
//! with verified contracts.

pub mod codec;
pub mod dates;
pub mod drag;
pub mod engine;
pub mod layout;
pub mod numeral;
pub mod store;
pub mod task;
