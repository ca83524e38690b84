//! A test-result reporting engine: a typed model of a completed test run,
//! a character-level diff engine, and three interchangeable report renderers
//! (human-readable, JSON, JUnit XML) behind a single formatting facade.

pub mod diffing;
pub mod human;
pub mod json;
pub mod junit;
pub mod model;
pub mod report;
pub mod textutil;

pub use model::FailedTest;
pub use model::PassedTest;
pub use model::Reporter;
pub use model::ReportError;
pub use model::TestResult;
