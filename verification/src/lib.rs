//! Composable, conflict-aware policies that turn unstructured text into structured values.

pub mod analysis;
pub mod baseline;
pub mod compare;
pub mod compiler;
pub mod data;
pub mod errors;
pub mod field;
pub mod json;
pub mod masking;
pub mod manager;
pub mod masks;
pub mod message;
pub mod number;
pub mod on_conflict;
pub mod parser;
pub mod policy;
pub mod policy_type;
pub mod regression;
pub mod roundtrip;
pub mod report;
pub mod report_builder;
pub mod semantic;
pub mod text;
pub mod usage;

pub use errors::{ApplyError, Conflict, PolicyError};
pub use field::Field;
pub use json::{Json, JsonNumber};
pub use manager::Manager;
pub use masks::{BoolMask, NumberMask, StringArrayMask, StringEnumMask, StringMask};
pub use on_conflict::OnConflict;
pub use parser::ParseError;
pub use policy::Policy;
pub use policy_type::PolicyType;
pub use report::Report;
pub use report_builder::ReportBuilder;
pub use usage::{TokenUsage, Usage};
