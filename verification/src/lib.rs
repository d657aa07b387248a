//! CPML — a construction process modeling language: schema, model resolution,
//! syntax-sugar expansion, keyframes, dependency checking, presence records,
//! diagnostics, metrics and scenario comparison.

pub mod comparison;
pub mod dependency;
pub mod diagnostic;
pub mod error;
pub mod expand;
pub mod hierarchy;
pub mod keyframe;
pub mod metric;
pub mod model;
pub mod numeric;
pub mod occupancy;
pub mod pipeline;
pub mod presence;
pub mod presence_state;
pub mod probe_check;
pub mod rate_state;
pub mod report;
pub mod resolve;
pub mod schema;
pub mod text;
pub mod time;
