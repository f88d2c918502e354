//! A label-partitioned metrics aggregation core: counters and histograms
//! keyed by label sets, collected in a registry and rendered on demand in
//! the OpenMetrics text exposition format.

pub mod labels;
pub mod counter;
pub mod histogram;
pub mod encode;
pub mod registry;
pub mod laws;
