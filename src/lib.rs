//! Hot/cold storage core of a tracing backend: the in-memory warehouse of
//! traces, logs and processes, the minute-partitioned layout of the columnar
//! cold tier, and the rules that merge the two tiers when answering a query.
use vstd::prelude::*;

pub mod model;
pub mod partition;
pub mod query;
pub mod text;
pub mod tiers;
pub mod warehouse;

pub use model::{AggregatedData, JaegerData, Log, Process, Span, Tag, Trace};
pub use warehouse::{TraceLookup, Warehouse};
