//! Taint-propagation analysis for a register allocator: given live ranges
//! already known to carry reference-typed (garbage-collector visible) values,
//! compute every live range that such a value can reach through register
//! copies, and mark all of them as reference-typed.
//!
//! - [`data_structures`]: registers, program points, fragments, the two kinds
//!   of live ranges, and move records.
//! - [`sparse_set`] and [`move_graph`]: the membership set and the adjacency
//!   structure the search works over.
//! - [`reach`]: reachability over an edge relation, the specification of what
//!   the analysis marks, with its laws.
//! - [`stack`]: the trusted work stack, backed by `smallvec`.
//! - [`analysis_reftypes`]: the range capability interface, the propagation
//!   engine, and the production environment it runs against.
//! - [`table_analysis`]: a table-backed environment for driving the engine
//!   without a full liveness environment.

pub mod analysis_reftypes;
pub mod data_structures;
pub mod move_graph;
pub mod reach;
pub mod sparse_set;
pub mod stack;
pub mod table_analysis;
