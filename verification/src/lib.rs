//! Emergent coupling: the discrete decisions behind coupling two spectral
//! systems, stated and proved.
//!
//! - [`coupling_mode`]: how the alignment of two dominant modes classifies a
//!   coupling, and the outcome of a coupling with fewer than two nodes.
//! - [`topology`]: which node pairs the coupled graph connects, and where each
//!   edge sits in its adjacency matrix.
//! - [`emergence`]: where along a sweep of coupling strengths emergence first appears.

pub mod coupling_mode;
pub mod emergence;
pub mod topology;

pub use coupling_mode::{classify_mode, degenerate_coupling, CouplingMode};
pub use emergence::{first_emergent_index, sweep_points};
pub use topology::{coupling_edges, edge_position, CouplingEdge, EdgeBlock, BRIDGE_NODES};
