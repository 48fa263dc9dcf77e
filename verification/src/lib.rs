//! Building blocks for agent-based simulations on integer lattices: a spatial
//! index from grid positions to entities and back, and a sampling pipeline that
//! reduces per-entity state to time series and order statistics.

pub mod aggregate;
pub mod coords;
pub mod error;
pub mod numeric;
pub mod ordered;
pub mod prelude;
pub mod sampling;
mod seal;
mod seqs;
pub mod spatial_grid;
pub mod store;
pub mod time_series;
pub mod traits;

pub use coords::{GridBounds, GridCoordinates};
pub use error::{BuilderError, SamplingError, SimulationError};
pub use spatial_grid::{GridPosition, SpatialGrid};
pub use traits::{Identifier, Sample, SampleAggregate};
