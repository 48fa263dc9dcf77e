//! The names that most users of this crate need.

pub use crate::aggregate::{Maximum, Mean, Median, Minimum, Percentile};
pub use crate::coords::{
    keeps_margin, manhattan_distance, points_around, Coord2, Coord3, GridBounds,
    GridCoordinates,
};
pub use crate::error::{BuilderError, SamplingError, SimulationError};
pub use crate::numeric::Numeric;
pub use crate::spatial_grid::{
    GridBounds2D, GridBounds3D, GridPosition, GridPosition2D, GridPosition3D, SpatialGrid,
    SpatialGrid2D, SpatialGrid3D,
};
pub use crate::time_series::{SeriesKey, StepCounter, TimeSeries, TimeSeriesData, TimeSeriesRegistry};
pub use crate::traits::{Identifier, Sample, SampleAggregate};
