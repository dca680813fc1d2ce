//! Index, selection, remapping, sorting and bookkeeping logic of a
//! virtualised table widget, each function with its contract.

pub mod animation;
pub mod axis;
pub mod builder;
pub mod collections;
pub mod data;
pub mod diff;
pub mod gestures;
pub mod interp;
pub mod lens;
pub mod numbers_table;
pub mod selection;
pub mod vis;

pub use animation::{
    AnimationDirection, AnimationEvent, AnimationId, AnimationPhase, AnimationStatus, AnimationStorage, SimpleCurve,
};
pub use axis::{AxisPair, LogIdx, TableAxis, VisIdx, VisOffset};
pub use builder::{AxisMeasurementType, ShowHeadings};
pub use data::{Remap, RemapDetails, RemapSpec, Remapper, SortDirection, SortSpec};
pub use diff::{
    IndexedData, IndexedDataDiff, IndexedDataDiffer, IndexedDataOp, RefreshDiffer, SlowVectorDiffer,
};
pub use interp::{EnterExit, InterpCoverage, InterpError, StringInterp};
pub use lens::ReadOnly;
pub use numbers_table::LogIdxTable;
pub use selection::{
    CellDemap, IndicesSelection, SelectionStatus, SingleCell, SingleSlice, TableSelection, TableSelectionMod,
};
pub use vis::{AxisName, BandScaleFactory, DatumId, MarkId, OffsetSource, SeriesId, StateName, TickLocator};
