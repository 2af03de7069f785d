//! Shape-aware data handling, file-format scanning and command-line parsing for
//! relaxed vector fitting of frequency responses: the structure around the numbers.

pub mod axis;
pub mod cli;
pub mod dims;
pub mod emt;
pub mod error;
pub mod fit;
pub mod io;
pub mod shape;
pub mod text;
pub mod touchstone;

pub use crate::axis::{ComplexAxis, Hz, RadPerSec, RealAxis};
pub use crate::emt::DiscretizationMethod;
pub use crate::error::{ErrorKind, Result, VecfitError};
pub use crate::fit::{SolverPolicy, SolverUsed, WeightSource, WeightStrategy};
pub use crate::io::CsvFormat;
pub use crate::shape::{FlatResponse, Layout, ResponseSample, Shape};
pub use crate::touchstone::{DataFormat, FrequencyUnit, ParameterType};
