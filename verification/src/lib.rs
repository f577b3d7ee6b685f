//! Conversion of microseismic station recordings into SEG-Y files: the
//! binary layout of the SEG-Y headers and traces, the text formats of the
//! station recordings and GPS tables, the grouping of recordings into
//! one-minute time slices, and the decisions of the live monitor.

pub mod error;
pub mod encode;
pub mod header;
pub mod trace;
pub mod writer;
pub mod parser;
pub mod gps;
pub mod dataset;
pub mod synth;
pub mod monitor;
pub mod text;
pub mod order;
pub mod assoc;
pub mod time;
pub mod cli;
pub mod layout;
pub mod filewriter;

pub use dataset::{DatasetBuilder, TimeAlignedDataset};
pub use error::SegyError;
pub use header::{BinaryHeader, SegyRevision, TextHeader};
pub use monitor::{MonitorEvent, MonitorOptions, OutputMode};
pub use parser::MseismFile;
pub use synth::SynthesisOptions;
pub use trace::TraceHeader;
pub use writer::SegyWriter;
