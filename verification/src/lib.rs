//! Core of a RAW-to-JPEG batch converter: option validation, RAW file
//! recognition, discovery order, the decoder's command line and reports,
//! output naming, image rendering and the bookkeeping of a batch, each
//! stated and proved with Verus. Reading directories, running the decoder
//! and writing files are left to the caller, which hands the results in.

pub mod batch;
pub mod decoder;
pub mod desktop;
pub mod discovery;
pub mod error;
pub mod options;
pub mod order;
pub mod output;
pub mod path;
pub mod raw;
pub mod render;

pub use batch::{BatchRun, ConversionFailure, ConversionProgress, ConversionSummary, ConvertedFile};
pub use decoder::{decoder_args, decoder_outcome, failure_reason, is_dcraw_emu, wait_step, WaitStep};
pub use discovery::{order_discovered, visit_action, FileKind, Visit};
pub use error::Error;
pub use options::ConversionOptions;
pub use output::{next_name_step, output_file_name, CreateResult, NameStep};
pub use raw::is_supported_raw;
pub use render::{decode_picture, encode_picture, render_jpeg, Picture};
