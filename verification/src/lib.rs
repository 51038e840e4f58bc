//! Transcription of PROBE records into PROBE logs, and Python dataclasses for what they hold.
//!
//! PROBE runs a program and records its operations, the ops, into a directory: for each process,
//! exec epoch and thread there is a list of ops and the memory that they refer to. This library
//! reads such records and decides what is to be done with them, and it writes Python source text
//! for the types of the ops. Files and directories are read and written elsewhere.

pub mod arena;
pub mod counts;
pub mod dataclass;
pub mod error;
pub mod filename;
pub mod parse_dir;
pub mod parse_tid;
pub mod parse_top_level;
pub mod pygen;
pub mod text;
pub mod utf8;
pub mod word;

pub use arena::{ArenaContext, ArenaHeader, DataArena, OpsArena};
pub use counts::add_count;
pub use dataclass::{Dataclass, DataclassInit, DataclassItem, InitArgs};
pub use error::{ArenaError, IntError, ProbeError};
pub use filename::{filename_numeric, parse_usize};
pub use parse_dir::{DirAction, DirEvent, DirPhase, Level, ParseDir};
pub use parse_tid::{
    find_entry, read_data_file, read_ops_file, EmitError, ParseTid, TidAction, TidEvent, TidPhase,
    DATA_SUBDIR, OPS_SUBDIR,
};
pub use parse_top_level::{
    inode_entry, inode_linked, pid_entry, ParseTopLevel, TopAction, TopEvent, TopPhase,
    OPTIONS_FILE,
};
pub use pygen::{
    basic_dataclass, convert_to_pytype, find_unsupported, is_convertible, make_conversion,
    make_py_dataclass_internal, type_basename, Data, DeriveInput, Field, Fields, PygenFile, Type,
    Unsupported, Variant, PYGEN_PREAMBLE,
};
pub use text::{decimal_string, indentation, join_strings};
pub use utf8::is_utf8;
pub use word::{native_order, order_of_sample, read_word, ByteOrder};
