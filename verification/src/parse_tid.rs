//! What to do with a TID directory of a record: its data files become the memory that its ops
//! refer to, and its ops files are decoded and written out op by op.

use crate::arena;
use crate::arena::{ArenaContext, DataArena, OpsArena};
use crate::error;
use crate::error::{io_err, wrap_err, ProbeError};
use crate::filename;
use crate::filename::filename_numeric;
use crate::text;
use crate::text::decimal_string;
use crate::word::{native_order, ByteOrder};
use std::collections::VecDeque;
use vstd::prelude::*;
use vstd::slice::slice_to_vec;
use vstd::utf8;

verus! {

/// The subdirectory of a TID directory with the memory of the thread.
pub const DATA_SUBDIR: &'static str = "data";

/// The subdirectory of a TID directory with the ops of the thread.
pub const OPS_SUBDIR: &'static str = "ops";

/// Why an op could not be written out.
pub enum EmitError {
    /// It could not be serialized.
    Serialize(String),
    /// It could not be written.
    Write(String),
    /// The newline behind it could not be written.
    Newline(String),
}

/// What the last action was, and so what the next event is about.
#[derive(Debug, Clone, Copy, PartialEq, Eq, Structural)]
pub enum TidPhase {
    CreatingOutput,
    ListingTid,
    ListingData,
    ReadingData,
    ListingOps,
    ReadingOps,
    Emitting,
    Finished,
}

/// The outcome of an action.
pub enum TidEvent {
    /// Of `TidAction::CreateOutput`.
    OutputCreated(Result<(), String>),
    /// Of `TidAction::ListTid`, with the name of each entry, or of `TidAction::ListSubdir`, with
    /// the path of each entry.
    Listed(Result<Vec<Result<Vec<u8>, String>>, String>),
    /// Of `TidAction::ReadFile`.
    FileRead(Result<Vec<u8>, String>),
    /// Of `TidAction::Emit`.
    Emitted(Result<(), EmitError>),
}

/// What to do next.
pub enum TidAction<T> {
    /// Create a file of this name in the output directory.
    CreateOutput(String),
    /// List the TID directory.
    ListTid,
    /// List the subdirectory at this place in the listing of the TID directory.
    ListSubdir(usize),
    /// Read the file at this path.
    ReadFile(Vec<u8>),
    /// Serialize this op and write it to the output file on a line of its own.
    Emit(T),
    /// Return.
    Done(Result<usize, ProbeError>),
}

/// The outcome of an action, with bytes for byte strings.
pub enum TidReply {
    OutputCreated(Result<(), String>),
    Listed(Result<Seq<Result<Seq<u8>, String>>, String>),
    FileRead(Result<Seq<u8>, String>),
    Emitted(Result<(), EmitError>),
}

/// What to do next, with characters and bytes for strings.
pub enum TidMove<T> {
    CreateOutput(Seq<char>),
    ListTid,
    ListSubdir(int),
    ReadFile(Seq<u8>),
    Emit(T),
    Done(Result<usize, ProbeError>),
}

/// The entries of a listing.
pub open spec fn entries_view(entries: Seq<Result<Vec<u8>, String>>) -> Seq<
    Result<Seq<u8>, String>,
> {
    entries.map_values(
        |entry: Result<Vec<u8>, String>|
            match entry {
                Ok(name) => Ok::<Seq<u8>, String>(name@),
                Err(reason) => Err(reason),
            },
    )
}

impl View for TidEvent {
    type V = TidReply;

    open spec fn view(&self) -> TidReply {
        match *self {
            TidEvent::OutputCreated(res) => TidReply::OutputCreated(res),
            TidEvent::Listed(listing) => TidReply::Listed(listing_view(listing)),
            TidEvent::FileRead(contents) => TidReply::FileRead(contents_view(contents)),
            TidEvent::Emitted(res) => TidReply::Emitted(res),
        }
    }
}

impl<T> View for TidAction<T> {
    type V = TidMove<T>;

    open spec fn view(&self) -> TidMove<T> {
        match *self {
            TidAction::CreateOutput(name) => TidMove::CreateOutput(name@),
            TidAction::ListTid => TidMove::ListTid,
            TidAction::ListSubdir(index) => TidMove::ListSubdir(index as int),
            TidAction::ReadFile(path) => TidMove::ReadFile(path@),
            TidAction::Emit(op) => TidMove::Emit(op),
            TidAction::Done(res) => TidMove::Done(res),
        }
    }
}

/// The place of the entry named `name` in a listing; of several, the last. Entries that could not
/// be read have no name.
pub open spec fn entry_index(listing: Seq<Result<Seq<u8>, String>>, name: Seq<u8>) -> Option<int>
    decreases listing.len(),
{
    if listing.len() == 0 {
        None
    } else if listing.last() == Ok::<Seq<u8>, String>(name) {
        Some(listing.len() - 1)
    } else {
        entry_index(listing.drop_last(), name)
    }
}

/// The paths in the listing of a subdirectory, or the first failure.
pub open spec fn paths_of(listing: Seq<Result<Seq<u8>, String>>) -> Result<Seq<Seq<u8>>, String>
    decreases listing.len(),
{
    if listing.len() == 0 {
        Ok(seq![])
    } else {
        match paths_of(listing.drop_last()) {
            Err(reason) => Err(reason),
            Ok(paths) => match listing.last() {
                Err(reason) => Err(reason),
                Ok(path) => Ok(paths.push(path)),
            },
        }
    }
}

/// The files of a subdirectory, or the failure to list it.
pub open spec fn files_of(listing: Result<Seq<Result<Seq<u8>, String>>, String>) -> Result<
    Seq<Seq<u8>>,
    ProbeError,
> {
    match listing {
        Err(reason) => Err(error::io_failure("Error opening record TID directory", reason)),
        Ok(entries) => match paths_of(entries) {
            Err(reason) => Err(
                error::io_failure("Error reading DirEntry from record TID subdirectory", reason),
            ),
            Ok(paths) => Ok(paths),
        },
    }
}

/// The memory in the data file at `path`.
pub open spec fn data_file_segment(
    order: ByteOrder,
    path: Seq<u8>,
    contents: Result<Seq<u8>, String>,
) -> Result<arena::Segment, ProbeError> {
    match contents {
        Err(reason) => Err(error::io_failure("Failed to read file from data directory", reason)),
        Ok(bytes) => match filename::numeric_name(path) {
            Err(e) => Err(error::in_context("Error parsing numeric data/$n.dat", e)),
            Ok(instantiation) => arena::segment_of(order, bytes, instantiation),
        },
    }
}

/// The records in the ops file at `path`.
pub open spec fn ops_file_records(
    order: ByteOrder,
    op_size: usize,
    path: Seq<u8>,
    contents: Result<Seq<u8>, String>,
) -> Result<Seq<Seq<u8>>, ProbeError> {
    match contents {
        Err(reason) => Err(error::io_failure("Failed to read file from ops directory", reason)),
        Ok(bytes) => match filename::numeric_name(path) {
            Err(e) => Err(error::in_context("Error parsing numeric ops/$n.dat", e)),
            Ok(instantiation) => error::with_context(
                arena::records_of(order, bytes, instantiation, op_size),
                "Error constructing OpsArena",
            ),
        },
    }
}

/// The ops in the ops file at `path`, whose records decode to `decoded` if there are any.
pub open spec fn ops_file_ops<T>(
    order: ByteOrder,
    op_size: usize,
    path: Seq<u8>,
    contents: Result<Seq<u8>, String>,
    decoded: Result<Seq<T>, ProbeError>,
) -> Result<Seq<T>, ProbeError> {
    match ops_file_records(order, op_size, path, contents) {
        Err(e) => Err(e),
        Ok(_) => error::with_context(
            error::with_context(decoded, "Failed to decode arena ops"),
            "Error decoding OpsArena",
        ),
    }
}

/// The failure to write out an op.
pub open spec fn emit_failure(e: EmitError) -> ProbeError {
    match e {
        EmitError::Serialize(reason) => error::in_context(
            "Unable to serialize Op",
            ProbeError::SerializeError(reason),
        ),
        EmitError::Write(reason) => error::io_failure(
            "Failed to write serialized Op to tempfile",
            reason,
        ),
        EmitError::Newline(reason) => error::io_failure(
            "Failed to write newline deliminator to tempfile",
            reason,
        ),
    }
}

/// The transcription of a TID directory.
pub struct TidModel<T> {
    /// The byte order of the machine that wrote the record.
    pub order: ByteOrder,
    /// The number of bytes of a record in an ops file.
    pub op_size: usize,
    pub phase: TidPhase,
    /// The listing of the TID directory.
    pub listing: Seq<Result<Seq<u8>, String>>,
    /// The memory in the data files read so far.
    pub segments: Seq<arena::Segment>,
    /// The files of the current subdirectory from the current one on.
    pub files: Seq<Seq<u8>>,
    /// The ops of the current file behind the current one.
    pub pending: Seq<T>,
    /// The number of ops written out.
    pub count: nat,
}

impl<T> TidModel<T> {
    /// The beginning of the transcription of the directory at `path`, and what to do first.
    pub open spec fn started(order: ByteOrder, op_size: usize, path: Seq<u8>) -> (
        TidModel<T>,
        TidMove<T>,
    ) {
        let state = TidModel {
            order,
            op_size,
            phase: TidPhase::CreatingOutput,
            listing: seq![],
            segments: seq![],
            files: seq![],
            pending: seq![],
            count: 0,
        };
        match filename::numeric_name(path) {
            Ok(number) => (state, TidMove::CreateOutput(text::decimal(number as nat))),
            Err(e) => state.failed(error::in_context("Error parsing numeric tid", e)),
        }
    }

    /// The transcription waits for this kind of event.
    pub open spec fn expects(self, reply: TidReply) -> bool {
        match reply {
            TidReply::OutputCreated(_) => self.phase == TidPhase::CreatingOutput,
            TidReply::Listed(_) => self.phase == TidPhase::ListingTid || self.phase
                == TidPhase::ListingData || self.phase == TidPhase::ListingOps,
            TidReply::FileRead(_) => self.phase == TidPhase::ReadingData || self.phase
                == TidPhase::ReadingOps,
            TidReply::Emitted(_) => self.phase == TidPhase::Emitting,
        }
    }

    /// There is a current file whenever one is being read.
    pub open spec fn well_formed(self) -> bool {
        &&& self.op_size > 0
        &&& self.phase == TidPhase::ReadingData || self.phase == TidPhase::ReadingOps || self.phase
            == TidPhase::Emitting ==> self.files.len() > 0
    }

    /// The transcription in phase `phase`.
    pub open spec fn in_phase(self, phase: TidPhase) -> TidModel<T> {
        TidModel { phase, ..self }
    }

    /// The end of the transcription with the error `e`.
    pub open spec fn failed(self, e: ProbeError) -> (TidModel<T>, TidMove<T>) {
        (self.in_phase(TidPhase::Finished), TidMove::Done(Err(e)))
    }

    /// Goes on with the subdirectory `name`.
    pub open spec fn enter(
        self,
        name: &'static str,
        phase: TidPhase,
        missing: &'static str,
    ) -> (TidModel<T>, TidMove<T>) {
        match entry_index(self.listing, utf8::encode_utf8(name@)) {
            None => self.failed(ProbeError::MissingValue(missing)),
            Some(index) => (self.in_phase(phase), TidMove::ListSubdir(index)),
        }
    }

    /// Goes on with the next data file, or with the ops.
    pub open spec fn next_data_file(self) -> (TidModel<T>, TidMove<T>) {
        if self.files.len() > 0 {
            (self.in_phase(TidPhase::ReadingData), TidMove::ReadFile(self.files[0]))
        } else {
            self.enter(
                OPS_SUBDIR,
                TidPhase::ListingOps,
                "Missing ops directory from TID directory",
            )
        }
    }

    /// Goes on with the next ops file, or returns.
    pub open spec fn next_ops_file(self) -> (TidModel<T>, TidMove<T>) {
        if self.files.len() > 0 {
            (self.in_phase(TidPhase::ReadingOps), TidMove::ReadFile(self.files[0]))
        } else {
            (self.in_phase(TidPhase::Finished), TidMove::Done(Ok(self.count as usize)))
        }
    }

    /// Goes on with the next op of the current file, or with the next file.
    pub open spec fn next_op(self) -> (TidModel<T>, TidMove<T>) {
        if self.pending.len() > 0 {
            (
                TidModel {
                    phase: TidPhase::Emitting,
                    pending: self.pending.drop_first(),
                    ..self
                },
                TidMove::Emit(self.pending[0]),
            )
        } else {
            (TidModel { files: self.files.drop_first(), ..self }).next_ops_file()
        }
    }

    /// Where the transcription goes on an event, and what to do there; `decoded` is what the
    /// records of an ops file decode to.
    pub open spec fn after(self, reply: TidReply, decoded: Result<Seq<T>, ProbeError>) -> (
        TidModel<T>,
        TidMove<T>,
    ) {
        match reply {
            TidReply::OutputCreated(Err(reason)) => self.failed(
                error::io_failure("Failed to create TID output file", reason),
            ),
            TidReply::OutputCreated(Ok(_)) => (
                self.in_phase(TidPhase::ListingTid),
                TidMove::ListTid,
            ),
            TidReply::Listed(listing) => if self.phase == TidPhase::ListingTid {
                match listing {
                    Err(reason) => self.failed(
                        error::io_failure("Error reading record TID directory", reason),
                    ),
                    Ok(entries) => (TidModel { listing: entries, ..self }).enter(
                        DATA_SUBDIR,
                        TidPhase::ListingData,
                        "Missing data directory from TID directory",
                    ),
                }
            } else {
                match files_of(listing) {
                    Err(e) => self.failed(e),
                    Ok(files) => if self.phase == TidPhase::ListingData {
                        (TidModel { files, ..self }).next_data_file()
                    } else {
                        (TidModel { files, ..self }).next_ops_file()
                    },
                }
            },
            TidReply::FileRead(contents) => if self.phase == TidPhase::ReadingData {
                match data_file_segment(self.order, self.files[0], contents) {
                    Err(e) => self.failed(e),
                    Ok(segment) => (TidModel {
                        segments: self.segments.push(segment),
                        files: self.files.drop_first(),
                        ..self
                    }).next_data_file(),
                }
            } else {
                match ops_file_ops(self.order, self.op_size, self.files[0], contents, decoded) {
                    Err(e) => self.failed(e),
                    Ok(ops) => (TidModel { pending: ops, ..self }).next_op(),
                }
            },
            TidReply::Emitted(Err(e)) => self.failed(emit_failure(e)),
            TidReply::Emitted(Ok(_)) => (TidModel { count: self.count + 1, ..self }).next_op(),
        }
    }
}

/// Whether two byte strings are equal.
fn same_bytes(a: &[u8], b: &[u8]) -> (res: bool)
    ensures
        res == (a@ == b@),
{
    if a.len() != b.len() {
        return false;
    }
    let mut i: usize = 0;
    while i < a.len()
        invariant
            i <= a@.len(),
            a@.len() == b@.len(),
            forall|j: int| 0 <= j < i ==> a@[j] == b@[j],
        decreases a@.len() - i,
    {
        if a[i] != b[i] {
            return false;
        }
        i = i + 1;
    }
    assert(a@ =~= b@);
    true
}

/// Finds the entry named `name` in a listing.
pub fn find_entry(listing: &Vec<Result<Vec<u8>, String>>, name: &str) -> (res: Option<usize>)
    ensures
        match res {
            Some(index) => entry_index(entries_view(listing@), utf8::encode_utf8(name@)) == Some(
                index as int,
            ),
            None => entry_index(entries_view(listing@), utf8::encode_utf8(name@)) is None,
        },
{
    let bytes = name.as_bytes();
    let ghost all = entries_view(listing@);
    let mut i: usize = listing.len();
    assert(all.take(i as int) =~= all);
    while i > 0
        invariant
            i <= listing@.len(),
            all == entries_view(listing@),
            bytes@ == utf8::encode_utf8(name@),
            entry_index(all, bytes@) == entry_index(all.take(i as int), bytes@),
        decreases i,
    {
        i = i - 1;
        assert(all.take(i + 1).drop_last() =~= all.take(i as int));
        assert(all.take(i + 1).last() == all[i as int]);
        match &listing[i] {
            Ok(entry) => {
                if same_bytes(entry.as_slice(), bytes) {
                    return Some(i);
                }
            },
            Err(_) => {},
        }
    }
    None
}

/// The contents of a list of byte strings.
pub open spec fn bytes_views(strings: Seq<Vec<u8>>) -> Seq<Seq<u8>> {
    strings.map_values(|s: Vec<u8>| s@)
}

/// A failure among the first entries of a listing is the failure of the listing.
proof fn lemma_paths_error(listing: Seq<Result<Seq<u8>, String>>, k: int)
    requires
        0 <= k <= listing.len(),
        paths_of(listing.take(k)) is Err,
    ensures
        paths_of(listing) == paths_of(listing.take(k)),
    decreases listing.len() - k,
{
    if k == listing.len() {
        assert(listing.take(k) =~= listing);
    } else {
        assert(listing.take(k + 1).drop_last() =~= listing.take(k));
        lemma_paths_error(listing, k + 1);
    }
}

/// Collects the paths in a listing, up to the first failure.
fn collect_paths(listing: Vec<Result<Vec<u8>, String>>) -> (res: Result<Vec<Vec<u8>>, String>)
    ensures
        match res {
            Ok(paths) => paths_of(entries_view(listing@)) == Ok::<Seq<Seq<u8>>, String>(
                bytes_views(paths@),
            ),
            Err(reason) => paths_of(entries_view(listing@)) == Err::<Seq<Seq<u8>>, String>(reason),
        },
{
    let ghost all = entries_view(listing@);
    let ghost given = listing@;
    let mut paths: Vec<Vec<u8>> = Vec::new();
    assert(bytes_views(paths@) =~= seq![]);
    assert(all.take(0) =~= seq![]);
    for entry in iter: listing
        invariant
            iter.seq() == given,
            all == entries_view(given),
            paths_of(all.take(iter.index())) == Ok::<Seq<Seq<u8>>, String>(bytes_views(paths@)),
    {
        let ghost i = iter.index();
        assert(all.take(i + 1).drop_last() =~= all.take(i));
        assert(all.take(i + 1).last() == all[i]);
        assert(entry == given[i]);
        match entry {
            Ok(path) => {
                let ghost before = bytes_views(paths@);
                paths.push(path);
                assert(bytes_views(paths@) =~= before.push(path@));
            },
            Err(reason) => {
                proof {
                    lemma_paths_error(all, i + 1);
                }
                return Err(reason);
            },
        }
    }
    assert(all.take(all.len() as int) =~= all);
    Ok(paths)
}

/// The entries of a listing, if there is one.
pub open spec fn listing_view(listing: Result<Vec<Result<Vec<u8>, String>>, String>) -> Result<
    Seq<Result<Seq<u8>, String>>,
    String,
> {
    match listing {
        Ok(entries) => Ok(entries_view(entries@)),
        Err(reason) => Err(reason),
    }
}

/// The contents of a file, if it could be read.
pub open spec fn contents_view(contents: Result<Vec<u8>, String>) -> Result<Seq<u8>, String> {
    match contents {
        Ok(bytes) => Ok(bytes@),
        Err(reason) => Err(reason),
    }
}

/// Lists the files of a subdirectory.
fn collect_files(listing: Result<Vec<Result<Vec<u8>, String>>, String>) -> (res: Result<
    Vec<Vec<u8>>,
    ProbeError,
>)
    ensures
        match res {
            Ok(paths) => files_of(listing_view(listing)) == Ok::<Seq<Seq<u8>>, ProbeError>(
                bytes_views(paths@),
            ),
            Err(e) => files_of(listing_view(listing)) == Err::<Seq<Seq<u8>>, ProbeError>(e),
        },
{
    match listing {
        Err(reason) => Err(io_err("Error opening record TID directory", reason)),
        Ok(entries) => match collect_paths(entries) {
            Ok(paths) => Ok(paths),
            Err(reason) => Err(
                io_err("Error reading DirEntry from record TID subdirectory", reason),
            ),
        },
    }
}

/// Reads the memory in the data file at `path`.
pub fn read_data_file(order: ByteOrder, path: &[u8], contents: Result<Vec<u8>, String>) -> (res:
    Result<DataArena, ProbeError>)
    ensures
        arena::arena_view(res) == data_file_segment(order, path@, contents_view(contents)),
{
    match contents {
        Err(reason) => Err(io_err("Failed to read file from data directory", reason)),
        Ok(bytes) => match wrap_err(filename_numeric(path), "Error parsing numeric data/$n.dat") {
            Err(e) => Err(e),
            Ok(instantiation) => DataArena::from_bytes_in(order, bytes, instantiation),
        },
    }
}

/// Reads the records in the ops file at `path`.
pub fn read_ops_file(
    order: ByteOrder,
    op_size: usize,
    path: &[u8],
    contents: Result<Vec<u8>, String>,
) -> (res: Result<OpsArena, ProbeError>)
    requires
        op_size > 0,
    ensures
        arena::ops_view(res) == ops_file_records(order, op_size, path@, contents_view(contents)),
        res matches Ok(arena) ==> arena.spec_op_size() == op_size,
{
    match contents {
        Err(reason) => Err(io_err("Failed to read file from ops directory", reason)),
        Ok(bytes) => match wrap_err(filename_numeric(path), "Error parsing numeric ops/$n.dat") {
            Err(e) => Err(e),
            Ok(instantiation) => wrap_err(
                OpsArena::from_bytes_in(order, bytes, instantiation, op_size),
                "Error constructing OpsArena",
            ),
        },
    }
}

/// The failure to write out an op.
fn emit_err(e: EmitError) -> (res: ProbeError)
    ensures
        res == emit_failure(e),
{
    match e {
        EmitError::Serialize(reason) => ProbeError::Context {
            context: "Unable to serialize Op",
            inner: Box::new(ProbeError::SerializeError(reason)),
        },
        EmitError::Write(reason) => io_err("Failed to write serialized Op to tempfile", reason),
        EmitError::Newline(reason) => io_err(
            "Failed to write newline deliminator to tempfile",
            reason,
        ),
    }
}

/// The transcription of a TID directory.
pub struct ParseTid<T> {
    order: ByteOrder,
    op_size: usize,
    phase: TidPhase,
    listing: Vec<Result<Vec<u8>, String>>,
    arenas: ArenaContext,
    files: Vec<Vec<u8>>,
    next: usize,
    pending: VecDeque<T>,
    count: usize,
}

impl<T> View for ParseTid<T> {
    type V = TidModel<T>;

    closed spec fn view(&self) -> TidModel<T> {
        TidModel {
            order: self.order,
            op_size: self.op_size,
            phase: self.phase,
            listing: entries_view(self.listing@),
            segments: self.arenas@,
            files: bytes_views(self.files@).skip(self.next as int),
            pending: self.pending@,
            count: self.count as nat,
        }
    }
}

/// `decoded` is what `decode_op` may give for the records of an ops file that was read; of any
/// other event nothing is said.
pub open spec fn decoded_by<T, F: Fn(&[u8], &ArenaContext) -> Result<T, ProbeError>>(
    state: TidModel<T>,
    ctx: &ArenaContext,
    reply: TidReply,
    decode_op: F,
    decoded: Result<Seq<T>, ProbeError>,
) -> bool {
    match reply {
        TidReply::FileRead(contents) if state.phase == TidPhase::ReadingOps => ops_file_records(
            state.order,
            state.op_size,
            state.files[0],
            contents,
        ) matches Ok(records) ==> arena::all_decode_to(decode_op, records, ctx, decoded),
        _ => true,
    }
}

impl<T> ParseTid<T> {
    /// The memory that ops refer to.
    pub closed spec fn context(self) -> ArenaContext {
        self.arenas
    }

    /// The transcription is in a state that it can go on from.
    pub closed spec fn well_formed(self) -> bool {
        &&& self.next <= self.files@.len()
        &&& self@.well_formed()
    }

    /// Begins the transcription of the directory at `path`, whose ops are records of `op_size`
    /// bytes of a machine of byte order `order`.
    pub fn start_in(order: ByteOrder, path: &[u8], op_size: usize) -> (res: (Self, TidAction<T>))
        requires
            op_size > 0,
        ensures
            res.0.well_formed(),
            res.0.context()@ == res.0@.segments,
            (res.0@, res.1@) == TidModel::<T>::started(order, op_size, path@),
    {
        let (phase, action) = match wrap_err(filename_numeric(path), "Error parsing numeric tid") {
            Ok(number) => (
                TidPhase::CreatingOutput,
                TidAction::CreateOutput(decimal_string(number)),
            ),
            Err(e) => (TidPhase::Finished, TidAction::Done(Err(e))),
        };
        let state = ParseTid {
            order,
            op_size,
            phase,
            listing: Vec::new(),
            arenas: ArenaContext(Vec::new()),
            files: Vec::new(),
            next: 0,
            pending: VecDeque::new(),
            count: 0,
        };
        proof {
            assert(state@.listing =~= seq![]);
            assert(state@.segments =~= seq![]);
            assert(state@.files =~= seq![]);
            assert(state@.pending =~= seq![]);
        }
        (state, action)
    }

    /// Begins the transcription of the directory at `path`, whose ops are records of `op_size`
    /// bytes that this machine wrote.
    pub fn start(path: &[u8], op_size: usize) -> (res: (Self, TidAction<T>))
        requires
            op_size > 0,
        ensures
            res.0.well_formed(),
            res.0.context()@ == res.0@.segments,
            exists|order: ByteOrder|
                (res.0@, res.1@) == #[trigger] TidModel::<T>::started(order, op_size, path@),
    {
        ParseTid::start_in(native_order(), path, op_size)
    }

    /// Ends the transcription with the error `e`.
    fn fail(&mut self, e: ProbeError) -> (res: TidAction<T>)
        requires
            old(self).well_formed(),
        ensures
            final(self).well_formed(),
            (final(self)@, res@) == old(self)@.failed(e),
    {
        self.phase = TidPhase::Finished;
        TidAction::Done(Err(e))
    }

    /// Goes on with the subdirectory `name`.
    fn enter(&mut self, name: &'static str, phase: TidPhase, missing: &'static str) -> (res:
        TidAction<T>)
        requires
            old(self).next <= old(self).files@.len(),
            old(self).op_size > 0,
            phase == TidPhase::ListingData || phase == TidPhase::ListingOps,
        ensures
            final(self).well_formed(),
            (final(self)@, res@) == old(self)@.enter(name, phase, missing),
    {
        match find_entry(&self.listing, name) {
            None => {
                self.phase = TidPhase::Finished;
                TidAction::Done(Err(ProbeError::MissingValue(missing)))
            },
            Some(index) => {
                self.phase = phase;
                TidAction::ListSubdir(index)
            },
        }
    }

    /// Goes on with the next data file, or with the ops.
    fn next_data_file(&mut self) -> (res: TidAction<T>)
        requires
            old(self).next <= old(self).files@.len(),
            old(self).op_size > 0,
        ensures
            final(self).well_formed(),
            (final(self)@, res@) == old(self)@.next_data_file(),
    {
        if self.next < self.files.len() {
            self.phase = TidPhase::ReadingData;
            TidAction::ReadFile(slice_to_vec(self.files[self.next].as_slice()))
        } else {
            self.enter(
                OPS_SUBDIR,
                TidPhase::ListingOps,
                "Missing ops directory from TID directory",
            )
        }
    }

    /// Goes on with the next ops file, or returns.
    fn next_ops_file(&mut self) -> (res: TidAction<T>)
        requires
            old(self).next <= old(self).files@.len(),
            old(self).op_size > 0,
        ensures
            final(self).well_formed(),
            (final(self)@, res@) == old(self)@.next_ops_file(),
    {
        if self.next < self.files.len() {
            self.phase = TidPhase::ReadingOps;
            TidAction::ReadFile(slice_to_vec(self.files[self.next].as_slice()))
        } else {
            self.phase = TidPhase::Finished;
            TidAction::Done(Ok(self.count))
        }
    }

    /// Goes on with the next op of the current file, or with the next file.
    fn next_op(&mut self) -> (res: TidAction<T>)
        requires
            old(self).next < old(self).files@.len(),
            old(self).op_size > 0,
        ensures
            final(self).well_formed(),
            (final(self)@, res@) == old(self)@.next_op(),
    {
        match self.pending.pop_front() {
            Some(op) => {
                self.phase = TidPhase::Emitting;
                assert(self.pending@ =~= old(self)@.pending.drop_first());
                TidAction::Emit(op)
            },
            None => {
                assert(self.next < self.files.len());
                self.next = self.next + 1;
                assert(self@.files =~= old(self)@.files.drop_first());
                assert(self.pending@ =~= old(self)@.pending);
                self.next_ops_file()
            },
        }
    }

    /// Goes on after a listing.
    fn listed(&mut self, listing: Result<Vec<Result<Vec<u8>, String>>, String>) -> (res: TidAction<
        T,
    >)
        requires
            old(self).well_formed(),
            old(self)@.expects(TidReply::Listed(listing_view(listing))),
        ensures
            final(self).well_formed(),
            forall|decoded: Result<Seq<T>, ProbeError>|
                (final(self)@, res@) == #[trigger] old(self)@.after(
                    TidReply::Listed(listing_view(listing)),
                    decoded,
                ),
    {
        if self.phase == TidPhase::ListingTid {
            match listing {
                Err(reason) => self.fail(io_err("Error reading record TID directory", reason)),
                Ok(entries) => {
                    self.listing = entries;
                    self.enter(
                        DATA_SUBDIR,
                        TidPhase::ListingData,
                        "Missing data directory from TID directory",
                    )
                },
            }
        } else {
            match collect_files(listing) {
                Err(e) => self.fail(e),
                Ok(files) => {
                    self.files = files;
                    self.next = 0;
                    assert(self@.files =~= bytes_views(files@));
                    if self.phase == TidPhase::ListingData {
                        self.next_data_file()
                    } else {
                        self.next_ops_file()
                    }
                },
            }
        }
    }

    /// Goes on after the contents of a data file.
    fn data_file_read(&mut self, contents: Result<Vec<u8>, String>) -> (res: TidAction<T>)
        requires
            old(self).well_formed(),
            old(self)@.phase == TidPhase::ReadingData,
        ensures
            final(self).well_formed(),
            forall|decoded: Result<Seq<T>, ProbeError>|
                (final(self)@, res@) == #[trigger] old(self)@.after(
                    TidReply::FileRead(contents_view(contents)),
                    decoded,
                ),
    {
        match read_data_file(self.order, self.files[self.next].as_slice(), contents) {
            Err(e) => self.fail(e),
            Ok(arena) => {
                self.arenas.0.push(arena);
                assert(self.next < self.files.len());
                self.next = self.next + 1;
                assert(self@.segments =~= old(self)@.segments.push(arena@));
                assert(self@.files =~= old(self)@.files.drop_first());
                self.next_data_file()
            },
        }
    }

    /// Goes on after the contents of an ops file.
    fn ops_file_read<F: Fn(&[u8], &ArenaContext) -> Result<T, ProbeError>>(
        &mut self,
        contents: Result<Vec<u8>, String>,
        decode_op: &F,
    ) -> (res: TidAction<T>)
        requires
            old(self).well_formed(),
            old(self)@.phase == TidPhase::ReadingOps,
            forall|slice: &[u8]|
                slice@.len() == old(self)@.op_size ==> #[trigger] call_requires(
                    *decode_op,
                    (slice, &old(self).context()),
                ),
        ensures
            final(self).well_formed(),
            exists|decoded: Result<Seq<T>, ProbeError>|
                #[trigger] decoded_by(
                    old(self)@,
                    &old(self).context(),
                    TidReply::FileRead(contents_view(contents)),
                    *decode_op,
                    decoded,
                ) && (final(self)@, res@) == old(self)@.after(
                    TidReply::FileRead(contents_view(contents)),
                    decoded,
                ),
    {
        let ghost ctx = self.context();
        let ghost reply = TidReply::FileRead(contents_view(contents));
        match read_ops_file(
            self.order,
            self.op_size,
            self.files[self.next].as_slice(),
            contents,
        ) {
            Err(e) => {
                let ghost decoded: Result<Seq<T>, ProbeError> = Ok(seq![]);
                let res = self.fail(e);
                assert(decoded_by(old(self)@, &ctx, reply, *decode_op, decoded));
                assert((self@, res@) == old(self)@.after(reply, decoded));
                res
            },
            Ok(arena) => {
                assert(self.arenas == old(self).context());
                match arena.decode(&self.arenas, decode_op) {
                    Err(e) => {
                        let ghost inner = choose|inner: ProbeError|
                            e == error::in_context("Failed to decode arena ops", inner)
                                && #[trigger] arena::all_decode_to::<T, F>(
                                *decode_op,
                                arena@,
                                &ctx,
                                Err(inner),
                            );
                        let ghost decoded: Result<Seq<T>, ProbeError> = Err(inner);
                        let res = self.fail(
                            ProbeError::Context {
                                context: "Error decoding OpsArena",
                                inner: Box::new(e),
                            },
                        );
                        assert(decoded_by(old(self)@, &ctx, reply, *decode_op, decoded));
                        assert((self@, res@) == old(self)@.after(reply, decoded));
                        res
                    },
                    Ok(ops) => {
                        let ghost decoded: Result<Seq<T>, ProbeError> = Ok(ops@);
                        self.pending = into_queue(ops);
                        let res = self.next_op();
                        assert(decoded_by(old(self)@, &ctx, reply, *decode_op, decoded));
                        assert((self@, res@) == old(self)@.after(reply, decoded));
                        res
                    },
                }
            },
        }
    }

    /// Goes on after the outcome of the last action; `decode_op` decodes the record of an op.
    pub fn step<F: Fn(&[u8], &ArenaContext) -> Result<T, ProbeError>>(
        &mut self,
        event: TidEvent,
        decode_op: &F,
    ) -> (res: TidAction<T>)
        requires
            old(self).well_formed(),
            old(self)@.expects(event@),
            event matches TidEvent::Emitted(Ok(_)) ==> old(self)@.count < usize::MAX,
            forall|slice: &[u8]|
                slice@.len() == old(self)@.op_size ==> #[trigger] call_requires(
                    *decode_op,
                    (slice, &old(self).context()),
                ),
        ensures
            final(self).well_formed(),
            final(self).context()@ == final(self)@.segments,
            exists|decoded: Result<Seq<T>, ProbeError>|
                #[trigger] decoded_by(
                    old(self)@,
                    &old(self).context(),
                    event@,
                    *decode_op,
                    decoded,
                ) && (final(self)@, res@) == old(self)@.after(event@, decoded),
    {
        let ghost decoded: Result<Seq<T>, ProbeError> = Ok(seq![]);
        let ghost before = *self;
        match event {
            TidEvent::OutputCreated(Err(reason)) => {
                assert(decoded_by(before@, &before.context(), event@, *decode_op, decoded));
                self.fail(io_err("Failed to create TID output file", reason))
            },
            TidEvent::OutputCreated(Ok(_)) => {
                assert(decoded_by(before@, &before.context(), event@, *decode_op, decoded));
                self.phase = TidPhase::ListingTid;
                TidAction::ListTid
            },
            TidEvent::Listed(listing) => {
                assert(decoded_by(before@, &before.context(), event@, *decode_op, decoded));
                let res = self.listed(listing);
                assert((self@, res@) == before@.after(event@, decoded));
                res
            },
            TidEvent::FileRead(contents) => {
                if self.phase == TidPhase::ReadingData {
                    assert(decoded_by(before@, &before.context(), event@, *decode_op, decoded));
                    let res = self.data_file_read(contents);
                    assert((self@, res@) == before@.after(event@, decoded));
                    res
                } else {
                    self.ops_file_read(contents, decode_op)
                }
            },
            TidEvent::Emitted(Err(e)) => {
                assert(decoded_by(before@, &before.context(), event@, *decode_op, decoded));
                self.fail(emit_err(e))
            },
            TidEvent::Emitted(Ok(_)) => {
                assert(decoded_by(before@, &before.context(), event@, *decode_op, decoded));
                self.count = self.count + 1;
                self.next_op()
            },
        }
    }
}

/// Queues the items of a list in order.
fn into_queue<T>(items: Vec<T>) -> (res: VecDeque<T>)
    ensures
        res@ == items@,
{
    let ghost all = items@;
    let mut items = items;
    let mut queue: VecDeque<T> = VecDeque::new();
    while items.len() > 0
        invariant
            items@ + queue@ == all,
        decreases items@.len(),
    {
        let ghost front = items@;
        let ghost back = queue@;
        match items.pop() {
            Some(item) => {
                queue.push_front(item);
                assert(front =~= items@.push(item));
                assert(items@ + queue@ =~= front + back);
            },
            None => {},
        }
    }
    assert(queue@ =~= all);
    queue
}

/// The ops that are written out from `state` on, as long as the next thing to do is to write one
/// out and that succeeds; and where this leads.
pub open spec fn emit_all<T>(state: TidModel<T>, next: TidMove<T>) -> (
    Seq<T>,
    TidModel<T>,
    TidMove<T>,
)
    decreases
            state.pending.len() + (if next is Emit {
                1int
            } else {
                0
            }),
{
    match next {
        TidMove::Emit(op) => {
            let (state, next) = state.after(TidReply::Emitted(Ok(())), Ok(seq![]));
            let (ops, state, next) = emit_all(state, next);
            (seq![op] + ops, state, next)
        },
        _ => (seq![], state, next),
    }
}

/// What was read from an ops file, and what its records decode to.
pub struct OpsFile<T> {
    pub contents: Result<Seq<u8>, String>,
    pub decoded: Result<Seq<T>, ProbeError>,
}

/// The ops that are written out while `files` are read from `state` on, and what is done last.
pub open spec fn transcribe_files<T>(
    state: TidModel<T>,
    next: TidMove<T>,
    files: Seq<OpsFile<T>>,
) -> (Seq<T>, TidMove<T>)
    decreases files.len(),
{
    if files.len() == 0 || next is Done {
        (seq![], next)
    } else {
        let (state, next) = state.after(TidReply::FileRead(files[0].contents), files[0].decoded);
        let (ops, state, next) = emit_all(state, next);
        let (rest, last) = transcribe_files(state, next, files.drop_first());
        (ops + rest, last)
    }
}

/// The ops of all files up to the first that cannot be read or decoded, and its error, if any.
pub open spec fn ops_of_files<T>(
    order: ByteOrder,
    op_size: usize,
    paths: Seq<Seq<u8>>,
    files: Seq<OpsFile<T>>,
) -> (Seq<T>, Option<ProbeError>)
    decreases files.len(),
{
    if files.len() == 0 {
        (seq![], None)
    } else {
        match ops_file_ops(order, op_size, paths[0], files[0].contents, files[0].decoded) {
            Err(e) => (seq![], Some(e)),
            Ok(ops) => {
                let (rest, e) = ops_of_files(
                    order,
                    op_size,
                    paths.drop_first(),
                    files.drop_first(),
                );
                (ops + rest, e)
            },
        }
    }
}

/// All ops of a file are written out in order, and counted, before the next file is read.
proof fn lemma_emit_all<T>(state: TidModel<T>)
    ensures
        ({
            let (start, next) = state.next_op();
            let (ops, end, last) = emit_all(start, next);
            &&& ops == state.pending
            &&& (end, last) == (TidModel {
                pending: seq![],
                count: state.count + state.pending.len(),
                files: state.files.drop_first(),
                ..state
            }).next_ops_file()
        }),
    decreases state.pending.len(),
{
    if state.pending.len() == 0 {
        assert(state.pending =~= seq![]);
    } else {
        let (start, _) = state.next_op();
        let counted = TidModel { count: start.count + 1, ..start };
        lemma_emit_all(counted);
        assert(state.pending =~= seq![state.pending[0]] + state.pending.drop_first());
    }
}

/// A TID directory's ops are written out exactly once each, file by file in the order of the
/// listing and in the order in which they stand in their file, up to the first file that fails;
/// the number returned is the number of ops written out.
pub proof fn law_ops_transcribed<T>(state: TidModel<T>, files: Seq<OpsFile<T>>)
    requires
        state.phase == TidPhase::ListingOps || state.phase == TidPhase::ReadingOps || state.phase
            == TidPhase::Emitting,
        state.files.len() == files.len(),
        state.pending.len() == 0,
        state.count + ops_of_files(state.order, state.op_size, state.files, files).0.len()
            <= usize::MAX,
    ensures
        ({
            let (start, next) = state.next_ops_file();
            let (expected, e) = ops_of_files(state.order, state.op_size, state.files, files);
            transcribe_files(start, next, files) == (
                expected,
                TidMove::<T>::Done(
                    match e {
                        None => Ok((state.count + expected.len()) as usize),
                        Some(e) => Err(e),
                    },
                ),
            )
        }),
    decreases files.len(),
{
    let (start, next) = state.next_ops_file();
    let none: Seq<T> = seq![];
    if files.len() > 0 {
        match ops_file_ops(
            state.order,
            state.op_size,
            state.files[0],
            files[0].contents,
            files[0].decoded,
        ) {
            Err(_) => {
                reveal_with_fuel(transcribe_files, 2);
                assert(none + none =~= none);
            },
            Ok(ops) => {
                let loaded = TidModel { pending: ops, ..start };
                lemma_emit_all(loaded);
                let rest = TidModel {
                    pending: none,
                    count: state.count + ops.len(),
                    files: state.files.drop_first(),
                    ..start
                };
                law_ops_transcribed(rest, files.drop_first());
            },
        }
    }
}

/// Where reading data files with these contents leads from `state`.
pub open spec fn load_files<T>(
    state: TidModel<T>,
    next: TidMove<T>,
    contents: Seq<Result<Seq<u8>, String>>,
) -> (TidModel<T>, TidMove<T>)
    decreases contents.len(),
{
    if contents.len() == 0 || next is Done {
        (state, next)
    } else {
        let (state, next) = state.after(TidReply::FileRead(contents[0]), Ok(seq![]));
        load_files(state, next, contents.drop_first())
    }
}

/// The memory in all data files, in order, or the error of the first that cannot be read.
pub open spec fn segments_of_files(
    order: ByteOrder,
    paths: Seq<Seq<u8>>,
    contents: Seq<Result<Seq<u8>, String>>,
) -> Result<Seq<arena::Segment>, ProbeError>
    decreases contents.len(),
{
    if contents.len() == 0 {
        Ok(seq![])
    } else {
        match data_file_segment(order, paths[0], contents[0]) {
            Err(e) => Err(e),
            Ok(segment) => match segments_of_files(
                order,
                paths.drop_first(),
                contents.drop_first(),
            ) {
                Err(e) => Err(e),
                Ok(rest) => Ok(seq![segment] + rest),
            },
        }
    }
}

/// The ops of a TID directory are decoded against the memory of all its data files, in the order
/// of the listing; if one of them cannot be read, its error is returned and no op is looked at.
pub proof fn law_memory_loaded<T>(state: TidModel<T>, contents: Seq<Result<Seq<u8>, String>>)
    requires
        state.phase == TidPhase::ListingData || state.phase == TidPhase::ReadingData,
        state.files.len() == contents.len(),
    ensures
        ({
            let (start, next) = state.next_data_file();
            let (end, last) = load_files(start, next, contents);
            match segments_of_files(state.order, state.files, contents) {
                Err(e) => last == TidMove::<T>::Done(Err(e)),
                Ok(segments) => (end, last) == (TidModel {
                    segments: state.segments + segments,
                    files: seq![],
                    ..state
                }).enter(
                    OPS_SUBDIR,
                    TidPhase::ListingOps,
                    "Missing ops directory from TID directory",
                ),
            }
        }),
    decreases contents.len(),
{
    let (start, _) = state.next_data_file();
    if contents.len() == 0 {
        assert(state.segments + Seq::<arena::Segment>::empty() =~= state.segments);
        assert(state.files =~= seq![]);
    } else {
        match data_file_segment(state.order, state.files[0], contents[0]) {
            Err(_) => {
                reveal_with_fuel(load_files, 2);
            },
            Ok(segment) => {
                let rest = TidModel {
                    segments: state.segments.push(segment),
                    files: state.files.drop_first(),
                    ..start
                };
                law_memory_loaded(rest, contents.drop_first());
                if let Ok(segments) = segments_of_files(
                    state.order,
                    rest.files,
                    contents.drop_first(),
                ) {
                    assert(rest.segments + segments =~= state.segments + (seq![segment]
                        + segments));
                }
            },
        }
    }
}

/// A TID directory that can be read is transcribed as a whole: the files in its `data` directory
/// are read in order and become the memory that its ops are decoded against, and then all ops of
/// the files in its `ops` directory are written out, up to the first file that fails; the number
/// returned is the number of ops written out.
#[verifier::spinoff_prover]
#[verifier::rlimit(30)]
pub proof fn law_tid_transcribed<T>(
    order: ByteOrder,
    op_size: usize,
    path: Seq<u8>,
    listing: Seq<Result<Seq<u8>, String>>,
    data_listing: Result<Seq<Result<Seq<u8>, String>>, String>,
    data_contents: Seq<Result<Seq<u8>, String>>,
    ops_listing: Result<Seq<Result<Seq<u8>, String>>, String>,
    ops_files: Seq<OpsFile<T>>,
)
    requires
        filename::numeric_name(path) is Ok,
        entry_index(listing, utf8::encode_utf8(DATA_SUBDIR@)) is Some,
        entry_index(listing, utf8::encode_utf8(OPS_SUBDIR@)) is Some,
        files_of(data_listing) matches Ok(paths) && paths.len() == data_contents.len(),
        segments_of_files(order, files_of(data_listing)->Ok_0, data_contents) is Ok,
        files_of(ops_listing) matches Ok(paths) && paths.len() == ops_files.len(),
        ops_of_files(order, op_size, files_of(ops_listing)->Ok_0, ops_files).0.len() <= usize::MAX,
    ensures
        ({
            let nothing: Result<Seq<T>, ProbeError> = Ok(seq![]);
            let (created, create) = TidModel::<T>::started(order, op_size, path);
            let (listed, list) = created.after(TidReply::OutputCreated(Ok(())), nothing);
            let (entered, enter_data) = listed.after(TidReply::Listed(Ok(listing)), nothing);
            let (loading, load) = entered.after(TidReply::Listed(data_listing), nothing);
            let (loaded, enter_ops) = load_files(loading, load, data_contents);
            let (reading, read) = loaded.after(TidReply::Listed(ops_listing), nothing);
            let paths = files_of(ops_listing)->Ok_0;
            let (expected, e) = ops_of_files(order, op_size, paths, ops_files);
            &&& create == TidMove::<T>::CreateOutput(
                text::decimal(filename::numeric_name(path)->Ok_0 as nat),
            )
            &&& list is ListTid
            &&& enter_data matches TidMove::ListSubdir(index) && 0 <= index < listing.len()
                && listing[index] == Ok::<Seq<u8>, String>(utf8::encode_utf8("data"@))
            &&& data_reads(loading, load, data_contents) == files_of(data_listing)->Ok_0
            &&& enter_ops matches TidMove::ListSubdir(index) && 0 <= index < listing.len()
                && listing[index] == Ok::<Seq<u8>, String>(utf8::encode_utf8("ops"@))
            &&& e is None ==> ops_reads(reading, read, ops_files) == paths
            &&& Ok::<Seq<arena::Segment>, ProbeError>(reading.segments) == segments_of_files(
                order,
                files_of(data_listing)->Ok_0,
                data_contents,
            )
            &&& transcribe_files(reading, read, ops_files) == (
                expected,
                TidMove::<T>::Done(
                    match e {
                        None => Ok(expected.len() as usize),
                        Some(e) => Err(e),
                    },
                ),
            )
        }),
{
    let nothing: Result<Seq<T>, ProbeError> = Ok(seq![]);
    let (created, _) = TidModel::<T>::started(order, op_size, path);
    let (listed, _) = created.after(TidReply::OutputCreated(Ok(())), nothing);
    let (entered, _) = listed.after(TidReply::Listed(Ok(listing)), nothing);
    let found = TidModel { files: files_of(data_listing)->Ok_0, ..entered };
    law_memory_loaded(found, data_contents);
    let (loading, load) = entered.after(TidReply::Listed(data_listing), nothing);
    let (loaded, _) = load_files(loading, load, data_contents);
    let segments = segments_of_files(order, found.files, data_contents)->Ok_0;
    assert(found.segments + segments =~= segments);
    let ready = TidModel { files: files_of(ops_listing)->Ok_0, ..loaded };
    law_ops_transcribed(ready, ops_files);
    law_data_files_read(found, data_contents);
    if ops_of_files(order, op_size, ready.files, ops_files).1 is None {
        law_ops_files_read(ready, ops_files);
    }
    law_entry_found(listing, utf8::encode_utf8(DATA_SUBDIR@));
    law_entry_found(listing, utf8::encode_utf8(OPS_SUBDIR@));
}

/// A name is found in a listing exactly if a readable entry has it; of several such entries the
/// last one is taken.
pub proof fn law_entry_found(listing: Seq<Result<Seq<u8>, String>>, name: Seq<u8>)
    ensures
        match entry_index(listing, name) {
            Some(index) => {
                &&& 0 <= index < listing.len()
                &&& listing[index] == Ok::<Seq<u8>, String>(name)
                &&& forall|i: int|
                    index < i < listing.len() ==> #[trigger] listing[i] != Ok::<Seq<u8>, String>(
                        name,
                    )
            },
            None => forall|i: int|
                0 <= i < listing.len() ==> #[trigger] listing[i] != Ok::<Seq<u8>, String>(name),
        },
    decreases listing.len(),
{
    if listing.len() > 0 && listing.last() != Ok::<Seq<u8>, String>(name) {
        let front = listing.drop_last();
        law_entry_found(front, name);
        let low = match entry_index(front, name) {
            Some(index) => index,
            None => -1,
        };
        assert forall|i: int| low < i < listing.len() implies #[trigger] listing[i] != Ok::<
            Seq<u8>,
            String,
        >(name) by {
            if i < front.len() {
                assert(front[i] == listing[i]);
            }
        }
    }
}

/// A phase and the action whose outcome it waits for belong together, whatever happened before.
/// Where a subdirectory is listed, it is the one of the listing that is named `data`, for the
/// memory, or `ops`, for the ops, and the file that is read is the first of those left to read.
#[verifier::spinoff_prover]
#[verifier::rlimit(30)]
pub proof fn law_tid_answers<T>(
    state: TidModel<T>,
    reply: TidReply,
    decoded: Result<Seq<T>, ProbeError>,
)
    requires
        state.expects(reply),
    ensures
        ({
            let (next, action) = state.after(reply, decoded);
            match next.phase {
                TidPhase::CreatingOutput => false,
                TidPhase::ListingTid => action is ListTid,
                TidPhase::ListingData => action matches TidMove::ListSubdir(index) && 0 <= index
                    < next.listing.len() && next.listing[index] == Ok::<Seq<u8>, String>(
                    utf8::encode_utf8("data"@),
                ),
                TidPhase::ReadingData => next.files.len() > 0 && action == TidMove::<T>::ReadFile(
                    next.files[0],
                ),
                TidPhase::ListingOps => action matches TidMove::ListSubdir(index) && 0 <= index
                    < next.listing.len() && next.listing[index] == Ok::<Seq<u8>, String>(
                    utf8::encode_utf8("ops"@),
                ),
                TidPhase::ReadingOps => next.files.len() > 0 && action == TidMove::<T>::ReadFile(
                    next.files[0],
                ),
                TidPhase::Emitting => action is Emit,
                TidPhase::Finished => action is Done,
            }
        }),
{
    law_entry_found(state.listing, utf8::encode_utf8(OPS_SUBDIR@));
    if let TidReply::Listed(Ok(entries)) = reply {
        law_entry_found(entries, utf8::encode_utf8(DATA_SUBDIR@));
        law_entry_found(entries, utf8::encode_utf8(OPS_SUBDIR@));
    }
}

/// The phases of a TID directory follow one upon another: its output is created, it is listed, its
/// data are listed and read, its ops are listed and read, and what is read is written out. From no
/// phase is another one reached.
#[verifier::spinoff_prover]
#[verifier::rlimit(30)]
pub proof fn law_tid_phases<T>(
    state: TidModel<T>,
    reply: TidReply,
    decoded: Result<Seq<T>, ProbeError>,
)
    requires
        state.expects(reply),
    ensures
        ({
            let next = state.after(reply, decoded).0.phase;
            next == TidPhase::Finished || match state.phase {
                TidPhase::CreatingOutput => next == TidPhase::ListingTid,
                TidPhase::ListingTid => next == TidPhase::ListingData,
                TidPhase::ListingData | TidPhase::ReadingData => next == TidPhase::ReadingData
                    || next == TidPhase::ListingOps,
                TidPhase::ListingOps => next == TidPhase::ReadingOps,
                TidPhase::ReadingOps | TidPhase::Emitting => next == TidPhase::Emitting || next
                    == TidPhase::ReadingOps,
                TidPhase::Finished => false,
            }
        }),
{
}

/// What a TID directory waits for: each phase but the last for one kind of outcome, good or bad.
pub proof fn law_tid_waits<T>(
    state: TidModel<T>,
    created: Result<(), String>,
    listing: Result<Seq<Result<Seq<u8>, String>>, String>,
    contents: Result<Seq<u8>, String>,
    emitted: Result<(), EmitError>,
)
    ensures
        state.expects(TidReply::OutputCreated(created)) <==> state.phase
            == TidPhase::CreatingOutput,
        state.expects(TidReply::Listed(listing)) <==> (state.phase == TidPhase::ListingTid
            || state.phase == TidPhase::ListingData || state.phase == TidPhase::ListingOps),
        state.expects(TidReply::FileRead(contents)) <==> (state.phase == TidPhase::ReadingData
            || state.phase == TidPhase::ReadingOps),
        state.expects(TidReply::Emitted(emitted)) <==> state.phase == TidPhase::Emitting,
{
}

/// What a step leaves alone: the byte order and the size of an op always, the listing but for the
/// one it is made by, the memory but while data files are read, and the count but for an op that
/// was written out.
#[verifier::spinoff_prover]
#[verifier::rlimit(30)]
pub proof fn law_tid_keeps<T>(
    state: TidModel<T>,
    reply: TidReply,
    decoded: Result<Seq<T>, ProbeError>,
)
    requires
        state.expects(reply),
    ensures
        ({
            let next = state.after(reply, decoded).0;
            &&& next.order == state.order
            &&& next.op_size == state.op_size
            &&& state.phase != TidPhase::ListingTid ==> next.listing == state.listing
            &&& state.phase != TidPhase::ReadingData ==> next.segments == state.segments
            &&& next.count == (if reply is Emitted && reply->Emitted_0 is Ok {
                state.count + 1
            } else {
                state.count
            })
        }),
{
}

/// The listing of a TID directory is kept as it was read; the transcription goes on if there is an
/// entry named `data` in it and returns that it is missing if there is none.
#[verifier::spinoff_prover]
#[verifier::rlimit(30)]
pub proof fn law_tid_listed<T>(
    state: TidModel<T>,
    entries: Seq<Result<Seq<u8>, String>>,
    decoded: Result<Seq<T>, ProbeError>,
)
    requires
        state.phase == TidPhase::ListingTid,
    ensures
        ({
            let (next, action) = state.after(TidReply::Listed(Ok(entries)), decoded);
            let there = exists|i: int|
                0 <= i < entries.len() && #[trigger] entries[i] == Ok::<Seq<u8>, String>(
                    utf8::encode_utf8("data"@),
                );
            &&& next.listing == entries
            &&& there ==> next.phase == TidPhase::ListingData
            &&& !there ==> action == TidMove::<T>::Done(
                Err(ProbeError::MissingValue("Missing data directory from TID directory")),
            )
        }),
{
    law_entry_found(entries, utf8::encode_utf8(DATA_SUBDIR@));
}

/// When a data file was read, its memory comes behind that of the files before it, and the next
/// file is read; behind the last one come the ops, if there is an entry named `ops`.
#[verifier::spinoff_prover]
#[verifier::rlimit(30)]
pub proof fn law_data_file_loaded<T>(
    state: TidModel<T>,
    contents: Result<Seq<u8>, String>,
    decoded: Result<Seq<T>, ProbeError>,
)
    requires
        state.phase == TidPhase::ReadingData,
        state.files.len() > 0,
    ensures
        ({
            let (next, action) = state.after(TidReply::FileRead(contents), decoded);
            match data_file_segment(state.order, state.files[0], contents) {
                Err(e) => action == TidMove::<T>::Done(Err(e)),
                Ok(segment) => {
                    &&& next.segments == state.segments.push(segment)
                    &&& next.files == state.files.skip(1)
                    &&& state.files.len() > 1 ==> action == TidMove::<T>::ReadFile(state.files[1])
                    &&& state.files.len() == 1 ==> {
                        let there = exists|i: int|
                            0 <= i < state.listing.len() && #[trigger] state.listing[i] == Ok::<
                                Seq<u8>,
                                String,
                            >(utf8::encode_utf8("ops"@));
                        &&& there ==> next.phase == TidPhase::ListingOps
                        &&& !there ==> action == TidMove::<T>::Done(
                            Err(
                                ProbeError::MissingValue(
                                    "Missing ops directory from TID directory",
                                ),
                            ),
                        )
                    }
                },
            }
        }),
{
    law_entry_found(state.listing, utf8::encode_utf8(OPS_SUBDIR@));
    assert(state.files.drop_first() =~= state.files.skip(1));
}

/// When a subdirectory was listed, all its files are to be read, in the order of the listing, from
/// the first on; if it has none, a `data` directory is followed by the ops, if there is an entry
/// named `ops`, and an `ops` directory by the end.
#[verifier::spinoff_prover]
#[verifier::rlimit(30)]
pub proof fn law_subdir_listed<T>(
    state: TidModel<T>,
    paths: Seq<Seq<u8>>,
    decoded: Result<Seq<T>, ProbeError>,
)
    requires
        state.phase == TidPhase::ListingData || state.phase == TidPhase::ListingOps,
        state.count <= usize::MAX,
    ensures
        ({
            let listing = Ok(paths.map_values(|path: Seq<u8>| Ok::<Seq<u8>, String>(path)));
            let (next, action) = state.after(TidReply::Listed(listing), decoded);
            let there = exists|i: int|
                0 <= i < state.listing.len() && #[trigger] state.listing[i] == Ok::<
                    Seq<u8>,
                    String,
                >(utf8::encode_utf8("ops"@));
            &&& next.files == paths
            &&& paths.len() > 0 ==> action == TidMove::<T>::ReadFile(paths[0]) && next.phase == (
            if state.phase == TidPhase::ListingData {
                TidPhase::ReadingData
            } else {
                TidPhase::ReadingOps
            })
            &&& paths.len() == 0 && state.phase == TidPhase::ListingOps ==> action == TidMove::<
                T,
            >::Done(Ok(state.count as usize))
            &&& paths.len() == 0 && state.phase == TidPhase::ListingData ==> {
                &&& there ==> next.phase == TidPhase::ListingOps
                &&& !there ==> action == TidMove::<T>::Done(
                    Err(ProbeError::MissingValue("Missing ops directory from TID directory")),
                )
            }
        }),
{
    let entries = paths.map_values(|path: Seq<u8>| Ok::<Seq<u8>, String>(path));
    law_paths_listed(entries);
    law_entry_found(state.listing, utf8::encode_utf8(OPS_SUBDIR@));
    match paths_of(entries) {
        Ok(found) => {
            assert forall|i: int| 0 <= i < paths.len() implies found[i] == paths[i] by {
                assert(entries[i] == Ok::<Seq<u8>, String>(paths[i]));
            }
            assert(found =~= paths);
        },
        Err(reason) => {
            let k = choose|k: int|
                0 <= k < entries.len() && #[trigger] entries[k] == Err::<Seq<u8>, String>(reason);
            assert(entries[k] == Ok::<Seq<u8>, String>(paths[k]));
        },
    }
}

/// When an ops file was read, its first op is written out; when an op was written out, the next one
/// of the file is; behind the last op of a file the next file is read, and behind the last file the
/// number of ops written out is returned.
#[verifier::spinoff_prover]
#[verifier::rlimit(30)]
pub proof fn law_ops_in_turn<T>(
    state: TidModel<T>,
    contents: Result<Seq<u8>, String>,
    decoded: Result<Seq<T>, ProbeError>,
)
    requires
        state.files.len() > 0,
        state.count < usize::MAX,
    ensures
        state.phase == TidPhase::ReadingOps ==> ({
            let (next, action) = state.after(TidReply::FileRead(contents), decoded);
            match ops_file_ops(state.order, state.op_size, state.files[0], contents, decoded) {
                Err(e) => action == TidMove::<T>::Done(Err(e)),
                Ok(ops) => if ops.len() > 0 {
                    &&& action == TidMove::Emit(ops[0])
                    &&& next.pending == ops.skip(1)
                    &&& next.files == state.files
                } else if state.files.len() > 1 {
                    &&& action == TidMove::<T>::ReadFile(state.files[1])
                    &&& next.files == state.files.skip(1)
                    &&& next.phase == TidPhase::ReadingOps
                } else {
                    action == TidMove::<T>::Done(Ok(state.count as usize))
                },
            }
        }),
        state.phase == TidPhase::Emitting ==> ({
            let (next, action) = state.after(TidReply::Emitted(Ok(())), decoded);
            if state.pending.len() > 0 {
                &&& action == TidMove::Emit(state.pending[0])
                &&& next.pending == state.pending.skip(1)
                &&& next.files == state.files
            } else if state.files.len() > 1 {
                &&& action == TidMove::<T>::ReadFile(state.files[1])
                &&& next.files == state.files.skip(1)
                &&& next.phase == TidPhase::ReadingOps
            } else {
                action == TidMove::<T>::Done(Ok((state.count + 1) as usize))
            }
        }),
{
    assert(state.files.drop_first() =~= state.files.skip(1));
    assert(state.pending.len() > 0 ==> state.pending.drop_first() =~= state.pending.skip(1));
    if let Ok(ops) = ops_file_ops(
        state.order,
        state.op_size,
        state.files[0],
        contents,
        decoded,
    ) {
        assert(ops.len() > 0 ==> ops.drop_first() =~= ops.skip(1));
    }
}

/// Every failure ends the transcription of a TID directory at once and is returned with its reason,
/// under a heading that says what failed.
pub proof fn law_tid_fails<T>(
    state: TidModel<T>,
    reason: String,
    decoded: Result<Seq<T>, ProbeError>,
)
    ensures
        ({
            let refused = |context: &'static str|
                TidMove::<T>::Done(
                    Err(
                        ProbeError::Context {
                            context,
                            inner: Box::new(ProbeError::IoError(reason)),
                        },
                    ),
                );
            let unlisted = state.after(TidReply::Listed(Err(reason)), decoded).1;
            let unread = state.after(TidReply::FileRead(Err(reason)), decoded).1;
            &&& state.after(TidReply::OutputCreated(Err(reason)), decoded).1 == refused(
                "Failed to create TID output file",
            )
            &&& state.phase == TidPhase::ListingTid ==> unlisted == refused(
                "Error reading record TID directory",
            )
            &&& state.phase == TidPhase::ListingData || state.phase == TidPhase::ListingOps
                ==> unlisted == refused("Error opening record TID directory")
            &&& state.phase == TidPhase::ReadingData ==> unread == refused(
                "Failed to read file from data directory",
            )
            &&& state.phase == TidPhase::ReadingOps ==> unread == refused(
                "Failed to read file from ops directory",
            )
            &&& state.after(TidReply::Emitted(Err(EmitError::Write(reason))), decoded).1 == refused(
                "Failed to write serialized Op to tempfile",
            )
            &&& state.after(TidReply::Emitted(Err(EmitError::Newline(reason))), decoded).1
                == refused("Failed to write newline deliminator to tempfile")
            &&& state.after(TidReply::Emitted(Err(EmitError::Serialize(reason))), decoded).1
                == TidMove::<T>::Done(
                Err(
                    ProbeError::Context {
                        context: "Unable to serialize Op",
                        inner: Box::new(ProbeError::SerializeError(reason)),
                    },
                ),
            )
        }),
{
}

/// The output file of a TID directory has the number that the directory is named by as its name; a
/// directory that is not named by a number is not transcribed. Nothing is known at first.
pub proof fn law_tid_started<T>(order: ByteOrder, op_size: usize, path: Seq<u8>)
    ensures
        ({
            let (state, action) = TidModel::<T>::started(order, op_size, path);
            &&& state.order == order && state.op_size == op_size
            &&& state.listing.len() == 0 && state.segments.len() == 0
            &&& state.files.len() == 0 && state.pending.len() == 0 && state.count == 0
            &&& match filename::numeric_name(path) {
                Ok(number) => {
                    &&& state.phase == TidPhase::CreatingOutput
                    &&& action == TidMove::<T>::CreateOutput(text::decimal(number as nat))
                },
                Err(e) => {
                    &&& state.phase == TidPhase::Finished
                    &&& action == TidMove::<T>::Done(
                        Err(
                            ProbeError::Context {
                                context: "Error parsing numeric tid",
                                inner: Box::new(e),
                            },
                        ),
                    )
                },
            }
        }),
{
}

/// The files of a subdirectory are the paths of its listing, all of them and in order; if an entry
/// could not be read, the first such entry is reported instead.
#[verifier::spinoff_prover]
#[verifier::rlimit(30)]
pub proof fn law_paths_listed(listing: Seq<Result<Seq<u8>, String>>)
    ensures
        match paths_of(listing) {
            Ok(paths) => {
                &&& paths.len() == listing.len()
                &&& forall|i: int|
                    0 <= i < listing.len() ==> #[trigger] listing[i] == Ok::<Seq<u8>, String>(
                        paths[i],
                    )
            },
            Err(reason) => exists|k: int|
                0 <= k < listing.len() && #[trigger] listing[k] == Err::<Seq<u8>, String>(reason)
                    && forall|i: int| 0 <= i < k ==> (#[trigger] listing[i]) is Ok,
        },
        match files_of(Ok(listing)) {
            Ok(paths) => paths_of(listing) == Ok::<Seq<Seq<u8>>, String>(paths),
            Err(e) => paths_of(listing) is Err && e == (ProbeError::Context {
                context: "Error reading DirEntry from record TID subdirectory",
                inner: Box::new(ProbeError::IoError(paths_of(listing)->Err_0)),
            }),
        },
    decreases listing.len(),
{
    if listing.len() > 0 {
        let front = listing.drop_last();
        law_paths_listed(front);
        assert forall|i: int| 0 <= i < front.len() implies #[trigger] listing[i] == front[i] by {}
        if let Err(reason) = paths_of(front) {
            let k = choose|k: int|
                0 <= k < front.len() && #[trigger] front[k] == Err::<Seq<u8>, String>(reason)
                    && forall|i: int| 0 <= i < k ==> (#[trigger] front[i]) is Ok;
            assert(listing[k] == Err::<Seq<u8>, String>(reason));
            assert forall|i: int| 0 <= i < k implies (#[trigger] listing[i]) is Ok by {
                assert(front[i] is Ok);
            }
        } else if listing.last() is Err {
            assert(listing[listing.len() - 1] is Err);
            assert forall|i: int| 0 <= i < listing.len() - 1 implies (
            #[trigger] listing[i]) is Ok by {
                assert(front[i] is Ok);
            }
        }
    }
}

/// An arena file is read as the one its name says: the number that it is named by is the
/// instantiation its header has to have.
pub proof fn law_file_named_by_instantiation(
    order: ByteOrder,
    op_size: usize,
    path: Seq<u8>,
    bytes: Seq<u8>,
)
    ensures
        match filename::numeric_name(path) {
            Ok(number) => {
                &&& data_file_segment(order, path, Ok(bytes)) == arena::segment_of(
                    order,
                    bytes,
                    number,
                )
                &&& match arena::records_of(order, bytes, number, op_size) {
                    Ok(records) => ops_file_records(order, op_size, path, Ok(bytes)) == Ok::<
                        Seq<Seq<u8>>,
                        ProbeError,
                    >(records),
                    Err(e) => ops_file_records(order, op_size, path, Ok(bytes)) == Err::<
                        Seq<Seq<u8>>,
                        ProbeError,
                    >(
                        ProbeError::Context {
                            context: "Error constructing OpsArena",
                            inner: Box::new(e),
                        },
                    ),
                }
            },
            Err(e) => {
                &&& data_file_segment(order, path, Ok(bytes)) == Err::<arena::Segment, ProbeError>(
                    ProbeError::Context {
                        context: "Error parsing numeric data/$n.dat",
                        inner: Box::new(e),
                    },
                )
                &&& ops_file_records(order, op_size, path, Ok(bytes)) == Err::<
                    Seq<Seq<u8>>,
                    ProbeError,
                >(
                    ProbeError::Context {
                        context: "Error parsing numeric ops/$n.dat",
                        inner: Box::new(e),
                    },
                )
            },
        },
{
}

/// The ops of a file are what its records decode to, all of them and in order.
pub proof fn law_ops_as_decoded<T>(
    order: ByteOrder,
    op_size: usize,
    path: Seq<u8>,
    contents: Result<Seq<u8>, String>,
    decoded: Result<Seq<T>, ProbeError>,
)
    ensures
        match ops_file_records(order, op_size, path, contents) {
            Err(e) => ops_file_ops(order, op_size, path, contents, decoded) == Err::<
                Seq<T>,
                ProbeError,
            >(e),
            Ok(_) => match decoded {
                Ok(ops) => ops_file_ops(order, op_size, path, contents, decoded) == Ok::<
                    Seq<T>,
                    ProbeError,
                >(ops),
                Err(e) => ops_file_ops(order, op_size, path, contents, decoded) == Err::<
                    Seq<T>,
                    ProbeError,
                >(
                    ProbeError::Context {
                        context: "Error decoding OpsArena",
                        inner: Box::new(
                            ProbeError::Context {
                                context: "Failed to decode arena ops",
                                inner: Box::new(e),
                            },
                        ),
                    },
                ),
            },
        },
{
}

/// `results` has what is in each of some data files.
spec fn are_segments(
    results: Seq<Result<arena::Segment, ProbeError>>,
    order: ByteOrder,
    paths: Seq<Seq<u8>>,
    contents: Seq<Result<Seq<u8>, String>>,
) -> bool {
    &&& results.len() == paths.len() == contents.len()
    &&& forall|i: int|
        0 <= i < results.len() ==> #[trigger] results[i] == data_file_segment(
            order,
            paths[i],
            contents[i],
        )
}

/// The memory of some data files is all that is in them, or the first error.
#[verifier::spinoff_prover]
proof fn lemma_segments_collected(
    results: Seq<Result<arena::Segment, ProbeError>>,
    order: ByteOrder,
    paths: Seq<Seq<u8>>,
    contents: Seq<Result<Seq<u8>, String>>,
)
    requires
        are_segments(results, order, paths, contents),
    ensures
        match segments_of_files(order, paths, contents) {
            Ok(segments) => {
                &&& segments.len() == results.len()
                &&& forall|i: int|
                    0 <= i < results.len() ==> #[trigger] results[i] == Ok::<
                        arena::Segment,
                        ProbeError,
                    >(segments[i])
            },
            Err(e) => exists|k: int|
                0 <= k < results.len() && #[trigger] results[k] == Err::<arena::Segment, ProbeError>(
                    e,
                ) && forall|i: int| 0 <= i < k ==> (#[trigger] results[i]) is Ok,
        },
    decreases contents.len(),
{
    if contents.len() > 0 {
        let rest = results.drop_first();
        let (later_paths, later_contents) = (paths.drop_first(), contents.drop_first());
        assert forall|i: int| 0 <= i < rest.len() implies #[trigger] rest[i] == data_file_segment(
            order,
            later_paths[i],
            later_contents[i],
        ) by {
            assert(rest[i] == results[i + 1]);
        }
        lemma_segments_collected(rest, order, later_paths, later_contents);
        assert(results[0] == data_file_segment(order, paths[0], contents[0]));
        if let Ok(segment) = results[0] {
            match segments_of_files(order, later_paths, later_contents) {
                Ok(segments) => {
                    let all = seq![segment] + segments;
                    assert forall|i: int| 0 <= i < results.len() implies #[trigger] results[i]
                        == Ok::<arena::Segment, ProbeError>(all[i]) by {
                        if i > 0 {
                            assert(rest[i - 1] == results[i]);
                        }
                    }
                },
                Err(e) => {
                    let k = choose|k: int|
                        0 <= k < rest.len() && #[trigger] rest[k] == Err::<
                            arena::Segment,
                            ProbeError,
                        >(e) && forall|i: int| 0 <= i < k ==> (#[trigger] rest[i]) is Ok;
                    assert(results[k + 1] == rest[k]);
                    assert forall|i: int| 0 <= i < k + 1 implies (#[trigger] results[i]) is Ok by {
                        if i > 0 {
                            assert(rest[i - 1] == results[i]);
                        }
                    }
                },
            }
        }
    }
}

/// The memory of a TID directory has one segment for each data file, in the order of the files, or
/// the first file that cannot be read is reported.
#[verifier::spinoff_prover]
pub proof fn law_one_segment_per_file(
    order: ByteOrder,
    paths: Seq<Seq<u8>>,
    contents: Seq<Result<Seq<u8>, String>>,
)
    requires
        paths.len() == contents.len(),
    ensures
        match segments_of_files(order, paths, contents) {
            Ok(segments) => {
                &&& segments.len() == paths.len()
                &&& forall|i: int|
                    0 <= i < paths.len() ==> Ok::<arena::Segment, ProbeError>(
                        #[trigger] segments[i],
                    ) == data_file_segment(order, paths[i], contents[i])
            },
            Err(e) => exists|k: int|
                #![trigger paths[k]]
                0 <= k < paths.len() && data_file_segment(order, paths[k], contents[k]) == Err::<
                    arena::Segment,
                    ProbeError,
                >(e) && forall|i: int|
                    0 <= i < k ==> data_file_segment(
                        order,
                        #[trigger] paths[i],
                        contents[i],
                    ) is Ok,
        },
{
    let results = Seq::new(
        paths.len(),
        |i: int| data_file_segment(order, paths[i], contents[i]),
    );
    lemma_segments_collected(results, order, paths, contents);
    match segments_of_files(order, paths, contents) {
        Ok(segments) => {
            assert forall|i: int| 0 <= i < paths.len() implies Ok::<arena::Segment, ProbeError>(
                #[trigger] segments[i],
            ) == data_file_segment(order, paths[i], contents[i]) by {
                assert(results[i] == Ok::<arena::Segment, ProbeError>(segments[i]));
            }
        },
        Err(e) => {
            let k = choose|k: int|
                0 <= k < results.len() && #[trigger] results[k] == Err::<arena::Segment, ProbeError>(
                    e,
                ) && forall|i: int| 0 <= i < k ==> (#[trigger] results[i]) is Ok;
            assert(paths[k] == paths[k] && results[k] == data_file_segment(
                order,
                paths[k],
                contents[k],
            ));
            assert forall|i: int| 0 <= i < k implies data_file_segment(
                order,
                #[trigger] paths[i],
                contents[i],
            ) is Ok by {
                assert(results[i] is Ok);
            }
        },
    }
}

/// The ops of one file come before those of the next, and if every file can be read there are none
/// besides.
pub proof fn law_ops_file_by_file<T>(
    order: ByteOrder,
    op_size: usize,
    path: Seq<u8>,
    file: OpsFile<T>,
    paths: Seq<Seq<u8>>,
    files: Seq<OpsFile<T>>,
)
    ensures
        ops_of_files::<T>(order, op_size, seq![], seq![]) == (Seq::<T>::empty(), None::<ProbeError>),
        ({
            let all = ops_of_files(order, op_size, seq![path] + paths, seq![file] + files);
            let rest = ops_of_files(order, op_size, paths, files);
            match ops_file_ops(order, op_size, path, file.contents, file.decoded) {
                Err(e) => all == (Seq::<T>::empty(), Some(e)),
                Ok(ops) => all.0 == ops + rest.0 && all.1 == rest.1,
            }
        }),
{
    assert((seq![path] + paths).drop_first() =~= paths);
    assert((seq![file] + files).drop_first() =~= files);
}

/// The files that are read one after the other from `state` on, as long as each is asked for.
pub open spec fn data_reads<T>(
    state: TidModel<T>,
    next: TidMove<T>,
    contents: Seq<Result<Seq<u8>, String>>,
) -> Seq<Seq<u8>>
    decreases contents.len(),
{
    match next {
        TidMove::ReadFile(path) => if contents.len() == 0 || !state.expects(
            TidReply::FileRead(contents[0]),
        ) {
            seq![]
        } else {
            let (state, next) = state.after(TidReply::FileRead(contents[0]), Ok(seq![]));
            seq![path] + data_reads(state, next, contents.drop_first())
        },
        _ => seq![],
    }
}

/// Every data file is read, once and in the order of the listing, if each can be read.
#[verifier::spinoff_prover]
#[verifier::rlimit(30)]
pub proof fn law_data_files_read<T>(state: TidModel<T>, contents: Seq<Result<Seq<u8>, String>>)
    requires
        state.phase == TidPhase::ListingData || state.phase == TidPhase::ReadingData,
        state.files.len() == contents.len(),
        segments_of_files(state.order, state.files, contents) is Ok,
    ensures
        ({
            let (start, next) = state.next_data_file();
            data_reads(start, next, contents) == state.files
        }),
    decreases contents.len(),
{
    let (start, next) = state.next_data_file();
    if contents.len() == 0 {
        assert(data_reads(start, next, contents) =~= state.files);
    } else {
        let segment = data_file_segment(state.order, state.files[0], contents[0])->Ok_0;
        let rest = TidModel {
            segments: state.segments.push(segment),
            files: state.files.drop_first(),
            ..start
        };
        law_data_files_read(rest, contents.drop_first());
        assert(state.files =~= seq![state.files[0]] + state.files.drop_first());
    }
}

/// The ops files that are read one after the other from `state` on, as long as each is asked for
/// and every op is written out.
pub open spec fn ops_reads<T>(state: TidModel<T>, next: TidMove<T>, files: Seq<OpsFile<T>>) -> Seq<
    Seq<u8>,
>
    decreases files.len(),
{
    match next {
        TidMove::ReadFile(path) => if files.len() == 0 || !state.expects(
            TidReply::FileRead(files[0].contents),
        ) {
            seq![]
        } else {
            let (state, next) = state.after(TidReply::FileRead(files[0].contents), files[0].decoded);
            let (_, state, next) = emit_all(state, next);
            seq![path] + ops_reads(state, next, files.drop_first())
        },
        _ => seq![],
    }
}

/// Every ops file is read, once and in the order of the listing, if each can be read.
#[verifier::spinoff_prover]
#[verifier::rlimit(30)]
pub proof fn law_ops_files_read<T>(state: TidModel<T>, files: Seq<OpsFile<T>>)
    requires
        state.phase == TidPhase::ListingOps || state.phase == TidPhase::ReadingOps || state.phase
            == TidPhase::Emitting,
        state.files.len() == files.len(),
        ops_of_files(state.order, state.op_size, state.files, files).1 is None,
    ensures
        ({
            let (start, next) = state.next_ops_file();
            ops_reads(start, next, files) == state.files
        }),
    decreases files.len(),
{
    let (start, next) = state.next_ops_file();
    if files.len() == 0 {
        assert(ops_reads(start, next, files) =~= state.files);
    } else {
        let ops = ops_file_ops(
            state.order,
            state.op_size,
            state.files[0],
            files[0].contents,
            files[0].decoded,
        )->Ok_0;
        lemma_emit_all(TidModel { pending: ops, ..start });
        let rest = TidModel {
            pending: seq![],
            count: state.count + ops.len(),
            files: state.files.drop_first(),
            ..start
        };
        law_ops_files_read(rest, files.drop_first());
        assert(state.files =~= seq![state.files[0]] + state.files.drop_first());
    }
}

/// An op that was written out is not written out again, and none is left out: from reading an ops
/// file to reading the next one, exactly its ops are written out, in order.
pub proof fn law_file_emitted<T>(
    state: TidModel<T>,
    contents: Result<Seq<u8>, String>,
    decoded: Result<Seq<T>, ProbeError>,
)
    requires
        state.phase == TidPhase::ReadingOps,
        ops_file_ops(state.order, state.op_size, state.files[0], contents, decoded) is Ok,
    ensures
        ({
            let ops = ops_file_ops(state.order, state.op_size, state.files[0], contents, decoded);
            let (start, next) = state.after(TidReply::FileRead(contents), decoded);
            let (emitted, end, _) = emit_all(start, next);
            &&& emitted == ops->Ok_0
            &&& end.count == state.count + emitted.len()
            &&& end.segments == state.segments
        }),
{
    let ops = ops_file_ops(state.order, state.op_size, state.files[0], contents, decoded)->Ok_0;
    lemma_emit_all(TidModel { pending: ops, ..state });
}

/// What is said of outcomes and actions is said of what they hold: every entry of a listing, every
/// byte of a file or path, every character of a name, in order.
pub proof fn law_tid_seen_as_is<T>(
    entries: Vec<Result<Vec<u8>, String>>,
    bytes: Vec<u8>,
    name: String,
    index: usize,
    op: T,
    res: Result<usize, ProbeError>,
    reason: String,
    emitted: Result<(), EmitError>,
    paths: Seq<Vec<u8>>,
)
    ensures
        TidEvent::Listed(Ok(entries))@ matches TidReply::Listed(Ok(seen)) && seen.len()
            == entries@.len() && forall|i: int|
            0 <= i < entries@.len() ==> #[trigger] seen[i] == (match entries@[i] {
                Ok(entry) => Ok::<Seq<u8>, String>(entry@),
                Err(reason) => Err(reason),
            }),
        TidEvent::Listed(Err(reason))@ == TidReply::Listed(Err(reason)),
        TidEvent::FileRead(Ok(bytes))@ == TidReply::FileRead(Ok(bytes@)),
        TidEvent::FileRead(Err(reason))@ == TidReply::FileRead(Err(reason)),
        TidEvent::OutputCreated(Ok(()))@ == TidReply::OutputCreated(Ok(())),
        TidEvent::OutputCreated(Err(reason))@ == TidReply::OutputCreated(Err(reason)),
        TidEvent::Emitted(emitted)@ == TidReply::Emitted(emitted),
        TidAction::<T>::CreateOutput(name)@ == TidMove::<T>::CreateOutput(name@),
        TidAction::<T>::ListTid@ == TidMove::<T>::ListTid,
        TidAction::<T>::ListSubdir(index)@ == TidMove::<T>::ListSubdir(index as int),
        TidAction::<T>::ReadFile(bytes)@ == TidMove::<T>::ReadFile(bytes@),
        TidAction::Emit(op)@ == TidMove::Emit(op),
        TidAction::<T>::Done(res)@ == TidMove::<T>::Done(res),
        bytes_views(paths).len() == paths.len(),
        forall|i: int| 0 <= i < paths.len() ==> #[trigger] bytes_views(paths)[i] == paths[i]@,
{
    let seen = entries_view(entries@);
    assert forall|i: int| 0 <= i < entries@.len() implies #[trigger] seen[i] == (
    match entries@[i] {
        Ok(entry) => Ok::<Seq<u8>, String>(entry@),
        Err(reason) => Err(reason),
    }) by {}
}

/// With a decoder that gives one result for each record, the ops of an ops file that was read are
/// those results, for every record of the file and in order, or the error of the first record that
/// has one.
pub proof fn law_ops_from_records<T, F: Fn(&[u8], &ArenaContext) -> Result<T, ProbeError>>(
    state: TidModel<T>,
    ctx: &ArenaContext,
    contents: Result<Seq<u8>, String>,
    decode_op: F,
    decoded: Result<Seq<T>, ProbeError>,
    meaning: spec_fn(Seq<u8>) -> Result<T, ProbeError>,
    records: Seq<Seq<u8>>,
)
    requires
        state.phase == TidPhase::ReadingOps,
        decoded_by(state, ctx, TidReply::FileRead(contents), decode_op, decoded),
        ops_file_records(state.order, state.op_size, state.files[0], contents) == Ok::<
            Seq<Seq<u8>>,
            ProbeError,
        >(records),
        forall|slice: &[u8], op: Result<T, ProbeError>|
            #[trigger] call_ensures(decode_op, (slice, ctx), op) ==> op == meaning(slice@),
    ensures
        match decoded {
            Ok(ops) => {
                &&& ops.len() == records.len()
                &&& forall|i: int|
                    0 <= i < records.len() ==> meaning(#[trigger] records[i]) == Ok::<
                        T,
                        ProbeError,
                    >(ops[i])
            },
            Err(e) => exists|i: int|
                0 <= i < records.len() && meaning(#[trigger] records[i]) == Err::<T, ProbeError>(e)
                    && forall|j: int| 0 <= j < i ==> meaning(#[trigger] records[j]) is Ok,
        },
{
    arena::law_decoded_in_order(decode_op, meaning, records, ctx, decoded);
}

} // verus!
