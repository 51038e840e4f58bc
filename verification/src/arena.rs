//! Arena files: the header that libprobe places in front of each, and what follows it.

use crate::error;
use crate::error::{wrap_err, ArenaError, ProbeError};
use crate::word;
use crate::word::{native_order, read_word, ByteOrder};
use vstd::layout;
use vstd::prelude::*;

verus! {

/// Arena allocator metadata placed at the beginning of arena files by libprobe.
#[derive(Debug, Clone, Copy, PartialEq, Eq, Structural)]
pub struct ArenaHeader {
    pub instantiation: libc::size_t,
    pub base_address: libc::uintptr_t,
    pub capacity: libc::uintptr_t,
    pub used: libc::uintptr_t,
}

/// The size of an arena header: four words.
pub open spec fn header_size() -> nat {
    4 * layout::size_of::<usize>()
}

/// The header that a machine of byte order `order` stores at the front of `bytes`.
pub open spec fn stored_header(order: ByteOrder, bytes: Seq<u8>) -> ArenaHeader {
    ArenaHeader {
        instantiation: order.word(bytes, 0),
        base_address: order.word(bytes, 1),
        capacity: order.word(bytes, 2),
        used: order.word(bytes, 3),
    }
}

/// The header at the front of `bytes`, or the first reason why there is none.
pub open spec fn header_of(order: ByteOrder, bytes: Seq<u8>, instantiation: usize) -> Result<
    ArenaHeader,
    ArenaError,
> {
    let header = stored_header(order, bytes);
    if bytes.len() < header_size() {
        Err(ArenaError::BufferTooSmall { got: bytes.len() as usize, needed: header_size() as usize })
    } else if header.capacity != bytes.len() {
        Err(
            ArenaError::InvalidCapacity {
                expected: header.capacity,
                actual: bytes.len() as usize,
            },
        )
    } else if header.used > header.capacity {
        Err(ArenaError::InvalidSize { size: header.used, capacity: header.capacity })
    } else if header.instantiation != instantiation {
        Err(
            ArenaError::InstantiationMismatch {
                header: header.instantiation,
                passed: instantiation,
            },
        )
    } else {
        Ok(header)
    }
}

/// A header, with the error of a malformed one as an error of the transcription.
pub open spec fn header_or_error(
    order: ByteOrder,
    bytes: Seq<u8>,
    instantiation: usize,
) -> Result<ArenaHeader, ProbeError> {
    match header_of(order, bytes, instantiation) {
        Ok(header) => Ok(header),
        Err(e) => Err(ProbeError::ArenaError(e)),
    }
}

impl ArenaHeader {
    /// The number of bytes of a header.
    pub fn size() -> (res: usize)
        ensures
            res == header_size(),
            0 < res,
    {
        broadcast use layout::layout_of_primitives;

        core::mem::size_of::<usize>() * 4
    }

    /// Parses the front of a raw byte buffer that a machine of byte order `order` wrote.
    pub fn from_bytes_in(order: ByteOrder, bytes: &[u8], instantiation: usize) -> (res: Result<
        Self,
        ProbeError,
    >)
        ensures
            res == header_or_error(order, bytes@, instantiation),
    {
        let size = ArenaHeader::size();
        let len = bytes.len();
        if len < size {
            return Err(
                ProbeError::ArenaError(ArenaError::BufferTooSmall { got: len, needed: size }),
            );
        }
        let width = core::mem::size_of::<usize>();
        let header = ArenaHeader {
            instantiation: read_word(order, bytes, 0),
            base_address: read_word(order, bytes, width),
            capacity: read_word(order, bytes, width * 2),
            used: read_word(order, bytes, width * 3),
        };
        assert(header == stored_header(order, bytes@));
        if header.capacity != len {
            return Err(
                ProbeError::ArenaError(
                    ArenaError::InvalidCapacity { expected: header.capacity, actual: len },
                ),
            );
        }
        if header.used > header.capacity {
            return Err(
                ProbeError::ArenaError(
                    ArenaError::InvalidSize { size: header.used, capacity: header.capacity },
                ),
            );
        }
        if header.instantiation != instantiation {
            return Err(
                ProbeError::ArenaError(
                    ArenaError::InstantiationMismatch {
                        header: header.instantiation,
                        passed: instantiation,
                    },
                ),
            );
        }
        Ok(header)
    }

    /// Parses the front of a raw byte buffer that this machine wrote.
    pub fn from_bytes(bytes: &[u8], instantiation: usize) -> (res: Result<Self, ProbeError>)
        ensures
            exists|order: ByteOrder| res == #[trigger] header_or_error(order, bytes@, instantiation),
    {
        ArenaHeader::from_bytes_in(native_order(), bytes, instantiation)
    }
}

/// A run of memory: the bytes `data`, the first of them at address `base`.
pub struct Segment {
    pub base: nat,
    pub data: Seq<u8>,
}

impl Segment {
    /// The address behind the last byte.
    pub open spec fn end(self) -> nat {
        self.base + self.data.len()
    }

    /// Whether `ptr` points into the segment or just behind it.
    pub open spec fn holds(self, ptr: int) -> bool {
        self.base <= ptr <= self.end()
    }

    /// The bytes from address `ptr` on.
    pub open spec fn from_address(self, ptr: int) -> Seq<u8> {
        self.data.skip(ptr - self.base)
    }
}

/// The memory that an arena file of a machine of byte order `order` describes.
pub open spec fn segment_of(order: ByteOrder, bytes: Seq<u8>, instantiation: usize) -> Result<
    Segment,
    ProbeError,
> {
    match header_or_error(order, bytes, instantiation) {
        Ok(header) => Ok(
            Segment { base: header.base_address as nat, data: bytes.take(header.used as int) },
        ),
        Err(e) => Err(error::in_context("Failed to create ArenaHeader for DataArena", e)),
    }
}

/// This struct represents a single `data/*.dat` file from a probe record directory.
#[derive(Debug)]
pub struct DataArena {
    header: ArenaHeader,
    raw: Vec<u8>,
}

impl View for DataArena {
    type V = Segment;

    closed spec fn view(&self) -> Segment {
        Segment {
            base: self.header.base_address as nat,
            data: self.raw@.take(self.header.used as int),
        }
    }
}

/// The memory of an arena, if there is one.
pub open spec fn arena_view(res: Result<DataArena, ProbeError>) -> Result<Segment, ProbeError> {
    match res {
        Ok(arena) => Ok(arena@),
        Err(e) => Err(e),
    }
}

impl DataArena {
    #[verifier::type_invariant]
    spec fn well_formed(self) -> bool {
        self.header.used <= self.raw@.len()
    }

    /// Takes over the contents of an arena file that a machine of byte order `order` wrote.
    pub fn from_bytes_in(order: ByteOrder, bytes: Vec<u8>, instantiation: usize) -> (res: Result<
        Self,
        ProbeError,
    >)
        ensures
            arena_view(res) == segment_of(order, bytes@, instantiation),
    {
        let header = match wrap_err(
            ArenaHeader::from_bytes_in(order, bytes.as_slice(), instantiation),
            "Failed to create ArenaHeader for DataArena",
        ) {
            Ok(header) => header,
            Err(e) => return Err(e),
        };
        Ok(DataArena { header, raw: bytes })
    }

    /// Takes over the contents of an arena file that this machine wrote.
    pub fn from_bytes(bytes: Vec<u8>, instantiation: usize) -> (res: Result<Self, ProbeError>)
        ensures
            exists|order: ByteOrder|
                arena_view(res) == #[trigger] segment_of(order, bytes@, instantiation),
    {
        DataArena::from_bytes_in(native_order(), bytes, instantiation)
    }

    /// Whether the arena ends within the address space.
    pub fn is_addressable(&self) -> (res: bool)
        ensures
            res == (self@.end() <= usize::MAX),
    {
        proof {
            use_type_invariant(self);
        }
        self.header.used <= usize::MAX - self.header.base_address
    }

    /// The used bytes from address `ptr` to the end of the arena, if `ptr` points into it or just
    /// behind it.
    pub fn try_get_slice(&self, ptr: usize) -> (res: Option<&[u8]>)
        requires
            self@.end() <= usize::MAX,
        ensures
            res is Some <==> self@.holds(ptr as int),
            res matches Some(slice) ==> slice@ == self@.from_address(ptr as int),
    {
        proof {
            use_type_invariant(self);
        }
        let end = self.header.base_address + self.header.used;
        if ptr >= self.header.base_address && ptr <= end {
            let start = ptr - self.header.base_address;
            let slice = &self.raw.as_slice()[start..self.header.used];
            assert(slice@ =~= self@.from_address(ptr as int));
            Some(slice)
        } else {
            None
        }
    }
}

/// The bytes from address `ptr` on, in the first segment that holds it.
pub open spec fn lookup(segments: Seq<Segment>, ptr: int) -> Option<Seq<u8>>
    decreases segments.len(),
{
    if segments.len() == 0 {
        None
    } else if segments[0].holds(ptr) {
        Some(segments[0].from_address(ptr))
    } else {
        lookup(segments.drop_first(), ptr)
    }
}

/// Every segment that is searched for `ptr` ends within the address space.
pub open spec fn addressable(segments: Seq<Segment>, ptr: int) -> bool
    decreases segments.len(),
{
    segments.len() > 0 ==> {
        &&& segments[0].end() <= usize::MAX
        &&& segments[0].holds(ptr) || addressable(segments.drop_first(), ptr)
    }
}

/// this struct represents a `<TID>/data` probe record directory.
#[derive(Debug)]
pub struct ArenaContext(pub Vec<DataArena>);

impl View for ArenaContext {
    type V = Seq<Segment>;

    open spec fn view(&self) -> Seq<Segment> {
        self.0@.map_values(|arena: DataArena| arena@)
    }
}

impl ArenaContext {
    /// Whether every arena that is searched for `ptr` ends within the address space.
    pub fn is_addressable(&self, ptr: usize) -> (res: bool)
        ensures
            res == addressable(self@, ptr as int),
    {
        let mut i: usize = 0;
        assert(self@.skip(0) =~= self@);
        while i < self.0.len()
            invariant
                i <= self.0.len(),
                addressable(self@, ptr as int) == addressable(self@.skip(i as int), ptr as int),
            decreases self.0.len() - i,
        {
            assert(self@.skip(i as int)[0] == self.0@[i as int]@);
            assert(self@.skip(i as int).drop_first() =~= self@.skip(i + 1));
            if !self.0[i].is_addressable() {
                return false;
            }
            if self.0[i].try_get_slice(ptr).is_some() {
                return true;
            }
            i = i + 1;
        }
        true
    }

    /// The bytes from address `ptr` on, from the first arena that holds it.
    pub fn try_get_slice(&self, ptr: usize) -> (res: Option<&[u8]>)
        requires
            addressable(self@, ptr as int),
        ensures
            match res {
                Some(slice) => lookup(self@, ptr as int) == Some(slice@),
                None => lookup(self@, ptr as int) is None,
            },
    {
        let mut i: usize = 0;
        assert(self@.skip(0) =~= self@);
        while i < self.0.len()
            invariant
                i <= self.0.len(),
                addressable(self@.skip(i as int), ptr as int),
                lookup(self@, ptr as int) == lookup(self@.skip(i as int), ptr as int),
            decreases self.0.len() - i,
        {
            assert(self@.skip(i as int)[0] == self.0@[i as int]@);
            assert(self@.skip(i as int).drop_first() =~= self@.skip(i + 1));
            if let Some(slice) = self.0[i].try_get_slice(ptr) {
                return Some(slice);
            }
            i = i + 1;
        }
        None
    }
}

/// The bytes of the ops in an ops arena file, op by op, or the first reason why there are none.
pub open spec fn records_of(
    order: ByteOrder,
    bytes: Seq<u8>,
    instantiation: usize,
    op_size: usize,
) -> Result<Seq<Seq<u8>>, ProbeError> {
    match header_or_error(order, bytes, instantiation) {
        Err(e) => Err(error::in_context("Failed to create ArenaHeader for OpsArena", e)),
        Ok(header) => if header.used < header_size() || (header.used - header_size())
            % op_size as int != 0 {
            Err(
                ProbeError::ArenaError(
                    ArenaError::Misaligned {
                        size: header.used,
                        header_size: header_size() as usize,
                        op_size,
                    },
                ),
            )
        } else {
            Ok(
                records(
                    bytes,
                    op_size as nat,
                    ((header.used - header_size()) / op_size as int) as nat,
                ),
            )
        },
    }
}

/// `count` records of `op_size` bytes each, behind the header.
pub open spec fn records(bytes: Seq<u8>, op_size: nat, count: nat) -> Seq<Seq<u8>> {
    Seq::new(
        count,
        |i: int|
            bytes.subrange(header_size() + i * op_size, header_size() + (i + 1) * op_size),
    )
}

/// This struct represents a single `ops/*.dat` file from a probe record directory.
pub struct OpsArena {
    /// raw byte buffer of Ops arena allocator.
    raw: Vec<u8>,
    /// number of bytes of one op.
    op_size: usize,
    /// number of ops behind the header.
    count: usize,
}

impl View for OpsArena {
    type V = Seq<Seq<u8>>;

    closed spec fn view(&self) -> Seq<Seq<u8>> {
        records(self.raw@, self.op_size as nat, self.count as nat)
    }
}

/// The records of an ops arena, if there is one.
pub open spec fn ops_view(res: Result<OpsArena, ProbeError>) -> Result<Seq<Seq<u8>>, ProbeError> {
    match res {
        Ok(arena) => Ok(arena@),
        Err(e) => Err(e),
    }
}

/// `op` is what `decode_op` may return for the bytes `record` of an op.
pub open spec fn decodes_to<T, F: Fn(&[u8], &ArenaContext) -> Result<T, ProbeError>>(
    decode_op: F,
    record: Seq<u8>,
    ctx: &ArenaContext,
    op: Result<T, ProbeError>,
) -> bool {
    exists|slice: &[u8]| slice@ == record && #[trigger] call_ensures(decode_op, (slice, ctx), op)
}

/// `decode_op` may succeed on the bytes `record` of an op.
pub open spec fn may_decode<T, F: Fn(&[u8], &ArenaContext) -> Result<T, ProbeError>>(
    decode_op: F,
    record: Seq<u8>,
    ctx: &ArenaContext,
) -> bool {
    exists|op: T| decodes_to(decode_op, record, ctx, Ok(op))
}

/// `ops` is what decoding `records` one after the other may give: every op, or the first error.
pub open spec fn all_decode_to<T, F: Fn(&[u8], &ArenaContext) -> Result<T, ProbeError>>(
    decode_op: F,
    records: Seq<Seq<u8>>,
    ctx: &ArenaContext,
    ops: Result<Seq<T>, ProbeError>,
) -> bool {
    match ops {
        Ok(ops) => {
            &&& ops.len() == records.len()
            &&& forall|i: int|
                0 <= i < records.len() ==> #[trigger] decodes_to(
                    decode_op,
                    records[i],
                    ctx,
                    Ok(ops[i]),
                )
        },
        Err(e) => exists|i: int|
            0 <= i < records.len() && #[trigger] decodes_to::<T, F>(
                decode_op,
                records[i],
                ctx,
                Err(e),
            ) && forall|j: int|
                0 <= j < i ==> #[trigger] may_decode::<T, F>(decode_op, records[j], ctx),
    }
}

impl OpsArena {
    #[verifier::type_invariant]
    spec fn well_formed(self) -> bool {
        &&& self.op_size > 0
        &&& header_size() + self.count * self.op_size <= self.raw@.len()
    }

    /// The size that every record of the arena has.
    pub closed spec fn spec_op_size(self) -> nat {
        self.op_size as nat
    }

    /// Takes over the contents of an arena file that a machine of byte order `order` wrote.
    pub fn from_bytes_in(
        order: ByteOrder,
        bytes: Vec<u8>,
        instantiation: usize,
        op_size: usize,
    ) -> (res: Result<Self, ProbeError>)
        requires
            op_size > 0,
        ensures
            ops_view(res) == records_of(order, bytes@, instantiation, op_size),
            res matches Ok(arena) ==> arena.spec_op_size() == op_size,
    {
        let header = match wrap_err(
            ArenaHeader::from_bytes_in(order, bytes.as_slice(), instantiation),
            "Failed to create ArenaHeader for OpsArena",
        ) {
            Ok(header) => header,
            Err(e) => return Err(e),
        };
        let header_size = ArenaHeader::size();
        if header.used < header_size || (header.used - header_size) % op_size != 0 {
            return Err(
                ProbeError::ArenaError(
                    ArenaError::Misaligned { size: header.used, header_size, op_size },
                ),
            );
        }
        let count = (header.used - header_size) / op_size;
        proof {
            vstd::arithmetic::div_mod::lemma_fundamental_div_mod(
                header.used - header_size,
                op_size as int,
            );
            vstd::arithmetic::mul::lemma_mul_is_commutative(count as int, op_size as int);
        }
        Ok(OpsArena { raw: bytes, op_size, count })
    }

    /// Takes over the contents of an arena file that this machine wrote.
    pub fn from_bytes(bytes: Vec<u8>, instantiation: usize, op_size: usize) -> (res: Result<
        Self,
        ProbeError,
    >)
        requires
            op_size > 0,
        ensures
            exists|order: ByteOrder|
                ops_view(res) == #[trigger] records_of(order, bytes@, instantiation, op_size),
            res matches Ok(arena) ==> arena.spec_op_size() == op_size,
    {
        OpsArena::from_bytes_in(native_order(), bytes, instantiation, op_size)
    }

    /// Decodes the ops in order with `decode_op`, up to the first that fails.
    pub fn decode<T, F: Fn(&[u8], &ArenaContext) -> Result<T, ProbeError>>(
        self,
        ctx: &ArenaContext,
        decode_op: &F,
    ) -> (res: Result<Vec<T>, ProbeError>)
        requires
            forall|slice: &[u8]|
                slice@.len() == self.spec_op_size() ==> #[trigger] call_requires(
                    *decode_op,
                    (slice, ctx),
                ),
        ensures
            match res {
                Ok(ops) => all_decode_to(*decode_op, self@, ctx, Ok(ops@)),
                Err(e) => exists|inner: ProbeError|
                    e == error::in_context("Failed to decode arena ops", inner)
                        && #[trigger] all_decode_to::<T, F>(*decode_op, self@, ctx, Err(inner)),
            },
    {
        proof {
            use_type_invariant(&self);
        }
        let mut ops: Vec<T> = Vec::new();
        let mut i: usize = 0;
        let behind_header = ArenaHeader::size();
        let len = self.raw.len();
        let ghost records = self@;
        while i < self.count
            invariant
                i <= self.count,
                records == self@,
                records.len() == self.count,
                len == self.raw@.len(),
                behind_header == header_size(),
                header_size() + self.count * self.op_size <= len,
                ops@.len() == i,
                forall|slice: &[u8]|
                    slice@.len() == self.spec_op_size() ==> #[trigger] call_requires(
                        *decode_op,
                        (slice, ctx),
                    ),
                forall|j: int|
                    0 <= j < i ==> #[trigger] decodes_to(*decode_op, records[j], ctx, Ok(ops@[j])),
            decreases self.count - i,
        {
            assert(i * self.op_size + self.op_size == (i + 1) * self.op_size) by (nonlinear_arith);
            assert((i + 1) * self.op_size <= self.count * self.op_size) by (nonlinear_arith)
                requires
                    i + 1 <= self.count,
            ;
            assert(0 <= i * self.op_size) by (nonlinear_arith);
            let start = behind_header + i * self.op_size;
            let slice = &self.raw.as_slice()[start..start + self.op_size];
            assert(slice@ == records[i as int]);
            let op = decode_op(slice, ctx);
            assert(decodes_to(*decode_op, records[i as int], ctx, op));
            match op {
                Ok(value) => {
                    ops.push(value);
                },
                Err(inner) => {
                    assert forall|j: int| 0 <= j < i implies #[trigger] may_decode::<T, F>(
                        *decode_op,
                        records[j],
                        ctx,
                    ) by {
                        assert(decodes_to(*decode_op, records[j], ctx, Ok(ops@[j])));
                    }
                    assert(all_decode_to::<T, F>(*decode_op, records, ctx, Err(inner)));
                    return Err(
                        ProbeError::Context {
                            context: "Failed to decode arena ops",
                            inner: Box::new(inner),
                        },
                    );
                },
            }
            i = i + 1;
        }
        Ok(ops)
    }
}

/// An accepted header fits its file: the capacity is the length of the file, the used bytes lie
/// within it, and the instantiation is the one the file is named by.
pub proof fn law_header_fits(order: ByteOrder, bytes: Seq<u8>, instantiation: usize)
    ensures
        header_of(order, bytes, instantiation) matches Ok(header) ==> {
            &&& header_size() <= bytes.len() == header.capacity
            &&& header.used <= header.capacity
            &&& header.instantiation == instantiation
        },
{
}

/// What follows the header has no influence on it.
pub proof fn law_header_in_front(
    order: ByteOrder,
    bytes: Seq<u8>,
    other: Seq<u8>,
    instantiation: usize,
)
    requires
        bytes.len() == other.len() >= header_size(),
        bytes.take(header_size() as int) == other.take(header_size() as int),
    ensures
        header_of(order, bytes, instantiation) == header_of(order, other, instantiation),
{
    let front = bytes.take(header_size() as int);
    assert forall|k: int| 0 <= k < 4 implies #[trigger] order.word(bytes, k) == order.word(
        other,
        k,
    ) by {
        let start = k * layout::size_of::<usize>();
        let end = (k + 1) * layout::size_of::<usize>();
        assert(0 <= start <= end <= header_size()) by (nonlinear_arith)
            requires
                0 <= k < 4,
                start == k * layout::size_of::<usize>(),
                end == (k + 1) * layout::size_of::<usize>(),
                header_size() == 4 * layout::size_of::<usize>(),
        ;
        assert(bytes.subrange(start, end) =~= front.subrange(start, end));
        assert(other.subrange(start, end) =~= other.take(header_size() as int).subrange(
            start,
            end,
        ));
    }
    assert(order.word(bytes, 0) == order.word(other, 0));
    assert(order.word(bytes, 1) == order.word(other, 1));
    assert(order.word(bytes, 2) == order.word(other, 2));
    assert(order.word(bytes, 3) == order.word(other, 3));
}

/// Two pointers into one segment see the same memory: the later one sees what the earlier one
/// sees, less the bytes between them.
pub proof fn law_reads_agree(segment: Segment, ptr: int, distance: int)
    requires
        0 <= distance,
        segment.holds(ptr),
        segment.holds(ptr + distance),
    ensures
        segment.from_address(ptr + distance) == segment.from_address(ptr).skip(distance),
        segment.from_address(ptr).len() == segment.end() - ptr,
{
    assert(segment.from_address(ptr + distance) =~= segment.from_address(ptr).skip(distance));
}

/// A pointer is resolved by the first segment that holds it, and by none only if none does.
pub proof fn law_lookup_first(segments: Seq<Segment>, ptr: int)
    ensures
        match lookup(segments, ptr) {
            None => forall|i: int| 0 <= i < segments.len() ==> !#[trigger] segments[i].holds(ptr),
            Some(data) => exists|i: int|
                0 <= i < segments.len() && #[trigger] segments[i].holds(ptr) && data
                    == segments[i].from_address(ptr) && forall|j: int|
                    0 <= j < i ==> !#[trigger] segments[j].holds(ptr),
        },
    decreases segments.len(),
{
    if segments.len() > 0 {
        if segments[0].holds(ptr) {
            assert(segments[0].holds(ptr) && segments[0].from_address(ptr) == lookup(
                segments,
                ptr,
            )->0);
        } else {
            let rest = segments.drop_first();
            law_lookup_first(rest, ptr);
            match lookup(rest, ptr) {
                None => {
                    assert forall|i: int| 0 <= i < segments.len() implies !#[trigger] segments[i].holds(
                        ptr,
                    ) by {
                        if i > 0 {
                            assert(!rest[i - 1].holds(ptr));
                        }
                    }
                },
                Some(data) => {
                    let i = choose|i: int|
                        0 <= i < rest.len() && #[trigger] rest[i].holds(ptr) && data
                            == rest[i].from_address(ptr) && forall|j: int|
                            0 <= j < i ==> !#[trigger] rest[j].holds(ptr);
                    assert(segments[i + 1].holds(ptr));
                    assert forall|j: int| 0 <= j < i + 1 implies !#[trigger] segments[j].holds(
                        ptr,
                    ) by {
                        if j > 0 {
                            assert(!rest[j - 1].holds(ptr));
                        }
                    }
                },
            }
        }
    }
}

/// An ops arena with a valid header is accepted exactly if its used bytes are the header and a
/// whole number of ops; a rejected one is reported as misaligned.
pub proof fn law_ops_aligned(
    order: ByteOrder,
    bytes: Seq<u8>,
    instantiation: usize,
    op_size: usize,
)
    requires
        op_size > 0,
        header_of(order, bytes, instantiation) is Ok,
    ensures
        ({
            let used = header_of(order, bytes, instantiation)->Ok_0.used;
            match records_of(order, bytes, instantiation, op_size) {
                Ok(ops) => used == header_size() + ops.len() * op_size,
                Err(e) => {
                    &&& e == ProbeError::ArenaError(
                        ArenaError::Misaligned {
                            size: used,
                            header_size: header_size() as usize,
                            op_size,
                        },
                    )
                    &&& forall|n: nat| used != header_size() + #[trigger] (n * op_size)
                },
            }
        }),
{
    let used = header_of(order, bytes, instantiation)->Ok_0.used;
    let body = used - header_size();
    vstd::arithmetic::div_mod::lemma_fundamental_div_mod(body, op_size as int);
    if body >= 0 {
        vstd::arithmetic::div_mod::lemma_div_pos_is_pos(body, op_size as int);
        vstd::arithmetic::mul::lemma_mul_is_commutative(body / op_size as int, op_size as int);
    }
    if records_of(order, bytes, instantiation, op_size) is Err {
        assert forall|n: nat| used != header_size() + #[trigger] (n * op_size) by {
            assert(0 <= n * op_size) by (nonlinear_arith);
            if body == n * op_size {
                vstd::arithmetic::div_mod::lemma_mod_multiples_basic(n as int, op_size as int);
            }
        }
    }
}

/// The ops of an arena cover its used bytes behind the header, without gap or overlap: the
/// `i`-th op is made of the bytes at its place, and the ops in a row are the whole body.
pub proof fn law_ops_cover(
    order: ByteOrder,
    bytes: Seq<u8>,
    instantiation: usize,
    op_size: usize,
)
    requires
        op_size > 0,
        records_of(order, bytes, instantiation, op_size) is Ok,
    ensures
        ({
            let ops = records_of(order, bytes, instantiation, op_size)->Ok_0;
            let used = header_of(order, bytes, instantiation)->Ok_0.used;
            &&& forall|i: int| 0 <= i < ops.len() ==> (#[trigger] ops[i]).len() == op_size
            &&& ops.flatten() == bytes.subrange(header_size() as int, used as int)
        }),
{
    law_ops_aligned(order, bytes, instantiation, op_size);
    let ops = records_of(order, bytes, instantiation, op_size)->Ok_0;
    lemma_records_flatten(bytes, op_size as nat, ops.len());
}

/// Records of one size in a row are the bytes they were cut from.
proof fn lemma_records_flatten(bytes: Seq<u8>, op_size: nat, count: nat)
    requires
        header_size() + count * op_size <= bytes.len(),
    ensures
        forall|i: int|
            0 <= i < count ==> (#[trigger] records(bytes, op_size, count)[i]).len() == op_size,
        records(bytes, op_size, count).flatten() == bytes.subrange(
            header_size() as int,
            (header_size() + count * op_size) as int,
        ),
    decreases count,
{
    let ops = records(bytes, op_size, count);
    assert forall|i: int| 0 <= i < count implies (#[trigger] ops[i]).len() == op_size by {
        assert(0 <= i * op_size <= (i + 1) * op_size <= count * op_size && (i + 1) * op_size
            == i * op_size + op_size) by (nonlinear_arith)
            requires
                0 <= i < count,
        ;
    }
    if count == 0 {
        assert(count * op_size == 0) by (nonlinear_arith)
            requires
                count == 0,
        ;
        assert(ops.flatten() =~= bytes.subrange(header_size() as int, header_size() as int));
    } else {
        let before = (count - 1) as nat;
        assert(before * op_size + op_size == count * op_size && 0 <= before * op_size)
            by (nonlinear_arith)
            requires
                before == count - 1,
        ;
        lemma_records_flatten(bytes, op_size, before);
        assert(ops.drop_last() =~= records(bytes, op_size, before));
        ops.lemma_flatten_and_flatten_alt_are_equivalent();
        ops.drop_last().lemma_flatten_and_flatten_alt_are_equivalent();
        assert(ops.flatten() =~= bytes.subrange(
            header_size() as int,
            (header_size() + count * op_size) as int,
        ));
    }
}

/// A header is four words at the front of a file, one behind the other: the instantiation, the base
/// address, the capacity and the used bytes, each as a machine of the byte order stores it.
pub proof fn law_header_words(order: ByteOrder, bytes: Seq<u8>, instantiation: usize)
    ensures
        header_size() == 4 * layout::size_of::<usize>(),
        header_of(order, bytes, instantiation) matches Ok(header) ==> ({
            let width = layout::size_of::<usize>() as int;
            &&& header.instantiation == order.value(bytes.subrange(0, width))
            &&& header.base_address == order.value(bytes.subrange(width, 2 * width))
            &&& header.capacity == order.value(bytes.subrange(2 * width, 3 * width))
            &&& header.used == order.value(bytes.subrange(3 * width, 4 * width))
        }),
{
    let width = layout::size_of::<usize>() as int;
    if bytes.len() >= header_size() {
        word::lemma_word_fits(order, bytes.subrange(0, width));
        word::lemma_word_fits(order, bytes.subrange(width, 2 * width));
        word::lemma_word_fits(order, bytes.subrange(2 * width, 3 * width));
        word::lemma_word_fits(order, bytes.subrange(3 * width, 4 * width));
    }
}

/// When there is no header: each error is returned exactly if what it reports is so and nothing
/// that is looked at earlier is wrong, and it reports the numbers that do not fit.
#[verifier::spinoff_prover]
#[verifier::rlimit(30)]
pub proof fn law_header_rejected(order: ByteOrder, bytes: Seq<u8>, instantiation: usize)
    requires
        bytes.len() <= usize::MAX,
    ensures
        ({
            let width = layout::size_of::<usize>() as int;
            let found = order.value(bytes.subrange(0, width));
            let capacity = order.value(bytes.subrange(2 * width, 3 * width));
            let used = order.value(bytes.subrange(3 * width, 4 * width));
            let short = bytes.len() < 4 * width;
            let misfit = capacity != bytes.len();
            let res = header_of(order, bytes, instantiation);
            &&& short <==> (res matches Err(ArenaError::BufferTooSmall { got, needed }) && got
                == bytes.len() && needed == 4 * width)
            &&& !short && misfit <==> (res matches Err(
                ArenaError::InvalidCapacity { expected, actual },
            ) && expected == capacity && actual == bytes.len())
            &&& !short && !misfit && used > capacity <==> (res matches Err(
                ArenaError::InvalidSize { size, capacity: limit },
            ) && size == used && limit == capacity)
            &&& !short && !misfit && used <= capacity && found != instantiation <==> (
            res matches Err(ArenaError::InstantiationMismatch { header, passed }) && header == found
                && passed == instantiation)
            &&& !short && !misfit && used <= capacity && found == instantiation <==> res is Ok
        }),
{
    broadcast use layout::layout_of_primitives;

    let width = layout::size_of::<usize>() as int;
    if bytes.len() >= header_size() {
        word::lemma_word_fits(order, bytes.subrange(0, width));
        word::lemma_word_fits(order, bytes.subrange(width, 2 * width));
        word::lemma_word_fits(order, bytes.subrange(2 * width, 3 * width));
        word::lemma_word_fits(order, bytes.subrange(3 * width, 4 * width));
    }
}

/// An arena that cannot be read is reported with what is wrong with its header, under a heading
/// that says which kind of arena it is.
pub proof fn law_arena_rejected(
    order: ByteOrder,
    bytes: Seq<u8>,
    instantiation: usize,
    op_size: usize,
)
    ensures
        header_of(order, bytes, instantiation) is Ok ==> segment_of(
            order,
            bytes,
            instantiation,
        ) is Ok,
        header_of(order, bytes, instantiation) matches Err(e) ==> {
            &&& header_or_error(order, bytes, instantiation) == Err::<ArenaHeader, ProbeError>(
                ProbeError::ArenaError(e),
            )
            &&& segment_of(order, bytes, instantiation) == Err::<Segment, ProbeError>(
                ProbeError::Context {
                    context: "Failed to create ArenaHeader for DataArena",
                    inner: Box::new(ProbeError::ArenaError(e)),
                },
            )
            &&& records_of(order, bytes, instantiation, op_size) == Err::<
                Seq<Seq<u8>>,
                ProbeError,
            >(
                ProbeError::Context {
                    context: "Failed to create ArenaHeader for OpsArena",
                    inner: Box::new(ProbeError::ArenaError(e)),
                },
            )
        },
{
}

/// The memory of a data arena is its file up to the used bytes, the header with it: the byte at an
/// address is the byte of the file as far from its front as the address is from the base address.
pub proof fn law_memory_is_file(order: ByteOrder, bytes: Seq<u8>, instantiation: usize, ptr: int)
    requires
        header_of(order, bytes, instantiation) is Ok,
    ensures
        header_or_error(order, bytes, instantiation) == Ok::<ArenaHeader, ProbeError>(
            header_of(order, bytes, instantiation)->Ok_0,
        ),
        segment_of(order, bytes, instantiation) matches Ok(segment) && ({
            let header = header_of(order, bytes, instantiation)->Ok_0;
            let offset = ptr - header.base_address;
            &&& segment.holds(ptr) <==> header.base_address <= ptr <= header.base_address
                + header.used
            &&& segment.end() == header.base_address + header.used
            &&& segment.holds(ptr) ==> {
                &&& segment.from_address(ptr).len() == header.used - offset
                &&& forall|i: int|
                    0 <= i < header.used - offset ==> #[trigger] segment.from_address(ptr)[i]
                        == bytes[offset + i]
            }
        }),
{
}

/// A pointer can be looked up exactly if every segment in front of the first that holds it, and
/// that one, end within the address space.
#[verifier::spinoff_prover]
#[verifier::rlimit(30)]
pub proof fn law_addressable(segments: Seq<Segment>, ptr: int)
    ensures
        addressable(segments, ptr) <==> forall|i: int|
            0 <= i < segments.len() && (forall|j: int|
                0 <= j < i ==> !#[trigger] segments[j].holds(ptr)) ==> (
            #[trigger] segments[i]).end() <= usize::MAX,
    decreases segments.len(),
{
    if segments.len() > 0 {
        let rest = segments.drop_first();
        law_addressable(rest, ptr);
        if addressable(segments, ptr) {
            assert forall|i: int|
                0 <= i < segments.len() && (forall|j: int|
                    0 <= j < i ==> !#[trigger] segments[j].holds(ptr)) implies (
            #[trigger] segments[i]).end() <= usize::MAX by {
                if i > 0 {
                    assert(!segments[0].holds(ptr));
                    assert(rest[i - 1] == segments[i]);
                    assert forall|j: int| 0 <= j < i - 1 implies !#[trigger] rest[j].holds(ptr) by {
                        assert(!segments[j + 1].holds(ptr));
                    }
                }
            }
        }
        if forall|i: int|
            0 <= i < segments.len() && (forall|j: int|
                0 <= j < i ==> !#[trigger] segments[j].holds(ptr)) ==> (
            #[trigger] segments[i]).end() <= usize::MAX {
            assert(segments[0].end() <= usize::MAX);
            if !segments[0].holds(ptr) {
                assert forall|i: int|
                    0 <= i < rest.len() && (forall|j: int|
                        0 <= j < i ==> !#[trigger] rest[j].holds(ptr)) implies (
                #[trigger] rest[i]).end() <= usize::MAX by {
                    assert forall|j: int| 0 <= j < i + 1 implies !#[trigger] segments[j].holds(
                        ptr,
                    ) by {
                        if j > 0 {
                            assert(!rest[j - 1].holds(ptr));
                        }
                    }
                    assert(segments[i + 1].end() <= usize::MAX);
                }
            }
        }
    }
}

/// Each op is made of the bytes at its place in the file: the header and the ops in front of it are
/// in front of it, and nothing else.
#[verifier::spinoff_prover]
#[verifier::rlimit(30)]
pub proof fn law_op_at_its_place(
    order: ByteOrder,
    bytes: Seq<u8>,
    instantiation: usize,
    op_size: usize,
    i: int,
    k: int,
)
    requires
        op_size > 0,
        records_of(order, bytes, instantiation, op_size) is Ok,
        0 <= i < records_of(order, bytes, instantiation, op_size)->Ok_0.len(),
        0 <= k < op_size,
    ensures
        records_of(order, bytes, instantiation, op_size)->Ok_0[i].len() == op_size,
        records_of(order, bytes, instantiation, op_size)->Ok_0[i][k] == bytes[4
            * layout::size_of::<usize>() + i * op_size + k],
{
    law_ops_cover(order, bytes, instantiation, op_size);
    law_ops_aligned(order, bytes, instantiation, op_size);
    let count = records_of(order, bytes, instantiation, op_size)->Ok_0.len();
    assert(0 <= i * op_size && (i + 1) * op_size == i * op_size + op_size && (i + 1) * op_size
        <= count * op_size) by (nonlinear_arith)
        requires
            0 <= i < count,
            op_size > 0,
    ;
}

/// With a decoder that gives one result for each record, decoding gives that result for every
/// record, in order, or the error of the first record that has one.
#[verifier::spinoff_prover]
#[verifier::rlimit(30)]
pub proof fn law_decoded_in_order<T, F: Fn(&[u8], &ArenaContext) -> Result<T, ProbeError>>(
    decode_op: F,
    meaning: spec_fn(Seq<u8>) -> Result<T, ProbeError>,
    records: Seq<Seq<u8>>,
    ctx: &ArenaContext,
    ops: Result<Seq<T>, ProbeError>,
)
    requires
        forall|slice: &[u8], op: Result<T, ProbeError>|
            #[trigger] call_ensures(decode_op, (slice, ctx), op) ==> op == meaning(slice@),
        all_decode_to(decode_op, records, ctx, ops),
    ensures
        match ops {
            Ok(ops) => {
                &&& ops.len() == records.len()
                &&& forall|i: int|
                    0 <= i < records.len() ==> meaning(#[trigger] records[i]) == Ok::<
                        T,
                        ProbeError,
                    >(ops[i])
            },
            Err(e) => exists|i: int|
                0 <= i < records.len() && meaning(#[trigger] records[i]) == Err::<T, ProbeError>(e)
                    && forall|j: int| 0 <= j < i ==> meaning(#[trigger] records[j]) is Ok,
        },
{
    match ops {
        Ok(ops) => {
            assert forall|i: int| 0 <= i < records.len() implies meaning(#[trigger] records[i])
                == Ok::<T, ProbeError>(ops[i]) by {
                assert(decodes_to(decode_op, records[i], ctx, Ok(ops[i])));
            }
        },
        Err(e) => {
            let i = choose|i: int|
                0 <= i < records.len() && #[trigger] decodes_to::<T, F>(
                    decode_op,
                    records[i],
                    ctx,
                    Err(e),
                ) && forall|j: int|
                    0 <= j < i ==> #[trigger] may_decode::<T, F>(decode_op, records[j], ctx);
            assert(meaning(records[i]) == Err::<T, ProbeError>(e));
            assert forall|j: int| 0 <= j < i implies meaning(#[trigger] records[j]) is Ok by {
                assert(may_decode::<T, F>(decode_op, records[j], ctx));
            }
        },
    }
}

/// The memory of a thread is that of its data arenas, all of them and in order.
pub proof fn law_context_is_arenas(ctx: ArenaContext, arena: DataArena, ops: OpsArena, e: ProbeError)
    ensures
        ctx@.len() == ctx.0@.len(),
        forall|i: int| 0 <= i < ctx.0@.len() ==> #[trigger] ctx@[i] == ctx.0@[i]@,
        arena_view(Ok(arena)) == Ok::<Segment, ProbeError>(arena@),
        arena_view(Err(e)) == Err::<Segment, ProbeError>(e),
        ops_view(Ok(ops)) == Ok::<Seq<Seq<u8>>, ProbeError>(ops@),
        ops_view(Err(e)) == Err::<Seq<Seq<u8>>, ProbeError>(e),
{
}

} // verus!
