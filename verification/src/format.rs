//! The model file: a 64-byte header followed by 32-byte tensor records.
//! All integers are little-endian.

use vstd::prelude::*;

verus! {

/// Size of the file header in bytes.
pub const HEADER_LEN: usize = 64;

/// Size of one tensor record in bytes.
pub const RECORD_LEN: usize = 32;

/// Tensor element type tag for int8 weights with per-row scales.
pub const I8: u8 = 0;

/// Tensor element type tag for plain f32 data.
pub const F32: u8 = 1;

/// Bit pattern of the f32 value 100.0.
pub const TEMP_LIMIT_BITS: u32 = 0x42C8_0000;

/// Why a model file was refused.
#[derive(Debug, Clone, Copy, PartialEq, Eq)]
pub enum LoadError {
    TooShort,
    BadMagic,
    BadVersion,
    DModel,
    NLayers,
    CtxSize,
    Temp,
    Vocab,
    DModelNHeads,
    NTensors,
    RecordOutOfBounds,
    BadDtype,
    BadNDims,
    BadDims,
    BadScaleCount,
    BadAlignment,
    DataOutOfBounds,
    ScalesOutOfBounds,
    /// A per-row scale that is not a finite positive number.
    BadScaleValue,
}

/// The validated file header. The sampling temperature is kept as the bit
/// pattern of its little-endian f32.
#[derive(Debug, Clone, Copy, PartialEq, Eq)]
pub struct Header {
    pub magic: [u8; 4],
    pub version: u32,
    pub d_model: u32,
    pub n_layers: u32,
    pub n_heads: u32,
    pub ctx_len: u32,
    pub vocab: u32,
    pub temp_bits: u32,
    pub n_tensors: u32,
    pub crc32: u32,
}

/// One entry of the tensor directory.
#[derive(Debug, Clone, Copy, PartialEq, Eq)]
pub struct TensorRecord {
    pub dtype: u8,
    pub n_dims: u8,
    pub dim0: u32,
    pub dim1: u32,
    pub scale_count: u32,
    pub data_offset: u64,
    pub scales_offset: u64,
}

/// Little-endian u32 stored at `o`.
pub open spec fn le_u32(b: Seq<u8>, o: int) -> int {
    b[o] + b[o + 1] * 0x100 + b[o + 2] * 0x1_0000 + b[o + 3] * 0x100_0000
}

/// Little-endian u64 stored at `o`.
pub open spec fn le_u64(b: Seq<u8>, o: int) -> int {
    le_u32(b, o) + le_u32(b, o + 4) * 0x1_0000_0000
}

fn read_u32_le(buf: &[u8], o: usize) -> (r: u32)
    requires
        o + 4 <= buf.len(),
    ensures
        r == le_u32(buf@, o as int),
{
    buf[o] as u32 + buf[o + 1] as u32 * 0x100 + buf[o + 2] as u32 * 0x1_0000 + buf[o + 3] as u32
        * 0x100_0000
}

fn read_u64_le(buf: &[u8], o: usize) -> (r: u64)
    requires
        o + 8 <= buf.len(),
    ensures
        r == le_u64(buf@, o as int),
{
    let lo = read_u32_le(buf, o) as u64;
    let hi = read_u32_le(buf, o + 4) as u64;
    lo + hi * 0x1_0000_0000
}

/// `0 < temp < 100` for the f32 whose bits are `bits`. Positive IEEE-754
/// values order like their bit patterns, every pattern with the sign bit set
/// or above 100.0 (NaN included) fails, and +0.0 is the pattern 0.
pub open spec fn temp_in_range(bits: u32) -> bool {
    0 < bits && bits < TEMP_LIMIT_BITS
}

/// The first check of `Header::load` that `b` fails, if any.
pub open spec fn header_error(b: Seq<u8>) -> Option<LoadError> {
    if b.len() < 64 {
        Some(LoadError::TooShort)
    } else if !(b[0] == 0x4E && b[1] == 0x4E && b[2] == 0x53 && b[3] == 0x48) {
        Some(LoadError::BadMagic)
    } else if le_u32(b, 4) != 1 {
        Some(LoadError::BadVersion)
    } else if le_u32(b, 8) == 0 || le_u32(b, 8) > 1024 {
        Some(LoadError::DModel)
    } else if le_u32(b, 12) > 16 {
        Some(LoadError::NLayers)
    } else if le_u32(b, 20) == 0 || le_u32(b, 20) > 2048 {
        Some(LoadError::CtxSize)
    } else if !temp_in_range(le_u32(b, 28) as u32) {
        Some(LoadError::Temp)
    } else if le_u32(b, 24) != 256 {
        Some(LoadError::Vocab)
    } else if le_u32(b, 16) == 0 || le_u32(b, 8) % le_u32(b, 16) != 0 {
        Some(LoadError::DModelNHeads)
    } else if le_u32(b, 32) != 3 + 8 * le_u32(b, 12) {
        Some(LoadError::NTensors)
    } else {
        None
    }
}

/// `h` holds the header fields stored in `b`.
pub open spec fn header_fields(h: Header, b: Seq<u8>) -> bool {
    &&& h.magic@ == b.subrange(0, 4)
    &&& h.version == le_u32(b, 4)
    &&& h.d_model == le_u32(b, 8)
    &&& h.n_layers == le_u32(b, 12)
    &&& h.n_heads == le_u32(b, 16)
    &&& h.ctx_len == le_u32(b, 20)
    &&& h.vocab == le_u32(b, 24)
    &&& h.temp_bits == le_u32(b, 28)
    &&& h.n_tensors == le_u32(b, 32)
    &&& h.crc32 == le_u32(b, 36)
}

impl Header {
    /// Parses and validates the header at the start of `buf`.
    pub fn load(buf: &[u8]) -> (r: Result<Header, LoadError>)
        ensures
            match header_error(buf@) {
                Some(e) => r == Err::<Header, LoadError>(e),
                None => r matches Ok(h) && header_fields(h, buf@),
            },
    {
        if buf.len() < HEADER_LEN {
            return Err(LoadError::TooShort);
        }
        let magic: [u8; 4] = [buf[0], buf[1], buf[2], buf[3]];
        if !(buf[0] == 0x4E && buf[1] == 0x4E && buf[2] == 0x53 && buf[3] == 0x48) {
            return Err(LoadError::BadMagic);
        }
        let version = read_u32_le(buf, 4);
        if version != 1 {
            return Err(LoadError::BadVersion);
        }
        let d_model = read_u32_le(buf, 8);
        let n_layers = read_u32_le(buf, 12);
        let n_heads = read_u32_le(buf, 16);
        let ctx_len = read_u32_le(buf, 20);
        let vocab = read_u32_le(buf, 24);
        let temp_bits = read_u32_le(buf, 28);
        let n_tensors = read_u32_le(buf, 32);
        let crc32 = read_u32_le(buf, 36);

        if d_model == 0 || d_model > 1024 {
            return Err(LoadError::DModel);
        }
        if n_layers > 16 {
            return Err(LoadError::NLayers);
        }
        if ctx_len == 0 || ctx_len > 2048 {
            return Err(LoadError::CtxSize);
        }
        if !(0 < temp_bits && temp_bits < TEMP_LIMIT_BITS) {
            return Err(LoadError::Temp);
        }
        if vocab != 256 {
            return Err(LoadError::Vocab);
        }
        if n_heads == 0 || d_model % n_heads != 0 {
            return Err(LoadError::DModelNHeads);
        }
        if n_tensors != 3 + 8 * n_layers {
            return Err(LoadError::NTensors);
        }
        let h = Header {
            magic,
            version,
            d_model,
            n_layers,
            n_heads,
            ctx_len,
            vocab,
            temp_bits,
            n_tensors,
            crc32,
        };
        assert(h.magic@ =~= buf@.subrange(0, 4));
        Ok(h)
    }
}


/// Row length used for size arithmetic: a 1-D tensor (`dim1 == 0`) counts as
/// one column.
pub open spec fn spec_cols(dim1: u32) -> int {
    if dim1 == 0 { 1 } else { dim1 as int }
}

/// Bytes per element of the given tensor type tag.
pub open spec fn spec_element_size(dtype: u8) -> int {
    if dtype == I8 { 1 } else { 4 }
}

/// The record at `o` passes every check up to the data alignment.
pub open spec fn record_shape_ok(b: Seq<u8>, o: int) -> bool {
    let dtype = b[o];
    let n_dims = b[o + 1];
    let dim0 = le_u32(b, o + 4);
    let dim1 = le_u32(b, o + 8);
    let scale_count = le_u32(b, o + 12);
    &&& o + 32 <= b.len()
    &&& dtype <= 1
    &&& (n_dims == 1 || n_dims == 2)
    &&& !(dim0 == 0 || (n_dims == 1 && dim1 != 0) || (n_dims == 2 && dim1 == 0))
    &&& !(scale_count != 0 && scale_count != dim0)
    &&& le_u64(b, o + 16) % 64 == 0
}

/// Byte size of the tensor data described by the record at `o`.
pub open spec fn record_data_len(b: Seq<u8>, o: int) -> int {
    le_u32(b, o + 4) * spec_cols(le_u32(b, o + 8) as u32) * spec_element_size(b[o])
}

/// The size arithmetic of the record at `o` would leave the u64 range: the
/// one input on which loading a record does not return.
pub open spec fn record_size_overflows(b: Seq<u8>, o: int) -> bool {
    record_shape_ok(b, o) && record_data_len(b, o) > u64::MAX
}

/// A finite positive f32, by its bit pattern: positive finite values are
/// exactly the patterns above +0.0 and below +infinity (0x7F80_0000).
pub open spec fn scale_bits_ok(bits: u32) -> bool {
    0 < bits && bits < 0x7F80_0000
}

/// The first check of `TensorRecord::load` that the record at `o` fails.
pub open spec fn record_error(b: Seq<u8>, o: int) -> Option<LoadError> {
    let dtype = b[o];
    let n_dims = b[o + 1];
    let dim0 = le_u32(b, o + 4);
    let dim1 = le_u32(b, o + 8);
    let scale_count = le_u32(b, o + 12);
    let data_offset = le_u64(b, o + 16);
    let scales_offset = le_u64(b, o + 24);
    if o + 32 > b.len() {
        Some(LoadError::RecordOutOfBounds)
    } else if dtype > 1 {
        Some(LoadError::BadDtype)
    } else if n_dims != 1 && n_dims != 2 {
        Some(LoadError::BadNDims)
    } else if dim0 == 0 || (n_dims == 1 && dim1 != 0) || (n_dims == 2 && dim1 == 0) {
        Some(LoadError::BadDims)
    } else if scale_count != 0 && scale_count != dim0 {
        Some(LoadError::BadScaleCount)
    } else if data_offset % 64 != 0 {
        Some(LoadError::BadAlignment)
    } else if data_offset + record_data_len(b, o) > u64::MAX || data_offset + record_data_len(
        b,
        o,
    ) > b.len() {
        Some(LoadError::DataOutOfBounds)
    } else if scale_count > 0 && (scales_offset + scale_count * 4 > u64::MAX || scales_offset
        + scale_count * 4 > b.len()) {
        Some(LoadError::ScalesOutOfBounds)
    } else {
        None
    }
}

/// `r` holds the record fields stored at `o`.
pub open spec fn record_fields(r: TensorRecord, b: Seq<u8>, o: int) -> bool {
    &&& r.dtype == b[o]
    &&& r.n_dims == b[o + 1]
    &&& r.dim0 == le_u32(b, o + 4)
    &&& r.dim1 == le_u32(b, o + 8)
    &&& r.scale_count == le_u32(b, o + 12)
    &&& r.data_offset == le_u64(b, o + 16)
    &&& r.scales_offset == le_u64(b, o + 24)
}

impl TensorRecord {
    /// Parses and validates the 32-byte record at `offset`.
    pub fn load(buf: &[u8], offset: usize) -> (r: Result<TensorRecord, LoadError>)
        requires
            offset + RECORD_LEN <= usize::MAX,
            !record_size_overflows(buf@, offset as int),
        ensures
            match record_error(buf@, offset as int) {
                Some(e) => r == Err::<TensorRecord, LoadError>(e),
                None => r matches Ok(rec) && record_fields(rec, buf@, offset as int),
            },
    {
        if offset + RECORD_LEN > buf.len() {
            return Err(LoadError::RecordOutOfBounds);
        }
        let dtype = buf[offset];
        if dtype > 1 {
            return Err(LoadError::BadDtype);
        }
        let n_dims = buf[offset + 1];
        if n_dims != 1 && n_dims != 2 {
            return Err(LoadError::BadNDims);
        }
        let dim0 = read_u32_le(buf, offset + 4);
        let dim1 = read_u32_le(buf, offset + 8);
        let scale_count = read_u32_le(buf, offset + 12);
        let data_offset = read_u64_le(buf, offset + 16);
        let scales_offset = read_u64_le(buf, offset + 24);

        if dim0 == 0 || (n_dims == 1 && dim1 != 0) || (n_dims == 2 && dim1 == 0) {
            return Err(LoadError::BadDims);
        }
        if scale_count != 0 && scale_count != dim0 {
            return Err(LoadError::BadScaleCount);
        }
        if data_offset % 64 != 0 {
            return Err(LoadError::BadAlignment);
        }
        let element_size: u64 = if dtype == I8 { 1 } else { 4 };
        let cols: u64 = if dim1 == 0 { 1 } else { dim1 as u64 };
        assert(dim0 as u64 * cols <= 0xFFFF_FFFF * 0xFFFF_FFFF) by (nonlinear_arith)
            requires dim0 <= 0xFFFF_FFFF, cols <= 0xFFFF_FFFF;
        assert(record_data_len(buf@, offset as int) == (dim0 as u64 * cols) * element_size);
        let data_len = dim0 as u64 * cols * element_size;
        let data_end = match data_offset.checked_add(data_len) {
            Some(e) => e,
            None => return Err(LoadError::DataOutOfBounds),
        };
        if data_end > buf.len() as u64 {
            return Err(LoadError::DataOutOfBounds);
        }
        if scale_count > 0 {
            let scales_end = match scales_offset.checked_add(scale_count as u64 * 4) {
                Some(e) => e,
                None => return Err(LoadError::ScalesOutOfBounds),
            };
            if scales_end > buf.len() as u64 {
                return Err(LoadError::ScalesOutOfBounds);
            }
        }
        Ok(TensorRecord { dtype, n_dims, dim0, dim1, scale_count, data_offset, scales_offset })
    }

    /// Whether the record at `offset` passes the shape checks but describes
    /// more data than a u64 byte count holds: the one input on which `load`
    /// does not return.
    pub fn size_overflows(buf: &[u8], offset: usize) -> (b: bool)
        requires
            offset + RECORD_LEN <= usize::MAX,
        ensures
            b == record_size_overflows(buf@, offset as int),
    {
        if offset + RECORD_LEN > buf.len() {
            return false;
        }
        let dtype = buf[offset];
        let n_dims = buf[offset + 1];
        if dtype > 1 || (n_dims != 1 && n_dims != 2) {
            return false;
        }
        let dim0 = read_u32_le(buf, offset + 4);
        let dim1 = read_u32_le(buf, offset + 8);
        let scale_count = read_u32_le(buf, offset + 12);
        let data_offset = read_u64_le(buf, offset + 16);
        if dim0 == 0 || (n_dims == 1 && dim1 != 0) || (n_dims == 2 && dim1 == 0) {
            return false;
        }
        if scale_count != 0 && scale_count != dim0 {
            return false;
        }
        if data_offset % 64 != 0 {
            return false;
        }
        let cols: u64 = if dim1 == 0 { 1 } else { dim1 as u64 };
        assert(dim0 as u64 * cols <= 0xFFFF_FFFF * 0xFFFF_FFFF) by (nonlinear_arith)
            requires dim0 <= 0xFFFF_FFFF, cols <= 0xFFFF_FFFF;
        let rows_cols = dim0 as u64 * cols;
        if dtype == I8 {
            return false;
        }
        rows_cols > u64::MAX / 4
    }

    /// Whether every per-row scale of this record is a finite positive f32.
    pub fn scales_valid(&self, buf: &[u8]) -> (b: bool)
        requires
            self.scales_offset + 4 * self.scale_count <= buf.len(),
        ensures
            b == forall|i: int|
                0 <= i < self.scale_count ==> scale_bits_ok(
                    #[trigger] le_u32(buf@, self.scales_offset + 4 * i) as u32,
                ),
    {
        let base = self.scales_offset as usize;
        let n = self.scale_count as usize;
        let mut i: usize = 0;
        while i < n
            invariant
                base == self.scales_offset,
                n == self.scale_count,
                base + 4 * n <= buf.len(),
                i <= n,
                forall|j: int|
                    0 <= j < i ==> scale_bits_ok(
                        #[trigger] le_u32(buf@, self.scales_offset + 4 * j) as u32,
                    ),
            decreases n - i,
        {
            let bits = read_u32_le(buf, base + 4 * i);
            if !(0 < bits && bits < 0x7F80_0000) {
                assert(!scale_bits_ok(le_u32(buf@, self.scales_offset + 4 * i) as u32));
                return false;
            }
            i = i + 1;
        }
        true
    }

    /// Row length used for size arithmetic (a 1-D tensor is one column wide).
    pub fn cols(&self) -> (c: u32)
        ensures
            c == spec_cols(self.dim1),
    {
        if self.dim1 == 0 { 1 } else { self.dim1 }
    }
}


/// Offset of the `i`-th tensor record.
pub open spec fn record_offset(i: int) -> int {
    HEADER_LEN + RECORD_LEN * i
}

/// Loads the tensor directory: `n_tensors` records right after the header,
/// in file order. Fails with the error of the first record that fails.
pub fn parse_directory(buf: &[u8], h: &Header) -> (r: Result<Vec<TensorRecord>, LoadError>)
    requires
        h.n_tensors <= 3 + 8 * 16,
        forall|i: int|
            0 <= i < h.n_tensors ==> !record_size_overflows(buf@, #[trigger] record_offset(i)),
    ensures
        match r {
            Ok(recs) => {
                &&& recs@.len() == h.n_tensors
                &&& forall|i: int|
                    0 <= i < h.n_tensors ==> record_error(buf@, #[trigger] record_offset(i)) is None
                        && record_fields(recs@[i], buf@, record_offset(i))
            },
            Err(e) => exists|k: int|
                0 <= k < h.n_tensors && (forall|i: int|
                    0 <= i < k ==> record_error(buf@, #[trigger] record_offset(i)) is None)
                    && record_error(buf@, record_offset(k)) == Some(e),
        },
{
    let n = h.n_tensors as usize;
    let mut recs: Vec<TensorRecord> = Vec::new();
    let mut i: usize = 0;
    while i < n
        invariant
            n == h.n_tensors,
            n <= 3 + 8 * 16,
            i <= n,
            recs@.len() == i,
            forall|k: int|
                0 <= k < h.n_tensors ==> !record_size_overflows(buf@, #[trigger] record_offset(k)),
            forall|k: int|
                0 <= k < i ==> record_error(buf@, #[trigger] record_offset(k)) is None
                    && record_fields(recs@[k], buf@, record_offset(k)),
        decreases n - i,
    {
        let offset = HEADER_LEN + RECORD_LEN * i;
        assert(offset == record_offset(i as int));
        match TensorRecord::load(buf, offset) {
            Ok(rec) => {
                recs.push(rec);
            },
            Err(e) => {
                assert(record_error(buf@, record_offset(i as int)) == Some(e));
                return Err(e);
            },
        }
        i = i + 1;
    }
    Ok(recs)
}

/// A header that loads splits the model width evenly over the heads: each
/// head gets `d_model / n_heads` columns and none are left over.
pub proof fn law_heads_split_width(b: Seq<u8>)
    requires
        header_error(b) is None,
    ensures
        le_u32(b, 16) > 0,
        le_u32(b, 16) * (le_u32(b, 8) / le_u32(b, 16)) == le_u32(b, 8),
{
    let d = le_u32(b, 8);
    let h = le_u32(b, 16);
    vstd::arithmetic::div_mod::lemma_fundamental_div_mod(d, h);
}


/// A header that loads describes a directory with one slot for each tensor
/// the model reads: the token and position embeddings, eight per layer, and
/// the final norm as the last record.
pub proof fn law_directory_slots(b: Seq<u8>)
    requires
        header_error(b) is None,
    ensures
        2 + 8 * le_u32(b, 12) + 1 == le_u32(b, 32),
        le_u32(b, 32) <= 3 + 8 * 16,
{
}

/// A tensor record loads exactly when it lies inside the buffer, has a known
/// element type, a shape that matches its dimension count, one scale per row
/// or none, 64-byte aligned data, and both its data and its scales end inside
/// the buffer. The data takes rows x columns x element bytes, where a 1-D
/// tensor has one column and an element is one byte for int8 and four for f32;
/// each scale takes four bytes.
pub proof fn law_record_accepted(b: Seq<u8>, o: int)
    requires
        0 <= o,
        b.len() <= usize::MAX,
    ensures
        record_error(b, o) is None <==> {
            let dtype = b[o];
            let n_dims = b[o + 1];
            let rows = le_u32(b, o + 4);
            let dim1 = le_u32(b, o + 8);
            let scale_count = le_u32(b, o + 12);
            let data_offset = le_u64(b, o + 16);
            let scales_offset = le_u64(b, o + 24);
            let cols = if dim1 == 0 { 1 } else { dim1 };
            let elem_bytes = if dtype == 0 { 1int } else { 4int };
            &&& o + 32 <= b.len()
            &&& (dtype == 0 || dtype == 1)
            &&& ((n_dims == 1 && dim1 == 0) || (n_dims == 2 && dim1 != 0))
            &&& rows != 0
            &&& (scale_count == 0 || scale_count == rows)
            &&& data_offset % 64 == 0
            &&& data_offset + rows * cols * elem_bytes <= b.len()
            &&& (scale_count == 0 || scales_offset + 4 * scale_count <= b.len())
        },
{
    if o + 32 <= b.len() {
        let dim1 = le_u32(b, o + 8);
        assert(0 <= dim1 < 0x1_0000_0000);
        assert(spec_cols(dim1 as u32) == if dim1 == 0 { 1 } else { dim1 });
        assert(spec_element_size(b[o]) == if b[o] == 0 { 1int } else { 4int });
    }
}

/// Once a record's shape, scale count and alignment are sound, it is refused
/// with `DataOutOfBounds` exactly when its data runs past the end of the
/// buffer: rows x columns x element bytes, one byte per int8 element and four
/// per f32, counted from the data offset.
pub proof fn law_record_data_bound(b: Seq<u8>, o: int)
    requires
        0 <= o,
        o + 32 <= b.len(),
        b.len() <= usize::MAX,
        b[o] == 0 || b[o] == 1,
        (b[o + 1] == 1 && le_u32(b, o + 8) == 0) || (b[o + 1] == 2 && le_u32(b, o + 8) != 0),
        le_u32(b, o + 4) != 0,
        le_u32(b, o + 12) == 0 || le_u32(b, o + 12) == le_u32(b, o + 4),
        le_u64(b, o + 16) % 64 == 0,
    ensures
        record_error(b, o) == Some(LoadError::DataOutOfBounds) <==> le_u64(b, o + 16) + le_u32(
            b,
            o + 4,
        ) * (if le_u32(b, o + 8) == 0 { 1 } else { le_u32(b, o + 8) }) * (if b[o] == 0 {
            1int
        } else {
            4int
        }) > b.len(),
{
    let dim1 = le_u32(b, o + 8);
    assert(0 <= dim1 < 0x1_0000_0000);
    assert(spec_cols(dim1 as u32) == if dim1 == 0 { 1 } else { dim1 });
    assert(spec_element_size(b[o]) == if b[o] == 0 { 1int } else { 4int });
}

} // verus!
