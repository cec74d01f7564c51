//! PBRT's `tensor_file` container (measured BSDF data): its fields, with
//! names, element types, shapes and raw data.

use vstd::prelude::*;
use vstd::utf8::{valid_utf8, decode_utf8};
use crate::error::{from_utf8_lossy, lossy_utf8};
use crate::scalar::{le_u16, le_u32, le_u64, read_u16, read_u32, read_u64};

verus! {

/// Byte size of one element of the given `dtype` code (0 for unknown codes).
pub open spec fn dtype_size(dtype: u8) -> nat {
    if dtype == 1 || dtype == 2 {
        1
    } else if dtype == 3 || dtype == 4 {
        2
    } else if dtype == 5 || dtype == 6 {
        4
    } else if dtype == 7 || dtype == 8 {
        8
    } else if dtype == 9 {
        2
    } else if dtype == 10 {
        4
    } else if dtype == 11 {
        8
    } else {
        0
    }
}

/// Byte size of one element of the given `dtype` code: `u8`/`i8` 1,
/// `u16`/`i16` 2, `u32`/`i32` 4, `u64`/`i64` 8, `f16` 2, `f32` 4, `f64` 8,
/// unknown codes 0.
pub fn type_size(dtype: u8) -> (n: usize)
    ensures
        n == dtype_size(dtype),
{
    match dtype {
        1 | 2 => 1,
        3 | 4 => 2,
        5 | 6 => 4,
        7 | 8 => 8,
        9 => 2,
        10 => 4,
        11 => 8,
        _ => 0,
    }
}

/// Why a tensor file gives no fields.
#[derive(Clone, Copy, Debug, PartialEq, Eq, Structural)]
pub enum TensorError {
    /// The file is not a version 1.0 tensor file, or ends early.
    Malformed,
    /// A field's byte size does not fit in `usize`.
    SizeOverflow,
}

/// One field of a tensor file. Its name is the name's bytes decoded as
/// UTF-8, with each invalid sequence replaced by U+FFFD.
#[derive(Debug)]
pub struct TensorField {
    pub name: String,
    pub dtype: u8,
    pub shape: Vec<u64>,
    pub data: Vec<u8>,
}

/// The mathematical value of a field.
pub struct FieldSpec {
    pub name: Seq<char>,
    pub dtype: u8,
    pub shape: Seq<u64>,
    pub data: Seq<u8>,
}

impl View for TensorField {
    type V = FieldSpec;

    open spec fn view(&self) -> FieldSpec {
        FieldSpec { name: self.name@, dtype: self.dtype, shape: self.shape@, data: self.data@ }
    }
}

pub open spec fn fields_view(v: Seq<TensorField>) -> Seq<FieldSpec> {
    v.map_values(|f: TensorField| f@)
}

/// `tensor_file` followed by a zero byte.
pub open spec fn magic() -> Seq<u8> {
    seq![0x74u8, 0x65, 0x6e, 0x73, 0x6f, 0x72, 0x5f, 0x66, 0x69, 0x6c, 0x65, 0x00]
}

/// The text of a field name: its bytes decoded as UTF-8 where they are
/// valid, else as `String::from_utf8_lossy` decodes them (each invalid
/// sequence replaced by U+FFFD).
pub open spec fn name_text(bytes: Seq<u8>) -> Seq<char> {
    if valid_utf8(bytes) {
        decode_utf8(bytes)
    } else {
        lossy_utf8(bytes)
    }
}

/// Reads the first `k` dimensions at `pos`, with the running byte size
/// (element size times the dimensions so far).
pub open spec fn shape_read(b: Seq<u8>, pos: int, dtype: u8, k: nat) -> Result<
    (Seq<u64>, nat),
    TensorError,
>
    decreases k,
{
    if k == 0 {
        Ok((seq![], dtype_size(dtype)))
    } else {
        match shape_read(b, pos, dtype, (k - 1) as nat) {
            Ok((dims, total)) => if pos + 8 * k > b.len() {
                Err(TensorError::Malformed)
            } else {
                let d = le_u64(b, pos + 8 * (k - 1));
                let t: nat = total * ((d as usize) as nat);
                if t > usize::MAX {
                    Err(TensorError::SizeOverflow)
                } else {
                    Ok((dims.push(d), t))
                }
            },
            Err(e) => Err(e),
        }
    }
}

/// Reads the field whose record starts at `p`; gives it and the position
/// of the next record.
pub open spec fn field_at(b: Seq<u8>, p: int) -> Result<(FieldSpec, int), TensorError> {
    if p + 2 > b.len() {
        Err(TensorError::Malformed)
    } else {
        let q = p + 2 + le_u16(b, p);
        if q + 11 > b.len() {
            Err(TensorError::Malformed)
        } else {
            let ndim = le_u16(b, q);
            let dtype = b[q + 2];
            let offset = le_u64(b, q + 3);
            match shape_read(b, q + 11, dtype, ndim as nat) {
                Err(e) => Err(e),
                Ok((shape, total)) => if offset > i64::MAX || (total > 0 && offset + total > b.len()) {
                    Err(TensorError::Malformed)
                } else {
                    Ok(
                        (
                            FieldSpec {
                                name: name_text(b.subrange(p + 2, q)),
                                dtype: dtype,
                                shape: shape,
                                data: if total == 0 {
                                    seq![]
                                } else {
                                    b.subrange(offset as int, offset + total)
                                },
                            },
                            q + 11 + 8 * ndim,
                        ),
                    )
                },
            }
        }
    }
}

/// Reads the first `k` field records, starting at `pos`.
pub open spec fn fields_read(b: Seq<u8>, pos: int, k: nat) -> Result<(Seq<FieldSpec>, int), TensorError>
    decreases k,
{
    if k == 0 {
        Ok((seq![], pos))
    } else {
        match fields_read(b, pos, (k - 1) as nat) {
            Ok((fs, p)) => match field_at(b, p) {
                Ok((f, q)) => Ok((fs.push(f), q)),
                Err(e) => Err(e),
            },
            Err(e) => Err(e),
        }
    }
}

/// The fields of a tensor file, in file order: after the magic bytes and
/// version 1.0, a `u32` field count and that many field records.
pub open spec fn tensor_of(b: Seq<u8>) -> Result<Seq<FieldSpec>, TensorError> {
    if b.len() < 18 || b.subrange(0, 12) != magic() || b[12] != 1 || b[13] != 0 {
        Err(TensorError::Malformed)
    } else {
        match fields_read(b, 18, le_u32(b, 14) as nat) {
            Ok((fs, _)) => Ok(fs),
            Err(e) => Err(e),
        }
    }
}

proof fn lemma_shape_fail(b: Seq<u8>, pos: int, dtype: u8, k: nat, m: nat)
    requires
        k <= m,
        shape_read(b, pos, dtype, k) is Err,
    ensures
        shape_read(b, pos, dtype, m) == shape_read(b, pos, dtype, k),
    decreases m,
{
    if k < m {
        lemma_shape_fail(b, pos, dtype, k, (m - 1) as nat);
    }
}

proof fn lemma_fields_fail(b: Seq<u8>, pos: int, k: nat, m: nat)
    requires
        k <= m,
        fields_read(b, pos, k) is Err,
    ensures
        fields_read(b, pos, m) == fields_read(b, pos, k),
    decreases m,
{
    if k < m {
        lemma_fields_fail(b, pos, k, (m - 1) as nat);
    }
}

fn copy_range(b: &[u8], from: usize, to: usize) -> (v: Vec<u8>)
    requires
        from <= to <= b@.len(),
    ensures
        v@ == b@.subrange(from as int, to as int),
{
    let mut v: Vec<u8> = Vec::new();
    let mut i = from;
    while i < to
        invariant
            from <= i <= to <= b@.len(),
            v@ == b@.subrange(from as int, i as int),
        decreases to - i,
    {
        v.push(b[i]);
        assert(v@ =~= b@.subrange(from as int, i + 1));
        i = i + 1;
    }
    v
}

/// Reads the field record that starts at `p`.
fn read_field(b: &[u8], p: usize) -> (r: Result<(TensorField, usize), TensorError>)
    ensures
        match field_at(b@, p as int) {
            Ok((f, q)) => r matches Ok((g, n)) && g@ == f && n == q && q <= b@.len(),
            Err(e) => r == Err::<(TensorField, usize), TensorError>(e),
        },
{
    let blen = b.len();
    if p > blen || blen - p < 2 {
        return Err(TensorError::Malformed);
    }
    let name_len = read_u16(b, p) as usize;
    if blen - (p + 2) < name_len || blen - (p + 2 + name_len) < 11 {
        return Err(TensorError::Malformed);
    }
    let q = p + 2 + name_len;
    let name = from_utf8_lossy(&b[p + 2..q]);
    let ndim = read_u16(b, q);
    let dtype = b[q + 2];
    let offset = read_u64(b, q + 3);
    let dpos = q + 11;
    let mut shape: Vec<u64> = Vec::new();
    let mut total: usize = type_size(dtype);
    let mut k: u16 = 0;
    while k < ndim
        invariant
            blen == b@.len(),
            p + 2 <= b@.len(),
            q == p + 2 + le_u16(b@, p as int),
            q + 11 <= b@.len(),
            dpos == q + 11,
            ndim == le_u16(b@, q as int),
            dtype == b@[q + 2],
            offset == le_u64(b@, q + 3),
            name@ == name_text(b@.subrange(p + 2, q as int)),
            k <= ndim,
            shape_read(b@, dpos as int, dtype, k as nat) == Ok::<(Seq<u64>, nat), TensorError>(
                (shape@, total as nat),
            ),
        decreases ndim - k,
    {
        if blen - dpos < 8 * (k as usize + 1) {
            proof {
                lemma_shape_fail(b@, dpos as int, dtype, (k + 1) as nat, ndim as nat);
            }
            return Err(TensorError::Malformed);
        }
        let d = read_u64(b, dpos + 8 * k as usize);
        match total.checked_mul(d as usize) {
            Some(t) => {
                total = t;
            },
            None => {
                proof {
                    lemma_shape_fail(b@, dpos as int, dtype, (k + 1) as nat, ndim as nat);
                }
                return Err(TensorError::SizeOverflow);
            },
        }
        shape.push(d);
        k = k + 1;
    }
    let next = dpos + 8 * ndim as usize;
    if offset > i64::MAX as u64 {
        return Err(TensorError::Malformed);
    }
    let data = if total == 0 {
        Vec::new()
    } else {
        if offset > blen as u64 || blen - (offset as usize) < total {
            return Err(TensorError::Malformed);
        }
        copy_range(b, offset as usize, offset as usize + total)
    };
    proof {
        if total == 0 {
            assert(data@ =~= seq![]);
        }
    }
    Ok((TensorField { name, dtype, shape, data }, next))
}

/// Reads the fields of a tensor file from its bytes, in file order.
pub fn parse_tensor_file(b: &[u8]) -> (r: Result<Vec<TensorField>, TensorError>)
    ensures
        match tensor_of(b@) {
            Ok(fs) => r matches Ok(v) && fields_view(v@) == fs,
            Err(e) => r == Err::<Vec<TensorField>, TensorError>(e),
        },
{
    let blen = b.len();
    if blen < 18 || b[0] != 0x74 || b[1] != 0x65 || b[2] != 0x6e || b[3] != 0x73 || b[4] != 0x6f
        || b[5] != 0x72 || b[6] != 0x5f || b[7] != 0x66 || b[8] != 0x69 || b[9] != 0x6c || b[10]
        != 0x65 || b[11] != 0x00 || b[12] != 1 || b[13] != 0 {
        proof {
            if blen >= 18 && b@.subrange(0, 12) == magic() {
                assert(b@[0] == b@.subrange(0, 12)[0]);
                assert(b@[1] == b@.subrange(0, 12)[1]);
                assert(b@[2] == b@.subrange(0, 12)[2]);
                assert(b@[3] == b@.subrange(0, 12)[3]);
                assert(b@[4] == b@.subrange(0, 12)[4]);
                assert(b@[5] == b@.subrange(0, 12)[5]);
                assert(b@[6] == b@.subrange(0, 12)[6]);
                assert(b@[7] == b@.subrange(0, 12)[7]);
                assert(b@[8] == b@.subrange(0, 12)[8]);
                assert(b@[9] == b@.subrange(0, 12)[9]);
                assert(b@[10] == b@.subrange(0, 12)[10]);
                assert(b@[11] == b@.subrange(0, 12)[11]);
            }
        }
        return Err(TensorError::Malformed);
    }
    assert(b@.subrange(0, 12) =~= magic());
    let n = read_u32(b, 14);
    let mut fields: Vec<TensorField> = Vec::new();
    let mut pos: usize = 18;
    let mut i: u32 = 0;
    assert(fields_view(fields@) =~= seq![]);
    while i < n
        invariant
            blen == b@.len(),
            b@.len() >= 18,
            b@.subrange(0, 12) == magic(),
            b@[12] == 1 && b@[13] == 0,
            n == le_u32(b@, 14),
            pos <= b@.len(),
            i <= n,
            fields_read(b@, 18, i as nat) == Ok::<(Seq<FieldSpec>, int), TensorError>(
                (fields_view(fields@), pos as int),
            ),
        decreases n - i,
    {
        match read_field(b, pos) {
            Ok((f, q)) => {
                let ghost before = fields@;
                fields.push(f);
                assert(fields_view(fields@) =~= fields_view(before).push(f@));
                pos = q;
            },
            Err(e) => {
                proof {
                    lemma_fields_fail(b@, 18, (i + 1) as nat, n as nat);
                }
                return Err(e);
            },
        }
        i = i + 1;
    }
    Ok(fields)
}

/// The position of the last field called `name`: the one that a map keyed
/// by name keeps when fields are inserted in file order.
pub open spec fn last_named(fs: Seq<FieldSpec>, name: Seq<char>) -> Option<int>
    decreases fs.len(),
{
    if fs.len() == 0 {
        None
    } else if fs.last().name == name {
        Some(fs.len() - 1)
    } else {
        last_named(fs.drop_last(), name)
    }
}

/// Finds the field called `name` (names compared as decoded text), the
/// last one when several share it.
pub fn find_field(fields: &Vec<TensorField>, name: &str) -> (r: Option<usize>)
    ensures
        match last_named(fields_view(fields@), name@) {
            Some(i) => r == Some(i as usize),
            None => r is None,
        },
{
    let ghost v = fields_view(fields@);
    let key = String::from_str(name);
    let mut i = fields.len();
    assert(v.subrange(0, v.len() as int) =~= v);
    while i > 0
        invariant
            v == fields_view(fields@),
            key@ == name@,
            i <= fields@.len(),
            last_named(v, name@) == last_named(v.subrange(0, i as int), name@),
        decreases i,
    {
        assert(v.subrange(0, i as int).last() == fields@[i - 1]@);
        if fields[i - 1].name == key {
            return Some(i - 1);
        }
        assert(v.subrange(0, i as int).drop_last() =~= v.subrange(0, i - 1));
        i = i - 1;
    }
    None
}

/// The elements of a floating-point field, as IEEE-754 bit patterns.
#[derive(Debug)]
pub enum FloatWords {
    /// `dtype` 10: little-endian `f32` words.
    F32(Vec<u32>),
    /// `dtype` 11: little-endian `f64` words.
    F64(Vec<u64>),
    /// Any other `dtype`.
    NotFloat,
}

/// The `f32` words of `data`, as `chunks_exact(4)` cuts it.
pub open spec fn words32(data: Seq<u8>) -> Seq<u32> {
    Seq::new(data.len() / 4, |i: int| le_u32(data, 4 * i))
}

/// The `f64` words of `data`, as `chunks_exact(8)` cuts it.
pub open spec fn words64(data: Seq<u8>) -> Seq<u64> {
    Seq::new(data.len() / 8, |i: int| le_u64(data, 8 * i))
}

/// Splits a float field into its words; a trailing partial word is left out.
pub fn float_words(f: &TensorField) -> (r: FloatWords)
    ensures
        f.dtype == 10 ==> (r matches FloatWords::F32(w) && w@ == words32(f.data@)),
        f.dtype == 11 ==> (r matches FloatWords::F64(w) && w@ == words64(f.data@)),
        f.dtype != 10 && f.dtype != 11 ==> r is NotFloat,
{
    let n = f.data.len();
    if f.dtype == 10 {
        let mut w: Vec<u32> = Vec::new();
        let mut i: usize = 0;
        while i < n / 4
            invariant
                n == f.data@.len(),
                i <= n / 4,
                w@ == words32(f.data@).subrange(0, i as int),
            decreases n / 4 - i,
        {
            w.push(read_u32(f.data.as_slice(), 4 * i));
            assert(w@ =~= words32(f.data@).subrange(0, i + 1));
            i = i + 1;
        }
        assert(w@ =~= words32(f.data@));
        FloatWords::F32(w)
    } else if f.dtype == 11 {
        let mut w: Vec<u64> = Vec::new();
        let mut i: usize = 0;
        while i < n / 8
            invariant
                n == f.data@.len(),
                i <= n / 8,
                w@ == words64(f.data@).subrange(0, i as int),
            decreases n / 8 - i,
        {
            w.push(read_u64(f.data.as_slice(), 8 * i));
            assert(w@ =~= words64(f.data@).subrange(0, i + 1));
            i = i + 1;
        }
        assert(w@ =~= words64(f.data@));
        FloatWords::F64(w)
    } else {
        FloatWords::NotFloat
    }
}

/// The product of the dimensions of a shape, each taken as `usize`.
pub open spec fn shape_product(shape: Seq<u64>) -> nat
    decreases shape.len(),
{
    if shape.len() == 0 {
        1
    } else {
        shape_product(shape.drop_last()) * ((shape.last() as usize) as nat)
    }
}

/// A field whose data holds one element of its type per entry of its shape.
pub open spec fn field_sized(f: FieldSpec) -> bool {
    f.data.len() == dtype_size(f.dtype) * shape_product(f.shape)
}

proof fn lemma_shape_read_size(b: Seq<u8>, pos: int, dtype: u8, k: nat)
    ensures
        shape_read(b, pos, dtype, k) matches Ok((dims, total)) ==> dims.len() == k && total
            == dtype_size(dtype) * shape_product(dims),
    decreases k,
{
    if k > 0 {
        lemma_shape_read_size(b, pos, dtype, (k - 1) as nat);
        match shape_read(b, pos, dtype, (k - 1) as nat) {
            Ok((dims, total)) => {
                if pos + 8 * k <= b.len() {
                    let d = le_u64(b, pos + 8 * (k - 1));
                    let nd = dims.push(d);
                    assert(nd.drop_last() =~= dims);
                    let s = dtype_size(dtype);
                    let p = shape_product(dims);
                    let dd = (d as usize) as nat;
                    assert(s * p * dd == s * (p * dd)) by (nonlinear_arith);
                }
            },
            Err(_) => {},
        }
    }
}

proof fn lemma_field_at_sized(b: Seq<u8>, p: int)
    ensures
        field_at(b, p) matches Ok((f, _)) ==> field_sized(f),
{
    if p + 2 <= b.len() {
        let q = p + 2 + le_u16(b, p);
        if q + 11 <= b.len() {
            lemma_shape_read_size(b, q + 11, b[q + 2], le_u16(b, q) as nat);
        }
    }
}

proof fn lemma_fields_read_sized(b: Seq<u8>, pos: int, k: nat)
    ensures
        fields_read(b, pos, k) matches Ok((fs, _)) ==> fs.len() == k && forall|i: int|
            0 <= i < fs.len() ==> field_sized(#[trigger] fs[i]),
    decreases k,
{
    if k > 0 {
        lemma_fields_read_sized(b, pos, (k - 1) as nat);
        match fields_read(b, pos, (k - 1) as nat) {
            Ok((fs, p)) => {
                lemma_field_at_sized(b, p);
            },
            Err(_) => {},
        }
    }
}

/// A tensor file holds as many fields as its header counts, and each
/// field's data is its element size times the product of its shape.
pub proof fn law_fields_match_header(b: Seq<u8>)
    ensures
        tensor_of(b) matches Ok(fs) ==> fs.len() == le_u32(b, 14) && forall|i: int|
            0 <= i < fs.len() ==> field_sized(#[trigger] fs[i]),
{
    if b.len() >= 18 {
        lemma_fields_read_sized(b, 18, le_u32(b, 14) as nat);
    }
}

/// The element widths of the tensor file's types: codes 1 and 2 (`u8`,
/// `i8`) one byte, 3, 4 and 9 (`u16`, `i16`, `f16`) two, 5, 6 and 10
/// (`u32`, `i32`, `f32`) four, 7, 8 and 11 (`u64`, `i64`, `f64`) eight;
/// every other code none.
pub proof fn law_dtype_widths(d: u8)
    ensures
        dtype_size(d) == 1 <==> (d == 1 || d == 2),
        dtype_size(d) == 2 <==> (d == 3 || d == 4 || d == 9),
        dtype_size(d) == 4 <==> (d == 5 || d == 6 || d == 10),
        dtype_size(d) == 8 <==> (d == 7 || d == 8 || d == 11),
        dtype_size(d) == 0 <==> (d == 0 || d > 11),
{
}

} // verus!
