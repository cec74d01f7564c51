//! OptiX result codes as a Rust error type, and the helpers that turn raw
//! codes and raw compiler-log buffers into library values.

use vstd::prelude::*;
use vstd::utf8::{valid_utf8, decode_utf8};

verus! {

/// The value of `OptixResult` that reports success.
pub const OPTIX_SUCCESS: i32 = 0;

/// All OptiX error codes as a proper Rust enum.
#[derive(Debug, Clone, Copy, PartialEq, Eq, Structural)]
#[non_exhaustive]
pub enum OptixError {
    InvalidValue,
    HostOutOfMemory,
    InvalidOperation,
    FileIoError,
    InvalidFileFormat,
    DiskCacheInvalidPath,
    DiskCachePermissionError,
    DiskCacheDatabaseError,
    DiskCacheInvalidData,
    LaunchFailure,
    InvalidDeviceContext,
    CudaNotInitialized,
    ValidationFailure,
    InvalidInput,
    InvalidLaunchParameter,
    InvalidPayloadAccess,
    InvalidAttributeAccess,
    InvalidFunctionUse,
    InvalidFunctionArguments,
    PipelineOutOfConstantMemory,
    PipelineLinkError,
    IllegalDuringTaskExecute,
    InternalCompilerError,
    DenoiserModelNotSet,
    DenoiserNotInitialized,
    NotCompatible,
    PayloadTypeMismatch,
    PayloadTypeResolutionFailed,
    PayloadTypeIdInvalid,
    NotSupported,
    UnsupportedAbiVersion,
    FunctionTableSizeMismatch,
    InvalidEntryFunctionOptions,
    LibraryNotFound,
    EntrySymbolNotFound,
    LibraryUnloadFailure,
    DeviceOutOfMemory,
    InvalidPointer,
    CudaError,
    InternalError,
    Unknown(i32),
}

/// The raw `OptixResult` code that each error stands for; an `Unknown`
/// error carries its code.
pub open spec fn code_of(e: OptixError) -> i32 {
    match e {
        OptixError::InvalidValue => 7001i32,
        OptixError::HostOutOfMemory => 7002i32,
        OptixError::InvalidOperation => 7003i32,
        OptixError::FileIoError => 7004i32,
        OptixError::InvalidFileFormat => 7005i32,
        OptixError::DiskCacheInvalidPath => 7010i32,
        OptixError::DiskCachePermissionError => 7011i32,
        OptixError::DiskCacheDatabaseError => 7012i32,
        OptixError::DiskCacheInvalidData => 7013i32,
        OptixError::LaunchFailure => 7050i32,
        OptixError::InvalidDeviceContext => 7051i32,
        OptixError::CudaNotInitialized => 7052i32,
        OptixError::ValidationFailure => 7053i32,
        OptixError::InvalidInput => 7200i32,
        OptixError::InvalidLaunchParameter => 7201i32,
        OptixError::InvalidPayloadAccess => 7202i32,
        OptixError::InvalidAttributeAccess => 7203i32,
        OptixError::InvalidFunctionUse => 7204i32,
        OptixError::InvalidFunctionArguments => 7205i32,
        OptixError::PipelineOutOfConstantMemory => 7250i32,
        OptixError::PipelineLinkError => 7251i32,
        OptixError::IllegalDuringTaskExecute => 7270i32,
        OptixError::InternalCompilerError => 7299i32,
        OptixError::DenoiserModelNotSet => 7300i32,
        OptixError::DenoiserNotInitialized => 7301i32,
        OptixError::NotCompatible => 7400i32,
        OptixError::PayloadTypeMismatch => 7500i32,
        OptixError::PayloadTypeResolutionFailed => 7501i32,
        OptixError::PayloadTypeIdInvalid => 7502i32,
        OptixError::NotSupported => 7800i32,
        OptixError::UnsupportedAbiVersion => 7801i32,
        OptixError::FunctionTableSizeMismatch => 7802i32,
        OptixError::InvalidEntryFunctionOptions => 7803i32,
        OptixError::LibraryNotFound => 7804i32,
        OptixError::EntrySymbolNotFound => 7805i32,
        OptixError::LibraryUnloadFailure => 7806i32,
        OptixError::DeviceOutOfMemory => 7807i32,
        OptixError::InvalidPointer => 7808i32,
        OptixError::CudaError => 7900i32,
        OptixError::InternalError => 7990i32,
        OptixError::Unknown(code) => code,
    }
}

/// `e` is the error that the raw code `code` decodes to: the named variant
/// whose code it is, or `Unknown(code)` when no named variant has that code.
pub open spec fn decodes_to(code: i32, e: OptixError) -> bool {
    &&& code_of(e) == code
    &&& (e is Unknown ==> forall|n: OptixError| !(n is Unknown) ==> code_of(n) != code)
}

/// The text that `Display` writes for an error.
pub open spec fn message_of(e: OptixError) -> Seq<char> {
    match e {
        OptixError::InvalidValue => "invalid value"@,
        OptixError::HostOutOfMemory => "host out of memory"@,
        OptixError::InvalidOperation => "invalid operation"@,
        OptixError::FileIoError => "file I/O error"@,
        OptixError::InvalidFileFormat => "invalid file format"@,
        OptixError::DiskCacheInvalidPath => "disk cache invalid path"@,
        OptixError::DiskCachePermissionError => "disk cache permission error"@,
        OptixError::DiskCacheDatabaseError => "disk cache database error"@,
        OptixError::DiskCacheInvalidData => "disk cache invalid data"@,
        OptixError::LaunchFailure => "launch failure"@,
        OptixError::InvalidDeviceContext => "invalid device context"@,
        OptixError::CudaNotInitialized => "CUDA not initialized"@,
        OptixError::ValidationFailure => "validation failure"@,
        OptixError::InvalidInput => "invalid input"@,
        OptixError::InvalidLaunchParameter => "invalid launch parameter"@,
        OptixError::InvalidPayloadAccess => "invalid payload access"@,
        OptixError::InvalidAttributeAccess => "invalid attribute access"@,
        OptixError::InvalidFunctionUse => "invalid function use"@,
        OptixError::InvalidFunctionArguments => "invalid function arguments"@,
        OptixError::PipelineOutOfConstantMemory => "pipeline out of constant memory"@,
        OptixError::PipelineLinkError => "pipeline link error"@,
        OptixError::IllegalDuringTaskExecute => "illegal during task execute"@,
        OptixError::InternalCompilerError => "internal compiler error"@,
        OptixError::DenoiserModelNotSet => "denoiser model not set"@,
        OptixError::DenoiserNotInitialized => "denoiser not initialized"@,
        OptixError::NotCompatible => "not compatible"@,
        OptixError::PayloadTypeMismatch => "payload type mismatch"@,
        OptixError::PayloadTypeResolutionFailed => "payload type resolution failed"@,
        OptixError::PayloadTypeIdInvalid => "payload type ID invalid"@,
        OptixError::NotSupported => "not supported"@,
        OptixError::UnsupportedAbiVersion => "unsupported ABI version"@,
        OptixError::FunctionTableSizeMismatch => "function table size mismatch"@,
        OptixError::InvalidEntryFunctionOptions => "invalid entry function options"@,
        OptixError::LibraryNotFound => "library not found"@,
        OptixError::EntrySymbolNotFound => "entry symbol not found"@,
        OptixError::LibraryUnloadFailure => "library unload failure"@,
        OptixError::DeviceOutOfMemory => "device out of memory"@,
        OptixError::InvalidPointer => "invalid pointer"@,
        OptixError::CudaError => "CUDA error"@,
        OptixError::InternalError => "internal error"@,
        OptixError::Unknown(code) => "unknown OptiX error ("@ + decimal_i32(code) + ")"@,
    }
}

/// The decimal digit character for `d < 10`.
pub open spec fn digit_char(d: nat) -> char {
    ((d + 48) as u32) as char
}

/// The decimal digits of `n`, most significant first, without leading zeros.
pub open spec fn decimal_nat(n: nat) -> Seq<char>
    decreases n,
{
    if n < 10 {
        seq![digit_char(n)]
    } else {
        decimal_nat(n / 10).push(digit_char(n % 10))
    }
}

/// The decimal text of a signed integer, as `{}` formats it.
pub open spec fn decimal_i32(v: i32) -> Seq<char> {
    if v < 0 {
        seq!['-'] + decimal_nat((-v) as nat)
    } else {
        decimal_nat(v as nat)
    }
}

impl OptixError {
    /// Decodes a raw `OptixResult` code.
    pub fn from_raw(code: i32) -> (e: OptixError)
        ensures
            decodes_to(code, e),
    {
        match code {
            7001i32 => OptixError::InvalidValue,
            7002i32 => OptixError::HostOutOfMemory,
            7003i32 => OptixError::InvalidOperation,
            7004i32 => OptixError::FileIoError,
            7005i32 => OptixError::InvalidFileFormat,
            7010i32 => OptixError::DiskCacheInvalidPath,
            7011i32 => OptixError::DiskCachePermissionError,
            7012i32 => OptixError::DiskCacheDatabaseError,
            7013i32 => OptixError::DiskCacheInvalidData,
            7050i32 => OptixError::LaunchFailure,
            7051i32 => OptixError::InvalidDeviceContext,
            7052i32 => OptixError::CudaNotInitialized,
            7053i32 => OptixError::ValidationFailure,
            7200i32 => OptixError::InvalidInput,
            7201i32 => OptixError::InvalidLaunchParameter,
            7202i32 => OptixError::InvalidPayloadAccess,
            7203i32 => OptixError::InvalidAttributeAccess,
            7204i32 => OptixError::InvalidFunctionUse,
            7205i32 => OptixError::InvalidFunctionArguments,
            7250i32 => OptixError::PipelineOutOfConstantMemory,
            7251i32 => OptixError::PipelineLinkError,
            7270i32 => OptixError::IllegalDuringTaskExecute,
            7299i32 => OptixError::InternalCompilerError,
            7300i32 => OptixError::DenoiserModelNotSet,
            7301i32 => OptixError::DenoiserNotInitialized,
            7400i32 => OptixError::NotCompatible,
            7500i32 => OptixError::PayloadTypeMismatch,
            7501i32 => OptixError::PayloadTypeResolutionFailed,
            7502i32 => OptixError::PayloadTypeIdInvalid,
            7800i32 => OptixError::NotSupported,
            7801i32 => OptixError::UnsupportedAbiVersion,
            7802i32 => OptixError::FunctionTableSizeMismatch,
            7803i32 => OptixError::InvalidEntryFunctionOptions,
            7804i32 => OptixError::LibraryNotFound,
            7805i32 => OptixError::EntrySymbolNotFound,
            7806i32 => OptixError::LibraryUnloadFailure,
            7807i32 => OptixError::DeviceOutOfMemory,
            7808i32 => OptixError::InvalidPointer,
            7900i32 => OptixError::CudaError,
            7990i32 => OptixError::InternalError,
            other => OptixError::Unknown(other),
        }
    }

    /// The human-readable description of the error, the text that its
    /// `Display` form shows.
    pub fn message(&self) -> (s: String)
        ensures
            s@ == message_of(*self),
    {
        match self {
            OptixError::InvalidValue => String::from_str("invalid value"),
            OptixError::HostOutOfMemory => String::from_str("host out of memory"),
            OptixError::InvalidOperation => String::from_str("invalid operation"),
            OptixError::FileIoError => String::from_str("file I/O error"),
            OptixError::InvalidFileFormat => String::from_str("invalid file format"),
            OptixError::DiskCacheInvalidPath => String::from_str("disk cache invalid path"),
            OptixError::DiskCachePermissionError => String::from_str("disk cache permission error"),
            OptixError::DiskCacheDatabaseError => String::from_str("disk cache database error"),
            OptixError::DiskCacheInvalidData => String::from_str("disk cache invalid data"),
            OptixError::LaunchFailure => String::from_str("launch failure"),
            OptixError::InvalidDeviceContext => String::from_str("invalid device context"),
            OptixError::CudaNotInitialized => String::from_str("CUDA not initialized"),
            OptixError::ValidationFailure => String::from_str("validation failure"),
            OptixError::InvalidInput => String::from_str("invalid input"),
            OptixError::InvalidLaunchParameter => String::from_str("invalid launch parameter"),
            OptixError::InvalidPayloadAccess => String::from_str("invalid payload access"),
            OptixError::InvalidAttributeAccess => String::from_str("invalid attribute access"),
            OptixError::InvalidFunctionUse => String::from_str("invalid function use"),
            OptixError::InvalidFunctionArguments => String::from_str("invalid function arguments"),
            OptixError::PipelineOutOfConstantMemory => String::from_str("pipeline out of constant memory"),
            OptixError::PipelineLinkError => String::from_str("pipeline link error"),
            OptixError::IllegalDuringTaskExecute => String::from_str("illegal during task execute"),
            OptixError::InternalCompilerError => String::from_str("internal compiler error"),
            OptixError::DenoiserModelNotSet => String::from_str("denoiser model not set"),
            OptixError::DenoiserNotInitialized => String::from_str("denoiser not initialized"),
            OptixError::NotCompatible => String::from_str("not compatible"),
            OptixError::PayloadTypeMismatch => String::from_str("payload type mismatch"),
            OptixError::PayloadTypeResolutionFailed => String::from_str("payload type resolution failed"),
            OptixError::PayloadTypeIdInvalid => String::from_str("payload type ID invalid"),
            OptixError::NotSupported => String::from_str("not supported"),
            OptixError::UnsupportedAbiVersion => String::from_str("unsupported ABI version"),
            OptixError::FunctionTableSizeMismatch => String::from_str("function table size mismatch"),
            OptixError::InvalidEntryFunctionOptions => String::from_str("invalid entry function options"),
            OptixError::LibraryNotFound => String::from_str("library not found"),
            OptixError::EntrySymbolNotFound => String::from_str("entry symbol not found"),
            OptixError::LibraryUnloadFailure => String::from_str("library unload failure"),
            OptixError::DeviceOutOfMemory => String::from_str("device out of memory"),
            OptixError::InvalidPointer => String::from_str("invalid pointer"),
            OptixError::CudaError => String::from_str("CUDA error"),
            OptixError::InternalError => String::from_str("internal error"),
            OptixError::Unknown(code) => {
                let mut s = String::from_str("unknown OptiX error (");
                let digits = format_i32(*code);
                s.append(digits.as_str());
                s.append(")");
                s
            },
        }
    }
}

/// Decoding is a function: a raw code decodes to one error only.
pub proof fn law_decoding_is_unique(code: i32, e1: OptixError, e2: OptixError)
    requires
        decodes_to(code, e1),
        decodes_to(code, e2),
    ensures
        e1 == e2,
{
}

/// Decoding the code of a named error gives that error back: whatever
/// `from_raw(code_of(e))` returns is `e`.
pub proof fn law_named_code_roundtrip(e: OptixError, r: OptixError)
    requires
        !(e is Unknown),
        decodes_to(code_of(e), r),
    ensures
        r == e,
{
    law_decoding_is_unique(code_of(e), e, r);
}

/// Appends one character to a string.
#[verifier::external_body]
fn string_push(s: &mut String, c: char)
    ensures
        final(s)@ == old(s)@.push(c),
{
    s.push(c);
}

/// The decimal text of `v`.
pub fn format_i32(v: i32) -> (s: String)
    ensures
        s@ == decimal_i32(v),
{
    let mut s = String::new();
    let neg = v < 0;
    let mag: u32 = if neg {
        (-(v as i64)) as u32
    } else {
        v as u32
    };
    if neg {
        string_push(&mut s, '-');
    }
    let ghost prefix = s@;
    // Collect the digits least significant first.
    let mut rev: Vec<char> = Vec::new();
    let mut n = mag;
    while n >= 10
        invariant
            n <= mag,
            decimal_nat(mag as nat) == decimal_nat(n as nat) + rev@.reverse(),
        decreases n,
    {
        let d = n % 10;
        let c = ((d + 48) as u8) as char;
        assert(c == digit_char(d as nat));
        let ghost old_rev = rev@;
        rev.push(c);
        assert(rev@.reverse() =~= seq![c] + old_rev.reverse());
        assert(decimal_nat(n as nat) == decimal_nat((n / 10) as nat).push(c));
        n = n / 10;
    }
    let c = ((n + 48) as u8) as char;
    assert(c == digit_char(n as nat));
    let ghost old_rev = rev@;
    rev.push(c);
    assert(rev@.reverse() =~= seq![c] + old_rev.reverse());
    let mut i = rev.len();
    while i > 0
        invariant
            i <= rev.len(),
            s@ == prefix + rev@.subrange(i as int, rev.len() as int).reverse(),
        decreases i,
    {
        i = i - 1;
        string_push(&mut s, rev[i]);
        assert(rev@.subrange(i as int, rev.len() as int).reverse() =~= rev@.subrange(
            i + 1,
            rev.len() as int,
        ).reverse().push(rev@[i as int]));
    }
    assert(rev@.subrange(0, rev.len() as int) =~= rev@);
    s
}

/// Wraps a value alongside its OptiX compilation/link log.
#[derive(Debug)]
pub struct WithLog<T> {
    pub value: T,
    pub log: String,
}

/// Checks an `OptixResult` code: success gives `Ok(())`, any other code the
/// error it decodes to.
pub fn check(result: i32) -> (r: Result<(), OptixError>)
    ensures
        result == OPTIX_SUCCESS ==> r is Ok,
        result != OPTIX_SUCCESS ==> (r matches Err(e) && decodes_to(result, e)),
{
    if result == OPTIX_SUCCESS {
        Ok(())
    } else {
        Err(OptixError::from_raw(result))
    }
}

/// What `String::from_utf8_lossy` makes of `bytes`: the characters they
/// encode, with each invalid sequence replaced by U+FFFD.
pub uninterp spec fn lossy_utf8(bytes: Seq<u8>) -> Seq<char>;

/// `String::from_utf8_lossy`, owned. The contract names the result and
/// states what the documentation promises for valid UTF-8 (the characters
/// that it encodes); how invalid sequences are replaced is left unsaid.
#[verifier::external_body]
pub(crate) fn from_utf8_lossy(bytes: &[u8]) -> (s: String)
    ensures
        s@ == lossy_utf8(bytes@),
        valid_utf8(bytes@) ==> s@ == decode_utf8(bytes@),
{
    String::from_utf8_lossy(bytes).to_string()
}

/// The number of log bytes kept from a buffer of `buf_len` bytes of which
/// OptiX reports `size` as written: the written part, without its
/// terminating NUL.
pub open spec fn log_len(buf_len: nat, size: nat) -> nat {
    let n = if size < buf_len { size } else { buf_len };
    if n == 0 {
        0
    } else {
        (n - 1) as nat
    }
}

/// Extracts the log string from a raw log buffer: the first
/// `min(size, buf.len())` bytes without the terminating NUL, decoded lossily.
pub fn extract_log(buf: &[u8], size: usize) -> (s: String)
    ensures
        log_len(buf@.len(), size as nat) <= buf@.len(),
        s@ == lossy_utf8(buf@.subrange(0, log_len(buf@.len(), size as nat) as int)),
        valid_utf8(buf@.subrange(0, log_len(buf@.len(), size as nat) as int)) ==> s@
            == decode_utf8(buf@.subrange(0, log_len(buf@.len(), size as nat) as int)),
{
    let n = if size < buf.len() {
        size
    } else {
        buf.len()
    };
    let len = n.saturating_sub(1);
    from_utf8_lossy(&buf[0..len])
}

} // verus!
