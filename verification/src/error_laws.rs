//! Every error has a message of its own.

use vstd::prelude::*;
use crate::error::{OptixError, message_of, decimal_nat, decimal_i32, digit_char, decodes_to, code_of};

verus! {

proof fn lemma_decimal_nat_shape(n: nat)
    ensures
        decimal_nat(n).len() >= 1,
        decimal_nat(n).len() == 1 <==> n < 10,
        forall|k: int|
            0 <= k < decimal_nat(n).len() ==> 48 <= #[trigger] (decimal_nat(n)[k] as u32) <= 57,
    decreases n,
{
    if n >= 10 {
        lemma_decimal_nat_shape(n / 10);
        let d = n % 10;
        assert(digit_char(d) as u32 == d + 48);
    } else {
        assert(digit_char(n) as u32 == n + 48);
    }
}

proof fn lemma_decimal_nat_injective(n: nat, m: nat)
    requires
        decimal_nat(n) == decimal_nat(m),
    ensures
        n == m,
    decreases n,
{
    lemma_decimal_nat_shape(n);
    lemma_decimal_nat_shape(m);
    if n < 10 && m < 10 {
        assert(decimal_nat(n)[0] == digit_char(n));
        assert(decimal_nat(m)[0] == digit_char(m));
        assert(digit_char(n) as u32 == n + 48);
        assert(digit_char(m) as u32 == m + 48);
    } else if n >= 10 && m >= 10 {
        let a = decimal_nat(n);
        let b = decimal_nat(m);
        assert(a.last() == b.last());
        assert(digit_char(n % 10) as u32 == n % 10 + 48);
        assert(digit_char(m % 10) as u32 == m % 10 + 48);
        assert(a.drop_last() =~= decimal_nat(n / 10));
        assert(b.drop_last() =~= decimal_nat(m / 10));
        lemma_decimal_nat_injective(n / 10, m / 10);
    }
}

proof fn lemma_decimal_i32_injective(v: i32, w: i32)
    requires
        decimal_i32(v) == decimal_i32(w),
    ensures
        v == w,
{
    let a = decimal_i32(v);
    let b = decimal_i32(w);
    if v < 0 {
        lemma_decimal_nat_shape((-v) as nat);
    } else {
        lemma_decimal_nat_shape(v as nat);
        assert(a[0] as u32 >= 48);
    }
    if w < 0 {
        lemma_decimal_nat_shape((-w) as nat);
    } else {
        lemma_decimal_nat_shape(w as nat);
        assert(b[0] as u32 >= 48);
    }
    if v < 0 && w < 0 {
        assert(a.subrange(1, a.len() as int) =~= decimal_nat((-v) as nat));
        assert(b.subrange(1, b.len() as int) =~= decimal_nat((-w) as nat));
        lemma_decimal_nat_injective((-v) as nat, (-w) as nat);
    } else if v >= 0 && w >= 0 {
        lemma_decimal_nat_injective(v as nat, w as nat);
    } else {
        assert(a[0] == b[0]);
    }
}

/// The message of an error names it alone: two different errors, named
/// or unknown codes, never have the same message.
pub proof fn law_messages_are_distinct(e1: OptixError, e2: OptixError)
    requires
        e1 != e2,
    ensures
        message_of(e1) != message_of(e2),
{
    if message_of(e1) == message_of(e2) {
        lemma_message_determines_error(e1, e2);
    }
}

proof fn lemma_message_determines_error(e1: OptixError, e2: OptixError)
    requires
        message_of(e1) == message_of(e2),
    ensures
        e1 == e2,
{
    reveal_strlit("unknown OptiX error (");
    reveal_strlit(")");
    match (e1, e2) {
        (OptixError::Unknown(c1), OptixError::Unknown(c2)) => {
            let m1 = message_of(e1);
            let d1 = decimal_i32(c1);
            let d2 = decimal_i32(c2);
            assert(m1.subrange(21, m1.len() - 1) =~= d1);
            assert(message_of(e2).subrange(21, message_of(e2).len() - 1) =~= d2);
            lemma_decimal_i32_injective(c1, c2);
        },
        (OptixError::Unknown(c1), _) => {
            lemma_unknown_not_named(c1, e2);
        },
        (_, OptixError::Unknown(c2)) => {
            lemma_unknown_not_named(c2, e1);
        },
        _ => {
            lemma_named_messages_distinct(e1, e2);
        },
    }
}

proof fn lemma_unknown_not_named(c: i32, e: OptixError)
    requires
        !(e is Unknown),
    ensures
        message_of(OptixError::Unknown(c)) != message_of(e),
{
    reveal_strlit("unknown OptiX error (");
    let m = message_of(OptixError::Unknown(c));
    assert(m[0] == 'u');
    assert(m[2] == 'k');
    reveal_strlit("unsupported ABI version");
    reveal_strlit("invalid value");
    reveal_strlit("host out of memory");
    reveal_strlit("invalid operation");
    reveal_strlit("file I/O error");
    reveal_strlit("invalid file format");
    reveal_strlit("disk cache invalid path");
    reveal_strlit("disk cache permission error");
    reveal_strlit("disk cache database error");
    reveal_strlit("disk cache invalid data");
    reveal_strlit("launch failure");
    reveal_strlit("invalid device context");
    reveal_strlit("CUDA not initialized");
    reveal_strlit("validation failure");
    reveal_strlit("invalid input");
    reveal_strlit("invalid launch parameter");
    reveal_strlit("invalid payload access");
    reveal_strlit("invalid attribute access");
    reveal_strlit("invalid function use");
    reveal_strlit("invalid function arguments");
    reveal_strlit("pipeline out of constant memory");
    reveal_strlit("pipeline link error");
    reveal_strlit("illegal during task execute");
    reveal_strlit("internal compiler error");
    reveal_strlit("denoiser model not set");
    reveal_strlit("denoiser not initialized");
    reveal_strlit("not compatible");
    reveal_strlit("payload type mismatch");
    reveal_strlit("payload type resolution failed");
    reveal_strlit("payload type ID invalid");
    reveal_strlit("not supported");
    reveal_strlit("function table size mismatch");
    reveal_strlit("invalid entry function options");
    reveal_strlit("library not found");
    reveal_strlit("entry symbol not found");
    reveal_strlit("library unload failure");
    reveal_strlit("device out of memory");
    reveal_strlit("invalid pointer");
    reveal_strlit("CUDA error");
    reveal_strlit("internal error");
    let n = message_of(e);
    assert(n[0] != 'u' || n[2] != 'k');
}

/// The named error whose message has length `n` and the given first and
/// last characters: these three tell the named messages apart.
spec fn named_by(n: nat, first: char, last: char) -> OptixError {
    if n == 13 && first == 'i' && last == 'e' {
        OptixError::InvalidValue
    } else if n == 18 && first == 'h' && last == 'y' {
        OptixError::HostOutOfMemory
    } else if n == 17 && first == 'i' && last == 'n' {
        OptixError::InvalidOperation
    } else if n == 14 && first == 'f' && last == 'r' {
        OptixError::FileIoError
    } else if n == 19 && first == 'i' && last == 't' {
        OptixError::InvalidFileFormat
    } else if n == 23 && first == 'd' && last == 'h' {
        OptixError::DiskCacheInvalidPath
    } else if n == 27 && first == 'd' && last == 'r' {
        OptixError::DiskCachePermissionError
    } else if n == 25 && first == 'd' && last == 'r' {
        OptixError::DiskCacheDatabaseError
    } else if n == 23 && first == 'd' && last == 'a' {
        OptixError::DiskCacheInvalidData
    } else if n == 14 && first == 'l' && last == 'e' {
        OptixError::LaunchFailure
    } else if n == 22 && first == 'i' && last == 't' {
        OptixError::InvalidDeviceContext
    } else if n == 20 && first == 'C' && last == 'd' {
        OptixError::CudaNotInitialized
    } else if n == 18 && first == 'v' && last == 'e' {
        OptixError::ValidationFailure
    } else if n == 13 && first == 'i' && last == 't' {
        OptixError::InvalidInput
    } else if n == 24 && first == 'i' && last == 'r' {
        OptixError::InvalidLaunchParameter
    } else if n == 22 && first == 'i' && last == 's' {
        OptixError::InvalidPayloadAccess
    } else if n == 24 && first == 'i' && last == 's' {
        OptixError::InvalidAttributeAccess
    } else if n == 20 && first == 'i' && last == 'e' {
        OptixError::InvalidFunctionUse
    } else if n == 26 && first == 'i' && last == 's' {
        OptixError::InvalidFunctionArguments
    } else if n == 31 && first == 'p' && last == 'y' {
        OptixError::PipelineOutOfConstantMemory
    } else if n == 19 && first == 'p' && last == 'r' {
        OptixError::PipelineLinkError
    } else if n == 27 && first == 'i' && last == 'e' {
        OptixError::IllegalDuringTaskExecute
    } else if n == 23 && first == 'i' && last == 'r' {
        OptixError::InternalCompilerError
    } else if n == 22 && first == 'd' && last == 't' {
        OptixError::DenoiserModelNotSet
    } else if n == 24 && first == 'd' && last == 'd' {
        OptixError::DenoiserNotInitialized
    } else if n == 14 && first == 'n' && last == 'e' {
        OptixError::NotCompatible
    } else if n == 21 && first == 'p' && last == 'h' {
        OptixError::PayloadTypeMismatch
    } else if n == 30 && first == 'p' && last == 'd' {
        OptixError::PayloadTypeResolutionFailed
    } else if n == 23 && first == 'p' && last == 'd' {
        OptixError::PayloadTypeIdInvalid
    } else if n == 13 && first == 'n' && last == 'd' {
        OptixError::NotSupported
    } else if n == 23 && first == 'u' && last == 'n' {
        OptixError::UnsupportedAbiVersion
    } else if n == 28 && first == 'f' && last == 'h' {
        OptixError::FunctionTableSizeMismatch
    } else if n == 30 && first == 'i' && last == 's' {
        OptixError::InvalidEntryFunctionOptions
    } else if n == 17 && first == 'l' && last == 'd' {
        OptixError::LibraryNotFound
    } else if n == 22 && first == 'e' && last == 'd' {
        OptixError::EntrySymbolNotFound
    } else if n == 22 && first == 'l' && last == 'e' {
        OptixError::LibraryUnloadFailure
    } else if n == 20 && first == 'd' && last == 'y' {
        OptixError::DeviceOutOfMemory
    } else if n == 15 && first == 'i' && last == 'r' {
        OptixError::InvalidPointer
    } else if n == 10 && first == 'C' && last == 'r' {
        OptixError::CudaError
    } else if n == 14 && first == 'i' && last == 'r' {
        OptixError::InternalError
    } else {
        OptixError::Unknown(0)
    }
}

proof fn lemma_named_by_message(e: OptixError)
    requires
        !(e is Unknown),
    ensures
        named_by(message_of(e).len(), message_of(e)[0], message_of(e).last()) == e,
{
    reveal_strlit("invalid value");
    reveal_strlit("host out of memory");
    reveal_strlit("invalid operation");
    reveal_strlit("file I/O error");
    reveal_strlit("invalid file format");
    reveal_strlit("disk cache invalid path");
    reveal_strlit("disk cache permission error");
    reveal_strlit("disk cache database error");
    reveal_strlit("disk cache invalid data");
    reveal_strlit("launch failure");
    reveal_strlit("invalid device context");
    reveal_strlit("CUDA not initialized");
    reveal_strlit("validation failure");
    reveal_strlit("invalid input");
    reveal_strlit("invalid launch parameter");
    reveal_strlit("invalid payload access");
    reveal_strlit("invalid attribute access");
    reveal_strlit("invalid function use");
    reveal_strlit("invalid function arguments");
    reveal_strlit("pipeline out of constant memory");
    reveal_strlit("pipeline link error");
    reveal_strlit("illegal during task execute");
    reveal_strlit("internal compiler error");
    reveal_strlit("denoiser model not set");
    reveal_strlit("denoiser not initialized");
    reveal_strlit("not compatible");
    reveal_strlit("payload type mismatch");
    reveal_strlit("payload type resolution failed");
    reveal_strlit("payload type ID invalid");
    reveal_strlit("not supported");
    reveal_strlit("unsupported ABI version");
    reveal_strlit("function table size mismatch");
    reveal_strlit("invalid entry function options");
    reveal_strlit("library not found");
    reveal_strlit("entry symbol not found");
    reveal_strlit("library unload failure");
    reveal_strlit("device out of memory");
    reveal_strlit("invalid pointer");
    reveal_strlit("CUDA error");
    reveal_strlit("internal error");
}

proof fn lemma_named_messages_distinct(e1: OptixError, e2: OptixError)
    requires
        !(e1 is Unknown),
        !(e2 is Unknown),
        message_of(e1) == message_of(e2),
    ensures
        e1 == e2,
{
    lemma_named_by_message(e1);
    lemma_named_by_message(e2);
}

/// The OptiX SDK's result codes, each with its error: 7001 invalid value,
/// 7002 host out of memory, ..., 7807 device out of memory, 7808 invalid
/// pointer, 7900 CUDA error, 7990 internal error. A code decodes to the
/// error named for it, and any code outside the table to `Unknown` with
/// that code.
pub proof fn law_sdk_code_table(code: i32, e: OptixError)
    requires
        decodes_to(code, e),
    ensures
        code == 7001 <==> e == OptixError::InvalidValue,
        code == 7002 <==> e == OptixError::HostOutOfMemory,
        code == 7003 <==> e == OptixError::InvalidOperation,
        code == 7004 <==> e == OptixError::FileIoError,
        code == 7005 <==> e == OptixError::InvalidFileFormat,
        code == 7010 <==> e == OptixError::DiskCacheInvalidPath,
        code == 7011 <==> e == OptixError::DiskCachePermissionError,
        code == 7012 <==> e == OptixError::DiskCacheDatabaseError,
        code == 7013 <==> e == OptixError::DiskCacheInvalidData,
        code == 7050 <==> e == OptixError::LaunchFailure,
        code == 7051 <==> e == OptixError::InvalidDeviceContext,
        code == 7052 <==> e == OptixError::CudaNotInitialized,
        code == 7053 <==> e == OptixError::ValidationFailure,
        code == 7200 <==> e == OptixError::InvalidInput,
        code == 7201 <==> e == OptixError::InvalidLaunchParameter,
        code == 7202 <==> e == OptixError::InvalidPayloadAccess,
        code == 7203 <==> e == OptixError::InvalidAttributeAccess,
        code == 7204 <==> e == OptixError::InvalidFunctionUse,
        code == 7205 <==> e == OptixError::InvalidFunctionArguments,
        code == 7250 <==> e == OptixError::PipelineOutOfConstantMemory,
        code == 7251 <==> e == OptixError::PipelineLinkError,
        code == 7270 <==> e == OptixError::IllegalDuringTaskExecute,
        code == 7299 <==> e == OptixError::InternalCompilerError,
        code == 7300 <==> e == OptixError::DenoiserModelNotSet,
        code == 7301 <==> e == OptixError::DenoiserNotInitialized,
        code == 7400 <==> e == OptixError::NotCompatible,
        code == 7500 <==> e == OptixError::PayloadTypeMismatch,
        code == 7501 <==> e == OptixError::PayloadTypeResolutionFailed,
        code == 7502 <==> e == OptixError::PayloadTypeIdInvalid,
        code == 7800 <==> e == OptixError::NotSupported,
        code == 7801 <==> e == OptixError::UnsupportedAbiVersion,
        code == 7802 <==> e == OptixError::FunctionTableSizeMismatch,
        code == 7803 <==> e == OptixError::InvalidEntryFunctionOptions,
        code == 7804 <==> e == OptixError::LibraryNotFound,
        code == 7805 <==> e == OptixError::EntrySymbolNotFound,
        code == 7806 <==> e == OptixError::LibraryUnloadFailure,
        code == 7807 <==> e == OptixError::DeviceOutOfMemory,
        code == 7808 <==> e == OptixError::InvalidPointer,
        code == 7900 <==> e == OptixError::CudaError,
        code == 7990 <==> e == OptixError::InternalError,
        e is Unknown ==> e == OptixError::Unknown(code),
{
    assert(code_of(OptixError::InvalidValue) == 7001);
    assert(code_of(OptixError::HostOutOfMemory) == 7002);
    assert(code_of(OptixError::InvalidOperation) == 7003);
    assert(code_of(OptixError::FileIoError) == 7004);
    assert(code_of(OptixError::InvalidFileFormat) == 7005);
    assert(code_of(OptixError::DiskCacheInvalidPath) == 7010);
    assert(code_of(OptixError::DiskCachePermissionError) == 7011);
    assert(code_of(OptixError::DiskCacheDatabaseError) == 7012);
    assert(code_of(OptixError::DiskCacheInvalidData) == 7013);
    assert(code_of(OptixError::LaunchFailure) == 7050);
    assert(code_of(OptixError::InvalidDeviceContext) == 7051);
    assert(code_of(OptixError::CudaNotInitialized) == 7052);
    assert(code_of(OptixError::ValidationFailure) == 7053);
    assert(code_of(OptixError::InvalidInput) == 7200);
    assert(code_of(OptixError::InvalidLaunchParameter) == 7201);
    assert(code_of(OptixError::InvalidPayloadAccess) == 7202);
    assert(code_of(OptixError::InvalidAttributeAccess) == 7203);
    assert(code_of(OptixError::InvalidFunctionUse) == 7204);
    assert(code_of(OptixError::InvalidFunctionArguments) == 7205);
    assert(code_of(OptixError::PipelineOutOfConstantMemory) == 7250);
    assert(code_of(OptixError::PipelineLinkError) == 7251);
    assert(code_of(OptixError::IllegalDuringTaskExecute) == 7270);
    assert(code_of(OptixError::InternalCompilerError) == 7299);
    assert(code_of(OptixError::DenoiserModelNotSet) == 7300);
    assert(code_of(OptixError::DenoiserNotInitialized) == 7301);
    assert(code_of(OptixError::NotCompatible) == 7400);
    assert(code_of(OptixError::PayloadTypeMismatch) == 7500);
    assert(code_of(OptixError::PayloadTypeResolutionFailed) == 7501);
    assert(code_of(OptixError::PayloadTypeIdInvalid) == 7502);
    assert(code_of(OptixError::NotSupported) == 7800);
    assert(code_of(OptixError::UnsupportedAbiVersion) == 7801);
    assert(code_of(OptixError::FunctionTableSizeMismatch) == 7802);
    assert(code_of(OptixError::InvalidEntryFunctionOptions) == 7803);
    assert(code_of(OptixError::LibraryNotFound) == 7804);
    assert(code_of(OptixError::EntrySymbolNotFound) == 7805);
    assert(code_of(OptixError::LibraryUnloadFailure) == 7806);
    assert(code_of(OptixError::DeviceOutOfMemory) == 7807);
    assert(code_of(OptixError::InvalidPointer) == 7808);
    assert(code_of(OptixError::CudaError) == 7900);
    assert(code_of(OptixError::InternalError) == 7990);
}

} // verus!
