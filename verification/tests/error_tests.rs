use vivrt::error::{format_i32, OPTIX_SUCCESS};
use vivrt::{check, extract_log, init, OptixError, WithLog};

#[test]
fn from_raw_maps_known_codes() {
    assert_eq!(OptixError::from_raw(7001), OptixError::InvalidValue);
    assert_eq!(OptixError::from_raw(7013), OptixError::DiskCacheInvalidData);
    assert_eq!(OptixError::from_raw(7270), OptixError::IllegalDuringTaskExecute);
    assert_eq!(OptixError::from_raw(7808), OptixError::InvalidPointer);
    assert_eq!(OptixError::from_raw(7990), OptixError::InternalError);
}

#[test]
fn from_raw_keeps_unknown_codes() {
    assert_eq!(OptixError::from_raw(7999), OptixError::Unknown(7999));
    assert_eq!(OptixError::from_raw(0), OptixError::Unknown(0));
    assert_eq!(OptixError::from_raw(-12), OptixError::Unknown(-12));
}

#[test]
fn check_success_and_failure() {
    assert_eq!(check(OPTIX_SUCCESS), Ok(()));
    assert_eq!(check(7900), Err(OptixError::CudaError));
    assert_eq!(check(1), Err(OptixError::Unknown(1)));
}

#[test]
fn messages() {
    assert_eq!(OptixError::FileIoError.message(), "file I/O error");
    assert_eq!(OptixError::CudaNotInitialized.message(), "CUDA not initialized");
    assert_eq!(OptixError::PayloadTypeIdInvalid.message(), "payload type ID invalid");
    assert_eq!(OptixError::Unknown(-5).message(), "unknown OptiX error (-5)");
    assert_eq!(OptixError::Unknown(7999).message(), "unknown OptiX error (7999)");
}

#[test]
fn decimal_formatting() {
    for v in [0, 7, -7, 10, 1234567, i32::MAX, i32::MIN, -1000] {
        assert_eq!(format_i32(v), v.to_string());
    }
}

#[test]
fn extract_log_drops_terminator() {
    let buf = b"warning: x\0garbage";
    assert_eq!(extract_log(buf, 11), "warning: x");
    assert_eq!(extract_log(buf, 0), "");
    assert_eq!(extract_log(buf, 1), "");
    assert_eq!(extract_log(b"abc", 100), "ab");
    assert_eq!(extract_log(&[b'o', b'k', 0xff, b'!', 0], 5), "ok\u{fffd}!");
}

#[test]
fn init_carries_table_or_error() {
    let o = init::<u32>(Ok(42)).ok().unwrap();
    assert_eq!(o.table.raw, 42);
    assert_eq!(init::<u32>(Err(7804)).err(), Some(OptixError::LibraryNotFound));
    assert_eq!(init::<u32>(Err(3)).err(), Some(OptixError::Unknown(3)));
}

#[test]
fn with_log_holds_value_and_log() {
    let w = WithLog { value: 3u8, log: String::from("done") };
    assert_eq!(w.value, 3);
    assert_eq!(w.log, "done");
}

#[test]
fn every_documented_code_has_its_own_variant() {
    let codes = [
        7001, 7002, 7003, 7004, 7005, 7010, 7011, 7012, 7013, 7050, 7051, 7052, 7053, 7200, 7201,
        7202, 7203, 7204, 7205, 7250, 7251, 7270, 7299, 7300, 7301, 7400, 7500, 7501, 7502, 7800,
        7801, 7802, 7803, 7804, 7805, 7806, 7807, 7808, 7900, 7990,
    ];
    let errs: Vec<OptixError> = codes.iter().map(|c| OptixError::from_raw(*c)).collect();
    for (i, e) in errs.iter().enumerate() {
        assert!(!matches!(e, OptixError::Unknown(_)));
        for f in &errs[i + 1..] {
            assert_ne!(e, f);
        }
        assert!(!e.message().is_empty());
    }
}

#[test]
fn different_errors_have_different_messages() {
    let codes = [
        7001, 7002, 7003, 7004, 7005, 7010, 7011, 7012, 7013, 7050, 7051, 7052, 7053, 7200, 7201,
        7202, 7203, 7204, 7205, 7250, 7251, 7270, 7299, 7300, 7301, 7400, 7500, 7501, 7502, 7800,
        7801, 7802, 7803, 7804, 7805, 7806, 7807, 7808, 7900, 7990, 0, -1, 1, 10, -10, 7000,
        i32::MIN, i32::MAX,
    ];
    let msgs: Vec<String> = codes.iter().map(|c| OptixError::from_raw(*c).message()).collect();
    for (i, m) in msgs.iter().enumerate() {
        for n in &msgs[i + 1..] {
            assert_ne!(m, n);
        }
    }
    assert_eq!(OptixError::from_raw(i32::MIN).message(), "unknown OptiX error (-2147483648)");
}
