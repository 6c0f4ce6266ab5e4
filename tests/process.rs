use veos::process::{check_exec_args, encode_exec_result, exec_result, ProcessError};

#[test]
fn exec_with_aligned_name_succeeds() {
    let name = "init";
    assert!(check_exec_args(0x7f00_1000, name.len() as u64).is_ok());
    let raw = encode_exec_result(Ok(4));
    assert!(raw >= 0);
    assert_eq!(exec_result(raw), Ok(4));
}

#[test]
fn exec_with_empty_name_fails() {
    let r = check_exec_args(0x7f00_1000, 0).map(|_| 0u64);
    assert_eq!(r, Err(ProcessError::Unspecified));
    let raw = encode_exec_result(r);
    assert!(raw < 0);
    assert_eq!(exec_result(raw), Err(ProcessError::Unspecified));
}

#[test]
fn exec_with_unaligned_name_fails() {
    assert_eq!(check_exec_args(0x7f00_1003, 4), Err(ProcessError::Unspecified));
}

#[test]
fn exec_result_decoding() {
    assert_eq!(exec_result(-1), Err(ProcessError::Unspecified));
    assert_eq!(exec_result(-22), Err(ProcessError::Unspecified));
    assert_eq!(exec_result(0), Ok(0));
    assert_eq!(exec_result(i64::MAX), Ok(i64::MAX as u64));
}
