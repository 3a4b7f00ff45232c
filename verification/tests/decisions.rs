use perun_channel_lockscript::channel::Redeemer;
use perun_channel_lockscript::error::{Error, SysError};
use perun_channel_lockscript::lock::{
    decide_args, decide_input, decide_witness, exit_code, locate_constants,
};

fn decode_witness(bytes: &[u8]) -> Option<Redeemer> {
    match bytes {
        [0] => Some(Redeemer::Coordinate),
        [1] => Some(Redeemer::Other),
        _ => None,
    }
}

#[test]
fn lock_hash_decides() {
    let a: [u8; 32] = [1; 32];
    let b: [u8; 32] = [2; 32];
    assert_eq!(decide_input(Ok([1; 32]), &a, &b), Some(Ok(true)));
    assert_eq!(decide_input(Ok([2; 32]), &a, &b), Some(Ok(true)));
    assert_eq!(decide_input(Ok([3; 32]), &a, &b), None);
    assert_eq!(decide_input(Err(SysError::IndexOutOfBound), &a, &b), Some(Ok(false)));
    assert_eq!(
        decide_input(Err(SysError::Unknown(3)), &a, &b),
        Some(Err(Error::Sys(SysError::Unknown(3))))
    );
}

#[test]
fn script_args_decide() {
    assert_eq!(decide_args(Ok(vec![])), Ok(()));
    assert_eq!(decide_args(Ok(vec![0])), Err(Error::PCLSWithArgs));
    assert_eq!(
        decide_args(Err(SysError::IndexOutOfBound)),
        Err(Error::Sys(SysError::IndexOutOfBound))
    );
}

#[test]
fn type_script_decides() {
    assert_eq!(locate_constants(Ok(Some(vec![4, 5]))), Ok(Some(vec![4, 5])));
    assert_eq!(locate_constants(Ok(None)), Err(Error::PCTSNotFound));
    assert_eq!(locate_constants(Err(SysError::IndexOutOfBound)), Ok(None));
    assert_eq!(
        locate_constants(Err(SysError::Encoding)),
        Err(Error::Sys(SysError::Encoding))
    );
}

#[test]
fn witness_decides() {
    assert!(decide_witness(Ok(Some(vec![0])), &decode_witness));
    assert!(!decide_witness(Ok(Some(vec![1])), &decode_witness));
    assert!(!decide_witness(Ok(Some(vec![2])), &decode_witness));
    assert!(!decide_witness(Ok(None), &decode_witness));
    assert!(!decide_witness(Err(SysError::IndexOutOfBound), &decode_witness));
}

#[test]
fn outcome_decides_exit_code() {
    let error_code = |err: Error| if err == Error::NotParticipant { 42 } else { 7 };
    assert_eq!(exit_code(Ok(()), &error_code), 0);
    assert_eq!(exit_code(Err(Error::NotParticipant), &error_code), 42);
    assert_eq!(exit_code(Err(Error::PCLSWithArgs), &error_code), 7);
}
