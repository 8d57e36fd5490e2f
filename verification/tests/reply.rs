use rezmq_native::reply::{fast_write_answer, fast_write_precheck, settle, write_admission, CallError, FastWrite, FAST_WRITE_LIMIT};

#[test]
fn settle_maps_each_reply() {
    assert_eq!(settle::<u64>(None), Err(CallError::WorkerGone));
    assert_eq!(settle::<u64>(Some(Err(13))), Err(CallError::Errno(13)));
    assert_eq!(settle::<u64>(Some(Ok(4))), Ok(4));
    assert_eq!(settle::<()>(Some(Ok(()))), Ok(()));
}

#[test]
fn write_admission_refuses_destroyed() {
    assert_eq!(write_admission(true), Err(CallError::SocketDestroyed));
    assert_eq!(write_admission(false), Ok(()));
}

#[test]
fn fast_write_checks() {
    assert_eq!(fast_write_precheck(true, 1), Some(FastWrite::Error));
    assert_eq!(fast_write_precheck(true, FAST_WRITE_LIMIT + 1), Some(FastWrite::Error));
    assert_eq!(fast_write_precheck(false, 65537), Some(FastWrite::WouldBlock));
    assert_eq!(fast_write_precheck(false, 65536), None);
    assert_eq!(fast_write_precheck(false, 0), None);
    assert_eq!(fast_write_answer(true), FastWrite::Accepted);
    assert_eq!(fast_write_answer(false), FastWrite::WouldBlock);
}
