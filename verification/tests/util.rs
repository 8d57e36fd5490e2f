use rezmq_native::util::SyncNonNull;
use std::ptr::NonNull;

#[test]
fn sync_non_null_copies_pointer() {
    let mut x: u32 = 5;
    let p = SyncNonNull(NonNull::from(&mut x));
    let q = p;
    let r = p.clone();
    assert_eq!(p.0, q.0);
    assert_eq!(p.0, r.0);
}
