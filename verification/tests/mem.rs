use hyperbug::mem::GuestMemory;
use hyperbug::snapshot::{take, take_u16, take_u32, take_u8};

#[test]
fn what_is_written_is_read_back_and_the_rest_stays() {
    let mut mem = GuestMemory::new(4096).unwrap();
    assert!(mem.write_checked(100, &[1, 2, 3]));
    assert!(mem.write_u32_checked(200, 0xdead_beef));
    assert_eq!(mem.read_vec(99, 5), Some(vec![0, 1, 2, 3, 0]));
    assert_eq!(mem.read_u32_checked(200), Some(0xdead_beef));
    assert_eq!(mem.read_u16_checked(202), Some(0xdead));
    assert_eq!(mem.read_vec(200, 4), Some(vec![0xef, 0xbe, 0xad, 0xde]));
}

#[test]
fn an_access_that_does_not_fit_is_refused_and_changes_nothing() {
    let mut mem = GuestMemory::new(16).unwrap();
    assert!(!mem.write_checked(14, &[1, 2, 3]));
    assert!(!mem.write_u16_checked(u64::MAX, 1));
    assert_eq!(mem.read_u64_checked(9), None);
    assert_eq!(mem.read_u64_checked(8), Some(0));
    let mut buf = [7u8; 4];
    assert!(!mem.read_checked(13, &mut buf));
    assert_eq!(buf, [7; 4]);
    assert!(mem.in_bounds(16, 0) && !mem.in_bounds(16, 1) && !mem.in_bounds(u64::MAX, 1));
}

#[test]
fn memory_of_no_bytes_is_refused() {
    match GuestMemory::new(0) {
        Ok(_) => panic!("a mapping of no bytes"),
        Err(e) => assert_eq!(
            e.text(),
            "I/O error: mmap of 0 bytes of guest memory failed: Invalid argument (os error 22)"
        ),
    }
    let mem = GuestMemory::new(1).unwrap();
    assert_eq!(mem.size(), 1);
    assert_eq!(mem.read_vec(0, 1), Some(vec![0]));
}

#[test]
fn memory_holds_the_bytes_it_is_made_of() {
    let mem = GuestMemory::from_vec(vec![1, 2, 3]);
    assert_eq!(mem.size(), 3);
    assert_eq!(mem.read_vec(1, 2), Some(vec![2, 3]));
}

#[test]
fn saved_values_are_taken_off_the_front() {
    let bytes = [1u8, 2, 3, 4, 5, 6, 7, 8];
    let mut rest = &bytes[..];
    assert_eq!(take_u8(&mut rest), Ok(1));
    assert_eq!(take_u16(&mut rest), Ok(0x0302));
    assert_eq!(take_u32(&mut rest), Ok(0x0706_0504));
    assert_eq!(take_u16(&mut rest).unwrap_err(), "saved state is truncated");
    assert_eq!(take(&mut rest, 1).unwrap(), &[8]);
    assert!(take_u8(&mut rest).is_err());
}
