use netcore::ring::Ring;

#[test]
fn ring_starts_empty_and_zeroed() {
    let ring = Ring::new(16);
    assert_eq!(ring.capacity(), 16);
    assert_eq!(ring.head(), 0);
    assert_eq!(ring.as_slice(), &[0u8; 16][..]);
}

#[test]
fn ring_appends_behind_the_previous_write() {
    let mut ring = Ring::new(16);
    assert_eq!(ring.append(&[1, 2, 3, 4]), 0);
    assert_eq!(ring.append(&[5, 6]), 4);
    assert_eq!(ring.head(), 6);
    assert_eq!(&ring.as_slice()[..6], &[1, 2, 3, 4, 5, 6]);
    assert_eq!(&ring.as_slice()[6..], &[0u8; 10][..]);
}

#[test]
fn ring_fills_to_the_last_byte_without_wrapping() {
    let mut ring = Ring::new(8);
    assert_eq!(ring.append(&[1; 5]), 0);
    assert_eq!(ring.append(&[2; 3]), 5);
    assert_eq!(ring.head(), 8);
    assert_eq!(ring.as_slice(), &[1, 1, 1, 1, 1, 2, 2, 2]);
}

#[test]
fn ring_wraps_to_the_start_when_the_tail_is_too_short() {
    let mut ring = Ring::new(8);
    assert_eq!(ring.append(&[1; 6]), 0);
    assert_eq!(ring.append(&[2; 3]), 0);
    assert_eq!(ring.head(), 3);
    assert_eq!(ring.as_slice(), &[2, 2, 2, 1, 1, 1, 0, 0]);
}

#[test]
fn ring_takes_a_write_as_long_as_itself() {
    let mut ring = Ring::new(4);
    assert_eq!(ring.append(&[9; 2]), 0);
    assert_eq!(ring.append(&[7; 4]), 0);
    assert_eq!(ring.head(), 4);
    assert_eq!(ring.as_slice(), &[7, 7, 7, 7]);
    assert_eq!(ring.append(&[]), 4);
    assert_eq!(ring.head(), 4);
}
