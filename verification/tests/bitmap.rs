use vmm_event::bitmap::{Bitmap, BitmapError};

#[test]
fn new_bitmap_rounds_up_to_words() {
    assert_eq!(Bitmap::new(0).size(), 0);
    assert_eq!(Bitmap::new(1).size(), 64);
    assert_eq!(Bitmap::new(64).size(), 64);
    assert_eq!(Bitmap::new(65).size(), 128);
}

#[test]
fn set_clear_and_contain() {
    let mut b = Bitmap::new(128);
    assert_eq!(b.contain(70), Ok(false));
    assert_eq!(b.set(70), Ok(()));
    assert_eq!(b.contain(70), Ok(true));
    assert_eq!(b.contain(69), Ok(false));
    assert_eq!(b.contain(71), Ok(false));
    assert_eq!(b.clear(70), Ok(()));
    assert_eq!(b.contain(70), Ok(false));
    assert_eq!(b.set(128), Err(BitmapError::OutOfBound(128, 128)));
    assert_eq!(b.clear(200), Err(BitmapError::OutOfBound(200, 128)));
    assert_eq!(b.contain(128), Err(BitmapError::OutOfBound(128, 128)));
}

#[test]
fn find_next_zero_skips_full_words() {
    let mut b = Bitmap::new(192);
    for i in 0..70 {
        b.set(i).unwrap();
    }
    assert_eq!(b.find_next_zero(0), 70);
    assert_eq!(b.find_next_zero(71), 71);
    b.set(71).unwrap();
    assert_eq!(b.find_next_zero(71), 72);
    assert_eq!(b.find_next_zero(500), 192);
    for i in 70..192 {
        b.set(i).unwrap();
    }
    assert_eq!(b.find_next_zero(0), 192);
}
