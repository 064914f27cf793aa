use kaboom::grid::{index_of, pixel_of, Framebuffer};

#[test]
fn index_is_row_major() {
    assert_eq!(index_of(0, 0, 640), 0);
    assert_eq!(index_of(5, 0, 640), 5);
    assert_eq!(index_of(0, 1, 640), 640);
    assert_eq!(index_of(639, 479, 640), 640 * 480 - 1);
}

#[test]
fn pixel_of_inverts_index_of() {
    assert_eq!(pixel_of(0, 640), (0, 0));
    assert_eq!(pixel_of(641, 640), (1, 1));
    assert_eq!(pixel_of(640 * 480 - 1, 640), (639, 479));
    for index in 0..(7 * 5) {
        let (i, j) = pixel_of(index, 7);
        assert!(i < 7);
        assert_eq!(index_of(i, j, 7), index);
    }
}

#[test]
fn new_fills_every_cell() {
    let fb = Framebuffer::new(3, 2, 9u8);
    assert_eq!(fb.width(), 3);
    assert_eq!(fb.height(), 2);
    assert_eq!(fb.cells(), &vec![9u8; 6]);
}

#[test]
fn empty_framebuffer() {
    let fb = Framebuffer::new(0, 4, 1u32);
    assert_eq!(fb.cells().len(), 0);
    assert_eq!(fb.into_cells(), Vec::<u32>::new());
}

#[test]
fn set_writes_one_cell() {
    let mut fb = Framebuffer::new(3, 2, 0u32);
    fb.set(2, 1, 7);
    fb.set(0, 1, 4);
    assert_eq!(*fb.get(2, 1), 7);
    assert_eq!(*fb.get(0, 1), 4);
    assert_eq!(*fb.get(2, 0), 0);
    assert_eq!(fb.into_cells(), vec![0, 0, 0, 4, 0, 7]);
}

#[test]
fn from_cells_checks_the_count() {
    let fb = Framebuffer::from_cells(2, 2, vec![1u8, 2, 3, 4]).unwrap();
    assert_eq!(*fb.get(1, 0), 2);
    assert_eq!(*fb.get(0, 1), 3);
    assert!(Framebuffer::from_cells(2, 2, vec![1u8, 2, 3]).is_none());
    assert!(Framebuffer::from_cells(2, 2, vec![1u8, 2, 3, 4, 5]).is_none());
    assert!(Framebuffer::from_cells(usize::MAX, 2, vec![1u8]).is_none());
}
