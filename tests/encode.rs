use kaboom::encode::pack_rgba;

#[test]
fn appends_opaque_alpha_to_each_pixel() {
    let px = vec![[1u8, 2, 3], [250, 0, 17]];
    assert_eq!(pack_rgba(&px), vec![1, 2, 3, 255, 250, 0, 17, 255]);
}

#[test]
fn no_pixels_no_bytes() {
    assert_eq!(pack_rgba(&Vec::new()), Vec::<u8>::new());
}
