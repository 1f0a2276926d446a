use fiv::render::clear_frame;

#[test]
fn test_clear_frame() {
    let mut frame = vec![0u8; 16];
    clear_frame(&mut frame, [255, 0, 0, 255]);

    assert_eq!(&frame[0..4], &[255, 0, 0, 255]);
    assert_eq!(&frame[4..8], &[255, 0, 0, 255]);
}

#[test]
fn clear_frame_black_and_partial_pixel() {
    let mut frame = vec![9u8; 10];
    clear_frame(&mut frame, [0, 0, 0, 255]);
    assert_eq!(frame, vec![0, 0, 0, 255, 0, 0, 0, 255, 0, 0]);
    let mut frame = vec![9u8; 6];
    clear_frame(&mut frame, [1, 2, 3, 4]);
    assert_eq!(frame, vec![1, 2, 3, 4, 9, 9]);
    let mut empty: Vec<u8> = Vec::new();
    clear_frame(&mut empty, [1, 2, 3, 4]);
    assert!(empty.is_empty());
}
