use wgpu_core::words::{words_from_bytes, words_from_bytes_in_order};

#[test]
fn words_are_read_in_the_given_order() {
    let bytes = [1u8, 2, 3, 4, 5, 6, 7, 8, 9];
    assert_eq!(words_from_bytes_in_order(&bytes, true), vec![0x0403_0201, 0x0807_0605]);
    assert_eq!(words_from_bytes_in_order(&bytes, false), vec![0x0102_0304, 0x0506_0708]);
    assert_eq!(words_from_bytes_in_order(&[7, 0, 0], true), Vec::<u32>::new());
}

#[test]
fn words_are_read_in_the_machine_order() {
    let bytes = [1u8, 2, 3, 4, 5, 6, 7, 8];
    let expected: Vec<u32> = bytes.chunks(4).map(|c| u32::from_ne_bytes([c[0], c[1], c[2], c[3]])).collect();
    assert_eq!(words_from_bytes(&bytes), expected);
}
