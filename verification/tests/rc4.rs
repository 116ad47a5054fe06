use sdvx_b50::rc4::rc4_crypt;

#[test]
fn rc4_applied_twice_gives_the_data_back() {
    let key = [0x10u8, 0x20, 0x30, 0x40, 0x50];
    let data: Vec<u8> = (0..=255u8).chain(0..=40u8).collect();
    let once = rc4_crypt(&key, &data);
    assert_ne!(once, data);
    assert_eq!(rc4_crypt(&key, &once), data);
}

#[test]
fn rc4_matches_a_second_known_vector() {
    assert_eq!(rc4_crypt(b"Wiki", b"pedia"), vec![0x10, 0x21, 0xbf, 0x04, 0x20]);
    assert_eq!(rc4_crypt(b"Secret", b"Attack at dawn"), vec![
        0x45, 0xa0, 0x1f, 0x64, 0x5f, 0xc3, 0x5b, 0x38, 0x35, 0x52, 0x54, 0x4b, 0x9b, 0xf5
    ]);
    assert_eq!(rc4_crypt(b"k", b""), Vec::<u8>::new());
}
