use tricore_rs::model::{raw_image, read_u16, read_u32};

#[test]
fn loader_maps_skip_and_len() {
    let file = [0u8, 1, 2, 3, 4, 5];
    let img = raw_image(&file, 0x1000_0000, 2, Some(3)).unwrap();
    assert_eq!(img.segments.len(), 1);
    let s = &img.segments[0];
    assert_eq!(s.base, 0x1000_0000);
    assert_eq!(s.bytes, vec![2, 3, 4]);
    assert_eq!(read_u32(&img, 0x1000_0000).unwrap(), 0x00040302);
    assert!(read_u32(&img, 0x1000_0002 + 2).is_none());
}

#[test]
fn words_past_the_mapping_read_as_zero() {
    let img = raw_image(&[0xAA, 0xBB, 0xCC, 0xDD, 0xEE], 0x100, 0, None).unwrap();
    assert_eq!(read_u32(&img, 0x100), Some(0xDDCC_BBAA));
    assert_eq!(read_u32(&img, 0x103), Some(0x0000_EEDD));
    assert_eq!(read_u32(&img, 0x104), Some(0x0000_00EE));
    assert_eq!(read_u32(&img, 0x105), None);
    assert_eq!(read_u32(&img, 0xFF), None);
    assert_eq!(read_u16(&img, 0x104), None);
}
