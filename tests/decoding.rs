use vakfu::color::{size_from_tag, Color, Rgb, Rgba};
use vakfu::decode::{DecodeError, Decoder, DecoderCursor, WithSize, WithSizePrefix};
use vakfu::tgam::{first_greater_power_of_two, round_up_to_power_of_two, Tgam};

#[test]
fn primitives_are_little_endian() {
    let bytes = [0x34u8, 0x12, 0x78, 0x56, 0x34, 0x12, 0xFF, 0xFF];
    let mut cur = DecoderCursor::new(&bytes);
    assert_eq!(cur.decode::<u16>(), Ok(0x1234));
    assert_eq!(cur.decode::<u32>(), Ok(0x1234_5678));
    assert_eq!(cur.decode::<i16>(), Ok(-1));
    assert_eq!(cur.remaining().len(), 0);
    assert_eq!(cur.decode::<u8>(), Err(DecodeError::Truncated));
}

#[test]
fn signed_values_decode() {
    let bytes = [0xFEu8, 0xFF, 0xFF, 0xFF, 0x80];
    let mut cur = DecoderCursor::new(&bytes);
    assert_eq!(cur.decode::<i32>(), Ok(-2));
    assert_eq!(cur.decode::<i8>(), Ok(-128));
}

#[test]
fn failed_decode_consumes_nothing() {
    let bytes = [1u8, 0, 2, 0, 3];
    let mut cur = DecoderCursor::new(&bytes);
    assert_eq!(cur.decode_n::<u16>(3), Err(DecodeError::Truncated));
    assert_eq!(cur.remaining().len(), 5);
    assert_eq!(cur.decode_n::<u16>(2), Ok(vec![1, 2]));
    assert_eq!(cur.remaining(), &[3u8][..]);
}

#[test]
fn size_prefixed_sequence() {
    let bytes = [2u8, 0, 7, 0, 9, 0, 0xAA];
    let mut cur = DecoderCursor::new(&bytes);
    let v: Vec<u16> = WithSizePrefix::<u16>::new().decode(&mut cur).unwrap();
    assert_eq!(v, vec![7, 9]);
    assert_eq!(cur.remaining(), &[0xAAu8][..]);

    let short = [3u8, 1, 2];
    let mut cur = DecoderCursor::new(&short);
    let r: Result<Vec<u8>, DecodeError> = WithSizePrefix::<u8>::new().decode(&mut cur);
    assert_eq!(r, Err(DecodeError::Truncated));
    assert_eq!(cur.remaining().len(), 3);
}

#[test]
fn externally_sized_sequence() {
    let bytes = [5u8, 6, 7];
    let mut cur = DecoderCursor::new(&bytes);
    let v: Vec<u8> = WithSize::new(2).decode(&mut cur).unwrap();
    assert_eq!(v, vec![5, 6]);
    assert_eq!(cur.remaining(), &[7u8][..]);
}

#[test]
fn single_stop_payload_sizes() {
    let sizes: Vec<usize> = (0u8..4).map(size_from_tag).collect();
    assert_eq!(sizes, vec![0, 3, 1, 4]);
}

#[test]
fn gradient_payload_sizes_follow_the_rule() {
    let sizes: Vec<usize> = (4u8..8).map(size_from_tag).collect();
    assert_eq!(sizes, vec![0, 6, 2, 8]);
}

#[test]
fn color_variants_decode() {
    let bytes = [
        0u8, // none
        1, 10, 20, 30, // rgb
        3, 1, 2, 3, 0xFF, // rgba
        5, 1, 2, 3, 4, 5, 6, // rgb gradient
        7, 1, 2, 3, 4, 5, 6, 7, 8, // rgba gradient
    ];
    let mut cur = DecoderCursor::new(&bytes);
    assert_eq!(Color::decode(&mut cur), Ok(Color::Neutral));
    assert_eq!(Color::decode(&mut cur), Ok(Color::Rgb(Rgb { r: 10, g: 20, b: 30 })));
    assert_eq!(Color::decode(&mut cur), Ok(Color::Rgba(Rgba { r: 1, g: 2, b: 3, a: -1 })));
    assert_eq!(
        Color::decode(&mut cur),
        Ok(Color::RgbGradient(Rgb { r: 1, g: 2, b: 3 }, Rgb { r: 4, g: 5, b: 6 }))
    );
    assert_eq!(
        Color::decode(&mut cur),
        Ok(Color::RgbaGradient(Rgba { r: 1, g: 2, b: 3, a: 4 }, Rgba { r: 5, g: 6, b: 7, a: 8 }))
    );
    assert_eq!(cur.remaining().len(), 0);
}

#[test]
fn unknown_color_tag_is_refused() {
    for tag in [2u8, 4, 6, 8, 0x81] {
        let bytes = [tag, 0, 0, 0, 0, 0, 0, 0, 0];
        let mut cur = DecoderCursor::new(&bytes);
        assert_eq!(Color::decode(&mut cur), Err(DecodeError::InvalidTag));
        assert_eq!(cur.remaining().len(), 9);
    }
}

#[test]
fn truncated_color_payload() {
    let bytes = [7u8, 1, 2, 3];
    let mut cur = DecoderCursor::new(&bytes);
    assert_eq!(Color::decode(&mut cur), Err(DecodeError::Truncated));
    assert_eq!(cur.remaining().len(), 4);
}

#[test]
fn colors_resolve_to_their_first_stop() {
    let rgb = Rgb { r: 1, g: 2, b: 3 };
    let rgba = Rgba { r: 4, g: 5, b: 6, a: 7 };
    assert_eq!(Rgba::from(Color::Neutral), Rgba { r: 0, g: 0, b: 0, a: 0 });
    assert_eq!(Rgba::from(Color::Rgb(rgb)), Rgba { r: 1, g: 2, b: 3, a: 0 });
    assert_eq!(Rgba::from(Color::Rgba(rgba)), rgba);
    assert_eq!(Rgba::from(Color::RgbGradient(rgb, Rgb { r: 9, g: 9, b: 9 })), Rgba { r: 1, g: 2, b: 3, a: 0 });
    assert_eq!(Rgba::from(Color::RgbaGradient(rgba, Rgba { r: 9, g: 9, b: 9, a: 9 })), rgba);
}

#[test]
fn round_up_examples() {
    assert_eq!(round_up_to_power_of_two(0), 0);
    assert_eq!(round_up_to_power_of_two(1), 1);
    assert_eq!(round_up_to_power_of_two(2), 2);
    assert_eq!(round_up_to_power_of_two(3), 4);
    assert_eq!(round_up_to_power_of_two(513), 1024);
    assert_eq!(round_up_to_power_of_two(1024), 1024);
    assert_eq!(round_up_to_power_of_two(0x8000_0000), 0x8000_0000);
}

#[test]
fn signed_round_up_examples() {
    assert_eq!(first_greater_power_of_two(-5), -5);
    assert_eq!(first_greater_power_of_two(1), 1);
    assert_eq!(first_greater_power_of_two(100), 128);
    assert_eq!(first_greater_power_of_two(0x4000_0000), 0x4000_0000);
}

fn tgam_bytes(marker: u8, magic: &[u8; 3], width: u16, height: u16, rgba: &[u8], mask: &[u8]) -> Vec<u8> {
    let mut b = vec![marker];
    b.extend_from_slice(magic);
    b.extend_from_slice(&width.to_le_bytes());
    b.extend_from_slice(&height.to_le_bytes());
    b.extend_from_slice(&(rgba.len() as u32).to_le_bytes());
    b.extend_from_slice(&(mask.len() as u32).to_le_bytes());
    if marker == 0x6D {
        b.push(4);
    }
    b.extend_from_slice(rgba);
    b.extend_from_slice(mask);
    b
}

#[test]
fn tgam_pads_to_power_of_two() {
    let payload: Vec<u8> = (0..400).map(|i| i as u8).collect();
    let bytes = tgam_bytes(0x00, b"AGT", 10, 10, &payload, &[]);
    let (tgam, used) = Tgam::try_read(&bytes).unwrap();
    assert_eq!(used, bytes.len());
    assert_eq!(tgam.width(), 16);
    assert_eq!(tgam.height(), 16);
    assert_eq!(tgam.rgba(), &payload[..]);
    assert_eq!(tgam.mask().len(), 0);
    assert_eq!(tgam.mask_resize(), 1);
}

#[test]
fn tgam_bad_magic() {
    let payload = vec![0u8; 400];
    let bytes = tgam_bytes(0x00, b"XYZ", 10, 10, &payload, &[]);
    assert!(matches!(Tgam::try_read(&bytes), Err(DecodeError::BadMagic)));
}

#[test]
fn tgam_resize_marker_and_mask() {
    let bytes = tgam_bytes(0x6D, b"AGT", 3, 5, &[1, 2, 3, 4], &[9, 8]);
    let (tgam, used) = Tgam::try_read(&bytes).unwrap();
    assert_eq!(used, bytes.len());
    assert_eq!(tgam.mask_resize(), 4);
    assert_eq!(tgam.rgba(), &[1u8, 2, 3, 4][..]);
    assert_eq!(tgam.mask(), &[9u8, 8][..]);
    assert_eq!(tgam.width(), 4);
    assert_eq!(tgam.height(), 8);
}

#[test]
fn tgam_truncated_payload() {
    let mut bytes = tgam_bytes(0x00, b"AGT", 2, 2, &[0; 16], &[]);
    bytes.pop();
    assert!(matches!(Tgam::try_read(&bytes), Err(DecodeError::Truncated)));
    assert!(matches!(Tgam::try_read(&[0, b'A']), Err(DecodeError::Truncated)));
}

#[test]
fn tgam_surface_is_zero_padded() {
    let payload: Vec<u8> = (1..=24).collect();
    let bytes = tgam_bytes(0x00, b"AGT", 3, 2, &payload, &[]);
    let (tgam, _) = Tgam::try_read(&bytes).unwrap();
    let surface = tgam.padded_rgba();
    assert_eq!(surface.len(), 4 * 2 * 4);
    assert_eq!(&surface[0..12], &payload[0..12]);
    assert_eq!(&surface[12..16], &[0u8; 4][..]);
    assert_eq!(&surface[16..28], &payload[12..24]);
    assert_eq!(&surface[28..32], &[0u8; 4][..]);
}
