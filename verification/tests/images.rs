use genet_livery::images::{choose_source_bytes, decoded_size, image_intrinsic_size, image_source_bytes, PaintImages};

/// An uncompressed 24-bit BMP of the given size.
fn bmp(width: u32, height: u32) -> Vec<u8> {
    let row = (width * 3 + 3) / 4 * 4;
    let data_size = row * height;
    let mut bytes = Vec::new();
    bytes.extend_from_slice(b"BM");
    bytes.extend_from_slice(&(54 + data_size).to_le_bytes());
    bytes.extend_from_slice(&0u32.to_le_bytes());
    bytes.extend_from_slice(&54u32.to_le_bytes());
    bytes.extend_from_slice(&40u32.to_le_bytes());
    bytes.extend_from_slice(&(width as i32).to_le_bytes());
    bytes.extend_from_slice(&(height as i32).to_le_bytes());
    bytes.extend_from_slice(&1u16.to_le_bytes());
    bytes.extend_from_slice(&24u16.to_le_bytes());
    bytes.extend_from_slice(&0u32.to_le_bytes());
    bytes.extend_from_slice(&data_size.to_le_bytes());
    bytes.extend_from_slice(&2835i32.to_le_bytes());
    bytes.extend_from_slice(&2835i32.to_le_bytes());
    bytes.extend_from_slice(&0u32.to_le_bytes());
    bytes.extend_from_slice(&0u32.to_le_bytes());
    bytes.resize(bytes.len() + data_size as usize, 0x80);
    bytes
}

const GIF_1X1: &str = "data:image/gif;base64,R0lGODlhAQABAIAAAAAAAP///yH5BAEAAAAALAAAAAABAAEAAAIBRAA7";

#[test]
fn data_urls_stand_for_their_own_body() {
    let host = b"host bytes".to_vec();
    assert_eq!(image_source_bytes("data:,A%20B", None), Some(b"A B".to_vec()));
    assert_eq!(image_source_bytes("data:;base64,aGk=", Some(&host)), Some(b"hi".to_vec()));
    assert_eq!(image_source_bytes("data:;base64,a", Some(&host)), None);
    assert_eq!(image_source_bytes("img.png", Some(&host)), Some(host.clone()));
    assert_eq!(image_source_bytes("img.png", None), None);
}

#[test]
fn choosing_bytes_prefers_the_data_url_outcome() {
    let host = vec![1u8, 2];
    assert_eq!(choose_source_bytes(Some(Some(vec![9])), Some(&host)), Some(vec![9]));
    assert_eq!(choose_source_bytes(Some(None), Some(&host)), None);
    assert_eq!(choose_source_bytes(None, Some(&host)), Some(vec![1, 2]));
    assert_eq!(choose_source_bytes(None, None), None);
}

#[test]
fn intrinsic_sizes_come_from_the_decoded_image() {
    let host = bmp(2, 3);
    assert_eq!(image_intrinsic_size("pic.bmp", Some(&host)), Some((2, 3)));
    assert_eq!(image_intrinsic_size(GIF_1X1, None), Some((1, 1)));
    let garbage = b"not an image".to_vec();
    assert_eq!(image_intrinsic_size("pic.bmp", Some(&garbage)), None);
    assert_eq!(image_intrinsic_size("pic.bmp", None), None);
}

#[test]
fn each_url_is_decoded_once_and_keeps_its_key() {
    let mut images = PaintImages::new();
    let first = bmp(2, 3);
    let second = bmp(5, 1);
    assert_eq!(images.image_key_for("a.bmp", Some(&first)), Some(1));
    assert_eq!(images.image_key_for("a.bmp", None), Some(1));
    assert_eq!(images.image_key_for("b.bmp", Some(&second)), Some(2));
    assert_eq!(images.image_key_for("missing.bmp", None), None);
    assert_eq!(images.image_key_for(GIF_1X1, None), Some(3));
    assert_eq!(images.len(), 3);
    assert_eq!(images.image_size(1), Some((2, 3)));
    assert_eq!(images.image_size(2), Some((5, 1)));
    assert_eq!(images.image_size(3), Some((1, 1)));
    assert_eq!(images.image_size(0), None);
    assert_eq!(images.image_size(4), None);
}

#[test]
fn decoded_size_reads_the_dimensions() {
    assert_eq!(decoded_size(Some((4, 7, vec![0u8; 112]))), Some((4, 7)));
    assert_eq!(decoded_size(None), None);
}

#[test]
fn keep_decoded_appends_under_the_next_key() {
    let mut images = PaintImages::new();
    assert_eq!(images.keep_decoded("x.png", Some((1, 2, vec![9u8; 8]))), Some(1));
    assert_eq!(images.keep_decoded("y.png", None), None);
    assert_eq!(images.len(), 1);
    assert_eq!(images.keep_decoded("z.png", Some((3, 1, vec![1u8; 12]))), Some(2));
    assert_eq!(images.image_size(2), Some((3, 1)));
    assert_eq!(images.image_size(1), Some((1, 2)));
}
