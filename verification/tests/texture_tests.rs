use matrix_renderer::pipelines::texture::{MatrixTexture, MatrixTextureLoadError};

#[test]
fn decodes_an_encoded_image() {
    // encode a tiny 2x1 RGBA image with the same library the decoder
    // relies on, then run it through the verified loader
    let img = image::RgbaImage::from_raw(2, 1, vec![255, 0, 0, 255, 0, 255, 0, 128]).unwrap();
    let mut bytes: Vec<u8> = Vec::new();
    image::DynamicImage::ImageRgba8(img)
        .write_to(&mut std::io::Cursor::new(&mut bytes), image::ImageOutputFormat::Png)
        .unwrap();
    let tex = MatrixTexture::from_bytes(&bytes).unwrap();
    assert_eq!(tex.width(), 2);
    assert_eq!(tex.height(), 1);
    let px = tex.pixels();
    assert_eq!(px.len(), 8);
    assert_eq!(&px[0..4], &[255, 0, 0, 255]);
    assert_eq!(&px[4..8], &[0, 255, 0, 128]);
}

#[test]
fn rejects_undecodable_bytes() {
    let junk: Vec<u8> = vec![1, 2, 3, 4, 5];
    let r = MatrixTexture::from_bytes(&junk);
    assert!(matches!(r, Err(MatrixTextureLoadError::ImageError(_))));
}

#[test]
fn io_errors_are_distinguished() {
    let e = MatrixTextureLoadError::IOError("missing file".to_string());
    assert!(matches!(e, MatrixTextureLoadError::IOError(_)));
}
