use yojo_art::image::{decode_frames, ImageStore, LoadStep};

fn png_bytes() -> Vec<u8> {
    let img = image::RgbaImage::from_raw(2, 1, vec![255, 0, 0, 255, 0, 255, 0, 128]).unwrap();
    let mut out = std::io::Cursor::new(Vec::new());
    image::DynamicImage::ImageRgba8(img).write_to(&mut out, image::ImageFormat::Png).unwrap();
    out.into_inner()
}

#[test]
fn png_decodes_to_one_still_frame() {
    let frames = decode_frames(&png_bytes()).unwrap();
    assert_eq!(frames.len(), 1);
    assert_eq!(frames[0].0, 0);
    assert_eq!((frames[0].1.width, frames[0].1.height), (2, 1));
    assert_eq!(frames[0].1.rgba, vec![255, 0, 0, 255, 0, 255, 0, 128]);
}

#[test]
fn unknown_bytes_decode_to_nothing() {
    assert!(decode_frames(&vec![1, 2, 3, 4, 5, 6, 7, 8]).is_none());
}

#[test]
fn decoded_image_goes_through_the_store_to_the_renderer() {
    let mut store = ImageStore::new();
    let url = "https://cdn.example/p.png";
    assert!(matches!(store.request(url), LoadStep::Fetch(_)));
    store.finish(url, decode_frames(&png_bytes()));
    assert!(store.is_loaded(url));
    let frames = store.take_for_upload(url, true).unwrap();
    assert_eq!(frames.len(), 1);
    store.set_gpu(url, vec![yojo_art::image::GpuFrame { timestamp: 0, handle: 9, width: 2, height: 1 }]);
    assert_eq!(store.get(url, 1234), Some(9));
}

#[test]
fn cache_file_name_is_the_url_namespace_uuid() {
    let url = "https://cdn.example/a.webp";
    let mut store = ImageStore::new();
    let expected = uuid::Uuid::new_v3(&uuid::Uuid::NAMESPACE_URL, url.as_bytes()).to_string();
    assert_eq!(store.request(url), LoadStep::Fetch(expected));
}
