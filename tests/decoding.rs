use gym_raycaster::color::{argb, rgb};
use gym_raycaster::decode::{decode_frame, decode_texture, frame_from_rgba8, texture_from_rgb8};
use image::{ImageBuffer, ImageFormat, Rgb, Rgba};

fn png_rgb(w: u32, h: u32, raw: Vec<u8>) -> Vec<u8> {
    let img: ImageBuffer<Rgb<u8>, Vec<u8>> = ImageBuffer::from_raw(w, h, raw).unwrap();
    let mut out = std::io::Cursor::new(Vec::new());
    img.write_to(&mut out, ImageFormat::Png).unwrap();
    out.into_inner()
}

#[test]
fn png_decodes_to_packed_texture() {
    let bytes = png_rgb(2, 1, vec![1, 2, 3, 200, 100, 50]);
    let t = decode_texture(&bytes).unwrap();
    assert_eq!((t.w, t.h), (2, 1));
    assert_eq!(t.data, vec![rgb(1, 2, 3), rgb(200, 100, 50)]);
}

#[test]
fn png_with_alpha_decodes_to_frame() {
    let img: ImageBuffer<Rgba<u8>, Vec<u8>> = ImageBuffer::from_raw(1, 2, vec![10, 20, 30, 0, 40, 50, 60, 255]).unwrap();
    let mut out = std::io::Cursor::new(Vec::new());
    img.write_to(&mut out, ImageFormat::Png).unwrap();
    let f = decode_frame(&out.into_inner()).unwrap();
    assert_eq!((f.w, f.h), (1, 2));
    assert_eq!(f.rgba, vec![argb(0, 10, 20, 30), argb(255, 40, 50, 60)]);
    assert_eq!(f.sample(0, 0), (rgb(10, 20, 30), 0));
}

#[test]
fn garbage_is_not_an_image() {
    assert!(decode_texture(&vec![1, 2, 3, 4]).is_none());
    assert!(decode_frame(&Vec::new()).is_none());
}

#[test]
fn rasters_pack_row_major() {
    let t = texture_from_rgb8(1, 2, &vec![9, 8, 7, 6, 5, 4]).unwrap();
    assert_eq!(t.data, vec![rgb(9, 8, 7), rgb(6, 5, 4)]);
    assert!(texture_from_rgb8(0, 2, &vec![]).is_none());
    let f = frame_from_rgba8(1, 1, &vec![1, 2, 3, 4]).unwrap();
    assert_eq!(f.rgba, vec![0x0401_0203]);
}
