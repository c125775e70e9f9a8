use collector::photos::{decode_picture, fresh_photo_name, jpeg_data_url, jpeg_data_url_text, make_thumbnail, photo_bytes, photo_data_url, Picture};

fn is_v4(u: &str) -> bool {
    let b: Vec<char> = u.chars().collect();
    b.len() == 36
        && b.iter().enumerate().all(|(i, c)| {
            if [8, 13, 18, 23].contains(&i) { *c == '-' } else { c.is_ascii_digit() || ('a'..='f').contains(c) }
        })
        && b[14] == '4'
        && "89ab".contains(b[19])
}

#[test]
fn fresh_names_are_uuid_and_extension() {
    let a = fresh_photo_name("/x/y/pic.png");
    let (u, ext) = a.split_once('.').unwrap();
    assert!(is_v4(u), "{a}");
    assert_eq!(ext, "png");
    let b = fresh_photo_name("/x/y/pic.png");
    assert_ne!(a, b);
    let c = fresh_photo_name("noext");
    assert!(c.ends_with(".jpg"));
    assert_eq!(c.len(), 40);
}

#[test]
fn data_urls_carry_base64() {
    assert_eq!(jpeg_data_url_text(&[]), "data:image/jpeg;base64,");
    assert_eq!(jpeg_data_url_text(&[0, 1, 2]), "data:image/jpeg;base64,AAEC");
    assert_eq!(jpeg_data_url_text(b"Man"), "data:image/jpeg;base64,TWFu");
    assert_eq!(jpeg_data_url_text(b"Ma"), "data:image/jpeg;base64,TWE=");
    assert_eq!(jpeg_data_url_text(&[0xff, 0xfe]), "data:image/jpeg;base64,//4=");
}

#[test]
fn thumbnails_fit_the_square() {
    let p = Picture::new(image::DynamicImage::new_rgb8(500, 300));
    assert_eq!((p.width(), p.height()), (500, 300));
    let t = make_thumbnail(&p);
    assert_eq!((t.width(), t.height()), (250, 150));
    let tall = Picture::new(image::DynamicImage::new_rgba8(100, 400));
    let t = make_thumbnail(&tall);
    assert_eq!((t.width(), t.height()), (63, 250));
    let exact = Picture::new(image::DynamicImage::new_rgb8(250, 250));
    let t = make_thumbnail(&exact);
    assert_eq!((t.width(), t.height()), (250, 250));
}

#[test]
fn full_views_are_capped_at_max_px() {
    let p = Picture::new(image::DynamicImage::new_rgb8(400, 200));
    let (url, w, h) = photo_data_url(&p, 100).unwrap();
    assert!(url.starts_with("data:image/jpeg;base64,/9j/"));
    assert_eq!((w, h), (100, 50));
    let (url, w, h) = photo_data_url(&p, 1000).unwrap();
    assert!(url.starts_with("data:image/jpeg;base64,"));
    assert_eq!((w, h), (400, 200));
    let (bytes, w, h) = photo_bytes(&p, 400).unwrap();
    assert_eq!(&bytes[..2], &[0xff, 0xd8]);
    assert_eq!((w, h), (400, 200));
    // an RGBA picture is converted before JPEG encoding
    let rgba = Picture::new(image::DynamicImage::new_rgba8(10, 10));
    assert!(jpeg_data_url(&rgba).is_some());
}

#[test]
fn pictures_decode_from_encoded_bytes() {
    let p = Picture::new(image::DynamicImage::new_rgb8(30, 20));
    let (bytes, _, _) = photo_bytes(&p, 100).unwrap();
    let back = decode_picture(&bytes).unwrap();
    assert_eq!((back.width(), back.height()), (30, 20));
    assert!(decode_picture(&[1, 2, 3]).is_none());
}

#[test]
fn encoding_fails_only_on_sizes_jpeg_cannot_hold() {
    let empty = Picture::new(image::DynamicImage::new_rgb8(0, 5));
    assert!(jpeg_data_url(&empty).is_none());
    assert!(photo_bytes(&empty, 100).is_none());
    let wide = Picture::new(image::DynamicImage::new_luma8(65536, 1));
    assert!(jpeg_data_url(&wide).is_none());
    let (_, w, h) = photo_bytes(&wide, 1000).unwrap();
    assert_eq!((w, h), (1000, 1));
    assert!(photo_data_url(&wide, 70000).is_none());
    let edge = Picture::new(image::DynamicImage::new_luma8(65535, 1));
    assert!(jpeg_data_url(&edge).is_some());
}

#[test]
fn a_picture_hands_back_its_image() {
    let img = image::DynamicImage::new_rgb8(7, 3);
    let back = Picture::new(img.clone()).into_image();
    assert_eq!(back, img);
}

#[test]
fn encoded_bytes_are_a_whole_jpeg_stream_of_the_delivered_size() {
    let p = Picture::new(image::DynamicImage::new_rgb8(300, 120));
    let (b, w, h) = photo_bytes(&p, 100).unwrap();
    assert_eq!((w, h), (100, 40));
    assert_eq!(&b[..2], &[0xff, 0xd8]);
    assert_eq!(&b[b.len() - 2..], &[0xff, 0xd9]);
    assert_eq!(&b[20..22], &[0xff, 0xc0]);
    assert_eq!(&b[25..29], &[0, 40, 0, 100]);
    let big = Picture::new(image::DynamicImage::new_rgb8(700, 300));
    let (b2, _, _) = photo_bytes(&big, 1000).unwrap();
    assert_eq!(&b2[25..29], &[1, 44, 2, 188]);
    let back = decode_picture(&b).unwrap();
    assert_eq!((back.width(), back.height()), (100, 40));
}
