use voca::icon::{crop, fallback_icon, find_bounds, icon_of, load_icon, trim_transparency, Bounds};
use voca::picture::{bgra_to_rgba, darken, encode_outcome, encode_png, Picture};

#[test]
fn pictures_need_enough_bytes() {
    assert!(Picture::from_raw(2, 1, vec![0; 7]).is_none());
    assert_eq!(Picture::from_raw(2, 1, vec![0; 8]).unwrap().width, 2);
    assert_eq!(Picture::from_raw(2, 1, vec![0; 9]).unwrap().data.len(), 9);
    assert!(Picture::from_raw(u32::MAX, u32::MAX, vec![]).is_none());
    assert!(Picture::from_raw(0, 9, vec![]).is_some());
}

#[test]
fn darkening_leaves_two_fifths() {
    assert_eq!(
        darken(&vec![255, 100, 4, 200, 2, 3, 5, 0, 9, 9]),
        vec![102, 40, 1, 200, 0, 1, 2, 0, 9, 9]
    );
    for b in 0..=255u8 {
        assert_eq!(darken(&vec![b, 0, 0, 0])[0], (b as u16 * 2 / 5) as u8);
    }
}

#[test]
fn red_and_blue_are_exchanged() {
    let pixels = vec![1, 2, 3, 4, 5, 6, 7, 8, 9];
    assert_eq!(bgra_to_rgba(&pixels), vec![3, 2, 1, 255, 7, 6, 5, 255, 9]);
    let twice = bgra_to_rgba(&bgra_to_rgba(&pixels));
    assert_eq!(twice, vec![1, 2, 3, 255, 5, 6, 7, 255, 9]);
}

fn picture(width: u32, height: u32, visible: &[(u32, u32)]) -> Picture {
    let mut data = Vec::new();
    for y in 0..height {
        for x in 0..width {
            let a = if visible.contains(&(x, y)) { 11 } else { 10 };
            data.extend_from_slice(&[x as u8, y as u8, 77, a]);
        }
    }
    Picture { width, height, data }
}

#[test]
fn bounds_of_visible_pixels() {
    let p = picture(6, 5, &[(2, 3), (4, 1)]);
    assert_eq!(find_bounds(&p), Some(Bounds { min_x: 2, max_x: 4, min_y: 1, max_y: 3 }));
    assert_eq!(find_bounds(&picture(6, 5, &[])), None);
    let q = picture(6, 5, &[(0, 0), (5, 4)]);
    assert_eq!(find_bounds(&q), Some(Bounds { min_x: 0, max_x: 5, min_y: 0, max_y: 4 }));
}

#[test]
fn cropping_moves_pixels() {
    let p = picture(6, 5, &[]);
    let c = crop(&p, Bounds { min_x: 1, max_x: 2, min_y: 3, max_y: 4 });
    assert_eq!((c.width, c.height), (2, 2));
    assert_eq!(c.data, vec![1, 3, 77, 10, 2, 3, 77, 10, 1, 4, 77, 10, 2, 4, 77, 10]);
}

#[test]
fn trimming_is_tight_and_stable() {
    let once = trim_transparency(picture(6, 5, &[(2, 3), (4, 1)]));
    assert_eq!((once.width, once.height), (3, 3));
    let data = once.data.clone();
    let twice = trim_transparency(once);
    assert_eq!((twice.width, twice.height), (3, 3));
    assert_eq!(twice.data, data);
    let invisible = trim_transparency(picture(2, 2, &[]));
    assert_eq!((invisible.width, invisible.height), (2, 2));
}

#[test]
fn fallback_is_a_square_of_one_colour() {
    let f = fallback_icon();
    assert_eq!((f.width, f.height), (16, 16));
    assert_eq!(f.data.len(), 1024);
    assert!(f.data.chunks(4).all(|p| p == [205, 132, 255, 255]));
    assert_eq!(icon_of(None).data, f.data);
    assert_eq!(load_icon(b"no picture").data, f.data);
}

#[test]
fn captures_are_encoded_and_icons_read() {
    let p = picture(6, 5, &[(2, 3), (4, 1)]);
    let png = encode_png(&p).unwrap();
    assert_eq!(&png[..8], b"\x89PNG\r\n\x1a\n");
    let decoded = image::load_from_memory(&png).unwrap().to_rgba8();
    assert_eq!(decoded.dimensions(), (6, 5));
    assert_eq!(decoded.into_raw(), p.data);
    let icon = load_icon(&png);
    assert_eq!((icon.width, icon.height), (3, 3));
    assert_eq!(&icon.data[..4], &[2, 1, 77, 10]);
    assert_eq!(icon.data, trim_transparency(p).data);
}

#[test]
fn empty_captures_cannot_be_encoded() {
    let p = Picture { width: 0, height: 0, data: vec![] };
    assert!(encode_png(&p).unwrap_err().starts_with("Encode error: "));
    assert_eq!(encode_outcome(Err("bad".to_string())), Err("Encode error: bad".to_string()));
    assert_eq!(encode_outcome(Ok(vec![1])), Ok(vec![1]));
}
