use face_blur::{
    check_patches, clamp_box, composite_frame, decode_frame, detection_frame, face_crops,
    get_millis, loop_faces, luma, process, process_light, resize_frame, BoundingBox,
    ConfigError, Frame, FrameError, Region, Resolution, Rgba, Settings,
};

fn pattern(width: u32, height: u32) -> Frame {
    let mut pixels = Vec::new();
    for y in 0..height {
        for x in 0..width {
            pixels.push(Rgba {
                r: (x % 251) as u8,
                g: (y % 241) as u8,
                b: ((x * 7 + y * 3) % 256) as u8,
                a: 255,
            });
        }
    }
    Frame { width, height, pixels }
}

fn at(f: &Frame, x: u32, y: u32) -> Rgba {
    f.pixels[(y * f.width + x) as usize]
}

fn blur(f: &Frame, sigma: f32) -> Frame {
    if f.width == 0 || f.height == 0 {
        return Frame { width: f.width, height: f.height, pixels: f.pixels.clone() };
    }
    let raw = f.to_raw();
    let img = image::RgbaImage::from_raw(f.width, f.height, raw).unwrap();
    let out = image::imageops::blur(&img, sigma).into_raw();
    Frame::from_raw(f.width, f.height, &out)
}

fn settings(cw: u32, ch: u32, dw: u32, dh: u32) -> Settings {
    Settings {
        framerate: 30,
        capture: Resolution { width: cw, height: ch },
        detection: Resolution { width: dw, height: dh },
    }
}

fn run(s: &Settings, source: &Frame, boxes: &[BoundingBox]) -> Frame {
    let low = detection_frame(s, source);
    let (regions, crops) = face_crops(&low, &boxes.to_vec());
    let patches: Vec<Frame> = crops.iter().map(|c| blur(c, 1.5)).collect();
    composite_frame(s, source.duplicate(), &regions, &patches).unwrap()
}

#[test]
fn default_settings() {
    let s = Settings::default();
    assert_eq!(s.capture, Resolution { width: 1280, height: 720 });
    assert_eq!(s.detection, Resolution { width: 340, height: 180 });
    assert_eq!(s.framerate, 30);
    assert_eq!(s.validate(), Ok(()));
    assert!(!s.uses_fast_path());
}

#[test]
fn validate_rejects_bad_settings() {
    assert_eq!(settings(0, 480, 0, 480).validate(), Err(ConfigError::ZeroResolution));
    assert_eq!(settings(640, 480, 640, 0).validate(), Err(ConfigError::ZeroResolution));
    assert_eq!(
        settings(640, 480, 641, 480).validate(),
        Err(ConfigError::DetectionExceedsCapture)
    );
    assert_eq!(
        settings(640, 480, 320, 481).validate(),
        Err(ConfigError::DetectionExceedsCapture)
    );
    assert_eq!(settings(640, 480, 640, 480).validate(), Ok(()));
    assert!(settings(640, 480, 640, 480).uses_fast_path());
}

#[test]
fn clamp_box_inside() {
    let r = clamp_box(BoundingBox { x: 10, y: 20, width: 5, height: 6 }, 100, 100);
    assert_eq!(r, Region { x: 10, y: 20, width: 5, height: 6 });
}

#[test]
fn clamp_box_overhanging() {
    let r = clamp_box(BoundingBox { x: 90, y: -5, width: 20, height: 10 }, 100, 50);
    assert_eq!(r, Region { x: 90, y: 0, width: 10, height: 5 });
}

#[test]
fn clamp_box_fully_outside() {
    let r = clamp_box(BoundingBox { x: -30, y: 200, width: 10, height: 10 }, 100, 50);
    assert_eq!(r.width * r.height, 0);
    let r = clamp_box(BoundingBox { x: i32::MAX, y: i32::MIN, width: u32::MAX, height: 1 }, 100, 50);
    assert_eq!(r.width * r.height, 0);
}

#[test]
fn crop_and_paste() {
    let f = pattern(8, 6);
    let region = Region { x: 2, y: 1, width: 3, height: 2 };
    let c = f.crop(region);
    assert_eq!((c.width, c.height), (3, 2));
    assert_eq!(at(&c, 0, 0), at(&f, 2, 1));
    assert_eq!(at(&c, 2, 1), at(&f, 4, 2));
    let red = Rgba { r: 255, g: 0, b: 0, a: 255 };
    let patch = Frame::filled(3, 2, red);
    let mut g = f.duplicate();
    g.paste(&patch, region);
    for y in 0..6 {
        for x in 0..8 {
            let inside = (2..5).contains(&x) && (1..3).contains(&y);
            assert_eq!(at(&g, x, y), if inside { red } else { at(&f, x, y) });
        }
    }
}

#[test]
fn overlay_skips_transparent() {
    let mut base = pattern(4, 4);
    let orig = base.duplicate();
    let mut top = Frame::filled(4, 4, Rgba::transparent());
    let blue = Rgba { r: 0, g: 0, b: 255, a: 255 };
    top.pixels[5] = blue;
    base.overlay(&top);
    for i in 0..16 {
        assert_eq!(base.pixels[i], if i == 5 { blue } else { orig.pixels[i] });
    }
}

#[test]
fn raw_round_trip() {
    let f = pattern(3, 2);
    let raw = f.to_raw();
    assert_eq!(raw.len(), 24);
    assert_eq!(&raw[4..8], &[1, 0, 7, 255]);
    let g = Frame::from_raw(3, 2, &raw);
    assert_eq!(g.pixels, f.pixels);
}

#[test]
fn resize_frame_nearest() {
    let f = pattern(2, 2);
    let r = resize_frame(&f, 4, 4);
    assert_eq!((r.width, r.height), (4, 4));
    assert_eq!(r.pixels.len(), 16);
    for y in 0..4 {
        for x in 0..4 {
            assert_eq!(at(&r, x, y), at(&f, x / 2, y / 2));
        }
    }
    let same = resize_frame(&f, 2, 2);
    assert_eq!(same.pixels, f.pixels);
}

#[test]
fn luma_of_pixels() {
    let f = Frame {
        width: 2,
        height: 1,
        pixels: vec![Rgba { r: 255, g: 255, b: 255, a: 255 }, Rgba { r: 0, g: 0, b: 0, a: 255 }],
    };
    assert_eq!(luma(&f), vec![255, 0]);
    let g = Frame {
        width: 1,
        height: 1,
        pixels: vec![Rgba { r: 100, g: 50, b: 10, a: 0 }],
    };
    // (2126 * 100 + 7152 * 50 + 722 * 10) / 10000
    assert_eq!(luma(&g), vec![57]);
}

#[test]
fn decode_png_frame() {
    let img = image::RgbaImage::from_fn(3, 2, |x, y| image::Rgba([x as u8, y as u8, 9, 255]));
    let mut bytes = std::io::Cursor::new(Vec::new());
    img.write_to(&mut bytes, image::ImageOutputFormat::Png).unwrap();
    let f = decode_frame(bytes.get_ref()).unwrap();
    assert_eq!((f.width, f.height), (3, 2));
    assert_eq!(at(&f, 2, 1), Rgba { r: 2, g: 1, b: 9, a: 255 });
}

#[test]
fn decode_garbage_fails() {
    assert_eq!(decode_frame(&[1, 2, 3, 4]).err(), Some(FrameError::Decode));
}

#[test]
fn millis_of_duration() {
    assert_eq!(get_millis(0, 0), 0);
    assert_eq!(get_millis(2, 345_678_901), 2345);
    assert_eq!(get_millis(1, 999_999_999), 1999);
}

#[test]
fn fast_path_no_faces_is_identity() {
    let s = settings(64, 48, 64, 48);
    let f = pattern(64, 48);
    let out = process_light(f.duplicate(), &vec![], &vec![]);
    assert_eq!(out.pixels, f.pixels);
    let out = run(&s, &f, &[]);
    assert_eq!(out.pixels, f.pixels);
}

#[test]
fn scaled_path_no_faces_twice_is_identity() {
    let s = settings(128, 72, 34, 18);
    let f = pattern(128, 72);
    let first = run(&s, &f, &[]);
    let second = run(&s, &f, &[]);
    assert_eq!(first.pixels, f.pixels);
    assert_eq!(second.pixels, first.pixels);
}

#[test]
fn fast_path_single_box() {
    let s = settings(640, 480, 640, 480);
    let f = pattern(640, 480);
    let out = run(&s, &f, &[BoundingBox { x: 100, y: 100, width: 50, height: 50 }]);
    assert_eq!((out.width, out.height), (640, 480));
    let expected = blur(&f.crop(Region { x: 100, y: 100, width: 50, height: 50 }), 1.5);
    let mut changed = 0;
    for y in 0..480 {
        for x in 0..640 {
            if (100..150).contains(&x) && (100..150).contains(&y) {
                let b = at(&expected, x - 100, y - 100);
                assert_eq!(at(&out, x, y), b);
                if b != at(&f, x, y) {
                    changed += 1;
                }
            } else {
                assert_eq!(at(&out, x, y), at(&f, x, y));
            }
        }
    }
    assert!(changed > 0);
}

#[test]
fn scaled_path_single_box() {
    let s = settings(1280, 720, 340, 180);
    let f = pattern(1280, 720);
    let out = run(&s, &f, &[BoundingBox { x: 10, y: 10, width: 20, height: 20 }]);
    assert_eq!((out.width, out.height), (1280, 720));
    // Detection columns and rows 10..30 cover capture columns 37.6..112.9 and
    // rows 40..120; nearest sampling may move each edge by one pixel.
    let mut changed = 0;
    for y in 0..720u32 {
        for x in 0..1280u32 {
            let near = (36..115).contains(&x) && (38..122).contains(&y);
            if !near {
                assert_eq!(at(&out, x, y), at(&f, x, y));
            } else if at(&out, x, y) != at(&f, x, y) {
                changed += 1;
            }
        }
    }
    assert!(changed > 0);
    assert_ne!(at(&out, 75, 80), at(&f, 75, 80));
}

#[test]
fn box_past_edge_is_clamped() {
    let s = settings(64, 48, 64, 48);
    let f = pattern(64, 48);
    let out = run(&s, &f, &[BoundingBox { x: 50, y: 40, width: 30, height: 30 }]);
    assert_eq!((out.width, out.height), (64, 48));
    let expected = blur(&f.crop(Region { x: 50, y: 40, width: 14, height: 8 }), 1.5);
    for y in 0..48 {
        for x in 0..64 {
            if x >= 50 && y >= 40 {
                assert_eq!(at(&out, x, y), at(&expected, x - 50, y - 40));
            } else {
                assert_eq!(at(&out, x, y), at(&f, x, y));
            }
        }
    }
}

#[test]
fn disjoint_boxes_in_either_order() {
    for s in [settings(64, 48, 64, 48), settings(128, 96, 64, 48)] {
        let f = pattern(s.capture.width, s.capture.height);
        let a = BoundingBox { x: 2, y: 2, width: 10, height: 10 };
        let b = BoundingBox { x: 20, y: 5, width: 12, height: 8 };
        let one = run(&s, &f, &[a, b]);
        let two = run(&s, &f, &[b, a]);
        assert_eq!(one.pixels, two.pixels);
    }
}

#[test]
fn later_box_wins_on_overlap() {
    let base = Frame::filled(8, 8, Rgba::transparent());
    let red = Rgba { r: 255, g: 0, b: 0, a: 255 };
    let green = Rgba { r: 0, g: 255, b: 0, a: 255 };
    let regions = vec![Region { x: 0, y: 0, width: 4, height: 4 }, Region { x: 2, y: 2, width: 4, height: 4 }];
    let patches = vec![Frame::filled(4, 4, red), Frame::filled(4, 4, green)];
    let out = loop_faces(base, &regions, &patches);
    assert_eq!(at(&out, 3, 3), green);
    assert_eq!(at(&out, 1, 1), red);
    assert_eq!(at(&out, 7, 7), Rgba::transparent());
}

#[test]
fn process_scaled_output_shape() {
    let s = settings(40, 30, 20, 15);
    let f = pattern(40, 30);
    let red = Rgba { r: 255, g: 0, b: 0, a: 255 };
    let out = process(&s, f.duplicate(), &vec![Region { x: 5, y: 5, width: 2, height: 2 }], &vec![Frame::filled(2, 2, red)]);
    assert_eq!((out.width, out.height), (40, 30));
    for y in 0..30 {
        for x in 0..40 {
            let inside = (10..14).contains(&x) && (10..14).contains(&y);
            assert_eq!(at(&out, x, y), if inside { red } else { at(&f, x, y) });
        }
    }
}

#[test]
fn composite_rejects_mismatch() {
    let s = settings(64, 48, 32, 24);
    let red = Rgba { r: 255, g: 0, b: 0, a: 255 };
    let wrong_size = pattern(32, 24);
    assert_eq!(composite_frame(&s, wrong_size, &vec![], &vec![]).err(), Some(FrameError::SizeMismatch));
    let regions = vec![Region { x: 30, y: 0, width: 4, height: 4 }];
    let patches = vec![Frame::filled(4, 4, red)];
    assert!(!check_patches(&regions, &patches, 32, 24));
    assert_eq!(composite_frame(&s, pattern(64, 48), &regions, &patches).err(), Some(FrameError::SizeMismatch));
    let regions = vec![Region { x: 0, y: 0, width: 4, height: 4 }];
    let patches = vec![Frame::filled(3, 4, red)];
    assert_eq!(composite_frame(&s, pattern(64, 48), &regions, &patches).err(), Some(FrameError::SizeMismatch));
    let bad = Frame { width: 4, height: 4, pixels: vec![red; 15] };
    assert!(!bad.is_well_formed());
    assert_eq!(composite_frame(&s, pattern(64, 48), &regions, &vec![bad]).err(), Some(FrameError::SizeMismatch));
}

#[test]
fn disjoint_boxes_in_any_order() {
    for s in [settings(64, 48, 64, 48), settings(128, 96, 64, 48)] {
        let f = pattern(s.capture.width, s.capture.height);
        let a = BoundingBox { x: 2, y: 2, width: 10, height: 10 };
        let b = BoundingBox { x: 20, y: 5, width: 12, height: 8 };
        let c = BoundingBox { x: 40, y: 30, width: 30, height: 30 };
        let first = run(&s, &f, &[a, b, c]);
        for order in [[a, c, b], [b, a, c], [b, c, a], [c, a, b], [c, b, a]] {
            assert_eq!(run(&s, &f, &order).pixels, first.pixels);
        }
    }
}

#[test]
fn equal_resolutions_scaled_path_matches_fast_path() {
    let s = settings(32, 24, 32, 24);
    let f = pattern(32, 24);
    let red = Rgba { r: 255, g: 0, b: 0, a: 255 };
    let regions = vec![Region { x: 3, y: 4, width: 5, height: 6 }];
    let patches = vec![Frame::filled(5, 6, red)];
    let fast = process_light(f.duplicate(), &regions, &patches);
    let scaled = process(&s, f.duplicate(), &regions, &patches);
    assert_eq!(fast.pixels, scaled.pixels);
}
