use lira::forge::ForgeError;
use lira::forge::FrameFile;
use lira::forge::PixelImage;
use lira::forge::base_name;
use lira::forge::decode_image;
use lira::forge::encode_png;
use lira::forge::forge_directory;
use lira::forge::lex_le;

fn solid(width: u32, height: u32, px: [u8; 4]) -> PixelImage {
    let mut img = PixelImage::new(width, height);
    for y in 0..height {
        for x in 0..width {
            img.set_pixel(x, y, px);
        }
    }
    img
}

fn png_of(img: &PixelImage) -> Vec<u8> {
    encode_png(img).expect("encoding a well-formed image succeeds")
}

fn frame_file(path: &str, stem: &str, data: Vec<u8>) -> FrameFile {
    FrameFile {
        path: path.as_bytes().to_vec(),
        stem: stem.as_bytes().to_vec(),
        data,
    }
}

fn pixel(img: &PixelImage, x: u32, y: u32) -> [u8; 4] {
    [
        img.pixel_byte(x, y, 0),
        img.pixel_byte(x, y, 1),
        img.pixel_byte(x, y, 2),
        img.pixel_byte(x, y, 3),
    ]
}

const RED: [u8; 4] = [255, 0, 0, 255];
const GREEN: [u8; 4] = [0, 255, 0, 255];
const BLUE: [u8; 4] = [0, 0, 255, 255];

#[test]
fn base_name_splits_at_the_first_underscore() {
    assert_eq!(base_name(&b"hero_00".to_vec()), Some(b"hero".to_vec()));
    assert_eq!(base_name(&b"a_b_c".to_vec()), Some(b"a".to_vec()));
    assert_eq!(base_name(&b"_tail".to_vec()), Some(b"".to_vec()));
    assert_eq!(base_name(&b"standalone".to_vec()), None);
    assert_eq!(base_name(&b"".to_vec()), None);
}

#[test]
fn lexicographic_order_on_paths() {
    assert!(lex_le(&b"a/hero_00.png".to_vec(), &b"a/hero_01.png".to_vec()));
    assert!(!lex_le(&b"a/hero_01.png".to_vec(), &b"a/hero_00.png".to_vec()));
    assert!(lex_le(&b"ab".to_vec(), &b"ab".to_vec()));
    assert!(lex_le(&b"a".to_vec(), &b"ab".to_vec()));
    assert!(lex_le(&b"".to_vec(), &b"a".to_vec()));
}

#[test]
fn blank_image_is_transparent() {
    let img = PixelImage::new(3, 2);
    assert_eq!(img.width, 3);
    assert_eq!(img.height, 2);
    assert_eq!(img.rgba.len(), 24);
    assert_eq!(pixel(&img, 2, 1), [0, 0, 0, 0]);
}

#[test]
fn set_pixel_hits_only_its_pixel() {
    let mut img = PixelImage::new(3, 2);
    img.set_pixel(1, 1, RED);
    assert_eq!(pixel(&img, 1, 1), RED);
    assert_eq!(pixel(&img, 0, 1), [0, 0, 0, 0]);
    assert_eq!(pixel(&img, 1, 0), [0, 0, 0, 0]);
}

#[test]
fn png_round_trip_preserves_pixels() {
    let img = solid(5, 4, BLUE);
    let bytes = png_of(&img);
    let back = decode_image(&bytes).expect("a fresh PNG decodes");
    assert_eq!(back.width, 5);
    assert_eq!(back.height, 4);
    assert_eq!(back.rgba, img.rgba);
}

#[test]
fn decode_rejects_junk() {
    assert!(decode_image(&b"not a png at all".to_vec()).is_none());
}

#[test]
fn hero_frames_become_one_strip() {
    let files = vec![
        frame_file("forge/u/hero_00.png", "hero_00", png_of(&solid(10, 20, RED))),
        frame_file("forge/u/hero_01.png", "hero_01", png_of(&solid(10, 20, GREEN))),
        frame_file("forge/u/hero_02.png", "hero_02", png_of(&solid(10, 20, BLUE))),
    ];
    let outs = forge_directory(&files).expect("all frames decode");
    assert_eq!(outs.len(), 1);
    let (name, strip) = &outs[0];
    assert_eq!(name, &b"hero".to_vec());
    assert_eq!(strip.width, 30);
    assert_eq!(strip.height, 20);
    for y in [0, 10, 19] {
        for x in 0..10 {
            assert_eq!(pixel(strip, x, y), RED);
            assert_eq!(pixel(strip, x + 10, y), GREEN);
            assert_eq!(pixel(strip, x + 20, y), BLUE);
        }
    }
}

#[test]
fn frame_order_follows_paths_not_input_order() {
    let files = vec![
        frame_file("forge/u/hero_01.png", "hero_01", png_of(&solid(4, 4, GREEN))),
        frame_file("forge/u/hero_02.png", "hero_02", png_of(&solid(4, 4, BLUE))),
        frame_file("forge/u/hero_00.png", "hero_00", png_of(&solid(4, 4, RED))),
    ];
    let outs = forge_directory(&files).expect("all frames decode");
    let (_, strip) = &outs[0];
    assert_eq!(strip.width, 12);
    assert_eq!(pixel(strip, 0, 0), RED);
    assert_eq!(pixel(strip, 4, 0), GREEN);
    assert_eq!(pixel(strip, 8, 0), BLUE);
}

#[test]
fn file_without_underscore_produces_no_output() {
    let files = vec![frame_file(
        "forge/u/standalone.png",
        "standalone",
        png_of(&solid(10, 20, RED)),
    )];
    let outs = forge_directory(&files).expect("nothing to decode, nothing fails");
    assert!(outs.is_empty());
}

#[test]
fn ungrouped_file_is_skipped_beside_a_group() {
    let files = vec![
        frame_file("forge/u/standalone.png", "standalone", png_of(&solid(2, 2, BLUE))),
        frame_file("forge/u/hero_00.png", "hero_00", png_of(&solid(2, 2, RED))),
        frame_file("forge/u/hero_01.png", "hero_01", png_of(&solid(2, 2, GREEN))),
    ];
    let outs = forge_directory(&files).expect("grouped frames decode");
    assert_eq!(outs.len(), 1);
    assert_eq!(outs[0].0, b"hero".to_vec());
    assert_eq!(outs[0].1.width, 4);
}

#[test]
fn undecodable_frame_aborts_the_run() {
    let files = vec![
        frame_file("forge/u/hero_00.png", "hero_00", png_of(&solid(10, 20, RED))),
        frame_file("forge/u/hero_01.png", "hero_01", b"garbage bytes".to_vec()),
        frame_file("forge/u/hero_02.png", "hero_02", png_of(&solid(10, 20, BLUE))),
    ];
    match forge_directory(&files) {
        Err(ForgeError::Decode(path)) => {
            assert_eq!(path, b"forge/u/hero_01.png".to_vec());
        },
        other => panic!("expected a decode error, got {:?}", other.map(|o| o.len())),
    }
}

#[test]
fn undecodable_ungrouped_file_is_ignored() {
    let files = vec![
        frame_file("forge/u/notes", "notes", b"not an image".to_vec()),
        frame_file("forge/u/hero_00.png", "hero_00", png_of(&solid(2, 2, RED))),
    ];
    let outs = forge_directory(&files).expect("only grouped files are decoded");
    assert_eq!(outs.len(), 1);
}

#[test]
fn groups_keep_first_appearance_order() {
    let files = vec![
        frame_file("forge/u/zed_0.png", "zed_0", png_of(&solid(2, 2, RED))),
        frame_file("forge/u/ant_0.png", "ant_0", png_of(&solid(2, 2, GREEN))),
        frame_file("forge/u/zed_1.png", "zed_1", png_of(&solid(2, 2, BLUE))),
    ];
    let outs = forge_directory(&files).expect("all frames decode");
    assert_eq!(outs.len(), 2);
    assert_eq!(outs[0].0, b"zed".to_vec());
    assert_eq!(outs[1].0, b"ant".to_vec());
    assert_eq!(outs[0].1.width, 4);
    assert_eq!(outs[1].1.width, 2);
}

#[test]
fn short_frame_is_clipped_into_its_slot() {
    // The canonical size comes from the first frame (4 by 4); the second
    // frame is only 2 by 2, so the rest of its slot stays blank.
    let files = vec![
        frame_file("forge/u/mix_0.png", "mix_0", png_of(&solid(4, 4, RED))),
        frame_file("forge/u/mix_1.png", "mix_1", png_of(&solid(2, 2, GREEN))),
    ];
    let outs = forge_directory(&files).expect("all frames decode");
    let (_, strip) = &outs[0];
    assert_eq!(strip.width, 8);
    assert_eq!(strip.height, 4);
    assert_eq!(pixel(strip, 1, 1), RED);
    assert_eq!(pixel(strip, 5, 1), GREEN);
    assert_eq!(pixel(strip, 6, 1), [0, 0, 0, 0]);
    assert_eq!(pixel(strip, 5, 3), [0, 0, 0, 0]);
}

#[test]
fn oversized_strip_is_refused() {
    let files = vec![
        frame_file("forge/u/big_0.png", "big_0", png_of(&solid(60_000, 1, RED))),
        frame_file("forge/u/big_1.png", "big_1", png_of(&solid(60_000, 1, GREEN))),
    ];
    match forge_directory(&files) {
        Err(ForgeError::TooLarge(base)) => assert_eq!(base, b"big".to_vec()),
        other => panic!("expected a size error, got {:?}", other.map(|o| o.len())),
    }
}

#[test]
fn empty_directory_yields_no_output() {
    let outs = forge_directory(&vec![]).expect("nothing fails on nothing");
    assert!(outs.is_empty());
}
