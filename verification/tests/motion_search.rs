//! Motion search.
use libsrs::srsv2::color::{rgb888_full_to_yuv420_bt709, YCbCr};
use libsrs::srsv2::error::SrsV2Error;
use libsrs::srsv2::frame::YuvFrame;
use libsrs::srsv2::model::{
    ChromaSiting, ColorPrimaries, ColorRange, MatrixCoefficients, PixelFormat, SrsVideoProfile,
    TransferFunction, VideoSequenceHeaderV2,
};
use libsrs::srsv2::motion_search::{pick_mv, sad_16x16};
use libsrs::srsv2::rate_control::SrsV2MotionSearchMode;

fn clamp_u8(x: f64) -> u8 {
    x.round().clamp(0.0, 255.0) as u8
}

fn rgb_to_ycbcr(r: f64, g: f64, b: f64, range: ColorRange) -> YCbCr {
    let y = 0.2126 * r + 0.7152 * g + 0.0722 * b;
    let cb = (b - y) / 1.8556 + 128.0;
    let cr = (r - y) / 1.5748 + 128.0;
    match range {
        ColorRange::Full => YCbCr { y: clamp_u8(y), cb: clamp_u8(cb), cr: clamp_u8(cr) },
        ColorRange::Limited => YCbCr {
            y: clamp_u8(y * (219.0 / 255.0) + 16.0),
            cb: clamp_u8((cb - 128.0) * (224.0 / 255.0) + 128.0),
            cr: clamp_u8((cr - 128.0) * (224.0 / 255.0) + 128.0),
        },
    }
}

/// The 4:2:0 picture of an RGB picture.
fn rgb_to_yuv(rgb: &[u8], w: u32, h: u32, range: ColorRange) -> Result<YuvFrame, SrsV2Error> {
    let mut converted = Vec::new();
    for px in rgb.chunks_exact(3).take((w * h) as usize) {
        converted.push(rgb_to_ycbcr(px[0] as f64, px[1] as f64, px[2] as f64, range));
    }
    rgb888_full_to_yuv420_bt709(rgb, w, h, &converted)
}

fn square_seq(
    w: u32,
    h: u32,
) -> (
    VideoSequenceHeaderV2,
    YuvFrame,
    YuvFrame,
) {
    let seq = VideoSequenceHeaderV2 {
        width: w,
        height: h,
        profile: SrsVideoProfile::Main,
        pixel_format: PixelFormat::Yuv420p8,
        color_primaries: ColorPrimaries::Bt709,
        transfer: TransferFunction::Sdr,
        matrix: MatrixCoefficients::Bt709,
        chroma_siting: ChromaSiting::Center,
        range: ColorRange::Limited,
        disable_loop_filter: true,
        deblock_strength: 0,
        max_ref_frames: 1,
    };
    let mut rgb0 = vec![20_u8; (w * h * 3) as usize];
    for y in 20..44 {
        for x in 20..44 {
            let i = ((y * w + x) * 3) as usize;
            rgb0[i] = 240;
            rgb0[i + 1] = 240;
            rgb0[i + 2] = 240;
        }
    }
    let mut rgb1 = vec![20_u8; (w * h * 3) as usize];
    for y in 20..44 {
        for x in 24..48 {
            let i = ((y * w + x) * 3) as usize;
            rgb1[i] = 240;
            rgb1[i + 1] = 240;
            rgb1[i + 2] = 240;
        }
    }
    let y0 = rgb_to_yuv(&rgb0, w, h, ColorRange::Limited).unwrap();
    let y1 = rgb_to_yuv(&rgb1, w, h, ColorRange::Limited).unwrap();
    (seq, y0, y1)
}

#[test]
fn diamond_matches_exhaustive_small_radius() {
    let (_, y0, y1) = square_seq(64, 64);
    let cur = &y1.y;
    let refp = &y0.y;
    let mut e1 = 0_u64;
    let mut e2 = 0_u64;
    let (dx1, dy1) = pick_mv(
        SrsV2MotionSearchMode::ExhaustiveSmall,
        cur,
        refp,
        2,
        2,
        3,
        0,
        &mut e1,
    );
    let (dx2, dy2) = pick_mv(
        SrsV2MotionSearchMode::Diamond,
        cur,
        refp,
        2,
        2,
        3,
        0,
        &mut e2,
    );
    let s1 = sad_16x16(cur, refp, 2, 2, dx1 as i32, dy1 as i32);
    let s2 = sad_16x16(cur, refp, 2, 2, dx2 as i32, dy2 as i32);
    assert_eq!(s1, s2, "same minimum SAD at mb (2,2)");
}

#[test]
fn exhaustive_deterministic() {
    let (_seq, _y0, y1) = square_seq(64, 64);
    let cur = &y1.y;
    let refp = &y1.y;
    let mut a = 0_u64;
    let mut b = 0_u64;
    let p1 = pick_mv(
        SrsV2MotionSearchMode::ExhaustiveSmall,
        cur,
        refp,
        0,
        0,
        4,
        0,
        &mut a,
    );
    let p2 = pick_mv(
        SrsV2MotionSearchMode::ExhaustiveSmall,
        cur,
        refp,
        0,
        0,
        4,
        0,
        &mut b,
    );
    assert_eq!(p1, p2);
    assert_eq!(a, b);
}
