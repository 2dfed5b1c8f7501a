//! Color sampling.
use libsrs::srsv2::color::{rgb888_full_to_yuv420_bt709, yuv420_preview_pixels, YCbCr};
use libsrs::srsv2::error::SrsV2Error;
use libsrs::srsv2::frame::YuvFrame;
use libsrs::srsv2::model::{ColorRange, MatrixCoefficients};

fn clamp_u8(x: f64) -> u8 {
    x.round().clamp(0.0, 255.0) as u8
}

fn rgb_to_ycbcr(r: f64, g: f64, b: f64, range: ColorRange) -> YCbCr {
    let y = 0.2126 * r + 0.7152 * g + 0.0722 * b;
    let cb = (b - y) / 1.8556 + 128.0;
    let cr = (r - y) / 1.5748 + 128.0;
    match range {
        ColorRange::Full => YCbCr { y: clamp_u8(y), cb: clamp_u8(cb), cr: clamp_u8(cr) },
        ColorRange::Limited => YCbCr {
            y: clamp_u8(y * (219.0 / 255.0) + 16.0),
            cb: clamp_u8((cb - 128.0) * (224.0 / 255.0) + 128.0),
            cr: clamp_u8((cr - 128.0) * (224.0 / 255.0) + 128.0),
        },
    }
}

/// The 4:2:0 picture of an RGB picture.
fn rgb_to_yuv(rgb: &[u8], w: u32, h: u32, range: ColorRange) -> Result<YuvFrame, SrsV2Error> {
    let mut converted = Vec::new();
    for px in rgb.chunks_exact(3).take((w * h) as usize) {
        converted.push(rgb_to_ycbcr(px[0] as f64, px[1] as f64, px[2] as f64, range));
    }
    rgb888_full_to_yuv420_bt709(rgb, w, h, &converted)
}

/// The RGB preview of a 4:2:0 picture.
fn preview_rgb(yuv: &YuvFrame) -> Result<Vec<u8>, SrsV2Error> {
    let mut out = Vec::new();
    for p in yuv420_preview_pixels(yuv)? {
        let (y, cb, cr) = (p.y as f64, p.cb as f64 - 128.0, p.cr as f64 - 128.0);
        out.push(clamp_u8(y + 1.5748 * cr));
        out.push(clamp_u8(y - 0.1873 * cb - 0.4681 * cr));
        out.push(clamp_u8(y + 1.8556 * cb));
    }
    Ok(out)
}

#[test]
fn black_white_rgb_roundtrip_limited_close() {
    let w = 16u32;
    let h = 16u32;
    let mut rgb = vec![0_u8; (w * h * 3) as usize];
    for px in rgb.chunks_exact_mut(3) {
        px[0] = 255;
        px[1] = 255;
        px[2] = 255;
    }
    let yuv = rgb_to_yuv(&rgb, w, h, ColorRange::Limited).unwrap();
    let back = preview_rgb(&yuv).unwrap();
    // Limited-range YUV pegs white primary channels around ~235 after round-trip.
    assert!(back.iter().step_by(3).take(4).all(|&r| r > 220));

    let black = vec![0_u8; (w * h * 3) as usize];
    let yuv_b = rgb_to_yuv(&black, w, h, ColorRange::Limited).unwrap();
    let bb = preview_rgb(&yuv_b).unwrap();
    assert!(bb.iter().take(12).all(|&x| x < 40));
    let _ = MatrixCoefficients::Bt709;
}

#[test]
fn primaries_red_green_blue_patch() {
    let w = 8u32;
    let h = 8u32;
    for (name, r, g, b) in [
        ("r", 255u8, 0u8, 0u8),
        ("g", 0u8, 255u8, 0u8),
        ("b", 0u8, 0u8, 255u8),
    ] {
        let mut rgb = vec![0_u8; (w * h * 3) as usize];
        for px in rgb.chunks_exact_mut(3) {
            px[0] = r;
            px[1] = g;
            px[2] = b;
        }
        let yuv = rgb_to_yuv(&rgb, w, h, ColorRange::Full).unwrap();
        let back = preview_rgb(&yuv).unwrap();
        let mid = (h / 2 * w + w / 2) as usize * 3;
        match name {
            "r" => assert!(back[mid] > back[mid + 1] && back[mid] > back[mid + 2]),
            "g" => assert!(back[mid + 1] > back[mid] && back[mid + 1] > back[mid + 2]),
            "b" => assert!(back[mid + 2] > back[mid] && back[mid + 2] > back[mid + 1]),
            _ => {}
        }
    }
}

#[test]
fn gray_ramp_monotonic() {
    let w = 256u32;
    let h = 1u32;
    let mut rgb = vec![0_u8; (w * h * 3) as usize];
    for x in 0..256usize {
        let v = x as u8;
        rgb[x * 3] = v;
        rgb[x * 3 + 1] = v;
        rgb[x * 3 + 2] = v;
    }
    let yuv = rgb_to_yuv(&rgb, w, h, ColorRange::Full).unwrap();
    let mut prev = 0u8;
    for x in 0..256usize {
        let yy = yuv.y.samples[x];
        assert!(yy >= prev);
        prev = yy;
    }
}
