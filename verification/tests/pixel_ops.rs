use pixels::color::multiply_u8_color;
use pixels::color::rgba8_byte_swap_and_premultiply_inplace;
use pixels::color::rgba8_byte_swap_colors_inplace;
use pixels::color::rgba8_premultiply_inplace;
use pixels::extract::rgba8_get_rect;
use pixels::extract::PixelSlice;
use pixels::geom::clip;
use pixels::geom::IntPoint;
use pixels::geom::Point2D;
use pixels::geom::Rect;
use pixels::geom::Size2D;

fn rect(x: u32, y: u32, width: u32, height: u32) -> Rect {
    Rect {
        origin: Point2D { x, y },
        size: Size2D { width, height },
    }
}

/// A 4x4 test image whose every pixel holds a distinct marker byte in all
/// four channels: pixel (col, row) holds 16*row + col.
fn marked_4x4() -> Vec<u8> {
    let mut buf = Vec::new();
    for row in 0..4u8 {
        for col in 0..4u8 {
            let marker = 16 * row + col;
            for _ in 0..4 {
                buf.push(marker);
            }
        }
    }
    buf
}

#[test]
fn extract_inner_rect_gathers_rows() {
    let buf = marked_4x4();
    let size = Size2D {
        width: 4,
        height: 4,
    };
    let r = rgba8_get_rect(&buf, size, rect(1, 1, 2, 2));
    assert_eq!(r.len(), 2 * 2 * 4);
    let expected: Vec<u8> = [0x11, 0x12, 0x21, 0x22]
        .iter()
        .flat_map(|&m| [m, m, m, m])
        .collect();
    assert_eq!(r.as_slice(), expected.as_slice());
    assert!(matches!(r, PixelSlice::Owned(_)));
}

#[test]
fn extract_full_width_is_borrowed_slice() {
    let buf = marked_4x4();
    let size = Size2D {
        width: 4,
        height: 4,
    };
    let r = rgba8_get_rect(&buf, size, rect(0, 1, 4, 2));
    assert_eq!(r.len(), 4 * 2 * 4);
    assert_eq!(r.as_slice(), &buf[16..48]);
    assert!(matches!(r, PixelSlice::Borrowed(_)));
}

#[test]
fn extract_single_row_is_borrowed_slice() {
    let buf = marked_4x4();
    let size = Size2D {
        width: 4,
        height: 4,
    };
    let r = rgba8_get_rect(&buf, size, rect(2, 3, 2, 1));
    assert_eq!(r.len(), 2 * 4);
    assert_eq!(r.as_slice(), &buf[56..64]);
    assert!(matches!(r, PixelSlice::Borrowed(_)));
}

#[test]
fn extract_whole_buffer() {
    let buf = marked_4x4();
    let size = Size2D {
        width: 4,
        height: 4,
    };
    let r = rgba8_get_rect(&buf, size, rect(0, 0, 4, 4));
    assert_eq!(r.as_slice(), buf.as_slice());
}

#[test]
fn byte_swap_exchanges_red_and_blue() {
    let mut buf = vec![1, 2, 3, 4, 5, 6, 7, 8];
    rgba8_byte_swap_colors_inplace(&mut buf);
    assert_eq!(buf, vec![3, 2, 1, 4, 7, 6, 5, 8]);
}

#[test]
fn byte_swap_twice_is_identity() {
    let original = marked_4x4();
    let mut buf = original.clone();
    rgba8_byte_swap_colors_inplace(&mut buf);
    rgba8_byte_swap_colors_inplace(&mut buf);
    assert_eq!(buf, original);
}

#[test]
fn byte_swap_empty_buffer() {
    let mut buf: Vec<u8> = Vec::new();
    rgba8_byte_swap_colors_inplace(&mut buf);
    assert!(buf.is_empty());
}

#[test]
fn multiply_laws_hold_on_samples() {
    for &(a, b) in &[(0u8, 0u8), (1, 254), (100, 51), (17, 201), (255, 255)] {
        assert_eq!(multiply_u8_color(a, b), multiply_u8_color(b, a));
    }
    for x in [0u8, 1, 42, 128, 254, 255] {
        assert_eq!(multiply_u8_color(x, 255), x);
        assert_eq!(multiply_u8_color(x, 0), 0);
    }
    assert_eq!(multiply_u8_color(255, 255), 255);
    // floor(100 * 51 / 255) = 20
    assert_eq!(multiply_u8_color(100, 51), 20);
    // floor(200 * 128 / 255) = 100
    assert_eq!(multiply_u8_color(200, 128), 100);
}

#[test]
fn premultiply_opaque_pixels_unchanged() {
    let mut buf = vec![10, 20, 30, 255, 200, 100, 50, 255];
    let opaque = rgba8_premultiply_inplace(&mut buf);
    assert!(opaque);
    assert_eq!(buf, vec![10, 20, 30, 255, 200, 100, 50, 255]);
}

#[test]
fn premultiply_zero_alpha_clears_colors() {
    let mut buf = vec![10, 20, 30, 0];
    let opaque = rgba8_premultiply_inplace(&mut buf);
    assert!(!opaque);
    assert_eq!(buf, vec![0, 0, 0, 0]);
}

#[test]
fn premultiply_scales_by_alpha() {
    // alpha 128: floor(c * 128 / 255)
    let mut buf = vec![255, 100, 3, 128];
    let opaque = rgba8_premultiply_inplace(&mut buf);
    assert!(!opaque);
    assert_eq!(buf, vec![128, 50, 1, 128]);
}

#[test]
fn premultiply_empty_buffer_is_opaque() {
    let mut buf: Vec<u8> = Vec::new();
    assert!(rgba8_premultiply_inplace(&mut buf));
    assert!(buf.is_empty());
}

#[test]
fn premultiply_mixed_alphas_not_opaque() {
    let mut buf = vec![10, 20, 30, 255, 40, 50, 60, 254];
    assert!(!rgba8_premultiply_inplace(&mut buf));
}

#[test]
fn swap_and_premultiply_matches_premultiply_then_swap() {
    let original: Vec<u8> = vec![
        255, 100, 3, 128, 10, 20, 30, 0, 1, 2, 3, 255, 200, 150, 100, 77,
    ];
    let mut combined = original.clone();
    rgba8_byte_swap_and_premultiply_inplace(&mut combined);

    let mut separate = original.clone();
    rgba8_premultiply_inplace(&mut separate);
    rgba8_byte_swap_colors_inplace(&mut separate);
    assert_eq!(combined, separate);

    let mut reversed = original;
    rgba8_byte_swap_colors_inplace(&mut reversed);
    rgba8_premultiply_inplace(&mut reversed);
    assert_eq!(combined, reversed);
}

#[test]
fn swap_and_premultiply_single_pixel() {
    let mut buf = vec![255, 100, 3, 128];
    rgba8_byte_swap_and_premultiply_inplace(&mut buf);
    // blue*alpha, green*alpha, red*alpha, alpha
    assert_eq!(buf, vec![1, 50, 128, 128]);
}

#[test]
fn clip_negative_origin_clamps_to_zero() {
    let r = clip(
        IntPoint { x: -5, y: -5 },
        Size2D {
            width: 10,
            height: 10,
        },
        Size2D {
            width: 20,
            height: 20,
        },
    );
    assert_eq!(r, Some(rect(0, 0, 5, 5)));
}

#[test]
fn clip_overrunning_rect_is_trimmed() {
    let r = clip(
        IntPoint { x: 5, y: 5 },
        Size2D {
            width: 10,
            height: 10,
        },
        Size2D {
            width: 8,
            height: 8,
        },
    );
    assert_eq!(r, Some(rect(5, 5, 3, 3)));
}

#[test]
fn clip_fully_outside_is_absent() {
    let r = clip(
        IntPoint { x: 50, y: 50 },
        Size2D {
            width: 10,
            height: 10,
        },
        Size2D {
            width: 20,
            height: 20,
        },
    );
    assert_eq!(r, None);
}

#[test]
fn clip_zero_width_candidate_is_absent() {
    let r = clip(
        IntPoint { x: 0, y: 0 },
        Size2D {
            width: 0,
            height: 5,
        },
        Size2D {
            width: 20,
            height: 20,
        },
    );
    assert_eq!(r, None);
}

#[test]
fn clip_far_negative_origin_is_absent() {
    let r = clip(
        IntPoint { x: -30, y: 0 },
        Size2D {
            width: 10,
            height: 10,
        },
        Size2D {
            width: 20,
            height: 20,
        },
    );
    assert_eq!(r, None);
}

#[test]
fn clip_fully_inside_is_unchanged() {
    let r = clip(
        IntPoint { x: 3, y: 4 },
        Size2D {
            width: 5,
            height: 6,
        },
        Size2D {
            width: 20,
            height: 20,
        },
    );
    assert_eq!(r, Some(rect(3, 4, 5, 6)));
}

#[test]
fn clip_extreme_negative_origin_keeps_remainder() {
    // The off-surface amount is 2^31; the huge candidate still reaches the
    // surface, so the whole surface is visible.
    let r = clip(
        IntPoint {
            x: i32::MIN,
            y: i32::MIN,
        },
        Size2D {
            width: u32::MAX,
            height: u32::MAX,
        },
        Size2D {
            width: 20,
            height: 20,
        },
    );
    assert_eq!(r, Some(rect(0, 0, 20, 20)));
}
