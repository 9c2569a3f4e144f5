use imgfilter::arithmetic::TripleNums;
use imgfilter::buffer::{Pixel, PixelBuffer};
use imgfilter::filter::truncate_color::{
    TruncateColorFilter, TruncateColorFilterOption, TruncateComponent,
};
use imgfilter::filter::AppFilter;
use imgfilter::process::{modify_part_of_img, modify_whole_img, run_pipeline, FilterProcess,
    RegionError};
use imgfilter::rect::RectInfo;

fn qx(r: u8, g: u8, b: u8) -> Pixel {
    Pixel { r, g, b }
}

fn numbered(width: u32, height: u32) -> PixelBuffer {
    let mut data = Vec::new();
    for k in 0..(width * height) {
        data.push(qx(k as u8, (k + 50) as u8, (k + 100) as u8));
    }
    PixelBuffer { width, height, data }
}

fn trunc_r() -> TruncateColorFilter {
    TruncateColorFilter::new(TruncateColorFilterOption::new(TruncateComponent::R))
}

#[test]
fn region_inside_only_that_region_changes() {
    let buf = numbered(4, 4);
    let out = modify_part_of_img(buf.clone(), 1, 2, 2, 1, &trunc_r()).unwrap();
    for y in 0..4u32 {
        for x in 0..4u32 {
            let k = (y * 4 + x) as usize;
            if (1..3).contains(&x) && y == 2 {
                assert_eq!(out.data[k], qx(0, buf.data[k].g, buf.data[k].b));
            } else {
                assert_eq!(out.data[k], buf.data[k]);
            }
        }
    }
}

#[test]
fn region_clamped_to_canvas() {
    let buf = numbered(3, 3);
    // The region asks for far more than fits: it is clamped to the canvas
    // part right and below (1, 1); nothing outside it changes.
    let out = modify_part_of_img(buf.clone(), 1, 1, 100, 100, &trunc_r()).unwrap();
    for y in 0..3u32 {
        for x in 0..3u32 {
            let k = (y * 3 + x) as usize;
            if x >= 1 && y >= 1 {
                assert_eq!(out.data[k].r, 0);
            } else {
                assert_eq!(out.data[k], buf.data[k]);
            }
        }
    }
}

#[test]
fn region_corner_on_edge_is_allowed() {
    // x == width and y == height are still accepted; the region clamps to
    // nothing and the canvas is returned unchanged.
    let buf = numbered(2, 2);
    let out = modify_part_of_img(buf.clone(), 2, 2, 5, 5, &trunc_r()).unwrap();
    assert_eq!(out.data, buf.data);
}

#[test]
fn region_corner_outside_fails_with_coordinates() {
    let buf = numbered(2, 2);
    let err = modify_part_of_img(buf, 3, 0, 1, 1, &trunc_r()).unwrap_err();
    assert_eq!(err, RegionError { x: 3, y: 0 });
    let buf = numbered(2, 2);
    let err = modify_part_of_img(buf, 0, 7, 1, 1, &trunc_r()).unwrap_err();
    assert_eq!(err, RegionError { x: 0, y: 7 });
}

#[test]
fn whole_image_is_one_full_region() {
    let buf = numbered(3, 2);
    let whole = modify_whole_img(buf.clone(), &trunc_r()).unwrap();
    let part = modify_part_of_img(buf, 0, 0, 3, 2, &trunc_r()).unwrap();
    assert_eq!(whole.data, part.data);
}

#[test]
fn pipeline_applies_steps_in_order() {
    let buf = numbered(3, 3);
    let steps = vec![
        FilterProcess::new(
            AppFilter::Truncate(trunc_r()),
            RectInfo((0, 0, 3, 3)),
        ),
        FilterProcess::new(
            AppFilter::Truncate(TruncateColorFilter::new(TruncateColorFilterOption::new(
                TruncateComponent::G,
            ))),
            RectInfo((1, 1, 2, 2)),
        ),
    ];
    let out = run_pipeline(buf.clone(), &steps).unwrap();
    for y in 0..3u32 {
        for x in 0..3u32 {
            let k = (y * 3 + x) as usize;
            assert_eq!(out.data[k].r, 0);
            if x >= 1 && y >= 1 {
                assert_eq!(out.data[k].g, 0);
            } else {
                assert_eq!(out.data[k].g, buf.data[k].g);
            }
            assert_eq!(out.data[k].b, buf.data[k].b);
        }
    }
}

#[test]
fn pipeline_empty_keeps_canvas() {
    let buf = numbered(2, 3);
    let out = run_pipeline(buf.clone(), &Vec::new()).unwrap();
    assert_eq!(out.data, buf.data);
}

#[test]
fn pipeline_aborts_on_first_bad_step() {
    let buf = numbered(2, 2);
    let steps = vec![
        FilterProcess::new(AppFilter::Truncate(trunc_r()), RectInfo((0, 0, 2, 2))),
        FilterProcess::new(AppFilter::Truncate(trunc_r()), RectInfo((9, 9, 1, 1))),
    ];
    let err = run_pipeline(buf, &steps).unwrap_err();
    assert_eq!(err, RegionError { x: 9, y: 9 });
}

#[test]
fn bytes_round_trip() {
    let buf = numbered(3, 2);
    let bytes = buf.to_bytes();
    assert_eq!(bytes.len(), 18);
    assert_eq!(bytes[0], buf.data[0].r);
    assert_eq!(bytes[4], buf.data[1].g);
    let back = PixelBuffer::from_bytes(3, 2, &bytes);
    assert_eq!(back.data, buf.data);
}

#[test]
fn buffer_get_set() {
    let mut buf = PixelBuffer::new(2, 2, qx(1, 1, 1));
    buf.set(1, 0, qx(9, 9, 9));
    assert_eq!(buf.get(1, 0), qx(9, 9, 9));
    assert_eq!(buf.get(0, 0), qx(1, 1, 1));
}

#[test]
fn triple_nums_ops() {
    let a = TripleNums { c0: 1, c1: 2, c2: 3 };
    let b = TripleNums { c0: 10, c1: 20, c2: 30 };
    let s = a.add3(b);
    assert_eq!((s.c0, s.c1, s.c2), (11, 22, 33));
    let m = s.mul_scalar(3);
    assert_eq!((m.c0, m.c1, m.c2), (33, 66, 99));
    let d = m.div_scalar(2);
    assert_eq!((d.c0, d.c1, d.c2), (16, 33, 49));
    let t = TripleNums { c0: 255, c1: 0, c2: 128 }.to_u8();
    assert_eq!(t, (255, 0, 128));
    let z = TripleNums::zero();
    assert_eq!((z.c0, z.c1, z.c2), (0, 0, 0));
}

#[test]
fn region_with_zero_extent_changes_nothing() {
    let buf = numbered(3, 3);
    let out = modify_part_of_img(buf.clone(), 1, 1, 0, 2, &trunc_r()).unwrap();
    assert_eq!(out.data, buf.data);
    let out = modify_part_of_img(buf.clone(), 1, 1, 2, 0, &trunc_r()).unwrap();
    assert_eq!(out.data, buf.data);
}
