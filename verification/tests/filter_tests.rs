use imgfilter::buffer::{Pixel, PixelBuffer};
use imgfilter::filter::gaussian::{GaussianFilter, GaussianFilterOption};
use imgfilter::filter::grayscale::GrayscaleFilter;
use imgfilter::filter::kuwahara::{KuwaharaFilter, KuwaharaFilterOptions};
use imgfilter::filter::mosaic::{MosaicFilter, MosaicFilterOption};
use imgfilter::filter::truncate_color::{
    TruncateColorFilter, TruncateColorFilterOption, TruncateComponent,
};
use imgfilter::filter::{AppFilter, AppFilterType};
use imgfilter::process::FilterProcessor;

fn px(r: u8, g: u8, b: u8) -> Pixel {
    Pixel { r, g, b }
}

fn buf_from(width: u32, height: u32, pixels: Vec<Pixel>) -> PixelBuffer {
    assert_eq!(pixels.len(), (width * height) as usize);
    PixelBuffer { width, height, data: pixels }
}

#[test]
fn truncate_red_single_pixel() {
    let buf = buf_from(1, 1, vec![px(255, 128, 64)]);
    let f = TruncateColorFilter::new(TruncateColorFilterOption::new(TruncateComponent::R));
    let out = f.process(&buf);
    assert_eq!(out.data[0], px(0, 128, 64));
}

#[test]
fn truncate_each_channel() {
    let buf = buf_from(1, 1, vec![px(10, 20, 30)]);
    let g = TruncateColorFilter::new(TruncateColorFilterOption::new(TruncateComponent::G));
    let b = TruncateColorFilter::new(TruncateColorFilterOption::new(TruncateComponent::B));
    assert_eq!(g.process(&buf).data[0], px(10, 0, 30));
    assert_eq!(b.process(&buf).data[0], px(10, 20, 0));
}

#[test]
fn truncate_twice_is_once() {
    let buf = buf_from(2, 2, vec![px(1, 2, 3), px(200, 100, 50), px(0, 0, 0), px(255, 255, 255)]);
    let f = TruncateColorFilter::new(TruncateColorFilterOption::new(TruncateComponent::G));
    let once = f.process(&buf);
    let twice = f.process(&once);
    assert_eq!(once.data, twice.data);
}

#[test]
fn grayscale_sets_equal_channels_with_bt709_luma() {
    let buf = buf_from(2, 1, vec![px(255, 0, 0), px(0, 255, 0)]);
    let f = GrayscaleFilter::new();
    let out = f.process(&buf);
    // (2126 * 255) / 10000 = 54; (7152 * 255) / 10000 = 182.
    assert_eq!(out.data[0], px(54, 54, 54));
    assert_eq!(out.data[1], px(182, 182, 182));
}

#[test]
fn grayscale_twice_is_once() {
    let buf = buf_from(2, 2, vec![px(1, 2, 3), px(200, 100, 50), px(12, 240, 99), px(255, 0, 255)]);
    let f = GrayscaleFilter::new();
    let once = f.process(&buf);
    let twice = f.process(&once);
    for p in once.data.iter() {
        assert_eq!(p.r, p.g);
        assert_eq!(p.g, p.b);
    }
    assert_eq!(once.data, twice.data);
}

#[test]
fn grayscale_empty_buffer() {
    let buf = buf_from(0, 3, vec![]);
    let out = GrayscaleFilter::new().process(&buf);
    assert_eq!(out.width, 0);
    assert_eq!(out.height, 3);
    assert!(out.data.is_empty());
}

#[test]
fn mosaic_samples_block_top_left() {
    // 4x4 buffer with all-distinct pixels.
    let mut pixels = Vec::new();
    for k in 0..16u8 {
        pixels.push(px(k, 100 + k, 200 + k));
    }
    let buf = buf_from(4, 4, pixels);
    for bsize in [1usize, 2, 3, 5] {
        let f = MosaicFilter::new(MosaicFilterOption::new(bsize));
        let out = f.process(&buf);
        for y in 0..4usize {
            for x in 0..4usize {
                let sx = (x / bsize) * bsize;
                let sy = (y / bsize) * bsize;
                assert_eq!(out.data[y * 4 + x], buf.data[sy * 4 + sx]);
            }
        }
    }
}

#[test]
fn mosaic_uniform_blocks_keep_buffer() {
    // A 4x4 canvas of one colour: every block is already uniform, so a
    // block size of 2 returns the buffer unchanged.
    let buf = PixelBuffer::new(4, 4, px(200, 100, 50));
    let f = MosaicFilter::new(MosaicFilterOption::new(2));
    let out = f.process(&buf);
    assert_eq!(out.data, buf.data);
}

#[test]
fn kuwahara_constant_buffer_unchanged() {
    let buf = PixelBuffer::new(5, 4, px(77, 12, 240));
    let f = KuwaharaFilter::new(KuwaharaFilterOptions::new(3));
    let out = f.process(&buf);
    assert_eq!(out.data, buf.data);
    assert_eq!(out.width, 5);
    assert_eq!(out.height, 4);
}

#[test]
fn kuwahara_black_quadrant_on_white() {
    // 4x4 white canvas with a 2x2 black top-left quadrant. With window
    // size 2 the pixel (1, 1) has an all-black first quadrant (variance
    // zero), and (2, 2) an all-white quadrant: each takes that uniform
    // quadrant's mean.
    let black = px(0, 0, 0);
    let white = px(255, 255, 255);
    let mut pixels = vec![white; 16];
    for y in 0..2 {
        for x in 0..2 {
            pixels[y * 4 + x] = black;
        }
    }
    let buf = buf_from(4, 4, pixels);
    let f = KuwaharaFilter::new(KuwaharaFilterOptions::new(2));
    let out = f.process(&buf);
    assert_eq!(out.data[1 * 4 + 1], black);
    assert_eq!(out.data[2 * 4 + 2], white);
}

#[test]
fn gaussian_weighted_mean_exact() {
    // One row of three pixels, window 1, weights 4, 2, 1 by Manhattan
    // distance. The truncating weighted means are computed by hand.
    let buf = buf_from(3, 1, vec![px(10, 10, 10), px(20, 20, 20), px(90, 90, 90)]);
    let f = GaussianFilter::new(GaussianFilterOption::new(1, vec![4, 2, 1]));
    let out = f.process(&buf);
    // (4*10 + 2*20) / 6 = 13; (2*10 + 4*20 + 2*90) / 8 = 35; (2*20 + 4*90) / 6 = 66.
    assert_eq!(out.data[0], px(13, 13, 13));
    assert_eq!(out.data[1], px(35, 35, 35));
    assert_eq!(out.data[2], px(66, 66, 66));
}

#[test]
fn gaussian_stays_within_window_hull() {
    // Weights derived from the Gaussian density, scaled to fixed point:
    // outputs never overshoot the window's channel range.
    let sigma = 2.0f64;
    let window_size = 3u32;
    let coeff = |d: u32| -> f64 {
        let x = d as f64;
        (-(x * x) * 0.5 / sigma / sigma).exp() * (std::f64::consts::FRAC_1_PI * 0.5) / sigma / sigma
    };
    let mut weights = Vec::new();
    for d in 0..(2 * window_size + 1) {
        weights.push((coeff(d) / coeff(2 * window_size) * 16.0) as u32);
    }
    assert!(weights[0] >= 1);
    let mut pixels = Vec::new();
    for k in 0..25u32 {
        let v = (k * 11 % 256) as u8;
        pixels.push(px(v, 255 - v, v / 2 + 100));
    }
    let buf = buf_from(5, 5, pixels);
    let f = GaussianFilter::new(GaussianFilterOption::new(window_size, weights));
    let out = f.process(&buf);
    let lo = |c: fn(&Pixel) -> u8| buf.data.iter().map(&c).min().unwrap();
    let hi = |c: fn(&Pixel) -> u8| buf.data.iter().map(&c).max().unwrap();
    for p in out.data.iter() {
        assert!(lo(|p| p.r) <= p.r && p.r <= hi(|p| p.r));
        assert!(lo(|p| p.g) <= p.g && p.g <= hi(|p| p.g));
        assert!(lo(|p| p.b) <= p.b && p.b <= hi(|p| p.b));
    }
}

#[test]
fn gaussian_constant_buffer_unchanged() {
    let buf = PixelBuffer::new(4, 3, px(120, 7, 210));
    let f = GaussianFilter::new(GaussianFilterOption::new(2, vec![16, 8, 4, 2, 1]));
    let out = f.process(&buf);
    assert_eq!(out.data, buf.data);
}

#[test]
fn app_filter_dispatch_matches_concrete_filters() {
    let buf = buf_from(2, 2, vec![px(9, 8, 7), px(6, 5, 4), px(3, 2, 1), px(200, 150, 100)]);
    let direct = TruncateColorFilter::new(TruncateColorFilterOption::new(TruncateComponent::B));
    let dispatched = AppFilter::Truncate(direct.clone());
    assert_eq!(direct.process(&buf).data, dispatched.process(&buf).data);
}

#[test]
fn filter_type_menu_order() {
    let v = AppFilterType::create_vec();
    assert_eq!(
        v,
        vec![
            AppFilterType::Gaussian,
            AppFilterType::GrayScale,
            AppFilterType::Kuwahara,
            AppFilterType::Mosaic,
            AppFilterType::Truncate,
        ]
    );
}

#[test]
fn truncate_component_menu_order() {
    let v = TruncateComponent::vec();
    assert_eq!(v, vec![TruncateComponent::R, TruncateComponent::G, TruncateComponent::B]);
}

#[test]
fn describe_texts() {
    let g = GaussianFilter::new(GaussianFilterOption::new(10, vec![1; 21]));
    assert_eq!(g.describe(), "Gaussian (window_size=10)");
    assert_eq!(GrayscaleFilter::new().describe(), "Grayscale");
    let k = KuwaharaFilter::new(KuwaharaFilterOptions::new(3));
    assert_eq!(k.describe(), "Kuwahara (window_size=3)");
    let m = MosaicFilter::new(MosaicFilterOption::new(50));
    assert_eq!(m.describe(), "Mosaic (size=50)");
    let t = TruncateColorFilter::new(TruncateColorFilterOption::new(TruncateComponent::G));
    assert_eq!(t.describe(), "TruncateColor (Green)");
    assert_eq!(TruncateComponent::B.name(), "Blue");
}

#[test]
fn default_options() {
    assert_eq!(KuwaharaFilterOptions::default().window_size, 3);
    assert_eq!(MosaicFilterOption::default().size, 50);
    assert_eq!(TruncateColorFilterOption::default().component, TruncateComponent::R);
}

#[test]
fn get_option_round_trip() {
    let m = MosaicFilter::new(MosaicFilterOption::new(7));
    assert_eq!(m.get_option().size, 7);
    let k = KuwaharaFilter::new(KuwaharaFilterOptions::new(5));
    assert_eq!(k.get_option().window_size, 5);
    let g = GaussianFilter::new(GaussianFilterOption::new(1, vec![3, 2, 1]));
    let opt = g.get_option();
    assert_eq!(opt.window_size, 1);
    assert_eq!(opt.weights, vec![3, 2, 1]);
}

#[test]
fn gaussian_window_larger_than_canvas() {
    // The window clips to the whole canvas; means computed by hand.
    let buf = buf_from(2, 1, vec![px(0, 0, 0), px(255, 255, 255)]);
    let f = GaussianFilter::new(GaussianFilterOption::new(
        5,
        vec![8, 4, 2, 1, 1, 1, 1, 1, 1, 1, 1],
    ));
    let out = f.process(&buf);
    // (8*0 + 4*255) / 12 = 85; (4*0 + 8*255) / 12 = 170.
    assert_eq!(out.data[0], px(85, 85, 85));
    assert_eq!(out.data[1], px(170, 170, 170));
}

#[test]
fn kuwahara_single_pixel() {
    let buf = buf_from(1, 1, vec![px(1, 2, 3)]);
    let f = KuwaharaFilter::new(KuwaharaFilterOptions::new(4));
    let out = f.process(&buf);
    assert_eq!(out.data[0], px(1, 2, 3));
}

#[test]
fn mosaic_empty_buffer() {
    let buf = buf_from(0, 0, vec![]);
    let f = MosaicFilter::new(MosaicFilterOption::new(3));
    let out = f.process(&buf);
    assert_eq!(out.width, 0);
    assert_eq!(out.height, 0);
    assert!(out.data.is_empty());
}
