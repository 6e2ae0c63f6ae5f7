use computer_vision::generator::CpuGenerator;
use computer_vision::image::Image;
use computer_vision::pipeline::CpuPipeline;
use computer_vision::rgba::{Rgba, ONE};
use computer_vision::transform::ZipOp;
use computer_vision::Filter;

fn ramp(width: usize, height: usize) -> Image {
    Image::construct(width, height, |x, y| {
        Rgba::new((x * 1000 + y) as i64, (y * 7) as i64, (x * 3) as i64, ONE)
    })
}

fn same(a: &Image, b: &Image) -> bool {
    if a.width() != b.width() || a.height() != b.height() {
        return false;
    }
    for x in 0..a.width() {
        for y in 0..a.height() {
            if a.index(x, y) != b.index(x, y) {
                return false;
            }
        }
    }
    true
}

#[test]
fn it_works() {
    let result = 2 + 2;
    assert_eq!(result, 4);
}

#[test]
fn empty_pipeline_is_identity() {
    let img = ramp(4, 3);
    let out = CpuPipeline::new().apply(&img);
    assert!(same(&img, &out));
    let out = CpuPipeline::default().apply(&img);
    assert!(same(&img, &out));
}

#[test]
fn offset_replicates_edges() {
    let img = ramp(4, 3);
    let out = CpuPipeline::new().offset(1, 0).apply(&img);
    assert_eq!(out.index(0, 0), img.index(1, 0));
    assert_eq!(out.index(3, 2), img.index(3, 2));
    assert_eq!(out.index(2, 1), img.index(3, 1));
}

#[test]
fn offset_round_trip_restores_interior() {
    let img = ramp(5, 4);
    let out = CpuPipeline::new().offset(1, 2).offset(-1, -2).apply(&img);
    for x in 1..5 {
        for y in 2..4 {
            assert_eq!(out.index(x, y), img.index(x, y));
        }
    }
    assert_ne!(out.index(0, 0), img.index(0, 0));
}

#[test]
fn dim_twice_equals_dim_of_product() {
    let img = Image::from_pixel(2, 2, Rgba::new(ONE, ONE / 2, 3 * ONE, ONE));
    let f1 = Rgba::gray(ONE / 2);
    let f2 = Rgba::gray(4 * ONE);
    let twice = CpuPipeline::new().dim(f1).dim(f2).apply(&img);
    let once = CpuPipeline::new().dim(f1.mul(f2)).apply(&img);
    assert!(same(&twice, &once));
    assert_eq!(once.index(1, 1), Rgba::new(2 * ONE, ONE, 6 * ONE, ONE));
}

#[test]
fn bytes_round_trip() {
    let bytes: Vec<u8> = (0..24u32).map(|i| (i * 11) as u8).collect();
    let img = Image::from_rgba8(3, 2, &bytes);
    assert_eq!(img.index(1, 0), Rgba::new(44 * 256, 55 * 256, 66 * 256, 77 * 256));
    assert_eq!(img.index(0, 1), Rgba::new(132 * 256, 143 * 256, 154 * 256, 165 * 256));
    let back = Image::from_rgba8(3, 2, &bytes).into_rgba8();
    assert_eq!(back, bytes);
}

#[test]
fn bytes_clamp_and_truncate() {
    let img = Image::construct(4, 1, |x, _| match x {
        0 => Rgba::new(-5, ONE, 2 * ONE, ONE / 2),
        1 => Rgba::new(255, 256, 511, 65535),
        2 => Rgba::new(255 * 256, 255 * 256 - 1, 100, 0),
        _ => Rgba::gray(ONE / 255 * 17),
    });
    let bytes = img.into_rgba8();
    assert_eq!(bytes.len(), 16);
    assert_eq!(&bytes[0..4], &[0, 255, 255, 128]);
    assert_eq!(&bytes[4..8], &[0, 1, 1, 255]);
    assert_eq!(&bytes[8..12], &[255, 254, 0, 0]);
    let again = Image::from_rgba8(4, 1, &bytes).into_rgba8();
    assert_eq!(again, bytes);
}

#[test]
fn unit_kernel_convolution_is_identity() {
    let img = ramp(4, 4);
    let out = CpuPipeline::new().convolve(1, 1, |_, _| Rgba::white(), ZipOp::Add).apply(&img);
    assert!(same(&img, &out));
}

#[test]
fn median_of_uniform_raster() {
    let img = Image::from_pixel(5, 4, Rgba::new(1234, 5678, 91011, ONE));
    let out = CpuPipeline::new().filter(Filter::Median(3)).apply(&img);
    assert!(same(&img, &out));
}

#[test]
fn median_averages_min_and_max() {
    let img = Image::construct(3, 1, |x, _| Rgba::gray((x as i64) * 100));
    let out = CpuPipeline::new().filter(Filter::Median(3)).apply(&img);
    assert_eq!(out.index(0, 0), Rgba::gray(50));
    assert_eq!(out.index(1, 0), Rgba::gray(100));
    assert_eq!(out.index(2, 0), Rgba::gray(150));
}

#[test]
fn non_max_on_rising_raster() {
    let img = Image::construct(5, 5, |x, y| Rgba::gray(((x + y) * 100) as i64));
    let out = CpuPipeline::new().non_max_suppress().apply(&img);
    for x in 1..4 {
        for y in 1..4 {
            assert_eq!(out.index(x, y), Rgba::black());
        }
    }
    assert_eq!(out.index(4, 4), img.index(4, 4));
}

#[test]
fn non_max_keeps_a_peak() {
    let img = Image::construct(3, 3, |x, y| if x == 1 && y == 1 { Rgba::gray(ONE) } else { Rgba::gray(0) });
    let out = CpuPipeline::new().non_max_suppress().apply(&img);
    assert_eq!(out.index(1, 1), Rgba::gray(ONE));
    assert_eq!(out.index(0, 1), Rgba::black());
}

#[test]
fn black_grayscale_gradient_has_no_colour() {
    let img = Image::black(3, 3);
    let out = CpuPipeline::new().grayscale().gradient().apply(&img);
    for x in 0..3 {
        for y in 0..3 {
            let p = out.index(x, y);
            assert_eq!((p.r, p.g, p.b), (0, 0, 0));
        }
    }
}

#[test]
fn gradient_of_a_step() {
    let img = Image::construct(3, 3, |x, _| if x == 2 { Rgba::gray(ONE) } else { Rgba::gray(0) });
    let out = CpuPipeline::new().gradient().apply(&img);
    let p = out.index(1, 1);
    assert_eq!((p.r, p.g, p.b), (ONE, ONE, ONE));
    let q = out.index(0, 1);
    assert_eq!((q.r, q.g, q.b), (0, 0, 0));
}

#[test]
fn quantize_inverted_levels() {
    let half = Image::from_pixel(2, 2, Rgba::gray(ONE / 2));
    let out = CpuPipeline::new().quantize(vec![ONE / 2]).apply(&half);
    assert_eq!(out.index(0, 0), Rgba::gray(0));
    let low = Image::from_pixel(2, 2, Rgba::gray(26214));
    let out = CpuPipeline::new().quantize(vec![ONE / 2]).apply(&low);
    assert_eq!(out.index(1, 1), Rgba::gray(ONE));
}

#[test]
fn quantize_three_levels() {
    let img = Image::construct(3, 1, |x, _| Rgba::gray([ONE / 10, ONE / 2, ONE][x]));
    let out = CpuPipeline::new().quantize(vec![ONE / 4, ONE * 3 / 4]).apply(&img);
    assert_eq!(out.index(0, 0), Rgba::gray(ONE));
    assert_eq!(out.index(1, 0), Rgba::gray(ONE / 2));
    assert_eq!(out.index(2, 0), Rgba::gray(0));
    let negative = Image::from_pixel(1, 1, Rgba::gray(-5));
    let out = CpuPipeline::new().quantize(vec![ONE / 4, ONE * 3 / 4]).apply(&negative);
    assert_eq!(out.index(0, 0), Rgba::gray(ONE));
}

#[test]
fn add_sub_and_invert() {
    let img = Image::from_pixel(2, 1, Rgba::new(100, 200, 300, ONE));
    let doubled = CpuPipeline::new().add(CpuPipeline::new()).apply(&img);
    assert_eq!(doubled.index(0, 0), Rgba::new(200, 400, 600, 2 * ONE));
    let zero = CpuPipeline::new().sub(CpuPipeline::new()).apply(&img);
    assert_eq!(zero.index(1, 0), Rgba::new(0, 0, 0, ONE));
    let inverted = CpuPipeline::new().invert().apply(&img);
    assert_eq!(inverted.index(0, 0), Rgba::new(ONE - 100, ONE - 200, ONE - 300, 0));
}

#[test]
fn ennoise_recentres_noise() {
    let img = Image::from_pixel(2, 2, Rgba::gray(ONE / 2));
    let field = Image::from_pixel(2, 2, Rgba::gray(ONE * 3 / 4));
    let out = CpuPipeline::new().ennoise(CpuPipeline::new().replace_with(field)).apply(&img);
    assert_eq!(out.index(0, 0), Rgba::new(ONE, ONE, ONE, ONE));
    let neutral = Image::from_pixel(2, 2, Rgba::gray(ONE / 2));
    let out = CpuPipeline::new().ennoise(CpuPipeline::new().replace_with(neutral)).apply(&img);
    assert_eq!(out.index(1, 1), Rgba::gray(ONE / 2));
}

#[test]
fn grayscale_weights_twice() {
    let img = Image::from_pixel(1, 1, Rgba::new(ONE, 0, 0, ONE));
    let out = CpuPipeline::new().grayscale().apply(&img);
    // the red weight 0.3 applied twice, then averaged over three channels
    let w = 19660i64 * 19660 / ONE;
    assert_eq!(out.index(0, 0), Rgba::gray(w / 3));
    assert_eq!(out.index(0, 0), Rgba::gray(1965));
}

#[test]
fn average_needle_blurs() {
    let filter = CpuGenerator::new(3).average_needle();
    let img = Image::construct(3, 3, |x, y| if x == 1 && y == 1 { Rgba::gray(9 * ONE) } else { Rgba::gray(0) });
    let out = CpuPipeline::new().filter(filter).apply(&img);
    let w = ONE / 9;
    assert_eq!(out.index(0, 0).r, 9 * w);
    assert_eq!(out.index(1, 1).r, 9 * w);
    // the kernel cells are opaque, so alpha sums over the nine cells
    assert_eq!(out.index(0, 0).a, 9 * ONE);
}

#[test]
fn generate_uses_black_canvas() {
    let out = CpuPipeline::new().invert().generate(2, 3);
    assert_eq!(out.width(), 2);
    assert_eq!(out.height(), 3);
    assert_eq!(out.index(1, 2), Rgba::new(ONE, ONE, ONE, 0));
}

#[test]
fn canny_on_flat_image() {
    let img = Image::from_pixel(6, 6, Rgba::gray(ONE / 2));
    let out = CpuPipeline::new().canny(vec![ONE / 2]).apply(&img);
    for x in 0..6 {
        for y in 0..6 {
            assert_eq!(out.index(x, y), Rgba::gray(ONE));
        }
    }
}

#[test]
fn pixel_algebra() {
    let p = Rgba::new(ONE, -ONE, 3, i64::MAX);
    let q = Rgba::new(2 * ONE, ONE, -7, 1);
    assert_eq!(p.add(q), Rgba::new(3 * ONE, 0, -4, i64::MAX));
    assert_eq!(p.sub(q), Rgba::new(-ONE, -2 * ONE, 10, i64::MAX - 1));
    assert_eq!(p.min(q), Rgba::new(ONE, -ONE, -7, 1));
    assert_eq!(p.max(q), Rgba::new(2 * ONE, ONE, 3, i64::MAX));
    assert_eq!(Rgba::new(ONE, -3, 7, 9).div(2), Rgba::new(ONE / 2, -1, 3, 4));
    assert_eq!(Rgba::new(-5, 5, i64::MIN, 0).abs(), Rgba::new(5, 5, i64::MAX, 0));
    assert_eq!(Rgba::gray(7).with_alpha(3).alpha(), 3);
    assert!(Rgba::new(1, 9, 0, 0).less_than(&Rgba::new(2, 0, 0, 0)));
    assert!(!Rgba::new(1, 0, 0, 5).less_than(&Rgba::new(1, 0, 0, 5)));
    assert_eq!(Rgba::from_bytes([0, 128, 255, 1]), Rgba::new(0, 128 * 256, 255 * 256, 256));
    assert_eq!(Rgba::new(ONE, ONE / 2, -1, 2 * ONE).to_bytes(), [255, 128, 0, 255]);
}
