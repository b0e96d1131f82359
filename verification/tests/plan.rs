use fractal::color::{shade, ColorMode, Rgb, Sample};
use fractal::error::RenderError;
use fractal::lattice::{MapMode, Offset};
use fractal::plan::RenderPlan;
use fractal::raster::partial_render;
use fractal::tile::Tile;

fn plan(width: i32, height: i32, max_iterations: i32, band_height: usize) -> RenderPlan {
    RenderPlan::new(width, height, max_iterations, band_height, ColorMode::Smooth).unwrap()
}

fn escaped(iterations: i32, level: i64) -> Sample {
    Sample { iterations, red: level, green: level + 1, blue: level + 2 }
}

fn ramp(pixels: usize, max_iterations: i32) -> Vec<Sample> {
    (0..pixels)
        .map(|i| {
            if i % 5 == 4 {
                escaped(max_iterations, 99)
            } else {
                escaped((i as i32) % max_iterations.max(1), (i as i64 * 7) % 300 - 20)
            }
        })
        .collect()
}

#[test]
fn empty_rasters_are_refused() {
    let refuse = |w: i32, h: i32| RenderPlan::new(w, h, 10, 64, ColorMode::Smooth).err();
    assert_eq!(refuse(0, 4), Some(RenderError::InvalidDimension));
    assert_eq!(refuse(4, 0), Some(RenderError::InvalidDimension));
    assert_eq!(refuse(-1, 4), Some(RenderError::InvalidDimension));
    assert_eq!(refuse(4, i32::MIN), Some(RenderError::InvalidDimension));
    assert_eq!(refuse(0, 0), Some(RenderError::InvalidDimension));
}

#[test]
fn negative_iteration_bound_is_refused() {
    let refused = RenderPlan::new(4, 4, -1, 64, ColorMode::Discrete).err();
    assert_eq!(refused, Some(RenderError::InvalidIterationBound));
}

#[test]
fn dimension_is_checked_before_the_iteration_bound() {
    let refused = RenderPlan::new(0, 4, -1, 64, ColorMode::Discrete).err();
    assert_eq!(refused, Some(RenderError::InvalidDimension));
}

#[test]
fn accepted_plan_reports_its_settings() {
    let plan = RenderPlan::new(1024, 768, 1000, 64, ColorMode::Discrete).unwrap();
    assert_eq!(plan.width(), 1024);
    assert_eq!(plan.height(), 768);
    assert_eq!(plan.max_iterations(), 1000);
    assert_eq!(plan.band_height(), 64);
    assert_eq!(plan.mode(), ColorMode::Discrete);
    assert_eq!(plan.pixels(), 1024 * 768);
    assert_eq!(plan.counter().max_iterations(), 1000);
    assert_eq!(plan.counter().iterations(), 0);
    assert!(RenderPlan::new(1, 1, 0, 1, ColorMode::Smooth).is_ok());
}

#[test]
fn plan_tiles_partition_the_rows() {
    let tiles = plan(1024, 1024, 1000, 64).tiles();
    assert_eq!(tiles.len(), 16);
    for (i, tile) in tiles.iter().enumerate() {
        assert_eq!(*tile, Tile { row_start: i * 64, row_count: 64, width: 1024 });
    }
    let tiles = plan(3, 10, 5, 4).tiles();
    assert_eq!(
        tiles,
        vec![
            Tile { row_start: 0, row_count: 4, width: 3 },
            Tile { row_start: 4, row_count: 4, width: 3 },
            Tile { row_start: 8, row_count: 2, width: 3 },
        ]
    );
}

#[test]
fn center_pixel_maps_to_the_vertical_offset() {
    let plan = plan(1024, 1024, 500, 64);
    let center = plan.offset(1024 / 2, 1024 / 2);
    assert_eq!(center, Offset { dx: 0, dy: 0 });
    let scale = 1.0_f64;
    let effective_scale = scale / (1024.0_f64 / 2.0);
    let real = center.dx as f64 * effective_scale;
    let imaginary = center.dy as f64 * effective_scale + 1.0;
    assert_eq!(real, 0.0);
    assert_eq!(imaginary, 1.0);
}

#[test]
fn offsets_are_measured_from_the_half_extents() {
    let even = plan(4, 4, 10, 64);
    assert_eq!(even.offset(0, 0), Offset { dx: -2, dy: -2 });
    assert_eq!(even.offset(3, 3), Offset { dx: 1, dy: 1 });
    assert_eq!(even.offset(2, 1), Offset { dx: 0, dy: -1 });
    let odd = plan(5, 3, 10, 64);
    assert_eq!(odd.offset(0, 0), Offset { dx: -2, dy: -1 });
    assert_eq!(odd.offset(4, 2), Offset { dx: 2, dy: 1 });
    let single = plan(1, 1, 10, 64);
    assert_eq!(single.offset(0, 0), Offset { dx: 0, dy: 0 });
    let wide = plan(i32::MAX, 1, 10, 64);
    assert_eq!(wide.offset(0, 0), Offset { dx: -(i32::MAX / 2), dy: 0 });
    assert_eq!(
        wide.offset(i32::MAX as usize - 1, 0),
        Offset { dx: i32::MAX - 1 - i32::MAX / 2, dy: 0 }
    );
}

#[test]
fn seeds_list_a_band_row_by_row() {
    let plan = plan(3, 5, 10, 2);
    let tiles = plan.tiles();
    assert_eq!(tiles.len(), 3);
    assert_eq!(
        plan.seeds(&tiles[0]),
        vec![
            Offset { dx: -1, dy: -2 },
            Offset { dx: 0, dy: -2 },
            Offset { dx: 1, dy: -2 },
            Offset { dx: -1, dy: -1 },
            Offset { dx: 0, dy: -1 },
            Offset { dx: 1, dy: -1 },
        ]
    );
    assert_eq!(
        plan.seeds(&tiles[2]),
        vec![Offset { dx: -1, dy: 2 }, Offset { dx: 0, dy: 2 }, Offset { dx: 1, dy: 2 }]
    );
}

#[test]
fn seeds_of_all_bands_follow_the_frame_order() {
    for band_height in 1..9 {
        let plan = plan(7, 6, 10, band_height);
        let mut gathered = Vec::new();
        for tile in plan.tiles() {
            gathered.extend(plan.seeds(&tile));
        }
        assert_eq!(gathered.len(), plan.pixels());
        for (number, seed) in gathered.iter().enumerate() {
            assert_eq!(*seed, plan.offset(number % 7, number / 7));
        }
    }
}

#[test]
fn map_mode_selects_the_constant() {
    let pixel = (0.25_f64, -0.5_f64);
    let fixed = (-0.8_f64, 0.156_f64);
    assert_eq!(MapMode::Julia.constant_for(pixel, fixed), fixed);
    assert_eq!(MapMode::Mandelbrot.constant_for(pixel, fixed), pixel);
}

#[test]
fn frame_without_budget_is_black() {
    for mode in [ColorMode::Smooth, ColorMode::Discrete] {
        let plan = RenderPlan::new(4, 4, 0, 64, mode).unwrap();
        let mut samples = Vec::new();
        for tile in plan.tiles() {
            for _seed in plan.seeds(&tile) {
                let mut counter = plan.counter();
                while counter.advance(false) {}
                assert_eq!(counter.iterations(), 0);
                assert!(counter.is_interior());
                samples.push(Sample { iterations: counter.iterations(), red: 255, green: 255, blue: 255 });
            }
        }
        let frame = plan.render(&samples);
        assert_eq!(frame.as_bytes().len(), 4 * 4 * 3);
        assert!(frame.as_bytes().iter().all(|&byte| byte == 0));
    }
}

#[test]
fn rendered_frame_has_the_documented_layout() {
    let plan = plan(3, 2, 9, 1);
    let samples = vec![
        escaped(1, 10),
        escaped(2, 20),
        escaped(9, 30),
        escaped(3, 254),
        escaped(4, -5),
        escaped(5, 50),
    ];
    let frame = plan.render(&samples);
    assert_eq!(frame.width(), 3);
    assert_eq!(frame.height(), 2);
    assert_eq!(frame.pitch(), 9);
    assert_eq!(
        frame.as_bytes(),
        &[10, 11, 12, 20, 21, 22, 0, 0, 0, 254, 255, 255, 0, 0, 0, 50, 51, 52][..]
    );
    assert_eq!(frame.pixel(0, 0), Some(Rgb { r: 10, g: 11, b: 12 }));
    assert_eq!(frame.pixel(2, 0), Some(Rgb { r: 0, g: 0, b: 0 }));
    assert_eq!(frame.pixel(0, 1), Some(Rgb { r: 254, g: 255, b: 255 }));
    assert_eq!(frame.pixel(2, 1), Some(Rgb { r: 50, g: 51, b: 52 }));
    assert_eq!(frame.pixel(3, 0), None);
    assert_eq!(frame.pixel(0, 2), None);
    assert_eq!(frame.into_bytes().len(), 18);
}

#[test]
fn rendered_pixels_are_the_shades_of_their_samples() {
    for mode in [ColorMode::Smooth, ColorMode::Discrete] {
        let plan = RenderPlan::new(5, 7, 12, 3, mode).unwrap();
        let samples = ramp(plan.pixels(), 12);
        let frame = plan.render(&samples);
        for y in 0..7 {
            for x in 0..5 {
                let sample = &samples[y * 5 + x];
                assert_eq!(frame.pixel(x, y), Some(shade(sample, 12, mode)));
                if sample.iterations == 12 {
                    assert_eq!(frame.pixel(x, y), Some(Rgb { r: 0, g: 0, b: 0 }));
                }
            }
        }
    }
}

#[test]
fn band_height_does_not_change_the_frame() {
    for mode in [ColorMode::Smooth, ColorMode::Discrete] {
        let whole = RenderPlan::new(6, 11, 20, 11, mode).unwrap();
        let samples = ramp(whole.pixels(), 20);
        let reference = whole.render(&samples).into_bytes();
        assert_eq!(reference.len(), 6 * 11 * 3);
        for band_height in [1usize, 2, 3, 4, 5, 10, 12, 64, usize::MAX] {
            let banded = RenderPlan::new(6, 11, 20, band_height, mode).unwrap();
            assert_eq!(banded.render(&samples).into_bytes(), reference);
        }
        assert_eq!(whole.render(&samples).into_bytes(), reference);
    }
}

#[test]
fn bands_rendered_apart_make_the_frame() {
    let plan = plan(4, 9, 15, 4);
    let samples = ramp(plan.pixels(), 15);
    let reference = plan.render(&samples).into_bytes();
    let mut joined = Vec::new();
    for tile in plan.tiles() {
        let first = tile.row_start * tile.width;
        let last = (tile.row_start + tile.row_count) * tile.width;
        let mut band = vec![0xAAu8; 3 * (last - first)];
        partial_render(&mut band, &tile, &samples[first..last], 15, ColorMode::Smooth);
        joined.extend(band);
    }
    assert_eq!(joined, reference);
}

#[test]
fn partial_render_fills_exactly_its_band() {
    let tile = Tile { row_start: 7, row_count: 2, width: 2 };
    let samples = vec![escaped(1, 1), escaped(6, 2), escaped(2, 300), escaped(3, 4)];
    let mut band = vec![0x55u8; 12];
    partial_render(&mut band, &tile, &samples, 6, ColorMode::Smooth);
    assert_eq!(band, vec![1, 2, 3, 0, 0, 0, 255, 255, 255, 4, 5, 6]);
    let mut gray = vec![0x55u8; 12];
    partial_render(&mut gray, &tile, &samples, 6, ColorMode::Discrete);
    assert_eq!(gray, vec![42, 42, 42, 0, 0, 0, 85, 85, 85, 127, 127, 127]);
    let empty = Tile { row_start: 0, row_count: 0, width: 5 };
    let mut nothing: Vec<u8> = Vec::new();
    partial_render(&mut nothing, &empty, &[], 6, ColorMode::Smooth);
    assert!(nothing.is_empty());
}
