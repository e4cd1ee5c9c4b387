use gray_convolve::{clamp_sample, convolve, get_pixel, neighborhood, EdgeMode, KernelShape, Raster};
use std::cell::Cell;

const GAUSSIAN: [f64; 25] = [
    0.003765, 0.015019, 0.023792, 0.015019, 0.003765,
    0.015019, 0.059912, 0.094907, 0.059912, 0.015019,
    0.023792, 0.094907, 0.150342, 0.094907, 0.023792,
    0.015019, 0.059912, 0.094907, 0.059912, 0.015019,
    0.003765, 0.015019, 0.023792, 0.015019, 0.003765,
];

const SHARPEN: [f64; 9] = [0.0, -1.0, 0.0, -1.0, 5.0, -1.0, 0.0, -1.0, 0.0];

const OUTLINE: [f64; 9] = [-1.0, -1.0, -1.0, -1.0, 8.0, -1.0, -1.0, -1.0, -1.0];

/// The weighted sum of a neighbourhood, divided by the sum of the weights
/// unless that is zero, rounded and clamped.
fn weighted(weights: &[f64]) -> impl Fn(Vec<u8>) -> u8 + '_ {
    let mut sum = 0.0;
    for weight in weights {
        sum += *weight;
    }
    move |samples: Vec<u8>| {
        assert_eq!(samples.len(), weights.len());
        let mut raw = 0.0;
        for (sample, weight) in samples.iter().zip(weights) {
            raw += f64::from(*sample) * *weight;
        }
        let adjusted = if sum != 0.0 { raw / sum } else { raw };
        clamp_sample(adjusted.round() as i64)
    }
}

fn filter(image: &Raster, weights: &[f64], mode: EdgeMode) -> Vec<u8> {
    let shape = KernelShape::new(weights.len()).expect("making a convolution");
    convolve(image, &shape, &mode, weighted(weights)).expect("unwrapping image").to_vec()
}

fn ramp() -> Raster {
    Raster::from_raw(3, 3, vec![0, 10, 20, 30, 40, 50, 60, 70, 80]).expect("nine samples")
}

fn pattern() -> Raster {
    let mut samples = Vec::new();
    for y in 0u32..6 {
        for x in 0u32..8 {
            samples.push(((x * 37 + y * 91 + x * y * 13) % 256) as u8);
        }
    }
    Raster::from_raw(8, 6, samples).expect("forty-eight samples")
}

#[test]
fn gaussian_blur_blurs() {
    let base_image = pattern();
    let actual = filter(&base_image, &GAUSSIAN, EdgeMode::Extend);
    let expected: Vec<u8> = vec![
        48, 73, 102, 125, 140, 152, 138, 94,
        96, 116, 132, 139, 138, 139, 133, 116,
        120, 135, 142, 145, 143, 140, 130, 118,
        111, 127, 138, 146, 144, 138, 131, 123,
        119, 122, 133, 147, 144, 132, 130, 138,
        143, 126, 138, 158, 150, 131, 122, 136,
    ];
    assert_eq!(actual, expected);
}

#[test]
fn identity_convolution_returns_same_image() {
    let base_image = pattern();
    assert_eq!(filter(&base_image, &[1.0], EdgeMode::Extend), base_image.to_vec());
}

#[test]
fn identity_holds_under_every_edge_mode() {
    for mode in [EdgeMode::Extend, EdgeMode::Wrap, EdgeMode::Mirror] {
        assert_eq!(filter(&pattern(), &[1.0], mode), pattern().to_vec());
        assert_eq!(filter(&ramp(), &[1.0], mode), ramp().to_vec());
        let centre_only = [0.0, 0.0, 0.0, 0.0, 1.0, 0.0, 0.0, 0.0, 0.0];
        assert_eq!(filter(&pattern(), &centre_only, mode), pattern().to_vec());
    }
}

#[test]
fn gaussian_blur_wraps_and_mirrors() {
    let wrapped: Vec<u8> = vec![
        96, 101, 122, 140, 142, 140, 131, 111,
        111, 122, 136, 143, 138, 137, 130, 116,
        123, 136, 142, 145, 143, 140, 129, 120,
        118, 128, 138, 146, 144, 138, 130, 120,
        120, 118, 128, 144, 143, 134, 130, 126,
        109, 106, 122, 143, 145, 138, 129, 120,
    ];
    assert_eq!(filter(&pattern(), &GAUSSIAN, EdgeMode::Wrap), wrapped);
    let mirrored: Vec<u8> = vec![
        56, 79, 108, 128, 138, 148, 137, 108,
        99, 116, 132, 139, 138, 139, 133, 119,
        124, 135, 142, 145, 143, 140, 130, 119,
        114, 127, 138, 146, 144, 138, 131, 124,
        120, 122, 133, 147, 144, 132, 130, 136,
        137, 126, 136, 155, 148, 130, 124, 135,
    ];
    assert_eq!(filter(&pattern(), &GAUSSIAN, EdgeMode::Mirror), mirrored);
}

#[test]
fn a_flat_image_stays_flat_under_a_blur() {
    let flat = Raster::from_raw(7, 5, vec![100; 35]).expect("thirty-five samples");
    for mode in [EdgeMode::Extend, EdgeMode::Wrap, EdgeMode::Mirror] {
        assert_eq!(filter(&flat, &GAUSSIAN, mode), vec![100; 35]);
    }
}

#[test]
fn a_box_blur_takes_the_mean() {
    let ones = [1.0; 9];
    assert_eq!(
        filter(&ramp(), &ones, EdgeMode::Extend),
        vec![13, 20, 27, 33, 40, 47, 53, 60, 67]
    );
    assert_eq!(filter(&ramp(), &ones, EdgeMode::Wrap), vec![40; 9]);
    assert_eq!(
        filter(&ramp(), &ones, EdgeMode::Mirror),
        vec![13, 20, 27, 33, 40, 47, 53, 60, 67]
    );
    let step = Raster::from_raw(4, 2, vec![0, 0, 255, 255, 0, 0, 255, 255]).expect("a step");
    assert_eq!(
        filter(&step, &ones, EdgeMode::Extend),
        vec![0, 85, 170, 255, 0, 85, 170, 255]
    );
    assert_eq!(
        filter(&step, &ones, EdgeMode::Wrap),
        vec![85, 85, 170, 170, 85, 85, 170, 170]
    );
}

#[test]
fn weights_are_normalised_by_their_sum() {
    let twos = [2.0; 9];
    let ninths = [2.0 / 18.0; 9];
    for mode in [EdgeMode::Extend, EdgeMode::Wrap, EdgeMode::Mirror] {
        assert_eq!(filter(&ramp(), &twos, mode), filter(&ramp(), &ninths, mode));
        assert_eq!(filter(&pattern(), &twos, mode), filter(&pattern(), &ninths, mode));
    }
    assert_eq!(filter(&ramp(), &twos, EdgeMode::Extend), vec![13, 20, 27, 33, 40, 47, 53, 60, 67]);
    assert_eq!(filter(&pattern(), &[4.0], EdgeMode::Wrap), pattern().to_vec());
}

#[test]
fn sums_outside_a_byte_are_clamped() {
    let dot = Raster::from_raw(3, 3, vec![0, 0, 0, 0, 255, 0, 0, 0, 0]).expect("nine samples");
    assert_eq!(filter(&dot, &SHARPEN, EdgeMode::Extend), vec![0, 0, 0, 0, 255, 0, 0, 0, 0]);
    assert_eq!(filter(&dot, &OUTLINE, EdgeMode::Extend), vec![0, 0, 0, 0, 255, 0, 0, 0, 0]);
    assert_eq!(
        filter(&ramp(), &SHARPEN, EdgeMode::Extend),
        vec![0, 0, 0, 20, 40, 60, 80, 100, 120]
    );
}

#[test]
fn a_kernel_that_sums_to_zero_is_left_unscaled() {
    let flat = Raster::from_raw(4, 4, vec![77; 16]).expect("sixteen samples");
    assert_eq!(filter(&flat, &OUTLINE, EdgeMode::Mirror), vec![0; 16]);
}

#[test]
fn repeated_runs_give_the_same_image() {
    for mode in [EdgeMode::Extend, EdgeMode::Wrap, EdgeMode::Mirror] {
        let first = filter(&pattern(), &GAUSSIAN, mode);
        let second = filter(&pattern(), &GAUSSIAN, mode);
        assert_eq!(first, second);
    }
}

#[test]
fn the_source_image_is_left_as_it_was() {
    let image = pattern();
    let before = image.to_vec();
    let blurred = filter(&image, &GAUSSIAN, EdgeMode::Extend);
    assert_ne!(blurred, before);
    assert_eq!(image.to_vec(), before);
}

#[test]
fn the_result_has_the_dimensions_of_the_source() {
    let shape = KernelShape::new(9).expect("three by three");
    let image = Raster::from_raw(5, 2, vec![9; 10]).expect("ten samples");
    let result = convolve(&image, &shape, &EdgeMode::Extend, |_samples: Vec<u8>| 1u8)
        .expect("unwrapping image");
    assert_eq!((result.width(), result.height()), (5, 2));
    assert_eq!(result.to_vec(), vec![1; 10]);
}

#[test]
fn pixels_are_visited_in_raster_order() {
    let shape = KernelShape::new(1).expect("one cell");
    let image = Raster::from_raw(3, 2, vec![50, 51, 52, 53, 54, 55]).expect("six samples");
    let calls = Cell::new(0u8);
    let seen = Cell::new(0u32);
    let result = convolve(&image, &shape, &EdgeMode::Wrap, |samples: Vec<u8>| {
        let turn = calls.get();
        calls.set(turn + 1);
        seen.set(seen.get() * 7 + u32::from(samples[0]));
        turn
    })
    .expect("unwrapping image");
    assert_eq!(result.to_vec(), vec![0, 1, 2, 3, 4, 5]);
    let mut expected: u32 = 0;
    for sample in [50u32, 51, 52, 53, 54, 55] {
        expected = expected * 7 + sample;
    }
    assert_eq!(seen.get(), expected);
}

#[test]
fn an_empty_image_gives_an_empty_image() {
    let shape = KernelShape::new(25).expect("five by five");
    for mode in [EdgeMode::Extend, EdgeMode::Wrap, EdgeMode::Mirror] {
        let image = Raster::from_raw(0, 3, Vec::new()).expect("no samples");
        let result = convolve(&image, &shape, &mode, weighted(&GAUSSIAN)).expect("unwrapping image");
        assert_eq!((result.width(), result.height()), (0, 3));
        assert!(result.to_vec().is_empty());
    }
}

#[test]
fn a_kernel_larger_than_the_image_extends_the_edge() {
    let single = Raster::from_raw(1, 1, vec![200]).expect("one sample");
    assert_eq!(filter(&single, &GAUSSIAN, EdgeMode::Extend), vec![200]);
    let shape = KernelShape::new(25).expect("five by five");
    assert_eq!(neighborhood(&single, 0, 0, &shape, &EdgeMode::Extend), vec![200; 25]);
}

#[test]
fn a_neighbourhood_lists_the_cells_row_by_row() {
    let image = ramp();
    let three = KernelShape::new(9).expect("three by three");
    assert_eq!(
        neighborhood(&image, 1, 1, &three, &EdgeMode::Extend),
        vec![0, 10, 20, 30, 40, 50, 60, 70, 80]
    );
    assert_eq!(
        neighborhood(&image, 0, 0, &three, &EdgeMode::Extend),
        vec![0, 0, 10, 0, 0, 10, 30, 30, 40]
    );
    assert_eq!(
        neighborhood(&image, 2, 2, &three, &EdgeMode::Extend),
        vec![40, 50, 50, 70, 80, 80, 70, 80, 80]
    );
    assert_eq!(
        neighborhood(&image, 0, 0, &three, &EdgeMode::Wrap),
        vec![80, 60, 70, 20, 0, 10, 50, 30, 40]
    );
    assert_eq!(
        neighborhood(&image, 2, 2, &three, &EdgeMode::Wrap),
        vec![40, 50, 30, 70, 80, 60, 10, 20, 0]
    );
    assert_eq!(
        neighborhood(&image, 0, 0, &three, &EdgeMode::Mirror),
        vec![0, 0, 10, 0, 0, 10, 30, 30, 40]
    );
    let one = KernelShape::new(1).expect("one cell");
    assert_eq!(neighborhood(&image, 2, 1, &one, &EdgeMode::Mirror), vec![50]);
}

#[test]
fn a_wide_neighbourhood_reaches_two_pixels_out() {
    let image = ramp();
    let five = KernelShape::new(25).expect("five by five");
    assert_eq!(
        neighborhood(&image, 1, 1, &five, &EdgeMode::Extend),
        vec![
            0, 0, 10, 20, 20, 0, 0, 10, 20, 20, 30, 30, 40, 50, 50, 60, 60, 70, 80, 80, 60, 60,
            70, 80, 80
        ]
    );
    assert_eq!(
        neighborhood(&image, 1, 1, &five, &EdgeMode::Wrap),
        vec![
            80, 60, 70, 80, 60, 20, 0, 10, 20, 0, 50, 30, 40, 50, 30, 80, 60, 70, 80, 60, 20, 0,
            10, 20, 0
        ]
    );
    assert_eq!(
        neighborhood(&image, 1, 1, &five, &EdgeMode::Mirror),
        vec![
            0, 0, 10, 20, 20, 0, 0, 10, 20, 20, 30, 30, 40, 50, 50, 60, 60, 70, 80, 80, 60, 60,
            70, 80, 80
        ]
    );
}

#[test]
fn samples_outside_the_image_are_resolved_before_they_are_read() {
    let image = ramp();
    assert_eq!(get_pixel(&image, 1, 2, &EdgeMode::Wrap), 70);
    assert_eq!(get_pixel(&image, -1, 0, &EdgeMode::Extend), 0);
    assert_eq!(get_pixel(&image, 3, 3, &EdgeMode::Extend), 80);
    assert_eq!(get_pixel(&image, -1, 0, &EdgeMode::Wrap), 20);
    assert_eq!(get_pixel(&image, 3, -1, &EdgeMode::Wrap), 60);
    assert_eq!(get_pixel(&image, -2, 1, &EdgeMode::Mirror), 40);
    assert_eq!(get_pixel(&image, 4, 4, &EdgeMode::Mirror), 40);
    assert_eq!(get_pixel(&image, -3, 5, &EdgeMode::Mirror), 20);
}
