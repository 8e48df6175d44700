use seam_carver::{
    carve_step, checked_seam_carve, compute_energy, find_seam, remove_seam, seam_carve,
    seams_to_remove, CarveError, Carver, Grid, Pixel, Raster,
};

fn picture(width: usize, height: usize, pixels: &[(u8, u8, u8)]) -> Raster {
    let cells: Vec<Pixel> = pixels.iter().map(|&(r, g, b)| Pixel { r, g, b, a: 255 }).collect();
    Grid::from_cells(width, height, cells).unwrap()
}

fn sample() -> Raster {
    picture(
        5,
        4,
        &[
            (94, 63, 49),
            (145, 233, 3),
            (232, 20, 219),
            (118, 3, 179),
            (64, 112, 221),
            (162, 253, 115),
            (44, 159, 216),
            (161, 54, 50),
            (93, 112, 88),
            (217, 197, 112),
            (232, 157, 166),
            (11, 29, 19),
            (25, 91, 228),
            (104, 125, 151),
            (32, 34, 44),
            (232, 96, 160),
            (82, 74, 116),
            (94, 13, 28),
            (90, 203, 192),
            (160, 178, 235),
        ],
    )
}

fn scrambled(width: usize, height: usize, seed: u64) -> Raster {
    let mut state = seed;
    let mut bytes = Vec::new();
    for _ in 0..width * height * 4 {
        state = state.wrapping_mul(6364136223846793005).wrapping_add(1442695040888963407);
        bytes.push((state >> 33) as u8);
    }
    Raster::from_rgba(width, height, &bytes).unwrap()
}

#[test]
fn sample_energy_and_seam() {
    let image = sample();
    let energy = compute_energy(&image);
    assert_eq!(
        energy.cells(),
        &vec![
            1889129272352u64,
            1545234746781,
            1599623806764,
            1416377198498,
            1211465201863,
            1757863034998,
            1949685885706,
            1563006862693,
            1252281037774,
            1526157923040,
            905039939789,
            1557246936966,
            1157174658212,
            1421540476106,
            1158265809554,
            1632629095790,
            1944851671350,
            1584668913682,
            1712708373596,
            1617960127659
        ]
    );
    assert_eq!(find_seam(&energy), vec![4, 3, 2, 2]);
}

#[test]
fn carve_step_removes_the_cheapest_seam() {
    let image = sample();
    let narrowed = carve_step(&image);
    let expected = picture(
        4,
        4,
        &[
            (94, 63, 49),
            (145, 233, 3),
            (232, 20, 219),
            (118, 3, 179),
            (162, 253, 115),
            (44, 159, 216),
            (161, 54, 50),
            (217, 197, 112),
            (232, 157, 166),
            (11, 29, 19),
            (104, 125, 151),
            (32, 34, 44),
            (232, 96, 160),
            (82, 74, 116),
            (90, 203, 192),
            (160, 178, 235),
        ],
    );
    assert_eq!(narrowed.width(), 4);
    assert_eq!(narrowed.height(), 4);
    assert_eq!(narrowed.cells(), expected.cells());
}

#[test]
fn carve_step_is_energy_then_seam_then_removal() {
    let image = scrambled(6, 5, 42);
    let energy = compute_energy(&image);
    let seam = find_seam(&energy);
    let by_hand = remove_seam(&image, &seam);
    assert_eq!(carve_step(&image).cells(), by_hand.cells());
}

#[test]
fn seam_carve_reaches_the_target_width() {
    let image = sample();
    let narrowed = seam_carve(&image, 3);
    let expected = picture(
        3,
        4,
        &[
            (94, 63, 49),
            (145, 233, 3),
            (232, 20, 219),
            (162, 253, 115),
            (44, 159, 216),
            (161, 54, 50),
            (232, 157, 166),
            (11, 29, 19),
            (32, 34, 44),
            (232, 96, 160),
            (82, 74, 116),
            (90, 203, 192),
        ],
    );
    assert_eq!(narrowed.width(), 3);
    assert_eq!(narrowed.height(), 4);
    assert_eq!(narrowed.cells(), expected.cells());
}

#[test]
fn seam_carve_yields_every_target_width() {
    let image = scrambled(7, 4, 9);
    for target in 1..7 {
        let narrowed = seam_carve(&image, target);
        assert_eq!(narrowed.width(), target);
        assert_eq!(narrowed.height(), 4);
    }
}

#[test]
fn seam_carve_by_one_column_is_one_step() {
    let image = scrambled(6, 6, 5);
    assert_eq!(seam_carve(&image, 5).cells(), carve_step(&image).cells());
}

#[test]
fn seam_carve_repeats_the_step() {
    let image = scrambled(6, 3, 11);
    let two_steps = carve_step(&carve_step(&image));
    assert_eq!(seam_carve(&image, 4).cells(), two_steps.cells());
}

#[test]
fn seam_carve_gives_the_same_bytes_every_time() {
    let first = scrambled(8, 6, 2024);
    let second = scrambled(8, 6, 2024);
    assert_eq!(first.to_rgba(), second.to_rgba());
    let a = seam_carve(&first, 3);
    let b = seam_carve(&second, 3);
    let c = seam_carve(&first, 3);
    assert_eq!(a.to_rgba(), b.to_rgba());
    assert_eq!(a.to_rgba(), c.to_rgba());
}

#[test]
fn seam_carve_keeps_the_opacity_of_the_pixels_that_stay() {
    let image = Raster::from_rgba(
        3,
        1,
        &[10, 10, 10, 1, 10, 10, 10, 2, 10, 10, 10, 3],
    )
    .unwrap();
    // All energies are zero, so the seam is column 0.
    let narrowed = seam_carve(&image, 2);
    assert_eq!(narrowed.to_rgba(), vec![10, 10, 10, 2, 10, 10, 10, 3]);
}

#[test]
fn chessboard_loses_one_column() {
    let image = picture(2, 2, &[(0, 0, 0), (255, 255, 255), (255, 255, 255), (0, 0, 0)]);
    let narrowed = seam_carve(&image, 1);
    assert_eq!(narrowed.width(), 1);
    assert_eq!(narrowed.height(), 2);
    // Every energy is zero, so column 0 goes in both rows.
    assert_eq!(narrowed.cells(), picture(1, 2, &[(255, 255, 255), (0, 0, 0)]).cells());
}

#[test]
fn single_column_has_no_valid_target() {
    assert_eq!(seams_to_remove(1, 0), Err(CarveError::InvalidTarget));
    assert_eq!(seams_to_remove(1, 1), Err(CarveError::InvalidTarget));
    let image = picture(1, 2, &[(1, 2, 3), (4, 5, 6)]);
    assert_eq!(checked_seam_carve(&image, 1).err(), Some(CarveError::InvalidTarget));
    assert_eq!(checked_seam_carve(&image, 0).err(), Some(CarveError::InvalidTarget));
    assert!(Carver::new(image, 1).is_err());
}

#[test]
fn checked_seam_carve_carves_or_rejects() {
    let image = sample();
    let narrowed = checked_seam_carve(&image, 3).unwrap();
    assert_eq!(narrowed.cells(), seam_carve(&image, 3).cells());
    assert_eq!(checked_seam_carve(&image, 5).err(), Some(CarveError::InvalidTarget));
    assert_eq!(checked_seam_carve(&image, 6).err(), Some(CarveError::InvalidTarget));
    assert_eq!(checked_seam_carve(&image, 0).err(), Some(CarveError::InvalidTarget));
}

#[test]
fn carver_counts_down_to_the_target() {
    let image = sample();
    let mut carver = Carver::new(image, 2).unwrap();
    assert_eq!(carver.remaining(), 3);
    assert_eq!(carver.completed(), 0);
    assert!(!carver.is_done());
    assert_eq!(carver.picture().width(), 5);

    assert!(carver.step());
    assert_eq!(carver.remaining(), 2);
    assert_eq!(carver.completed(), 1);
    assert_eq!(carver.picture().width(), 4);
    assert_eq!(carver.picture().cells(), carve_step(&sample()).cells());

    assert!(carver.step());
    assert!(carver.step());
    assert_eq!(carver.remaining(), 0);
    assert_eq!(carver.completed(), 3);
    assert!(carver.is_done());

    let result = carver.finish();
    assert_eq!(result.width(), 2);
    assert_eq!(result.height(), 4);
    assert_eq!(result.cells(), seam_carve(&sample(), 2).cells());
}

#[test]
fn carver_that_is_done_does_nothing() {
    let mut carver = Carver::new(sample(), 4).unwrap();
    assert!(carver.step());
    assert!(carver.is_done());
    let before = carver.picture().to_rgba();
    assert!(!carver.step());
    assert!(!carver.step());
    assert_eq!(carver.remaining(), 0);
    assert_eq!(carver.completed(), 1);
    assert_eq!(carver.picture().to_rgba(), before);
}

#[test]
fn carver_rejects_an_invalid_target() {
    assert_eq!(Carver::new(sample(), 0).err(), Some(CarveError::InvalidTarget));
    assert_eq!(Carver::new(sample(), 5).err(), Some(CarveError::InvalidTarget));
    assert_eq!(Carver::new(sample(), 50).err(), Some(CarveError::InvalidTarget));
}

#[test]
fn errors_say_what_went_wrong() {
    assert_eq!(
        CarveError::InvalidTarget.message(),
        "target width must be a positive number below the current width"
    );
    assert_eq!(CarveError::MalformedSeamOrEnergy.message(), "seam does not fit the picture");
}
