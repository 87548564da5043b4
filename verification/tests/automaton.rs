use rand::rngs::StdRng;
use rand::{Rng, SeedableRng};
use remote_life::{
    accepts, apply, fill_from, fill_random, step_game_of_life, BitImage, Command,
};

fn draw(seed: u64, count: usize) -> Vec<bool> {
    let mut rng = StdRng::seed_from_u64(seed);
    let mut draws = Vec::new();
    for _ in 0..count {
        draws.push(rng.gen::<bool>());
    }
    draws
}

fn board(width: usize, height: usize, alive: &[(usize, usize)]) -> BitImage {
    let mut image = BitImage::new(width, height);
    for (x, y) in alive {
        image.set(*x, *y, true);
    }
    image
}

fn live_cells(image: &BitImage) -> Vec<(usize, usize)> {
    let mut cells = Vec::new();
    for y in 0..image.height() {
        for x in 0..image.width() {
            if image.get(x, y) {
                cells.push((x, y));
            }
        }
    }
    cells
}

#[test]
fn empty_board_is_followed_by_itself() {
    for (width, height) in [(1, 1), (1, 4), (2, 2), (3, 5), (9, 9), (128, 64)] {
        let image = BitImage::new(width, height);
        let next = step_game_of_life(&image);
        assert_eq!(next.width(), width);
        assert_eq!(next.height(), height);
        assert_eq!(next.as_bytes(), image.as_bytes());
    }
}

#[test]
fn single_cell_dies() {
    for (width, height) in [(2, 2), (3, 3), (5, 5), (8, 4), (128, 64)] {
        for (x, y) in [(0, 0), (width - 1, height - 1), (width / 2, height / 2)] {
            let image = board(width, height, &[(x, y)]);
            let next = step_game_of_life(&image);
            assert!(!next.get(x, y));
            assert_eq!(live_cells(&next), vec![]);
        }
    }
}

#[test]
fn block_is_followed_by_itself() {
    for (width, height) in [(4, 4), (5, 6), (128, 64)] {
        for (x, y) in [(0, 0), (1, 2), (width - 2, height - 2)] {
            let image = board(width, height, &[(x, y), (x + 1, y), (x, y + 1), (x + 1, y + 1)]);
            let next = step_game_of_life(&image);
            assert_eq!(next.as_bytes(), image.as_bytes());
        }
    }
}

#[test]
fn block_across_the_edges_is_followed_by_itself() {
    let image = board(6, 5, &[(5, 4), (0, 4), (5, 0), (0, 0)]);
    let next = step_game_of_life(&image);
    assert_eq!(next.as_bytes(), image.as_bytes());
}

#[test]
fn blinker_turns() {
    let flat = board(5, 5, &[(1, 2), (2, 2), (3, 2)]);
    let upright = step_game_of_life(&flat);
    assert_eq!(live_cells(&upright), vec![(2, 1), (2, 2), (2, 3)]);
    assert_eq!(
        upright.as_bytes(),
        &[0b0000_0000, 0b0010_0000, 0b0010_0000, 0b0010_0000, 0b0000_0000]
    );
    let again = step_game_of_life(&upright);
    assert_eq!(again.as_bytes(), flat.as_bytes());
}

#[test]
fn rule_of_birth_and_survival() {
    // Three in a corner of a square: the fourth is born, the three survive.
    let image = board(6, 6, &[(1, 1), (2, 1), (1, 2)]);
    let next = step_game_of_life(&image);
    assert_eq!(live_cells(&next), vec![(1, 1), (2, 1), (1, 2), (2, 2)]);

    // A cell with four live neighbours dies; so does one with a single neighbour.
    let image = board(7, 7, &[(3, 3), (2, 3), (4, 3), (3, 2), (3, 4)]);
    let next = step_game_of_life(&image);
    assert!(!next.get(3, 3));
    let image = board(7, 7, &[(3, 3), (4, 3)]);
    let next = step_game_of_life(&image);
    assert_eq!(live_cells(&next), vec![]);
}

#[test]
fn first_and_last_column_are_neighbours() {
    // A row of three that lies across the left and right edge turns upright in column 0.
    let image = board(5, 5, &[(4, 2), (0, 2), (1, 2)]);
    let next = step_game_of_life(&image);
    assert_eq!(live_cells(&next), vec![(0, 1), (0, 2), (0, 3)]);

    // Three in the last column: the cell of the first column that lies across
    // the edge from the middle one has all three as neighbours and is born.
    let image = board(6, 6, &[(5, 1), (5, 2), (5, 3)]);
    let next = step_game_of_life(&image);
    assert_eq!(live_cells(&next), vec![(0, 2), (4, 2), (5, 2)]);

    // And the other way round: three in the first column, one born in the last.
    let image = board(6, 6, &[(0, 1), (0, 2), (0, 3)]);
    let next = step_game_of_life(&image);
    assert_eq!(live_cells(&next), vec![(0, 2), (1, 2), (5, 2)]);
}

#[test]
fn first_and_last_row_are_neighbours() {
    let image = board(5, 5, &[(2, 4), (2, 0), (2, 1)]);
    let next = step_game_of_life(&image);
    assert_eq!(live_cells(&next), vec![(1, 0), (2, 0), (3, 0)]);

    let image = board(6, 6, &[(1, 5), (2, 5), (3, 5)]);
    let next = step_game_of_life(&image);
    assert_eq!(live_cells(&next), vec![(2, 0), (2, 4), (2, 5)]);

    let image = board(6, 6, &[(1, 0), (2, 0), (3, 0)]);
    let next = step_game_of_life(&image);
    assert_eq!(live_cells(&next), vec![(2, 0), (2, 1), (2, 5)]);
}

#[test]
fn corner_cells_are_neighbours_across_both_edges() {
    // Three corners alive: the fourth corner has all three as neighbours.
    let image = board(5, 5, &[(0, 0), (4, 0), (0, 4)]);
    let next = step_game_of_life(&image);
    assert_eq!(live_cells(&next), vec![(0, 0), (4, 0), (0, 4), (4, 4)]);
}

#[test]
fn narrow_board_counts_a_cell_once_for_each_place_it_stands_at() {
    // One column, three rows. The cell in the middle stands left and right of
    // itself: two neighbours, it survives. Each of the other two has the middle
    // one above or below it at three of its eight places: it is born.
    let image = board(1, 3, &[(0, 1)]);
    let next = step_game_of_life(&image);
    assert_eq!(live_cells(&next), vec![(0, 0), (0, 1), (0, 2)]);
    // Now every cell has eight live neighbours.
    let last = step_game_of_life(&next);
    assert_eq!(live_cells(&last), vec![]);

    // A board of one cell: the cell stands at all eight places around itself.
    let image = board(1, 1, &[(0, 0)]);
    let next = step_game_of_life(&image);
    assert_eq!(live_cells(&next), vec![]);

    // Two columns: the other cell of a row stands both left and right. The two
    // live cells have two neighbours each and survive; each dead cell has the
    // live row at three of its places and is born.
    let image = board(2, 3, &[(0, 1), (1, 1)]);
    let next = step_game_of_life(&image);
    assert_eq!(live_cells(&next), vec![(0, 0), (1, 0), (0, 1), (1, 1), (0, 2), (1, 2)]);

    // Two columns, one live cell: its neighbour in the row counts it twice, which
    // is not enough to be born.
    let image = board(2, 4, &[(0, 1)]);
    let next = step_game_of_life(&image);
    assert_eq!(live_cells(&next), vec![]);
}

#[test]
fn step_follows_the_rule_at_every_cell() {
    let sizes = [(1, 1), (1, 5), (2, 2), (2, 7), (3, 3), (8, 8), (9, 5), (17, 12), (128, 64)];
    for (seed, (width, height)) in sizes.into_iter().enumerate() {
        let mut image = BitImage::new(width, height);
        fill_random(&mut image, &mut StdRng::seed_from_u64(seed as u64));
        let next = step_game_of_life(&image);
        assert_eq!(next.width(), width);
        assert_eq!(next.height(), height);
        for y in 0..height {
            for x in 0..width {
                let mut neighbours = 0;
                for (dx, dy) in
                    [(-1, -1), (-1, 0), (-1, 1), (0, -1), (0, 1), (1, -1), (1, 0), (1, 1)]
                {
                    let i = (x as i64 + dx).rem_euclid(width as i64) as usize;
                    let j = (y as i64 + dy).rem_euclid(height as i64) as usize;
                    if image.get(i, j) {
                        neighbours += 1;
                    }
                }
                let expected = neighbours == 3 || (image.get(x, y) && neighbours == 2);
                assert_eq!(next.get(x, y), expected, "cell ({x}, {y}) of {width} x {height}");
            }
        }
    }
}

#[test]
fn step_leaves_its_argument_alone() {
    let image = board(5, 5, &[(1, 2), (2, 2), (3, 2)]);
    let before = image.as_bytes().to_vec();
    let _ = step_game_of_life(&image);
    assert_eq!(image.as_bytes(), &before[..]);
}

#[test]
fn step_keeps_padding_clear() {
    let mut image = BitImage::new(3, 3);
    for y in 0..3 {
        for x in 0..3 {
            image.set(x, y, (x + y) % 2 == 0);
        }
    }
    let mut current = image;
    for _ in 0..4 {
        current = step_game_of_life(&current);
        assert!(current.as_bytes().iter().all(|byte| byte & 0b0001_1111 == 0));
    }
}

#[test]
fn apply_writes_cells() {
    let mut rng = StdRng::seed_from_u64(1);
    let mut image = BitImage::new(128, 64);
    apply(&mut image, Command::Set1 { x: 127, y: 63 }, &mut rng);
    assert!(image.get(127, 63));
    assert_eq!(live_cells(&image), vec![(127, 63)]);
    assert_eq!(image.as_bytes()[1023], 0b0000_0001);
    apply(&mut image, Command::Set1 { x: 0, y: 0 }, &mut rng);
    assert_eq!(live_cells(&image), vec![(0, 0), (127, 63)]);
    apply(&mut image, Command::Set0 { x: 127, y: 63 }, &mut rng);
    assert_eq!(live_cells(&image), vec![(0, 0)]);
    apply(&mut image, Command::Set0 { x: 5, y: 5 }, &mut rng);
    assert_eq!(live_cells(&image), vec![(0, 0)]);
}

#[test]
fn apply_steps_the_board() {
    let mut rng = StdRng::seed_from_u64(1);
    let mut image = board(5, 5, &[(1, 2), (2, 2), (3, 2)]);
    apply(&mut image, Command::StepGOL, &mut rng);
    assert_eq!(live_cells(&image), vec![(2, 1), (2, 2), (2, 3)]);
    assert_eq!(image.width(), 5);
    assert_eq!(image.height(), 5);
}

#[test]
fn apply_fills_the_board_as_fill_random_does() {
    let mut applied = BitImage::new(20, 10);
    apply(&mut applied, Command::FillRandom, &mut StdRng::seed_from_u64(99));
    let mut filled = BitImage::new(20, 10);
    fill_random(&mut filled, &mut StdRng::seed_from_u64(99));
    assert_eq!(applied.as_bytes(), filled.as_bytes());
    assert_eq!(applied.width(), 20);
    assert_eq!(applied.height(), 10);
}

#[test]
fn accepts_commands_that_name_a_cell_of_the_board() {
    let image = BitImage::new(128, 64);
    assert!(accepts(&image, &Command::Set0 { x: 0, y: 0 }));
    assert!(accepts(&image, &Command::Set1 { x: 127, y: 63 }));
    assert!(!accepts(&image, &Command::Set1 { x: 128, y: 0 }));
    assert!(!accepts(&image, &Command::Set0 { x: 0, y: 64 }));
    assert!(!accepts(&image, &Command::Set0 { x: 255, y: 255 }));
    assert!(accepts(&image, &Command::StepGOL));
    assert!(accepts(&image, &Command::FillRandom));

    let small = BitImage::new(1, 1);
    assert!(accepts(&small, &Command::Set1 { x: 0, y: 0 }));
    assert!(!accepts(&small, &Command::Set1 { x: 1, y: 0 }));
    assert!(!accepts(&small, &Command::Set1 { x: 0, y: 1 }));
}

#[test]
fn fill_random_with_one_seed_gives_one_board() {
    for seed in [0u64, 1, 42, u64::MAX] {
        let mut first = BitImage::new(128, 64);
        fill_random(&mut first, &mut StdRng::seed_from_u64(seed));
        let mut second = BitImage::new(128, 64);
        fill_random(&mut second, &mut StdRng::seed_from_u64(seed));
        assert_eq!(first.as_bytes(), second.as_bytes());
    }
}

#[test]
fn fill_random_overwrites_what_the_board_held() {
    let mut blank = BitImage::new(30, 30);
    fill_random(&mut blank, &mut StdRng::seed_from_u64(7));
    let mut full = BitImage::new(30, 30);
    for y in 0..30 {
        for x in 0..30 {
            full.set(x, y, true);
        }
    }
    fill_random(&mut full, &mut StdRng::seed_from_u64(7));
    assert_eq!(blank.as_bytes(), full.as_bytes());
}

#[test]
fn fill_random_draws_both_states_and_keeps_the_size() {
    let mut image = BitImage::new(128, 64);
    fill_random(&mut image, &mut StdRng::seed_from_u64(2024));
    assert_eq!(image.width(), 128);
    assert_eq!(image.height(), 64);
    assert_eq!(image.as_bytes().len(), 1024);
    let alive = live_cells(&image).len();
    assert!(alive > 0);
    assert!(alive < 128 * 64);
}

#[test]
fn fill_random_keeps_padding_clear() {
    let mut image = BitImage::new(3, 40);
    fill_random(&mut image, &mut StdRng::seed_from_u64(5));
    assert!(image.as_bytes().iter().all(|byte| byte & 0b0001_1111 == 0));
    assert!(image.as_bytes().iter().any(|byte| *byte != 0));
}

#[test]
fn fill_random_draws_on_from_where_the_generator_stands() {
    let mut rng = StdRng::seed_from_u64(3);
    let mut first = BitImage::new(64, 64);
    fill_random(&mut first, &mut rng);
    let mut second = BitImage::new(64, 64);
    fill_random(&mut second, &mut rng);
    assert_ne!(first.as_bytes(), second.as_bytes());
}

#[test]
fn fill_from_gives_cell_x_y_the_value_at_y_times_width_plus_x() {
    let mut image = BitImage::new(2, 1);
    fill_from(&mut image, &[true, false]);
    assert_eq!(image.as_bytes(), &[0b1000_0000]);

    let mut image = BitImage::new(3, 2);
    fill_from(&mut image, &[true, false, true, false, false, true]);
    assert_eq!(image.as_bytes(), &[0b1010_0000, 0b0010_0000]);
    assert_eq!(live_cells(&image), vec![(0, 0), (2, 0), (2, 1)]);

    let (width, height) = (11, 7);
    let draws = draw(17, width * height);
    let mut image = BitImage::new(width, height);
    fill_from(&mut image, &draws);
    assert_eq!(image.width(), width);
    assert_eq!(image.height(), height);
    for y in 0..height {
        for x in 0..width {
            assert_eq!(image.get(x, y), draws[y * width + x]);
        }
    }
}

#[test]
fn fill_from_overwrites_every_cell_and_keeps_padding_clear() {
    let mut image = BitImage::new(3, 2);
    for y in 0..2 {
        for x in 0..3 {
            image.set(x, y, true);
        }
    }
    fill_from(&mut image, &[false, false, false, false, true, false]);
    assert_eq!(image.as_bytes(), &[0b0000_0000, 0b0100_0000]);

    fill_from(&mut image, &[true; 6]);
    assert_eq!(image.as_bytes(), &[0b1110_0000, 0b1110_0000]);
}

#[test]
fn fill_from_the_same_values_gives_the_same_board() {
    let draws = draw(8, 20 * 9);
    let mut blank = BitImage::new(20, 9);
    fill_from(&mut blank, &draws);
    let mut used = BitImage::new(20, 9);
    fill_random(&mut used, &mut StdRng::seed_from_u64(1234));
    fill_from(&mut used, &draws);
    assert_eq!(blank.as_bytes(), used.as_bytes());
}

#[test]
fn fill_random_fills_as_fill_from_does_with_the_values_drawn() {
    let sizes = [(1, 1), (3, 2), (8, 8), (13, 5), (128, 64)];
    for (seed, (width, height)) in sizes.into_iter().enumerate() {
        let seed = seed as u64;
        let mut random = BitImage::new(width, height);
        fill_random(&mut random, &mut StdRng::seed_from_u64(seed));
        let mut given = BitImage::new(width, height);
        fill_from(&mut given, &draw(seed, width * height));
        assert_eq!(random.as_bytes(), given.as_bytes());

        let mut applied = BitImage::new(width, height);
        apply(&mut applied, Command::FillRandom, &mut StdRng::seed_from_u64(seed));
        assert_eq!(applied.as_bytes(), given.as_bytes());
    }
}

#[test]
fn fill_random_draws_one_value_for_each_cell() {
    let mut rng = StdRng::seed_from_u64(77);
    let mut image = BitImage::new(13, 5);
    fill_random(&mut image, &mut rng);
    let mut same = StdRng::seed_from_u64(77);
    for _ in 0..13 * 5 {
        let _ = same.gen::<bool>();
    }
    assert_eq!(rng, same);
}
