use rand::rngs::StdRng;
use rand::SeedableRng;
use simulation::canvas::RecordingCanvas;
use simulation::cell::Cell;
use simulation::cell::NeighbourCount;
use simulation::world::World;

fn live_cells(world: &World, width: usize, height: usize) -> Vec<(usize, usize)> {
    let mut alive = Vec::new();
    for i in 0..height {
        for j in 0..width {
            if world.cell_state(i, j) == 1 {
                alive.push((i, j));
            }
        }
    }
    alive
}

#[test]
fn neighbour_count_accepts_zero_to_eight() {
    for byte in 0u8..=8u8 {
        let count = NeighbourCount::try_from_byte(byte).unwrap();
        assert_eq!(count.get(), byte);
    }
}

#[test]
fn neighbour_count_rejects_nine_and_up() {
    assert!(NeighbourCount::try_from_byte(9).is_err());
    assert!(NeighbourCount::try_from_byte(255).is_err());
}

#[test]
fn cell_from_byte_unpacks_flag_and_count() {
    // Bit 0 is the alive flag, bits 1 to 4 the neighbour count.
    let cell = Cell::try_from_byte(0b0000_0111).unwrap();
    assert!(cell.is_alive());
    assert_eq!(cell.neighbours().get(), 3);
    assert!(!cell.is_empty());

    let cell = Cell::try_from_byte(0).unwrap();
    assert!(!cell.is_alive());
    assert_eq!(cell.neighbours().get(), 0);
    assert!(cell.is_empty());

    // 0b10001 packs alive with the maximum count of 8.
    let cell = Cell::try_from_byte(0b0001_0001).unwrap();
    assert!(cell.is_alive());
    assert_eq!(cell.neighbours().get(), 8);
}

#[test]
fn cell_from_byte_rejects_out_of_range() {
    // Above the five packed bits.
    assert!(Cell::try_from_byte(0b0010_0000).is_err());
    assert!(Cell::try_from_byte(255).is_err());
    // Within five bits but with a count field of 9.
    assert!(Cell::try_from_byte(0b0001_0010).is_err());
}

#[test]
fn cell_flag_operations_leave_count_alone() {
    let mut cell = Cell::try_from_byte(0b0000_0110).unwrap();
    assert!(!cell.is_alive());
    cell.set_alive();
    assert!(cell.is_alive());
    assert_eq!(cell.neighbours().get(), 3);
    cell.set_dead();
    assert!(!cell.is_alive());
    assert_eq!(cell.neighbours().get(), 3);
}

#[test]
fn cell_increment_saturates_at_eight() {
    let mut cell = Cell::default();
    for expected in 1u8..=8u8 {
        assert!(cell.try_increment());
        assert_eq!(cell.neighbours().get(), expected);
    }
    assert!(!cell.try_increment());
    assert_eq!(cell.neighbours().get(), 8);
}

#[test]
fn cell_decrement_saturates_at_zero() {
    let mut cell = Cell::try_from_byte(0b0001_0000).unwrap();
    for expected in (0u8..=7u8).rev() {
        assert!(cell.try_decrement());
        assert_eq!(cell.neighbours().get(), expected);
    }
    assert!(!cell.try_decrement());
    assert_eq!(cell.neighbours().get(), 0);
}

#[test]
fn new_world_is_all_dead() {
    let world = World::new(4, 3);
    assert!(live_cells(&world, 4, 3).is_empty());
}

#[test]
fn blinker_oscillates_with_exactly_four_notifications() {
    let mut world = World::new(3, 3);
    world.set_cell(1, 0);
    world.set_cell(1, 1);
    world.set_cell(1, 2);

    let mut canvas = RecordingCanvas::new();
    world.next_generation(&mut canvas);

    // The horizontal blinker becomes vertical.
    assert_eq!(live_cells(&world, 3, 3), vec![(0, 1), (1, 1), (2, 1)]);
    // Two births and two deaths, reported in row-major scan order.
    assert_eq!(
        canvas.draws().clone(),
        vec![(0, 1, 1u8), (1, 0, 0u8), (1, 2, 0u8), (2, 1, 1u8)]
    );

    let mut canvas = RecordingCanvas::new();
    world.next_generation(&mut canvas);

    // And back to horizontal on the second generation.
    assert_eq!(live_cells(&world, 3, 3), vec![(1, 0), (1, 1), (1, 2)]);
    assert_eq!(
        canvas.draws().clone(),
        vec![(0, 1, 0u8), (1, 0, 1u8), (1, 2, 1u8), (2, 1, 0u8)]
    );
}

#[test]
fn lone_cell_dies_with_one_notification() {
    let mut world = World::new(3, 3);
    world.set_cell(1, 1);

    let mut canvas = RecordingCanvas::new();
    world.next_generation(&mut canvas);

    assert!(live_cells(&world, 3, 3).is_empty());
    assert_eq!(canvas.draws().clone(), vec![(1, 1, 0u8)]);
}

#[test]
fn corner_cell_dies_quietly_elsewhere() {
    // A lone corner cell: its three on-grid neighbours hold count 1, every
    // other cell stays empty, and the only notification is its own death.
    let mut world = World::new(5, 5);
    world.set_cell(0, 0);

    let mut canvas = RecordingCanvas::new();
    world.next_generation(&mut canvas);

    assert!(live_cells(&world, 5, 5).is_empty());
    assert_eq!(canvas.draws().clone(), vec![(0, 0, 0u8)]);
}

#[test]
fn block_is_a_still_life() {
    let mut world = World::new(4, 4);
    world.set_cell(1, 1);
    world.set_cell(1, 2);
    world.set_cell(2, 1);
    world.set_cell(2, 2);

    let mut canvas = RecordingCanvas::new();
    world.next_generation(&mut canvas);

    assert_eq!(
        live_cells(&world, 4, 4),
        vec![(1, 1), (1, 2), (2, 1), (2, 2)]
    );
    assert!(canvas.draws().is_empty());
}

#[test]
fn row_of_three_on_one_row_grid_keeps_only_middle() {
    // On a 1-high grid nothing can be born off the row, so the ends die
    // and the middle survives with its two neighbours.
    let mut world = World::new(3, 1);
    world.set_cell(0, 0);
    world.set_cell(0, 1);
    world.set_cell(0, 2);

    let mut canvas = RecordingCanvas::new();
    world.next_generation(&mut canvas);

    assert_eq!(live_cells(&world, 3, 1), vec![(0, 1)]);
    assert_eq!(canvas.draws().clone(), vec![(0, 0, 0u8), (0, 2, 0u8)]);
}

#[test]
fn empty_world_stays_empty_and_silent() {
    let mut world = World::new(6, 4);
    let mut canvas = RecordingCanvas::new();
    world.next_generation(&mut canvas);
    assert!(live_cells(&world, 6, 4).is_empty());
    assert!(canvas.draws().is_empty());
}

#[test]
fn identical_grids_evolve_identically() {
    let mut first = World::new(8, 8);
    let mut second = World::new(8, 8);
    for (i, j) in [(1, 2), (2, 3), (3, 1), (3, 2), (3, 3)] {
        first.set_cell(i, j);
        second.set_cell(i, j);
    }
    for _ in 0..4 {
        let mut canvas_a = RecordingCanvas::new();
        let mut canvas_b = RecordingCanvas::new();
        first.next_generation(&mut canvas_a);
        second.next_generation(&mut canvas_b);
        assert_eq!(canvas_a.draws(), canvas_b.draws());
        assert_eq!(live_cells(&first, 8, 8), live_cells(&second, 8, 8));
    }
}

#[test]
fn neighbour_offsets_off_the_board_are_rejected() {
    let world = World::new(3, 2);
    assert_eq!(world.is_valid_position(-1, 0), None);
    assert_eq!(world.is_valid_position(0, -1), None);
    assert_eq!(world.is_valid_position(2, 0), None);
    assert_eq!(world.is_valid_position(0, 3), None);
    assert_eq!(world.is_valid_position(1, 2), Some((1, 2)));
}

#[test]
fn random_seeding_never_exceeds_half_the_grid() {
    for seed in 0u64..12u64 {
        let mut rng = StdRng::seed_from_u64(seed);
        let world = World::random(10, 10, &mut rng);
        // 50 samples are drawn; duplicates are absorbed, so at most 50
        // cells come alive.
        assert!(live_cells(&world, 10, 10).len() <= 50);
    }
}

#[test]
fn random_seeding_on_degenerate_grids() {
    let mut rng = StdRng::seed_from_u64(1);
    let world = World::random(0, 7, &mut rng);
    assert!(live_cells(&world, 0, 7).is_empty());
    let world = World::random(7, 0, &mut rng);
    assert!(live_cells(&world, 7, 0).is_empty());
}
