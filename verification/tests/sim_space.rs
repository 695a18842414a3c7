use vdw_simulation::scalar::Scalar;
use vdw_simulation::sim_space::Cell;
use vdw_simulation::sim_space::Grid;
use vdw_simulation::sim_space::Loc;
use vdw_simulation::cell_table::CELL_BYTES;

fn grid(reach: usize) -> Grid {
    Grid::new(Scalar::from_bits(1.0f64.to_bits()), reach)
}

fn within(a: Cell, b: Cell, reach: isize) -> bool {
    (a.0 - b.0).abs() <= reach && (a.1 - b.1).abs() <= reach && (a.2 - b.2).abs() <= reach
}

fn brute_force(cells: &Vec<Cell>, reach: isize, i: usize) -> Vec<usize> {
    let mut out = Vec::new();
    for j in 0..cells.len() {
        if j != i && within(cells[i], cells[j], reach) {
            out.push(j);
        }
    }
    out
}

fn scattered(n: usize) -> Vec<Cell> {
    let mut cells = Vec::new();
    let mut seed: u64 = 0x2545_F491_4F6C_DD1D;
    for _ in 0..n {
        let mut c = [0isize; 3];
        for k in 0..3 {
            seed ^= seed << 13;
            seed ^= seed >> 7;
            seed ^= seed << 17;
            c[k] = (seed % 9) as isize - 4;
        }
        cells.push((c[0], c[1], c[2]));
    }
    cells
}

#[test]
fn grid_keeps_what_it_was_made_with() {
    let g = Grid::new(Scalar::from_bits(0.5f64.to_bits()), 3);
    assert_eq!(g.reach(), 3);
    assert_eq!(g.unit_size().to_bits(), 0.5f64.to_bits());
}

#[test]
fn cell_bytes_cover_an_empty_list() {
    assert!(std::mem::size_of::<Vec<usize>>() <= CELL_BYTES);
}

#[test]
fn make_grid_rebases_to_the_lowest_cell() {
    let cells: Vec<Cell> = vec![(3, -2, 7), (5, -2, 7), (3, 0, 9), (4, -1, 8)];
    let g = grid(1);
    assert!(g.fits(&cells));
    let (_, locs) = g.make_grid(&cells);
    assert_eq!(locs, vec![(0, 0, 0), (2, 0, 0), (0, 2, 2), (1, 1, 1)]);
}

#[test]
fn make_grid_of_nothing_is_one_empty_cell() {
    let cells: Vec<Cell> = Vec::new();
    let g = grid(1);
    assert!(g.fits(&cells));
    let (table, locs) = g.make_grid(&cells);
    assert!(locs.is_empty());
    assert_eq!(g.generate_neighbor_grid_loc((0, 0, 0), &table), vec![(0, 0, 0)]);
    assert!(g.neighbors_of((0, 0, 0), &table).is_empty());
    assert!(g.neighbor_lists(&cells).is_empty());
}

#[test]
fn table_spans_the_occupied_range() {
    let cells: Vec<Cell> = vec![(0, 0, 0), (2, 1, 0)];
    let g = grid(5);
    let (table, _) = g.make_grid(&cells);
    let around: Vec<Loc> = g.generate_neighbor_grid_loc((0, 0, 0), &table);
    assert_eq!(around, vec![(0, 0, 0), (0, 1, 0), (1, 0, 0), (1, 1, 0), (2, 0, 0), (2, 1, 0)]);
}

#[test]
fn cells_list_their_particles_in_index_order() {
    let cells: Vec<Cell> = vec![(1, 1, 1), (0, 0, 0), (1, 1, 1), (0, 0, 0), (1, 1, 1)];
    let g = grid(0);
    let (table, locs) = g.make_grid(&cells);
    assert_eq!(locs[0], (1, 1, 1));
    assert_eq!(locs[1], (0, 0, 0));
    assert_eq!(g.neighbors_of((1, 1, 1), &table), vec![0, 2, 4]);
    assert_eq!(g.neighbors_of((0, 0, 0), &table), vec![1, 3]);
    assert!(g.neighbors_of((0, 1, 0), &table).is_empty());
}

#[test]
fn neighbor_cells_come_in_lexicographic_order() {
    let cells: Vec<Cell> = vec![(0, 0, 0), (4, 4, 4)];
    let g = grid(1);
    let (table, _) = g.make_grid(&cells);
    let around = g.generate_neighbor_grid_loc((2, 2, 2), &table);
    assert_eq!(around.len(), 27);
    assert_eq!(around[0], (1, 1, 1));
    assert_eq!(around[1], (1, 1, 2));
    assert_eq!(around[3], (1, 2, 1));
    assert_eq!(around[9], (2, 1, 1));
    assert_eq!(around[13], (2, 2, 2));
    assert_eq!(around[26], (3, 3, 3));
    let mut sorted = around.clone();
    sorted.sort();
    sorted.dedup();
    assert_eq!(sorted, around);
}

#[test]
fn neighbor_cells_are_clipped_at_the_faces() {
    let cells: Vec<Cell> = vec![(0, 0, 0), (4, 4, 4)];
    let g = grid(1);
    let (table, _) = g.make_grid(&cells);
    let corner = g.generate_neighbor_grid_loc((0, 0, 0), &table);
    assert_eq!(
        corner,
        vec![(0, 0, 0), (0, 0, 1), (0, 1, 0), (0, 1, 1), (1, 0, 0), (1, 0, 1), (1, 1, 0), (1, 1, 1)]
    );
    let far = g.generate_neighbor_grid_loc((4, 4, 4), &table);
    assert_eq!(far.len(), 8);
    assert_eq!(far[0], (3, 3, 3));
    assert_eq!(far[7], (4, 4, 4));
    let edge = g.generate_neighbor_grid_loc((4, 2, 0), &table);
    assert_eq!(edge.len(), 2 * 3 * 2);
}

#[test]
fn neighbor_cells_of_a_place_outside_the_table() {
    let cells: Vec<Cell> = vec![(0, 0, 0), (1, 1, 1)];
    let g = grid(1);
    let (table, _) = g.make_grid(&cells);
    assert_eq!(g.generate_neighbor_grid_loc((2, 0, 0), &table), vec![(1, 0, 0), (1, 0, 1), (1, 1, 0), (1, 1, 1)]);
    assert!(g.generate_neighbor_grid_loc((3, 0, 0), &table).is_empty());
    assert!(g.generate_neighbor_grid_loc((usize::MAX, 0, 0), &table).is_empty());
}

#[test]
fn huge_reach_takes_the_whole_table() {
    let cells: Vec<Cell> = vec![(0, 0, 0), (1, 2, 0)];
    let g = grid(usize::MAX);
    let (table, _) = g.make_grid(&cells);
    assert_eq!(g.generate_neighbor_grid_loc((1, 1, 0), &table).len(), 2 * 3);
    assert_eq!(g.neighbors_of((1, 1, 0), &table), vec![0, 1]);
}

#[test]
fn partners_leave_the_particle_itself_out() {
    let cells: Vec<Cell> = vec![(0, 0, 0), (0, 0, 0), (1, 0, 0), (3, 0, 0)];
    let g = grid(1);
    let (table, locs) = g.make_grid(&cells);
    assert_eq!(g.neighbors_of(locs[0], &table), vec![0, 1, 2]);
    assert_eq!(g.partners_of(0, locs[0], &table), vec![1, 2]);
    assert_eq!(g.partners_of(1, locs[1], &table), vec![0, 2]);
    assert_eq!(g.partners_of(2, locs[2], &table), vec![0, 1]);
    assert_eq!(g.partners_of(3, locs[3], &table), Vec::<usize>::new());
}

#[test]
fn neighbor_lists_pair_each_particle_with_those_in_reach() {
    let cells: Vec<Cell> = vec![(0, 0, 0), (0, 0, 0), (1, 0, 0), (3, 0, 0)];
    let lists = grid(1).neighbor_lists(&cells);
    assert_eq!(lists, vec![vec![1, 2], vec![0, 2], vec![0, 1], vec![]]);
    let wide = grid(2).neighbor_lists(&cells);
    assert_eq!(wide, vec![vec![1, 2], vec![0, 2], vec![0, 1, 3], vec![2]]);
}

#[test]
fn grid_search_finds_what_brute_force_finds() {
    let cells = scattered(200);
    for reach in 0..4usize {
        let g = grid(reach);
        assert!(g.fits(&cells));
        let lists = g.neighbor_lists(&cells);
        assert_eq!(lists.len(), cells.len());
        for i in 0..cells.len() {
            let mut found = lists[i].clone();
            found.sort();
            assert_eq!(found, brute_force(&cells, reach as isize, i), "particle {} at reach {}", i, reach);
        }
    }
}

#[test]
fn negative_cells_are_handled() {
    let cells: Vec<Cell> = vec![(-5, -5, -5), (-4, -5, -5), (-1, -1, -1)];
    let g = grid(1);
    let (_, locs) = g.make_grid(&cells);
    assert_eq!(locs, vec![(0, 0, 0), (1, 0, 0), (4, 4, 4)]);
    assert_eq!(g.neighbor_lists(&cells), vec![vec![1], vec![0], vec![]]);
}

#[test]
fn fits_refuses_a_table_beyond_memory() {
    let g = grid(1);
    assert!(g.fits(&vec![(0, 0, 0), (99, 99, 99)]));
    assert!(!g.fits(&vec![(isize::MIN, 0, 0), (isize::MAX, 0, 0)]));
    assert!(!g.fits(&vec![(0, 0, 0), (isize::MAX / 24, 0, 0)]));
    assert!(g.fits(&vec![(0, 0, 0), (isize::MAX / 24 - 1, 0, 0)]) );
    assert!(!g.fits(&vec![(0, 0, 0), (1 << 21, 1 << 21, 1 << 21)]));
}
