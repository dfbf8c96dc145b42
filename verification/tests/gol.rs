use gol::Cell;
use gol::Universe;
use gol::benchmark;
use gol::clamp_add;
use gol::clamp_sub;
use gol::oscillator;
use gol::wrapped_add_or_sub;

#[test]
fn test_clamp_sub() {
    assert_eq!(4, clamp_sub(0, 5));
    assert_eq!(1, clamp_sub(2, 5));
}

#[test]
fn test_clamp_add() {
    assert_eq!(0, clamp_add(4, 5));
    assert_eq!(4, clamp_add(3, 5));
}

#[test]
fn test_wrapped_add_or_sub() {
    assert_eq!(4, wrapped_add_or_sub(0, 5, -1));
    assert_eq!(0, wrapped_add_or_sub(4, 5, 1));
    assert_eq!(2, wrapped_add_or_sub(2, 5, 0));
    assert_eq!(1, wrapped_add_or_sub(2, 5, -1));
    assert_eq!(3, wrapped_add_or_sub(2, 5, 1));
}

#[test]
fn test_new_grid_is_dead() {
    let u = Universe::new(3, 4);
    assert_eq!(3, u.width());
    assert_eq!(4, u.height());
    assert_eq!(12, u.get_cells().len());
    assert!(u.get_cells().iter().all(|&c| c == Cell::Dead));
}

#[test]
fn test_bless_cell() {
    let mut u = Universe::new(3, 3);
    u.bless_cell(1, 2);
    for row in 0..3u32 {
        for col in 0..3u32 {
            let expected = if (row, col) == (1, 2) { Cell::Alive } else { Cell::Dead };
            assert_eq!(expected, u.get_cells()[(row * 3 + col) as usize]);
        }
    }
}

#[test]
fn test_neighbour_count_bounds() {
    let empty = Universe::new(3, 3);
    let mut full = Universe::new(3, 3);
    for row in 0..3u32 {
        for col in 0..3u32 {
            full.bless_cell(row, col);
        }
    }
    for row in 0..3u32 {
        for col in 0..3u32 {
            assert_eq!(0, empty.live_neighbour_count(row, col));
            assert_eq!(8, full.live_neighbour_count(row, col));
        }
    }
}

#[test]
fn test_degenerate_one_by_one() {
    // On a 1x1 torus every one of the eight wrapped offsets lands on the
    // cell itself, so a live lone cell counts eight neighbours and dies.
    let mut u = Universe::new(1, 1);
    u.bless_cell(0, 0);
    assert_eq!(8, u.live_neighbour_count(0, 0));
    u.tick();
    assert_eq!(Cell::Dead, u.get_cells()[0]);
}

#[test]
fn test_underpopulation_dies() {
    // Two lone neighbours on a 5x5 grid: each has one live neighbour and
    // dies; no dead cell reaches three, so the grid empties.
    let mut u = Universe::new(5, 5);
    u.bless_cell(1, 1);
    u.bless_cell(1, 2);
    u.tick();
    assert!(u.get_cells().iter().all(|&c| c == Cell::Dead));
}

#[test]
fn test_overpopulation_dies() {
    // The centre of a plus sign has four live neighbours and dies.
    let mut u = Universe::new(5, 5);
    u.bless_cell(1, 2);
    u.bless_cell(3, 2);
    u.bless_cell(2, 1);
    u.bless_cell(2, 3);
    u.bless_cell(2, 2);
    assert_eq!(4, u.live_neighbour_count(2, 2));
    u.tick();
    assert_eq!(Cell::Dead, u.get_cells()[(2 * 5 + 2) as usize]);
}

#[test]
fn test_birth_on_three() {
    // The cell above the middle of a horizontal triple has exactly three
    // live neighbours and is born; its lateral dead neighbours have two
    // and stay dead.
    let u = {
        let mut u = Universe::new(5, 5);
        u.bless_cell(3, 1);
        u.bless_cell(3, 2);
        u.bless_cell(3, 3);
        u
    };
    assert_eq!(3, u.live_neighbour_count(2, 2));
    assert_eq!(2, u.live_neighbour_count(2, 1));
    let mut next = u;
    next.tick();
    assert_eq!(Cell::Alive, next.get_cells()[(2 * 5 + 2) as usize]);
    assert_eq!(Cell::Dead, next.get_cells()[(2 * 5 + 1) as usize]);
}

#[test]
fn test_block_still_life() {
    let mut u = Universe::new(4, 4);
    u.bless_cell(1, 1);
    u.bless_cell(1, 2);
    u.bless_cell(2, 1);
    u.bless_cell(2, 2);
    let before = u.get_cells().to_vec();
    assert_eq!(3, u.live_neighbour_count(1, 1));
    u.tick();
    assert_eq!(before, u.get_cells().to_vec());
    u.tick();
    u.tick();
    assert_eq!(before, u.get_cells().to_vec());
}

#[test]
fn test_oscillator_phases() {
    let mut u = oscillator();
    assert_eq!(5, u.width());
    assert_eq!(5, u.height());
    let alive = |u: &Universe| -> Vec<(u32, u32)> {
        let mut out = Vec::new();
        for row in 0..5u32 {
            for col in 0..5u32 {
                if u.get_cells()[(row * 5 + col) as usize] == Cell::Alive {
                    out.push((row, col));
                }
            }
        }
        out
    };
    assert_eq!(vec![(3, 1), (3, 2), (3, 3)], alive(&u));
    u.tick();
    assert_eq!(vec![(2, 2), (3, 2), (4, 2)], alive(&u));
    u.tick();
    assert_eq!(vec![(3, 1), (3, 2), (3, 3)], alive(&u));
}

#[test]
fn test_benchmark_runs_generations() {
    // A blinker has period two: an even number of generations restores
    // it, an odd number leaves the other phase.
    let mut by_loop = oscillator();
    benchmark(&mut by_loop, 4);
    assert_eq!(oscillator().get_cells().to_vec(), by_loop.get_cells().to_vec());
    let mut odd = oscillator();
    benchmark(&mut odd, 3);
    let mut one = oscillator();
    one.tick();
    assert_eq!(one.get_cells().to_vec(), odd.get_cells().to_vec());
}

#[test]
fn test_seed_round_trip() {
    let u = Universe::from_seed(b"X.\n.X\n").unwrap();
    assert_eq!(2, u.width());
    assert_eq!(2, u.height());
    assert_eq!(Cell::Alive, u.get_cells()[0]);
    assert_eq!(Cell::Dead, u.get_cells()[1]);
    assert_eq!(Cell::Dead, u.get_cells()[2]);
    assert_eq!(Cell::Alive, u.get_cells()[3]);
}

#[test]
fn test_seed_short_lines_and_case() {
    // Width comes from the longest line; short lines leave dead cells;
    // a lower-case mark counts too; the last line may be unterminated.
    let u = Universe::from_seed(b"x\n..X").unwrap();
    assert_eq!(3, u.width());
    assert_eq!(2, u.height());
    let alive: Vec<usize> =
        (0..6).filter(|&i| u.get_cells()[i] == Cell::Alive).collect();
    assert_eq!(vec![0, 5], alive);
}

#[test]
fn test_seed_rejects_empty() {
    assert!(Universe::from_seed(b"").is_none());
    assert!(Universe::from_seed(b"\n\n").is_none());
}

#[test]
fn test_render_shape() {
    let mut u = Universe::new(3, 2);
    u.bless_cell(0, 1);
    let text = u.render();
    assert_eq!(" \u{2BC0} \n   \n", text);
}

#[test]
fn test_render_deterministic() {
    let u = oscillator();
    assert_eq!(u.render(), u.render());
}

#[test]
fn test_render_after_tick_differs_at_changed_cells() {
    let mut u = oscillator();
    let before: Vec<char> = u.render().chars().collect();
    let cells_before = u.get_cells().to_vec();
    u.tick();
    let after: Vec<char> = u.render().chars().collect();
    let cells_after = u.get_cells().to_vec();
    assert_eq!(before.len(), after.len());
    for row in 0..5usize {
        for col in 0..5usize {
            let cell_changed = cells_before[row * 5 + col] != cells_after[row * 5 + col];
            let glyph_changed = before[row * 6 + col] != after[row * 6 + col];
            assert_eq!(cell_changed, glyph_changed);
        }
        assert_eq!('\n', after[row * 6 + 5]);
    }
}
