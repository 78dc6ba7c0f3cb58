use game_of_life::{Cell, Universe};

/// Build a grid of the given size with the listed cells alive and
/// every other cell dead.
fn grid(width: u32, height: u32, alive: &[(u32, u32)]) -> Universe {
    let mut cells = vec![Cell::Dead; (width * height) as usize];
    for &(r, c) in alive {
        cells[(r * width + c) as usize] = Cell::Alive;
    }
    Universe::from_cells(width, height, cells)
}

#[test]
fn new_has_default_dimensions() {
    let u = Universe::new();
    assert_eq!(u.width(), 64);
    assert_eq!(u.height(), 64);
    assert_eq!(u.cells().len(), 64 * 64);
}

#[test]
fn new_follows_initial_pattern() {
    let u = Universe::new();
    for (i, &cell) in u.cells().iter().enumerate() {
        let expected = if i % 2 == 0 || i % 7 == 0 {
            Cell::Alive
        } else {
            Cell::Dead
        };
        assert_eq!(cell, expected);
    }
}

#[test]
fn new_is_deterministic() {
    let a = Universe::new();
    let b = Universe::new();
    assert_eq!(a.cells(), b.cells());
}

#[test]
fn corner_counts_wrapped_neighbors() {
    // On a 4x4 torus the corner (0,0) is adjacent to (3,3), (3,1) and
    // (1,3) across the edges; with exactly those three alive it must
    // come alive after one step.
    let mut u = grid(4, 4, &[(3, 3), (3, 1), (1, 3)]);
    u.tick();
    assert_eq!(u.cells()[0], Cell::Alive);
}

#[test]
fn plus_shape_updates_synchronously() {
    // On a 3x3 torus every cell neighbors all eight others, so with
    // five cells alive each live cell sees four live neighbors and
    // each dead cell sees five: one synchronous step kills everything.
    // Any update that let a cell observe an already-updated neighbor
    // would break this.
    let mut u = grid(3, 3, &[(0, 1), (1, 0), (1, 1), (1, 2), (2, 1)]);
    u.tick();
    for &cell in u.cells().iter() {
        assert_eq!(cell, Cell::Dead);
    }
}

#[test]
fn block_is_a_still_life() {
    let mut u = grid(6, 6, &[(2, 2), (2, 3), (3, 2), (3, 3)]);
    let start = u.cells().clone();
    for _ in 0..4 {
        u.tick();
        assert_eq!(u.cells(), &start);
    }
}

#[test]
fn blinker_oscillates_with_period_two() {
    let horizontal = grid(5, 5, &[(2, 1), (2, 2), (2, 3)]);
    let vertical = grid(5, 5, &[(1, 2), (2, 2), (3, 2)]);
    let mut u = grid(5, 5, &[(2, 1), (2, 2), (2, 3)]);
    u.tick();
    assert_eq!(u.cells(), vertical.cells());
    u.tick();
    assert_eq!(u.cells(), horizontal.cells());
}

#[test]
fn render_draws_each_cell_as_one_glyph() {
    let u = grid(3, 2, &[(0, 0), (0, 2), (1, 1)]);
    assert_eq!(u.render(), "◼◻◼\n◻◼◻\n");
}

#[test]
fn render_has_one_line_per_row() {
    let u = Universe::new();
    let text = u.render();
    assert!(text.ends_with('\n'));
    let lines: Vec<&str> = text.lines().collect();
    assert_eq!(lines.len(), u.height() as usize);
    for (r, line) in lines.iter().enumerate() {
        let glyphs: Vec<char> = line.chars().collect();
        assert_eq!(glyphs.len(), u.width() as usize);
        for (c, &g) in glyphs.iter().enumerate() {
            let cell = u.cells()[r * u.width() as usize + c];
            let expected = if cell == Cell::Dead { '◻' } else { '◼' };
            assert_eq!(g, expected);
        }
    }
}

#[test]
fn tick_keeps_dimensions_and_length() {
    let mut u = Universe::new();
    for _ in 0..3 {
        u.tick();
        assert_eq!(u.width(), 64);
        assert_eq!(u.height(), 64);
        assert_eq!(u.cells().len(), 64 * 64);
    }
}

#[test]
fn accessors_reflect_construction() {
    let u = grid(7, 4, &[(0, 6), (3, 0)]);
    assert_eq!(u.width(), 7);
    assert_eq!(u.height(), 4);
    assert_eq!(u.cells().len(), 28);
    assert_eq!(u.cells()[6], Cell::Alive);
    assert_eq!(u.cells()[3 * 7], Cell::Alive);
    assert_eq!(u.cells()[1], Cell::Dead);
}

#[test]
fn one_by_one_grid_has_no_neighbors() {
    // Every offset wraps back onto the cell itself and is excluded,
    // so the lone cell sees zero neighbors and dies.
    let mut u = grid(1, 1, &[(0, 0)]);
    u.tick();
    assert_eq!(u.cells()[0], Cell::Dead);
}

#[test]
fn one_tall_grid_counts_aliasing_offsets_once_each() {
    // On a 1-row grid the three row offsets all land on row 0, so each
    // horizontal neighbor is reached three times; only the offsets
    // that alias the cell itself are excluded.  With one live cell the
    // other two cells each count it three times and are born, while
    // the live cell sees no live neighbor and dies.
    let mut u = grid(3, 1, &[(0, 0)]);
    u.tick();
    assert_eq!(u.cells()[0], Cell::Dead);
    assert_eq!(u.cells()[1], Cell::Alive);
    assert_eq!(u.cells()[2], Cell::Alive);
}

#[test]
fn lonely_cell_dies_and_crowd_thins() {
    // Underpopulation: a single live cell dies.
    let mut lone = grid(5, 5, &[(2, 2)]);
    lone.tick();
    for &cell in lone.cells().iter() {
        assert_eq!(cell, Cell::Dead);
    }
    // Overpopulation: the center of a 3x3 square of live cells has
    // eight live neighbors and dies.
    let mut full = grid(
        7,
        7,
        &[
            (2, 2),
            (2, 3),
            (2, 4),
            (3, 2),
            (3, 3),
            (3, 4),
            (4, 2),
            (4, 3),
            (4, 4),
        ],
    );
    full.tick();
    assert_eq!(full.cells()[(3 * 7 + 3) as usize], Cell::Dead);
}
