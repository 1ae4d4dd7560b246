use conway_life::rules::{compute_next_generation, next_state_of};
use conway_life::{Grid, LifeEngine};

fn grid(rows: &[&str]) -> Grid {
    let mut cells = Vec::new();
    for row in rows {
        let mut line = Vec::new();
        for c in row.chars() {
            line.push(if c == '#' { 1u8 } else { 0u8 });
        }
        cells.push(line);
    }
    Grid::from_rows(cells).unwrap()
}

#[test]
fn next_state_follows_the_rule() {
    for neighbors in 0u8..=8 {
        let alive = if neighbors == 2 || neighbors == 3 { 1 } else { 0 };
        let dead = if neighbors == 3 { 1 } else { 0 };
        assert_eq!(next_state_of(1, neighbors), alive);
        assert_eq!(next_state_of(0, neighbors), dead);
    }
}

#[test]
fn live_neighbors_counts_the_eight_cells_around() {
    let g = grid(&["###", "###", "###"]);
    assert_eq!(g.live_neighbors(1, 1), 8);
    assert_eq!(g.live_neighbors(0, 0), 3);
    assert_eq!(g.live_neighbors(0, 1), 5);
    assert_eq!(g.live_neighbors(2, 2), 3);
    assert_eq!(g.live_neighbors(1, 2), 5);
}

#[test]
fn live_neighbors_does_not_wrap_around() {
    let g = grid(&["#__#", "____", "____", "#__#"]);
    assert_eq!(g.live_neighbors(0, 0), 0);
    assert_eq!(g.live_neighbors(0, 3), 0);
    assert_eq!(g.live_neighbors(3, 0), 0);
    assert_eq!(g.live_neighbors(1, 1), 1);
}

#[test]
fn live_neighbors_does_not_count_the_cell_itself() {
    let g = grid(&["___", "_#_", "___"]);
    assert_eq!(g.live_neighbors(1, 1), 0);
    assert_eq!(g.live_neighbors(0, 0), 1);
}

#[test]
fn live_neighbors_outside_the_grid() {
    let g = grid(&["##", "##"]);
    assert_eq!(g.live_neighbors(2, 0), 2);
    assert_eq!(g.live_neighbors(2, 2), 1);
    assert_eq!(g.live_neighbors(5, 5), 0);
    assert_eq!(g.live_neighbors(usize::MAX, usize::MAX), 0);
}

#[test]
fn alive_at_is_zero_outside() {
    let g = grid(&["#_", "_#"]);
    assert_eq!(g.alive_at(0, 0), 1);
    assert_eq!(g.alive_at(0, 1), 0);
    assert_eq!(g.alive_at(1, 1), 1);
    assert_eq!(g.alive_at(2, 1), 0);
    assert_eq!(g.alive_at(1, 2), 0);
}

#[test]
fn lone_cell_dies() {
    let mut engine = LifeEngine::new(grid(&["___", "_#_", "___"]));
    engine.advance();
    assert_eq!(*engine.current(), grid(&["___", "___", "___"]));
}

#[test]
fn lone_cell_on_a_grid_of_one_cell_dies() {
    let mut engine = LifeEngine::new(grid(&["#"]));
    engine.advance();
    assert_eq!(*engine.current(), grid(&["_"]));
}

#[test]
fn block_is_a_still_life() {
    let block = grid(&["____", "_##_", "_##_", "____"]);
    let mut engine = LifeEngine::new(block.clone());
    for _ in 0..10 {
        engine.advance();
        assert_eq!(*engine.current(), block);
    }
    engine.advance_by(25);
    assert_eq!(*engine.current(), block);
}

#[test]
fn blinker_oscillates() {
    let horizontal = grid(&["_____", "_____", "_###_", "_____", "_____"]);
    let vertical = grid(&["_____", "__#__", "__#__", "__#__", "_____"]);
    let mut engine = LifeEngine::new(horizontal.clone());
    engine.advance();
    assert_eq!(*engine.current(), vertical);
    engine.advance();
    assert_eq!(*engine.current(), horizontal);
    engine.advance();
    assert_eq!(*engine.current(), vertical);
}

#[test]
fn corner_cell_with_two_neighbors_survives() {
    let mut engine = LifeEngine::new(grid(&["##_", "#__", "___"]));
    assert_eq!(engine.current().live_neighbors(0, 0), 2);
    engine.advance();
    assert_eq!(engine.current().get(0, 0), Some(1));
    assert_eq!(*engine.current(), grid(&["##_", "##_", "___"]));
}

#[test]
fn corner_cell_with_two_diagonal_and_side_neighbors_survives() {
    let mut engine = LifeEngine::new(grid(&["___", "_##", "__#"]));
    engine.advance();
    assert_eq!(engine.current().get(2, 2), Some(1));
}

#[test]
fn crowded_cell_dies_and_dead_cell_with_three_is_born() {
    let mut engine = LifeEngine::new(grid(&["###", "###", "###"]));
    engine.advance();
    assert_eq!(*engine.current(), grid(&["#_#", "___", "#_#"]));
    let mut engine = LifeEngine::new(grid(&["#_#", "___", "_#_"]));
    engine.advance();
    assert_eq!(*engine.current(), grid(&["___", "_#_", "___"]));
}

#[test]
fn glider_moves_one_cell_diagonally_in_four_generations() {
    let start = grid(&["_#___", "__#__", "###__", "_____", "_____"]);
    let moved = grid(&["_____", "__#__", "___#_", "_###_", "_____"]);
    let mut engine = LifeEngine::new(start);
    engine.advance_by(4);
    assert_eq!(*engine.current(), moved);
}

#[test]
fn advance_keeps_the_dimensions() {
    let mut engine = LifeEngine::new(grid(&["#_#_#", "_###_", "##_##"]));
    for _ in 0..6 {
        engine.advance();
        assert_eq!(engine.current().rows(), 3);
        assert_eq!(engine.current().cols(), 5);
    }
    let mut engine = LifeEngine::new(grid(&["#####"]));
    engine.advance();
    assert_eq!(engine.current().rows(), 1);
    assert_eq!(engine.current().cols(), 5);
    assert_eq!(*engine.current(), grid(&["_###_"]));
}

#[test]
fn same_start_gives_same_generations() {
    let start = grid(&["_#_#_", "##_##", "_#_#_", "#_#_#"]);
    let mut stepwise = LifeEngine::new(start.clone());
    let mut at_once = LifeEngine::new(start.clone());
    for _ in 0..7 {
        stepwise.advance();
    }
    at_once.advance_by(7);
    assert_eq!(*stepwise.current(), *at_once.current());
    let mut again = LifeEngine::new(start);
    again.advance_by(3);
    again.advance_by(4);
    assert_eq!(*again.current(), *at_once.current());
}

#[test]
fn advance_by_zero_changes_nothing() {
    let start = grid(&["_#_", "###"]);
    let mut engine = LifeEngine::new(start.clone());
    engine.advance_by(0);
    assert_eq!(*engine.current(), start);
}

#[test]
fn next_generation_overwrites_the_whole_buffer() {
    let current = grid(&["_____", "_###_", "_____"]);
    let mut full = grid(&["#####", "#####", "#####"]);
    let mut empty = grid(&["_____", "_____", "_____"]);
    compute_next_generation(&current, &mut full);
    compute_next_generation(&current, &mut empty);
    let expected = grid(&["__#__", "__#__", "__#__"]);
    assert_eq!(full, expected);
    assert_eq!(empty, expected);
    assert_eq!(current, grid(&["_____", "_###_", "_____"]));
}
