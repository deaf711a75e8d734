use tetris::{BlockKind, Cell, Checker, Field, Game, Selector, Tetrimino};

struct Repeat {
    kinds: Vec<BlockKind>,
    next: usize,
}

impl Selector for Repeat {
    fn select(&mut self) -> BlockKind {
        let kind = self.kinds[self.next % self.kinds.len()];
        self.next += 1;
        kind
    }
}

fn game_of(kinds: Vec<BlockKind>, queue_size: usize) -> Game<Repeat> {
    Game::new(10, 20, queue_size, Repeat { kinds, next: 0 })
}

fn rows_with_bottom(width: usize, visible: usize, bottom: Vec<Cell>) -> Vec<Vec<Cell>> {
    let mut rows = vec![vec![Cell::Empty; width]; 7 + visible - 1];
    rows.push(bottom);
    rows
}

#[test]
fn clearing_without_filled_rows_changes_nothing() {
    let mut rows = rows_with_bottom(4, 3, vec![Cell::Block(BlockKind::O), Cell::Empty, Cell::Empty, Cell::Empty]);
    rows[8][2] = Cell::Block(BlockKind::J);
    let mut field = Field::from_vec(rows.clone());
    assert_eq!(field.remove_filled_lines(), 0);
    assert_eq!(field.as_vec(), &rows[7..]);
    assert_eq!(field.height(), 3);
    assert_eq!(field.remove_filled_lines(), 0);
    assert_eq!(field.as_vec(), &rows[7..]);
}

#[test]
fn clearing_a_filled_bottom_row_shifts_the_rest_down() {
    let mut rows = rows_with_bottom(3, 3, vec![Cell::Block(BlockKind::O); 3]);
    rows[8][0] = Cell::Block(BlockKind::S);
    let mut field = Field::from_vec(rows);
    assert_eq!(field.remove_filled_lines(), 1);
    assert_eq!(field.height(), 3);
    assert_eq!(
        field.as_vec(),
        vec![
            vec![Cell::Empty; 3],
            vec![Cell::Empty; 3],
            vec![Cell::Block(BlockKind::S), Cell::Empty, Cell::Empty],
        ]
    );
    assert_eq!(field.get_cell((0, -7)), Cell::Empty);
}

#[test]
fn clearing_every_row_of_a_full_field() {
    let mut field = Field::from_vec(vec![vec![Cell::Block(BlockKind::Z); 4]; 8]);
    assert_eq!(field.remove_filled_lines(), 8);
    assert_eq!(field.as_vec(), vec![vec![Cell::Empty; 4]]);
}

#[test]
fn cells_out_of_the_field_are_outside() {
    let field = Field::new(10, 20);
    assert_eq!(field.get_cell((10, 0)), Cell::Outside);
    assert_eq!(field.get_cell((0, 20)), Cell::Outside);
    assert_eq!(field.get_cell((0, -8)), Cell::Outside);
    assert_eq!(field.get_cell((0, -7)), Cell::Empty);
    assert_eq!(field.get_cell((9, 19)), Cell::Empty);
}

#[test]
fn set_writes_a_block() {
    let mut field = Field::new(4, 1);
    field.set((1, 0), BlockKind::S);
    field.set((3, -7), BlockKind::L);
    assert_eq!(field.get_cell((1, 0)), Cell::Block(BlockKind::S));
    assert_eq!(field.get_cell((3, -7)), Cell::Block(BlockKind::L));
    assert_eq!(field.get_cell((0, 0)), Cell::Empty);
}

#[test]
fn rotating_four_times_comes_back() {
    let mut game = game_of(vec![BlockKind::T], 3);
    let start = game.tetrimino().clone();
    for _ in 0..4 {
        assert!(game.rotate());
    }
    assert_eq!(game.tetrimino(), &start);
}

#[test]
fn rotation_kicks_left_off_the_right_wall() {
    let mut game = game_of(vec![BlockKind::I], 3);
    let upright = Tetrimino::new(BlockKind::I).rotate(1).move_to((9, 5));
    game.set_tetrimino(upright.clone());
    assert!(game.rotate());
    assert_eq!(game.tetrimino(), &upright.rotate(1).move_left(2));
}

#[test]
fn rotation_fails_without_room() {
    let mut game = game_of(vec![BlockKind::I], 3);
    game.set_field(Field::from_vec(vec![vec![Cell::Empty; 1]; 7 + 4]));
    let upright = Tetrimino::new(BlockKind::I).rotate(1).move_to((0, 0));
    game.set_tetrimino(upright.clone());
    assert!(!game.rotate());
    assert_eq!(game.tetrimino(), &upright);
}

#[test]
fn queue_length_is_kept() {
    let mut game = game_of(vec![BlockKind::O, BlockKind::S, BlockKind::Z], 3);
    assert_eq!(game.queue().len(), 3);
    game.hold();
    assert_eq!(game.queue().len(), 3);
    game.hard_drop();
    game.save();
    assert_eq!(game.queue().len(), 3);
    game.hold();
    assert_eq!(game.queue().len(), 3);
}

#[test]
fn empty_queue_takes_the_next_kind_directly() {
    let mut game = game_of(vec![BlockKind::O, BlockKind::S], 0);
    assert_eq!(game.queue().len(), 0);
    game.hard_drop();
    game.save();
    assert_eq!(game.queue().len(), 0);
    assert_eq!(game.tetrimino().kind(), BlockKind::S);
}

#[test]
fn moving_left_from_the_spawn_column() {
    let mut game = game_of(vec![BlockKind::T], 3);
    assert_eq!(game.tetrimino().width(), 3);
    assert_eq!(game.tetrimino().height(), 2);
    let before = game.tetrimino().blocks();
    assert_eq!(before.iter().map(|b| b.0).min(), Some(3));
    assert!(game.move_left());
    let after = game.tetrimino().blocks();
    assert_eq!(after.iter().map(|b| b.0).min(), Some(2));
    assert_eq!(after.iter().map(|b| b.1).min(), before.iter().map(|b| b.1).min());
}

#[test]
fn ghost_rests_on_the_floor_and_is_reachable() {
    let game = game_of(vec![BlockKind::J], 3);
    let ghost = game.ghost();
    let check = Checker(game.field(), &ghost);
    assert!(check.touch_down());
    assert!(!check.overlap());
    assert!(check.route_from(game.tetrimino()));
    assert_eq!(ghost.blocks().iter().map(|b| b.1).max(), Some(19));
}

#[test]
fn no_route_under_a_closed_ceiling() {
    let mut rows = vec![vec![Cell::Empty; 4]; 7 + 4];
    rows[8] = vec![Cell::Block(BlockKind::O); 4];
    let field = Field::from_vec(rows);
    let top = Tetrimino::new(BlockKind::O).move_to((1, -3));
    let below = Tetrimino::new(BlockKind::O).move_to((1, 2));
    let check = Checker(&field, &below);
    assert!(!check.overlap());
    assert!(!check.route_from(&top));
    assert!(!Checker(&field, &top).route_to(&below));
    assert!(Checker(&field, &top).route_to(&top));
}

#[test]
fn route_around_blocks() {
    let mut rows = vec![vec![Cell::Empty; 5]; 7 + 4];
    rows[8] = vec![
        Cell::Block(BlockKind::O),
        Cell::Block(BlockKind::O),
        Cell::Block(BlockKind::O),
        Cell::Empty,
        Cell::Empty,
    ];
    let field = Field::from_vec(rows);
    let start = Tetrimino::new(BlockKind::O).move_to((0, -2));
    let goal = Tetrimino::new(BlockKind::O).move_to((0, 2));
    assert!(Checker(&field, &goal).route_from(&start));
    assert!(Checker(&field, &start).route_to(&goal));
}

#[test]
fn touching_the_walls() {
    let field = Field::new(10, 20);
    let left = Tetrimino::new(BlockKind::O).move_to((0, 5));
    let check = Checker(&field, &left);
    assert!(check.touch_left());
    assert!(!check.touch_right());
    assert!(!check.touch_down());
    let bottom = Tetrimino::new(BlockKind::O).move_to((8, 18));
    let check = Checker(&field, &bottom);
    assert!(check.touch_right());
    assert!(check.touch_down());
    assert!(!check.overlap());
}

#[test]
fn overlap_out_of_the_field() {
    let field = Field::new(10, 20);
    let out = Tetrimino::new(BlockKind::I).move_to((8, 0));
    assert!(Checker(&field, &out).overlap());
}

#[test]
fn tetrimino_dimensions() {
    let bar = Tetrimino::new(BlockKind::I);
    assert_eq!((bar.width(), bar.height()), (4, 1));
    assert_eq!((bar.rotate(1).width(), bar.rotate(1).height()), (1, 4));
    assert_eq!(bar.rotate(2), bar);
    assert_eq!(bar.bottom(), 1);
    let square = Tetrimino::new(BlockKind::O);
    assert_eq!((square.width(), square.height()), (2, 2));
    assert_eq!(square.rotate(3), square);
    assert_eq!(
        Tetrimino::new(BlockKind::S).blocks(),
        [(0, 0), (1, 0), (1, 1), (2, 1)]
    );
    assert_eq!(
        Tetrimino::new(BlockKind::Z).move_right(2).move_down(3).blocks(),
        [(3, 3), (4, 3), (2, 4), (3, 4)]
    );
}

#[test]
fn all_kinds_in_declaration_order() {
    assert_eq!(
        BlockKind::all_as_array(),
        [
            BlockKind::O,
            BlockKind::I,
            BlockKind::Z,
            BlockKind::S,
            BlockKind::L,
            BlockKind::T,
            BlockKind::J,
        ]
    );
}

#[test]
fn ending_freezes_the_game() {
    let mut game = game_of(vec![BlockKind::L, BlockKind::T], 2);
    assert_eq!(game.save(), 0);
    assert!(game.is_end());
    let queue: Vec<Tetrimino> = game.queue().iter().cloned().collect();
    assert_eq!(game.save(), 0);
    assert!(!game.move_right());
    assert!(!game.rotate());
    assert_eq!(game.queue().iter().cloned().collect::<Vec<_>>(), queue);
    assert!(game.is_end());
}

#[test]
fn spawning_centers_odd_widths_toward_the_left() {
    let game: Game<Repeat> = Game::new(5, 4, 1, Repeat { kinds: vec![BlockKind::T], next: 0 });
    assert_eq!(game.tetrimino(), &Tetrimino::new(BlockKind::T).move_to((1, -2)));
    let game: Game<Repeat> = Game::new(4, 4, 1, Repeat { kinds: vec![BlockKind::I], next: 0 });
    assert_eq!(game.tetrimino(), &Tetrimino::new(BlockKind::I).move_to((0, -1)));
}
