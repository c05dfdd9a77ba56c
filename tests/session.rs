use game_of_life::grid::Grid;
use game_of_life::session::{Command, Session, DEFAULT_SPEED};

fn alive_cells(g: &Grid) -> Vec<(usize, usize)> {
    let mut v = Vec::new();
    for y in 0..g.height() {
        for x in 0..g.width() {
            if g.get_cell(x, y) {
                v.push((x, y));
            }
        }
    }
    v
}

fn blinker_session() -> Session {
    let mut s = Session::new(Grid::new(5, 5).unwrap());
    s.apply(Command::Paint { x: 1, y: 2, alive: true });
    s.apply(Command::Paint { x: 2, y: 2, alive: true });
    s.apply(Command::Paint { x: 3, y: 2, alive: true });
    s
}

#[test]
fn session_starts_paused() {
    let s = Session::new(Grid::new(4, 4).unwrap());
    assert!(s.paused());
    assert_eq!(s.speed(), DEFAULT_SPEED);
    assert_eq!(s.speed(), 6);
    assert_eq!(s.frame_count(), 0);
}

#[test]
fn paused_ticks_do_nothing() {
    let mut s = blinker_session();
    for _ in 0..20 {
        assert!(!s.tick());
    }
    assert_eq!(alive_cells(s.grid()), vec![(1, 2), (2, 2), (3, 2)]);
}

#[test]
fn running_steps_every_speed_frames() {
    let mut s = blinker_session();
    s.apply(Command::TogglePause);
    assert!(!s.paused());
    for _ in 0..5 {
        assert!(!s.tick());
    }
    assert_eq!(s.frame_count(), 5);
    assert!(s.tick());
    assert_eq!(s.frame_count(), 0);
    assert_eq!(alive_cells(s.grid()), vec![(2, 1), (2, 2), (2, 3)]);
}

#[test]
fn speed_has_a_floor_of_one() {
    let mut s = Session::new(Grid::new(3, 3).unwrap());
    for _ in 0..10 {
        s.apply(Command::SpeedUp);
    }
    assert_eq!(s.speed(), 1);
    s.apply(Command::SlowDown);
    s.apply(Command::SlowDown);
    assert_eq!(s.speed(), 3);
    s.apply(Command::TogglePause);
    s.apply(Command::SpeedUp);
    s.apply(Command::SpeedUp);
    assert!(s.tick());
    assert!(s.tick());
}

#[test]
fn randomize_pauses() {
    let mut s = Session::new(Grid::new(3, 2).unwrap());
    s.apply(Command::TogglePause);
    s.apply(Command::Randomize(0));
    assert!(s.paused());
    assert_eq!(alive_cells(s.grid()), vec![(1, 0), (0, 1)]);
}

#[test]
fn step_and_clear_commands() {
    let mut s = blinker_session();
    s.apply(Command::Step);
    assert!(s.paused());
    assert_eq!(alive_cells(s.grid()), vec![(2, 1), (2, 2), (2, 3)]);
    s.apply(Command::Clear);
    assert!(alive_cells(s.grid()).is_empty());
}

#[test]
fn paint_off_grid_is_ignored() {
    let mut s = Session::new(Grid::new(3, 3).unwrap());
    s.apply(Command::Paint { x: 3, y: 0, alive: true });
    s.apply(Command::Paint { x: 0, y: 3, alive: true });
    assert!(alive_cells(s.grid()).is_empty());
    s.apply(Command::Paint { x: 2, y: 2, alive: true });
    s.apply(Command::Paint { x: 2, y: 2, alive: false });
    assert!(alive_cells(s.grid()).is_empty());
}

#[test]
fn load_restores_a_saved_grid() {
    let s = blinker_session();
    let saved = s.grid().serialize();
    let mut t = Session::new(Grid::new(5, 5).unwrap());
    t.load(&saved);
    assert_eq!(alive_cells(t.grid()), vec![(1, 2), (2, 2), (3, 2)]);
}
