use calgrid::config::{Config, Key};
use calgrid::date::Date;
use calgrid::position::{Direction, Position};
use calgrid::tui::{get_columns, get_rows, worker_count, BuildCursor, KeyOutcome, Tui};

fn grid_3x2(cfg: Config) -> Tui {
    // 80 cells fit exactly 3 tile columns (3*24 <= 80 < 4*24) and 30 rows
    // exactly 2 tile rows (2*14 <= 30 < 3*14).
    let mut t = Tui::new(Position::new(80, 30), cfg);
    t.create_calendars(Date::new(2021, 1, 1));
    t
}

#[test]
fn planner_counts_tiles_that_fit() {
    assert_eq!(get_columns(&Position::new(80, 30)), 3);
    assert_eq!(get_rows(&Position::new(80, 30)), 2);
    assert_eq!(get_columns(&Position::new(72, 14)), 3);
    assert_eq!(get_columns(&Position::new(71, 14)), 2);
    assert_eq!(get_rows(&Position::new(24, 13)), 0);
    assert_eq!(get_columns(&Position::new(23, 14)), 0);
    assert_eq!(get_columns(&Position::new(24, 14)), 1);
}

#[test]
fn worker_pool_is_bounded_by_config_and_grid() {
    let mut cfg = Config::get_default_config();
    cfg.max_threads = 4;
    assert_eq!(worker_count(&cfg, 2, 3), 3);
    assert_eq!(worker_count(&cfg, 6, 3), 4);
    assert_eq!(worker_count(&cfg, 2, 9), 4);
    cfg.max_threads = 100;
    assert_eq!(worker_count(&cfg, 2, 3), 3);
    assert_eq!(worker_count(&cfg, 5, 5), 5);
}

#[test]
fn three_by_two_grid_is_six_consecutive_months() {
    let t = grid_3x2(Config::get_default_config());
    assert_eq!(t.calendars.len(), 6);
    for (i, month) in (1u8..=6).enumerate() {
        assert_eq!(t.calendars[i].get_start_date(), Date::new(2021, month, 1));
    }
    let expected = [(1u16, 1u16), (25, 1), (49, 1), (1, 15), (25, 15), (49, 15)];
    for (i, &(x, y)) in expected.iter().enumerate() {
        assert_eq!(t.calendars[i].start, Position::new(x, y), "slot {}", i);
    }
}

#[test]
fn build_is_independent_of_the_worker_bound() {
    let mut few = Config::get_default_config();
    few.max_threads = 1;
    let mut many = Config::get_default_config();
    many.max_threads = 6;
    let a = grid_3x2(few);
    let b = grid_3x2(many);
    assert_eq!(a.calendars.len(), b.calendars.len());
    for i in 0..a.calendars.len() {
        assert_eq!(a.calendars[i].get_start_date(), b.calendars[i].get_start_date());
        assert_eq!(a.calendars[i].start, b.calendars[i].start);
        assert_eq!(a.calendars[i].buttons.len(), b.calendars[i].buttons.len());
    }
}

#[test]
fn tickets_come_in_slot_order() {
    let mut cursor = BuildCursor::new(Date::new(2021, 1, 1));
    let mut months: Vec<u8> = Vec::new();
    let mut xs: Vec<u16> = Vec::new();
    let mut ys: Vec<u16> = Vec::new();
    for k in 0..6usize {
        let (d, p, i) = cursor.claim(3);
        assert_eq!(i, k);
        months.push(d.month);
        xs.push(p.x);
        ys.push(p.y);
    }
    assert_eq!(months, vec![1, 2, 3, 4, 5, 6]);
    assert_eq!(xs, vec![1, 25, 49, 1, 25, 49]);
    assert_eq!(ys, vec![1, 1, 1, 15, 15, 15]);
}

#[test]
fn clicking_another_tile_moves_the_selection() {
    // Tile 2 holds March 2021; its day-15 button sits at (53, 7).
    let cfg = Config::get_default_config();
    assert!(cfg.unselect_change_calendar_cursor);
    let mut t = grid_3x2(cfg);
    let mut index: usize = 0;
    t.calendars[0].select_button(&cfg, 3);
    assert_eq!(t.calendars[0].buttons[3].bg_color, cfg.select_bg_date_color);

    t.handle_mouse(53, 7, &mut index);
    assert_eq!(index, 2);
    assert_eq!(t.calendars[2].cursor, 15);
    assert_eq!(t.calendars[2].buttons[15].bg_color, cfg.select_bg_date_color);
    // The previously active tile's button is repainted to rest.
    assert_eq!(t.calendars[0].buttons[3].bg_color, cfg.date_bg_color);
}

#[test]
fn clicking_inside_the_active_tile_just_moves_the_cursor() {
    let cfg = Config::get_default_config();
    let mut t = grid_3x2(cfg);
    let mut index: usize = 0;
    // January 2021 starts on a Friday: day 1 sits at (1 + 1 + 3*5, 3).
    t.handle_mouse(17, 3, &mut index);
    assert_eq!(index, 0);
    assert_eq!(t.calendars[0].cursor, 1);
}

#[test]
fn clicking_the_gutter_changes_nothing() {
    let cfg = Config::get_default_config();
    let mut t = grid_3x2(cfg);
    let mut index: usize = 0;
    let f = t.handle_mouse(24, 1, &mut index);
    assert_eq!(index, 0);
    assert_eq!(f.ops.len(), 0);
}

#[test]
fn tile_changes_clamp_at_the_grid_edge() {
    let cfg = Config::get_default_config();
    let mut t = grid_3x2(cfg);
    let mut index: usize = 0;
    let f = t.move_calendar(&mut index, Direction::Left);
    assert_eq!(index, 0);
    assert_eq!(f.ops.len(), 0);
    let f = t.move_calendar(&mut index, Direction::Up);
    assert_eq!(index, 0);
    assert_eq!(f.ops.len(), 0);
    t.move_calendar(&mut index, Direction::Right);
    assert_eq!(index, 1);
    t.move_calendar(&mut index, Direction::Down);
    assert_eq!(index, 4);
    let f = t.move_calendar(&mut index, Direction::Down);
    assert_eq!(index, 4);
    assert_eq!(f.ops.len(), 0);
}

#[test]
fn changing_tiles_resets_and_rests_the_outgoing_tile() {
    let cfg = Config::get_default_config();
    let mut t = grid_3x2(cfg);
    let mut index: usize = 0;
    t.calendars[0].select_button(&cfg, 5);
    t.move_calendar(&mut index, Direction::Right);
    assert_eq!(index, 1);
    // Outgoing tile: rested and, with the reset flag on, cursor zeroed.
    assert_eq!(t.calendars[0].buttons[5].bg_color, cfg.date_bg_color);
    assert_eq!(t.calendars[0].cursor, 0);
    // Destination tile: its stored cursor (the header) is highlighted.
    assert_eq!(t.calendars[1].cursor, 0);
    assert_eq!(t.calendars[1].buttons[0].bg_color, cfg.select_bg_text_button_color);
}

#[test]
fn time_travel_by_tile_and_by_screen() {
    let t = grid_3x2(Config::get_default_config());
    assert_eq!(t.time_travel(Direction::Up), Some(Date::new(2021, 2, 1)));
    assert_eq!(t.time_travel(Direction::Down), Some(Date::new(2020, 12, 1)));
    assert_eq!(t.time_travel(Direction::Right), Some(Date::new(2021, 7, 1)));
    assert_eq!(t.time_travel(Direction::Left), Some(Date::new(2020, 7, 1)));
}

#[test]
fn time_travel_refuses_past_the_range_ends() {
    // Stepping out of the supported range is fatal for the operation, not
    // a silent clamp: the travel refuses.
    let mut t = Tui::new(Position::new(80, 30), Config::get_default_config());
    t.create_calendars(Date::new(1, 1, 1));
    assert_eq!(t.time_travel(Direction::Down), None);
    assert_eq!(t.time_travel(Direction::Left), None);
    assert_eq!(t.time_travel(Direction::Up), Some(Date::new(1, 2, 1)));

    let mut t2 = Tui::new(Position::new(24, 14), Config::get_default_config());
    t2.create_calendars(Date::new(9999, 11, 1));
    assert_eq!(t2.time_travel(Direction::Up), Some(Date::new(9999, 12, 1)));
    assert_eq!(t2.time_travel(Direction::Right), Some(Date::new(9999, 12, 1)));
    assert_eq!(t2.time_travel(Direction::Left), Some(Date::new(9999, 10, 1)));
}

#[test]
fn travel_keys_report_range_exhaustion() {
    let cfg = Config::get_default_config();
    let mut t = Tui::new(Position::new(80, 30), cfg);
    t.create_calendars(Date::new(1, 1, 1));
    let mut index: usize = 0;
    // The default binding for one month back is the down-arrow key.
    assert!(matches!(t.handle_key(Key::Down, &mut index), KeyOutcome::RangeExhausted));
    assert_eq!(index, 0);
}

#[test]
fn an_empty_grid_travels_to_the_current_month() {
    let mut t = Tui::new(Position::new(23, 13), Config::get_default_config());
    t.create_calendars(Date::new(9999, 12, 1));
    assert_eq!(t.calendars.len(), 0);
    let r = t.time_travel(Direction::Up).unwrap();
    assert_eq!(r.day, 1);
}

#[test]
fn keys_route_to_their_actions() {
    let cfg = Config::get_default_config();
    let mut t = grid_3x2(cfg);
    let mut index: usize = 0;
    assert!(matches!(t.handle_key(Key::Char('d'), &mut index), KeyOutcome::Draw(_)));
    assert_eq!(t.calendars[0].cursor, 1);
    assert!(matches!(t.handle_key(Key::Char('D'), &mut index), KeyOutcome::Draw(_)));
    assert_eq!(index, 1);
    match t.handle_key(Key::Up, &mut index) {
        KeyOutcome::Travel(d) => assert_eq!(d, Date::new(2021, 2, 1)),
        _ => panic!("expected a travel request"),
    }
    assert!(matches!(t.handle_key(Key::Char('#'), &mut index), KeyOutcome::Idle));
    assert!(!t.quit);
    assert!(matches!(t.handle_key(Key::Char('q'), &mut index), KeyOutcome::Quit));
    assert!(t.quit);
}

#[test]
fn movement_keys_on_an_empty_grid_do_nothing() {
    let cfg = Config::get_default_config();
    let mut t = Tui::new(Position::new(10, 10), cfg);
    t.create_calendars(Date::new(2021, 1, 1));
    assert_eq!(t.calendars.len(), 0);
    let mut index: usize = 0;
    assert!(matches!(t.handle_key(Key::Char('w'), &mut index), KeyOutcome::Idle));
    assert_eq!(index, 0);
}

#[test]
fn reset_rebuilds_for_the_new_anchor() {
    let cfg = Config::get_default_config();
    let mut t = grid_3x2(cfg);
    let f = t.reset(Date::new(2022, 4, 1), Position::new(80, 30), cfg);
    assert!(f.is_some());
    assert_eq!(t.calendars.len(), 6);
    assert_eq!(t.calendars[0].get_start_date(), Date::new(2022, 4, 1));
    assert_eq!(t.calendars[5].get_start_date(), Date::new(2022, 9, 1));
}

#[test]
fn reset_refuses_a_grid_past_the_last_month() {
    let cfg = Config::get_default_config();
    let mut t = grid_3x2(cfg);
    let f = t.reset(Date::new(9999, 11, 1), Position::new(80, 30), cfg);
    assert!(f.is_none());
    assert_eq!(t.calendars[0].get_start_date(), Date::new(2021, 1, 1));
}

#[test]
fn frame_draw_starts_with_the_background() {
    let t = grid_3x2(Config::get_default_config());
    let frame = t.draw_calendars();
    let text = frame.render();
    let bg = format!("\u{1b}[48;5;{}m", t.config.bg_color.code);
    assert!(text.starts_with(&bg));
    assert!(text.contains("January 2021"));
    assert!(text.contains("June 2021"));
    assert!(text.contains("SunMonTueWedThuFriSat "));
}

#[test]
fn a_single_tile_grid_travels_back_into_its_own_month() {
    // 24x14 cells fit exactly one tile.
    let mut t = Tui::new(Position::new(24, 14), Config::get_default_config());
    t.create_calendars(Date::new(2021, 6, 1));
    assert_eq!(t.calendars.len(), 1);
    assert_eq!(t.time_travel(Direction::Up), Some(Date::new(2021, 7, 1)));
    assert_eq!(t.time_travel(Direction::Right), Some(Date::new(2021, 7, 1)));
    // Five days past June 1 mirrored around June 1 lands in late May.
    assert_eq!(t.time_travel(Direction::Left), Some(Date::new(2021, 5, 1)));
}

#[test]
fn without_the_unselect_flags_the_old_paint_stays() {
    let mut cfg = Config::get_default_config();
    cfg.unselect_change_calendar_cursor = false;
    cfg.change_calendar_reset_cursor = false;
    let mut t = grid_3x2(cfg);
    let mut index: usize = 0;
    t.calendars[0].select_button(&cfg, 5);
    t.move_calendar(&mut index, Direction::Right);
    assert_eq!(index, 1);
    // The outgoing tile keeps both its paint and its stored cursor.
    assert_eq!(t.calendars[0].buttons[5].bg_color, cfg.select_bg_date_color);
    assert_eq!(t.calendars[0].cursor, 5);
}
