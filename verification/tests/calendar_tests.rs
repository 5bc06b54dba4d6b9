use calgrid::calendar::{get_weekdays, Calendar};
use calgrid::config::Config;
use calgrid::date::{day_text_of, Date};
use calgrid::position::{Direction, Position};
use calgrid::terminal::Color;
use calgrid::tui::{ButtonType, Widget};

fn march_2021(cfg: &Config) -> Calendar {
    // March 1, 2021 is a Monday.
    Calendar::new(Date::new(2021, 3, 1), Position::new(1, 1), cfg)
}

#[test]
fn setup_has_header_plus_days() {
    let cfg = Config::get_default_config();
    let c = march_2021(&cfg);
    assert_eq!(c.buttons.len(), 32);
    assert!(matches!(c.buttons[0].button_data, ButtonType::TextButton(_)));
    for day in 1..=31u8 {
        match &c.buttons[day as usize].button_data {
            ButtonType::CalanderDate(d) => {
                assert_eq!(*d, Date::new(2021, 3, day));
            },
            ButtonType::TextButton(_) => panic!("day {} is not a day button", day),
        }
    }
}

#[test]
fn setup_day_columns_follow_weekday() {
    let cfg = Config::get_default_config();
    let c = march_2021(&cfg);
    let w = 1u16; // Monday, Sunday-indexed
    for i in 0..31u16 {
        let b = &c.buttons[(i + 1) as usize];
        assert_eq!(b.start_position.x, 1 + 1 + 3 * ((w + i) % 7), "day {}", i + 1);
        assert_eq!(b.start_position.y, 1 + 2 + 2 * ((w + i) / 7), "day {}", i + 1);
        assert_eq!(b.end_position.x, b.start_position.x + 1);
        assert_eq!(b.end_position.y, b.start_position.y);
    }
}

#[test]
fn header_spans_tile_and_names_month() {
    let cfg = Config::get_default_config();
    let c = march_2021(&cfg);
    let h = &c.buttons[0];
    assert_eq!(h.start_position.x, 1);
    assert_eq!(h.end_position.x, 22);
    assert_eq!(h.end_position.y, h.start_position.y);
    match &h.button_data {
        ButtonType::TextButton(t) => assert_eq!(t, "March 2021"),
        ButtonType::CalanderDate(_) => panic!("header is not a text button"),
    }
    assert_eq!(h.bg_color, cfg.text_button_bg_color);
}

#[test]
fn february_leap_tile() {
    let cfg = Config::get_default_config();
    let c = Calendar::new(Date::new(2024, 2, 1), Position::new(1, 1), &cfg);
    assert_eq!(c.buttons.len(), 30);
}

#[test]
fn select_then_unselect_restores_resting_colors() {
    let cfg = Config::get_default_config();
    let mut c = march_2021(&cfg);
    // Day buttons rest on the date background.
    assert_eq!(c.buttons[5].bg_color, cfg.date_bg_color);
    c.select_button(&cfg, 5);
    assert_eq!(c.cursor, 5);
    assert_eq!(c.buttons[5].bg_color, cfg.select_bg_date_color);
    c.unselect_button(&cfg);
    assert_eq!(c.buttons[5].bg_color, cfg.date_bg_color);

    // The header rests on its own, different color.
    c.select_button(&cfg, 0);
    assert_eq!(c.buttons[0].bg_color, cfg.select_bg_text_button_color);
    c.unselect_button(&cfg);
    assert_eq!(c.buttons[0].bg_color, cfg.text_button_bg_color);
    assert_ne!(cfg.text_button_bg_color, cfg.date_bg_color);
}

#[test]
fn selecting_elsewhere_rests_the_old_button() {
    let cfg = Config::get_default_config();
    let mut c = march_2021(&cfg);
    c.select_button(&cfg, 3);
    c.select_button(&cfg, 10);
    assert_eq!(c.buttons[3].bg_color, cfg.date_bg_color);
    assert_eq!(c.buttons[10].bg_color, cfg.select_bg_date_color);
    let selected = c
        .buttons
        .iter()
        .filter(|b| {
            b.bg_color == cfg.select_bg_date_color || b.bg_color == cfg.select_bg_text_button_color
        })
        .count();
    assert_eq!(selected, 1);
}

#[test]
fn select_past_the_list_is_a_no_op() {
    let cfg = Config::get_default_config();
    let mut c = march_2021(&cfg);
    let f = c.select_button(&cfg, 99);
    assert_eq!(f.ops.len(), 0);
    assert_eq!(c.cursor, 0);
}

#[test]
fn cursor_moves_clamp_to_the_button_list() {
    let cfg = Config::get_default_config();
    let mut c = march_2021(&cfg);
    c.move_cursor(&cfg, Direction::Up);
    assert_eq!(c.cursor, 0);
    c.move_cursor(&cfg, Direction::Left);
    assert_eq!(c.cursor, 0);
    c.move_cursor(&cfg, Direction::Down);
    assert_eq!(c.cursor, 7);
    c.move_cursor(&cfg, Direction::Right);
    assert_eq!(c.cursor, 8);
    c.move_cursor(&cfg, Direction::Up);
    assert_eq!(c.cursor, 1);
    for _ in 0..20 {
        c.move_cursor(&cfg, Direction::Down);
    }
    assert_eq!(c.cursor, 31);
    c.move_cursor(&cfg, Direction::Right);
    assert_eq!(c.cursor, 31);
}

#[test]
fn dummy_tiles_are_empty() {
    let cfg = Config::get_default_config();
    let c = Calendar::dummy(&cfg);
    assert_eq!(c.buttons.len(), 0);
    assert_eq!(c.cursor, 0);
    assert_eq!(c.bg_color, cfg.calendar_bg_color);
}

#[test]
fn weekday_strip_text() {
    assert_eq!(get_weekdays(), "SunMonTueWedThuFriSat ");
}

#[test]
fn day_cell_text_is_two_cells() {
    assert_eq!(day_text_of(1), " 1");
    assert_eq!(day_text_of(9), " 9");
    assert_eq!(day_text_of(10), "10");
    assert_eq!(day_text_of(31), "31");
}

#[test]
fn start_date_is_kept() {
    let cfg = Config::get_default_config();
    let c = march_2021(&cfg);
    assert_eq!(c.get_start_date(), Date::new(2021, 3, 1));
    assert_eq!(c.end, Position::new(22, 13));
}

#[test]
fn bg_of_day_one() {
    let cfg = Config::get_default_config();
    let c = march_2021(&cfg);
    assert_eq!(c.buttons[1].bg_color, Color::new(0));
    assert_eq!(c.buttons[1].fg_color, cfg.date_num_color);
}

#[test]
fn a_tile_can_start_mid_month() {
    let cfg = Config::get_default_config();
    let c = Calendar::new(Date::new(2021, 3, 20), Position::new(5, 3), &cfg);
    // Header plus the 12 remaining days of March.
    assert_eq!(c.buttons.len(), 13);
    match &c.buttons[1].button_data {
        ButtonType::CalanderDate(d) => assert_eq!(*d, Date::new(2021, 3, 20)),
        ButtonType::TextButton(_) => panic!("expected a day button"),
    }
}

#[test]
fn day_buttons_are_two_cells_wide_for_hits() {
    let cfg = Config::get_default_config();
    let c = march_2021(&cfg);
    let b = &c.buttons[1];
    // Both cells of the day button answer the hit test.
    assert!(b.is_hovered(b.start_position));
    assert!(b.is_hovered(Position::new(b.start_position.x + 1, b.start_position.y)));
    assert!(!b.is_hovered(Position::new(b.start_position.x + 2, b.start_position.y)));
}
