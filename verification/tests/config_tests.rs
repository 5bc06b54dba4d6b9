use calgrid::config::{parse_boolean, parse_color, parse_key, Config, Key};
use calgrid::terminal::Color;

#[test]
fn booleans_standard_and_informal() {
    assert_eq!(parse_boolean("true"), Some(true));
    assert_eq!(parse_boolean("false"), Some(false));
    assert_eq!(parse_boolean("yes"), Some(true));
    assert_eq!(parse_boolean("y"), Some(true));
    assert_eq!(parse_boolean(":3"), Some(true));
    assert_eq!(parse_boolean(":)"), Some(true));
    assert_eq!(parse_boolean("notfalse"), Some(true));
    assert_eq!(parse_boolean("no"), Some(false));
    assert_eq!(parse_boolean("deny"), Some(false));
    assert_eq!(parse_boolean(":("), Some(false));
    assert_eq!(parse_boolean("!true"), Some(false));
    assert_eq!(parse_boolean("maybe"), None);
    assert_eq!(parse_boolean(""), None);
}

#[test]
fn colors_by_name_and_index() {
    assert_eq!(parse_color("black"), Some(Color::new(0)));
    assert_eq!(parse_color("red"), Some(Color::new(1)));
    assert_eq!(parse_color("7"), Some(Color::new(7)));
    assert_eq!(parse_color("15"), Some(Color::new(15)));
    assert_eq!(parse_color("lightmagenta"), Some(Color::new(13)));
    assert_eq!(parse_color("high-intensityred"), Some(Color::new(1)));
    assert_eq!(parse_color("high-intensity9"), Some(Color::new(9)));
    assert_eq!(parse_color("crimson"), None);
    assert_eq!(parse_color("16"), None);
    assert_eq!(parse_color(""), None);
}

#[test]
fn keys_single_char_and_bracketed() {
    assert_eq!(parse_key("q"), Some(Key::Char('q')));
    assert_eq!(parse_key("("), Some(Key::Char('(')));
    assert_eq!(parse_key("alt(x)"), Some(Key::Alt('x')));
    assert_eq!(parse_key("ctrl(c)"), Some(Key::Ctrl('c')));
    assert_eq!(parse_key("control(c)"), Some(Key::Ctrl('c')));
    assert_eq!(parse_key("f(1)"), Some(Key::F(1)));
    assert_eq!(parse_key("function(12)"), Some(Key::F(12)));
    assert_eq!(parse_key("f(13)"), None);
    assert_eq!(parse_key("meta(x)"), None);
    assert_eq!(parse_key("alt(xy)"), None);
}

#[test]
fn keys_named() {
    assert_eq!(parse_key("backspace"), Some(Key::Backspace));
    assert_eq!(parse_key("back space"), Some(Key::Backspace));
    assert_eq!(parse_key("left"), Some(Key::Left));
    assert_eq!(parse_key("right"), Some(Key::Right));
    assert_eq!(parse_key("up"), Some(Key::Up));
    assert_eq!(parse_key("down"), Some(Key::Down));
    assert_eq!(parse_key("home"), Some(Key::Home));
    assert_eq!(parse_key("end"), Some(Key::End));
    assert_eq!(parse_key("page up"), Some(Key::PageUp));
    assert_eq!(parse_key("pagedown"), Some(Key::PageDown));
    assert_eq!(parse_key("backtab"), Some(Key::BackTab));
    assert_eq!(parse_key("delete"), Some(Key::Delete));
    assert_eq!(parse_key("insert"), Some(Key::Insert));
    assert_eq!(parse_key("escape"), Some(Key::Esc));
    assert_eq!(parse_key("null"), Some(Key::Null));
    assert_eq!(parse_key("space bar"), None);
}

#[test]
fn defaults_are_the_documented_table() {
    let c = Config::get_default_config();
    assert_eq!(c.bg_color, Color::new(12));
    assert_eq!(c.calendar_bg_color, Color::new(7));
    assert_eq!(c.date_bg_color, Color::new(0));
    assert_eq!(c.select_bg_date_color, Color::new(5));
    assert_eq!(c.quit, Key::Char('q'));
    assert_eq!(c.up, Key::Char('w'));
    assert_eq!(c.calendar_down, Key::Char('S'));
    assert_eq!(c.go_back_time, Key::Left);
    assert_eq!(c.go_forward_calendar, Key::Up);
    assert!(c.change_calendar_reset_cursor);
    assert!(c.unselect_change_calendar_cursor);
    assert_eq!(c.max_threads, 4);
}

#[test]
fn lines_apply_case_insensitively() {
    let mut c = Config::get_default_config();
    c.apply_line("BG_COLOR = RED");
    assert_eq!(c.bg_color, Color::new(1));
    c.apply_line("  QUIT =  Alt(Z)  ");
    assert_eq!(c.quit, Key::Alt('z'));
}

#[test]
fn comments_and_malformed_lines_change_nothing() {
    let mut c = Config::get_default_config();
    c.apply_line("# bg_color = red");
    c.apply_line("bg_color red");
    c.apply_line("no_such_key = red");
    c.apply_line("bg_color = chartreuse");
    c.apply_line("");
    assert_eq!(c, Config::get_default_config());
}

#[test]
fn whole_config_from_lines() {
    let lines = vec![
        String::from("# colors"),
        String::from("date_bg_color = white"),
        String::from("select_bg_date_color = 3"),
        String::from("up = k"),
        String::from("change_calendar_reset_cursor = no"),
        String::from("max_threads = 7"),
        String::from("max_threads = 0"),
        String::from("broken line"),
    ];
    let c = Config::get_config(&lines);
    assert_eq!(c.date_bg_color, Color::new(7));
    assert_eq!(c.select_bg_date_color, Color::new(3));
    assert_eq!(c.up, Key::Char('k'));
    assert!(!c.change_calendar_reset_cursor);
    assert!(c.unselect_change_calendar_cursor);
    // Zero workers is rejected, so the last good value stays.
    assert_eq!(c.max_threads, 7);
}

#[test]
fn value_spaces_and_extra_equals_are_stripped() {
    let mut c = Config::get_default_config();
    c.apply_line("quit = = x =");
    assert_eq!(c.quit, Key::Char('x'));
}

#[test]
fn function_keys_accept_a_plus_sign() {
    assert_eq!(parse_key("f(+3)"), Some(Key::F(3)));
    assert_eq!(parse_key("f()"), None);
    assert_eq!(parse_key("f(003)"), Some(Key::F(3)));
    assert_eq!(parse_key("f(999999999999999999999999)"), None);
}

#[test]
fn tab_padding_around_values_is_trimmed() {
    let mut c = Config::get_default_config();
    c.apply_line("quit =\t x \t");
    assert_eq!(c.quit, Key::Char('x'));
}
