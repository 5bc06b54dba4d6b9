use calgrid::position::Position;
use calgrid::terminal::{Color, Formatter};

#[test]
fn background_color_escape() {
    let f = Formatter::new().bg_color(&Color::new(5));
    assert_eq!(f.render(), "\u{1b}[48;5;5m");
}

#[test]
fn foreground_color_escape() {
    let f = Formatter::new().fg_color(&Color::new(7));
    assert_eq!(f.render(), "\u{1b}[38;5;7m");
}

#[test]
fn cursor_move_escape() {
    let f = Formatter::new().go_to(Position::new(3, 2));
    assert_eq!(f.render(), "\u{1b}[2;3H");
}

#[test]
fn text_renders_verbatim() {
    let f = Formatter::new().text(String::from("hello"));
    assert_eq!(f.render(), "hello");
}

#[test]
fn filled_box_is_rows_of_blanks() {
    let f = Formatter::new().create_box(&Position::new(1, 1), &Position::new(2, 2), &Color::new(3));
    assert_eq!(f.render(), "\u{1b}[48;5;3m\u{1b}[1;1H  \u{1b}[2;1H  ");
}

#[test]
fn empty_box_renders_nothing() {
    let f = Formatter::new().create_box(&Position::new(5, 5), &Position::new(4, 5), &Color::new(3));
    assert_eq!(f.render(), "");
}

#[test]
fn buffers_compose_by_concatenation() {
    let a = Formatter::new().text(String::from("ab"));
    let b = Formatter::new().bg_color(&Color::new(1)).text(String::from("cd"));
    let joined = a.concat(&b);
    assert_eq!(joined.render(), "ab\u{1b}[48;5;1mcd");

    let mut c = Formatter::new().text(String::from("x"));
    c.append(&Formatter::new().text(String::from("y")));
    assert_eq!(c.render(), "xy");
}

#[test]
fn escapes_match_termion() {
    assert_eq!(
        Formatter::new().bg_color(&Color::new(9)).render(),
        termion::color::AnsiValue(9).bg_string()
    );
    assert_eq!(
        Formatter::new().fg_color(&Color::new(12)).render(),
        termion::color::AnsiValue(12).fg_string()
    );
    assert_eq!(
        Formatter::new().go_to(Position::new(10, 20)).render(),
        String::from(termion::cursor::Goto(10, 20))
    );
}
