use vstd::prelude::*;

use vstd::string::StrSliceExecFns;

use crate::terminal::Color;
use crate::text::{
    find_char, find_char_at, lower_seq, lowercase, parse_uint, parse_uint_spec, remove_char,
    remove_char_str, str_eq, trim_spec, trim_str,
};

verus! {

/// A keyboard key, as the configuration names them.
#[derive(Clone, Copy, PartialEq, Eq, Structural, Debug)]
pub enum Key {
    Backspace,
    Left,
    Right,
    Up,
    Down,
    Home,
    End,
    PageUp,
    PageDown,
    BackTab,
    Delete,
    Insert,
    Esc,
    Null,
    Char(char),
    Alt(char),
    Ctrl(char),
    F(u8),
}

/// The color table, key bindings and behaviour switches. Unrecognized or
/// malformed configuration lines leave the defaults in place.
#[derive(Clone, Copy, PartialEq, Eq, Structural, Debug)]
pub struct Config {
    pub bg_color: Color,
    pub calendar_bg_color: Color,
    pub date_bg_color: Color,
    pub text_button_bg_color: Color,
    pub date_num_color: Color,
    pub month_text_color: Color,
    pub weekday_bg_color: Color,
    pub select_bg_date_color: Color,
    pub select_bg_text_button_color: Color,
    pub quit: Key,
    pub up: Key,
    pub left: Key,
    pub down: Key,
    pub right: Key,
    pub calendar_up: Key,
    pub calendar_left: Key,
    pub calendar_right: Key,
    pub calendar_down: Key,
    pub go_back_time: Key,
    pub go_forward_time: Key,
    pub go_back_calendar: Key,
    pub go_forward_calendar: Key,
    pub change_calendar_reset_cursor: bool,
    pub unselect_change_calendar_cursor: bool,
    pub max_threads: usize,
}

pub open spec fn default_config() -> Config {
    Config {
        bg_color: Color { code: 12 },
        calendar_bg_color: Color { code: 7 },
        date_bg_color: Color { code: 0 },
        text_button_bg_color: Color { code: 6 },
        date_num_color: Color { code: 7 },
        month_text_color: Color { code: 7 },
        weekday_bg_color: Color { code: 9 },
        select_bg_date_color: Color { code: 5 },
        select_bg_text_button_color: Color { code: 13 },
        quit: Key::Char('q'),
        up: Key::Char('w'),
        left: Key::Char('a'),
        down: Key::Char('s'),
        right: Key::Char('d'),
        calendar_up: Key::Char('W'),
        calendar_left: Key::Char('A'),
        calendar_down: Key::Char('S'),
        calendar_right: Key::Char('D'),
        go_back_time: Key::Left,
        go_forward_time: Key::Right,
        go_back_calendar: Key::Down,
        go_forward_calendar: Key::Up,
        change_calendar_reset_cursor: true,
        unselect_change_calendar_cursor: true,
        max_threads: 4,
    }
}

/// How a boolean value reads: the standard true/false words, or one of the
/// informal yes/no spellings.
pub open spec fn parse_boolean_spec(s: Seq<char>) -> Option<bool> {
    if s == "true"@ {
        Some(true)
    } else if s == "false"@ {
        Some(false)
    } else if s == "no"@ || s == "n"@ || s == "f"@ || s == "!true"@ || s == "nottrue"@ || s
        == "deny"@ || s == "negative"@ || s == "out"@ || s == ":("@ || s == ":#"@ {
        Some(false)
    } else if s == "yes"@ || s == "y"@ || s == "t"@ || s == "!false"@ || s == "notfalse"@ || s
        == "accept"@ || s == "positive"@ || s == "in"@ || s == ":)"@ || s == ":3"@ {
        Some(true)
    } else {
        None
    }
}

pub open spec fn color_code_of(s: Seq<char>) -> Option<u8> {
    if s == "black"@ || s == "0"@ {
        Some(0u8)
    } else if s == "red"@ || s == "1"@ {
        Some(1u8)
    } else if s == "green"@ || s == "2"@ {
        Some(2u8)
    } else if s == "yellow"@ || s == "3"@ {
        Some(3u8)
    } else if s == "blue"@ || s == "4"@ {
        Some(4u8)
    } else if s == "magenta"@ || s == "5"@ {
        Some(5u8)
    } else if s == "cyan"@ || s == "6"@ {
        Some(6u8)
    } else if s == "white"@ || s == "7"@ {
        Some(7u8)
    } else if s == "lightblack"@ || s == "8"@ {
        Some(8u8)
    } else if s == "lightred"@ || s == "9"@ {
        Some(9u8)
    } else if s == "lightgreen"@ || s == "10"@ {
        Some(10u8)
    } else if s == "lightyellow"@ || s == "11"@ {
        Some(11u8)
    } else if s == "lightblue"@ || s == "12"@ {
        Some(12u8)
    } else if s == "lightmagenta"@ || s == "13"@ {
        Some(13u8)
    } else if s == "lightcyan"@ || s == "14"@ {
        Some(14u8)
    } else if s == "lightwhite"@ || s == "15"@ {
        Some(15u8)
    } else {
        None
    }
}

/// How a color value reads: a name or a palette index, with an optional
/// high-intensity prefix kept for older configurations.
pub open spec fn parse_color_spec(s: Seq<char>) -> Option<Color> {
    let t = if s.len() >= 14 && s.take(14) == "high-intensity"@ {
        s.skip(14)
    } else {
        s
    };
    match color_code_of(t) {
        Some(code) => Some(Color { code }),
        None => None,
    }
}

pub open spec fn named_key_of(s: Seq<char>) -> Option<Key> {
    if s == "backspace"@ || s == "back space"@ {
        Some(Key::Backspace)
    } else if s == "left"@ {
        Some(Key::Left)
    } else if s == "right"@ {
        Some(Key::Right)
    } else if s == "up"@ {
        Some(Key::Up)
    } else if s == "down"@ {
        Some(Key::Down)
    } else if s == "home"@ {
        Some(Key::Home)
    } else if s == "end"@ {
        Some(Key::End)
    } else if s == "pageup"@ || s == "page up"@ {
        Some(Key::PageUp)
    } else if s == "pagedown"@ || s == "page down"@ {
        Some(Key::PageDown)
    } else if s == "backtab"@ || s == "back tab"@ {
        Some(Key::BackTab)
    } else if s == "delete"@ {
        Some(Key::Delete)
    } else if s == "insert"@ {
        Some(Key::Insert)
    } else if s == "esc"@ || s == "escape"@ {
        Some(Key::Esc)
    } else if s == "null"@ {
        Some(Key::Null)
    } else {
        None
    }
}

/// How a key value reads: a single character, a bracketed alt/ctrl/function
/// form, or a named special key.
pub open spec fn parse_key_spec(s: Seq<char>) -> Option<Key> {
    if s.len() == 1 {
        Some(Key::Char(s[0]))
    } else if find_char(s, '(') >= 0 && find_char(s, ')') >= 0 {
        let i = find_char(s, '(');
        let name = s.take(i);
        let value = remove_char(remove_char(s.skip(i), '('), ')');
        if name == "alt"@ {
            if value.len() == 1 {
                Some(Key::Alt(value[0]))
            } else {
                None
            }
        } else if name == "ctrl"@ || name == "control"@ {
            if value.len() == 1 {
                Some(Key::Ctrl(value[0]))
            } else {
                None
            }
        } else if name == "f"@ || name == "function"@ {
            match parse_uint_spec(value, 255) {
                Some(v) => if v <= 12 {
                    Some(Key::F(v as u8))
                } else {
                    None
                },
                None => None,
            }
        } else {
            None
        }
    } else {
        named_key_of(s)
    }
}

pub open spec fn set_boolean(c: Config, name: Seq<char>, v: bool) -> Option<Config> {
    if name == "change_calendar_reset_cursor"@ {
        Some(Config { change_calendar_reset_cursor: v, ..c })
    } else if name == "unselect_change_calendar_cursor"@ {
        Some(Config { unselect_change_calendar_cursor: v, ..c })
    } else {
        None
    }
}

pub open spec fn set_color(c: Config, name: Seq<char>, v: Color) -> Option<Config> {
    if name == "bg_color"@ {
        Some(Config { bg_color: v, ..c })
    } else if name == "calendar_bg_color"@ {
        Some(Config { calendar_bg_color: v, ..c })
    } else if name == "date_bg_color"@ {
        Some(Config { date_bg_color: v, ..c })
    } else if name == "text_button_bg_color"@ {
        Some(Config { text_button_bg_color: v, ..c })
    } else if name == "date_num_color"@ {
        Some(Config { date_num_color: v, ..c })
    } else if name == "month_text_color"@ {
        Some(Config { month_text_color: v, ..c })
    } else if name == "weekday_bg_color"@ {
        Some(Config { weekday_bg_color: v, ..c })
    } else if name == "select_bg_date_color"@ {
        Some(Config { select_bg_date_color: v, ..c })
    } else if name == "select_bg_text_button_color"@ {
        Some(Config { select_bg_text_button_color: v, ..c })
    } else {
        None
    }
}

pub open spec fn set_key(c: Config, name: Seq<char>, v: Key) -> Option<Config> {
    if name == "quit"@ {
        Some(Config { quit: v, ..c })
    } else if name == "up"@ {
        Some(Config { up: v, ..c })
    } else if name == "left"@ {
        Some(Config { left: v, ..c })
    } else if name == "down"@ {
        Some(Config { down: v, ..c })
    } else if name == "right"@ {
        Some(Config { right: v, ..c })
    } else if name == "calendar_up"@ {
        Some(Config { calendar_up: v, ..c })
    } else if name == "calendar_left"@ {
        Some(Config { calendar_left: v, ..c })
    } else if name == "calendar_right"@ {
        Some(Config { calendar_right: v, ..c })
    } else if name == "calendar_down"@ {
        Some(Config { calendar_down: v, ..c })
    } else if name == "go_back_time"@ {
        Some(Config { go_back_time: v, ..c })
    } else if name == "go_forward_time"@ {
        Some(Config { go_forward_time: v, ..c })
    } else if name == "go_back_calendar"@ {
        Some(Config { go_back_calendar: v, ..c })
    } else if name == "go_forward_calendar"@ {
        Some(Config { go_forward_calendar: v, ..c })
    } else {
        None
    }
}

/// The worker-pool bound; zero would mean no workers, so it is rejected.
pub open spec fn set_threads(c: Config, name: Seq<char>, value: Seq<char>) -> Option<Config> {
    if name == "max_threads"@ {
        match parse_uint_spec(value, 0xFFFF) {
            Some(v) => if v >= 1 {
                Some(Config { max_threads: v as usize, ..c })
            } else {
                None
            },
            None => None,
        }
    } else {
        None
    }
}

pub open spec fn match_boolean_spec(c: Config, name: Seq<char>, value: Seq<char>) -> (Config, bool) {
    match parse_boolean_spec(value) {
        Some(v) => match set_boolean(c, name, v) {
            Some(c2) => (c2, true),
            None => (c, false),
        },
        None => (c, false),
    }
}

pub open spec fn match_colors_spec(c: Config, name: Seq<char>, value: Seq<char>) -> (Config, bool) {
    match parse_color_spec(value) {
        Some(v) => match set_color(c, name, v) {
            Some(c2) => (c2, true),
            None => (c, false),
        },
        None => (c, false),
    }
}

pub open spec fn match_key_spec(c: Config, name: Seq<char>, value: Seq<char>) -> (Config, bool) {
    match parse_key_spec(value) {
        Some(v) => match set_key(c, name, v) {
            Some(c2) => (c2, true),
            None => (c, false),
        },
        None => (c, false),
    }
}

pub open spec fn match_threads_spec(c: Config, name: Seq<char>, value: Seq<char>) -> (
    Config,
    bool,
) {
    match set_threads(c, name, value) {
        Some(c2) => (c2, true),
        None => (c, false),
    }
}

/// One setting applied: the first group whose value parses and whose name
/// matches wins; otherwise the configuration is unchanged.
pub open spec fn apply_setting_spec(c: Config, name: Seq<char>, value: Seq<char>) -> Config {
    let (cb, okb) = match_boolean_spec(c, name, value);
    if okb {
        cb
    } else {
        let (cc, okc) = match_colors_spec(c, name, value);
        if okc {
            cc
        } else {
            let (ck, okk) = match_key_spec(c, name, value);
            if okk {
                ck
            } else {
                let (ct, okt) = match_threads_spec(c, name, value);
                if okt {
                    ct
                } else {
                    c
                }
            }
        }
    }
}

/// One configuration line applied: trimmed and lower-cased; comments and
/// lines without an equals sign are skipped; the name is the trimmed part
/// before the first equals sign, the value the part after it with spaces and
/// equals signs removed.
pub open spec fn apply_line_spec(c: Config, raw: Seq<char>) -> Config {
    let line = lower_seq(trim_spec(raw));
    if line.len() > 0 && line[0] == '#' {
        c
    } else if find_char(line, '=') == -1 {
        c
    } else {
        let i = find_char(line, '=');
        let name = trim_spec(line.take(i));
        let value = trim_spec(remove_char(remove_char(line.skip(i), ' '), '='));
        apply_setting_spec(c, name, value)
    }
}

/// A whole configuration, line by line over the defaults.
pub open spec fn apply_lines_spec(c: Config, lines: Seq<Seq<char>>, i: int) -> Config
    decreases i,
{
    if i <= 0 {
        c
    } else {
        apply_line_spec(apply_lines_spec(c, lines, i - 1), lines[i - 1])
    }
}

pub fn parse_boolean(color_string: &str) -> (r: Option<bool>)
    ensures
        r == parse_boolean_spec(color_string@),
{
    let s = color_string;
    if str_eq(s, "true") {
        Some(true)
    } else if str_eq(s, "false") {
        Some(false)
    } else if str_eq(s, "no") || str_eq(s, "n") || str_eq(s, "f") || str_eq(s, "!true") || str_eq(
        s,
        "nottrue",
    ) || str_eq(s, "deny") || str_eq(s, "negative") || str_eq(s, "out") || str_eq(s, ":(")
        || str_eq(s, ":#") {
        Some(false)
    } else if str_eq(s, "yes") || str_eq(s, "y") || str_eq(s, "t") || str_eq(s, "!false")
        || str_eq(s, "notfalse") || str_eq(s, "accept") || str_eq(s, "positive") || str_eq(s, "in")
        || str_eq(s, ":)") || str_eq(s, ":3") {
        Some(true)
    } else {
        None
    }
}

fn color_code(s: &str) -> (r: Option<u8>)
    ensures
        r == color_code_of(s@),
{
    if str_eq(s, "black") || str_eq(s, "0") {
        Some(0)
    } else if str_eq(s, "red") || str_eq(s, "1") {
        Some(1)
    } else if str_eq(s, "green") || str_eq(s, "2") {
        Some(2)
    } else if str_eq(s, "yellow") || str_eq(s, "3") {
        Some(3)
    } else if str_eq(s, "blue") || str_eq(s, "4") {
        Some(4)
    } else if str_eq(s, "magenta") || str_eq(s, "5") {
        Some(5)
    } else if str_eq(s, "cyan") || str_eq(s, "6") {
        Some(6)
    } else if str_eq(s, "white") || str_eq(s, "7") {
        Some(7)
    } else if str_eq(s, "lightblack") || str_eq(s, "8") {
        Some(8)
    } else if str_eq(s, "lightred") || str_eq(s, "9") {
        Some(9)
    } else if str_eq(s, "lightgreen") || str_eq(s, "10") {
        Some(10)
    } else if str_eq(s, "lightyellow") || str_eq(s, "11") {
        Some(11)
    } else if str_eq(s, "lightblue") || str_eq(s, "12") {
        Some(12)
    } else if str_eq(s, "lightmagenta") || str_eq(s, "13") {
        Some(13)
    } else if str_eq(s, "lightcyan") || str_eq(s, "14") {
        Some(14)
    } else if str_eq(s, "lightwhite") || str_eq(s, "15") {
        Some(15)
    } else {
        None
    }
}

pub fn parse_color(color_string: &str) -> (r: Option<Color>)
    ensures
        r == parse_color_spec(color_string@),
{
    let n = color_string.unicode_len();
    let prefixed = n >= 14 && str_eq(color_string.substring_char(0, 14), "high-intensity");
    let rest: &str = if prefixed {
        color_string.substring_char(14, n)
    } else {
        color_string
    };
    proof {
        if prefixed {
            assert(color_string@.subrange(0, 14) =~= color_string@.take(14));
            assert(color_string@.subrange(14, n as int) =~= color_string@.skip(14));
        }
    }
    match color_code(rest) {
        Some(code) => Some(Color::new(code)),
        None => None,
    }
}

pub fn parse_key(key_string: &str) -> (r: Option<Key>)
    ensures
        r == parse_key_spec(key_string@),
{
    let n = key_string.unicode_len();
    if n == 1 {
        return Some(Key::Char(key_string.get_char(0)));
    }
    let open_at = find_char_at(key_string, '(');
    let close_at = find_char_at(key_string, ')');
    proof {
        crate::text::lemma_find_char_range(key_string@, '(');
        crate::text::lemma_find_char_range(key_string@, ')');
    }
    if open_at < n && close_at < n {
        let name = key_string.substring_char(0, open_at);
        let raw_value = key_string.substring_char(open_at, n);
        let no_open = remove_char_str(raw_value, '(');
        let value = remove_char_str(no_open.as_str(), ')');
        let vs = value.as_str();
        let vn = vs.unicode_len();
        proof {
            assert(key_string@.subrange(0, open_at as int) =~= key_string@.take(open_at as int));
            assert(key_string@.subrange(open_at as int, n as int) =~= key_string@.skip(
                open_at as int,
            ));
        }
        if str_eq(name, "alt") {
            if vn == 1 {
                Some(Key::Alt(vs.get_char(0)))
            } else {
                None
            }
        } else if str_eq(name, "ctrl") || str_eq(name, "control") {
            if vn == 1 {
                Some(Key::Ctrl(vs.get_char(0)))
            } else {
                None
            }
        } else if str_eq(name, "f") || str_eq(name, "function") {
            match parse_uint(vs, 255) {
                Some(v) => if v <= 12 {
                    Some(Key::F(v as u8))
                } else {
                    None
                },
                None => None,
            }
        } else {
            None
        }
    } else if str_eq(key_string, "backspace") || str_eq(key_string, "back space") {
        Some(Key::Backspace)
    } else if str_eq(key_string, "left") {
        Some(Key::Left)
    } else if str_eq(key_string, "right") {
        Some(Key::Right)
    } else if str_eq(key_string, "up") {
        Some(Key::Up)
    } else if str_eq(key_string, "down") {
        Some(Key::Down)
    } else if str_eq(key_string, "home") {
        Some(Key::Home)
    } else if str_eq(key_string, "end") {
        Some(Key::End)
    } else if str_eq(key_string, "pageup") || str_eq(key_string, "page up") {
        Some(Key::PageUp)
    } else if str_eq(key_string, "pagedown") || str_eq(key_string, "page down") {
        Some(Key::PageDown)
    } else if str_eq(key_string, "backtab") || str_eq(key_string, "back tab") {
        Some(Key::BackTab)
    } else if str_eq(key_string, "delete") {
        Some(Key::Delete)
    } else if str_eq(key_string, "insert") {
        Some(Key::Insert)
    } else if str_eq(key_string, "esc") || str_eq(key_string, "escape") {
        Some(Key::Esc)
    } else if str_eq(key_string, "null") {
        Some(Key::Null)
    } else {
        None
    }
}

impl Config {
    /// The configuration used when no file overrides anything.
    pub fn get_default_config() -> (r: Config)
        ensures
            r == default_config(),
    {
        Config {
            bg_color: Color::new(12),
            calendar_bg_color: Color::new(7),
            date_bg_color: Color::new(0),
            text_button_bg_color: Color::new(6),
            date_num_color: Color::new(7),
            month_text_color: Color::new(7),
            weekday_bg_color: Color::new(9),
            select_bg_date_color: Color::new(5),
            select_bg_text_button_color: Color::new(13),
            quit: Key::Char('q'),
            up: Key::Char('w'),
            left: Key::Char('a'),
            down: Key::Char('s'),
            right: Key::Char('d'),
            calendar_up: Key::Char('W'),
            calendar_left: Key::Char('A'),
            calendar_down: Key::Char('S'),
            calendar_right: Key::Char('D'),
            go_back_time: Key::Left,
            go_forward_time: Key::Right,
            go_back_calendar: Key::Down,
            go_forward_calendar: Key::Up,
            change_calendar_reset_cursor: true,
            unselect_change_calendar_cursor: true,
            max_threads: 4,
        }
    }

    fn match_boolean(&mut self, config_var: &str, value: &str) -> (r: bool)
        ensures
            *final(self) == match_boolean_spec(*old(self), config_var@, value@).0,
            r == match_boolean_spec(*old(self), config_var@, value@).1,
    {
        if let Some(v) = parse_boolean(value) {
            if str_eq(config_var, "change_calendar_reset_cursor") {
                self.change_calendar_reset_cursor = v;
                return true;
            }
            if str_eq(config_var, "unselect_change_calendar_cursor") {
                self.unselect_change_calendar_cursor = v;
                return true;
            }
        }
        false
    }

    fn match_colors(&mut self, config_var: &str, value: &str) -> (r: bool)
        ensures
            *final(self) == match_colors_spec(*old(self), config_var@, value@).0,
            r == match_colors_spec(*old(self), config_var@, value@).1,
    {
        if let Some(v) = parse_color(value) {
            if str_eq(config_var, "bg_color") {
                self.bg_color = v;
                return true;
            }
            if str_eq(config_var, "calendar_bg_color") {
                self.calendar_bg_color = v;
                return true;
            }
            if str_eq(config_var, "date_bg_color") {
                self.date_bg_color = v;
                return true;
            }
            if str_eq(config_var, "text_button_bg_color") {
                self.text_button_bg_color = v;
                return true;
            }
            if str_eq(config_var, "date_num_color") {
                self.date_num_color = v;
                return true;
            }
            if str_eq(config_var, "month_text_color") {
                self.month_text_color = v;
                return true;
            }
            if str_eq(config_var, "weekday_bg_color") {
                self.weekday_bg_color = v;
                return true;
            }
            if str_eq(config_var, "select_bg_date_color") {
                self.select_bg_date_color = v;
                return true;
            }
            if str_eq(config_var, "select_bg_text_button_color") {
                self.select_bg_text_button_color = v;
                return true;
            }
        }
        false
    }

    fn match_key(&mut self, config_var: &str, value: &str) -> (r: bool)
        ensures
            *final(self) == match_key_spec(*old(self), config_var@, value@).0,
            r == match_key_spec(*old(self), config_var@, value@).1,
    {
        if let Some(v) = parse_key(value) {
            if str_eq(config_var, "quit") {
                self.quit = v;
                return true;
            }
            if str_eq(config_var, "up") {
                self.up = v;
                return true;
            }
            if str_eq(config_var, "left") {
                self.left = v;
                return true;
            }
            if str_eq(config_var, "down") {
                self.down = v;
                return true;
            }
            if str_eq(config_var, "right") {
                self.right = v;
                return true;
            }
            if str_eq(config_var, "calendar_up") {
                self.calendar_up = v;
                return true;
            }
            if str_eq(config_var, "calendar_left") {
                self.calendar_left = v;
                return true;
            }
            if str_eq(config_var, "calendar_right") {
                self.calendar_right = v;
                return true;
            }
            if str_eq(config_var, "calendar_down") {
                self.calendar_down = v;
                return true;
            }
            if str_eq(config_var, "go_back_time") {
                self.go_back_time = v;
                return true;
            }
            if str_eq(config_var, "go_forward_time") {
                self.go_forward_time = v;
                return true;
            }
            if str_eq(config_var, "go_back_calendar") {
                self.go_back_calendar = v;
                return true;
            }
            if str_eq(config_var, "go_forward_calendar") {
                self.go_forward_calendar = v;
                return true;
            }
        }
        false
    }

    fn match_threads(&mut self, config_var: &str, value: &str) -> (r: bool)
        ensures
            *final(self) == match_threads_spec(*old(self), config_var@, value@).0,
            r == match_threads_spec(*old(self), config_var@, value@).1,
    {
        if str_eq(config_var, "max_threads") {
            if let Some(v) = parse_uint(value, 0xFFFF) {
                if v >= 1 {
                    self.max_threads = v as usize;
                    return true;
                }
            }
        }
        false
    }

    /// Apply one configuration line; malformed or unrecognized lines change
    /// nothing.
    pub fn apply_line(&mut self, line: &str)
        ensures
            *final(self) == apply_line_spec(*old(self), line@),
    {
        let trimmed = trim_str(line);
        let lower = lowercase(trimmed);
        let l = lower.as_str();
        let n = l.unicode_len();
        if n > 0 && l.get_char(0) == '#' {
            return;
        }
        let eq_at = find_char_at(l, '=');
        proof {
            crate::text::lemma_find_char_range(l@, '=');
        }
        if eq_at == n {
            return;
        }
        let name_raw = l.substring_char(0, eq_at);
        let config_var = trim_str(name_raw);
        let value_raw = l.substring_char(eq_at, n);
        let no_space = remove_char_str(value_raw, ' ');
        let no_eq = remove_char_str(no_space.as_str(), '=');
        let value = trim_str(no_eq.as_str());
        proof {
            assert(l@.subrange(0, eq_at as int) =~= l@.take(eq_at as int));
            assert(l@.subrange(eq_at as int, n as int) =~= l@.skip(eq_at as int));
        }
        if self.match_boolean(config_var, value) {
        } else if self.match_colors(config_var, value) {
        } else if self.match_key(config_var, value) {
        } else if self.match_threads(config_var, value) {
        }
    }

    /// The configuration read from the given lines, over the defaults.
    pub fn get_config(lines: &Vec<String>) -> (r: Config)
        ensures
            r == apply_lines_spec(default_config(), lines.deep_view(), lines@.len() as int),
    {
        let mut config = Config::get_default_config();
        let n = lines.len();
        let mut i: usize = 0;
        while i < n
            invariant
                n == lines@.len(),
                i <= n,
                config == apply_lines_spec(default_config(), lines.deep_view(), i as int),
            decreases n - i,
        {
            config.apply_line(lines[i].as_str());
            i = i + 1;
        }
        config
    }
}

} // verus!
