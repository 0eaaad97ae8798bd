use distribution::options::{rc_options_of, SettingsError};
use distribution::settings::{PreTallied, Settings};

fn args(opts: &[&str]) -> Vec<String> {
    let mut v = vec!["test".to_string(), "--rcfile=/dev/null".to_string()];
    for o in opts {
        v.push(o.to_string());
    }
    v
}

fn read(opts: &[&str]) -> Result<Settings, SettingsError> {
    Settings::new(&args(opts), &Vec::new())
}

#[test]
fn test_empty_args() {
    let args: Vec<String> = Vec::new();
    let s = Settings::new(&args, &Vec::new()).unwrap();

    // check non-zero defaults
    assert_eq!(s.width(), 80);
    assert_eq!(s.height(), 15);
}

#[test]
fn defaults() {
    let s = read(&[]).unwrap();
    assert_eq!(s.match_regexp(), ".");
    assert_eq!(s.histogram_char(), "-");
    assert_eq!(s.char_width(), 8);
    assert_eq!(s.graph_values(), &PreTallied::NA);
    assert_eq!(s.tokenize(), "");
    assert_eq!(s.regular_colour(), "");
    assert!(!s.unicode_mode());
    assert!(s.graph_chars().is_empty());
}

#[test]
fn width_height_and_sizes() {
    assert_eq!(read(&["-w=40"]).unwrap().width(), 40);
    assert_eq!(read(&["--width=60"]).unwrap().width(), 60);
    assert_eq!(read(&["--width=+7"]).unwrap().width(), 7);
    assert_eq!(read(&["-h=77"]).unwrap().height(), 77);
    assert_eq!(read(&["--height=113"]).unwrap().height(), 113);
    let s = read(&["--size=sm"]).unwrap();
    assert_eq!((s.width(), s.height()), (60, 10));
    let s = read(&["-s=medium"]).unwrap();
    assert_eq!((s.width(), s.height()), (100, 20));
    let s = read(&["-s=l", "-w=50"]).unwrap();
    assert_eq!((s.width(), s.height()), (50, 35));
    // a later option overrides an earlier one
    assert_eq!(read(&["-w=40", "-w=41"]).unwrap().width(), 41);
}

#[test]
fn graph_and_colour_options() {
    assert_eq!(read(&["-g"]).unwrap().graph_values(), &PreTallied::ValueKey);
    assert_eq!(read(&["--graph=vk"]).unwrap().graph_values(), &PreTallied::ValueKey);
    assert_eq!(read(&["--graph=kv"]).unwrap().graph_values(), &PreTallied::KeyValue);
    let s = read(&["--color"]).unwrap();
    assert_eq!(s.regular_colour(), "\u{1b}[0m");
    assert_eq!(s.key_colour(), "\u{1b}[0m");
    assert_eq!(s.ct_colour(), "\u{1b}[32m");
    assert_eq!(s.pct_colour(), "\u{1b}[35m");
    assert_eq!(s.graph_colour(), "\u{1b}[34m");
    let s = read(&["-p=0,37,34,33,32,1"]).unwrap();
    assert_eq!(s.key_colour(), "\u{1b}[37m");
    assert_eq!(s.graph_colour(), "\u{1b}[32,1m");
}

#[test]
fn char_options() {
    assert_eq!(read(&["--char=x"]).unwrap().histogram_char(), "x");
    let s = read(&["--char=dt"]).unwrap();
    assert_eq!(s.histogram_char(), "\u{2022}");
    assert!(s.unicode_mode());
    let s = read(&["--char=pb"]).unwrap();
    assert_eq!(s.histogram_char(), "pb");
    assert_eq!(s.char_width(), 1);
    assert_eq!(
        s.graph_chars(),
        vec!['\u{258f}', '\u{258e}', '\u{258d}', '\u{258c}', '\u{258b}', '\u{258a}', '\u{2589}', '\u{2588}']
    );
    let s = read(&["--char=\u{2652}"]).unwrap();
    assert!(s.unicode_mode());
    assert_eq!(s.char_width(), 8);
    assert_eq!(read(&["-t=(.)", "-m=(.)"]).unwrap().tokenize(), "(.)");
    assert_eq!(read(&["--match=(.)"]).unwrap().match_regexp(), "(.)");
}

#[test]
fn option_errors() {
    assert_eq!(read(&["--help"]).unwrap_err(), SettingsError::Help);
    assert_eq!(read(&["-h"]).unwrap_err(), SettingsError::Help);
    assert_eq!(read(&["--width"]).unwrap_err(), SettingsError::MissingValue);
    assert_eq!(read(&["-w=abc"]).unwrap_err(), SettingsError::InvalidWidth);
    assert_eq!(read(&["--height=xyz"]).unwrap_err(), SettingsError::InvalidHeight);
    assert_eq!(read(&["--graph=foo"]).unwrap_err(), SettingsError::InvalidGraph);
    assert_eq!(read(&["--palette=x"]).unwrap_err(), SettingsError::InvalidPalette);
    assert_eq!(read(&["--char="]).unwrap_err(), SettingsError::EmptyChar);
    // the first problem wins
    assert_eq!(read(&["-w=abc", "--help"]).unwrap_err(), SettingsError::InvalidWidth);
}

#[test]
fn rc_file_lines() {
    let rc = vec![
        "--width=30#narrow".to_string(),
        "# only a comment".to_string(),
        "--width=20".to_string(),
        "--char=o".to_string(),
    ];
    assert_eq!(rc_options_of(&rc), vec!["--char=o", "--width=20", "--width=30"]);
    let s = Settings::new(&args(&[]), &rc).unwrap();
    // the first rc line is read last, and arguments after the rc file
    assert_eq!(s.histogram_char(), "o");
    assert_eq!(s.width(), 30);
    assert_eq!(Settings::new(&args(&["-w=99"]), &rc).unwrap().width(), 99);
}
