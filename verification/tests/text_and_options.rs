//! Text primitives, command-line options, labels and theme decisions.
use hyper_palette::labels::{labels, view_selection};
use hyper_palette::options::{parse_args, zh_locale};
use hyper_palette::text::{contains_chars, same_ignoring_ascii_case, split_words};
use hyper_palette::theme::{desktop_is_xfce, first_theme_query, monitor_argv, theme_reply, trim_whitespace, ThemeQuery, ThemeStep};

fn chars(s: &str) -> Vec<char> {
  s.chars().collect()
}

fn args(list: &[&str]) -> Vec<String> {
  list.iter().map(|s| s.to_string()).collect()
}

#[test]
fn words_split_on_any_whitespace() {
  let words: Vec<String> = split_words(&chars("  no\tsuch \u{3000}action ")).into_iter().map(|w| w.into_iter().collect()).collect();
  assert_eq!(words, ["no", "such", "action"]);
  assert!(split_words(&chars("   ")).is_empty());
}

#[test]
fn substring_search() {
  assert!(contains_chars(&chars("clipboard history"), &chars("board h")));
  assert!(!contains_chars(&chars("clip"), &chars("clipboard")));
  assert!(contains_chars(&chars("abc"), &chars("")));
}

#[test]
fn ascii_case_folding_only() {
  assert!(same_ignoring_ascii_case("Alt+V", "alt+v"));
  assert!(!same_ignoring_ascii_case("É", "é"));
  assert!(!same_ignoring_ascii_case("ab", "abc"));
}

#[test]
fn lowercase_is_unicode_aware() {
  assert!(hyper_palette::theme::dark_name("ÀDWAITA-DÄRK BLACK"));
  assert!(!hyper_palette::theme::dark_name("DÄRK"));
}

#[test]
fn help_wins_over_unknown_arguments() {
  let o = parse_args(&args(&["--bogus", "--help"])).unwrap();
  assert!(o.help);
}

#[test]
fn unknown_argument_is_named() {
  assert_eq!(parse_args(&args(&["--demo", "--x", "--y"])).err().unwrap(), "unknown argument: --x");
}

#[test]
fn language_and_theme_flags() {
  let o = parse_args(&args(&["--lang=en", "--lang=zh", "--light", "--demo"])).unwrap();
  assert!(!o.help && o.demo && !o.dump_demo);
  assert_eq!(o.zh, Some(true));
  assert_eq!(o.theme_override, Some(false));
  let o = parse_args(&args(&["--light", "--dark"])).unwrap();
  assert_eq!(o.theme_override, Some(true));
  let o = parse_args(&args(&[])).unwrap();
  assert_eq!(o.zh, None);
  assert_eq!(o.theme_override, None);
}

#[test]
fn chinese_locales() {
  assert!(zh_locale("zh-Hans-CN"));
  assert!(zh_locale("ZH_tw"));
  assert!(!zh_locale("en-US"));
  assert!(!zh_locale("z"));
}

#[test]
fn footer_and_count_labels() {
  let l = labels(false, true, 0, 12);
  assert_eq!(l.footer, "Letter Quick action   / Search   Esc Dismiss  ·  Hyper");
  assert_eq!(l.count, "12 results");
  assert_eq!(l.empty, "No matches");
  let l = labels(true, false, 2, 0);
  assert_eq!(l.footer, "↑↓ 选择   ↵ 确认   Esc 关闭  ·  空输入 ⌫ 返回");
  assert_eq!(l.count, "0 项");
  assert_eq!(l.empty, "没有匹配项");
  assert_eq!(view_selection(None), -1);
  assert_eq!(view_selection(Some(7)), 7);
}

#[test]
fn color_scheme_decides_before_theme_name() {
  assert_eq!(first_theme_query(false), ThemeQuery::ColorScheme);
  assert_eq!(first_theme_query(true), ThemeQuery::XfceThemeName);
  assert_eq!(theme_reply(ThemeQuery::ColorScheme, Some("'prefer-dark'\n")), ThemeStep::Done(Some(true)));
  assert_eq!(theme_reply(ThemeQuery::ColorScheme, Some("'prefer-light'")), ThemeStep::Done(Some(false)));
  assert_eq!(theme_reply(ThemeQuery::ColorScheme, Some("'default'")), ThemeStep::Ask(ThemeQuery::GtkTheme));
  assert_eq!(theme_reply(ThemeQuery::ColorScheme, None), ThemeStep::Ask(ThemeQuery::GtkTheme));
  assert_eq!(theme_reply(ThemeQuery::GtkTheme, Some("'Adwaita-dark'")), ThemeStep::Done(Some(true)));
  assert_eq!(theme_reply(ThemeQuery::XfceThemeName, Some("Greybird")), ThemeStep::Done(Some(false)));
  assert_eq!(theme_reply(ThemeQuery::XfceThemeName, None), ThemeStep::Done(None));
}

#[test]
fn desktop_detection() {
  assert_eq!(desktop_is_xfce("XFCE"), Some(true));
  assert_eq!(desktop_is_xfce("GNOME"), Some(false));
  assert_eq!(desktop_is_xfce(""), None);
  assert_eq!(monitor_argv(true), ["xfconf-query", "-c", "xsettings", "-m"]);
  assert_eq!(monitor_argv(false), ["gsettings", "monitor", "org.gnome.desktop.interface"]);
  assert_eq!(trim_whitespace("  x y \n"), "x y");
  assert_eq!(ThemeQuery::GtkTheme.argv(), ["gsettings", "get", "org.gnome.desktop.interface", "gtk-theme"]);
}

#[test]
fn white_space_matches_std_for_every_char() {
  for u in 0..=0x10ffffu32 {
    if let Some(c) = char::from_u32(u) {
      assert_eq!(hyper_palette::text::is_whitespace(c), c.is_whitespace(), "U+{u:04X}");
    }
  }
}
