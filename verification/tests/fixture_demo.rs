//! The model's scenarios, run on a demo request built from a generic fixture.
use hyper_palette::demo::demo_from_text;
use hyper_palette::height;
use hyper_palette::menu::{Menu, Request};
use hyper_palette::state::State;

const FIXTURE: &str = r#"{
  "keys": {
    "menus": {
      "config": [
        ["c", "Clipboard", "menu.clipboard"],
        ["k", "Keyboard", "system.keyboard"],
        ["r", "Reload", "system.reload"],
        ["o", "Roles", "menu.roles"],
        ["w", "Windows", "window.layout"],
        ["s", "Screenshot", "capture.screen"],
        ["l", "Lock", "system.lock"],
        ["t", "Terminal", "app.terminal"]
      ],
      "clipboard": [
        ["v", "History", "clipboard.history"],
        ["p", "Pinned", "clipboard.pinned"],
        ["x", "Clear", "clipboard.clear"]
      ]
    },
    "roles": {
      "browser": {"apps": ["Firefox", "Chromium"]},
      "calendar": {"apps": ["Calendar"]},
      "chat": {"apps": ["Chat"]},
      "editor": {"apps": ["Editor", "IDE"]},
      "files": {"apps": ["Files"]},
      "mail": {"apps": ["Mail"]},
      "music": {"apps": ["Player"]},
      "notes": {"apps": ["Notes"]},
      "terminal": {"apps": ["Terminal"]},
      "video": {"apps": ["Video"]}
    }
  },
  "labels": {
    "menu.config": ["Hyper", "Hyper"],
    "menu.clipboard": ["Clipboard", "剪贴板"],
    "clipboard.history": ["History", "历史"],
    "system.reload": ["Reload", "重新载入"],
    "menu.roles": ["Roles", "角色"]
  }
}"#;

fn demo(zh: bool) -> Request {
  demo_from_text(zh, FIXTURE).unwrap()
}

fn edit_menu(request: &mut Request, name: &str, edit: impl FnOnce(&mut Menu)) {
  let mut menu = request.menus.get(name).unwrap().clone();
  edit(&mut menu);
  request.menus.insert(name.to_string(), menu);
}

fn activated(state: &mut State) -> Option<String> {
  state.activate()
}

#[test]
fn quick_keys_follow_menu_and_submenu_configuration() {
  let mut state = State::new(demo(false)).unwrap();
  assert!(state.quick_key("c"));
  assert_eq!(activated(&mut state), None);
  assert_eq!(state.depth(), 1);
  assert!(state.quick_key("v"));
  assert_eq!(activated(&mut state).as_deref(), Some("clipboard.history"));
  assert!(state.back());
  assert!(state.quick());
}

#[test]
fn search_mode_never_dispatches_bare_letters_even_after_clearing_query() {
  let mut state = State::new(demo(false)).unwrap();
  state.begin_search();
  assert!(!state.quick_key("c"));
  state.search("clipboard".into());
  state.search(String::new());
  assert!(!state.quick_key("v"));
}

#[test]
fn quick_keys_ignore_disabled_items_and_are_opt_in() {
  let mut request = demo(false);
  edit_menu(&mut request, "menu.config", |menu| {
    menu.items.iter_mut().find(|item| item.shortcut == "c").unwrap().disabled = true;
  });
  let mut state = State::new(request.clone()).unwrap();
  assert!(!state.quick_key("c"));
  edit_menu(&mut request, "menu.config", |menu| menu.quick = false);
  assert!(!State::new(request).unwrap().quick_key("k"));
}

#[test]
fn bounded_height() {
  assert_eq!([0, 1, 8, 9, 10, 100].map(height), [152, 152, 516, 568, 568, 568]);
}

#[test]
fn bilingual_search() {
  let mut state = State::new(demo(true)).unwrap();
  state.search("CLIPBOARD".into());
  assert_eq!(state.rows().len(), 1);
  state.search("剪贴板".into());
  assert_eq!(state.rows().len(), 1);
  state.search("no such action".into());
  state.step(1);
  assert_eq!(state.activate(), None);
}

#[test]
fn submenu_restores_search_and_selection() {
  let mut state = State::new(demo(false)).unwrap();
  state.search("Clipboard".into());
  assert_eq!(state.activate(), None);
  assert_eq!(state.depth(), 1);
  state.search("history".into());
  assert!(!state.back());
  state.search(String::new());
  assert!(state.back());
  assert_eq!(state.query(), "Clipboard");
  assert_eq!(state.selected(), Some(0));
}

#[test]
fn disabled_navigation_and_wrap() {
  let mut req = demo(false);
  edit_menu(&mut req, "menu.config", |menu| menu.items[0].disabled = true);
  let mut state = State::new(req).unwrap();
  assert_eq!(state.selected(), Some(1));
  state.select(0);
  assert_eq!(state.selected(), Some(1));
  state.step(-1);
  assert_eq!(state.selected(), Some(7));
  state.step(1);
  assert_eq!(state.selected(), Some(1));
}

#[test]
fn invalid_menu_rejected() {
  let mut req = demo(false);
  req.root = "absent".into();
  assert!(State::new(req).is_err());
}

#[test]
fn cycles_are_bounded() {
  let mut req = demo(false);
  edit_menu(&mut req, "menu.config", |menu| menu.items[0].submenu = Some("menu.config".into()));
  let mut state = State::new(req).unwrap();
  for _ in 0..100 {
    state.activate();
  }
  assert_eq!(state.depth(), 32);
}

#[test]
fn leaf_returns_exact_action_id() {
  let mut state = State::new(demo(true)).unwrap();
  state.search("reload".into());
  assert_eq!(state.activate().as_deref(), Some("system.reload"));
}

#[test]
fn all_disabled_is_inert() {
  let mut req = demo(false);
  edit_menu(&mut req, "menu.config", |menu| {
    for item in &mut menu.items {
      item.disabled = true;
    }
  });
  let mut state = State::new(req).unwrap();
  state.step(1);
  state.step(-1);
  state.select(0);
  assert_eq!(state.selected(), None);
  assert_eq!(state.activate(), None);
}

#[test]
fn bad_submenu_and_duplicate_ids_rejected() {
  let mut req = demo(false);
  edit_menu(&mut req, "menu.config", |menu| menu.items[0].submenu = Some("missing".into()));
  assert!(req.validate().is_err());
  let mut req = demo(false);
  edit_menu(&mut req, "menu.config", |menu| menu.items.push(menu.items[0].clone()));
  assert!(req.validate().is_err());
}

#[test]
fn submenu_opens_fresh_even_from_search_mode() {
  let mut state = State::new(demo(false)).unwrap();
  state.search("clipboard".into());
  assert!(!state.quick());
  assert_eq!(state.activate(), None);
  assert_eq!(state.query(), "");
  assert!(state.quick());
  assert_eq!(state.selected(), Some(0));
  assert_eq!(state.title(), "Clipboard");
  assert_eq!(state.rows().len(), 3);
}

fn row_ids(state: &State) -> Vec<String> {
  state.rows().iter().map(|item| item.id.clone()).collect()
}

#[test]
fn step_then_opposite_step_returns_over_disabled_rows() {
  let mut req = demo(false);
  edit_menu(&mut req, "menu.config", |menu| {
    menu.items[2].disabled = true;
    menu.items[3].disabled = true;
  });
  let mut state = State::new(req).unwrap();
  state.select(1);
  assert_eq!(state.selected(), Some(1));
  state.step(1);
  assert_eq!(state.selected(), Some(4));
  state.step(-1);
  assert_eq!(state.selected(), Some(1));
  state.select(0);
  state.step(-1);
  assert_eq!(state.selected(), Some(7));
  state.step(1);
  assert_eq!(state.selected(), Some(0));
}

#[test]
fn back_after_submenu_work_restores_parent_page() {
  let mut state = State::new(demo(false)).unwrap();
  state.search("clip".into());
  let title = state.title().to_string();
  let rows = row_ids(&state);
  let selected = state.selected();
  assert_eq!(state.activate(), None);
  state.step(1);
  state.select(2);
  state.begin_search();
  state.search("pinned".into());
  assert_eq!(state.activate().as_deref(), Some("clipboard.pinned"));
  state.search(String::new());
  assert!(state.back());
  assert_eq!(state.title(), title);
  assert_eq!(state.query(), "clip");
  assert!(!state.quick());
  assert_eq!(state.selected(), selected);
  assert_eq!(row_ids(&state), rows);
  assert_eq!(state.depth(), 0);
}

#[test]
fn query_word_order_and_repeats_do_not_change_rows() {
  let mut a = State::new(demo(false)).unwrap();
  let mut b = State::new(demo(false)).unwrap();
  a.search("system re".into());
  b.search("re  system re".into());
  assert_eq!(row_ids(&a), row_ids(&b));
  assert_eq!(row_ids(&a), vec!["system.reload".to_string()]);
}

#[test]
fn more_query_words_narrow_rows_in_order() {
  let mut wide = State::new(demo(false)).unwrap();
  let mut narrow = State::new(demo(false)).unwrap();
  wide.search("s".into());
  narrow.search("s system".into());
  let wide_rows = row_ids(&wide);
  let narrow_rows = row_ids(&narrow);
  assert!(narrow_rows.len() < wide_rows.len());
  let kept: Vec<String> = wide_rows.iter().filter(|id| narrow_rows.contains(id)).cloned().collect();
  assert_eq!(kept, narrow_rows);
}

#[test]
fn blank_query_shows_every_item() {
  let all = row_ids(&State::new(demo(false)).unwrap());
  assert_eq!(all.len(), 8);
  for blank in ["", "  ", " \t\n "] {
    let mut state = State::new(demo(false)).unwrap();
    state.search(blank.into());
    assert_eq!(row_ids(&state), all);
  }
}

#[test]
fn ascii_case_of_query_does_not_change_rows() {
  for q in ["clip", "system re", "Lock", "s"] {
    let mut lower = State::new(demo(false)).unwrap();
    let mut upper = State::new(demo(false)).unwrap();
    lower.search(q.into());
    upper.search(q.to_uppercase());
    assert_eq!(row_ids(&lower), row_ids(&upper));
  }
  let mut state = State::new(demo(false)).unwrap();
  state.search("CLIP".into());
  assert_eq!(row_ids(&state), vec!["menu.clipboard".to_string()]);
}

#[test]
fn joined_query_narrows_and_order_does_not_matter() {
  let mut short = State::new(demo(false)).unwrap();
  let mut joined = State::new(demo(false)).unwrap();
  let mut swapped = State::new(demo(false)).unwrap();
  short.search("system".into());
  joined.search("system lo".into());
  swapped.search("lo system".into());
  assert_eq!(row_ids(&short), vec!["system.keyboard".to_string(), "system.reload".to_string(), "system.lock".to_string()]);
  assert_eq!(row_ids(&joined), vec!["system.reload".to_string(), "system.lock".to_string()]);
  assert_eq!(row_ids(&swapped), row_ids(&joined));
}
