//! The resident session: events for show, hide, activation and shutdown.
use hyper_palette::menu::{Item, Menu, MenuMap, Request};
use hyper_palette::session::{frame_fate, nav_action, Event, FrameFate, NavAction, Reason, Session, MAX_FRAME};

fn item(id: &str, shortcut: &str, submenu: Option<&str>) -> Item {
  Item {
    id: id.into(),
    title: id.to_uppercase(),
    detail: String::new(),
    shortcut: shortcut.into(),
    keywords: String::new(),
    disabled: false,
    submenu: submenu.map(String::from),
  }
}

fn request(id: &str) -> Request {
  let mut menus = MenuMap::new();
  menus.insert(
    "root".into(),
    Menu { title: "Root".into(), items: vec![item("open", "Alt+V", None), item("more", "m", Some("sub"))], quick: true },
  );
  menus.insert("sub".into(), Menu { title: "Sub".into(), items: vec![item("deep", "d", None)], quick: true });
  Request { request_id: id.into(), root: "root".into(), menus }
}

fn kinds(events: &[Event]) -> Vec<String> {
  events
    .iter()
    .map(|e| match e {
      Event::Shown { request_id } => format!("shown:{request_id}"),
      Event::Action { request_id, action } => format!("action:{request_id}:{action}"),
      Event::Dismissed { request_id, reason } => format!("dismissed:{request_id}:{}", reason.text()),
      Event::Error { request_id, message } => format!("error:{}:{message}", request_id.clone().unwrap_or_default()),
    })
    .collect()
}

#[test]
fn show_then_replace_reports_replaced() {
  let mut s = Session::new();
  assert!(kinds(&s.show(request("a"))).is_empty());
  assert_eq!(kinds(&s.announce()), vec!["shown:a"]);
  assert_eq!(kinds(&s.show(request("b"))), vec!["dismissed:a:replaced"]);
  assert_eq!(kinds(&s.announce()), vec!["shown:b"]);
}

#[test]
fn invalid_show_keeps_the_open_palette() {
  let mut s = Session::new();
  s.show(request("a"));
  let mut bad = request("b");
  bad.root = "absent".into();
  assert_eq!(kinds(&s.show(bad)), vec!["error:b:missing request_id or root menu"]);
  assert_eq!(kinds(&s.announce()), vec!["shown:a"]);
}

#[test]
fn stale_hide_is_ignored() {
  let mut s = Session::new();
  s.show(request("a"));
  assert!(s.hide_request("old").is_empty());
  assert_eq!(kinds(&s.hide_request("a")), vec!["dismissed:a:client"]);
  assert!(s.hide_request("a").is_empty());
}

#[test]
fn leaf_activation_closes_with_action() {
  let mut s = Session::new();
  s.show(request("a"));
  assert_eq!(kinds(&s.activate()), vec!["action:a:open"]);
  assert!(s.state().is_none());
  assert!(s.finish(Reason::Shutdown).is_empty());
}

#[test]
fn submenu_activation_reports_nothing() {
  let mut s = Session::new();
  s.show(request("a"));
  s.step(1);
  assert!(s.activate().is_empty());
  assert_eq!(s.state().unwrap().depth(), 1);
  assert!(s.back());
  assert_eq!(s.state().unwrap().selected(), Some(1));
}

#[test]
fn accelerator_upper_cases_the_key() {
  let mut s = Session::new();
  s.show(request("a"));
  s.step(1);
  assert!(s.accelerator("v"));
  assert_eq!(s.state().unwrap().selected(), Some(0));
  assert!(!s.accelerator("q"));
}

#[test]
fn blur_closes_only_after_focus() {
  let mut s = Session::new();
  s.show(request("a"));
  assert!(s.blur().is_empty());
  s.focus();
  assert_eq!(kinds(&s.blur()), vec!["dismissed:a:blur"]);
}

#[test]
fn failed_window_reports_error() {
  let mut s = Session::new();
  s.show(request("a"));
  assert_eq!(kinds(&s.fail("no display".into())), vec!["error:a:no display"]);
  assert!(s.state().is_none());
}

#[test]
fn navigate_maps_actions_for_the_active_request_only() {
  let mut s = Session::new();
  s.show(request("a"));
  assert_eq!(s.navigate("a", "select.up"), NavAction::Up);
  assert_eq!(s.navigate("a", "edit.down"), NavAction::Down);
  assert_eq!(s.navigate("a", "back"), NavAction::Back);
  assert_eq!(s.navigate("a", "accept"), NavAction::Accept);
  assert_eq!(s.navigate("a", "close"), NavAction::Close);
  assert_eq!(s.navigate("a", "dance"), NavAction::Ignore);
  assert_eq!(s.navigate("b", "close"), NavAction::Ignore);
  assert_eq!(nav_action("edit.right"), NavAction::Accept);
}

#[test]
fn frames_over_a_mebibyte_close_the_host() {
  assert_eq!(frame_fate(None, 0), FrameFate::Quit);
  assert_eq!(frame_fate(Some(0), 0), FrameFate::Quit);
  assert_eq!(frame_fate(Some(10), MAX_FRAME), FrameFate::Dispatch);
  assert_eq!(frame_fate(Some(10), MAX_FRAME + 1), FrameFate::TooLarge);
}

#[test]
fn reasons_are_written_as_the_protocol_names_them() {
  let all = [Reason::Escape, Reason::Blur, Reason::Client, Reason::Close, Reason::Replaced, Reason::Shutdown];
  let names: Vec<&str> = all.iter().map(|r| r.text()).collect();
  assert_eq!(names, ["escape", "blur", "client", "close", "replaced", "shutdown"]);
}
