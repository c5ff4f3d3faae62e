//! The keyed menu collection and request validation.
use hyper_palette::menu::{Item, Menu, MenuMap, Request};
use hyper_palette::state::State;

fn item(id: &str) -> Item {
  Item {
    id: id.into(),
    title: id.into(),
    detail: String::new(),
    shortcut: String::new(),
    keywords: String::new(),
    disabled: false,
    submenu: None,
  }
}

fn menu(title: &str, items: Vec<Item>) -> Menu {
  Menu { title: title.into(), items, quick: false }
}

#[test]
fn names_stay_ordered_and_unique() {
  let mut m = MenuMap::new();
  assert!(m.insert("b".into(), menu("B", vec![])).is_none());
  assert!(m.insert("a".into(), menu("A", vec![])).is_none());
  assert!(m.insert("é".into(), menu("E", vec![])).is_none());
  let prev = m.insert("b".into(), menu("B2", vec![])).unwrap();
  assert_eq!(prev.title, "B");
  let names: Vec<String> = (0..m.len()).map(|i| m.entry(i).0.clone()).collect();
  assert_eq!(names, ["a", "b", "é"]);
  assert_eq!(m.get("b").unwrap().title, "B2");
  assert!(m.get("c").is_none());
  assert!(m.contains_key("a"));
  let copy = m.clone();
  assert_eq!(copy.len(), 3);
}

fn request(menus: Vec<(&str, Menu)>, root: &str) -> Request {
  let mut map = MenuMap::new();
  for (name, m) in menus {
    map.insert(name.into(), m);
  }
  Request { request_id: "r".into(), root: root.into(), menus: map }
}

#[test]
fn each_validation_error() {
  let ok = request(vec![("m", menu("M", vec![item("a")]))], "m");
  assert_eq!(ok.validate(), Ok(()));
  let mut no_id = ok.clone();
  no_id.request_id = String::new();
  assert_eq!(no_id.validate(), Err("missing request_id or root menu"));
  let many: Vec<(String, Menu)> = (0..65).map(|i| (format!("m{i:02}"), menu("M", vec![]))).collect();
  let mut map = MenuMap::new();
  for (name, m) in many {
    map.insert(name, m);
  }
  let big = Request { request_id: "r".into(), root: "m00".into(), menus: map };
  assert_eq!(big.validate(), Err("too many menus or items"));
  let items: Vec<Item> = (0..4097).map(|i| item(&format!("i{i}"))).collect();
  assert_eq!(request(vec![("m", menu("M", items))], "m").validate(), Err("too many menus or items"));
  let items: Vec<Item> = (0..4096).map(|i| item(&format!("i{i}"))).collect();
  assert_eq!(request(vec![("m", menu("M", items))], "m").validate(), Ok(()));
  assert_eq!(
    request(vec![("m", menu("M", vec![item("a"), item("")]))], "m").validate(),
    Err("item IDs must be nonempty and unique within each menu")
  );
  let mut sub = item("s");
  sub.submenu = Some("nowhere".into());
  assert_eq!(request(vec![("m", menu("M", vec![sub]))], "m").validate(), Err("unknown submenu"));
  // Menus are checked in name order: "a" (unknown submenu) before "b" (duplicate ids).
  let mut sub = item("s");
  sub.submenu = Some("nowhere".into());
  let r = request(vec![("b", menu("B", vec![item("x"), item("x")])), ("a", menu("A", vec![sub]))], "b");
  assert_eq!(r.validate(), Err("unknown submenu"));
  // The same id in two menus is fine.
  assert!(request(vec![("a", menu("A", vec![item("x")])), ("b", menu("B", vec![item("x")]))], "a").validate().is_ok());
  assert!(State::new(no_id).is_err());
}

#[test]
fn empty_query_shows_everything_and_title_follows_page() {
  let mut next = item("go");
  next.submenu = Some("b".into());
  let mut off = item("off");
  off.disabled = true;
  let r = request(vec![("a", menu("Alpha", vec![off, next])), ("b", menu("Beta", vec![item("x")]))], "a");
  let mut s = State::new(r).unwrap();
  assert_eq!(s.rows().len(), 2);
  assert_eq!(s.selected(), Some(1));
  assert_eq!(s.title(), "Alpha");
  assert!(!s.quick());
  assert_eq!(s.activate(), None);
  assert_eq!(s.title(), "Beta");
  assert_eq!(s.activate().as_deref(), Some("x"));
  s.search("zzz".into());
  assert!(s.rows().is_empty());
  assert_eq!(s.selected(), None);
  assert!(!s.back());
  s.search(String::new());
  assert_eq!(s.rows().len(), 1);
  assert!(s.back());
  assert_eq!(s.title(), "Alpha");
  assert_eq!(s.request().request_id, "r");
}
