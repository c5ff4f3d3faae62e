//! Building the demo request from a fixture.
use hyper_palette::demo::{demo_from_text, demo_request, DemoEntry, DemoFixture, DemoLabel, DemoMenu, DemoRole};

fn fixture() -> DemoFixture {
  DemoFixture {
    menus: vec![DemoMenu {
      name: "config".into(),
      entries: vec![
        DemoEntry { shortcut: "a".into(), title: "Apps".into(), action: "menu.apps".into() },
        DemoEntry { shortcut: "r".into(), title: "Roles".into(), action: "menu.roles".into() },
        DemoEntry { shortcut: "x".into(), title: "Exit".into(), action: "menu.exit".into() },
        DemoEntry { shortcut: "q".into(), title: "Quit".into(), action: "app.quit".into() },
      ],
    }],
    roles: vec![
      DemoRole { role: "editor".into(), apps: Some(vec![Some("Vim".into()), None, Some("Emacs".into())]) },
      DemoRole { role: "shell".into(), apps: None },
    ],
    labels: vec![
      DemoLabel { id: "app.quit".into(), en: "Quit".into(), zh: "退出".into() },
      DemoLabel { id: "role.editor".into(), en: "Editor".into(), zh: "编辑器".into() },
    ],
  }
}

#[test]
fn demo_menus_and_items() {
  let r = demo_request(true, &fixture());
  assert_eq!(r.request_id, "demo");
  assert_eq!(r.root, "menu.config");
  assert_eq!(r.menus.len(), 2);
  let config = r.menus.get("menu.config").unwrap();
  assert!(config.quick);
  assert_eq!(config.title, "config");
  assert_eq!(config.items[0].submenu, None);
  assert_eq!(config.items[1].submenu.as_deref(), Some("menu.roles"));
  assert_eq!(config.items[2].submenu, None);
  assert_eq!(config.items[3].title, "退出");
  assert_eq!(config.items[3].keywords, "Quit 退出");
  assert_eq!(config.items[3].detail, "app.quit");
  assert_eq!(config.items[0].keywords, "");
  let roles = r.menus.get("menu.roles").unwrap();
  assert!(!roles.quick);
  assert_eq!(roles.title, "Roles");
  assert_eq!(roles.items[0].id, "prototype.configure.editor");
  assert_eq!(roles.items[0].title, "编辑器");
  assert_eq!(roles.items[0].detail, "Vim · Emacs");
  assert_eq!(roles.items[0].keywords, "Editor 编辑器");
  assert_eq!(roles.items[1].detail, "");
  assert_eq!(roles.items[1].title, "shell");
  assert_eq!(demo_request(false, &fixture()).menus.get("menu.config").unwrap().items[3].title, "Quit");
}


#[test]
fn fixture_text_shape() {
  let good = r#"{"keys":{"menus":{"config":[["q","Quit","app.quit",1]]},"roles":{"x":{"apps":["A",2,"B"]},"y":3}},"labels":{"app.quit":["Quit","退出"]}}"#;
  let r = demo_from_text(true, good).unwrap();
  let config = r.menus.get("menu.config").unwrap();
  assert_eq!(config.items[0].title, "退出");
  let roles = r.menus.get("menu.roles").unwrap();
  assert_eq!(roles.items[0].detail, "A · B");
  assert_eq!(roles.items[1].detail, "");
  assert!(demo_from_text(false, "not json").is_none());
  assert!(demo_from_text(false, r#"{"keys":{"menus":{"c":[["q","Quit"]]},"roles":{}},"labels":{}}"#).is_none());
  assert!(demo_from_text(false, r#"{"keys":{"menus":{},"roles":{}},"labels":{"a":["x","y","z"]}}"#).is_none());
  assert!(demo_from_text(false, r#"{"keys":{"menus":{},"roles":[]},"labels":{}}"#).is_none());
  assert!(demo_from_text(false, r#"{"keys":{"menus":{},"roles":{}}}"#).is_none());
  assert!(demo_from_text(false, r#"{"keys":{"menus":{},"roles":{}},"labels":{}}"#).is_some());
}
