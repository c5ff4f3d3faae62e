//! The built-in demo: a request assembled from a generic fixture of menus,
//! roles and bilingual labels.
use vstd::prelude::*;
use crate::menu::{has_name, lookup, opt_view, Item, Menu, MenuMap, Request};
use crate::text::{chars_of, owned, same_chars, same_text, starts_with_chars};

verus! {

/// One fixture menu row: its shortcut, fallback title and action id.
pub struct DemoEntry {
    pub shortcut: String,
    pub title: String,
    pub action: String,
}

/// A fixture menu, named without the `menu.` prefix.
pub struct DemoMenu {
    pub name: String,
    pub entries: Vec<DemoEntry>,
}

/// A role and the applications listed for it (`None`: no list; a `None`
/// inside: a listed value that is not a string).
pub struct DemoRole {
    pub role: String,
    pub apps: Option<Vec<Option<String>>>,
}

/// The English and Chinese label of an id.
pub struct DemoLabel {
    pub id: String,
    pub en: String,
    pub zh: String,
}

/// The fixture: menus and roles in key order, and labels.
pub struct DemoFixture {
    pub menus: Vec<DemoMenu>,
    pub roles: Vec<DemoRole>,
    pub labels: Vec<DemoLabel>,
}

/// An item, abstractly.
pub struct ItemView {
    pub id: Seq<char>,
    pub title: Seq<char>,
    pub detail: Seq<char>,
    pub shortcut: Seq<char>,
    pub keywords: Seq<char>,
    pub disabled: bool,
    pub submenu: Option<Seq<char>>,
}

/// A menu, abstractly.
pub struct MenuView {
    pub title: Seq<char>,
    pub quick: bool,
    pub items: Seq<ItemView>,
}

pub open spec fn item_view(i: Item) -> ItemView {
    ItemView {
        id: i.id@,
        title: i.title@,
        detail: i.detail@,
        shortcut: i.shortcut@,
        keywords: i.keywords@,
        disabled: i.disabled,
        submenu: match i.submenu {
            Some(s) => Some(s@),
            None => None,
        },
    }
}

pub open spec fn item_views(items: Seq<Item>) -> Seq<ItemView> {
    items.map_values(|i: Item| item_view(i))
}

pub open spec fn menu_view(m: Menu) -> MenuView {
    MenuView { title: m.title@, quick: m.quick, items: item_views(m.items@) }
}

/// The label of `id` at or after `i`: its Chinese or English text, else `fallback`.
pub open spec fn label_from(labels: Seq<DemoLabel>, id: Seq<char>, zh: bool, fallback: Seq<char>, i: int) -> Seq<char>
    decreases labels.len() - i,
{
    if i < 0 || i >= labels.len() {
        fallback
    } else if labels[i].id@ == id {
        if zh {
            labels[i].zh@
        } else {
            labels[i].en@
        }
    } else {
        label_from(labels, id, zh, fallback, i + 1)
    }
}

pub open spec fn label(f: DemoFixture, id: Seq<char>, zh: bool, fallback: Seq<char>) -> Seq<char> {
    label_from(f.labels@, id, zh, fallback, 0)
}

/// Both labels of `id`, joined by a space; empty without a label.
pub open spec fn keywords_from(labels: Seq<DemoLabel>, id: Seq<char>, i: int) -> Seq<char>
    decreases labels.len() - i,
{
    if i < 0 || i >= labels.len() {
        seq![]
    } else if labels[i].id@ == id {
        labels[i].en@ + " "@ + labels[i].zh@
    } else {
        keywords_from(labels, id, i + 1)
    }
}

pub open spec fn keywords(f: DemoFixture, id: Seq<char>) -> Seq<char> {
    keywords_from(f.labels@, id, 0)
}

/// The fixture has a menu named `name`.
pub open spec fn has_menu(f: DemoFixture, name: Seq<char>) -> bool {
    exists|i: int| 0 <= i < f.menus@.len() && #[trigger] f.menus@[i].name@ == name
}

/// An action `menu.<name>` opens a submenu when `<name>` is a fixture menu or `roles`.
pub open spec fn submenu_of(f: DemoFixture, action: Seq<char>) -> Option<Seq<char>> {
    let p = "menu."@;
    if p.len() <= action.len() && action.take(p.len() as int) == p && (has_menu(
        f,
        action.skip(p.len() as int),
    ) || action.skip(p.len() as int) == "roles"@) {
        Some(action)
    } else {
        None
    }
}

pub open spec fn entry_view(f: DemoFixture, zh: bool, e: DemoEntry) -> ItemView {
    ItemView {
        id: e.action@,
        title: label(f, e.action@, zh, e.title@),
        detail: e.action@,
        shortcut: e.shortcut@,
        keywords: keywords(f, e.action@),
        disabled: false,
        submenu: submenu_of(f, e.action@),
    }
}

pub open spec fn menu_id(name: Seq<char>) -> Seq<char> {
    "menu."@ + name
}

pub open spec fn fixture_menu_view(f: DemoFixture, zh: bool, m: DemoMenu) -> MenuView {
    MenuView {
        title: label(f, menu_id(m.name@), zh, m.name@),
        quick: true,
        items: entry_views(f, zh, m.entries@),
    }
}

pub open spec fn entry_views(f: DemoFixture, zh: bool, entries: Seq<DemoEntry>) -> Seq<ItemView> {
    entries.map_values(|e: DemoEntry| entry_view(f, zh, e))
}

pub open spec fn role_views(f: DemoFixture, zh: bool, roles: Seq<DemoRole>) -> Seq<ItemView> {
    roles.map_values(|r: DemoRole| role_view(f, zh, r))
}

/// The string values of a list, in order.
pub open spec fn strings(v: Seq<Option<String>>) -> Seq<Seq<char>>
    decreases v.len(),
{
    if v.len() == 0 {
        seq![]
    } else {
        let s = strings(v.drop_last());
        match v.last() {
            Some(t) => s.push(t@),
            None => s,
        }
    }
}

/// `parts` joined by `sep`.
pub open spec fn join(parts: Seq<Seq<char>>, sep: Seq<char>) -> Seq<char>
    decreases parts.len(),
{
    if parts.len() == 0 {
        seq![]
    } else if parts.len() == 1 {
        parts[0]
    } else {
        join(parts.drop_last(), sep) + sep + parts.last()
    }
}

pub open spec fn role_id(role: Seq<char>) -> Seq<char> {
    "role."@ + role
}

pub open spec fn role_view(f: DemoFixture, zh: bool, r: DemoRole) -> ItemView {
    ItemView {
        id: "prototype.configure."@ + r.role@,
        title: label(f, role_id(r.role@), zh, r.role@),
        detail: match r.apps {
            Some(a) => join(strings(a@), " · "@),
            None => seq![],
        },
        shortcut: seq![],
        keywords: keywords(f, role_id(r.role@)),
        disabled: false,
        submenu: None,
    }
}

pub open spec fn roles_menu_view(f: DemoFixture, zh: bool) -> MenuView {
    MenuView {
        title: label(f, "menu.roles"@, zh, "Roles"@),
        quick: false,
        items: role_views(f, zh, f.roles@),
    }
}

/// The fixture menus, the first `n` of them inserted in order.
pub open spec fn fixture_menus(f: DemoFixture, zh: bool, n: int) -> Map<Seq<char>, MenuView>
    decreases n,
{
    if n <= 0 {
        Map::empty()
    } else {
        fixture_menus(f, zh, n - 1).insert(
            menu_id(f.menus@[n - 1].name@),
            fixture_menu_view(f, zh, f.menus@[n - 1]),
        )
    }
}

/// All demo menus: the fixture menus, then the roles menu.
pub open spec fn demo_menus(f: DemoFixture, zh: bool) -> Map<Seq<char>, MenuView> {
    fixture_menus(f, zh, f.menus@.len() as int).insert("menu.roles"@, roles_menu_view(f, zh))
}

/// `m` holds exactly the menus of `spec`, by name.
pub open spec fn holds(m: Seq<(Seq<char>, Menu)>, spec: Map<Seq<char>, MenuView>) -> bool {
    &&& forall|k: Seq<char>| #[trigger] has_name(m, k) <==> spec.dom().contains(k)
    &&& forall|k: Seq<char>|
        #[trigger] spec.dom().contains(k) ==> lookup(m, k) is Some && menu_view(lookup(m, k)->0)
            == spec[k]
}

fn label_exec(labels: &Vec<DemoLabel>, id: &str, zh: bool, fallback: &str) -> (r: String)
    ensures
        r@ == label_from(labels@, id@, zh, fallback@, 0),
{
    let n = labels.len();
    let mut i: usize = 0;
    while i < n
        invariant
            n == labels.len(),
            i <= n,
            label_from(labels@, id@, zh, fallback@, 0) == label_from(labels@, id@, zh, fallback@, i as int),
        decreases n - i,
    {
        if same_text(labels[i].id.as_str(), id) {
            return if zh {
                labels[i].zh.clone()
            } else {
                labels[i].en.clone()
            };
        }
        i = i + 1;
    }
    owned(fallback)
}

fn keywords_exec(labels: &Vec<DemoLabel>, id: &str) -> (r: String)
    ensures
        r@ == keywords_from(labels@, id@, 0),
{
    let n = labels.len();
    let mut i: usize = 0;
    while i < n
        invariant
            n == labels.len(),
            i <= n,
            keywords_from(labels@, id@, 0) == keywords_from(labels@, id@, i as int),
        decreases n - i,
    {
        if same_text(labels[i].id.as_str(), id) {
            let mut r = labels[i].en.clone();
            r.append(" ");
            r.append(labels[i].zh.as_str());
            return r;
        }
        i = i + 1;
    }
    String::new()
}

fn has_menu_exec(f: &DemoFixture, name: &Vec<char>) -> (b: bool)
    ensures
        b == has_menu(*f, name@),
{
    let n = f.menus.len();
    let mut i: usize = 0;
    while i < n
        invariant
            n == f.menus@.len(),
            i <= n,
            forall|t: int| 0 <= t < i ==> f.menus@[t].name@ != name@,
        decreases n - i,
    {
        let here = chars_of(f.menus[i].name.as_str());
        if same_chars(&here, name) {
            return true;
        }
        i = i + 1;
    }
    false
}

fn submenu_exec(f: &DemoFixture, action: &String) -> (r: Option<String>)
    ensures
        match r {
            Some(s) => submenu_of(*f, action@) == Some(s@),
            None => submenu_of(*f, action@) is None,
        },
{
    let chars = chars_of(action.as_str());
    let prefix = chars_of("menu.");
    if !starts_with_chars(&chars, &prefix) {
        return None;
    }
    let p = prefix.len();
    let mut rest: Vec<char> = Vec::new();
    let mut i = p;
    while i < chars.len()
        invariant
            p == prefix@.len(),
            p <= i <= chars@.len(),
            rest@ == chars@.subrange(p as int, i as int),
        decreases chars.len() - i,
    {
        rest.push(chars[i]);
        i = i + 1;
    }
    assert(rest@ =~= chars@.skip(p as int));
    let roles = chars_of("roles");
    if has_menu_exec(f, &rest) || same_chars(&rest, &roles) {
        Some(action.clone())
    } else {
        None
    }
}

fn entry_item(f: &DemoFixture, zh: bool, e: &DemoEntry) -> (item: Item)
    ensures
        item_view(item) == entry_view(*f, zh, *e),
{
    Item {
        id: e.action.clone(),
        title: label_exec(&f.labels, e.action.as_str(), zh, e.title.as_str()),
        detail: e.action.clone(),
        shortcut: e.shortcut.clone(),
        keywords: keywords_exec(&f.labels, e.action.as_str()),
        disabled: false,
        submenu: submenu_exec(f, &e.action),
    }
}

fn fixture_menu(f: &DemoFixture, zh: bool, m: &DemoMenu) -> (r: (String, Menu))
    ensures
        r.0@ == menu_id(m.name@),
        menu_view(r.1) == fixture_menu_view(*f, zh, *m),
{
    let mut id = owned("menu.");
    id.append(m.name.as_str());
    let n = m.entries.len();
    let mut items: Vec<Item> = Vec::new();
    let mut i: usize = 0;
    while i < n
        invariant
            n == m.entries@.len(),
            i <= n,
            items@.len() == i,
            item_views(items@) == entry_views(*f, zh, m.entries@.take(i as int)),
        decreases n - i,
    {
        let item = entry_item(f, zh, &m.entries[i]);
        let ghost before = items@;
        items.push(item);
        proof {
            assert(m.entries@.take(i + 1) =~= m.entries@.take(i as int).push(m.entries@[i as int]));
            assert forall|j: int| 0 <= j < items@.len() implies #[trigger] item_views(items@)[j]
                == entry_views(*f, zh, m.entries@.take(i + 1))[j] by {
                if j < i {
                    assert(items@[j] == before[j]);
                    assert(item_views(before)[j] == entry_views(*f, zh, m.entries@.take(i as int))[j]);
                    assert(m.entries@.take(i as int)[j] == m.entries@.take(i + 1)[j]);
                } else {
                    assert(m.entries@.take(i + 1)[j] == m.entries@[i as int]);
                }
            }
            assert(item_views(items@) =~= entry_views(*f, zh, m.entries@.take(i + 1)));
        }
        i = i + 1;
    }
    assert(m.entries@.take(n as int) =~= m.entries@);
    let title = label_exec(&f.labels, id.as_str(), zh, m.name.as_str());
    (id, Menu { title, items, quick: true })
}

fn join_apps(apps: &Vec<Option<String>>) -> (r: String)
    ensures
        r@ == join(strings(apps@), " · "@),
{
    let mut r = String::new();
    let mut first = true;
    let n = apps.len();
    let mut i: usize = 0;
    while i < n
        invariant
            n == apps@.len(),
            i <= n,
            first == (strings(apps@.take(i as int)).len() == 0),
            r@ == join(strings(apps@.take(i as int)), " · "@),
        decreases n - i,
    {
        assert(apps@.take(i + 1).drop_last() =~= apps@.take(i as int));
        match &apps[i] {
            Some(t) => {
                let ghost before = strings(apps@.take(i as int));
                if !first {
                    r.append(" · ");
                }
                r.append(t.as_str());
                proof {
                    let after = before.push(t@);
                    assert(after.drop_last() =~= before);
                    if before.len() == 0 {
                        assert(r@ =~= join(after, " · "@));
                    }
                }
                first = false;
            },
            None => {},
        }
        i = i + 1;
    }
    assert(apps@.take(n as int) =~= apps@);
    r
}

fn role_item(f: &DemoFixture, zh: bool, role: &DemoRole) -> (item: Item)
    ensures
        item_view(item) == role_view(*f, zh, *role),
{
    let mut role_key = owned("role.");
    role_key.append(role.role.as_str());
    let mut id = owned("prototype.configure.");
    id.append(role.role.as_str());
    let detail = match &role.apps {
        Some(apps) => join_apps(apps),
        None => String::new(),
    };
    Item {
        id,
        title: label_exec(&f.labels, role_key.as_str(), zh, role.role.as_str()),
        detail,
        shortcut: String::new(),
        keywords: keywords_exec(&f.labels, role_key.as_str()),
        disabled: false,
        submenu: None,
    }
}

fn roles_menu(f: &DemoFixture, zh: bool) -> (m: Menu)
    ensures
        menu_view(m) == roles_menu_view(*f, zh),
{
    let n = f.roles.len();
    let mut items: Vec<Item> = Vec::new();
    let mut i: usize = 0;
    while i < n
        invariant
            n == f.roles@.len(),
            i <= n,
            items@.len() == i,
            item_views(items@) == role_views(*f, zh, f.roles@.take(i as int)),
        decreases n - i,
    {
        let item = role_item(f, zh, &f.roles[i]);
        let ghost before = items@;
        items.push(item);
        proof {
            assert(f.roles@.take(i + 1) =~= f.roles@.take(i as int).push(f.roles@[i as int]));
            assert forall|j: int| 0 <= j < items@.len() implies #[trigger] item_views(items@)[j]
                == role_views(*f, zh, f.roles@.take(i + 1))[j] by {
                if j < i {
                    assert(items@[j] == before[j]);
                    assert(item_views(before)[j] == role_views(*f, zh, f.roles@.take(i as int))[j]);
                    assert(f.roles@.take(i as int)[j] == f.roles@.take(i + 1)[j]);
                } else {
                    assert(f.roles@.take(i + 1)[j] == f.roles@[i as int]);
                }
            }
            assert(item_views(items@) =~= role_views(*f, zh, f.roles@.take(i + 1)));
        }
        i = i + 1;
    }
    assert(f.roles@.take(n as int) =~= f.roles@);
    Menu { title: label_exec(&f.labels, "menu.roles", zh, "Roles"), items, quick: false }
}

proof fn lemma_holds_insert(
    m0: Seq<(Seq<char>, Menu)>,
    m1: Seq<(Seq<char>, Menu)>,
    spec: Map<Seq<char>, MenuView>,
    name: Seq<char>,
    menu: Menu,
)
    requires
        holds(m0, spec),
        lookup(m1, name) == Some(menu),
        forall|k: Seq<char>| k != name ==> lookup(m1, k) == lookup(m0, k),
        forall|k: Seq<char>| has_name(m1, k) <==> (has_name(m0, k) || k == name),
    ensures
        holds(m1, spec.insert(name, menu_view(menu))),
{
    let s1 = spec.insert(name, menu_view(menu));
    assert forall|k: Seq<char>| #[trigger] s1.dom().contains(k) implies lookup(m1, k) is Some
        && menu_view(lookup(m1, k)->0) == s1[k] by {
        if k != name {
            assert(spec.dom().contains(k));
        }
    }
}

/// The demo request: every fixture menu under `menu.<name>` (quick, titled by
/// its label), then the roles menu `menu.roles` (not quick); opening on
/// `menu.config`. Labels are taken in Chinese when `zh`.
pub fn demo_request(zh: bool, f: &DemoFixture) -> (r: Request)
    ensures
        r.request_id@ == "demo"@,
        r.root@ == "menu.config"@,
        holds(r.menus@, demo_menus(*f, zh)),
        is_demo(r, zh, *f),
{
    let mut menus = MenuMap::new();
    let n = f.menus.len();
    let mut i: usize = 0;
    proof {
        assert forall|k: Seq<char>| #[trigger] has_name(menus@, k) <==> fixture_menus(*f, zh, 0).dom().contains(k) by {}
    }
    while i < n
        invariant
            n == f.menus@.len(),
            i <= n,
            holds(menus@, fixture_menus(*f, zh, i as int)),
        decreases n - i,
    {
        let (id, menu) = fixture_menu(f, zh, &f.menus[i]);
        let ghost m0 = menus@;
        let ghost mv = menu;
        let ghost key = id@;
        menus.insert(id, menu);
        proof {
            lemma_holds_insert(m0, menus@, fixture_menus(*f, zh, i as int), key, mv);
        }
        i = i + 1;
    }
    let roles = roles_menu(f, zh);
    let ghost m0 = menus@;
    let ghost rv = roles;
    let key = owned("menu.roles");
    menus.insert(key, roles);
    proof {
        lemma_holds_insert(m0, menus@, fixture_menus(*f, zh, n as int), "menu.roles"@, rv);
    }
    Request { request_id: owned("demo"), root: owned("menu.config"), menus }
}

/// `r` is the demo request built from `f`.
pub open spec fn is_demo(r: Request, zh: bool, f: DemoFixture) -> bool {
    &&& r.request_id@ == "demo"@
    &&& r.root@ == "menu.config"@
    &&& holds(r.menus@, demo_menus(f, zh))
}

// ---------------------------------------------------------------------------
// The fixture file

/// A JSON value; numbers are kept only as such.
#[derive(Debug)]
pub enum Json {
    Null,
    Bool(bool),
    Number,
    Text(String),
    Array(Vec<Json>),
    Object(Vec<(String, Json)>),
}

#[verifier::external_type_specification]
#[verifier::external_body]
pub struct ExValue(serde_json::Value);

/// The JSON value `serde_json` parses from this text (`None`: not JSON),
/// object members in its map's key order.
pub uninterp spec fn json_of(text: Seq<char>) -> Option<Json>;

/// Converts a parsed `serde_json::Value` variant by variant (a number keeps
/// no value); only `parse_json`'s contract is claimed of the two together.
#[verifier::external_body]
fn json_from_value(v: serde_json::Value) -> Json {
    match v {
        serde_json::Value::Null => Json::Null,
        serde_json::Value::Bool(b) => Json::Bool(b),
        serde_json::Value::Number(_) => Json::Number,
        serde_json::Value::String(s) => Json::Text(s),
        serde_json::Value::Array(a) => Json::Array(a.into_iter().map(json_from_value).collect()),
        serde_json::Value::Object(o) => Json::Object(o.into_iter().map(|(k, v)| (k, json_from_value(v))).collect()),
    }
}

/// Calls `serde_json::from_str` into a `serde_json::Value`. Claimed: the
/// result is `json_of` of the text; what the JSON grammar accepts is not stated.
#[verifier::external_body]
fn parse_json(text: &str) -> (r: Option<Json>)
    ensures
        r == json_of(text@),
{
    serde_json::from_str::<serde_json::Value>(text).ok().map(json_from_value)
}

/// The member `key` of an object, first match; `Null` when absent or not an object.
pub open spec fn field_from(o: Seq<(String, Json)>, key: Seq<char>, i: int) -> Json
    decreases o.len() - i,
{
    if i < 0 || i >= o.len() {
        Json::Null
    } else if o[i].0@ == key {
        o[i].1
    } else {
        field_from(o, key, i + 1)
    }
}

pub open spec fn field(j: Json, key: Seq<char>) -> Json {
    match j {
        Json::Object(o) => field_from(o@, key, 0),
        _ => Json::Null,
    }
}

/// Element `i` of an array; `Null` when absent or not an array.
pub open spec fn at(j: Json, i: int) -> Json {
    match j {
        Json::Array(a) => if 0 <= i < a@.len() {
            a@[i]
        } else {
            Json::Null
        },
        _ => Json::Null,
    }
}

pub open spec fn text_of(j: Json) -> Option<Seq<char>> {
    match j {
        Json::Text(s) => Some(s@),
        _ => None,
    }
}

pub open spec fn members(j: Json) -> Option<Seq<(String, Json)>> {
    match j {
        Json::Object(o) => Some(o@),
        _ => None,
    }
}

pub open spec fn elements(j: Json) -> Option<Seq<Json>> {
    match j {
        Json::Array(a) => Some(a@),
        _ => None,
    }
}

/// A menu entry is an array whose first three elements are strings:
/// shortcut, fallback title, action.
pub open spec fn entry_ok(e: Json) -> bool {
    text_of(at(e, 0)) is Some && text_of(at(e, 1)) is Some && text_of(at(e, 2)) is Some
}

pub open spec fn entry_is(d: DemoEntry, e: Json) -> bool {
    &&& text_of(at(e, 0)) == Some(d.shortcut@)
    &&& text_of(at(e, 1)) == Some(d.title@)
    &&& text_of(at(e, 2)) == Some(d.action@)
}

/// A fixture menu is an array of entries.
pub open spec fn menu_ok(v: Json) -> bool {
    elements(v) matches Some(es) && forall|i: int| 0 <= i < es.len() ==> entry_ok(#[trigger] es[i])
}

pub open spec fn menu_is(d: DemoMenu, name: String, v: Json) -> bool {
    &&& d.name@ == name@
    &&& elements(v) matches Some(es)
    &&& d.entries@.len() == es.len()
    &&& forall|i: int| 0 <= i < es.len() ==> entry_is(#[trigger] d.entries@[i], es[i])
}

/// A role keeps the strings of its `apps` array, when it has one.
pub open spec fn role_is(d: DemoRole, name: String, v: Json) -> bool {
    &&& d.role@ == name@
    &&& match elements(field(v, "apps"@)) {
        None => d.apps is None,
        Some(a) => d.apps matches Some(x) && strings(x@) == texts(a),
    }
}

/// The strings among `a`, in order.
pub open spec fn texts(a: Seq<Json>) -> Seq<Seq<char>>
    decreases a.len(),
{
    if a.len() == 0 {
        seq![]
    } else {
        let t = texts(a.drop_last());
        match text_of(a.last()) {
            Some(s) => t.push(s),
            None => t,
        }
    }
}

/// A label is an array of exactly two strings: English, then Chinese.
pub open spec fn label_ok(v: Json) -> bool {
    elements(v) matches Some(p) && p.len() == 2 && text_of(p[0]) is Some && text_of(p[1]) is Some
}

pub open spec fn label_is(d: DemoLabel, id: String, v: Json) -> bool {
    &&& d.id@ == id@
    &&& elements(v) matches Some(p)
    &&& text_of(p[0]) == Some(d.en@)
    &&& text_of(p[1]) == Some(d.zh@)
}

/// The fixture's shape: `keys.menus` an object of menus, `keys.roles` an
/// object, `labels` an object of labels.
pub open spec fn fixture_ok(j: Json) -> bool {
    let keys = field(j, "keys"@);
    &&& members(field(keys, "menus"@)) matches Some(ms) && forall|i: int|
        0 <= i < ms.len() ==> menu_ok(#[trigger] ms[i].1)
    &&& members(field(keys, "roles"@)) is Some
    &&& members(field(j, "labels"@)) matches Some(ls) && forall|i: int|
        0 <= i < ls.len() ==> label_ok(#[trigger] ls[i].1)
}

/// `f` holds the fixture `j`: its menus, roles and labels, member by member, in order.
pub open spec fn fixture_is(f: DemoFixture, j: Json) -> bool {
    let keys = field(j, "keys"@);
    let ms = members(field(keys, "menus"@))->0;
    let rs = members(field(keys, "roles"@))->0;
    let ls = members(field(j, "labels"@))->0;
    &&& f.menus@.len() == ms.len()
    &&& forall|i: int| 0 <= i < ms.len() ==> menu_is(#[trigger] f.menus@[i], ms[i].0, ms[i].1)
    &&& f.roles@.len() == rs.len()
    &&& forall|i: int| 0 <= i < rs.len() ==> role_is(#[trigger] f.roles@[i], rs[i].0, rs[i].1)
    &&& f.labels@.len() == ls.len()
    &&& forall|i: int| 0 <= i < ls.len() ==> label_is(#[trigger] f.labels@[i], ls[i].0, ls[i].1)
}

fn get<'a>(j: &'a Json, key: &str) -> (r: Option<&'a Json>)
    ensures
        match r {
            Some(x) => field(*j, key@) == *x,
            None => field(*j, key@) == Json::Null,
        },
{
    match j {
        Json::Object(o) => {
            let n = o.len();
            let mut i: usize = 0;
            while i < n
                invariant
                    n == o@.len(),
                    i <= n,
                    field(*j, key@) == field_from(o@, key@, 0),
                    field_from(o@, key@, 0) == field_from(o@, key@, i as int),
                decreases n - i,
            {
                if same_text(o[i].0.as_str(), key) {
                    return Some(&o[i].1);
                }
                i = i + 1;
            }
            None
        },
        _ => None,
    }
}

fn text(j: &Json) -> (r: Option<String>)
    ensures
        opt_view(r) == text_of(*j),
{
    match j {
        Json::Text(s) => Some(s.clone()),
        _ => None,
    }
}

fn entry_of(e: &Json) -> (r: Option<DemoEntry>)
    ensures
        r is Some <==> entry_ok(*e),
        r matches Some(d) ==> entry_is(d, *e),
{
    match e {
        Json::Array(a) => {
            if a.len() < 3 {
                return None;
            }
            let shortcut = match text(&a[0]) {
                Some(t) => t,
                None => return None,
            };
            let title = match text(&a[1]) {
                Some(t) => t,
                None => return None,
            };
            let action = match text(&a[2]) {
                Some(t) => t,
                None => return None,
            };
            Some(DemoEntry { shortcut, title, action })
        },
        _ => None,
    }
}

fn menu_of(name: &String, v: &Json) -> (r: Option<DemoMenu>)
    ensures
        r is Some <==> menu_ok(*v),
        r matches Some(d) ==> menu_is(d, *name, *v),
{
    match v {
        Json::Array(es) => {
            let n = es.len();
            let mut entries: Vec<DemoEntry> = Vec::new();
            let mut i: usize = 0;
            while i < n
                invariant
                    n == es@.len(),
                    elements(*v) == Some(es@),
                    i <= n,
                    entries@.len() == i,
                    forall|t: int| 0 <= t < i ==> entry_ok(#[trigger] es@[t]),
                    forall|t: int| 0 <= t < i ==> entry_is(#[trigger] entries@[t], es@[t]),
                decreases n - i,
            {
                match entry_of(&es[i]) {
                    Some(d) => entries.push(d),
                    None => {
                        assert(!entry_ok(es@[i as int]));
                        assert(elements(*v)->0[i as int] == es@[i as int]);
                        return None;
                    },
                }
                i = i + 1;
            }
            Some(DemoMenu { name: name.clone(), entries })
        },
        _ => None,
    }
}

fn apps_of(a: &Vec<Json>) -> (r: Vec<Option<String>>)
    ensures
        strings(r@) == texts(a@),
{
    let n = a.len();
    let mut r: Vec<Option<String>> = Vec::new();
    let mut i: usize = 0;
    while i < n
        invariant
            n == a@.len(),
            i <= n,
            strings(r@) == texts(a@.take(i as int)),
        decreases n - i,
    {
        let ghost before = r@;
        let t = text(&a[i]);
        assert(a@.take(i + 1).drop_last() =~= a@.take(i as int));
        match t {
            Some(s) => {
                r.push(Some(s));
                assert(r@.drop_last() =~= before);
            },
            None => {
                r.push(None);
                assert(r@.drop_last() =~= before);
            },
        }
        i = i + 1;
    }
    assert(a@.take(n as int) =~= a@);
    r
}

fn role_of(name: &String, v: &Json) -> (r: DemoRole)
    ensures
        role_is(r, *name, *v),
{
    let apps = match get(v, "apps") {
        Some(Json::Array(a)) => Some(apps_of(a)),
        _ => None,
    };
    DemoRole { role: name.clone(), apps }
}

fn label_of(id: &String, v: &Json) -> (r: Option<DemoLabel>)
    ensures
        r is Some <==> label_ok(*v),
        r matches Some(d) ==> label_is(d, *id, *v),
{
    match v {
        Json::Array(p) => {
            if p.len() != 2 {
                return None;
            }
            let en = match text(&p[0]) {
                Some(t) => t,
                None => return None,
            };
            let zh = match text(&p[1]) {
                Some(t) => t,
                None => return None,
            };
            Some(DemoLabel { id: id.clone(), en, zh })
        },
        _ => None,
    }
}

/// Reads a parsed fixture: `None` exactly when it does not have the fixture's shape.
pub fn fixture_of(j: &Json) -> (r: Option<DemoFixture>)
    ensures
        r is Some <==> fixture_ok(*j),
        r matches Some(f) ==> fixture_is(f, *j),
{
    let keys = match get(j, "keys") {
        Some(k) => k,
        None => return None,
    };
    let ms = match get(keys, "menus") {
        Some(Json::Object(o)) => o,
        _ => return None,
    };
    let rs = match get(keys, "roles") {
        Some(Json::Object(o)) => o,
        _ => return None,
    };
    let ls = match get(j, "labels") {
        Some(Json::Object(o)) => o,
        _ => return None,
    };
    let mut menus: Vec<DemoMenu> = Vec::new();
    let mut i: usize = 0;
    while i < ms.len()
        invariant
            members(field(field(*j, "keys"@), "menus"@)) == Some(ms@),
            members(field(field(*j, "keys"@), "roles"@)) == Some(rs@),
            members(field(*j, "labels"@)) == Some(ls@),
            i <= ms@.len(),
            menus@.len() == i,
            forall|t: int| 0 <= t < i ==> menu_ok(#[trigger] ms@[t].1),
            forall|t: int| 0 <= t < i ==> menu_is(#[trigger] menus@[t], ms@[t].0, ms@[t].1),
        decreases ms@.len() - i,
    {
        match menu_of(&ms[i].0, &ms[i].1) {
            Some(m) => menus.push(m),
            None => {
                assert(!menu_ok(ms@[i as int].1));
                assert(members(field(field(*j, "keys"@), "menus"@))->0[i as int] == ms@[i as int]);
                return None;
            },
        }
        i = i + 1;
    }
    let mut roles: Vec<DemoRole> = Vec::new();
    let mut i: usize = 0;
    while i < rs.len()
        invariant
            members(field(field(*j, "keys"@), "menus"@)) == Some(ms@),
            members(field(field(*j, "keys"@), "roles"@)) == Some(rs@),
            members(field(*j, "labels"@)) == Some(ls@),
            forall|t: int| 0 <= t < ms@.len() ==> menu_ok(#[trigger] ms@[t].1),
            menus@.len() == ms@.len(),
            forall|t: int| 0 <= t < ms@.len() ==> menu_is(#[trigger] menus@[t], ms@[t].0, ms@[t].1),
            i <= rs@.len(),
            roles@.len() == i,
            forall|t: int| 0 <= t < i ==> role_is(#[trigger] roles@[t], rs@[t].0, rs@[t].1),
        decreases rs@.len() - i,
    {
        roles.push(role_of(&rs[i].0, &rs[i].1));
        i = i + 1;
    }
    let mut labels: Vec<DemoLabel> = Vec::new();
    let mut i: usize = 0;
    while i < ls.len()
        invariant
            members(field(field(*j, "keys"@), "menus"@)) == Some(ms@),
            members(field(field(*j, "keys"@), "roles"@)) == Some(rs@),
            members(field(*j, "labels"@)) == Some(ls@),
            forall|t: int| 0 <= t < ms@.len() ==> menu_ok(#[trigger] ms@[t].1),
            menus@.len() == ms@.len(),
            forall|t: int| 0 <= t < ms@.len() ==> menu_is(#[trigger] menus@[t], ms@[t].0, ms@[t].1),
            roles@.len() == rs@.len(),
            forall|t: int| 0 <= t < rs@.len() ==> role_is(#[trigger] roles@[t], rs@[t].0, rs@[t].1),
            i <= ls@.len(),
            labels@.len() == i,
            forall|t: int| 0 <= t < i ==> label_ok(#[trigger] ls@[t].1),
            forall|t: int| 0 <= t < i ==> label_is(#[trigger] labels@[t], ls@[t].0, ls@[t].1),
        decreases ls@.len() - i,
    {
        match label_of(&ls[i].0, &ls[i].1) {
            Some(l) => labels.push(l),
            None => {
                assert(!label_ok(ls@[i as int].1));
                assert(members(field(*j, "labels"@))->0[i as int] == ls@[i as int]);
                return None;
            },
        }
        i = i + 1;
    }
    Some(DemoFixture { menus, roles, labels })
}

/// The demo request from the fixture's text: `None` exactly when the text is
/// not JSON or does not have the fixture's shape.
pub fn demo_from_text(zh: bool, text: &str) -> (r: Option<Request>)
    ensures
        r is Some <==> (json_of(text@) matches Some(j) && fixture_ok(j)),
        r matches Some(req) ==> exists|f: DemoFixture|
            #[trigger] fixture_is(f, json_of(text@)->0) && is_demo(req, zh, f),
{
    let j = match parse_json(text) {
        Some(j) => j,
        None => return None,
    };
    match fixture_of(&j) {
        Some(f) => {
            let r = demo_request(zh, &f);
            assert(fixture_is(f, json_of(text@)->0) && is_demo(r, zh, f));
            Some(r)
        },
        None => None,
    }
}

} // verus!
