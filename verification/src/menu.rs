//! Menus, items, the keyed menu collection and request validation.
use vstd::prelude::*;
use crate::text::{chars_of, rank_text, same_text, text_less, Rank, lemma_text_less_trichotomy,
    lemma_text_less_transitive, lemma_text_less_irreflexive};

verus! {

/// Most menus one request may hold.
pub const MAX_MENUS: usize = 64;

/// Most items one request may hold, over all its menus.
pub const MAX_ITEMS: usize = 4096;

/// One row of a menu. `id` is what a leaf hands back to the caller;
/// `submenu` names another menu of the same request.
#[derive(Debug)]
pub struct Item {
    pub id: String,
    pub title: String,
    pub detail: String,
    pub shortcut: String,
    pub keywords: String,
    pub disabled: bool,
    pub submenu: Option<String>,
}

/// A titled list of items; `quick` menus take bare-letter shortcuts.
#[derive(Debug)]
pub struct Menu {
    pub title: String,
    pub items: Vec<Item>,
    pub quick: bool,
}

/// The text of an optional string.
pub open spec fn opt_view(s: Option<String>) -> Option<Seq<char>> {
    match s {
        Some(t) => Some(t@),
        None => None,
    }
}

impl Clone for Item {
    fn clone(&self) -> (c: Self)
        ensures
            c == *self,
    {
        Item {
            id: self.id.clone(),
            title: self.title.clone(),
            detail: self.detail.clone(),
            shortcut: self.shortcut.clone(),
            keywords: self.keywords.clone(),
            disabled: self.disabled,
            submenu: match &self.submenu {
                Some(s) => Some(s.clone()),
                None => None,
            },
        }
    }
}

/// The same title, items and quick flag.
pub open spec fn same_menu(a: Menu, b: Menu) -> bool {
    a.title == b.title && a.items@ == b.items@ && a.quick == b.quick
}

impl Clone for Menu {
    fn clone(&self) -> (c: Self)
        ensures
            same_menu(c, *self),
    {
        let n = self.items.len();
        let mut items: Vec<Item> = Vec::new();
        let mut i: usize = 0;
        while i < n
            invariant
                n == self.items@.len(),
                i <= n,
                items@ == self.items@.take(i as int),
            decreases n - i,
        {
            items.push(self.items[i].clone());
            assert(items@ =~= self.items@.take(i + 1));
            i = i + 1;
        }
        assert(self.items@.take(n as int) =~= self.items@);
        Menu { title: self.title.clone(), items, quick: self.quick }
    }
}

/// Menus keyed by name, kept in increasing code-point order of their names,
/// each name at most once (the behaviour of an ordered map).
#[derive(Debug)]
pub struct MenuMap {
    entries: Vec<(String, Menu)>,
}

/// The names of a list of entries.
pub open spec fn names_of(e: Seq<(Seq<char>, Menu)>) -> Seq<Seq<char>> {
    e.map_values(|p: (Seq<char>, Menu)| p.0)
}

/// The names strictly increase.
pub open spec fn increasing(e: Seq<(Seq<char>, Menu)>) -> bool {
    forall|i: int, j: int| 0 <= i < j < e.len() ==> text_less(#[trigger] e[i].0, #[trigger] e[j].0)
}

/// The menu stored under `name` in a list of entries, searching from the front.
pub open spec fn lookup(e: Seq<(Seq<char>, Menu)>, name: Seq<char>) -> Option<Menu>
    decreases e.len(),
{
    if e.len() == 0 {
        None
    } else if e[0].0 == name {
        Some(e[0].1)
    } else {
        lookup(e.drop_first(), name)
    }
}

/// Whether some entry is named `name`.
pub open spec fn has_name(e: Seq<(Seq<char>, Menu)>, name: Seq<char>) -> bool {
    exists|i: int| 0 <= i < e.len() && #[trigger] e[i].0 == name
}

pub proof fn lemma_lookup_found(e: Seq<(Seq<char>, Menu)>, name: Seq<char>, i: int)
    requires
        increasing(e),
        0 <= i < e.len(),
        e[i].0 == name,
    ensures
        lookup(e, name) == Some(e[i].1),
    decreases e.len(),
{
    if i > 0 {
        lemma_text_less_irreflexive(name);
        assert(text_less(e[0].0, e[i].0));
        lemma_lookup_found(e.drop_first(), name, i - 1);
    }
}

pub proof fn lemma_lookup_none(e: Seq<(Seq<char>, Menu)>, name: Seq<char>)
    ensures
        lookup(e, name) is None <==> !has_name(e, name),
        lookup(e, name) is Some ==> has_name(e, name),
    decreases e.len(),
{
    if e.len() > 0 {
        lemma_lookup_none(e.drop_first(), name);
        if has_name(e.drop_first(), name) {
            let i = choose|i: int| 0 <= i < e.drop_first().len() && #[trigger] e.drop_first()[i].0 == name;
            assert(e[i + 1].0 == name);
        }
        if has_name(e, name) && e[0].0 != name {
            let i = choose|i: int| 0 <= i < e.len() && #[trigger] e[i].0 == name;
            assert(e.drop_first()[i - 1].0 == name);
        }
    }
}

impl View for MenuMap {
    type V = Seq<(Seq<char>, Menu)>;

    closed spec fn view(&self) -> Seq<(Seq<char>, Menu)> {
        self.entries@.map_values(|p: (String, Menu)| (p.0@, p.1))
    }
}

impl Clone for MenuMap {
    fn clone(&self) -> (c: Self)
        ensures
            c@.len() == self@.len(),
            forall|i: int| 0 <= i < self@.len() ==> (#[trigger] c@[i]).0 == self@[i].0 && same_menu(c@[i].1, self@[i].1),
            increasing(c@),
    {
        proof {
            use_type_invariant(self);
        }
        let n = self.entries.len();
        let mut entries: Vec<(String, Menu)> = Vec::new();
        let mut i: usize = 0;
        while i < n
            invariant
                n == self.entries.len(),
                i <= n,
                entries@.len() == i,
                forall|t: int| 0 <= t < i ==> (#[trigger] entries@[t]).0@ == self.entries@[t].0@
                    && same_menu(entries@[t].1, self.entries@[t].1),
            decreases n - i,
        {
            let name = self.entries[i].0.clone();
            let menu = self.entries[i].1.clone();
            entries.push((name, menu));
            i = i + 1;
        }
        let ghost e = entries@.map_values(|p: (String, Menu)| (p.0@, p.1));
        assert(names_of(e) =~= names_of(self@));
        assert forall|a: int, b: int| 0 <= a < b < e.len() implies text_less(#[trigger] e[a].0, #[trigger] e[b].0) by {
            assert(names_of(e)[a] == names_of(self@)[a]);
            assert(names_of(e)[b] == names_of(self@)[b]);
        }
        MenuMap { entries }
    }
}

impl MenuMap {
    #[verifier::type_invariant]
    spec fn ordered(&self) -> bool {
        increasing(self@)
    }

    /// The menu stored under `name`.
    pub open spec fn menu(&self, name: Seq<char>) -> Option<Menu> {
        lookup(self@, name)
    }

    /// An empty collection.
    pub fn new() -> (m: Self)
        ensures
            m@ == Seq::<(Seq<char>, Menu)>::empty(),
            increasing(m@),
    {
        let m = MenuMap { entries: Vec::new() };
        assert(m@ =~= Seq::<(Seq<char>, Menu)>::empty());
        m
    }

    /// Number of menus.
    pub fn len(&self) -> (n: usize)
        ensures
            n == self@.len(),
            increasing(self@),
    {
        proof {
            use_type_invariant(self);
        }
        self.entries.len()
    }

    /// The name and menu at position `i` in name order.
    pub fn entry(&self, i: usize) -> (r: (&String, &Menu))
        requires
            i < self@.len(),
        ensures
            r.0@ == self@[i as int].0,
            *r.1 == self@[i as int].1,
    {
        let p = &self.entries[i];
        (&p.0, &p.1)
    }

    /// The menu named `name`.
    pub fn get(&self, name: &str) -> (r: Option<&Menu>)
        ensures
            match r {
                Some(m) => self.menu(name@) == Some(*m),
                None => self.menu(name@) is None,
            },
    {
        proof {
            use_type_invariant(self);
        }
        let n = self.entries.len();
        let mut i: usize = 0;
        while i < n
            invariant
                n == self.entries.len(),
                i <= n,
                increasing(self@),
                forall|t: int| 0 <= t < i ==> self@[t].0 != name@,
            decreases n - i,
        {
            if same_text(self.entries[i].0.as_str(), name) {
                proof {
                    lemma_lookup_found(self@, name@, i as int);
                }
                return Some(&self.entries[i].1);
            }
            i = i + 1;
        }
        proof {
            lemma_lookup_none(self@, name@);
        }
        None
    }

    /// Whether a menu is named `name`.
    pub fn contains_key(&self, name: &str) -> (b: bool)
        ensures
            b == self.menu(name@) is Some,
    {
        match self.get(name) {
            Some(_) => true,
            None => false,
        }
    }

    /// Stores `menu` under `name`, replacing and returning a menu stored there before.
    pub fn insert(&mut self, name: String, menu: Menu) -> (prev: Option<Menu>)
        ensures
            prev == lookup(old(self)@, name@),
            lookup(final(self)@, name@) == Some(menu),
            forall|k: Seq<char>| k != name@ ==> lookup(final(self)@, k) == lookup(old(self)@, k),
            forall|k: Seq<char>| has_name(final(self)@, k) <==> (has_name(old(self)@, k) || k == name@),
            increasing(final(self)@),
    {
        proof {
            use_type_invariant(&*self);
        }
        let ghost e0 = self@;
        let mut entries: Vec<(String, Menu)> = Vec::new();
        std::mem::swap(&mut entries, &mut self.entries);
        let ghost v0 = entries@;
        assert(e0 == v0.map_values(|p: (String, Menu)| (p.0@, p.1)));
        let key = chars_of(name.as_str());
        let n = entries.len();
        let mut i: usize = 0;
        while i < n
            invariant
                n == entries.len(),
                entries@ == v0,
                e0 == old(self)@,
                e0 == v0.map_values(|p: (String, Menu)| (p.0@, p.1)),
                key@ == name@,
                increasing(e0),
                i <= n,
                forall|t: int| 0 <= t < i ==> text_less(#[trigger] e0[t].0, name@),
            decreases n - i,
        {
            let here = chars_of(entries[i].0.as_str());
            match rank_text(&here, &key) {
                Rank::Before => {
                    i = i + 1;
                },
                Rank::Same => {
                    assert(e0[i as int].1 == v0[i as int].1);
                    let old_entry = entries.remove(i);
                    assert(old_entry.1 == e0[i as int].1);
                    entries.insert(i, (name, menu));
                    let ghost e1 = entries@.map_values(|p: (String, Menu)| (p.0@, p.1));
                    proof {
                        assert(e0[i as int].0 == v0[i as int].0@);
                        assert(e0[i as int].0 == name@);
                        lemma_lookup_found(e0, name@, i as int);
                        assert(e1 =~= e0.update(i as int, (name@, menu)));
                        assert forall|a: int, b: int| 0 <= a < b < e1.len() implies text_less(
                            #[trigger] e1[a].0, #[trigger] e1[b].0) by {
                            assert(text_less(e0[a].0, e0[b].0));
                        }
                        lemma_lookup_found(e1, name@, i as int);
                        lemma_same_names_agree(e0, e1, i as int);
                    }
                    self.entries = entries;
                    return Some(old_entry.1);
                },
                Rank::After => {
                    proof {
                        assert forall|t: int| i <= t < n implies text_less(name@, #[trigger] e0[t].0) by {
                            if t > i {
                                assert(text_less(e0[i as int].0, e0[t].0));
                                lemma_text_less_transitive(name@, e0[i as int].0, e0[t].0);
                            }
                        }
                    }
                    entries.insert(i, (name, menu));
                    proof {
                        let e1 = entries@.map_values(|p: (String, Menu)| (p.0@, p.1));
                        assert(e1 =~= e0.insert(i as int, (name@, menu)));
                        lemma_inserted(e0, e1, i as int, name@, menu);
                        assert(lookup(e0, name@) is None);
                    }
                    self.entries = entries;
                    return None;
                },
            }
        }
        entries.push((name, menu));
        proof {
            let e1 = entries@.map_values(|p: (String, Menu)| (p.0@, p.1));
            assert(e1 =~= e0.insert(n as int, (name@, menu)));
            lemma_inserted(e0, e1, n as int, name@, menu);
        }
        self.entries = entries;
        None
    }
}

proof fn lemma_same_names_agree(e0: Seq<(Seq<char>, Menu)>, e1: Seq<(Seq<char>, Menu)>, i: int)
    requires
        increasing(e0),
        increasing(e1),
        0 <= i < e0.len(),
        e1 == e0.update(i, (e0[i].0, e1[i].1)),
    ensures
        forall|k: Seq<char>| k != e0[i].0 ==> lookup(e1, k) == lookup(e0, k),
        forall|k: Seq<char>| has_name(e1, k) <==> has_name(e0, k),
{
    assert forall|k: Seq<char>| k != e0[i].0 implies lookup(e1, k) == lookup(e0, k) by {
        lemma_lookup_none(e0, k);
        lemma_lookup_none(e1, k);
        if has_name(e0, k) {
            let j = choose|j: int| 0 <= j < e0.len() && #[trigger] e0[j].0 == k;
            lemma_lookup_found(e0, k, j);
            assert(e1[j].0 == k);
            lemma_lookup_found(e1, k, j);
        } else if has_name(e1, k) {
            let j = choose|j: int| 0 <= j < e1.len() && #[trigger] e1[j].0 == k;
            assert(e0[j].0 == k);
        }
    }
    assert forall|k: Seq<char>| has_name(e1, k) <==> has_name(e0, k) by {
        if has_name(e0, k) {
            let j = choose|j: int| 0 <= j < e0.len() && #[trigger] e0[j].0 == k;
            assert(e1[j].0 == k);
        }
        if has_name(e1, k) {
            let j = choose|j: int| 0 <= j < e1.len() && #[trigger] e1[j].0 == k;
            assert(e0[j].0 == k);
        }
    }
}

proof fn lemma_inserted(e0: Seq<(Seq<char>, Menu)>, e1: Seq<(Seq<char>, Menu)>, i: int, name: Seq<char>, menu: Menu)
    requires
        increasing(e0),
        0 <= i <= e0.len(),
        forall|t: int| 0 <= t < i ==> text_less(#[trigger] e0[t].0, name),
        forall|t: int| i <= t < e0.len() ==> text_less(name, #[trigger] e0[t].0),
        e1 == e0.insert(i, (name, menu)),
    ensures
        increasing(e1),
        lookup(e1, name) == Some(menu),
        lookup(e0, name) is None,
        forall|k: Seq<char>| k != name ==> lookup(e1, k) == lookup(e0, k),
        forall|k: Seq<char>| has_name(e1, k) <==> (has_name(e0, k) || k == name),
{
    assert forall|a: int, b: int| 0 <= a < b < e1.len() implies text_less(
        #[trigger] e1[a].0, #[trigger] e1[b].0) by {
        if b < i {
            assert(text_less(e0[a].0, e0[b].0));
        } else if b == i {
        } else if a < i {
            lemma_text_less_transitive(e0[a].0, name, e0[b - 1].0);
        } else if a == i {
        } else {
            assert(text_less(e0[a - 1].0, e0[b - 1].0));
        }
    }
    assert(e1[i].0 == name);
    lemma_lookup_found(e1, name, i);
    lemma_lookup_none(e0, name);
    if has_name(e0, name) {
        let j = choose|j: int| 0 <= j < e0.len() && #[trigger] e0[j].0 == name;
        lemma_text_less_irreflexive(name);
        if j < i {
            assert(text_less(e0[j].0, name));
        } else {
            assert(text_less(name, e0[j].0));
        }
    }
    assert forall|k: Seq<char>| k != name implies lookup(e1, k) == lookup(e0, k) by {
        lemma_lookup_none(e0, k);
        lemma_lookup_none(e1, k);
        if has_name(e0, k) {
            let j = choose|j: int| 0 <= j < e0.len() && #[trigger] e0[j].0 == k;
            lemma_lookup_found(e0, k, j);
            if j < i {
                assert(e1[j].0 == k);
                lemma_lookup_found(e1, k, j);
            } else {
                assert(e1[j + 1].0 == k);
                lemma_lookup_found(e1, k, j + 1);
            }
        } else if has_name(e1, k) {
            let j = choose|j: int| 0 <= j < e1.len() && #[trigger] e1[j].0 == k;
            if j < i {
                assert(e0[j].0 == k);
            } else if j > i {
                assert(e0[j - 1].0 == k);
            }
        }
    }
    assert forall|k: Seq<char>| has_name(e1, k) <==> (has_name(e0, k) || k == name) by {
        if has_name(e0, k) {
            let j = choose|j: int| 0 <= j < e0.len() && #[trigger] e0[j].0 == k;
            if j < i {
                assert(e1[j].0 == k);
            } else {
                assert(e1[j + 1].0 == k);
            }
        }
        if has_name(e1, k) {
            let j = choose|j: int| 0 <= j < e1.len() && #[trigger] e1[j].0 == k;
            if j < i {
                assert(e0[j].0 == k);
            } else if j > i {
                assert(e0[j - 1].0 == k);
            }
        }
    }
}

/// A palette request: the menus it offers and the one to open first.
#[derive(Clone, Debug)]
pub struct Request {
    pub request_id: String,
    pub root: String,
    pub menus: MenuMap,
}

pub open spec fn missing_root_error() -> &'static str {
    "missing request_id or root menu"
}

pub open spec fn too_large_error() -> &'static str {
    "too many menus or items"
}

pub open spec fn bad_id_error() -> &'static str {
    "item IDs must be nonempty and unique within each menu"
}

pub open spec fn unknown_submenu_error() -> &'static str {
    "unknown submenu"
}

/// The fault of item `j` of a menu, if any: an empty or repeated id first,
/// then a submenu that names no menu of the request.
pub open spec fn item_fault(menus: Seq<(Seq<char>, Menu)>, items: Seq<Item>, j: int) -> Option<&'static str> {
    let it = items[j];
    if it.id@.len() == 0 || exists|t: int| 0 <= t < j && #[trigger] items[t].id@ == it.id@ {
        Some(bad_id_error())
    } else if opt_view(it.submenu) matches Some(s) && lookup(menus, s) is None {
        Some(unknown_submenu_error())
    } else {
        None
    }
}

/// The first fault among the first `n` items.
pub open spec fn items_fault(menus: Seq<(Seq<char>, Menu)>, items: Seq<Item>, n: int) -> Option<&'static str>
    decreases n,
{
    if n <= 0 {
        None
    } else {
        match items_fault(menus, items, n - 1) {
            Some(e) => Some(e),
            None => item_fault(menus, items, n - 1),
        }
    }
}

/// The first fault among the items of the first `n` menus, menus in name order.
pub open spec fn menus_fault(menus: Seq<(Seq<char>, Menu)>, n: int) -> Option<&'static str>
    decreases n,
{
    if n <= 0 {
        None
    } else {
        match menus_fault(menus, n - 1) {
            Some(e) => Some(e),
            None => items_fault(menus, menus[n - 1].1.items@, menus[n - 1].1.items@.len() as int),
        }
    }
}

/// Items in the first `n` menus.
pub open spec fn total_items(menus: Seq<(Seq<char>, Menu)>, n: int) -> int
    decreases n,
{
    if n <= 0 {
        0
    } else {
        total_items(menus, n - 1) + menus[n - 1].1.items@.len()
    }
}

/// What validating `r` answers.
pub open spec fn validation(r: Request) -> Result<(), &'static str> {
    let m = r.menus@;
    if r.request_id@.len() == 0 || lookup(m, r.root@) is None {
        Err(missing_root_error())
    } else if m.len() > MAX_MENUS || total_items(m, m.len() as int) > MAX_ITEMS {
        Err(too_large_error())
    } else {
        match menus_fault(m, m.len() as int) {
            Some(e) => Err(e),
            None => Ok(()),
        }
    }
}

/// A request that validates.
pub open spec fn valid_request(r: Request) -> bool {
    validation(r) is Ok
}

pub proof fn lemma_total_items_monotone(menus: Seq<(Seq<char>, Menu)>, a: int, b: int)
    requires
        0 <= a <= b,
    ensures
        total_items(menus, a) <= total_items(menus, b),
    decreases b,
{
    if a < b {
        lemma_total_items_monotone(menus, a, b - 1);
    }
}

pub proof fn lemma_items_fault_stays(menus: Seq<(Seq<char>, Menu)>, items: Seq<Item>, a: int, b: int)
    requires
        a <= b,
        items_fault(menus, items, a) is Some,
    ensures
        items_fault(menus, items, b) == items_fault(menus, items, a),
    decreases b,
{
    if a < b {
        lemma_items_fault_stays(menus, items, a, b - 1);
    }
}

pub proof fn lemma_menus_fault_stays(menus: Seq<(Seq<char>, Menu)>, a: int, b: int)
    requires
        a <= b,
        menus_fault(menus, a) is Some,
    ensures
        menus_fault(menus, b) == menus_fault(menus, a),
    decreases b,
{
    if a < b {
        lemma_menus_fault_stays(menus, a, b - 1);
    }
}

impl Request {
    /// Checks the request: an id and an existing root, at most 64 menus and
    /// 4096 items, and in every menu nonempty unique item ids whose submenus exist.
    pub fn validate(&self) -> (r: Result<(), &'static str>)
        ensures
            r == validation(*self),
    {
        let ghost m = self.menus@;
        if self.request_id.as_str().is_empty() || !self.menus.contains_key(self.root.as_str()) {
            return Err("missing request_id or root menu");
        }
        let count = self.menus.len();
        if count > MAX_MENUS {
            return Err("too many menus or items");
        }
        let mut total: usize = 0;
        let mut i: usize = 0;
        while i < count
            invariant
                count == m.len(),
                m == self.menus@,
                i <= count,
                count <= MAX_MENUS,
                self.request_id@.len() > 0,
                lookup(m, self.root@) is Some,
                total == total_items(m, i as int),
                total <= MAX_ITEMS,
            decreases count - i,
        {
            let (_, menu) = self.menus.entry(i);
            let n = menu.items.len();
            if n > MAX_ITEMS - total {
                proof {
                    lemma_total_items_monotone(m, i + 1, count as int);
                }
                return Err("too many menus or items");
            }
            total = total + n;
            i = i + 1;
        }
        let mut i: usize = 0;
        while i < count
            invariant
                count == m.len(),
                m == self.menus@,
                i <= count,
                count <= MAX_MENUS,
                self.request_id@.len() > 0,
                lookup(m, self.root@) is Some,
                total_items(m, count as int) <= MAX_ITEMS,
                menus_fault(m, i as int) is None,
            decreases count - i,
        {
            let (_, menu) = self.menus.entry(i);
            let items = &menu.items;
            let ghost its = items@;
            let n = items.len();
            let mut j: usize = 0;
            while j < n
                invariant
                    count == m.len(),
                    m == self.menus@,
                    i < count,
                    count <= MAX_MENUS,
                    self.request_id@.len() > 0,
                    lookup(m, self.root@) is Some,
                    total_items(m, count as int) <= MAX_ITEMS,
                    its == items@,
                    its == m[i as int].1.items@,
                    n == its.len(),
                    j <= n,
                    menus_fault(m, i as int) is None,
                    items_fault(m, its, j as int) is None,
                decreases n - j,
            {
                let item = &items[j];
                if item.id.as_str().is_empty() {
                    proof {
                        self.lemma_fault_found(m, its, i as int, j as int);
                    }
                    return Err("item IDs must be nonempty and unique within each menu");
                }
                let mut t: usize = 0;
                while t < j
                    invariant
                        j < n,
                        n == its.len(),
                        its == items@,
                        *item == its[j as int],
                        t <= j,
                        forall|u: int| 0 <= u < t ==> its[u].id@ != its[j as int].id@,
                        m == self.menus@,
                        i < m.len(),
                        its == m[i as int].1.items@,
                        menus_fault(m, i as int) is None,
                        items_fault(m, its, j as int) is None,
                        self.request_id@.len() > 0,
                        lookup(m, self.root@) is Some,
                        m.len() <= MAX_MENUS,
                        total_items(m, m.len() as int) <= MAX_ITEMS,
                    decreases j - t,
                {
                    if items[t].id == item.id {
                        proof {
                            assert(its[t as int].id@ == its[j as int].id@);
                            self.lemma_fault_found(m, its, i as int, j as int);
                        }
                        return Err("item IDs must be nonempty and unique within each menu");
                    }
                    t = t + 1;
                }
                match &item.submenu {
                    Some(name) => {
                        if !self.menus.contains_key(name.as_str()) {
                            proof {
                                self.lemma_fault_found(m, its, i as int, j as int);
                            }
                            return Err("unknown submenu");
                        }
                    },
                    None => {},
                }
                j = j + 1;
            }
            i = i + 1;
        }
        Ok(())
    }

    proof fn lemma_fault_found(&self, m: Seq<(Seq<char>, Menu)>, its: Seq<Item>, i: int, j: int)
        requires
            m == self.menus@,
            0 <= i < m.len(),
            its == m[i].1.items@,
            0 <= j < its.len(),
            menus_fault(m, i) is None,
            items_fault(m, its, j) is None,
            item_fault(m, its, j) is Some,
            self.request_id@.len() > 0,
            lookup(m, self.root@) is Some,
            m.len() <= MAX_MENUS,
            total_items(m, m.len() as int) <= MAX_ITEMS,
        ensures
            validation(*self) == Err::<(), &'static str>(item_fault(m, its, j)->0),
    {
        assert(items_fault(m, its, j + 1) == item_fault(m, its, j));
        lemma_items_fault_stays(m, its, j + 1, its.len() as int);
        assert(menus_fault(m, i + 1) == item_fault(m, its, j));
        lemma_menus_fault_stays(m, i + 1, m.len() as int);
    }
}

} // verus!
