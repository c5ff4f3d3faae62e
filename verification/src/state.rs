//! The palette's navigation state: the open page (menu, query, search mode,
//! selection) and the stack of parent pages, with every transition stated
//! over an abstract view.
use vstd::prelude::*;
use crate::menu::{
    Item, Menu, MenuMap, Request, lookup, opt_view, valid_request, validation, total_items,
    menus_fault, items_fault, item_fault, lemma_total_items_monotone, MAX_ITEMS,
};
use crate::text::{
    chars_of, contains_all, contains_all_words, eq_ignore_ascii_case, lower_text,
    same_ignoring_ascii_case, split_words, to_lowercase, views_of, words, owned,
};

verus! {

/// Deepest submenu nesting.
pub const MAX_DEPTH: usize = 32;

/// What a page is, abstractly.
pub struct PageView {
    pub menu: Seq<char>,
    pub query: Seq<char>,
    pub searching: bool,
    pub selected: Option<int>,
}

/// What a state is, abstractly: the open page and its parents, innermost last.
pub struct StateView {
    pub request: Request,
    pub page: PageView,
    pub parents: Seq<PageView>,
}

struct Page {
    menu: String,
    query: String,
    searching: bool,
    selected: Option<usize>, // index into the filtered rows, not into the menu
}

pub open spec fn opt_int(o: Option<usize>) -> Option<int> {
    match o {
        Some(i) => Some(i as int),
        None => None,
    }
}

impl View for Page {
    type V = PageView;

    closed spec fn view(&self) -> PageView {
        PageView {
            menu: self.menu@,
            query: self.query@,
            searching: self.searching,
            selected: opt_int(self.selected),
        }
    }
}

impl Page {
    fn fresh(menu: String) -> (p: Page)
        ensures
            p@ == fresh_page(menu@),
    {
        Page { menu, query: String::new(), searching: false, selected: None }
    }

    fn copy(&self) -> (p: Page)
        ensures
            p@ == self@,
    {
        Page {
            menu: self.menu.clone(),
            query: self.query.clone(),
            searching: self.searching,
            selected: self.selected,
        }
    }
}

// ---------------------------------------------------------------------------
// Rows: the items of the open menu that match the query

/// The text an item is searched by.
pub open spec fn haystack(item: Item) -> Seq<char> {
    item.title@ + seq![' '] + item.detail@ + seq![' '] + item.keywords@ + seq![' ']
        + item.shortcut@
}

/// Every whitespace-separated word of the lower-cased query occurs in the
/// lower-cased haystack.
pub open spec fn matches_query(item: Item, query: Seq<char>) -> bool {
    contains_all(lower_text(haystack(item)), words(lower_text(query)))
}

/// The items that match the query, in menu order.
pub open spec fn filter_rows(items: Seq<Item>, query: Seq<char>) -> Seq<Item>
    decreases items.len(),
{
    if items.len() == 0 {
        seq![]
    } else {
        let f = filter_rows(items.drop_last(), query);
        if matches_query(items.last(), query) {
            f.push(items.last())
        } else {
            f
        }
    }
}

/// The items of the menu named `name`.
pub open spec fn menu_items(m: Seq<(Seq<char>, Menu)>, name: Seq<char>) -> Seq<Item> {
    match lookup(m, name) {
        Some(menu) => menu.items@,
        None => seq![],
    }
}

/// The rows a page shows.
pub open spec fn rows_of(m: Seq<(Seq<char>, Menu)>, p: PageView) -> Seq<Item> {
    filter_rows(menu_items(m, p.menu), p.query)
}

/// The first enabled row at or after `i`.
pub open spec fn first_enabled_from(rows: Seq<Item>, i: int) -> Option<int>
    decreases rows.len() - i,
{
    if i < 0 || i >= rows.len() {
        None
    } else if !rows[i].disabled {
        Some(i)
    } else {
        first_enabled_from(rows, i + 1)
    }
}

pub open spec fn first_enabled(rows: Seq<Item>) -> Option<int> {
    first_enabled_from(rows, 0)
}

/// A page that has just been opened on `menu`.
pub open spec fn fresh_page(menu: Seq<char>) -> PageView {
    PageView { menu, query: seq![], searching: false, selected: None }
}

/// `p` with its first enabled row selected.
pub open spec fn with_first(m: Seq<(Seq<char>, Menu)>, p: PageView) -> PageView {
    PageView {
        menu: p.menu,
        query: p.query,
        searching: p.searching,
        selected: first_enabled(rows_of(m, p)),
    }
}

/// `p` with `selected` replaced.
pub open spec fn with_selected(p: PageView, selected: Option<int>) -> PageView {
    PageView { menu: p.menu, query: p.query, searching: p.searching, selected }
}

/// The selection, if any, is an enabled row of the page.
pub open spec fn selection_ok(m: Seq<(Seq<char>, Menu)>, p: PageView) -> bool {
    match p.selected {
        None => true,
        Some(i) => 0 <= i < rows_of(m, p).len() && !rows_of(m, p)[i].disabled,
    }
}

/// The page's menu exists and its selection is an enabled row.
pub open spec fn page_ok(m: Seq<(Seq<char>, Menu)>, p: PageView) -> bool {
    lookup(m, p.menu) is Some && selection_ok(m, p)
}

/// The state invariant: a valid request, well-formed pages, at most
/// `MAX_DEPTH` parents.
pub open spec fn state_ok(v: StateView) -> bool {
    &&& valid_request(v.request)
    &&& page_ok(v.request.menus@, v.page)
    &&& v.parents.len() <= MAX_DEPTH
    &&& forall|i: int| 0 <= i < v.parents.len() ==> page_ok(v.request.menus@, #[trigger] v.parents[i])
}

// ---------------------------------------------------------------------------
// Transitions

/// The state `State::new` opens on a valid request.
pub open spec fn initial(r: Request) -> StateView {
    StateView { request: r, page: with_first(r.menus@, fresh_page(r.root@)), parents: seq![] }
}

/// Bare-letter shortcuts apply: the menu is quick and the page is not searching.
pub open spec fn quick_of(v: StateView) -> bool {
    match lookup(v.request.menus@, v.page.menu) {
        Some(menu) => menu.quick && !v.page.searching,
        None => false,
    }
}

pub open spec fn begun(v: StateView) -> StateView {
    StateView {
        request: v.request,
        page: PageView {
            menu: v.page.menu,
            query: v.page.query,
            searching: true,
            selected: v.page.selected,
        },
        parents: v.parents,
    }
}

pub open spec fn searched(v: StateView, q: Seq<char>) -> StateView {
    StateView {
        request: v.request,
        page: with_first(
            v.request.menus@,
            PageView { menu: v.page.menu, query: q, searching: true, selected: v.page.selected },
        ),
        parents: v.parents,
    }
}

/// Row `index` becomes the selection if it is an enabled row.
pub open spec fn chosen(v: StateView, index: int) -> StateView {
    let rows = rows_of(v.request.menus@, v.page);
    if 0 <= index < rows.len() && !rows[index].disabled {
        StateView { request: v.request, page: with_selected(v.page, Some(index)), parents: v.parents }
    } else {
        v
    }
}

/// The first enabled row at or after `i` whose shortcut equals `key` up to ASCII case.
pub open spec fn shortcut_from(rows: Seq<Item>, key: Seq<char>, i: int) -> Option<int>
    decreases rows.len() - i,
{
    if i < 0 || i >= rows.len() {
        None
    } else if !rows[i].disabled && eq_ignore_ascii_case(rows[i].shortcut@, key) {
        Some(i)
    } else {
        shortcut_from(rows, key, i + 1)
    }
}

pub open spec fn quick_keyed(v: StateView, key: Seq<char>) -> (StateView, bool) {
    if !quick_of(v) {
        (v, false)
    } else {
        match shortcut_from(rows_of(v.request.menus@, v.page), key, 0) {
            Some(i) => (chosen(v, i), true),
            None => (v, false),
        }
    }
}

pub open spec fn fits_i32(x: int) -> bool {
    i32::MIN <= x <= i32::MAX
}

/// Where stepping counts from: the selection, or just before the first row
/// (forwards) or the first row itself (backwards).
pub open spec fn step_start(selected: Option<int>, delta: int) -> int {
    match selected {
        Some(i) => i,
        None => if delta > 0 {
            -1
        } else {
            0
        },
    }
}

/// The row `offset` steps away, wrapping around.
pub open spec fn step_index(start: int, delta: int, offset: int, n: int) -> int {
    (start + offset * delta) % n
}

/// The first enabled row among offsets `o..=n`.
pub open spec fn scan(rows: Seq<Item>, start: int, delta: int, o: int) -> Option<int>
    decreases rows.len() + 1 - o,
{
    if o < 1 || o > rows.len() {
        None
    } else if !rows[step_index(start, delta, o, rows.len() as int)].disabled {
        Some(step_index(start, delta, o, rows.len() as int))
    } else {
        scan(rows, start, delta, o + 1)
    }
}

/// The `i32` arithmetic for every offset that the scan looks at stays in range.
pub open spec fn scan_fits(rows: Seq<Item>, start: int, delta: int, o: int) -> bool
    decreases rows.len() + 1 - o,
{
    if o < 1 || o > rows.len() {
        true
    } else {
        &&& fits_i32(o * delta)
        &&& fits_i32(start + o * delta)
        &&& (rows[step_index(start, delta, o, rows.len() as int)].disabled ==> scan_fits(
            rows,
            start,
            delta,
            o + 1,
        ))
    }
}

pub open spec fn stepped(v: StateView, delta: int) -> StateView {
    let rows = rows_of(v.request.menus@, v.page);
    if rows.len() == 0 {
        v
    } else {
        StateView {
            request: v.request,
            page: with_selected(v.page, scan(rows, step_start(v.page.selected, delta), delta, 1)),
            parents: v.parents,
        }
    }
}

pub open spec fn step_fits(v: StateView, delta: int) -> bool {
    let rows = rows_of(v.request.menus@, v.page);
    rows.len() > 0 ==> scan_fits(rows, step_start(v.page.selected, delta), delta, 1)
}

/// Activating the selection: a leaf hands back its id; a submenu opens as a
/// fresh page above the current one unless `MAX_DEPTH` is reached.
pub open spec fn activated(v: StateView) -> (StateView, Option<Seq<char>>) {
    let m = v.request.menus@;
    let rows = rows_of(m, v.page);
    match v.page.selected {
        None => (v, None),
        Some(i) => if i < 0 || i >= rows.len() || rows[i].disabled {
            (v, None)
        } else {
            match opt_view(rows[i].submenu) {
                Some(sub) => if v.parents.len() >= MAX_DEPTH {
                    (v, None)
                } else {
                    (
                        StateView {
                            request: v.request,
                            page: with_first(m, fresh_page(sub)),
                            parents: v.parents.push(v.page),
                        },
                        None,
                    )
                },
                None => (v, Some(rows[i].id@)),
            }
        },
    }
}

/// Going back: only with an empty query, to the innermost parent, restored as it was.
pub open spec fn backed(v: StateView) -> (StateView, bool) {
    if v.page.query.len() > 0 || v.parents.len() == 0 {
        (v, false)
    } else {
        (StateView { request: v.request, page: v.parents.last(), parents: v.parents.drop_last() }, true)
    }
}

// ---------------------------------------------------------------------------
// Lemmas

pub proof fn lemma_filter_rows_len(items: Seq<Item>, query: Seq<char>)
    ensures
        filter_rows(items, query).len() <= items.len(),
    decreases items.len(),
{
    if items.len() > 0 {
        lemma_filter_rows_len(items.drop_last(), query);
    }
}

/// Every row is an item of the menu.
pub proof fn lemma_filter_rows_member(items: Seq<Item>, query: Seq<char>, k: int)
    requires
        0 <= k < filter_rows(items, query).len(),
    ensures
        exists|j: int| 0 <= j < items.len() && items[j] == #[trigger] filter_rows(items, query)[k],
    decreases items.len(),
{
    let init = items.drop_last();
    let f = filter_rows(init, query);
    if k < f.len() {
        lemma_filter_rows_member(init, query, k);
        let j = choose|j: int| 0 <= j < init.len() && init[j] == #[trigger] filter_rows(init, query)[k];
        assert(items[j] == filter_rows(items, query)[k]);
    } else {
        assert(filter_rows(items, query)[k] == items[items.len() - 1]);
    }
}

pub proof fn lemma_first_enabled_from(rows: Seq<Item>, i: int)
    requires
        0 <= i,
    ensures
        match first_enabled_from(rows, i) {
            Some(k) => i <= k < rows.len() && !rows[k].disabled,
            None => forall|t: int| i <= t < rows.len() ==> #[trigger] rows[t].disabled,
        },
    decreases rows.len() - i,
{
    if i < rows.len() && rows[i].disabled {
        lemma_first_enabled_from(rows, i + 1);
    }
}

pub proof fn lemma_with_first_ok(m: Seq<(Seq<char>, Menu)>, p: PageView)
    requires
        lookup(m, p.menu) is Some,
    ensures
        page_ok(m, with_first(m, p)),
        rows_of(m, with_first(m, p)) == rows_of(m, p),
{
    lemma_first_enabled_from(rows_of(m, p), 0);
}

pub proof fn lemma_lookup_index(m: Seq<(Seq<char>, Menu)>, name: Seq<char>)
    requires
        lookup(m, name) is Some,
    ensures
        exists|a: int| 0 <= a < m.len() && m[a].0 == name && #[trigger] m[a].1 == lookup(m, name)->0,
    decreases m.len(),
{
    if m[0].0 != name {
        lemma_lookup_index(m.drop_first(), name);
        let a = choose|a: int| 0 <= a < m.drop_first().len() && m.drop_first()[a].0 == name
            && #[trigger] m.drop_first()[a].1 == lookup(m.drop_first(), name)->0;
        assert(m[a + 1].1 == lookup(m, name)->0);
    }
}

pub proof fn lemma_items_fault_none(m: Seq<(Seq<char>, Menu)>, items: Seq<Item>, n: int, j: int)
    requires
        items_fault(m, items, n) is None,
        0 <= j < n,
    ensures
        item_fault(m, items, j) is None,
    decreases n,
{
    if j < n - 1 {
        lemma_items_fault_none(m, items, n - 1, j);
    }
}

pub proof fn lemma_menus_fault_none(m: Seq<(Seq<char>, Menu)>, n: int, a: int)
    requires
        menus_fault(m, n) is None,
        0 <= a < n,
    ensures
        items_fault(m, m[a].1.items@, m[a].1.items@.len() as int) is None,
    decreases n,
{
    if a < n - 1 {
        lemma_menus_fault_none(m, n - 1, a);
    }
}

/// In a valid request every row of an existing menu is at most `MAX_ITEMS`
/// long, and every submenu it names exists.
pub proof fn lemma_rows_of_valid(r: Request, p: PageView)
    requires
        valid_request(r),
        lookup(r.menus@, p.menu) is Some,
    ensures
        rows_of(r.menus@, p).len() <= MAX_ITEMS,
        forall|k: int|
            0 <= k < rows_of(r.menus@, p).len() ==> (#[trigger] rows_of(r.menus@, p)[k]).submenu
                is Some ==> lookup(r.menus@, rows_of(r.menus@, p)[k].submenu->0@) is Some,
{
    let m = r.menus@;
    lemma_lookup_index(m, p.menu);
    let a = choose|a: int| 0 <= a < m.len() && m[a].0 == p.menu && #[trigger] m[a].1 == lookup(m, p.menu)->0;
    let items = m[a].1.items@;
    lemma_filter_rows_len(items, p.query);
    lemma_total_items_monotone(m, a + 1, m.len() as int);
    lemma_total_items_monotone(m, 0, a);
    assert(total_items(m, a + 1) == total_items(m, a) + items.len());
    assert(total_items(m, m.len() as int) <= MAX_ITEMS);
    assert forall|k: int|
        0 <= k < rows_of(m, p).len() && (#[trigger] rows_of(m, p)[k]).submenu is Some implies lookup(
        m,
        rows_of(m, p)[k].submenu->0@,
    ) is Some by {
        lemma_filter_rows_member(items, p.query, k);
        let j = choose|j: int| 0 <= j < items.len() && items[j] == #[trigger] filter_rows(items, p.query)[k];
        lemma_menus_fault_none(m, m.len() as int, a);
        lemma_items_fault_none(m, items, items.len() as int, j);
    }
}

// ---------------------------------------------------------------------------
// Executable pieces

fn menu_of<'a>(menus: &'a MenuMap, name: &str) -> (menu: &'a Menu)
    requires
        lookup(menus@, name@) is Some,
    ensures
        Some(*menu) == lookup(menus@, name@),
{
    match menus.get(name) {
        Some(menu) => menu,
        None => {
            proof {
                assert(false);
            }
            menus.entry(0).1
        },
    }
}

fn query_words(query: &str) -> (ws: Vec<Vec<char>>)
    ensures
        views_of(ws@) == words(lower_text(query@)),
        query@.len() == 0 ==> ws@.len() == 0,
{
    let lower = to_lowercase(query);
    let chars = chars_of(lower.as_str());
    let ws = split_words(&chars);
    proof {
        if query@.len() == 0 {
            assert(words(chars@).len() == 0);
            assert(views_of(ws@).len() == ws@.len());
        }
    }
    ws
}

fn item_matches(item: &Item, ws: &Vec<Vec<char>>) -> (b: bool)
    ensures
        b == contains_all(lower_text(haystack(*item)), views_of(ws@)),
{
    let mut hay = owned(item.title.as_str());
    hay.append(" ");
    hay.append(item.detail.as_str());
    hay.append(" ");
    hay.append(item.keywords.as_str());
    hay.append(" ");
    hay.append(item.shortcut.as_str());
    proof {
        reveal_strlit(" ");
        assert(hay@ =~= haystack(*item));
    }
    let lower = to_lowercase(hay.as_str());
    let chars = chars_of(lower.as_str());
    contains_all_words(&chars, ws)
}

pub open spec fn derefs(v: Seq<&Item>) -> Seq<Item> {
    v.map_values(|x: &Item| *x)
}

fn rows_for<'a>(menus: &'a MenuMap, page: &Page) -> (rows: Vec<&'a Item>)
    requires
        lookup(menus@, page@.menu) is Some,
    ensures
        derefs(rows@) == rows_of(menus@, page@),
        page@.query.len() == 0 ==> rows_of(menus@, page@) == menu_items(menus@, page@.menu),
{
    let menu = menu_of(menus, page.menu.as_str());
    let ws = query_words(page.query.as_str());
    let items = &menu.items;
    let ghost its = items@;
    let n = items.len();
    let mut rows: Vec<&'a Item> = Vec::new();
    let mut i: usize = 0;
    while i < n
        invariant
            n == its.len(),
            its == items@,
            its == menu_items(menus@, page@.menu),
            views_of(ws@) == words(lower_text(page@.query)),
            i <= n,
            derefs(rows@) == filter_rows(its.take(i as int), page@.query),
            ws@.len() == 0 ==> derefs(rows@) == its.take(i as int),
        decreases n - i,
    {
        let item = &items[i];
        assert(its.take(i + 1).drop_last() =~= its.take(i as int));
        assert(its.take(i + 1).last() == its[i as int]);
        if item_matches(item, &ws) {
            rows.push(item);
            assert(ws@.len() == 0 ==> derefs(rows@) =~= its.take(i + 1));
            assert(derefs(rows@) =~= filter_rows(its.take(i as int), page@.query).push(*item));
        }
        i = i + 1;
    }
    assert(its.take(n as int) =~= its);
    rows
}

fn first_enabled_exec(rows: &Vec<&Item>) -> (r: Option<usize>)
    ensures
        opt_int(r) == first_enabled(derefs(rows@)),
{
    let ghost d = derefs(rows@);
    let n = rows.len();
    let mut i: usize = 0;
    while i < n
        invariant
            n == rows.len(),
            d == derefs(rows@),
            i <= n,
            first_enabled(d) == first_enabled_from(d, i as int),
        decreases n - i,
    {
        if !rows[i].disabled {
            return Some(i);
        }
        i = i + 1;
    }
    None
}

fn first_shortcut(rows: &Vec<&Item>, key: &str) -> (r: Option<usize>)
    ensures
        opt_int(r) == shortcut_from(derefs(rows@), key@, 0),
{
    let ghost d = derefs(rows@);
    let n = rows.len();
    let mut i: usize = 0;
    while i < n
        invariant
            n == rows.len(),
            d == derefs(rows@),
            i <= n,
            shortcut_from(d, key@, 0) == shortcut_from(d, key@, i as int),
        decreases n - i,
    {
        if !rows[i].disabled && same_ignoring_ascii_case(rows[i].shortcut.as_str(), key) {
            return Some(i);
        }
        i = i + 1;
    }
    None
}

// ---------------------------------------------------------------------------
// The state

/// An open palette session over one request.
pub struct State {
    pub request: Request,
    page: Page,
    parents: Vec<Page>,
}

impl View for State {
    type V = StateView;

    closed spec fn view(&self) -> StateView {
        StateView {
            request: self.request,
            page: self.page@,
            parents: self.parents@.map_values(|p: Page| p@),
        }
    }
}

impl State {
    /// The invariant every method keeps.
    pub open spec fn wf(&self) -> bool {
        state_ok(self@)
    }

    /// Opens a session on `request`, at its root menu with the first enabled
    /// row selected; refuses a request that does not validate, with its error.
    pub fn new(request: Request) -> (r: Result<Self, &'static str>)
        ensures
            match r {
                Ok(s) => {
                    &&& validation(request) is Ok
                    &&& s@ == initial(request)
                    &&& s.wf()
                },
                Err(e) => validation(request) == Err::<(), &'static str>(e),
            },
    {
        match request.validate() {
            Err(e) => return Err(e),
            Ok(()) => {},
        }
        let page = Page::fresh(request.root.clone());
        let mut state = State { request, page, parents: Vec::new() };
        proof {
            assert(state@.parents =~= Seq::<PageView>::empty());
        }
        state.select_first();
        proof {
            lemma_with_first_ok(state@.request.menus@, fresh_page(state@.request.root@));
        }
        Ok(state)
    }

    /// Selects the first enabled row of the open page, or nothing.
    fn select_first(&mut self)
        requires
            lookup(old(self)@.request.menus@, old(self)@.page.menu) is Some,
        ensures
            final(self)@.request == old(self)@.request,
            final(self)@ == (StateView {
                request: old(self)@.request,
                page: with_first(old(self)@.request.menus@, old(self)@.page),
                parents: old(self)@.parents,
            }),
            old(self)@.page.query.len() == 0 ==> rows_of(old(self)@.request.menus@, old(self)@.page)
                == menu_items(old(self)@.request.menus@, old(self)@.page.menu),
    {
        let rows = rows_for(&self.request.menus, &self.page);
        let first = first_enabled_exec(&rows);
        self.page.selected = first;
    }

    /// The request this state serves.
    pub fn request(&self) -> (r: &Request)
        ensures
            *r == self@.request,
    {
        &self.request
    }

    /// The title of the open menu.
    pub fn title(&self) -> (t: &str)
        requires
            self.wf(),
        ensures
            t@ == lookup(self@.request.menus@, self@.page.menu)->0.title@,
    {
        let menu = menu_of(&self.request.menus, self.page.menu.as_str());
        menu.title.as_str()
    }

    /// The query of the open page.
    pub fn query(&self) -> (q: &str)
        ensures
            q@ == self@.page.query,
    {
        self.page.query.as_str()
    }

    /// Whether bare-letter shortcuts apply: a quick menu, not in search mode.
    pub fn quick(&self) -> (b: bool)
        requires
            self.wf(),
        ensures
            b == quick_of(self@),
    {
        let menu = menu_of(&self.request.menus, self.page.menu.as_str());
        menu.quick && !self.page.searching
    }

    /// Enters search mode; the query and selection stay.
    pub fn begin_search(&mut self)
        ensures
            final(self)@ == begun(old(self)@),
            old(self).wf() ==> final(self).wf(),
    {
        self.page.searching = true;
        proof {
            assert(rows_of(self@.request.menus@, self@.page) == rows_of(
                self@.request.menus@,
                old(self)@.page,
            ));
            assert(self@.parents == old(self)@.parents);
        }
    }

    /// The selected row, an index into `rows()`.
    pub fn selected(&self) -> (r: Option<usize>)
        ensures
            opt_int(r) == self@.page.selected,
    {
        self.page.selected
    }

    /// How many parent pages lie below the open one.
    pub fn depth(&self) -> (d: usize)
        ensures
            d == self@.parents.len(),
    {
        self.parents.len()
    }

    /// The items of the open menu that match the query, in menu order;
    /// with an empty query, all of them.
    pub fn rows(&self) -> (r: Vec<&Item>)
        requires
            self.wf(),
        ensures
            derefs(r@) == rows_of(self@.request.menus@, self@.page),
            self@.page.query.len() == 0 ==> derefs(r@) == menu_items(
                self@.request.menus@,
                self@.page.menu,
            ),
    {
        rows_for(&self.request.menus, &self.page)
    }
    /// Sets the query, enters search mode and selects the first enabled match.
    pub fn search(&mut self, query: String)
        requires
            old(self).wf(),
        ensures
            final(self)@ == searched(old(self)@, query@),
            final(self).wf(),
            query@.len() == 0 ==> rows_of(final(self)@.request.menus@, final(self)@.page)
                == menu_items(final(self)@.request.menus@, final(self)@.page.menu),
    {
        self.page.searching = true;
        self.page.query = query;
        self.select_first();
        proof {
            lemma_with_first_ok(self@.request.menus@, self@.page);
        }
    }

    /// Selects row `index` if it exists and is enabled; otherwise nothing changes.
    pub fn select(&mut self, index: usize)
        requires
            old(self).wf(),
        ensures
            final(self)@ == chosen(old(self)@, index as int),
            final(self).wf(),
    {
        let rows = rows_for(&self.request.menus, &self.page);
        let ok = index < rows.len() && !rows[index].disabled;
        if ok {
            self.page.selected = Some(index);
            proof {
                assert(rows_of(self@.request.menus@, self@.page) == rows_of(
                    old(self)@.request.menus@,
                    old(self)@.page,
                ));
            }
        }
    }

    /// With bare-letter shortcuts in effect, selects the first enabled row
    /// whose shortcut equals `key` up to ASCII case and reports whether one did.
    pub fn quick_key(&mut self, key: &str) -> (hit: bool)
        requires
            old(self).wf(),
        ensures
            (final(self)@, hit) == quick_keyed(old(self)@, key@),
            final(self).wf(),
    {
        if !self.quick() {
            return false;
        }
        let rows = rows_for(&self.request.menus, &self.page);
        let found = first_shortcut(&rows, key);
        match found {
            Some(index) => {
                proof {
                    let d = rows_of(self@.request.menus@, self@.page);
                    lemma_shortcut_from(d, key@, 0);
                }
                self.select(index);
                true
            },
            None => false,
        }
    }

    /// Moves the selection `delta` rows at a time, wrapping around, to the
    /// first enabled row met within one full turn; with none, nothing is selected.
    pub fn step(&mut self, delta: i32)
        requires
            old(self).wf(),
            step_fits(old(self)@, delta as int),
        ensures
            final(self)@ == stepped(old(self)@, delta as int),
            final(self).wf(),
    {
        let rows = rows_for(&self.request.menus, &self.page);
        if rows.len() == 0 {
            return;
        }
        let ghost d = derefs(rows@);
        proof {
            lemma_rows_of_valid(self@.request, self@.page);
        }
        let n = rows.len();
        let n64 = n as i64;
        let start: i64 = match self.page.selected {
            Some(i) => i as i64,
            None => if delta > 0 {
                -1
            } else {
                0
            },
        };
        let ghost st = step_start(self@.page.selected, delta as int);
        assert(start == st);
        let mut o: usize = 1;
        let mut next: Option<usize> = None;
        while o <= n
            invariant_except_break
                next is None,
            invariant
                n == rows.len(),
                n64 == n,
                1 <= n <= MAX_ITEMS,
                d == derefs(rows@),
                start == st,
                -1 <= st < n,
                1 <= o <= n + 1,
                scan(d, st, delta as int, 1) == scan(d, st, delta as int, o as int),
                scan_fits(d, st, delta as int, o as int),
            ensures
                opt_int(next) == scan(d, st, delta as int, 1),
            decreases n + 1 - o,
        {
            let raw: i64 = start + (o as i64) * (delta as i64);
            let idx = wrap_index(raw, n64);
            if !rows[idx].disabled {
                next = Some(idx);
                break;
            }
            o = o + 1;
        }
        self.page.selected = next;
        proof {
            assert(opt_int(next) == scan(d, st, delta as int, 1));
            lemma_scan(d, st, delta as int, 1);
        }
    }
    /// Activates the selection. A leaf gives back its id; a submenu opens in
    /// place as a fresh page above the current one (unless `MAX_DEPTH` pages
    /// are already open) and gives back nothing.
    pub fn activate(&mut self) -> (action: Option<String>)
        requires
            old(self).wf(),
        ensures
            (final(self)@, opt_view(action)) == activated(old(self)@),
            final(self).wf(),
    {
        let index = match self.page.selected {
            Some(i) => i,
            None => return None,
        };
        let rows = rows_for(&self.request.menus, &self.page);
        if index >= rows.len() {
            return None;
        }
        let item = rows[index];
        if item.disabled {
            return None;
        }
        proof {
            lemma_rows_of_valid(self@.request, self@.page);
        }
        match &item.submenu {
            Some(menu) => {
                if self.parents.len() >= MAX_DEPTH {
                    return None;
                }
                let name = menu.clone();
                let ghost before = self@;
                let here = self.page.copy();
                self.parents.push(here);
                self.page = Page::fresh(name);
                proof {
                    assert(self@.parents =~= before.parents.push(before.page));
                }
                self.select_first();
                proof {
                    lemma_with_first_ok(self@.request.menus@, fresh_page(self@.page.menu));
                    assert forall|i: int| 0 <= i < self@.parents.len() implies page_ok(
                        self@.request.menus@,
                        #[trigger] self@.parents[i],
                    ) by {
                        if i < before.parents.len() {
                            assert(self@.parents[i] == before.parents[i]);
                        }
                    }
                }
                None
            },
            None => Some(item.id.clone()),
        }
    }

    /// With an empty query, closes the open page and restores its parent
    /// exactly as it was (query and selection included); otherwise nothing changes.
    pub fn back(&mut self) -> (went: bool)
        requires
            old(self).wf(),
        ensures
            (final(self)@, went) == backed(old(self)@),
            final(self).wf(),
    {
        if !self.page.query.as_str().is_empty() {
            return false;
        }
        let ghost before = self@;
        match self.parents.pop() {
            Some(page) => {
                self.page = page;
                proof {
                    assert(self@.parents =~= before.parents.drop_last());
                    assert(page_ok(self@.request.menus@, before.parents[before.parents.len() - 1]));
                    assert forall|i: int| 0 <= i < self@.parents.len() implies page_ok(
                        self@.request.menus@,
                        #[trigger] self@.parents[i],
                    ) by {
                        assert(self@.parents[i] == before.parents[i]);
                    }
                }
                true
            },
            None => false,
        }
    }
}

/// `raw` reduced to `0..n`, as `i32::rem_euclid` does.
fn wrap_index(raw: i64, n: i64) -> (r: usize)
    requires
        n > 0,
        n <= MAX_ITEMS,
        fits_i32(raw as int),
    ensures
        r as int == (raw as int) % (n as int),
        r < n,
{
    let un = n as u64;
    if raw >= 0 {
        let r = (raw as u64) % un;
        r as usize
    } else {
        let m = ((0 - raw) as u64) % un;
        proof {
            let q = (0 - raw) as int / (n as int);
            vstd::arithmetic::div_mod::lemma_fundamental_div_mod((0 - raw) as int, n as int);
            if m == 0 {
                assert(raw as int == (0 - q) * (n as int) + 0) by (nonlinear_arith)
                    requires (0 - raw) as int == (n as int) * q + 0;
                vstd::arithmetic::div_mod::lemma_fundamental_div_mod_converse(raw as int, n as int, 0 - q, 0);
            } else {
                assert(raw as int == (0 - q - 1) * (n as int) + (n - m)) by (nonlinear_arith)
                    requires (0 - raw) as int == (n as int) * q + (m as int);
                vstd::arithmetic::div_mod::lemma_fundamental_div_mod_converse(raw as int, n as int, 0 - q - 1, (n - m) as int);
            }
        }
        if m == 0 {
            0
        } else {
            (un - m) as usize
        }
    }
}

pub proof fn lemma_shortcut_from(rows: Seq<Item>, key: Seq<char>, i: int)
    requires
        0 <= i,
    ensures
        shortcut_from(rows, key, i) matches Some(k) ==> i <= k < rows.len() && !rows[k].disabled,
    decreases rows.len() - i,
{
    if i < rows.len() && !(!rows[i].disabled && eq_ignore_ascii_case(rows[i].shortcut@, key)) {
        lemma_shortcut_from(rows, key, i + 1);
    }
}

pub proof fn lemma_scan(rows: Seq<Item>, start: int, delta: int, o: int)
    requires
        rows.len() > 0,
    ensures
        scan(rows, start, delta, o) matches Some(k) ==> 0 <= k < rows.len() && !rows[k].disabled,
    decreases rows.len() + 1 - o,
{
    if 1 <= o <= rows.len() {
        lemma_scan(rows, start, delta, o + 1);
    }
}

} // verus!
