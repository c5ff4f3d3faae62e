//! Properties of the navigation state that span several operations.
use vstd::prelude::*;
use crate::text::{
    ascii_lower, ascii_lower_char, ascii_text, ascii_upper, ascii_upper_char, contains,
    contains_all, eq_ignore_ascii_case, lower_text, occurs_at, whitespace, words,
};
use crate::session::{nav_of, NavAction};
use crate::theme::{theme_after, ThemeQuery, ThemeStep};
use crate::options::{parsed, Options};
use crate::menu::{
    item_fault, items_fault, lookup, menus_fault, opt_view, total_items, valid_request, Item, Menu,
    Request, MAX_ITEMS, MAX_MENUS,
};
use crate::state::{
    filter_rows, matches_query, menu_items, lemma_filter_rows_member,
    activated, backed, begun, chosen, fits_i32, fresh_page, lemma_rows_of_valid, page_ok,
    quick_keyed, quick_of, rows_of, scan, scan_fits, searched, state_ok, step_fits, step_index,
    step_start, stepped, with_first, StateView, MAX_DEPTH, lemma_items_fault_none,
    lemma_menus_fault_none,
};

verus! {

/// Opening a submenu and then going back restores the state exactly as it
/// was before, parent query and selection included.
pub proof fn law_back_undoes_submenu(v: StateView)
    requires
        state_ok(v),
        activated(v).1 is None,
        activated(v).0.parents.len() == v.parents.len() + 1,
    ensures
        backed(activated(v).0) == (v, true),
{
    let w = activated(v).0;
    assert(w.page.query.len() == 0);
    assert(w.parents.drop_last() =~= v.parents);
}

/// Once in search mode (by `begin_search` or any `search`, an empty query
/// included) bare letters dispatch nothing and change nothing.
pub proof fn law_search_mode_ignores_quick_keys(v: StateView, q: Seq<char>, key: Seq<char>)
    ensures
        !quick_of(searched(v, q)),
        quick_keyed(searched(v, q), key) == (searched(v, q), false),
        !quick_of(begun(v)),
        quick_keyed(begun(v), key) == (begun(v), false),
{
}

/// A disabled row can never become the selection.
pub proof fn law_disabled_rows_are_not_selectable(v: StateView, index: int)
    requires
        0 <= index < rows_of(v.request.menus@, v.page).len(),
        rows_of(v.request.menus@, v.page)[index].disabled,
    ensures
        chosen(v, index) == v,
{
}

/// Submenus never nest deeper than `MAX_DEPTH`; at that depth activating a
/// submenu changes nothing.
pub proof fn law_depth_is_bounded(v: StateView)
    requires
        state_ok(v),
    ensures
        activated(v).0.parents.len() <= MAX_DEPTH,
        v.parents.len() == MAX_DEPTH && activated(v).1 is None ==> activated(v).0 == v,
{
}

/// A submenu opens fresh: empty query, not searching, first enabled row selected.
pub proof fn law_submenu_opens_fresh(v: StateView)
    requires
        state_ok(v),
        activated(v).0.parents.len() == v.parents.len() + 1,
    ensures
        activated(v).0.page == with_first(
            v.request.menus@,
            fresh_page(activated(v).0.page.menu),
        ),
        activated(v).0.page.query.len() == 0,
        !activated(v).0.page.searching,
{
}

proof fn lemma_scan_fits_unit(rows: Seq<Item>, start: int, delta: int, o: int)
    requires
        -1 <= delta <= 1,
        -1 <= start <= MAX_ITEMS,
        rows.len() <= MAX_ITEMS,
        1 <= o,
    ensures
        scan_fits(rows, start, delta, o),
    decreases rows.len() + 1 - o,
{
    if o <= rows.len() {
        assert(fits_i32(o * delta)) by (nonlinear_arith)
            requires
                -1 <= delta <= 1,
                1 <= o <= MAX_ITEMS,
        ;
        assert(fits_i32(start + o * delta)) by (nonlinear_arith)
            requires
                -1 <= delta <= 1,
                1 <= o <= MAX_ITEMS,
                -1 <= start <= MAX_ITEMS,
        ;
        lemma_scan_fits_unit(rows, start, delta, o + 1);
    }
}

/// Stepping by at most one row at a time never leaves `i32` range, so
/// `step` accepts every such step.
pub proof fn law_unit_steps_fit(v: StateView, delta: int)
    requires
        state_ok(v),
        -1 <= delta <= 1,
    ensures
        step_fits(v, delta),
{
    lemma_rows_of_valid(v.request, v.page);
    let rows = rows_of(v.request.menus@, v.page);
    if rows.len() > 0 {
        lemma_scan_fits_unit(rows, step_start(v.page.selected, delta), delta, 1);
    }
}

proof fn lemma_scan_reaches(rows: Seq<Item>, start: int, delta: int, o: int, target: int)
    requires
        1 <= o <= target <= rows.len(),
        !rows[step_index(start, delta, target, rows.len() as int)].disabled,
    ensures
        scan(rows, start, delta, o) is Some,
    decreases target - o,
{
    if rows[step_index(start, delta, o, rows.len() as int)].disabled {
        lemma_scan_reaches(rows, start, delta, o + 1, target);
    }
}

/// Which offset of a unit step reaches row `t`.
proof fn lemma_unit_offset(start: int, delta: int, n: int, t: int) -> (o: int)
    requires
        delta == 1 || delta == -1,
        n > 0,
        0 <= t < n,
    ensures
        1 <= o <= n,
        step_index(start, delta, o, n) == t,
{
    let k = if delta == 1 {
        t - start
    } else {
        start - t
    };
    vstd::arithmetic::div_mod::lemma_fundamental_div_mod(k, n);
    let q = k / n;
    let r = k % n;
    let o = if r == 0 {
        n
    } else {
        r
    };
    if delta == 1 {
        if r == 0 {
            assert(start + o * delta == (1 - q) * n + t) by (nonlinear_arith)
                requires
                    k == n * q + r,
                    r == 0,
                    o == n,
                    delta == 1,
                    k == t - start,
            ;
        } else {
            assert(start + o * delta == (0 - q) * n + t) by (nonlinear_arith)
                requires
                    k == n * q + r,
                    o == r,
                    delta == 1,
                    k == t - start,
            ;
        }
    } else {
        if r == 0 {
            assert(start + o * delta == (q - 1) * n + t) by (nonlinear_arith)
                requires
                    k == n * q + r,
                    r == 0,
                    o == n,
                    delta == -1,
                    k == start - t,
            ;
        } else {
            assert(start + o * delta == q * n + t) by (nonlinear_arith)
                requires
                    k == n * q + r,
                    o == r,
                    delta == -1,
                    k == start - t,
            ;
        }
    }
    if delta == 1 {
        if r == 0 {
            vstd::arithmetic::div_mod::lemma_fundamental_div_mod_converse(start + o * delta, n, 1 - q, t);
        } else {
            vstd::arithmetic::div_mod::lemma_fundamental_div_mod_converse(start + o * delta, n, 0 - q, t);
        }
    } else {
        if r == 0 {
            vstd::arithmetic::div_mod::lemma_fundamental_div_mod_converse(start + o * delta, n, q - 1, t);
        } else {
            vstd::arithmetic::div_mod::lemma_fundamental_div_mod_converse(start + o * delta, n, q, t);
        }
    }
    o
}

/// Up and Down wrap around the rows: whenever some row is enabled, a unit
/// step lands on an enabled row and never clears the selection.
pub proof fn law_unit_step_finds_enabled_row(v: StateView, delta: int, t: int)
    requires
        state_ok(v),
        delta == 1 || delta == -1,
        0 <= t < rows_of(v.request.menus@, v.page).len(),
        !rows_of(v.request.menus@, v.page)[t].disabled,
    ensures
        stepped(v, delta).page.selected matches Some(i) && 0 <= i < rows_of(
            v.request.menus@,
            v.page,
        ).len() && !rows_of(v.request.menus@, v.page)[i].disabled,
{
    let rows = rows_of(v.request.menus@, v.page);
    let start = step_start(v.page.selected, delta);
    let o = lemma_unit_offset(start, delta, rows.len() as int, t);
    lemma_scan_reaches(rows, start, delta, 1, o);
    crate::state::lemma_scan(rows, start, delta, 1);
}

/// What a leaf activation hands back is the id of an enabled row of the open
/// page that opens no submenu; nothing else ever leaves the palette.
pub proof fn law_action_is_an_enabled_leaf(v: StateView)
    requires
        activated(v).1 is Some,
    ensures
        exists|i: int|
            0 <= i < rows_of(v.request.menus@, v.page).len() && !(#[trigger] rows_of(
                v.request.menus@,
                v.page,
            )[i]).disabled && rows_of(v.request.menus@, v.page)[i].submenu is None
                && rows_of(v.request.menus@, v.page)[i].id@ == activated(v).1->0,
        activated(v).0 == v,
{
    let i = v.page.selected->0;
    assert(!rows_of(v.request.menus@, v.page)[i].disabled);
}

proof fn lemma_filter_rows_match(items: Seq<Item>, query: Seq<char>, k: int)
    requires
        0 <= k < filter_rows(items, query).len(),
    ensures
        matches_query(filter_rows(items, query)[k], query),
    decreases items.len(),
{
    let init = items.drop_last();
    if k < filter_rows(init, query).len() {
        lemma_filter_rows_match(init, query, k);
    }
}

/// Every row is an item of the open menu that matches the query.
pub proof fn law_rows_are_matching_items(v: StateView, k: int)
    requires
        0 <= k < rows_of(v.request.menus@, v.page).len(),
    ensures
        matches_query(rows_of(v.request.menus@, v.page)[k], v.page.query),
        exists|j: int|
            0 <= j < menu_items(v.request.menus@, v.page.menu).len() && menu_items(
                v.request.menus@,
                v.page.menu,
            )[j] == #[trigger] rows_of(v.request.menus@, v.page)[k],
{
    let items = menu_items(v.request.menus@, v.page.menu);
    lemma_filter_rows_match(items, v.page.query, k);
    lemma_filter_rows_member(items, v.page.query, k);
}

/// The window never shows fewer than one row or more than nine; an empty
/// result list keeps one message row.
pub proof fn law_row_band(count: int)
    ensures
        1 <= crate::clamp_rows(count) <= 9,
        crate::clamp_rows(0) == crate::clamp_rows(1),
        152 <= 100 + 52 * crate::clamp_rows(count) <= 568,
{
}

/// The rules a request must meet, stated directly.
pub open spec fn well_formed_request(r: Request) -> bool {
    let m = r.menus@;
    &&& r.request_id@.len() > 0
    &&& lookup(m, r.root@) is Some
    &&& m.len() <= MAX_MENUS
    &&& total_items(m, m.len() as int) <= MAX_ITEMS
    &&& forall|a: int, j: int|
        0 <= a < m.len() && 0 <= j < m[a].1.items@.len() ==> {
            let it = #[trigger] m[a].1.items@[j];
            &&& it.id@.len() > 0
            &&& forall|t: int| 0 <= t < j ==> m[a].1.items@[t].id@ != it.id@
            &&& opt_view(it.submenu) matches Some(s) ==> lookup(m, s) is Some
        }
}

proof fn lemma_items_fault_none_back(m: Seq<(Seq<char>, Menu)>, items: Seq<Item>, n: int)
    requires
        forall|j: int| 0 <= j < n ==> #[trigger] item_fault(m, items, j) is None,
    ensures
        items_fault(m, items, n) is None,
    decreases n,
{
    if n > 0 {
        lemma_items_fault_none_back(m, items, n - 1);
    }
}

proof fn lemma_menus_fault_none_back(m: Seq<(Seq<char>, Menu)>, n: int)
    requires
        forall|a: int| 0 <= a < n ==> #[trigger] items_fault(m, m[a].1.items@, m[a].1.items@.len() as int) is None,
    ensures
        menus_fault(m, n) is None,
    decreases n,
{
    if n > 0 {
        lemma_menus_fault_none_back(m, n - 1);
    }
}

/// A request validates exactly when it has an id and an existing root, at
/// most 64 menus and 4096 items, and in every menu nonempty item ids, none
/// repeated within the menu, whose submenus all exist.
pub proof fn law_validation_meaning(r: Request)
    ensures
        valid_request(r) <==> well_formed_request(r),
{
    let m = r.menus@;
    if valid_request(r) {
        assert forall|a: int, j: int| 0 <= a < m.len() && 0 <= j < m[a].1.items@.len() implies {
            let it = #[trigger] m[a].1.items@[j];
            &&& it.id@.len() > 0
            &&& forall|t: int| 0 <= t < j ==> m[a].1.items@[t].id@ != it.id@
            &&& opt_view(it.submenu) matches Some(s) ==> lookup(m, s) is Some
        } by {
            lemma_menus_fault_none(m, m.len() as int, a);
            lemma_items_fault_none(m, m[a].1.items@, m[a].1.items@.len() as int, j);
        }
    }
    if well_formed_request(r) {
        assert forall|a: int| 0 <= a < m.len() implies #[trigger] items_fault(
            m,
            m[a].1.items@,
            m[a].1.items@.len() as int,
        ) is None by {
            let items = m[a].1.items@;
            assert forall|j: int| 0 <= j < items.len() implies #[trigger] item_fault(m, items, j) is None by {
                let it = m[a].1.items@[j];
                assert(forall|t: int| 0 <= t < j ==> items[t].id@ != it.id@);
            }
            lemma_items_fault_none_back(m, items, items.len() as int);
        }
        lemma_menus_fault_none_back(m, m.len() as int);
    }
}

/// Searching, selecting, stepping, quick keys and entering search mode act on
/// the open page only: the parent pages stay exactly as they were.
pub proof fn law_page_operations_keep_parents(v: StateView, q: Seq<char>, index: int, delta: int, key: Seq<char>)
    ensures
        searched(v, q).parents == v.parents,
        chosen(v, index).parents == v.parents,
        stepped(v, delta).parents == v.parents,
        quick_keyed(v, key).0.parents == v.parents,
        begun(v).parents == v.parents,
        searched(v, q).request == v.request,
        chosen(v, index).request == v.request,
        stepped(v, delta).request == v.request,
        quick_keyed(v, key).0.request == v.request,
{
}

/// Clearing the query and going back always reaches the innermost parent,
/// restored as it was when the submenu opened.
pub proof fn law_clear_then_back_restores_parent(v: StateView)
    requires
        v.parents.len() > 0,
    ensures
        backed(searched(v, seq![])) == (StateView {
            request: v.request,
            page: v.parents.last(),
            parents: v.parents.drop_last(),
        }, true),
{
}

// ---------------------------------------------------------------------------
// A step and the opposite step

proof fn lemma_scan_first(rows: Seq<Item>, start: int, delta: int, o: int, k: int)
    requires
        1 <= o <= k <= rows.len(),
        !rows[step_index(start, delta, k, rows.len() as int)].disabled,
        forall|t: int| o <= t < k ==> #[trigger] rows[step_index(start, delta, t, rows.len() as int)].disabled,
    ensures
        scan(rows, start, delta, o) == Some(step_index(start, delta, k, rows.len() as int)),
    decreases k - o,
{
    if o < k {
        assert(rows[step_index(start, delta, o, rows.len() as int)].disabled);
        lemma_scan_first(rows, start, delta, o + 1, k);
    }
}

proof fn lemma_scan_offset(rows: Seq<Item>, start: int, delta: int, o: int) -> (k: int)
    requires
        1 <= o,
        scan(rows, start, delta, o) is Some,
    ensures
        o <= k <= rows.len(),
        scan(rows, start, delta, o) == Some(step_index(start, delta, k, rows.len() as int)),
        !rows[step_index(start, delta, k, rows.len() as int)].disabled,
        forall|t: int| o <= t < k ==> #[trigger] rows[step_index(start, delta, t, rows.len() as int)].disabled,
    decreases rows.len() + 1 - o,
{
    if !rows[step_index(start, delta, o, rows.len() as int)].disabled {
        o
    } else {
        lemma_scan_offset(rows, start, delta, o + 1)
    }
}

/// Stepping back from `(i + k*d) % n` by `t` is stepping forward from `i` by `k - t`.
proof fn lemma_step_back(i: int, d: int, k: int, t: int, n: int)
    requires
        n > 0,
        d == 1 || d == -1,
    ensures
        step_index(step_index(i, d, k, n), -d, t, n) == step_index(i, d, k - t, n),
{
    vstd::arithmetic::div_mod::lemma_add_mod_noop_right(t * (-d), i + k * d, n);
    assert(t * (-d) + (i + k * d) == i + (k - t) * d) by (nonlinear_arith)
        requires
            d == 1 || d == -1,
    ;
}

/// One step and then one step the other way comes back to an enabled
/// selection: the rows skipped on the way out are skipped on the way back.
pub proof fn law_step_then_opposite_step_returns(v: StateView, d: int)
    requires
        d == 1 || d == -1,
        v.page.selected matches Some(i) && 0 <= i < rows_of(v.request.menus@, v.page).len()
            && !rows_of(v.request.menus@, v.page)[i].disabled,
    ensures
        stepped(stepped(v, d), -d).page.selected == v.page.selected,
        stepped(stepped(v, d), -d) == v,
{
    let rows = rows_of(v.request.menus@, v.page);
    let n = rows.len() as int;
    let i = v.page.selected->0;
    vstd::arithmetic::div_mod::lemma_small_mod(i as nat, n as nat);
    // The full turn lands on `i` itself, so the first step finds a row.
    assert(step_index(i, d, n, n) == i) by {
        vstd::arithmetic::div_mod::lemma_add_mod_noop_right(i, n * d, n);
        vstd::arithmetic::div_mod::lemma_mod_multiples_basic(d, n);
        assert(n * d == d * n) by (nonlinear_arith);
    }
    lemma_scan_reaches(rows, i, d, 1, n);
    let k = lemma_scan_offset(rows, i, d, 1);
    let j = step_index(i, d, k, n);
    let w = stepped(v, d);
    assert(w.page.selected == Some(j));
    assert(rows_of(w.request.menus@, w.page) == rows);
    assert(step_start(w.page.selected, -d) == j);
    assert forall|t: int| 1 <= t < k implies #[trigger] rows[step_index(j, -d, t, n)].disabled by {
        lemma_step_back(i, d, k, t, n);
        assert(rows[step_index(i, d, k - t, n)].disabled);
    }
    lemma_step_back(i, d, k, k, n);
    assert(step_index(i, d, 0, n) == i);
    lemma_scan_first(rows, j, -d, 1, k);
    assert(stepped(w, -d).page == v.page);
}

// ---------------------------------------------------------------------------
// Going back after work on a submenu

/// An operation on the open page.
pub enum PageOp {
    Search(Seq<char>),
    Select(int),
    Step(int),
    BeginSearch,
    QuickKey(Seq<char>),
    Activate,
}

pub open spec fn apply(v: StateView, op: PageOp) -> StateView {
    match op {
        PageOp::Search(q) => searched(v, q),
        PageOp::Select(i) => chosen(v, i),
        PageOp::Step(d) => stepped(v, d),
        PageOp::BeginSearch => begun(v),
        PageOp::QuickKey(k) => quick_keyed(v, k).0,
        PageOp::Activate => activated(v).0,
    }
}

/// The state after `ops`, in order.
pub open spec fn run(v: StateView, ops: Seq<PageOp>) -> StateView
    decreases ops.len(),
{
    if ops.len() == 0 {
        v
    } else {
        run(apply(v, ops[0]), ops.drop_first())
    }
}

/// Every activation among `ops` hands back a leaf's id (opens no submenu).
pub open spec fn leaf_activations_only(v: StateView, ops: Seq<PageOp>) -> bool
    decreases ops.len(),
{
    ops.len() == 0 || ((ops[0] is Activate ==> activated(v).1 is Some) && leaf_activations_only(
        apply(v, ops[0]),
        ops.drop_first(),
    ))
}

proof fn lemma_run_keeps_parents(v: StateView, ops: Seq<PageOp>)
    requires
        leaf_activations_only(v, ops),
    ensures
        run(v, ops).parents == v.parents,
        run(v, ops).request == v.request,
    decreases ops.len(),
{
    if ops.len() > 0 {
        lemma_run_keeps_parents(apply(v, ops[0]), ops.drop_first());
    }
}

/// After a submenu opens, any searches, selections, steps, quick keys and
/// leaf activations on it, ending with an empty query, going back restores
/// the state from before the submenu opened: its menu, query, search mode,
/// selection and depth.
pub proof fn law_back_after_submenu_work_restores(v: StateView, ops: Seq<PageOp>)
    requires
        activated(v).0.parents.len() == v.parents.len() + 1,
        leaf_activations_only(activated(v).0, ops),
        run(activated(v).0, ops).page.query.len() == 0,
    ensures
        backed(run(activated(v).0, ops)) == (v, true),
{
    let w = activated(v).0;
    lemma_run_keeps_parents(w, ops);
    assert(w.parents.drop_last() =~= v.parents);
}

// ---------------------------------------------------------------------------
// How the query's words decide the rows

/// Every word of `a` is a word of `b`.
pub open spec fn words_within(a: Seq<Seq<char>>, b: Seq<Seq<char>>) -> bool {
    forall|i: int| 0 <= i < a.len() ==> b.contains(#[trigger] a[i])
}

proof fn lemma_more_words_match_less(item: Item, q1: Seq<char>, q2: Seq<char>)
    requires
        words_within(words(lower_text(q1)), words(lower_text(q2))),
        matches_query(item, q2),
    ensures
        matches_query(item, q1),
{
    let w1 = words(lower_text(q1));
    let w2 = words(lower_text(q2));
    assert forall|i: int| 0 <= i < w1.len() implies crate::text::contains(
        lower_text(crate::state::haystack(item)),
        #[trigger] w1[i],
    ) by {
        let j = choose|j: int| 0 <= j < w2.len() && w2[j] == w1[i];
        assert(crate::text::contains(lower_text(crate::state::haystack(item)), w2[j]));
    }
}

/// A query whose words include all words of another shows a part of its
/// rows, in the same order: filtering by the larger query is filtering the
/// smaller query's rows again.
pub proof fn law_more_words_narrow_rows(items: Seq<Item>, q1: Seq<char>, q2: Seq<char>)
    requires
        words_within(words(lower_text(q1)), words(lower_text(q2))),
    ensures
        filter_rows(items, q2) == filter_rows(filter_rows(items, q1), q2),
    decreases items.len(),
{
    if items.len() > 0 {
        let init = items.drop_last();
        let x = items.last();
        law_more_words_narrow_rows(init, q1, q2);
        if matches_query(x, q2) {
            lemma_more_words_match_less(x, q1, q2);
            let f1 = filter_rows(init, q1);
            assert(filter_rows(items, q1) == f1.push(x));
            assert(f1.push(x).drop_last() =~= f1);
        } else if matches_query(x, q1) {
            let f1 = filter_rows(init, q1);
            assert(f1.push(x).drop_last() =~= f1);
        }
    }
}

/// Queries with the same words, in any order and any number of times, show
/// the same rows.
pub proof fn law_same_words_same_rows(items: Seq<Item>, q1: Seq<char>, q2: Seq<char>)
    requires
        words_within(words(lower_text(q1)), words(lower_text(q2))),
        words_within(words(lower_text(q2)), words(lower_text(q1))),
    ensures
        filter_rows(items, q1) == filter_rows(items, q2),
    decreases items.len(),
{
    if items.len() > 0 {
        law_same_words_same_rows(items.drop_last(), q1, q2);
        if matches_query(items.last(), q2) {
            lemma_more_words_match_less(items.last(), q1, q2);
        }
        if matches_query(items.last(), q1) {
            lemma_more_words_match_less(items.last(), q2, q1);
        }
    }
}

// ---------------------------------------------------------------------------
// How the query text decides the rows

/// The rows shown after searching for `q` on state `v`.
pub open spec fn search_rows(v: StateView, q: Seq<char>) -> Seq<Item> {
    rows_of(searched(v, q).request.menus@, searched(v, q).page)
}

proof fn lemma_search_rows(v: StateView, q: Seq<char>)
    ensures
        search_rows(v, q) == filter_rows(menu_items(v.request.menus@, v.page.menu), q),
{
}

/// A text that ends in a space has the words of the text before it.
proof fn lemma_words_space_end(a: Seq<char>)
    ensures
        words(a + seq![' ']) == words(a),
{
    let s = a + seq![' '];
    assert(s.drop_last() =~= a);
    assert(s.last() == ' ');
}

proof fn lemma_words_nonempty(s: Seq<char>)
    requires
        s.len() > 0,
        !whitespace(s.last()),
    ensures
        words(s).len() > 0,
{
}

/// After white space, or from the start, the words of `b` follow those of `x`.
proof fn lemma_words_join(x: Seq<char>, b: Seq<char>)
    requires
        x.len() == 0 || whitespace(x.last()),
    ensures
        words(x + b) == words(x) + words(b),
    decreases b.len(),
{
    if b.len() == 0 {
        assert(x + b =~= x);
        assert(words(x) + words(b) =~= words(x));
    } else {
        let bi = b.drop_last();
        let c = b.last();
        lemma_words_join(x, bi);
        let s = x + b;
        assert(s.drop_last() =~= x + bi);
        assert(s.last() == c);
        let w = words(x + bi);
        let wb = words(bi);
        if !whitespace(c) {
            if bi.len() > 0 {
                assert((x + bi).last() == bi.last());
            } else {
                assert(x + bi =~= x);
            }
            if bi.len() > 0 && !whitespace(bi.last()) {
                lemma_words_nonempty(bi);
                assert(w.update(w.len() - 1, w.last().push(c)) =~= words(x) + wb.update(
                    wb.len() - 1,
                    wb.last().push(c),
                ));
            } else {
                assert(w.push(seq![c]) =~= words(x) + wb.push(seq![c]));
            }
        }
    }
}

/// Text made of white space has no words.
proof fn lemma_blank_words(s: Seq<char>)
    requires
        forall|i: int| 0 <= i < s.len() ==> whitespace(#[trigger] s[i]),
    ensures
        words(s).len() == 0,
    decreases s.len(),
{
    if s.len() > 0 {
        let t = s.drop_last();
        assert forall|i: int| 0 <= i < t.len() implies whitespace(#[trigger] t[i]) by {
            assert(t[i] == s[i]);
        }
        lemma_blank_words(t);
        assert(whitespace(s[s.len() - 1]));
    }
}

/// Two ASCII texts joined by a space: the joined text is ASCII and its
/// lower-cased words are those of the first, then those of the second.
proof fn lemma_joined_words(q: Seq<char>, w: Seq<char>)
    requires
        ascii_text(q),
        ascii_text(w),
    ensures
        ascii_text(q + seq![' '] + w),
        words(lower_text(q + seq![' '] + w)) == words(lower_text(q)) + words(lower_text(w)),
{
    let j = q + seq![' '] + w;
    assert forall|i: int| 0 <= i < j.len() implies (#[trigger] j[i] as u32) < 128 by {
        if i < q.len() {
            assert(j[i] == q[i]);
        } else if i == q.len() {
            assert(j[i] == ' ');
        } else {
            assert(j[i] == w[i - q.len() - 1]);
        }
    }
    let lq = ascii_lower(q);
    let lw = ascii_lower(w);
    assert(ascii_lower_char(' ') == ' ');
    assert(ascii_lower(j) =~= lq + seq![' '] + lw);
    lemma_words_space_end(lq);
    lemma_words_join(lq + seq![' '], lw);
}

/// Rows under a query with no words: every item.
proof fn lemma_no_words_every_item(items: Seq<Item>, q: Seq<char>)
    requires
        words(lower_text(q)).len() == 0,
    ensures
        filter_rows(items, q) == items,
    decreases items.len(),
{
    if items.len() > 0 {
        lemma_no_words_every_item(items.drop_last(), q);
        assert(items.drop_last().push(items.last()) =~= items);
    }
}

/// Searching for an ASCII query made only of white space (the empty query
/// among them) shows every item of the open menu.
pub proof fn law_blank_query_shows_every_item(v: StateView, q: Seq<char>)
    requires
        ascii_text(q),
        forall|i: int| 0 <= i < q.len() ==> whitespace(#[trigger] q[i]),
    ensures
        search_rows(v, q) == menu_items(v.request.menus@, v.page.menu),
{
    assert forall|i: int| 0 <= i < q.len() implies #[trigger] ascii_lower_char(q[i]) == q[i] by {
        assert(whitespace(q[i]));
    }
    assert(ascii_lower(q) =~= q);
    lemma_blank_words(q);
    lemma_search_rows(v, q);
    lemma_no_words_every_item(menu_items(v.request.menus@, v.page.menu), q);
}

/// Adding a space and more text to an ASCII query shows a part of the
/// shorter query's rows, in their order: the longer query's rows are the
/// shorter query's rows filtered again.
pub proof fn law_longer_query_narrows_rows(v: StateView, q: Seq<char>, w: Seq<char>)
    requires
        ascii_text(q),
        ascii_text(w),
    ensures
        search_rows(v, q + seq![' '] + w) == filter_rows(
            search_rows(v, q),
            q + seq![' '] + w,
        ),
{
    let j = q + seq![' '] + w;
    lemma_joined_words(q, w);
    let a = words(lower_text(q));
    let b = words(lower_text(w));
    assert forall|i: int| 0 <= i < a.len() implies (a + b).contains(#[trigger] a[i]) by {
        assert((a + b)[i] == a[i]);
    }
    lemma_search_rows(v, q);
    lemma_search_rows(v, j);
    law_more_words_narrow_rows(menu_items(v.request.menus@, v.page.menu), q, j);
}

/// The order of two ASCII query parts does not change the rows.
pub proof fn law_query_order_keeps_rows(v: StateView, q: Seq<char>, w: Seq<char>)
    requires
        ascii_text(q),
        ascii_text(w),
    ensures
        search_rows(v, q + seq![' '] + w) == search_rows(v, w + seq![' '] + q),
{
    let j1 = q + seq![' '] + w;
    let j2 = w + seq![' '] + q;
    lemma_joined_words(q, w);
    lemma_joined_words(w, q);
    let a = words(lower_text(q));
    let b = words(lower_text(w));
    assert forall|i: int| 0 <= i < (a + b).len() implies (b + a).contains(#[trigger] (a + b)[i]) by {
        if i < a.len() {
            assert((b + a)[b.len() + i] == (a + b)[i]);
        } else {
            assert((b + a)[i - a.len()] == (a + b)[i]);
        }
    }
    assert forall|i: int| 0 <= i < (b + a).len() implies (a + b).contains(#[trigger] (b + a)[i]) by {
        if i < b.len() {
            assert((a + b)[a.len() + i] == (b + a)[i]);
        } else {
            assert((a + b)[i - b.len()] == (b + a)[i]);
        }
    }
    lemma_search_rows(v, j1);
    lemma_search_rows(v, j2);
    law_same_words_same_rows(menu_items(v.request.menus@, v.page.menu), j1, j2);
}

proof fn lemma_fold_lower(a: char, b: char)
    requires
        crate::text::ascii_fold(a) == crate::text::ascii_fold(b),
    ensures
        ascii_lower_char(a) == ascii_lower_char(b),
{
    vstd::utf8::char_u32_cast(a, a as u32);
    vstd::utf8::char_u32_cast(b, b as u32);
}

/// ASCII queries that differ only in ASCII case show the same rows.
pub proof fn law_ascii_case_keeps_rows(v: StateView, q1: Seq<char>, q2: Seq<char>)
    requires
        ascii_text(q1),
        ascii_text(q2),
        eq_ignore_ascii_case(q1, q2),
    ensures
        search_rows(v, q1) == search_rows(v, q2),
{
    assert forall|i: int| 0 <= i < q1.len() implies #[trigger] ascii_lower_char(q1[i])
        == ascii_lower_char(q2[i]) by {
        lemma_fold_lower(q1[i], q2[i]);
    }
    assert(ascii_lower(q1) =~= ascii_lower(q2));
    let a = words(lower_text(q1));
    assert forall|i: int| 0 <= i < a.len() implies a.contains(#[trigger] a[i]) by {}
    lemma_search_rows(v, q1);
    lemma_search_rows(v, q2);
    law_same_words_same_rows(menu_items(v.request.menus@, v.page.menu), q1, q2);
}

/// An ASCII query and its upper-cased form (what `str::to_uppercase` gives
/// on ASCII text) show the same rows.
pub proof fn law_upper_case_query_keeps_rows(v: StateView, q: Seq<char>)
    requires
        ascii_text(q),
    ensures
        search_rows(v, q) == search_rows(v, ascii_upper(q)),
{
    let u = ascii_upper(q);
    assert forall|i: int| 0 <= i < u.len() implies (#[trigger] u[i] as u32) < 128
        && crate::text::ascii_fold(q[i]) == crate::text::ascii_fold(u[i]) by {
        assert(u[i] == ascii_upper_char(q[i]));
        assert((q[i] as u32) < 128);
    }
    law_ascii_case_keeps_rows(v, q, u);
}

// ---------------------------------------------------------------------------
// Navigate commands

/// Each navigate action name asks for one move, and only the names listed
/// for a move ask for it: `edit.up`/`select.up` move up, `edit.down`/
/// `select.down` move down, `edit.left`/`back` go back, `edit.right`/`accept`
/// accept, `close` closes; every other name is ignored.
pub proof fn law_navigate_names(a: Seq<char>)
    ensures
        (nav_of(a) == NavAction::Up) <==> (a == "edit.up"@ || a == "select.up"@),
        (nav_of(a) == NavAction::Down) <==> (a == "edit.down"@ || a == "select.down"@),
        (nav_of(a) == NavAction::Back) <==> (a == "edit.left"@ || a == "back"@),
        (nav_of(a) == NavAction::Accept) <==> (a == "edit.right"@ || a == "accept"@),
        (nav_of(a) == NavAction::Close) <==> a == "close"@,
{
    reveal_strlit("edit.up");
    reveal_strlit("select.up");
    reveal_strlit("edit.down");
    reveal_strlit("select.down");
    reveal_strlit("edit.left");
    reveal_strlit("back");
    reveal_strlit("edit.right");
    reveal_strlit("accept");
    reveal_strlit("close");
    assert("select.up"@[0] != "edit.down"@[0]);
    assert("select.up"@[0] != "edit.left"@[0]);
    assert("edit.down"@[5] != "edit.left"@[5]);
    assert("edit.up"@.len() == 7 && "select.up"@.len() == 9 && "edit.down"@.len() == 9);
    assert("select.down"@.len() == 11 && "edit.left"@.len() == 9 && "back"@.len() == 4);
    assert("edit.right"@.len() == 10 && "accept"@.len() == 6 && "close"@.len() == 5);
}

// ---------------------------------------------------------------------------
// Quick keys

proof fn lemma_first_shortcut(rows: Seq<Item>, key: Seq<char>, i: int)
    requires
        0 <= i,
    ensures
        crate::state::shortcut_from(rows, key, i) matches Some(k) ==> {
            &&& i <= k < rows.len()
            &&& !rows[k].disabled
            &&& eq_ignore_ascii_case(rows[k].shortcut@, key)
            &&& forall|j: int|
                i <= j < k ==> !(!rows[j].disabled && eq_ignore_ascii_case(
                    #[trigger] rows[j].shortcut@,
                    key,
                ))
        },
        crate::state::shortcut_from(rows, key, i) is None ==> forall|j: int|
            i <= j < rows.len() ==> !(!rows[j].disabled && eq_ignore_ascii_case(
                #[trigger] rows[j].shortcut@,
                key,
            )),
    decreases rows.len() - i,
{
    if i < rows.len() {
        lemma_first_shortcut(rows, key, i + 1);
    }
}

/// A bare letter taken on a quick page selects the first enabled row whose
/// shortcut equals the key up to ASCII case; a letter that is not taken
/// changes nothing, and on a quick page it means no enabled row has that
/// shortcut. Off a quick page (or while searching) no letter is taken.
pub proof fn law_quick_key_selects_matching_row(v: StateView, key: Seq<char>)
    ensures
        ({
            let (w, hit) = quick_keyed(v, key);
            let rows = rows_of(v.request.menus@, v.page);
            &&& hit ==> quick_of(v)
            &&& hit ==> exists|k: int|
                {
                    &&& 0 <= k < rows.len()
                    &&& w.page.selected == Some(k)
                    &&& !rows[k].disabled
                    &&& eq_ignore_ascii_case(#[trigger] rows[k].shortcut@, key)
                    &&& forall|j: int|
                        0 <= j < k ==> !(!rows[j].disabled && eq_ignore_ascii_case(
                            #[trigger] rows[j].shortcut@,
                            key,
                        ))
                }
            &&& hit ==> w.request == v.request && w.parents == v.parents && w.page.menu
                == v.page.menu && w.page.query == v.page.query && w.page.searching
                == v.page.searching
            &&& !hit ==> w == v
            &&& (!hit && quick_of(v)) ==> forall|j: int|
                0 <= j < rows.len() ==> !(!rows[j].disabled && eq_ignore_ascii_case(
                    #[trigger] rows[j].shortcut@,
                    key,
                ))
        }),
{
    let rows = rows_of(v.request.menus@, v.page);
    lemma_first_shortcut(rows, key, 0);
    if quick_of(v) {
        if let Some(k) = crate::state::shortcut_from(rows, key, 0) {
            assert(eq_ignore_ascii_case(rows[k].shortcut@, key));
        }
    }
}

// ---------------------------------------------------------------------------
// Which items a query matches

/// All of an item's searchable texts are ASCII.
pub open spec fn ascii_item(item: Item) -> bool {
    &&& ascii_text(item.title@)
    &&& ascii_text(item.detail@)
    &&& ascii_text(item.keywords@)
    &&& ascii_text(item.shortcut@)
}

/// `w` occurs in the lower-cased title, detail, keywords or shortcut text.
pub open spec fn in_some_field(item: Item, w: Seq<char>) -> bool {
    ||| contains(ascii_lower(item.title@), w)
    ||| contains(ascii_lower(item.detail@), w)
    ||| contains(ascii_lower(item.keywords@), w)
    ||| contains(ascii_lower(item.shortcut@), w)
}

proof fn lemma_contains_left(a: Seq<char>, b: Seq<char>, w: Seq<char>)
    requires
        contains(a, w),
    ensures
        contains(a + b, w),
{
    let k = choose|k: int| occurs_at(a, w, k);
    assert((a + b).subrange(k, k + w.len()) =~= a.subrange(k, k + w.len()));
    assert(occurs_at(a + b, w, k));
}

proof fn lemma_contains_right(a: Seq<char>, b: Seq<char>, w: Seq<char>)
    requires
        contains(b, w),
    ensures
        contains(a + b, w),
{
    let k = choose|k: int| occurs_at(b, w, k);
    assert((a + b).subrange(a.len() + k, a.len() + k + w.len()) =~= b.subrange(k, k + w.len()));
    assert(occurs_at(a + b, w, a.len() + k));
}

/// A word without white space found in `a`, a space, `b` lies in `a` or in `b`.
proof fn lemma_contains_split(a: Seq<char>, b: Seq<char>, w: Seq<char>)
    requires
        contains(a + seq![' '] + b, w),
        forall|j: int| 0 <= j < w.len() ==> !whitespace(#[trigger] w[j]),
    ensures
        contains(a, w) || contains(b, w),
{
    let h = a + seq![' '] + b;
    let k = choose|k: int| occurs_at(h, w, k);
    if k + w.len() <= a.len() {
        assert(a.subrange(k, k + w.len()) =~= h.subrange(k, k + w.len()));
        assert(occurs_at(a, w, k));
    } else if k >= a.len() + 1 {
        let k2 = k - a.len() - 1;
        assert(b.subrange(k2, k2 + w.len()) =~= h.subrange(k, k + w.len()));
        assert(occurs_at(b, w, k2));
    } else {
        let j = a.len() - k;
        assert(h.subrange(k, k + w.len())[j] == h[a.len() as int]);
        assert(h[a.len() as int] == ' ');
        assert(w[j] == ' ');
        assert(whitespace(w[j]));
    }
}

/// The words of a text hold no white space.
proof fn lemma_words_unbroken(s: Seq<char>)
    ensures
        forall|i: int, j: int|
            0 <= i < words(s).len() && 0 <= j < words(s)[i].len() ==> !whitespace(
                #[trigger] words(s)[i][j],
            ),
    decreases s.len(),
{
    if s.len() > 0 {
        let init = s.drop_last();
        let c = s.last();
        lemma_words_unbroken(init);
        let w = words(init);
        if !whitespace(c) {
            if init.len() > 0 && !whitespace(init.last()) && w.len() > 0 {
                let u = w.update(w.len() - 1, w.last().push(c));
                assert forall|i: int, j: int|
                    0 <= i < u.len() && 0 <= j < u[i].len() implies !whitespace(#[trigger] u[i][j]) by {
                    if i == w.len() - 1 && j == w.last().len() {
                        assert(u[i][j] == c);
                    } else if i == w.len() - 1 {
                        assert(u[i][j] == w[i][j]);
                    }
                }
            } else {
                let u = w.push(seq![c]);
                assert forall|i: int, j: int|
                    0 <= i < u.len() && 0 <= j < u[i].len() implies !whitespace(#[trigger] u[i][j]) by {
                    if i == w.len() {
                        assert(u[i][j] == c);
                    }
                }
            }
        }
    }
}

/// The lower-cased text an ASCII item is searched by: its four fields,
/// lower-cased, with a space between each.
proof fn lemma_ascii_haystack(item: Item)
    requires
        ascii_item(item),
    ensures
        lower_text(crate::state::haystack(item)) == ascii_lower(item.title@) + seq![' ']
            + ascii_lower(item.detail@) + seq![' '] + ascii_lower(item.keywords@) + seq![' ']
            + ascii_lower(item.shortcut@),
{
    let t = item.title@;
    let d = item.detail@;
    let k = item.keywords@;
    let s = item.shortcut@;
    let h = crate::state::haystack(item);
    assert(h =~= t + seq![' '] + d + seq![' '] + k + seq![' '] + s);
    assert forall|i: int| 0 <= i < h.len() implies (#[trigger] h[i] as u32) < 128 by {
        let a = t.len() as int;
        let b = a + 1 + d.len();
        let c = b + 1 + k.len();
        if i < a {
            assert(h[i] == t[i]);
        } else if i == a || i == b || i == c {
            assert(h[i] == ' ');
        } else if i < b {
            assert(h[i] == d[i - a - 1]);
        } else if i < c {
            assert(h[i] == k[i - b - 1]);
        } else {
            assert(h[i] == s[i - c - 1]);
        }
    }
    assert(ascii_lower_char(' ') == ' ');
    assert(ascii_lower(h) =~= ascii_lower(t) + seq![' '] + ascii_lower(d) + seq![' ']
        + ascii_lower(k) + seq![' '] + ascii_lower(s));
}

/// An item whose texts are ASCII matches a query exactly when every word of
/// the lower-cased query occurs in its lower-cased title, detail, keywords
/// or shortcut text (each word in one of them).
pub proof fn law_item_matches_by_its_fields(item: Item, query: Seq<char>)
    requires
        ascii_item(item),
    ensures
        matches_query(item, query) <==> (forall|i: int|
            0 <= i < words(lower_text(query)).len() ==> in_some_field(
                item,
                #[trigger] words(lower_text(query))[i],
            )),
{
    let ws = words(lower_text(query));
    let lt = ascii_lower(item.title@);
    let ld = ascii_lower(item.detail@);
    let lk = ascii_lower(item.keywords@);
    let ls = ascii_lower(item.shortcut@);
    let sp = seq![' '];
    lemma_ascii_haystack(item);
    let hay = lt + sp + ld + sp + lk + sp + ls;
    lemma_words_unbroken(lower_text(query));
    if matches_query(item, query) {
        assert forall|i: int| 0 <= i < ws.len() implies in_some_field(item, #[trigger] ws[i]) by {
            let w = ws[i];
            assert(contains(hay, w));
            assert forall|j: int| 0 <= j < w.len() implies !whitespace(#[trigger] w[j]) by {
                assert(!whitespace(ws[i][j]));
            }
            lemma_contains_split(lt + sp + ld + sp + lk, ls, w);
            if contains(lt + sp + ld + sp + lk, w) {
                lemma_contains_split(lt + sp + ld, lk, w);
                if contains(lt + sp + ld, w) {
                    lemma_contains_split(lt, ld, w);
                }
            }
        }
    }
    if forall|i: int| 0 <= i < ws.len() ==> in_some_field(item, #[trigger] ws[i]) {
        assert forall|i: int| 0 <= i < ws.len() implies contains(hay, #[trigger] ws[i]) by {
            let w = ws[i];
            assert(in_some_field(item, w));
            if contains(lt, w) {
                lemma_contains_left(lt, sp + ld, w);
                assert(lt + (sp + ld) =~= lt + sp + ld);
                lemma_contains_left(lt + sp + ld, sp + lk, w);
                assert(lt + sp + ld + (sp + lk) =~= lt + sp + ld + sp + lk);
                lemma_contains_left(lt + sp + ld + sp + lk, sp + ls, w);
                assert(lt + sp + ld + sp + lk + (sp + ls) =~= hay);
            } else if contains(ld, w) {
                lemma_contains_right(lt + sp, ld, w);
                lemma_contains_left(lt + sp + ld, sp + lk, w);
                assert(lt + sp + ld + (sp + lk) =~= lt + sp + ld + sp + lk);
                lemma_contains_left(lt + sp + ld + sp + lk, sp + ls, w);
                assert(lt + sp + ld + sp + lk + (sp + ls) =~= hay);
            } else if contains(lk, w) {
                lemma_contains_right(lt + sp + ld + sp, lk, w);
                lemma_contains_left(lt + sp + ld + sp + lk, sp + ls, w);
                assert(lt + sp + ld + sp + lk + (sp + ls) =~= hay);
            } else {
                lemma_contains_right(lt + sp + ld + sp + lk + sp, ls, w);
            }
        }
    }
}

// ---------------------------------------------------------------------------
// Theme names

/// The Xfce theme name and the GTK theme name are read alike: the same
/// output gives the same answer; a failed tool leaves the theme unknown; a
/// name always decides; and an ASCII name means dark exactly when, with its
/// letters lower-cased, it contains "dark" or "black".
pub proof fn law_theme_names_read_alike(out: Option<Seq<char>>, name: Seq<char>)
    ensures
        theme_after(ThemeQuery::XfceThemeName, out) == theme_after(ThemeQuery::GtkTheme, out),
        theme_after(ThemeQuery::GtkTheme, None) == ThemeStep::Done(None),
        theme_after(ThemeQuery::GtkTheme, Some(name)) matches ThemeStep::Done(Some(_)),
        ascii_text(name) ==> theme_after(ThemeQuery::XfceThemeName, Some(name)) == ThemeStep::Done(
            Some(
                contains(ascii_lower(name), seq!['d', 'a', 'r', 'k']) || contains(
                    ascii_lower(name),
                    seq!['b', 'l', 'a', 'c', 'k'],
                ),
            ),
        ),
{
}

// ---------------------------------------------------------------------------
// The command line

/// One of the arguments the program knows.
pub open spec fn listed_arg(a: Seq<char>) -> bool {
    a == "--demo"@ || a == "--dump-demo"@ || a == "--lang=zh"@ || a == "--lang=en"@ || a
        == "--dark"@ || a == "--light"@
}

proof fn lemma_first_unknown(args: Seq<Seq<char>>, i: int)
    requires
        0 <= i,
    ensures
        crate::options::first_unknown(args, i) matches Some(k) ==> i <= k < args.len()
            && !listed_arg(args[k]) && forall|j: int| i <= j < k ==> listed_arg(#[trigger] args[j]),
        crate::options::first_unknown(args, i) is None ==> forall|j: int|
            i <= j < args.len() ==> listed_arg(#[trigger] args[j]),
    decreases args.len() - i,
{
    if i < args.len() {
        lemma_first_unknown(args, i + 1);
    }
}

/// What the command line means: `--help` anywhere asks for help and nothing
/// else; otherwise it is refused exactly when some argument is not one the
/// program knows, naming the first such; and an accepted one asks for the
/// demo, the dump, the language (`--lang=zh` over `--lang=en`, neither: the
/// locale) and the theme (`--dark` over `--light`, neither: the system)
/// exactly as its arguments say.
pub proof fn law_command_line(args: Seq<Seq<char>>)
    ensures
        args.contains("--help"@) ==> parsed(args) == Ok::<Options, Seq<char>>(
            Options { help: true, demo: false, dump_demo: false, zh: None, theme_override: None },
        ),
        !args.contains("--help"@) ==> (parsed(args) is Ok <==> forall|i: int|
            0 <= i < args.len() ==> listed_arg(#[trigger] args[i])),
        parsed(args) matches Err(e) ==> exists|k: int|
            0 <= k < args.len() && !listed_arg(args[k]) && e == "unknown argument: "@ + args[k]
                && forall|j: int| 0 <= j < k ==> listed_arg(#[trigger] args[j]),
        parsed(args) matches Ok(o) ==> {
            &&& o.help == args.contains("--help"@)
            &&& !o.help ==> {
                &&& o.demo == args.contains("--demo"@)
                &&& o.dump_demo == args.contains("--dump-demo"@)
                &&& (o.zh == Some(true) <==> args.contains("--lang=zh"@))
                &&& (o.zh == Some(false) <==> (args.contains("--lang=en"@) && !args.contains(
                    "--lang=zh"@,
                )))
                &&& (o.zh is None <==> (!args.contains("--lang=en"@) && !args.contains(
                    "--lang=zh"@,
                )))
                &&& (o.theme_override == Some(true) <==> args.contains("--dark"@))
                &&& (o.theme_override == Some(false) <==> (args.contains("--light"@)
                    && !args.contains("--dark"@)))
                &&& (o.theme_override is None <==> (!args.contains("--light"@)
                    && !args.contains("--dark"@)))
            }
        },
{
    lemma_first_unknown(args, 0);
    reveal_strlit("--help");
    reveal_strlit("--demo");
    reveal_strlit("--dump-demo");
    reveal_strlit("--lang=zh");
    reveal_strlit("--lang=en");
    reveal_strlit("--dark");
    reveal_strlit("--light");
    assert forall|a: Seq<char>| crate::options::known_arg(a) == listed_arg(a) by {}
    assert forall|a: Seq<char>| crate::options::has_arg(args, a) == args.contains(a) by {
        if args.contains(a) {
            let i = choose|i: int| 0 <= i < args.len() && args[i] == a;
            assert(args[i] == a);
        }
    }
}

} // verus!
