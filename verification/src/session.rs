//! The resident host's session: at most one open request, and the protocol
//! events its commands produce (shown, action, dismissed, error).
use vstd::prelude::*;
use crate::menu::{validation, Request};
use crate::state::{
    activated, backed, begun, chosen, initial, quick_keyed, rows_of, searched, state_ok,
    stepped, derefs, State, StateView,
};
use crate::text::{owned, same_text, to_uppercase, upper_text};
use crate::laws::law_unit_steps_fit;

verus! {

/// Why an open palette closed without an action.
#[derive(Clone, Copy, Debug, PartialEq, Eq)]
pub enum Reason {
    Escape,
    Blur,
    Client,
    Close,
    Replaced,
    Shutdown,
}

pub open spec fn reason_text(r: Reason) -> &'static str {
    match r {
        Reason::Escape => "escape",
        Reason::Blur => "blur",
        Reason::Client => "client",
        Reason::Close => "close",
        Reason::Replaced => "replaced",
        Reason::Shutdown => "shutdown",
    }
}

impl Reason {
    /// The reason as the protocol writes it.
    pub fn text(&self) -> (t: &'static str)
        ensures
            t == reason_text(*self),
    {
        match self {
            Reason::Escape => "escape",
            Reason::Blur => "blur",
            Reason::Client => "client",
            Reason::Close => "close",
            Reason::Replaced => "replaced",
            Reason::Shutdown => "shutdown",
        }
    }
}

/// An output line of the protocol.
#[derive(Debug)]
pub enum Event {
    /// The palette for this request is on screen.
    Shown { request_id: String },
    /// A leaf was chosen; the palette closed.
    Action { request_id: String, action: String },
    /// The palette closed without an action.
    Dismissed { request_id: String, reason: Reason },
    /// A command failed.
    Error { request_id: Option<String>, message: String },
}

/// An event, abstractly.
pub enum EventView {
    Shown(Seq<char>),
    Action(Seq<char>, Seq<char>),
    Dismissed(Seq<char>, Reason),
    Error(Option<Seq<char>>, Seq<char>),
}

pub open spec fn event_view(e: Event) -> EventView {
    match e {
        Event::Shown { request_id } => EventView::Shown(request_id@),
        Event::Action { request_id, action } => EventView::Action(request_id@, action@),
        Event::Dismissed { request_id, reason } => EventView::Dismissed(request_id@, reason),
        Event::Error { request_id, message } => EventView::Error(
            match request_id {
                Some(i) => Some(i@),
                None => None,
            },
            message@,
        ),
    }
}

pub open spec fn events_view(v: Seq<Event>) -> Seq<EventView> {
    v.map_values(|e: Event| event_view(e))
}

/// A UI command carried by a `navigate` request.
#[derive(Clone, Copy, Debug, PartialEq, Eq)]
pub enum NavAction {
    Up,
    Down,
    Back,
    Accept,
    Close,
    Ignore,
}

/// What a `navigate` action name asks of the UI.
pub open spec fn nav_of(a: Seq<char>) -> NavAction {
    if a == "edit.up"@ || a == "select.up"@ {
        NavAction::Up
    } else if a == "edit.down"@ || a == "select.down"@ {
        NavAction::Down
    } else if a == "edit.left"@ || a == "back"@ {
        NavAction::Back
    } else if a == "edit.right"@ || a == "accept"@ {
        NavAction::Accept
    } else if a == "close"@ {
        NavAction::Close
    } else {
        NavAction::Ignore
    }
}

pub fn nav_action(a: &str) -> (n: NavAction)
    ensures
        n == nav_of(a@),
{
    if same_text(a, "edit.up") || same_text(a, "select.up") {
        NavAction::Up
    } else if same_text(a, "edit.down") || same_text(a, "select.down") {
        NavAction::Down
    } else if same_text(a, "edit.left") || same_text(a, "back") {
        NavAction::Back
    } else if same_text(a, "edit.right") || same_text(a, "accept") {
        NavAction::Accept
    } else if same_text(a, "close") {
        NavAction::Close
    } else {
        NavAction::Ignore
    }
}

/// Largest input frame, in bytes.
pub const MAX_FRAME: usize = 1048576;

/// What becomes of one read from standard input.
#[derive(Clone, Copy, Debug, PartialEq, Eq)]
pub enum FrameFate {
    /// End of input or a read error: quit.
    Quit,
    /// Over `MAX_FRAME` bytes: report and quit.
    TooLarge,
    /// Decode it as UTF-8 and dispatch it.
    Dispatch,
}

/// `read` is the byte count of a successful read (`None`: the read failed),
/// `len` the bytes collected.
pub fn frame_fate(read: Option<usize>, len: usize) -> (f: FrameFate)
    ensures
        f == match read {
            None => FrameFate::Quit,
            Some(k) => if k == 0 {
                FrameFate::Quit
            } else if len > MAX_FRAME {
                FrameFate::TooLarge
            } else {
                FrameFate::Dispatch
            },
        },
{
    match read {
        None => FrameFate::Quit,
        Some(k) => if k == 0 {
            FrameFate::Quit
        } else if len > MAX_FRAME {
            FrameFate::TooLarge
        } else {
            FrameFate::Dispatch
        },
    }
}

/// A session, abstractly.
pub struct SessionView {
    pub state: Option<StateView>,
    pub focused: bool,
}

/// At most one open palette, and whether its window has had focus.
pub struct Session {
    state: Option<State>,
    focused: bool,
}

pub open spec fn session_ok(v: SessionView) -> bool {
    v.state matches Some(s) ==> state_ok(s)
}

/// The events closing the session for `reason` produces: one `dismissed`
/// for an open palette, nothing otherwise.
pub open spec fn dismissal(v: SessionView, reason: Reason) -> Seq<EventView> {
    match v.state {
        Some(s) => seq![EventView::Dismissed(s.request.request_id@, reason)],
        None => seq![],
    }
}

pub open spec fn closed_session() -> SessionView {
    SessionView { state: None, focused: false }
}

pub open spec fn with_state(v: SessionView, s: StateView) -> SessionView {
    SessionView { state: Some(s), focused: v.focused }
}

/// The request id of the open palette, if any.
pub open spec fn active_id(v: SessionView) -> Option<Seq<char>> {
    match v.state {
        Some(s) => Some(s.request.request_id@),
        None => None,
    }
}

pub open spec fn alt_prefix() -> Seq<char> {
    seq!['A', 'l', 't', '+']
}

/// The first enabled row at or after `i` whose shortcut is exactly `shortcut`.
pub open spec fn accel_from(rows: Seq<crate::menu::Item>, shortcut: Seq<char>, i: int) -> Option<int>
    decreases rows.len() - i,
{
    if i < 0 || i >= rows.len() {
        None
    } else if !rows[i].disabled && rows[i].shortcut@ == shortcut {
        Some(i)
    } else {
        accel_from(rows, shortcut, i + 1)
    }
}

impl View for Session {
    type V = SessionView;

    closed spec fn view(&self) -> SessionView {
        SessionView {
            state: match self.state {
                Some(s) => Some(s@),
                None => None,
            },
            focused: self.focused,
        }
    }
}

impl Session {
    pub open spec fn wf(&self) -> bool {
        session_ok(self@)
    }

    /// No palette open.
    pub fn new() -> (s: Self)
        ensures
            s@ == closed_session(),
            s.wf(),
    {
        Session { state: None, focused: false }
    }

    /// The open palette's state.
    pub fn state(&self) -> (s: Option<&State>)
        ensures
            match s {
                Some(st) => self@.state == Some(st@),
                None => self@.state is None,
            },
    {
        match &self.state {
            Some(st) => Some(st),
            None => None,
        }
    }

    /// Closes the open palette, if any, reporting it dismissed for `reason`.
    pub fn finish(&mut self, reason: Reason) -> (events: Vec<Event>)
        requires
            old(self).wf(),
        ensures
            final(self)@ == closed_session(),
            events_view(events@) == dismissal(old(self)@, reason),
            final(self).wf(),
    {
        self.focused = false;
        let mut events: Vec<Event> = Vec::new();
        match self.state.take() {
            Some(st) => {
                let id = st.request().request_id.clone();
                events.push(Event::Dismissed { request_id: id, reason });
                assert(events_view(events@) =~= dismissal(old(self)@, reason));
            },
            None => {
                assert(events_view(events@) =~= dismissal(old(self)@, reason));
            },
        }
        events
    }

    /// Opens `request`. An invalid request is refused with an error and leaves
    /// the open palette as it was; a valid one replaces it (reported dismissed
    /// as replaced) by a fresh state at its root.
    pub fn show(&mut self, request: Request) -> (events: Vec<Event>)
        requires
            old(self).wf(),
        ensures
            final(self).wf(),
            match validation(request) {
                Err(e) => {
                    &&& final(self)@ == old(self)@
                    &&& events_view(events@) == seq![EventView::Error(Some(request.request_id@), e@)]
                },
                Ok(_) => {
                    &&& final(self)@ == with_state(closed_session(), initial(request))
                    &&& events_view(events@) == dismissal(old(self)@, Reason::Replaced)
                },
            },
    {
        let id = request.request_id.clone();
        let ghost req = request;
        match State::new(request) {
            Err(e) => {
                let mut events: Vec<Event> = Vec::new();
                events.push(Event::Error { request_id: Some(id), message: owned(e) });
                assert(events_view(events@) =~= seq![EventView::Error(Some(req.request_id@), e@)]);
                events
            },
            Ok(st) => {
                let events = self.finish(Reason::Replaced);
                self.state = Some(st);
                events
            },
        }
    }

    /// The window could not be shown: the palette closes with an error.
    pub fn fail(&mut self, message: String) -> (events: Vec<Event>)
        requires
            old(self).wf(),
        ensures
            final(self)@ == (SessionView { state: None, focused: old(self)@.focused }),
            events_view(events@) == match active_id(old(self)@) {
                Some(id) => seq![EventView::Error(Some(id), message@)],
                None => Seq::<EventView>::empty(),
            },
            final(self).wf(),
    {
        let mut events: Vec<Event> = Vec::new();
        match self.state.take() {
            Some(st) => {
                let id = st.request().request_id.clone();
                events.push(Event::Error { request_id: Some(id), message });
            },
            None => {},
        }
        assert(events_view(events@) =~= match active_id(old(self)@) {
            Some(id) => seq![EventView::Error(Some(id), message@)],
            None => Seq::<EventView>::empty(),
        });
        events
    }

    /// The acknowledgement that the open palette is on screen.
    pub fn announce(&self) -> (events: Vec<Event>)
        ensures
            events_view(events@) == match active_id(self@) {
                Some(id) => seq![EventView::Shown(id)],
                None => Seq::<EventView>::empty(),
            },
    {
        let mut events: Vec<Event> = Vec::new();
        match &self.state {
            Some(st) => {
                events.push(Event::Shown { request_id: st.request().request_id.clone() });
            },
            None => {},
        }
        assert(events_view(events@) =~= match active_id(self@) {
            Some(id) => seq![EventView::Shown(id)],
            None => Seq::<EventView>::empty(),
        });
        events
    }

    /// Whether `request_id` names the open palette.
    pub fn is_active(&self, request_id: &str) -> (b: bool)
        ensures
            b == (active_id(self@) == Some(request_id@)),
    {
        match &self.state {
            Some(st) => same_text(st.request().request_id.as_str(), request_id),
            None => false,
        }
    }

    /// The client hides `request_id`; a stale id changes nothing.
    pub fn hide_request(&mut self, request_id: &str) -> (events: Vec<Event>)
        requires
            old(self).wf(),
        ensures
            final(self).wf(),
            if active_id(old(self)@) == Some(request_id@) {
                &&& final(self)@ == closed_session()
                &&& events_view(events@) == dismissal(old(self)@, Reason::Client)
            } else {
                &&& final(self)@ == old(self)@
                &&& events@.len() == 0
            },
    {
        if self.is_active(request_id) {
            self.finish(Reason::Client)
        } else {
            Vec::new()
        }
    }

    /// What a `navigate` command for `request_id` asks; nothing for a stale id.
    pub fn navigate(&self, request_id: &str, action: &str) -> (n: NavAction)
        ensures
            n == if active_id(self@) == Some(request_id@) {
                nav_of(action@)
            } else {
                NavAction::Ignore
            },
    {
        if self.is_active(request_id) {
            nav_action(action)
        } else {
            NavAction::Ignore
        }
    }

    /// The window gained focus.
    pub fn focus(&mut self)
        requires
            old(self).wf(),
        ensures
            final(self)@ == (SessionView { state: old(self)@.state, focused: true }),
            final(self).wf(),
    {
        self.focused = true;
    }

    /// The window lost focus: a palette that had focus closes as blurred.
    pub fn blur(&mut self) -> (events: Vec<Event>)
        requires
            old(self).wf(),
        ensures
            final(self).wf(),
            if old(self)@.focused {
                &&& final(self)@ == closed_session()
                &&& events_view(events@) == dismissal(old(self)@, Reason::Blur)
            } else {
                &&& final(self)@ == old(self)@
                &&& events@.len() == 0
            },
    {
        if self.focused {
            self.finish(Reason::Blur)
        } else {
            Vec::new()
        }
    }

    /// Activates the selection of the open palette. A leaf closes it with an
    /// `action` event carrying the request id and the item id; a submenu opens
    /// in place and nothing is reported.
    pub fn activate(&mut self) -> (events: Vec<Event>)
        requires
            old(self).wf(),
        ensures
            final(self).wf(),
            match old(self)@.state {
                None => final(self)@ == old(self)@ && events@.len() == 0,
                Some(s) => match activated(s).1 {
                    Some(action) => {
                        &&& final(self)@ == closed_session()
                        &&& events_view(events@) == seq![EventView::Action(s.request.request_id@, action)]
                    },
                    None => {
                        &&& final(self)@ == with_state(old(self)@, activated(s).0)
                        &&& events@.len() == 0
                    },
                },
            },
    {
        let action = match &mut self.state {
            Some(st) => st.activate(),
            None => return Vec::new(),
        };
        match action {
            Some(action) => {
                self.focused = false;
                let mut events: Vec<Event> = Vec::new();
                match self.state.take() {
                    Some(st) => {
                        let id = st.request().request_id.clone();
                        events.push(Event::Action { request_id: id, action });
                    },
                    None => {},
                }
                proof {
                    let s = old(self)@.state->0;
                    assert(events_view(events@) =~= seq![EventView::Action(s.request.request_id@, activated(s).1->0)]);
                }
                events
            },
            None => Vec::new(),
        }
    }

    /// Searches the open palette.
    pub fn search(&mut self, query: String)
        requires
            old(self).wf(),
        ensures
            final(self).wf(),
            final(self)@ == match old(self)@.state {
                Some(s) => with_state(old(self)@, searched(s, query@)),
                None => old(self)@,
            },
    {
        match &mut self.state {
            Some(st) => st.search(query),
            None => {},
        }
    }

    /// Enters search mode.
    pub fn begin_search(&mut self)
        requires
            old(self).wf(),
        ensures
            final(self).wf(),
            final(self)@ == match old(self)@.state {
                Some(s) => with_state(old(self)@, begun(s)),
                None => old(self)@,
            },
    {
        match &mut self.state {
            Some(st) => st.begin_search(),
            None => {},
        }
    }

    /// Moves the selection one row down (`delta > 0`), up (`delta < 0`) or
    /// re-checks it (`0`).
    pub fn step(&mut self, delta: i32)
        requires
            old(self).wf(),
        ensures
            final(self).wf(),
            final(self)@ == match old(self)@.state {
                Some(s) => with_state(old(self)@, stepped(s, sign(delta as int))),
                None => old(self)@,
            },
    {
        let unit: i32 = if delta > 0 {
            1
        } else if delta < 0 {
            -1
        } else {
            0
        };
        match &mut self.state {
            Some(st) => {
                proof {
                    law_unit_steps_fit(st@, unit as int);
                }
                st.step(unit)
            },
            None => {},
        }
    }

    /// Selects row `index` of the open palette when it is an enabled row.
    pub fn select(&mut self, index: usize)
        requires
            old(self).wf(),
        ensures
            final(self).wf(),
            final(self)@ == match old(self)@.state {
                Some(s) => with_state(old(self)@, chosen(s, index as int)),
                None => old(self)@,
            },
    {
        match &mut self.state {
            Some(st) => st.select(index),
            None => {},
        }
    }

    /// Goes back to the parent page when the query is empty.
    pub fn back(&mut self) -> (went: bool)
        requires
            old(self).wf(),
        ensures
            final(self).wf(),
            match old(self)@.state {
                Some(s) => final(self)@ == with_state(old(self)@, backed(s).0) && went == backed(s).1,
                None => final(self)@ == old(self)@ && !went,
            },
    {
        match &mut self.state {
            Some(st) => st.back(),
            None => false,
        }
    }

    /// A bare-letter key; whether it selected a row.
    pub fn quick_key(&mut self, key: &str) -> (hit: bool)
        requires
            old(self).wf(),
        ensures
            final(self).wf(),
            match old(self)@.state {
                Some(s) => final(self)@ == with_state(old(self)@, quick_keyed(s, key@).0) && hit
                    == quick_keyed(s, key@).1,
                None => final(self)@ == old(self)@ && !hit,
            },
    {
        match &mut self.state {
            Some(st) => st.quick_key(key),
            None => false,
        }
    }

    /// Alt+`key`: selects the first enabled row whose shortcut is exactly
    /// "Alt+" and the upper-cased key; whether one was found.
    pub fn accelerator(&mut self, key: &str) -> (hit: bool)
        requires
            old(self).wf(),
        ensures
            final(self).wf(),
            match old(self)@.state {
                Some(s) => match accel_from(rows_of(s.request.menus@, s.page), alt_prefix() + upper_text(key@), 0) {
                    Some(i) => final(self)@ == with_state(old(self)@, chosen(s, i)) && hit,
                    None => final(self)@ == old(self)@ && !hit,
                },
                None => final(self)@ == old(self)@ && !hit,
            },
    {
        let mut shortcut = owned("Alt+");
        let upper = to_uppercase(key);
        shortcut.append(upper.as_str());
        proof {
            reveal_strlit("Alt+");
            assert(shortcut@ =~= alt_prefix() + upper_text(key@));
        }
        match &mut self.state {
            Some(st) => {
                let rows = st.rows();
                let ghost d = derefs(rows@);
                let n = rows.len();
                let mut i: usize = 0;
                let mut found: Option<usize> = None;
                while i < n
                    invariant_except_break
                        found is None,
                    invariant
                        n == rows.len(),
                        d == derefs(rows@),
                        i <= n,
                        accel_from(d, shortcut@, 0) == accel_from(d, shortcut@, i as int),
                    ensures
                        match found {
                            Some(k) => accel_from(d, shortcut@, 0) == Some(k as int),
                            None => accel_from(d, shortcut@, 0) is None,
                        },
                    decreases n - i,
                {
                    if !rows[i].disabled && rows[i].shortcut == shortcut {
                        found = Some(i);
                        break;
                    }
                    i = i + 1;
                }
                match found {
                    Some(index) => {
                        proof {
                            lemma_accel_from(d, shortcut@, 0);
                        }
                        st.select(index);
                        true
                    },
                    None => false,
                }
            },
            None => false,
        }
    }
}

pub open spec fn sign(d: int) -> int {
    if d > 0 {
        1
    } else if d < 0 {
        -1
    } else {
        0
    }
}

pub proof fn lemma_accel_from(rows: Seq<crate::menu::Item>, shortcut: Seq<char>, i: int)
    requires
        0 <= i,
    ensures
        accel_from(rows, shortcut, i) matches Some(k) ==> i <= k < rows.len() && !rows[k].disabled,
    decreases rows.len() - i,
{
    if i < rows.len() && !(!rows[i].disabled && rows[i].shortcut@ == shortcut) {
        lemma_accel_from(rows, shortcut, i + 1);
    }
}

} // verus!
