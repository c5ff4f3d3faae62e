//! Light/dark appearance: which theme wins, and how desktop settings read
//! from GNOME or Xfce tools decide it.
use vstd::prelude::*;
use crate::text::{
    chars_of, contains, contains_chars, is_whitespace, lower_text, push_char, same_chars, to_lowercase,
    whitespace,
};

verus! {

/// An explicit `--dark`/`--light` wins; else the window system's theme when it
/// reports one; else the current value stays (unknown is not light).
pub fn resolved_theme(explicit: Option<bool>, native: Option<bool>, current: bool) -> (dark: bool)
    ensures
        dark == match explicit {
            Some(e) => e,
            None => match native {
                Some(n) => n,
                None => current,
            },
        },
{
    match explicit {
        Some(e) => e,
        None => match native {
            Some(n) => n,
            None => current,
        },
    }
}

pub open spec fn dark_word() -> Seq<char> {
    seq!['d', 'a', 'r', 'k']
}

pub open spec fn black_word() -> Seq<char> {
    seq!['b', 'l', 'a', 'c', 'k']
}

/// A GTK theme name is dark when, lower-cased, it contains "dark" or "black".
pub open spec fn is_dark_name(name: Seq<char>) -> bool {
    contains(lower_text(name), dark_word()) || contains(lower_text(name), black_word())
}

pub fn dark_name(name: &str) -> (dark: bool)
    ensures
        dark == is_dark_name(name@),
{
    let lower = to_lowercase(name);
    let chars = chars_of(lower.as_str());
    let dark = chars_of("dark");
    let black = chars_of("black");
    proof {
        reveal_strlit("dark");
        reveal_strlit("black");
        assert(dark@ =~= dark_word());
        assert(black@ =~= black_word());
    }
    contains_chars(&chars, &dark) || contains_chars(&chars, &black)
}

/// `s` without leading and trailing characters that satisfy `strip`.
pub open spec fn trimmed_by(s: Seq<char>, strip: spec_fn(char) -> bool) -> Seq<char>
    decreases s.len(),
{
    if s.len() == 0 {
        s
    } else if strip(s[0]) {
        trimmed_by(s.drop_first(), strip)
    } else if strip(s.last()) {
        trimmed_by(s.drop_last(), strip)
    } else {
        s
    }
}

pub open spec fn is_quote(c: char) -> bool {
    c == '\''
}

pub open spec fn is_space(c: char) -> bool {
    whitespace(c)
}

/// Lemma: trimming from the outside in, in any order, gives the first
/// and last kept characters.
pub proof fn lemma_trimmed_by(s: Seq<char>, strip: spec_fn(char) -> bool, a: int, b: int)
    requires
        0 <= a <= b <= s.len(),
        forall|i: int| 0 <= i < a ==> strip(#[trigger] s[i]),
        forall|i: int| b <= i < s.len() ==> strip(#[trigger] s[i]),
        a == b || (!strip(s[a]) && !strip(s[b - 1])),
    ensures
        trimmed_by(s, strip) == s.subrange(a, b),
    decreases s.len(),
{
    if s.len() == 0 {
        assert(s.subrange(a, b) =~= s);
    } else if strip(s[0]) {
        if a == 0 {
            // then a == b and everything is stripped
            assert(a == b);
        }
        let t = s.drop_first();
        if a == b && a == 0 {
            assert forall|i: int| 0 <= i < t.len() implies strip(#[trigger] t[i]) by {
                assert(t[i] == s[i + 1]);
            }
            lemma_trimmed_by(t, strip, 0, 0);
            assert(s.subrange(a, b) =~= t.subrange(0, 0));
        } else {
            assert forall|i: int| 0 <= i < a - 1 implies strip(#[trigger] t[i]) by {
                assert(t[i] == s[i + 1]);
            }
            assert forall|i: int| b - 1 <= i < t.len() implies strip(#[trigger] t[i]) by {
                assert(t[i] == s[i + 1]);
            }
            lemma_trimmed_by(t, strip, a - 1, b - 1);
            assert(s.subrange(a, b) =~= t.subrange(a - 1, b - 1));
        }
    } else {
        assert(a == 0);
        if strip(s.last()) {
            let t = s.drop_last();
            assert(b < s.len());
            assert forall|i: int| b <= i < t.len() implies strip(#[trigger] t[i]) by {
                assert(t[i] == s[i]);
            }
            lemma_trimmed_by(t, strip, a, b);
            assert(s.subrange(a, b) =~= t.subrange(a, b));
        } else {
            assert(b == s.len());
            assert(s.subrange(a, b) =~= s);
        }
    }
}

fn trim_quotes(s: &Vec<char>) -> (r: Vec<char>)
    ensures
        r@ == trimmed_by(s@, |c: char| is_quote(c)),
{
    let n = s.len();
    let mut a: usize = 0;
    while a < n && s[a] == '\''
        invariant
            n == s.len(),
            a <= n,
            forall|i: int| 0 <= i < a ==> is_quote(#[trigger] s@[i]),
        decreases n - a,
    {
        a = a + 1;
    }
    let mut b: usize = n;
    while b > a && s[b - 1] == '\''
        invariant
            n == s.len(),
            a <= b <= n,
            forall|i: int| b <= i < n ==> is_quote(#[trigger] s@[i]),
        decreases b,
    {
        b = b - 1;
    }
    let mut r: Vec<char> = Vec::new();
    let mut i = a;
    while i < b
        invariant
            n == s.len(),
            a <= i <= b <= n,
            r@ == s@.subrange(a as int, i as int),
        decreases b - i,
    {
        r.push(s[i]);
        i = i + 1;
    }
    proof {
        lemma_trimmed_by(s@, |c: char| is_quote(c), a as int, b as int);
    }
    r
}

/// The text with leading and trailing whitespace removed (`str::trim`).
pub fn trim_whitespace(s: &str) -> (r: String)
    ensures
        r@ == trimmed_by(s@, |c: char| is_space(c)),
{
    let v = chars_of(s);
    let n = v.len();
    let mut a: usize = 0;
    while a < n && is_whitespace(v[a])
        invariant
            n == v.len(),
            a <= n,
            forall|i: int| 0 <= i < a ==> is_space(#[trigger] v@[i]),
        decreases n - a,
    {
        a = a + 1;
    }
    let mut b: usize = n;
    while b > a && is_whitespace(v[b - 1])
        invariant
            n == v.len(),
            a <= b <= n,
            forall|i: int| b <= i < n ==> is_space(#[trigger] v@[i]),
        decreases b,
    {
        b = b - 1;
    }
    let mut r = String::new();
    let mut i = a;
    while i < b
        invariant
            n == v.len(),
            a <= i <= b <= n,
            r@ == v@.subrange(a as int, i as int),
        decreases b - i,
    {
        push_char(&mut r, v[i]);
        i = i + 1;
    }
    proof {
        lemma_trimmed_by(v@, |c: char| is_space(c), a as int, b as int);
    }
    r
}

/// A desktop-settings query that decides the theme.
#[derive(Clone, Copy, Debug, PartialEq, Eq)]
pub enum ThemeQuery {
    /// `xfconf-query -c xsettings -p /Net/ThemeName`
    XfceThemeName,
    /// `gsettings get org.gnome.desktop.interface color-scheme`
    ColorScheme,
    /// `gsettings get org.gnome.desktop.interface gtk-theme`
    GtkTheme,
}

/// What to do after a query: ask another, or the answer (`None`: unknown).
#[derive(Clone, Copy, Debug, PartialEq, Eq)]
pub enum ThemeStep {
    Ask(ThemeQuery),
    Done(Option<bool>),
}

impl ThemeQuery {
    /// The program and its arguments.
    pub fn argv(&self) -> (v: Vec<&'static str>)
        ensures
            v@ == match *self {
                ThemeQuery::XfceThemeName => seq!["xfconf-query", "-c", "xsettings", "-p", "/Net/ThemeName"],
                ThemeQuery::ColorScheme => seq!["gsettings", "get", "org.gnome.desktop.interface", "color-scheme"],
                ThemeQuery::GtkTheme => seq!["gsettings", "get", "org.gnome.desktop.interface", "gtk-theme"],
            },
    {
        match self {
            ThemeQuery::XfceThemeName => vec!["xfconf-query", "-c", "xsettings", "-p", "/Net/ThemeName"],
            ThemeQuery::ColorScheme => vec!["gsettings", "get", "org.gnome.desktop.interface", "color-scheme"],
            ThemeQuery::GtkTheme => vec!["gsettings", "get", "org.gnome.desktop.interface", "gtk-theme"],
        }
    }
}

/// Xfce reads its theme name; elsewhere the colour scheme is asked first.
pub fn first_theme_query(xfce: bool) -> (q: ThemeQuery)
    ensures
        q == if xfce { ThemeQuery::XfceThemeName } else { ThemeQuery::ColorScheme },
{
    if xfce {
        ThemeQuery::XfceThemeName
    } else {
        ThemeQuery::ColorScheme
    }
}

pub open spec fn prefer_dark() -> Seq<char> {
    seq!['p', 'r', 'e', 'f', 'e', 'r', '-', 'd', 'a', 'r', 'k']
}

pub open spec fn prefer_light() -> Seq<char> {
    seq!['p', 'r', 'e', 'f', 'e', 'r', '-', 'l', 'i', 'g', 'h', 't']
}

/// What a query's trimmed output (`None`: the tool failed) decides.
pub open spec fn theme_after(q: ThemeQuery, out: Option<Seq<char>>) -> ThemeStep {
    match q {
        ThemeQuery::ColorScheme => match out {
            Some(s) => if trimmed_by(s, |c: char| is_quote(c)) == prefer_dark() {
                ThemeStep::Done(Some(true))
            } else if trimmed_by(s, |c: char| is_quote(c)) == prefer_light() {
                ThemeStep::Done(Some(false))
            } else {
                ThemeStep::Ask(ThemeQuery::GtkTheme)
            },
            None => ThemeStep::Ask(ThemeQuery::GtkTheme),
        },
        _ => match out {
            Some(s) => ThemeStep::Done(Some(is_dark_name(s))),
            None => ThemeStep::Done(None),
        },
    }
}

/// Decides from the raw output of query `q` (trimmed of whitespace first).
pub fn theme_reply(q: ThemeQuery, output: Option<&str>) -> (step: ThemeStep)
    ensures
        step == theme_after(
            q,
            match output {
                Some(s) => Some(trimmed_by(s@, |c: char| is_space(c))),
                None => None,
            },
        ),
{
    let out = match output {
        Some(s) => Some(trim_whitespace(s)),
        None => None,
    };
    match q {
        ThemeQuery::ColorScheme => match out {
            Some(s) => {
                let chars = chars_of(s.as_str());
                let inner = trim_quotes(&chars);
                let dark = chars_of("prefer-dark");
                let light = chars_of("prefer-light");
                proof {
                    reveal_strlit("prefer-dark");
                    reveal_strlit("prefer-light");
                    assert(dark@ =~= prefer_dark());
                    assert(light@ =~= prefer_light());
                }
                if same_chars(&inner, &dark) {
                    ThemeStep::Done(Some(true))
                } else if same_chars(&inner, &light) {
                    ThemeStep::Done(Some(false))
                } else {
                    ThemeStep::Ask(ThemeQuery::GtkTheme)
                }
            },
            None => ThemeStep::Ask(ThemeQuery::GtkTheme),
        },
        _ => match out {
            Some(s) => ThemeStep::Done(Some(dark_name(s.as_str()))),
            None => ThemeStep::Done(None),
        },
    }
}

pub open spec fn xfce_word() -> Seq<char> {
    seq!['x', 'f', 'c', 'e']
}

/// What `XDG_CURRENT_DESKTOP` says: Xfce when it names Xfce (any case);
/// unknown (`None`, ask `xfconf-query`) when it is empty; otherwise not Xfce.
pub fn desktop_is_xfce(desktop: &str) -> (r: Option<bool>)
    ensures
        r == if contains(lower_text(desktop@), xfce_word()) {
            Some(true)
        } else if desktop@.len() == 0 {
            None::<bool>
        } else {
            Some(false)
        },
        desktop@.len() == 0 ==> r is None,
{
    let lower = to_lowercase(desktop);
    let chars = chars_of(lower.as_str());
    let word = chars_of("xfce");
    proof {
        reveal_strlit("xfce");
        assert(word@ =~= xfce_word());
    }
    if contains_chars(&chars, &word) {
        Some(true)
    } else if desktop.is_empty() {
        None
    } else {
        Some(false)
    }
}

/// The command that reports each settings change on its standard output.

pub fn monitor_argv(xfce: bool) -> (v: Vec<&'static str>)
    ensures
        v@ == if xfce {
            seq!["xfconf-query", "-c", "xsettings", "-m"]
        } else {
            seq!["gsettings", "monitor", "org.gnome.desktop.interface"]
        },
{
    if xfce {
        vec!["xfconf-query", "-c", "xsettings", "-m"]
    } else {
        vec!["gsettings", "monitor", "org.gnome.desktop.interface"]
    }
}

} // verus!
