//! Command-line options and the language choice.
use vstd::prelude::*;
use crate::text::{chars_of, lower_text, owned, same_text, starts_with_chars, to_lowercase};

verus! {

/// What the command line asks for.
pub struct Options {
    /// `--help`: print usage and stop; nothing else is looked at.
    pub help: bool,
    /// `--demo`: open the built-in demo menus.
    pub demo: bool,
    /// `--dump-demo`: print the demo request as JSON and stop.
    pub dump_demo: bool,
    /// `Some(true)` for `--lang=zh`, `Some(false)` for `--lang=en`, `None` to follow the locale.
    pub zh: Option<bool>,
    /// `Some(dark)` when `--dark` or `--light` is given (`--dark` wins), `None` to follow the system.
    pub theme_override: Option<bool>,
}

pub open spec fn arg_views(args: Seq<String>) -> Seq<Seq<char>> {
    args.map_values(|s: String| s@)
}

pub open spec fn has_arg(args: Seq<Seq<char>>, a: Seq<char>) -> bool {
    exists|i: int| 0 <= i < args.len() && #[trigger] args[i] == a
}

/// The arguments the program knows.
pub open spec fn known_arg(a: Seq<char>) -> bool {
    ||| a == "--demo"@
    ||| a == "--dump-demo"@
    ||| a == "--lang=zh"@
    ||| a == "--lang=en"@
    ||| a == "--dark"@
    ||| a == "--light"@
}

/// The first argument at or after `i` that is not known.
pub open spec fn first_unknown(args: Seq<Seq<char>>, i: int) -> Option<int>
    decreases args.len() - i,
{
    if i < 0 || i >= args.len() {
        None
    } else if !known_arg(args[i]) {
        Some(i)
    } else {
        first_unknown(args, i + 1)
    }
}

/// What the command line parses to.
pub open spec fn parsed(args: Seq<Seq<char>>) -> Result<Options, Seq<char>> {
    if has_arg(args, "--help"@) {
        Ok(Options { help: true, demo: false, dump_demo: false, zh: None, theme_override: None })
    } else {
        match first_unknown(args, 0) {
            Some(i) => Err("unknown argument: "@ + args[i]),
            None => Ok(
                Options {
                    help: false,
                    demo: has_arg(args, "--demo"@),
                    dump_demo: has_arg(args, "--dump-demo"@),
                    zh: if has_arg(args, "--lang=zh"@) {
                        Some(true)
                    } else if has_arg(args, "--lang=en"@) {
                        Some(false)
                    } else {
                        None
                    },
                    theme_override: if has_arg(args, "--dark"@) || has_arg(args, "--light"@) {
                        Some(has_arg(args, "--dark"@))
                    } else {
                        None
                    },
                },
            ),
        }
    }
}

fn has(args: &Vec<String>, a: &str) -> (b: bool)
    ensures
        b == has_arg(arg_views(args@), a@),
{
    let n = args.len();
    let mut i: usize = 0;
    while i < n
        invariant
            n == args.len(),
            i <= n,
            forall|t: int| 0 <= t < i ==> args@[t]@ != a@,
        decreases n - i,
    {
        if same_text(args[i].as_str(), a) {
            assert(arg_views(args@)[i as int] == a@);
            return true;
        }
        i = i + 1;
    }
    assert forall|t: int| 0 <= t < args@.len() implies #[trigger] arg_views(args@)[t] != a@ by {
        assert(arg_views(args@)[t] == args@[t]@);
    }
    false
}

fn is_known(a: &str) -> (b: bool)
    ensures
        b == known_arg(a@),
{
    same_text(a, "--demo") || same_text(a, "--dump-demo") || same_text(a, "--lang=zh")
        || same_text(a, "--lang=en") || same_text(a, "--dark") || same_text(a, "--light")
}

/// Reads the command line (without the program name). `--help` first wins;
/// otherwise an unknown argument is refused, naming the first one.
pub fn parse_args(args: &Vec<String>) -> (r: Result<Options, String>)
    ensures
        match r {
            Ok(o) => parsed(arg_views(args@)) == Ok::<Options, Seq<char>>(o),
            Err(e) => parsed(arg_views(args@)) == Err::<Options, Seq<char>>(e@),
        },
{
    let ghost a = arg_views(args@);
    if has(args, "--help") {
        return Ok(Options { help: true, demo: false, dump_demo: false, zh: None, theme_override: None });
    }
    let n = args.len();
    let mut i: usize = 0;
    while i < n
        invariant
            n == args.len(),
            a == arg_views(args@),
            !has_arg(a, "--help"@),
            i <= n,
            first_unknown(a, 0) == first_unknown(a, i as int),
        decreases n - i,
    {
        assert(a[i as int] == args@[i as int]@);
        if !is_known(args[i].as_str()) {
            let mut message = owned("unknown argument: ");
            message.append(args[i].as_str());
            return Err(message);
        }
        i = i + 1;
    }
    let zh = if has(args, "--lang=zh") {
        Some(true)
    } else if has(args, "--lang=en") {
        Some(false)
    } else {
        None
    };
    let dark = has(args, "--dark");
    let theme_override = if dark || has(args, "--light") {
        Some(dark)
    } else {
        None
    };
    Ok(Options {
        help: false,
        demo: has(args, "--demo"),
        dump_demo: has(args, "--dump-demo"),
        zh,
        theme_override,
    })
}

pub open spec fn zh_word() -> Seq<char> {
    seq!['z', 'h']
}

/// A locale is Chinese when, lower-cased, it starts with "zh".
pub fn zh_locale(locale: &str) -> (zh: bool)
    ensures
        zh == (zh_word().len() <= lower_text(locale@).len() && lower_text(locale@).take(2) == zh_word()),
{
    let lower = to_lowercase(locale);
    let chars = chars_of(lower.as_str());
    let prefix = chars_of("zh");
    proof {
        reveal_strlit("zh");
        assert(prefix@ =~= zh_word());
    }
    starts_with_chars(&chars, &prefix)
}

} // verus!
