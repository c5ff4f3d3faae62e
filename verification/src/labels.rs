//! The texts the palette shows around its rows, in English or Chinese.
use vstd::prelude::*;
use crate::text::{owned, push_char};

verus! {

/// The decimal digit `d` (0 to 9).
pub open spec fn digit(d: int) -> char {
    (48 + d) as char
}

/// `n` written in decimal, without leading zeros.
pub open spec fn decimal(n: nat) -> Seq<char>
    decreases n,
{
    if n < 10 {
        seq![digit(n as int)]
    } else {
        decimal(n / 10).push(digit((n % 10) as int))
    }
}

/// Appends `n` in decimal to `s`.
pub fn push_decimal(s: &mut String, n: usize)
    ensures
        final(s)@ == old(s)@ + decimal(n as nat),
    decreases n,
{
    if n >= 10 {
        push_decimal(s, n / 10);
    }
    let d = (n % 10) as u8;
    let c = (48u8 + d) as char;
    push_char(s, c);
    proof {
        assert(c == digit((n % 10) as int));
        if n >= 10 {
            assert(decimal(n as nat) == decimal((n / 10) as nat).push(c));
        }
    }
}

pub open spec fn empty_zh() -> &'static str { "没有匹配项" }
pub open spec fn empty_en() -> &'static str { "No matches" }
pub open spec fn quick_zh() -> &'static str { "字母 快捷操作   / 搜索   Esc 关闭" }
pub open spec fn quick_en() -> &'static str { "Letter Quick action   / Search   Esc Dismiss" }
pub open spec fn browse_zh() -> &'static str { "↑↓ 选择   ↵ 确认   Esc 关闭" }
pub open spec fn browse_en() -> &'static str { "↑↓ Select   ↵ Open   Esc Dismiss" }
pub open spec fn back_zh() -> &'static str { "空输入 ⌫ 返回" }
pub open spec fn back_en() -> &'static str { "Empty ⌫ Back" }
pub open spec fn brand() -> &'static str { "Hyper" }
pub open spec fn separator() -> &'static str { "  ·  " }
pub open spec fn items_zh() -> &'static str { " 项" }
pub open spec fn results_en() -> &'static str { " results" }

/// The key hints for the current mode.
pub open spec fn hint(quick: bool, zh: bool) -> &'static str {
    if quick && zh {
        quick_zh()
    } else if quick {
        quick_en()
    } else if zh {
        browse_zh()
    } else {
        browse_en()
    }
}

/// The right-hand footer part: how to go back inside a submenu, else the brand.
pub open spec fn back_hint(depth: nat, zh: bool) -> &'static str {
    if depth > 0 {
        if zh {
            back_zh()
        } else {
            back_en()
        }
    } else {
        brand()
    }
}

/// Texts around the rows.
pub struct Labels {
    /// Shown in the single row of an empty result list.
    pub empty: String,
    /// Key hints, a separator, then the back hint or the brand.
    pub footer: String,
    /// The number of results.
    pub count: String,
}

/// The labels for a page in quick mode or not, at `depth`, with `count` rows.
pub fn labels(zh: bool, quick: bool, depth: usize, count: usize) -> (l: Labels)
    ensures
        l.empty@ == (if zh { empty_zh() } else { empty_en() })@,
        l.footer@ == hint(quick, zh)@ + separator()@ + back_hint(depth as nat, zh)@,
        l.count@ == decimal(count as nat) + (if zh { items_zh() } else { results_en() })@,
{
    let empty = if zh {
        owned("没有匹配项")
    } else {
        owned("No matches")
    };
    let h = if quick && zh {
        "字母 快捷操作   / 搜索   Esc 关闭"
    } else if quick {
        "Letter Quick action   / Search   Esc Dismiss"
    } else if zh {
        "↑↓ 选择   ↵ 确认   Esc 关闭"
    } else {
        "↑↓ Select   ↵ Open   Esc Dismiss"
    };
    let b = if depth > 0 {
        if zh {
            "空输入 ⌫ 返回"
        } else {
            "Empty ⌫ Back"
        }
    } else {
        "Hyper"
    };
    let mut footer = owned(h);
    footer.append("  ·  ");
    footer.append(b);
    let mut count_text = String::new();
    push_decimal(&mut count_text, count);
    if zh {
        count_text.append(" 项");
    } else {
        count_text.append(" results");
    }
    Labels { empty, footer, count: count_text }
}

/// The selection as the row index the view shows, `-1` for none
/// (an index past `i32::MAX` wraps, as an `as` cast does).
pub fn view_selection(selected: Option<usize>) -> (i: i32)
    ensures
        i == match selected {
            Some(s) => s as i32,
            None => -1i32,
        },
{
    match selected {
        Some(s) => s as i32,
        None => -1,
    }
}

} // verus!
