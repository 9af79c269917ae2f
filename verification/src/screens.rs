//! The dashboard's words around its charts: the titles of its tabs, with the page shown on
//! the selected one, and the key help in its footer, which follows the screen and the mode.
use vstd::prelude::*;
use crate::prometheus::{scale_text, PrometheusTimeScale};
use crate::text::{chars_of, concat, decimal, decimal_chars, string_of};
use crate::tui::{AppView, ParameterFocus, ScrollMode};

verus! {

/// The base title of tab `i`.
pub open spec fn base_title(i: int) -> Seq<char> {
    if i == 0 {
        "(1) Cores by Account"@
    } else if i == 1 {
        "(2) Cores by Node"@
    } else {
        "(3) GPU by Type"@
    }
}

/// The position of the tab of `view`.
pub open spec fn tab_index(view: AppView) -> int {
    match view {
        AppView::CpuByAccount => 0,
        AppView::CpuByNode => 1,
        AppView::GpuByType => 2,
    }
}

/// The title of tab `i`: the selected one carries "(page/pages)" where there is more than
/// one page.
pub open spec fn tab_title(i: int, selected: int, current: nat, total: nat) -> Seq<char> {
    if i == selected && total > 1 {
        base_title(i) + " ("@ + decimal(current) + seq!['/'] + decimal(total) + seq![')']
    } else {
        base_title(i)
    }
}

/// The position of the tab of `view` among the tabs.
pub fn tab_position(view: AppView) -> (i: usize)
    ensures
        i == tab_index(view),
{
    match view {
        AppView::CpuByAccount => 0,
        AppView::CpuByNode => 1,
        AppView::GpuByType => 2,
    }
}

/// The titles of the three views' tabs, the selected one showing the page `current` of
/// `total` where there is more than one, and after them the time scale of the query.
pub fn tab_titles(view: AppView, current: u64, total: u64, scale: PrometheusTimeScale) -> (t: Vec<String>)
    ensures
        t@.len() == 4,
        forall|i: int| 0 <= i < 3 ==> #[trigger] t@[i]@ == tab_title(i, tab_index(view), current as nat, total as nat),
        t@[3]@ == "Time Scale: "@ + scale_text(scale),
{
    let selected = tab_position(view);
    let mut t: Vec<String> = Vec::new();
    let mut i: usize = 0;
    while i < 3
        invariant
            i <= 3,
            selected == tab_index(view),
            t@.len() == i,
            forall|k: int| 0 <= k < i ==> #[trigger] t@[k]@ == tab_title(k, selected as int, current as nat, total as nat),
        decreases 3 - i,
    {
        let base = if i == 0 {
            chars_of("(1) Cores by Account")
        } else if i == 1 {
            chars_of("(2) Cores by Node")
        } else {
            chars_of("(3) GPU by Type")
        };
        let title = if i == selected && total > 1 {
            let a = concat(&base, &chars_of(" ("));
            let b = concat(&a, &decimal_chars(current));
            let c = concat(&b, &['/']);
            let d = concat(&c, &decimal_chars(total));
            let e = concat(&d, &[')']);
            assert(['/']@ =~= seq!['/']);
            assert([')']@ =~= seq![')']);
            e
        } else {
            base
        };
        t.push(string_of(&title));
        i = i + 1;
    }
    let scale_text = concat(&chars_of("Time Scale: "), &chars_of(scale.label().as_str()));
    t.push(string_of(&scale_text));
    t
}

/// What the footer says: how to quit, and then the keys of the screen shown. On the
/// dashboard, where `page_total` is given, the keys of its scroll mode (paging only where
/// there is more than one page); on the query form, where `focus` is given, the keys of the
/// focused widget; and on the main menu, how to choose.
pub open spec fn footer_text(page_total: Option<nat>, focus: Option<ParameterFocus>, scroll_mode: Option<ScrollMode>) -> Seq<char> {
    "Use (q) to quit"@ + match page_total {
        Some(total) => match scroll_mode {
            Some(ScrollMode::Page) => ", (h/l, ←/→, Tab, or numbers) to switch views"@ + (if total > 1 {
                ", (k/j, ↑/↓ to scroll pages)"@
            } else {
                Seq::empty()
            }) + ", (Enter to scroll charts)"@,
            Some(ScrollMode::Chart) => ", (h/l, ←/→ to scroll charts)"@ + ", (k/j, ↑/↓ to scroll pages)"@
                + ", (Esc to scroll pages)"@,
            None => Seq::empty(),
        },
        None => match focus {
            Some(f) => ", (Tab to switch focus)"@ + match f {
                ParameterFocus::Range => ", (Enter numbers)"@,
                ParameterFocus::Unit => ", (←/→ to change)"@,
                ParameterFocus::Confirm => ", (Enter to confirm)"@,
            },
            None => ", (↑/↓ to select), (Enter) to confirm"@,
        },
    }
}

pub open spec fn opt_nat(o: Option<usize>) -> Option<nat> {
    match o {
        Some(n) => Some(n as nat),
        None => None,
    }
}

/// The footer's text (see `footer_text`).
pub fn footer(page_total: Option<usize>, focus: Option<ParameterFocus>, scroll_mode: Option<ScrollMode>) -> (s: String)
    ensures
        s@ == footer_text(opt_nat(page_total), focus, scroll_mode),
{
    let quit = chars_of("Use (q) to quit");
    let rest: Vec<char> = match page_total {
        Some(total) => match scroll_mode {
            Some(ScrollMode::Page) => {
                let views = chars_of(", (h/l, ←/→, Tab, or numbers) to switch views");
                let paging = if total > 1 {
                    chars_of(", (k/j, ↑/↓ to scroll pages)")
                } else {
                    Vec::new()
                };
                let a = concat(&views, &paging);
                concat(&a, &chars_of(", (Enter to scroll charts)"))
            },
            Some(ScrollMode::Chart) => {
                let a = concat(&chars_of(", (h/l, ←/→ to scroll charts)"), &chars_of(", (k/j, ↑/↓ to scroll pages)"));
                concat(&a, &chars_of(", (Esc to scroll pages)"))
            },
            None => Vec::new(),
        },
        None => match focus {
            Some(f) => {
                let keys = match f {
                    ParameterFocus::Range => chars_of(", (Enter numbers)"),
                    ParameterFocus::Unit => chars_of(", (←/→ to change)"),
                    ParameterFocus::Confirm => chars_of(", (Enter to confirm)"),
                };
                concat(&chars_of(", (Tab to switch focus)"), &keys)
            },
            None => chars_of(", (↑/↓ to select), (Enter) to confirm"),
        },
    };
    let all = concat(&quit, &rest);
    string_of(&all)
}

} // verus!
