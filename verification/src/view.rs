//! Text and geometry for the dashboard's drawing: pure functions of plain
//! values. The drawing itself is the program's work.

use vstd::prelude::*;

use crate::delete::Outcome;
use crate::report::{Category, ScanReport, decimal_size_text, human_size, sum_files, sum_sizes};

verus! {

/// The character of a decimal digit.
pub open spec fn digit_char(d: int) -> char {
    if d == 0 {
        '0'
    } else if d == 1 {
        '1'
    } else if d == 2 {
        '2'
    } else if d == 3 {
        '3'
    } else if d == 4 {
        '4'
    } else if d == 5 {
        '5'
    } else if d == 6 {
        '6'
    } else if d == 7 {
        '7'
    } else if d == 8 {
        '8'
    } else {
        '9'
    }
}

/// The decimal digits of `n`, most significant first, without leading zeros.
pub open spec fn decimal_digits(n: nat) -> Seq<char>
    decreases n,
{
    if n < 10 {
        seq![digit_char(n as int)]
    } else {
        decimal_digits(n / 10).push(digit_char((n % 10) as int))
    }
}

/// The last three decimal digits of `n`, zero-padded.
pub open spec fn three_digits(n: nat) -> Seq<char> {
    seq![
        digit_char(((n / 100) % 10) as int),
        digit_char(((n / 10) % 10) as int),
        digit_char((n % 10) as int),
    ]
}

/// `n` in decimal with its digits grouped in threes by commas, e.g.
/// `1,234,567`.
pub open spec fn thousands_text(n: nat) -> Seq<char>
    decreases n,
{
    if n < 1000 {
        decimal_digits(n)
    } else {
        thousands_text(n / 1000) + seq![','] + three_digits(n % 1000)
    }
}

/// The text of one decimal digit.
fn digit(d: u64) -> (r: &'static str)
    requires
        d < 10,
    ensures
        r@ == seq![digit_char(d as int)],
{
    match d {
        0 => {
            proof {
                reveal_strlit("0");
            }
            "0"
        },
        1 => {
            proof {
                reveal_strlit("1");
            }
            "1"
        },
        2 => {
            proof {
                reveal_strlit("2");
            }
            "2"
        },
        3 => {
            proof {
                reveal_strlit("3");
            }
            "3"
        },
        4 => {
            proof {
                reveal_strlit("4");
            }
            "4"
        },
        5 => {
            proof {
                reveal_strlit("5");
            }
            "5"
        },
        6 => {
            proof {
                reveal_strlit("6");
            }
            "6"
        },
        7 => {
            proof {
                reveal_strlit("7");
            }
            "7"
        },
        8 => {
            proof {
                reveal_strlit("8");
            }
            "8"
        },
        _ => {
            proof {
                reveal_strlit("9");
            }
            "9"
        },
    }
}

/// Appends the decimal digits of `n`.
fn push_decimal(s: &mut String, n: u64)
    ensures
        final(s)@ == old(s)@ + decimal_digits(n as nat),
    decreases n,
{
    if n < 10 {
        s.append(digit(n));
    } else {
        push_decimal(s, n / 10);
        s.append(digit(n % 10));
        assert(old(s)@ + decimal_digits(n as nat) =~= (old(s)@ + decimal_digits((n / 10) as nat)).push(
            digit_char((n % 10) as int),
        ));
    }
}

/// Appends `n` grouped in threes.
fn push_thousands(s: &mut String, n: u64)
    ensures
        final(s)@ == old(s)@ + thousands_text(n as nat),
    decreases n,
{
    if n < 1000 {
        push_decimal(s, n);
    } else {
        push_thousands(s, n / 1000);
        proof {
            reveal_strlit(",");
        }
        s.append(",");
        let m = n % 1000;
        s.append(digit(m / 100));
        s.append(digit((m / 10) % 10));
        s.append(digit(m % 10));
        assert(old(s)@ + thousands_text(n as nat) =~= old(s)@ + thousands_text((n / 1000) as nat)
            + seq![','] + three_digits((n % 1000) as nat));
        assert(((n % 1000) as nat / 100) % 10 == (n % 1000) / 100);
    }
}

/// Group digits in threes, e.g. `1234567` → `1,234,567`.
pub fn thousands(n: u64) -> (r: String)
    ensures
        r@ == thousands_text(n as nat),
{
    let mut s = String::new();
    push_thousands(&mut s, n);
    assert(Seq::<char>::empty() + thousands_text(n as nat) =~= thousands_text(n as nat));
    s
}

/// The line that reports a deletion run: what was freed, from how many dirs.
pub open spec fn reclaimed_text(freed: u64, removed: usize) -> Seq<char> {
    "Reclaimed "@ + decimal_size_text(freed) + " from "@ + decimal_digits(removed as nat) + " "@
        + (if removed == 1 {
        "directory"@
    } else {
        "directories"@
    }) + "."@
}

/// The line of a category header: its target, how many dirs it holds, and
/// their total size and file count.
pub open spec fn category_header_text(target: Seq<char>, count: nat, size: u64, files: u64) -> Seq<
    char,
> {
    target + "  \u{2014}  "@ + decimal_digits(count) + " dir(s) \u{b7} "@ + decimal_size_text(size)
        + " \u{b7} "@ + thousands_text(files as nat) + " files"@
}

/// "Reclaimed X from N directories." for `outcome`.
pub fn reclaimed_line(outcome: &Outcome) -> (r: String)
    ensures
        r@ == reclaimed_text(outcome.freed_bytes, outcome.removed),
{
    let mut s = String::from_str("Reclaimed ");
    let size = human_size(outcome.freed_bytes);
    s.append(size.as_str());
    s.append(" from ");
    push_decimal(&mut s, outcome.removed as u64);
    s.append(" ");
    s.append(plural(outcome.removed, "directory", "directories"));
    s.append(".");
    assert(s@ =~= reclaimed_text(outcome.freed_bytes, outcome.removed));
    s
}

/// The header line of `category`, or `None` when its totals do not fit in a
/// `u64`.
pub fn category_header(report: &ScanReport, category: &Category) -> (r: Option<String>)
    requires
        category.start + category.len <= report.dirs@.len(),
    ensures
        ({
            let run = report.dirs@.subrange(category.start as int, category.start + category.len);
            match r {
                Some(text) => sum_sizes(run) <= u64::MAX && sum_files(run) <= u64::MAX
                    && text@ == category_header_text(
                    category.target@,
                    category.len as nat,
                    sum_sizes(run) as u64,
                    sum_files(run) as u64,
                ),
                None => sum_sizes(run) > u64::MAX || sum_files(run) > u64::MAX,
            }
        }),
{
    let (size, files) = match report.checked_category_totals(category) {
        Some(totals) => totals,
        None => return None,
    };
    let mut s = String::from_str(category.target.as_str());
    s.append("  \u{2014}  ");
    push_decimal(&mut s, category.len as u64);
    s.append(" dir(s) \u{b7} ");
    let size_text = human_size(size);
    s.append(size_text.as_str());
    s.append(" \u{b7} ");
    let files_text = thousands(files);
    s.append(files_text.as_str());
    s.append(" files");
    assert(s@ =~= category_header_text(category.target@, category.len as nat, size, files));
    Some(s)
}

/// `one` for a count of one, else `many`.
pub fn plural(count: usize, one: &'static str, many: &'static str) -> (r: &'static str)
    ensures
        r == if count == 1 {
            one
        } else {
            many
        },
{
    if count == 1 {
        one
    } else {
        many
    }
}

/// A rectangle of terminal cells.
#[derive(Clone, Copy, Debug, PartialEq, Eq, Structural)]
pub struct Area {
    pub x: u16,
    pub y: u16,
    pub width: u16,
    pub height: u16,
}

/// `a - b`, or 0 when `b` is larger.
pub open spec fn sat_sub(a: int, b: int) -> int {
    if a >= b {
        a - b
    } else {
        0
    }
}

/// A box of `width_percent` of `area`'s width and at most `height` rows,
/// centred in `area`.
pub open spec fn centered(width_percent: u16, height: u16, area: Area) -> (int, int, int, int) {
    let w = (area.width as int) * (width_percent as int) / 100;
    let h = if (height as int) < (area.height as int) {
        height as int
    } else {
        area.height as int
    };
    (area.x + sat_sub(area.width as int, w) / 2, area.y + sat_sub(area.height as int, h) / 2, w, h)
}

/// A box of `width_percent` of `area` and a fixed `height`, centred in `area`.
pub fn centered_rect(width_percent: u16, height: u16, area: Area) -> (r: Area)
    requires
        area.width * width_percent <= u16::MAX,
        centered(width_percent, height, area).0 <= u16::MAX,
        centered(width_percent, height, area).1 <= u16::MAX,
    ensures
        (r.x as int, r.y as int, r.width as int, r.height as int) == centered(
            width_percent,
            height,
            area,
        ),
{
    let width = area.width * width_percent / 100;
    let height = if height < area.height {
        height
    } else {
        area.height
    };
    Area {
        x: area.x + area.width.saturating_sub(width) / 2,
        y: area.y + area.height.saturating_sub(height) / 2,
        width,
        height,
    }
}

} // verus!
