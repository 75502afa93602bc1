//! The lines of the system report that the `sys` built-in prints.

use vstd::prelude::*;
use crate::text::{decimal, digit_char, padded, push_decimal, push_padded, push_repeated, push_char};

verus! {

broadcast use vstd::string::group_string_axioms;

/// The width that report labels are padded to.
pub const LABEL_WIDTH: usize = 15;

/// The number of cells in a usage bar.
pub const BAR_CELLS: usize = 20;

/// `label` padded to the label column, a space, then `value`.
pub open spec fn report_line_text(label: Seq<char>, value: Seq<char>) -> Seq<char> {
    padded(label, LABEL_WIDTH as nat) + " "@ + value
}

/// One line of the report: a label in its column, then the value.
pub fn report_line(label: &str, value: &str) -> (line: String)
    ensures
        line@ == report_line_text(label@, value@),
{
    let mut line = String::new();
    push_padded(&mut line, label, LABEL_WIDTH);
    line.append(" ");
    line.append(value);
    line
}

/// How many of the bar's cells a percentage fills.
pub open spec fn filled_cells(pct: nat) -> nat {
    pct * (BAR_CELLS as nat) / 100
}

/// A bar of `#` for the filled cells and `.` for the rest, in brackets.
pub open spec fn bar_text(pct: nat) -> Seq<char> {
    "["@ + Seq::new(filled_cells(pct), |_i: int| '#') + Seq::new(
        (BAR_CELLS - filled_cells(pct)) as nat,
        |_i: int| '.',
    ) + "]"@
}

/// The usage bar for `pct` percent. Above 104 percent the bar would hold
/// more filled cells than it has, which the report does not allow.
pub fn usage_bar(pct: usize) -> (bar: String)
    requires
        pct <= 104,
    ensures
        bar@ == bar_text(pct as nat),
{
    let filled = pct * BAR_CELLS / 100;
    let mut bar = String::new();
    bar.append("[");
    push_repeated(&mut bar, '#', filled);
    push_repeated(&mut bar, '.', BAR_CELLS - filled);
    bar.append("]");
    bar
}

/// The usage line: label, bar, percentage, and used and total amounts in `unit`.
pub open spec fn usage_line_text(
    label: Seq<char>,
    pct: nat,
    used: nat,
    total: nat,
    unit: Seq<char>,
) -> Seq<char> {
    report_line_text(
        label,
        bar_text(pct) + " "@ + decimal(pct) + "% ("@ + decimal(used) + unit + " / "@ + decimal(
            total,
        ) + unit + ")"@,
    )
}

/// A usage line such as the memory or disk line of the report.
pub fn usage_line(label: &str, pct: usize, used: u64, total: u64, unit: &str) -> (line: String)
    requires
        pct <= 104,
    ensures
        line@ == usage_line_text(label@, pct as nat, used as nat, total as nat, unit@),
{
    let mut line = String::new();
    push_padded(&mut line, label, LABEL_WIDTH);
    line.append(" ");
    let bar = usage_bar(pct);
    line.append(bar.as_str());
    line.append(" ");
    push_decimal(&mut line, pct as u64);
    line.append("% (");
    push_decimal(&mut line, used);
    line.append(unit);
    line.append(" / ");
    push_decimal(&mut line, total);
    line.append(unit);
    line.append(")");
    line
}

/// A number of bytes in whole megabytes (MiB), rounded down.
pub fn to_megabytes(bytes: u64) -> (mb: u64)
    ensures
        mb == bytes / 1024 / 1024,
{
    bytes / 1024 / 1024
}

/// The used and total space of a disk in whole gigabytes (GiB), the used part
/// being the total less the available part, each rounded down first.
pub fn disk_gigabytes(total_space: u64, available_space: u64) -> (used_total: (u64, u64))
    requires
        available_space / 1024 / 1024 / 1024 <= total_space / 1024 / 1024 / 1024,
    ensures
        used_total.1 == total_space / 1024 / 1024 / 1024,
        used_total.0 == used_total.1 - available_space / 1024 / 1024 / 1024,
{
    let total = total_space / 1024 / 1024 / 1024;
    let avail = available_space / 1024 / 1024 / 1024;
    (total - avail, total)
}

/// Integer division that rounds toward zero, as Rust's `/` on signed numbers.
pub open spec fn div_toward_zero(a: int, b: int) -> int {
    if a >= 0 {
        a / b
    } else {
        -((-a) / b)
    }
}

/// The largest number of seconds, either way, that a chrono `TimeDelta` holds.
pub open spec fn max_delta_seconds() -> int {
    i64::MAX / 1000
}

/// `chrono`'s `TimeDelta::seconds`, then its `num_hours`, `num_minutes` and
/// `num_seconds`. The contract claims what chrono documents and computes: the
/// whole hours, whole minutes and whole seconds of the span, each rounded
/// toward zero. `seconds` is kept within the bounds where `TimeDelta::seconds`
/// does not panic.
#[verifier::external_body]
fn duration_parts(seconds: i64) -> (parts: (i64, i64, i64))
    requires
        -max_delta_seconds() <= seconds <= max_delta_seconds(),
    ensures
        parts.0 == div_toward_zero(seconds as int, 3600),
        parts.1 == div_toward_zero(seconds as int, 60),
        parts.2 == seconds,
{
    let d = chrono::Duration::seconds(seconds);
    (d.num_hours(), d.num_minutes(), d.num_seconds())
}

/// The hours, the minutes past the hour, and the seconds past the minute of
/// a span of `n` seconds.
pub open spec fn duration_fields(n: nat) -> (nat, nat, nat) {
    (n / 3600, (n / 60) % 60, n % 60)
}

/// How an uptime of `n` seconds is shown: `1h 2m 3s`, `2m 3s` or `3s`,
/// leaving out leading fields that are zero.
pub open spec fn duration_text(n: nat) -> Seq<char> {
    let (h, m, s) = duration_fields(n);
    if h > 0 {
        decimal(h) + "h "@ + decimal(m) + "m "@ + decimal(s) + "s"@
    } else if m > 0 {
        decimal(m) + "m "@ + decimal(s) + "s"@
    } else {
        decimal(s) + "s"@
    }
}

/// How a span of `m` seconds before zero is shown: only its seconds past the
/// minute, negative, since its hours and minutes are not above zero.
pub open spec fn negative_duration_text(m: nat) -> Seq<char> {
    if m % 60 == 0 {
        "0s"@
    } else {
        "-"@ + decimal(m % 60) + "s"@
    }
}

/// The number of distinct values of a `u64`.
pub open spec fn u64_values() -> int {
    u64::MAX + 1
}

/// The text for an uptime of `seconds` seconds. The count is read as a
/// signed 64-bit number, so counts of `2^64 - m` seconds are spans of `m`
/// seconds before zero; counts whose span `TimeDelta` cannot hold are left out.
pub fn format_duration(seconds: u64) -> (text: String)
    requires
        seconds <= max_delta_seconds() || seconds >= u64_values() - max_delta_seconds(),
    ensures
        seconds <= max_delta_seconds() ==> text@ == duration_text(seconds as nat),
        seconds > max_delta_seconds() ==> text@ == negative_duration_text(
            (u64_values() - seconds) as nat,
        ),
{
    let mut text = String::new();
    if seconds <= (i64::MAX / 1000) as u64 {
        let (h, total_minutes, total_seconds) = duration_parts(seconds as i64);
        let hours = h as u64;
        let mins = (total_minutes % 60) as u64;
        let secs = (total_seconds % 60) as u64;
        if hours > 0 {
            push_decimal(&mut text, hours);
            text.append("h ");
            push_decimal(&mut text, mins);
            text.append("m ");
            push_decimal(&mut text, secs);
            text.append("s");
        } else if mins > 0 {
            push_decimal(&mut text, mins);
            text.append("m ");
            push_decimal(&mut text, secs);
            text.append("s");
        } else {
            push_decimal(&mut text, secs);
            text.append("s");
        }
    } else {
        let before_zero = u64::MAX - seconds + 1;
        let (_, _, total_seconds) = duration_parts(-(before_zero as i64));
        let secs = ((-total_seconds) % 60) as u64;
        if secs == 0 {
            text.append("0s");
        } else {
            text.append("-");
            push_decimal(&mut text, secs);
            text.append("s");
        }
    }
    text
}

/// The fields of a span put back together give the span, and the minutes
/// and seconds fields stay below sixty.
pub proof fn law_duration_fields_recompose(n: nat)
    ensures
        ({
            let (h, m, s) = duration_fields(n);
            &&& h * 3600 + m * 60 + s == n
            &&& m < 60
            &&& s < 60
        }),
{
    let q = n / 60;
    vstd::arithmetic::div_mod::lemma_fundamental_div_mod(n as int, 60);
    vstd::arithmetic::div_mod::lemma_fundamental_div_mod(q as int, 60);
    assert(q / 60 == n / 3600) by {
        vstd::arithmetic::div_mod::lemma_div_denominator(n as int, 60, 60);
    }
    assert((n / 3600) * 3600 + (q % 60) * 60 + n % 60 == n) by (nonlinear_arith)
        requires
            n == 60 * q + n % 60,
            q == 60 * (n / 3600) + q % 60,
    ;
}

/// A usage bar always has its twenty cells between two brackets, whatever
/// the percentage it shows (up to the largest one it can show).
pub proof fn law_bar_width(pct: nat)
    requires
        pct <= 104,
    ensures
        bar_text(pct).len() == BAR_CELLS + 2,
{
    reveal_strlit("[");
    reveal_strlit("]");
    assert(filled_cells(pct) <= BAR_CELLS) by (nonlinear_arith)
        requires
            pct <= 104,
    ;
}

/// The width that commands are padded to in the benchmark history.
pub const COMMAND_WIDTH: usize = 30;

/// A duration of `ms` milliseconds in seconds with three decimals, as `1.234s`.
pub open spec fn millis_text(ms: nat) -> Seq<char> {
    decimal(ms / 1000) + "."@ + seq![
        digit_char((ms % 1000) / 100),
        digit_char((ms % 100) / 10),
        digit_char(ms % 10),
    ] + "s"@
}

/// The history line of one benchmark run: the command in its column, then
/// how long it took.
pub open spec fn history_entry(command: Seq<char>, ms: nat) -> Seq<char> {
    padded(command, COMMAND_WIDTH as nat) + " "@ + millis_text(ms)
}

/// The heading of the benchmark history.
pub open spec fn history_heading() -> Seq<char> {
    "\x1b[1;36m--- Benchmark History ---\x1b[0m"@
}

/// What the history says when nothing was benchmarked.
pub open spec fn history_empty_note() -> Seq<char> {
    "No bench runs recorded yet."@
}

/// The benchmark history of the recorded runs (command, milliseconds), oldest
/// first: a heading, then one line per run, or a note that there is none.
pub open spec fn history_report(runs: Seq<(Seq<char>, nat)>) -> Seq<Seq<char>> {
    if runs.len() == 0 {
        seq![history_heading(), history_empty_note()]
    } else {
        seq![history_heading()] + runs.map_values(|r: (Seq<char>, nat)| history_entry(r.0, r.1))
    }
}

/// The recorded runs as pairs of command text and milliseconds.
pub open spec fn runs_view(runs: Seq<(String, u64)>) -> Seq<(Seq<char>, nat)> {
    runs.map_values(|r: (String, u64)| (r.0@, r.1 as nat))
}

/// The history line of a run of `command` that took `ms` milliseconds.
pub fn history_line(command: &str, ms: u64) -> (line: String)
    ensures
        line@ == history_entry(command@, ms as nat),
{
    let mut line = String::new();
    push_padded(&mut line, command, COMMAND_WIDTH);
    line.append(" ");
    push_decimal(&mut line, ms / 1000);
    line.append(".");
    let frac = ms % 1000;
    push_char(&mut line, (48u8 + (frac / 100) as u8) as char);
    push_char(&mut line, (48u8 + ((frac % 100) / 10) as u8) as char);
    push_char(&mut line, (48u8 + (frac % 10) as u8) as char);
    line.append("s");
    assert(((ms as nat) % 1000) % 100 == (ms as nat) % 100) by {
        vstd::arithmetic::div_mod::lemma_mod_mod(ms as int, 10, 100);
    }
    assert(((ms as nat) % 1000) % 10 == (ms as nat) % 10) by {
        vstd::arithmetic::div_mod::lemma_mod_mod(ms as int, 10, 100);
        vstd::arithmetic::div_mod::lemma_mod_mod(ms as int, 100, 10);
    }
    line
}

/// The lines that the `history` command prints for the recorded runs `runs`
/// (each a command and how many milliseconds it took).
pub fn history_lines(runs: &Vec<(String, u64)>) -> (lines: Vec<String>)
    ensures
        crate::parser::strings_view(lines@) == history_report(runs_view(runs@)),
{
    let mut lines: Vec<String> = Vec::new();
    lines.push(String::from_str("\x1b[1;36m--- Benchmark History ---\x1b[0m"));
    if runs.len() == 0 {
        lines.push(String::from_str("No bench runs recorded yet."));
        assert(crate::parser::strings_view(lines@) == history_report(runs_view(runs@)));
        return lines;
    }
    let ghost rv = runs_view(runs@);
    let mut i: usize = 0;
    while i < runs.len()
        invariant
            i <= runs.len(),
            rv == runs_view(runs@),
            crate::parser::strings_view(lines@) == seq![history_heading()] + rv.take(i as int).map_values(
                |r: (Seq<char>, nat)| history_entry(r.0, r.1),
            ),
        decreases runs.len() - i,
    {
        let ghost before = crate::parser::strings_view(lines@);
        let line = history_line(runs[i].0.as_str(), runs[i].1);
        assert(rv[i as int] == (runs@[i as int].0@, runs@[i as int].1 as nat));
        lines.push(line);
        assert(crate::parser::strings_view(lines@) == before.push(line@));
        assert(rv.take(i + 1) == rv.take(i as int).push(rv[i as int]));
        assert(rv.take(i + 1).map_values(|r: (Seq<char>, nat)| history_entry(r.0, r.1))
            == rv.take(i as int).map_values(|r: (Seq<char>, nat)| history_entry(r.0, r.1)).push(
            history_entry(rv[i as int].0, rv[i as int].1),
        ));
        i = i + 1;
    }
    assert(rv.take(runs.len() as int) == rv);
    lines
}

/// The history lists every recorded run: after the heading there is exactly
/// one line per run, in the order recorded, line `i + 1` beginning with the
/// command of run `i`; the note that nothing was recorded appears only when
/// no run was.
pub proof fn law_history_lists_every_run(runs: Seq<(Seq<char>, nat)>)
    ensures
        history_report(runs)[0] == history_heading(),
        runs.len() == 0 ==> history_report(runs) == seq![history_heading(), history_empty_note()],
        runs.len() > 0 ==> history_report(runs).len() == runs.len() + 1,
        forall|i: int|
            0 <= i < runs.len() ==> {
                &&& #[trigger] history_report(runs)[i + 1] == history_entry(runs[i].0, runs[i].1)
                &&& runs[i].0.is_prefix_of(history_report(runs)[i + 1])
            },
{
    assert forall|i: int| 0 <= i < runs.len() implies {
        &&& #[trigger] history_report(runs)[i + 1] == history_entry(runs[i].0, runs[i].1)
        &&& runs[i].0.is_prefix_of(history_report(runs)[i + 1])
    } by {
        let r = history_report(runs);
        assert(r[i + 1] == history_entry(runs[i].0, runs[i].1));
        let c = runs[i].0;
        let e = history_entry(c, runs[i].1);
        let p = padded(c, COMMAND_WIDTH as nat);
        assert(p.take(c.len() as int) == c);
        assert(e.take(c.len() as int) == c) by {
            assert(e == p + (" "@ + millis_text(runs[i].1)));
            assert forall|j: int| 0 <= j < c.len() implies e[j] == c[j] by {
                assert(e[j] == p[j]);
            }
        }
    }
}

} // verus!
