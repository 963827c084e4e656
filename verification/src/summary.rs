//! Compact summaries of check output: the Cargo diagnostics, nextest
//! failures and text excerpts that a failing check is reported with.

use vstd::prelude::*;

use crate::json::{
    cargo_event_of, decode_cargo_event, decode_nextest_event, nextest_event_of, CargoMessage,
    CargoSpan, ChildV, MessageV, SpanV,
};
use crate::text::{
    chars_equal, chars_of, contains, decimal, decimal_chars, has_prefix, has_substring,
    is_ascii_alnum, is_ascii_alphanumeric, lines_of, push_all, split_lines, starts_with,
    string_from, trim_end, trim_end_chars, trim_start, trim_start_chars,
};

verus! {

// ---------------------------------------------------------------------------
// Sequences of lines
// ---------------------------------------------------------------------------

/// The last `limit` items, as a ring buffer of capacity `limit` keeps them;
/// with a limit of 0 the buffer never fills and keeps every item.
pub open spec fn tail_seq<T>(s: Seq<T>, limit: nat) -> Seq<T> {
    if limit == 0 || s.len() <= limit {
        s
    } else {
        s.subrange(s.len() - limit, s.len() as int)
    }
}

/// The first `n` items, or all of them where there are fewer.
pub open spec fn first_n<T>(s: Seq<T>, n: nat) -> Seq<T> {
    if s.len() <= n {
        s
    } else {
        s.take(n as int)
    }
}

/// The sequences one after another.
pub open spec fn join_all<T>(parts: Seq<Seq<T>>) -> Seq<T>
    decreases parts.len(),
{
    if parts.len() == 0 {
        Seq::empty()
    } else {
        join_all(parts.drop_last()) + parts.last()
    }
}

pub fn tail<T>(items: Vec<T>, limit: usize) -> (r: Vec<T>)
    ensures
        r@ == tail_seq(items@, limit as nat),
{
    let mut items = items;
    if limit == 0 || items.len() <= limit {
        items
    } else {
        let at = items.len() - limit;
        items.split_off(at)
    }
}

pub fn first<T>(items: Vec<T>, n: usize) -> (r: Vec<T>)
    ensures
        r@ == first_n(items@, n as nat),
{
    let mut items = items;
    if items.len() > n {
        items.truncate(n);
    }
    items
}

pub open spec fn strings_view(v: Seq<String>) -> Seq<Seq<char>> {
    v.map_values(|s: String| s@)
}

/// The strings made of the given lines.
pub fn to_strings(lines: &Vec<Vec<char>>) -> (r: Vec<String>)
    ensures
        strings_view(r@) == lines.deep_view(),
{
    let mut r: Vec<String> = Vec::new();
    let mut i: usize = 0;
    while i < lines.len()
        invariant
            i <= lines.len(),
            r@.len() == i,
            forall|j: int| 0 <= j < i ==> #[trigger] r@[j]@ == lines@[j]@,
        decreases lines.len() - i,
    {
        r.push(string_from(lines[i].as_slice()));
        i = i + 1;
    }
    proof {
        assert forall|j: int| 0 <= j < r@.len() implies #[trigger] strings_view(r@)[j]
            == lines.deep_view()[j] by {
            assert(lines@[j].deep_view() =~= lines@[j]@);
        }
    }
    assert(strings_view(r@) =~= lines.deep_view());
    r
}

/// The characters of each string.
pub fn to_char_lines(strings: &[String]) -> (r: Vec<Vec<char>>)
    ensures
        r.deep_view() == strings_view(strings@),
{
    let mut r: Vec<Vec<char>> = Vec::new();
    let mut i: usize = 0;
    while i < strings.len()
        invariant
            i <= strings.len(),
            r@.len() == i,
            forall|j: int| 0 <= j < i ==> #[trigger] r@[j]@ == strings@[j]@,
        decreases strings.len() - i,
    {
        r.push(chars_of(strings[i].as_str()));
        i = i + 1;
    }
    proof {
        assert forall|j: int| 0 <= j < r@.len() implies #[trigger] r.deep_view()[j]
            == strings_view(strings@)[j] by {
            assert(r@[j].deep_view() =~= r@[j]@);
        }
    }
    assert(r.deep_view() =~= strings_view(strings@));
    r
}

/// The characters of each string literal.
fn literals(lits: &[&str]) -> (r: Vec<Vec<char>>)
    ensures
        r.deep_view() == lits@.map_values(|s: &str| s@),
{
    let mut r: Vec<Vec<char>> = Vec::new();
    let mut i: usize = 0;
    while i < lits.len()
        invariant
            i <= lits.len(),
            r@.len() == i,
            forall|j: int| 0 <= j < i ==> #[trigger] r@[j]@ == lits@[j]@,
        decreases lits.len() - i,
    {
        r.push(chars_of(lits[i]));
        i = i + 1;
    }
    proof {
        assert forall|j: int| 0 <= j < r@.len() implies #[trigger] r.deep_view()[j]
            == lits@.map_values(|s: &str| s@)[j] by {
            assert(r@[j].deep_view() =~= r@[j]@);
        }
    }
    assert(r.deep_view() =~= lits@.map_values(|s: &str| s@));
    r
}

// ---------------------------------------------------------------------------
// Line filters
// ---------------------------------------------------------------------------

pub open spec fn starts_with_any(l: Seq<char>, prefixes: Seq<Seq<char>>) -> bool {
    exists|i: int| 0 <= i < prefixes.len() && starts_with(l, #[trigger] prefixes[i])
}

pub fn has_any_prefix(l: &[char], prefixes: &Vec<Vec<char>>) -> (r: bool)
    ensures
        r == starts_with_any(l@, prefixes.deep_view()),
{
    let ghost pv = prefixes.deep_view();
    let mut i: usize = 0;
    while i < prefixes.len()
        invariant
            i <= prefixes.len(),
            pv == prefixes.deep_view(),
            forall|j: int| 0 <= j < i ==> !starts_with(l@, #[trigger] pv[j]),
        decreases prefixes.len() - i,
    {
        assert(pv[i as int] =~= prefixes@[i as int]@);
        if has_prefix(l, prefixes[i].as_slice()) {
            return true;
        }
        i = i + 1;
    }
    false
}

/// The lines of `text` that start with one of `prefixes`, the last `limit`
/// of them.
pub open spec fn grep_lines(text: Seq<char>, limit: nat, prefixes: Seq<Seq<char>>) -> Seq<
    Seq<char>,
> {
    tail_seq(lines_of(text).filter(|l: Seq<char>| starts_with_any(l, prefixes)), limit)
}

fn grep_summary(text: &[char], limit: usize, prefixes: &Vec<Vec<char>>) -> (r: Vec<Vec<char>>)
    ensures
        r.deep_view() == grep_lines(text@, limit as nat, prefixes.deep_view()),
{
    let lines = split_lines(text);
    let ghost lv = lines.deep_view();
    let ghost pred = |l: Seq<char>| starts_with_any(l, prefixes.deep_view());
    let mut out: Vec<Vec<char>> = Vec::new();
    let mut i: usize = 0;
    while i < lines.len()
        invariant
            i <= lines.len(),
            lv == lines.deep_view(),
            pred == (|l: Seq<char>| starts_with_any(l, prefixes.deep_view())),
            out.deep_view() == lv.subrange(0, i as int).filter(pred),
        decreases lines.len() - i,
    {
        reveal_with_fuel(Seq::<_>::filter, 1);
        assert(lv.subrange(0, i + 1).drop_last() =~= lv.subrange(0, i as int));
        assert(lv[i as int] =~= lines@[i as int]@);
        let ghost prev = out.deep_view();
        if has_any_prefix(lines[i].as_slice(), prefixes) {
            out.push(slice_copy(lines[i].as_slice()));
            assert(out.deep_view() =~= prev.push(lv[i as int]));
        }
        i = i + 1;
    }
    assert(lv.subrange(0, lv.len() as int) =~= lv);
    tail(out, limit)
}

fn slice_copy(s: &[char]) -> (r: Vec<char>)
    ensures
        r@ == s@,
{
    let mut r: Vec<char> = Vec::new();
    push_all(&mut r, s);
    r
}

pub open spec fn deny_prefixes() -> Seq<Seq<char>> {
    seq![
        "error["@,
        "warning["@,
        "advisories"@,
        "bans"@,
        "licenses"@,
        "sources"@,
        "    ├"@,
        "    └"@,
        "    │"@,
    ]
}

pub open spec fn machete_prefixes() -> Seq<Seq<char>> {
    seq!["Error:"@, "warning:"@, "The following dependencies seem to be unused"@, "  "@]
}

pub open spec fn fallback_prefixes() -> Seq<Seq<char>> {
    seq!["error:"@, "warning:"@, "   -->"@, "help:"@, "FAIL"@, "Summary"@]
}

/// The `cargo deny` findings: its error and warning headers, section names
/// and tree lines.
pub open spec fn cargo_deny_lines(text: Seq<char>) -> Seq<Seq<char>> {
    grep_lines(text, 80, deny_prefixes())
}

/// The `cargo machete` findings.
pub open spec fn cargo_machete_lines(text: Seq<char>) -> Seq<Seq<char>> {
    grep_lines(text, 80, machete_prefixes())
}

/// The lines that look like errors, warnings, their locations and help,
/// and test failures, of output in no known format.
pub open spec fn fallback_lines(text: Seq<char>) -> Seq<Seq<char>> {
    grep_lines(text, 80, fallback_prefixes())
}

fn cargo_deny_summary(text: &[char]) -> (r: Vec<Vec<char>>)
    ensures
        r.deep_view() == cargo_deny_lines(text@),
{
    let p = literals(
        &["error[", "warning[", "advisories", "bans", "licenses", "sources", "    ├", "    └", "    │"],
    );
    assert(p.deep_view() =~= deny_prefixes());
    grep_summary(text, 80, &p)
}

fn cargo_machete_summary(text: &[char]) -> (r: Vec<Vec<char>>)
    ensures
        r.deep_view() == cargo_machete_lines(text@),
{
    let p = literals(&["Error:", "warning:", "The following dependencies seem to be unused", "  "]);
    assert(p.deep_view() =~= machete_prefixes());
    grep_summary(text, 80, &p)
}

fn fallback_summary(text: &[char]) -> (r: Vec<Vec<char>>)
    ensures
        r.deep_view() == fallback_lines(text@),
{
    let p = literals(&["error:", "warning:", "   -->", "help:", "FAIL", "Summary"]);
    assert(p.deep_view() =~= fallback_prefixes());
    grep_summary(text, 80, &p)
}

// ---------------------------------------------------------------------------
// rustfmt
// ---------------------------------------------------------------------------

pub open spec fn is_rustfmt_header(l: Seq<char>) -> bool {
    starts_with(l, "Diff in"@) || starts_with(l, "Error writing files"@) || starts_with(
        l,
        "error:"@,
    )
}

/// The lines kept from rustfmt output, and how many of the lines after the
/// last header may still follow it: each `Diff in`, `Error writing files`
/// or `error:` header is kept with up to 20 lines after it.
pub open spec fn rustfmt_scan(ls: Seq<Seq<char>>) -> (Seq<Seq<char>>, nat)
    decreases ls.len(),
{
    if ls.len() == 0 {
        (Seq::empty(), 0)
    } else {
        let (out, rem) = rustfmt_scan(ls.drop_last());
        let l = ls.last();
        if is_rustfmt_header(l) {
            (out.push(l), 20)
        } else if rem > 0 {
            (out.push(l), (rem - 1) as nat)
        } else {
            (out, 0)
        }
    }
}

/// The rustfmt diffs and errors, the last 80 lines of them.
pub open spec fn rustfmt_lines(text: Seq<char>) -> Seq<Seq<char>> {
    tail_seq(rustfmt_scan(lines_of(text)).0, 80)
}

fn rustfmt_summary(text: &[char]) -> (r: Vec<Vec<char>>)
    ensures
        r.deep_view() == rustfmt_lines(text@),
{
    let diff = chars_of("Diff in");
    let err_writing = chars_of("Error writing files");
    let error = chars_of("error:");
    let lines = split_lines(text);
    let ghost lv = lines.deep_view();
    let mut out: Vec<Vec<char>> = Vec::new();
    let mut remaining: usize = 0;
    let mut i: usize = 0;
    while i < lines.len()
        invariant
            i <= lines.len(),
            lv == lines.deep_view(),
            diff@ == "Diff in"@,
            err_writing@ == "Error writing files"@,
            error@ == "error:"@,
            rustfmt_scan(lv.subrange(0, i as int)) == (out.deep_view(), remaining as nat),
            remaining <= 20,
        decreases lines.len() - i,
    {
        assert(lv.subrange(0, i + 1).drop_last() =~= lv.subrange(0, i as int));
        assert(lv[i as int] =~= lines@[i as int]@);
        let l = lines[i].as_slice();
        let ghost prev = out.deep_view();
        if has_prefix(l, diff.as_slice()) || has_prefix(l, err_writing.as_slice()) || has_prefix(
            l,
            error.as_slice(),
        ) {
            remaining = 20;
            out.push(slice_copy(l));
            assert(out.deep_view() =~= prev.push(lv[i as int]));
        } else if remaining > 0 {
            out.push(slice_copy(l));
            remaining = remaining - 1;
            assert(out.deep_view() =~= prev.push(lv[i as int]));
        }
        i = i + 1;
    }
    assert(lv.subrange(0, lv.len() as int) =~= lv);
    tail(out, 80)
}

// ---------------------------------------------------------------------------
// nextest, human output
// ---------------------------------------------------------------------------

/// A nextest status line of a failed, leaked or timed-out test (given
/// without its indentation).
pub open spec fn is_fail_status(t: Seq<char>) -> bool {
    ||| starts_with(t, "FAIL "@)
    ||| starts_with(t, "TRY "@) && contains(t, " FAIL "@)
    ||| starts_with(t, "LEAK-FAIL "@)
    ||| starts_with(t, "TIMEOUT "@)
}

pub open spec fn is_output_header(l: Seq<char>) -> bool {
    l == "--- STDOUT ---"@ || l == "--- STDERR ---"@
}

pub open spec fn is_nextest_context(l: Seq<char>) -> bool {
    starts_with(l, "error:"@) || starts_with(l, "warning:"@) || starts_with(l, "   -->"@)
        || starts_with(l, "Summary "@)
}

/// The kept lines of nextest's human output, whether a captured output
/// block is open, and how many of its lines were kept: failure status
/// lines, the `--- STDOUT ---`/`--- STDERR ---`/`------------` markers, the
/// first 12 lines of each captured block (indented by two spaces), and
/// error, warning, location and `Summary` lines.
pub open spec fn nextest_scan(ls: Seq<Seq<char>>) -> (Seq<Seq<char>>, bool, nat)
    decreases ls.len(),
{
    if ls.len() == 0 {
        (Seq::empty(), false, 0)
    } else {
        let (out, in_output, count) = nextest_scan(ls.drop_last());
        let l = ls.last();
        if is_fail_status(trim_start(l)) {
            (out.push(l), in_output, count)
        } else if is_output_header(l) {
            (out.push(l), true, 0)
        } else if l == "------------"@ {
            (out.push(l), false, count)
        } else if in_output && count < 12 {
            (out.push("  "@ + l), in_output, count + 1)
        } else if is_nextest_context(l) {
            (out.push(l), in_output, count)
        } else {
            (out, in_output, count)
        }
    }
}

/// The summary of nextest's human output: the last 120 kept lines.
pub open spec fn nextest_text_lines(text: Seq<char>) -> Seq<Seq<char>> {
    tail_seq(nextest_scan(lines_of(text)).0, 120)
}

fn is_fail_status_line(l: &[char]) -> (r: bool)
    ensures
        r == is_fail_status(trim_start(l@)),
{
    let t = trim_start_chars(l);
    let t = t.as_slice();
    has_prefix(t, chars_of("FAIL ").as_slice()) || has_prefix(t, chars_of("TRY ").as_slice())
        && has_substring(t, chars_of(" FAIL ").as_slice()) || has_prefix(
        t,
        chars_of("LEAK-FAIL ").as_slice(),
    ) || has_prefix(t, chars_of("TIMEOUT ").as_slice())
}

fn is_nextest_context_line(l: &[char]) -> (r: bool)
    ensures
        r == is_nextest_context(l@),
{
    has_prefix(l, chars_of("error:").as_slice()) || has_prefix(l, chars_of("warning:").as_slice())
        || has_prefix(l, chars_of("   -->").as_slice()) || has_prefix(
        l,
        chars_of("Summary ").as_slice(),
    )
}

fn nextest_text_summary(text: &[char]) -> (r: Vec<Vec<char>>)
    ensures
        r.deep_view() == nextest_text_lines(text@),
{
    let stdout_marker = chars_of("--- STDOUT ---");
    let stderr_marker = chars_of("--- STDERR ---");
    let end_marker = chars_of("------------");
    let lines = split_lines(text);
    let ghost lv = lines.deep_view();
    let mut out: Vec<Vec<char>> = Vec::new();
    let mut in_output = false;
    let mut count: usize = 0;
    let mut i: usize = 0;
    while i < lines.len()
        invariant
            i <= lines.len(),
            lv == lines.deep_view(),
            stdout_marker@ == "--- STDOUT ---"@,
            stderr_marker@ == "--- STDERR ---"@,
            end_marker@ == "------------"@,
            nextest_scan(lv.subrange(0, i as int)) == (out.deep_view(), in_output, count as nat),
            count <= 12,
        decreases lines.len() - i,
    {
        assert(lv.subrange(0, i + 1).drop_last() =~= lv.subrange(0, i as int));
        assert(lv[i as int] =~= lines@[i as int]@);
        let l = lines[i].as_slice();
        let ghost prev = out.deep_view();
        if is_fail_status_line(l) {
            out.push(slice_copy(l));
            assert(out.deep_view() =~= prev.push(lv[i as int]));
        } else if chars_equal(l, stdout_marker.as_slice()) || chars_equal(
            l,
            stderr_marker.as_slice(),
        ) {
            in_output = true;
            count = 0;
            out.push(slice_copy(l));
            assert(out.deep_view() =~= prev.push(lv[i as int]));
        } else if chars_equal(l, end_marker.as_slice()) {
            in_output = false;
            out.push(slice_copy(l));
            assert(out.deep_view() =~= prev.push(lv[i as int]));
        } else if in_output && count < 12 {
            let mut indented = chars_of("  ");
            push_all(&mut indented, l);
            assert(indented.deep_view() =~= "  "@ + lv[i as int]);
            out.push(indented);
            count = count + 1;
            assert(out.deep_view() =~= prev.push("  "@ + lv[i as int]));
        } else if is_nextest_context_line(l) {
            out.push(slice_copy(l));
            assert(out.deep_view() =~= prev.push(lv[i as int]));
        }
        i = i + 1;
    }
    assert(lv.subrange(0, lv.len() as int) =~= lv);
    tail(out, 120)
}

// ---------------------------------------------------------------------------
// Recent lines
// ---------------------------------------------------------------------------

/// The last `limit` non-empty lines of `text`.
pub open spec fn recent_lines_of(text: Seq<char>, limit: nat) -> Seq<Seq<char>> {
    tail_seq(lines_of(text).filter(|l: Seq<char>| l.len() > 0), limit)
}

pub fn recent_lines(text: &[char], limit: usize) -> (r: Vec<Vec<char>>)
    ensures
        r.deep_view() == recent_lines_of(text@, limit as nat),
{
    let lines = split_lines(text);
    let ghost lv = lines.deep_view();
    let ghost pred = |l: Seq<char>| l.len() > 0;
    let mut out: Vec<Vec<char>> = Vec::new();
    let mut i: usize = 0;
    while i < lines.len()
        invariant
            i <= lines.len(),
            lv == lines.deep_view(),
            pred == (|l: Seq<char>| l.len() > 0),
            out.deep_view() == lv.subrange(0, i as int).filter(pred),
        decreases lines.len() - i,
    {
        reveal_with_fuel(Seq::<_>::filter, 1);
        assert(lv.subrange(0, i + 1).drop_last() =~= lv.subrange(0, i as int));
        assert(lv[i as int] =~= lines@[i as int]@);
        let ghost prev = out.deep_view();
        if lines[i].len() > 0 {
            out.push(slice_copy(lines[i].as_slice()));
            assert(out.deep_view() =~= prev.push(lv[i as int]));
        }
        i = i + 1;
    }
    assert(lv.subrange(0, lv.len() as int) =~= lv);
    tail(out, limit)
}

// ---------------------------------------------------------------------------
// Recognizing output formats
// ---------------------------------------------------------------------------

/// The output format of a check.
#[derive(Debug, Clone, Copy, PartialEq, Eq, Structural)]
pub enum Mode {
    /// Recognize the format from the output and the command.
    Auto,
    /// Cargo JSON compiler diagnostics (clippy, doctests).
    Cargo,
    /// nextest, JSON or human output.
    Nextest,
    /// rustfmt diffs.
    Rustfmt,
    /// `cargo deny`.
    CargoDeny,
    /// `cargo machete`.
    CargoMachete,
}

impl Default for Mode {
    fn default() -> (m: Mode)
        ensures
            m == Mode::Auto,
    {
        Mode::Auto
    }
}

/// A line of Cargo JSON output that reports a compiler message.
pub open spec fn is_cargo_message_line(l: Seq<char>) -> bool {
    decode_cargo_event(l) matches Some(e) && e.reason == Some("compiler-message"@)
}

/// A line of nextest JSON output that reports on a test.
pub open spec fn is_nextest_test_line(l: Seq<char>) -> bool {
    decode_nextest_event(l) matches Some(e) && e.kind == Some("test"@)
}

pub open spec fn is_nextest_text_line(l: Seq<char>) -> bool {
    is_fail_status(trim_start(l)) || starts_with(l, "Summary "@) && contains(l, " test run"@)
}

pub open spec fn is_rustfmt_output_line(l: Seq<char>) -> bool {
    starts_with(l, "Diff in"@) || starts_with(l, "Error writing files"@)
}

pub open spec fn is_deny_output_line(l: Seq<char>) -> bool {
    starts_with_any(l, deny_prefixes().take(6))
}

pub open spec fn is_machete_output_line(l: Seq<char>) -> bool {
    starts_with(l, "The following dependencies seem to be unused"@) || starts_with(l, "Error:"@)
        && contains(l, "unused"@)
}

/// A test of a single line of output.
pub enum LineTest {
    CargoMessage,
    NextestTest,
    NextestText,
    RustfmtOutput,
    DenyOutput,
    MacheteOutput,
}

pub open spec fn line_passes(t: LineTest, l: Seq<char>) -> bool {
    match t {
        LineTest::CargoMessage => is_cargo_message_line(l),
        LineTest::NextestTest => is_nextest_test_line(l),
        LineTest::NextestText => is_nextest_text_line(l),
        LineTest::RustfmtOutput => is_rustfmt_output_line(l),
        LineTest::DenyOutput => is_deny_output_line(l),
        LineTest::MacheteOutput => is_machete_output_line(l),
    }
}

/// Some line of the text passes the test.
pub open spec fn some_line(t: LineTest, text: Seq<char>) -> bool {
    exists|i: int| 0 <= i < lines_of(text).len() && line_passes(t, #[trigger] lines_of(text)[i])
}

fn passes(t: &LineTest, l: &[char]) -> (r: bool)
    ensures
        r == line_passes(*t, l@),
{
    match t {
        LineTest::CargoMessage => match cargo_event_of(l) {
            Some(e) => match &e.reason {
                Some(reason) => chars_equal(reason.as_slice(), chars_of("compiler-message").as_slice()),
                None => false,
            },
            None => false,
        },
        LineTest::NextestTest => match nextest_event_of(l) {
            Some(e) => match &e.kind {
                Some(kind) => chars_equal(kind.as_slice(), chars_of("test").as_slice()),
                None => false,
            },
            None => false,
        },
        LineTest::NextestText => is_fail_status_line(l) || has_prefix(
            l,
            chars_of("Summary ").as_slice(),
        ) && has_substring(l, chars_of(" test run").as_slice()),
        LineTest::RustfmtOutput => has_prefix(l, chars_of("Diff in").as_slice()) || has_prefix(
            l,
            chars_of("Error writing files").as_slice(),
        ),
        LineTest::DenyOutput => {
            let p = literals(&["error[", "warning[", "advisories", "bans", "licenses", "sources"]);
            assert(p.deep_view() =~= deny_prefixes().take(6));
            has_any_prefix(l, &p)
        },
        LineTest::MacheteOutput => has_prefix(
            l,
            chars_of("The following dependencies seem to be unused").as_slice(),
        ) || has_prefix(l, chars_of("Error:").as_slice()) && has_substring(
            l,
            chars_of("unused").as_slice(),
        ),
    }
}

fn any_line(t: LineTest, lines: &Vec<Vec<char>>, Ghost(text): Ghost<Seq<char>>) -> (r: bool)
    requires
        lines.deep_view() == lines_of(text),
    ensures
        r == some_line(t, text),
{
    let ghost lv = lines.deep_view();
    let mut i: usize = 0;
    while i < lines.len()
        invariant
            i <= lines.len(),
            lv == lines.deep_view(),
            lv == lines_of(text),
            forall|j: int| 0 <= j < i ==> !line_passes(t, #[trigger] lv[j]),
        decreases lines.len() - i,
    {
        assert(lv[i as int] =~= lines@[i as int]@);
        if passes(&t, lines[i].as_slice()) {
            return true;
        }
        i = i + 1;
    }
    false
}

/// The command has `a` and `b` as consecutive words.
pub open spec fn has_word_pair(cmd: Seq<Seq<char>>, a: Seq<char>, b: Seq<char>) -> bool {
    exists|i: int| 0 <= i && i + 1 < cmd.len() && #[trigger] cmd[i] == a && cmd[i + 1] == b
}

pub open spec fn has_word(cmd: Seq<Seq<char>>, w: Seq<char>) -> bool {
    exists|i: int| 0 <= i < cmd.len() && #[trigger] cmd[i] == w
}

fn word_pair(cmd: &Vec<Vec<char>>, a: &str, b: &str) -> (r: bool)
    ensures
        r == has_word_pair(cmd.deep_view(), a@, b@),
{
    let ghost cv = cmd.deep_view();
    let av = chars_of(a);
    let bv = chars_of(b);
    let mut i: usize = 0;
    while i < cmd.len() && i + 1 < cmd.len()
        invariant
            i <= cmd.len(),
            cv == cmd.deep_view(),
            av@ == a@,
            bv@ == b@,
            forall|j: int| 0 <= j < i && j + 1 < cv.len() ==> !(#[trigger] cv[j] == a@ && cv[j + 1]
                == b@),
        decreases cmd.len() - i,
    {
        assert(cv[i as int] =~= cmd@[i as int]@);
        assert(cv[i + 1] =~= cmd@[i + 1]@);
        if chars_equal(cmd[i].as_slice(), av.as_slice()) && chars_equal(
            cmd[i + 1].as_slice(),
            bv.as_slice(),
        ) {
            return true;
        }
        i = i + 1;
    }
    false
}

fn word(cmd: &Vec<Vec<char>>, w: &str) -> (r: bool)
    ensures
        r == has_word(cmd.deep_view(), w@),
{
    let ghost cv = cmd.deep_view();
    let wv = chars_of(w);
    let mut i: usize = 0;
    while i < cmd.len()
        invariant
            i <= cmd.len(),
            cv == cmd.deep_view(),
            wv@ == w@,
            forall|j: int| 0 <= j < i ==> !(#[trigger] cv[j] == w@),
        decreases cmd.len() - i,
    {
        assert(cv[i as int] =~= cmd@[i as int]@);
        if chars_equal(cmd[i].as_slice(), wv.as_slice()) {
            return true;
        }
        i = i + 1;
    }
    false
}

/// The format of the output: the requested one, or where `Auto` is
/// requested, the first that the output or the command shows, in the
/// order Cargo JSON, nextest, rustfmt, cargo-deny, cargo-machete.
pub open spec fn detected_mode(mode: Mode, cmd: Seq<Seq<char>>, text: Seq<char>) -> Mode {
    if mode != Mode::Auto {
        mode
    } else if some_line(LineTest::CargoMessage, text) {
        Mode::Cargo
    } else if some_line(LineTest::NextestTest, text) || has_word_pair(cmd, "cargo"@, "nextest"@)
        || has_word(cmd, "cargo-nextest"@) || some_line(LineTest::NextestText, text) {
        Mode::Nextest
    } else if has_word(cmd, "rustfmt"@) || has_word_pair(cmd, "cargo"@, "fmt"@) || some_line(
        LineTest::RustfmtOutput,
        text,
    ) {
        Mode::Rustfmt
    } else if has_word_pair(cmd, "cargo"@, "deny"@) || has_word(cmd, "cargo-deny"@) || some_line(
        LineTest::DenyOutput,
        text,
    ) {
        Mode::CargoDeny
    } else if has_word_pair(cmd, "cargo"@, "machete"@) || has_word(cmd, "cargo-machete"@)
        || some_line(LineTest::MacheteOutput, text) {
        Mode::CargoMachete
    } else {
        Mode::Auto
    }
}

fn detect_mode(mode: Mode, cmd: &Vec<Vec<char>>, lines: &Vec<Vec<char>>, Ghost(text): Ghost<
    Seq<char>,
>) -> (r: Mode)
    requires
        lines.deep_view() == lines_of(text),
    ensures
        r == detected_mode(mode, cmd.deep_view(), text),
{
    if mode != Mode::Auto {
        return mode;
    }
    if any_line(LineTest::CargoMessage, lines, Ghost(text)) {
        return Mode::Cargo;
    }
    if any_line(LineTest::NextestTest, lines, Ghost(text)) || word_pair(cmd, "cargo", "nextest")
        || word(cmd, "cargo-nextest") || any_line(LineTest::NextestText, lines, Ghost(text)) {
        return Mode::Nextest;
    }
    if word(cmd, "rustfmt") || word_pair(cmd, "cargo", "fmt") || any_line(
        LineTest::RustfmtOutput,
        lines,
        Ghost(text),
    ) {
        return Mode::Rustfmt;
    }
    if word_pair(cmd, "cargo", "deny") || word(cmd, "cargo-deny") || any_line(
        LineTest::DenyOutput,
        lines,
        Ghost(text),
    ) {
        return Mode::CargoDeny;
    }
    if word_pair(cmd, "cargo", "machete") || word(cmd, "cargo-machete") || any_line(
        LineTest::MacheteOutput,
        lines,
        Ghost(text),
    ) {
        return Mode::CargoMachete;
    }
    Mode::Auto
}

// ---------------------------------------------------------------------------
// Cargo diagnostics
// ---------------------------------------------------------------------------

/// A compiler error or warning.
#[derive(Debug, Clone, PartialEq, Eq)]
pub struct Diagnostic {
    pub severity: String,
    pub location: Option<String>,
    pub code: Option<String>,
    pub message: String,
    pub details: Vec<String>,
}

#[verifier::ext_equal]
pub struct DiagnosticV {
    pub severity: Seq<char>,
    pub location: Option<Seq<char>>,
    pub code: Option<Seq<char>>,
    pub message: Seq<char>,
    pub details: Seq<Seq<char>>,
}

pub open spec fn opt_string_view(o: Option<String>) -> Option<Seq<char>> {
    match o {
        Some(s) => Some(s@),
        None => None,
    }
}

impl View for Diagnostic {
    type V = DiagnosticV;

    open spec fn view(&self) -> DiagnosticV {
        DiagnosticV {
            severity: self.severity@,
            location: opt_string_view(self.location),
            code: opt_string_view(self.code),
            message: self.message@,
            details: strings_view(self.details@),
        }
    }
}

/// `file:line:column` of a span.
pub open spec fn span_location(s: SpanV) -> Seq<char> {
    s.file_name + ":"@ + decimal(s.line_start) + ":"@ + decimal(s.column_start)
}

pub open spec fn first_primary(spans: Seq<SpanV>) -> Option<SpanV>
    decreases spans.len(),
{
    if spans.len() == 0 {
        None
    } else if spans[0].is_primary {
        Some(spans[0])
    } else {
        first_primary(spans.drop_first())
    }
}

/// The span a diagnostic is located at: its first primary span, else its
/// first span.
pub open spec fn location_span(spans: Seq<SpanV>) -> Option<SpanV> {
    match first_primary(spans) {
        Some(s) => Some(s),
        None => if spans.len() > 0 {
            Some(spans[0])
        } else {
            None
        },
    }
}

/// `file:line:column: label` for a span with a non-empty label.
pub open spec fn label_detail(s: SpanV) -> Option<Seq<char>> {
    match s.label {
        Some(l) => if l.len() > 0 {
            Some(span_location(s) + ": "@ + l)
        } else {
            None
        },
        None => None,
    }
}

pub open spec fn non_primary() -> spec_fn(SpanV) -> bool {
    |s: SpanV| !s.is_primary
}

pub open spec fn label_detail_fn() -> spec_fn(SpanV) -> Option<Seq<char>> {
    |s: SpanV| label_detail(s)
}

/// The labels of the first `n` non-primary spans.
pub open spec fn span_details(spans: Seq<SpanV>, n: nat) -> Seq<Seq<char>> {
    first_n(spans.filter(non_primary()), n).filter_map(label_detail_fn())
}

proof fn lemma_filter_prefix_first_n<T>(s: Seq<T>, p: spec_fn(T) -> bool, i: int, n: nat)
    requires
        0 <= i <= s.len(),
        (i == s.len() && s.subrange(0, i).filter(p).len() <= n) || s.subrange(0, i).filter(
            p,
        ).len() == n,
    ensures
        first_n(s.filter(p), n) == s.subrange(0, i).filter(p),
{
    let a = s.subrange(0, i);
    let b = s.subrange(i, s.len() as int);
    assert(s =~= a + b);
    Seq::filter_distributes_over_add(a, b, p);
    if i == s.len() {
        assert(b.len() == 0);
        reveal_with_fuel(Seq::<_>::filter, 1);
        assert(b.filter(p) =~= Seq::<T>::empty());
        assert(s.filter(p) =~= a.filter(p));
    } else {
        assert((a.filter(p) + b.filter(p)).take(n as int) =~= a.filter(p));
    }
}

pub open spec fn is_detail_level(l: Seq<char>) -> bool {
    l == "help"@ || l == "note"@ || l == "warning"@ || l == "error"@
}

/// What a child message adds: `level: message` for a help, note, warning
/// or error with a message, then the labels of its first two non-primary
/// spans.
pub open spec fn child_details(c: ChildV) -> Seq<Seq<char>> {
    (if c.message.len() > 0 && is_detail_level(c.level) {
        seq![c.level + ": "@ + c.message]
    } else {
        Seq::empty()
    }) + span_details(c.spans, 2)
}

/// The details of a message: the labels of its first four non-primary
/// spans, then what its first six children add; the last 12 of them.
pub open spec fn message_details(m: MessageV) -> Seq<Seq<char>> {
    tail_seq(
        span_details(m.spans, 4) + join_all(first_n(m.children, 6).map_values(|c: ChildV| child_details(c))),
        12,
    )
}

/// A `note:`/`help:` line (possibly as `= note:`) of a rendered message.
pub open spec fn keeps_rendered(l: Seq<char>) -> bool {
    let t = trim_start(l);
    t.len() > 0 && (starts_with(t, "= note:"@) || starts_with(t, "= help:"@) || starts_with(
        t,
        "help:"@,
    ) || starts_with(t, "note:"@))
}

/// The first six note and help lines of a rendered message, without
/// trailing whitespace.
pub open spec fn rendered_details(r: Seq<char>) -> Seq<Seq<char>> {
    first_n(
        lines_of(r).map_values(|l: Seq<char>| trim_end(l)).filter(|l: Seq<char>| keeps_rendered(l)),
        6,
    )
}

/// All the details of a message: its own, then those of its rendered form;
/// the last 12 of them.
pub open spec fn all_details(m: MessageV) -> Seq<Seq<char>> {
    match m.rendered {
        Some(r) => tail_seq(message_details(m) + rendered_details(r), 12),
        None => message_details(m),
    }
}

pub open spec fn diagnostic_from(m: MessageV) -> DiagnosticV {
    DiagnosticV {
        severity: m.level,
        location: match location_span(m.spans) {
            Some(s) => Some(span_location(s)),
            None => None,
        },
        code: m.code,
        message: m.message,
        details: all_details(m),
    }
}

/// The diagnostic that a line of Cargo JSON output reports: a compiler
/// message at level error or warning.
pub open spec fn diagnostic_of_line(l: Seq<char>) -> Option<DiagnosticV> {
    match decode_cargo_event(l) {
        Some(e) => if e.reason == Some("compiler-message"@) {
            match e.message {
                Some(m) => if m.level == "error"@ || m.level == "warning"@ {
                    Some(diagnostic_from(m))
                } else {
                    None
                },
                None => None,
            }
        } else {
            None
        },
        None => None,
    }
}

/// The diagnostics of Cargo JSON output, in order.
pub open spec fn cargo_diagnostics_of(text: Seq<char>) -> Seq<DiagnosticV> {
    lines_of(text).filter_map(|l: Seq<char>| diagnostic_of_line(l))
}

fn span_location_chars(s: &CargoSpan) -> (r: Vec<char>)
    ensures
        r@ == span_location(s@),
{
    let mut r = slice_copy(s.file_name.as_slice());
    r.push(':');
    push_all(&mut r, decimal_chars(s.line_start as u64).as_slice());
    r.push(':');
    push_all(&mut r, decimal_chars(s.column_start as u64).as_slice());
    proof {
        reveal_strlit(":");
    }
    assert(r@ =~= span_location(s@));
    r
}

fn label_detail_chars(s: &CargoSpan) -> (r: Option<Vec<char>>)
    ensures
        match r {
            Some(v) => label_detail(s@) == Some(v@),
            None => label_detail(s@) is None,
        },
{
    match &s.label {
        Some(l) => if l.len() > 0 {
            let mut r = span_location_chars(s);
            r.push(':');
            r.push(' ');
            push_all(&mut r, l.as_slice());
            proof {
                reveal_strlit(": ");
            }
            assert(r@ =~= span_location(s@) + ": "@ + l@);
            Some(r)
        } else {
            None
        },
        None => None,
    }
}

fn span_details_of(spans: &Vec<CargoSpan>, n: usize, out: &mut Vec<Vec<char>>)
    ensures
        final(out).deep_view() == old(out).deep_view() + span_details(
            crate::json::spans_view(spans@),
            n as nat,
        ),
{
    let ghost sv = crate::json::spans_view(spans@);
    let ghost start = out.deep_view();
    let mut taken: usize = 0;
    let mut i: usize = 0;
    while i < spans.len() && taken < n
        invariant
            i <= spans.len(),
            taken <= n,
            sv == crate::json::spans_view(spans@),
            sv.subrange(0, i as int).filter(non_primary()).len() == taken,
            out.deep_view() == start + sv.subrange(0, i as int).filter(non_primary()).filter_map(
                label_detail_fn(),
            ),
        decreases spans.len() - i,
    {
        reveal_with_fuel(Seq::<_>::filter, 1);
        let ghost pre = sv.subrange(0, i as int);
        let ghost before = pre.filter(non_primary());
        assert(sv.subrange(0, i + 1).drop_last() =~= pre);
        assert(sv[i as int] == spans@[i as int]@);
        let ghost prev = out.deep_view();
        if !spans[i].is_primary {
            match label_detail_chars(&spans[i]) {
                Some(d) => {
                    assert(d.deep_view() =~= d@);
                    out.push(d);
                    assert(out.deep_view() =~= prev + seq![label_detail(sv[i as int])->0]);
                },
                None => {},
            }
            taken = taken + 1;
        }
        i = i + 1;
        proof {
            let cur = sv.subrange(0, i as int).filter(non_primary());
            if !sv[i - 1].is_primary {
                assert(cur == before.push(sv[i - 1]));
                assert(cur.drop_last() =~= before);
                assert(cur.last() == sv[i - 1]);
                assert(cur.filter_map(label_detail_fn()) =~= before.filter_map(label_detail_fn())
                    + match label_detail(sv[i - 1]) {
                    Some(d) => seq![d],
                    None => Seq::empty(),
                });
            } else {
                assert(cur == before);
            }
            assert(start + cur.filter_map(label_detail_fn()) =~= out.deep_view());
        }
    }
    proof {
        lemma_filter_prefix_first_n(sv, non_primary(), i as int, n as nat);
    }
}

fn is_detail_level_chars(l: &[char]) -> (r: bool)
    ensures
        r == is_detail_level(l@),
{
    chars_equal(l, chars_of("help").as_slice()) || chars_equal(l, chars_of("note").as_slice())
        || chars_equal(l, chars_of("warning").as_slice()) || chars_equal(
        l,
        chars_of("error").as_slice(),
    )
}

fn child_details_of(c: &crate::json::CargoChild, out: &mut Vec<Vec<char>>)
    ensures
        final(out).deep_view() == old(out).deep_view() + child_details(c@),
{
    let ghost start = out.deep_view();
    if c.message.len() > 0 && is_detail_level_chars(c.level.as_slice()) {
        let mut d = slice_copy(c.level.as_slice());
        d.push(':');
        d.push(' ');
        push_all(&mut d, c.message.as_slice());
        proof {
            reveal_strlit(": ");
        }
        assert(d.deep_view() =~= c@.level + ": "@ + c@.message);
        out.push(d);
    }
    let ghost mid = out.deep_view();
    span_details_of(&c.spans, 2, out);
    assert(out.deep_view() =~= start + child_details(c@));
}

pub open spec fn child_details_fn() -> spec_fn(ChildV) -> Seq<Seq<char>> {
    |c: ChildV| child_details(c)
}

fn message_details_of(m: &CargoMessage) -> (r: Vec<Vec<char>>)
    ensures
        r.deep_view() == message_details(m@),
{
    let mut out: Vec<Vec<char>> = Vec::new();
    assert(out.deep_view() =~= Seq::<Seq<char>>::empty());
    span_details_of(&m.spans, 4, &mut out);
    let ghost head = out.deep_view();
    let ghost cs = first_n(m@.children, 6).map_values(child_details_fn());
    let n: usize = if m.children.len() < 6 {
        m.children.len()
    } else {
        6
    };
    assert(cs.len() == n);
    let mut i: usize = 0;
    while i < n
        invariant
            i <= n <= m.children.len(),
            cs == first_n(m@.children, 6).map_values(child_details_fn()),
            cs.len() == n,
            out.deep_view() == head + join_all(cs.subrange(0, i as int)),
        decreases n - i,
    {
        let ghost prev = out.deep_view();
        child_details_of(&m.children[i], &mut out);
        assert(cs.subrange(0, i + 1).drop_last() =~= cs.subrange(0, i as int));
        assert(cs[i as int] == child_details(m.children@[i as int]@));
        i = i + 1;
        assert(out.deep_view() =~= head + join_all(cs.subrange(0, i as int)));
    }
    assert(cs.subrange(0, n as int) =~= cs);
    assert(first_n(m@.children, 6).map_values(|c: ChildV| child_details(c)) =~= cs);
    tail(out, 12)
}

fn keeps_rendered_line(l: &[char]) -> (r: bool)
    ensures
        r == keeps_rendered(l@),
{
    let t = trim_start_chars(l);
    let t = t.as_slice();
    t.len() > 0 && (has_prefix(t, chars_of("= note:").as_slice()) || has_prefix(
        t,
        chars_of("= help:").as_slice(),
    ) || has_prefix(t, chars_of("help:").as_slice()) || has_prefix(
        t,
        chars_of("note:").as_slice(),
    ))
}

pub open spec fn trim_end_fn() -> spec_fn(Seq<char>) -> Seq<char> {
    |l: Seq<char>| trim_end(l)
}

pub open spec fn keeps_rendered_fn() -> spec_fn(Seq<char>) -> bool {
    |l: Seq<char>| keeps_rendered(l)
}

fn rendered_details_of(r: &[char]) -> (out: Vec<Vec<char>>)
    ensures
        out.deep_view() == rendered_details(r@),
{
    let lines = split_lines(r);
    let ghost tv = lines.deep_view().map_values(trim_end_fn());
    let mut out: Vec<Vec<char>> = Vec::new();
    let mut i: usize = 0;
    while i < lines.len() && out.len() < 6
        invariant
            i <= lines.len(),
            tv == lines.deep_view().map_values(trim_end_fn()),
            out.deep_view() == tv.subrange(0, i as int).filter(keeps_rendered_fn()),
            out.len() <= 6,
        decreases lines.len() - i,
    {
        reveal_with_fuel(Seq::<_>::filter, 1);
        assert(tv.subrange(0, i + 1).drop_last() =~= tv.subrange(0, i as int));
        assert(lines.deep_view()[i as int] =~= lines@[i as int]@);
        let t = trim_end_chars(lines[i].as_slice());
        let ghost prev = out.deep_view();
        if keeps_rendered_line(t.as_slice()) {
            assert(t.deep_view() =~= t@);
            out.push(t);
            assert(out.deep_view() =~= prev.push(tv[i as int]));
        }
        i = i + 1;
    }
    proof {
        lemma_filter_prefix_first_n(tv, keeps_rendered_fn(), i as int, 6);
        assert(lines_of(r@).map_values(|l: Seq<char>| trim_end(l)) =~= tv);
    }
    out
}

fn all_details_of(m: &CargoMessage) -> (r: Vec<Vec<char>>)
    ensures
        r.deep_view() == all_details(m@),
{
    let mut details = message_details_of(m);
    match &m.rendered {
        Some(rendered) => {
            let ghost d0 = details.deep_view();
            let mut extra = rendered_details_of(rendered.as_slice());
            let ghost e0 = extra.deep_view();
            details.append(&mut extra);
            assert(details.deep_view() =~= d0 + e0);
            tail(details, 12)
        },
        None => details,
    }
}

/// Where a message is located, as `file:line:column`.
fn location_of(spans: &Vec<CargoSpan>) -> (r: Option<Vec<char>>)
    ensures
        match r {
            Some(l) => location_span(crate::json::spans_view(spans@)) matches Some(s) && l@
                == span_location(s),
            None => location_span(crate::json::spans_view(spans@)) is None,
        },
{
    let ghost sv = crate::json::spans_view(spans@);
    let mut i: usize = 0;
    assert(sv.subrange(0, sv.len() as int) =~= sv);
    while i < spans.len()
        invariant
            i <= spans.len(),
            sv == crate::json::spans_view(spans@),
            first_primary(sv) == first_primary(sv.subrange(i as int, sv.len() as int)),
        decreases spans.len() - i,
    {
        let ghost rest = sv.subrange(i as int, sv.len() as int);
        assert(rest[0] == spans@[i as int]@);
        if spans[i].is_primary {
            return Some(span_location_chars(&spans[i]));
        }
        assert(rest.drop_first() =~= sv.subrange(i + 1, sv.len() as int));
        i = i + 1;
    }
    assert(sv.subrange(sv.len() as int, sv.len() as int).len() == 0);
    if spans.len() > 0 {
        Some(span_location_chars(&spans[0]))
    } else {
        None
    }
}

fn opt_string_from(o: &Option<Vec<char>>) -> (r: Option<String>)
    ensures
        opt_string_view(r) == crate::json::opt_chars_view(*o),
{
    match o {
        Some(v) => Some(string_from(v.as_slice())),
        None => None,
    }
}

fn diagnostic_of(m: &CargoMessage) -> (r: Diagnostic)
    ensures
        r@ == diagnostic_from(m@),
{
    let location = match location_of(&m.spans) {
        Some(l) => Some(string_from(l.as_slice())),
        None => None,
    };
    let details = all_details_of(m);
    let r = Diagnostic {
        severity: string_from(m.level.as_slice()),
        location,
        code: opt_string_from(&m.code),
        message: string_from(m.message.as_slice()),
        details: to_strings(&details),
    };
    assert(r@.details =~= diagnostic_from(m@).details);
    r
}

pub open spec fn diagnostic_of_line_fn() -> spec_fn(Seq<char>) -> Option<DiagnosticV> {
    |l: Seq<char>| diagnostic_of_line(l)
}

pub open spec fn diagnostics_view(v: Seq<Diagnostic>) -> Seq<DiagnosticV> {
    v.map_values(|d: Diagnostic| d@)
}

fn cargo_diagnostics(lines: &Vec<Vec<char>>, Ghost(text): Ghost<Seq<char>>) -> (r: Vec<Diagnostic>)
    requires
        lines.deep_view() == lines_of(text),
    ensures
        diagnostics_view(r@) == cargo_diagnostics_of(text),
{
    let ghost lv = lines.deep_view();
    let compiler_message = chars_of("compiler-message");
    let error = chars_of("error");
    let warning = chars_of("warning");
    let mut out: Vec<Diagnostic> = Vec::new();
    let mut i: usize = 0;
    while i < lines.len()
        invariant
            i <= lines.len(),
            lv == lines.deep_view(),
            compiler_message@ == "compiler-message"@,
            error@ == "error"@,
            warning@ == "warning"@,
            diagnostics_view(out@) == lv.subrange(0, i as int).filter_map(diagnostic_of_line_fn()),
        decreases lines.len() - i,
    {
        assert(lv.subrange(0, i + 1).drop_last() =~= lv.subrange(0, i as int));
        assert(lv[i as int] =~= lines@[i as int]@);
        let ghost prev = out@;
        let mut pushed = false;
        match cargo_event_of(lines[i].as_slice()) {
            Some(event) => match (&event.reason, &event.message) {
                (Some(reason), Some(message)) => {
                    if chars_equal(reason.as_slice(), compiler_message.as_slice()) && (chars_equal(
                        message.level.as_slice(),
                        error.as_slice(),
                    ) || chars_equal(message.level.as_slice(), warning.as_slice())) {
                        let d = diagnostic_of(message);
                        out.push(d);
                        pushed = true;
                    }
                },
                _ => {},
            },
            None => {},
        }
        proof {
            let l = lv[i as int];
            let cur = lv.subrange(0, i + 1);
            assert(cur.last() == l);
            if pushed {
                assert(diagnostics_view(out@) =~= diagnostics_view(prev).push(out@.last()@));
            } else {
                assert(diagnostic_of_line(l) is None);
                assert(out@ == prev);
            }
        }
        i = i + 1;
    }
    assert(lv.subrange(0, lv.len() as int) =~= lv);
    out
}

// ---------------------------------------------------------------------------
// nextest failures
// ---------------------------------------------------------------------------

/// A failed test, with the last lines of what it printed.
#[derive(Debug, Clone, PartialEq, Eq)]
pub struct TestFailure {
    pub name: String,
    pub stdout: Vec<String>,
    pub stderr: Vec<String>,
}

#[verifier::ext_equal]
pub struct TestFailureV {
    pub name: Seq<char>,
    pub stdout: Seq<Seq<char>>,
    pub stderr: Seq<Seq<char>>,
}

impl View for TestFailure {
    type V = TestFailureV;

    open spec fn view(&self) -> TestFailureV {
        TestFailureV {
            name: self.name@,
            stdout: strings_view(self.stdout@),
            stderr: strings_view(self.stderr@),
        }
    }
}

pub open spec fn unwrap_text(o: Option<Seq<char>>) -> Seq<char> {
    match o {
        Some(t) => t,
        None => Seq::empty(),
    }
}

/// The failure that a line of nextest JSON output reports: a named test
/// event `failed`, with the last 12 non-empty lines of its output.
pub open spec fn failure_of_line(l: Seq<char>) -> Option<TestFailureV> {
    match decode_nextest_event(l) {
        Some(e) => if e.kind == Some("test"@) && e.event == Some("failed"@) {
            match e.name {
                Some(n) => Some(
                    TestFailureV {
                        name: n,
                        stdout: recent_lines_of(unwrap_text(e.stdout), 12),
                        stderr: recent_lines_of(unwrap_text(e.stderr), 12),
                    },
                ),
                None => None,
            }
        } else {
            None
        },
        None => None,
    }
}

pub open spec fn names_failure(fs: Seq<TestFailureV>, name: Seq<char>) -> bool {
    exists|j: int| 0 <= j < fs.len() && (#[trigger] fs[j]).name == name
}

/// The failures reported by the lines, the first report of each test name.
pub open spec fn failures_scan(ls: Seq<Seq<char>>) -> Seq<TestFailureV>
    decreases ls.len(),
{
    if ls.len() == 0 {
        Seq::empty()
    } else {
        let prev = failures_scan(ls.drop_last());
        match failure_of_line(ls.last()) {
            Some(f) => if names_failure(prev, f.name) {
                prev
            } else {
                prev.push(f)
            },
            None => prev,
        }
    }
}

/// The failed tests of nextest JSON output, each once, in the order of
/// their first report.
pub open spec fn nextest_failures_of(text: Seq<char>) -> Seq<TestFailureV> {
    failures_scan(lines_of(text))
}

pub open spec fn failures_view(v: Seq<TestFailure>) -> Seq<TestFailureV> {
    v.map_values(|f: TestFailure| f@)
}

fn output_lines(o: &Option<Vec<char>>) -> (r: Vec<String>)
    ensures
        strings_view(r@) == recent_lines_of(unwrap_text(crate::json::opt_chars_view(*o)), 12),
{
    let empty: Vec<char> = Vec::new();
    let text = match o {
        Some(t) => t.as_slice(),
        None => empty.as_slice(),
    };
    assert(empty@ =~= Seq::<char>::empty());
    let lines = recent_lines(text, 12);
    to_strings(&lines)
}

fn nextest_failures(lines: &Vec<Vec<char>>, Ghost(text): Ghost<Seq<char>>) -> (r: Vec<TestFailure>)
    requires
        lines.deep_view() == lines_of(text),
    ensures
        failures_view(r@) == nextest_failures_of(text),
{
    let ghost lv = lines.deep_view();
    let test = chars_of("test");
    let failed = chars_of("failed");
    let mut out: Vec<TestFailure> = Vec::new();
    let mut names: Vec<Vec<char>> = Vec::new();
    let mut i: usize = 0;
    while i < lines.len()
        invariant
            i <= lines.len(),
            lv == lines.deep_view(),
            test@ == "test"@,
            failed@ == "failed"@,
            names@.len() == out@.len(),
            forall|j: int| 0 <= j < names@.len() ==> #[trigger] names@[j]@ == out@[j]@.name,
            failures_view(out@) == failures_scan(lv.subrange(0, i as int)),
        decreases lines.len() - i,
    {
        assert(lv.subrange(0, i + 1).drop_last() =~= lv.subrange(0, i as int));
        assert(lv[i as int] =~= lines@[i as int]@);
        let ghost prev = out@;
        match nextest_event_of(lines[i].as_slice()) {
            Some(event) => {
                let is_failure = match (&event.kind, &event.event) {
                    (Some(k), Some(e)) => chars_equal(k.as_slice(), test.as_slice())
                        && chars_equal(e.as_slice(), failed.as_slice()),
                    _ => false,
                };
                if is_failure {
                    match &event.name {
                        Some(name) => {
                            let mut seen = false;
                            let mut j: usize = 0;
                            while j < names.len()
                                invariant
                                    j <= names.len(),
                                    names@.len() == out@.len(),
                                    forall|k: int|
                                        0 <= k < names@.len() ==> #[trigger] names@[k]@
                                            == out@[k]@.name,
                                    !seen ==> forall|k: int|
                                        0 <= k < j ==> (#[trigger] out@[k]@).name != name@,
                                    seen ==> names_failure(failures_view(out@), name@),
                                decreases names.len() - j,
                            {
                                if chars_equal(names[j].as_slice(), name.as_slice()) {
                                    seen = true;
                                    assert(failures_view(out@)[j as int].name == name@);
                                }
                                j = j + 1;
                            }
                            if !seen {
                                let f = TestFailure {
                                    name: string_from(name.as_slice()),
                                    stdout: output_lines(&event.stdout),
                                    stderr: output_lines(&event.stderr),
                                };
                                names.push(slice_copy(name.as_slice()));
                                out.push(f);
                                assert(!names_failure(failures_view(prev), name@)) by {
                                    assert forall|k: int| 0 <= k < prev.len() implies (
                                    #[trigger] failures_view(prev)[k]).name != name@ by {
                                        assert(failures_view(prev)[k] == prev[k]@);
                                    }
                                }
                                assert(failures_view(out@) =~= failures_view(prev).push(
                                    out@.last()@,
                                ));
                            }
                        },
                        None => {},
                    }
                }
            },
            None => {},
        }
        i = i + 1;
    }
    assert(lv.subrange(0, lv.len() as int) =~= lv);
    out
}

// ---------------------------------------------------------------------------
// Summaries
// ---------------------------------------------------------------------------

/// The compact summary of a check's output.
#[derive(Debug, Clone, PartialEq, Eq)]
pub struct Summary {
    pub diagnostics: Vec<Diagnostic>,
    pub test_failures: Vec<TestFailure>,
    pub text_lines: Vec<String>,
}

#[verifier::ext_equal]
pub struct SummaryV {
    pub diagnostics: Seq<DiagnosticV>,
    pub test_failures: Seq<TestFailureV>,
    pub text_lines: Seq<Seq<char>>,
}

impl View for Summary {
    type V = SummaryV;

    open spec fn view(&self) -> SummaryV {
        SummaryV {
            diagnostics: diagnostics_view(self.diagnostics@),
            test_failures: failures_view(self.test_failures@),
            text_lines: strings_view(self.text_lines@),
        }
    }
}

pub open spec fn summary_is_empty(s: SummaryV) -> bool {
    s.diagnostics.len() == 0 && s.test_failures.len() == 0 && s.text_lines.len() == 0
}

/// The summary of a check's output text, by the format it is in.
pub open spec fn summary_of_text(mode: Mode, cmd: Seq<Seq<char>>, text: Seq<char>) -> SummaryV {
    match detected_mode(mode, cmd, text) {
        Mode::Cargo => SummaryV {
            diagnostics: cargo_diagnostics_of(text),
            test_failures: Seq::empty(),
            text_lines: Seq::empty(),
        },
        Mode::Nextest => {
            let failures = nextest_failures_of(text);
            SummaryV {
                diagnostics: Seq::empty(),
                test_failures: failures,
                text_lines: if failures.len() == 0 {
                    nextest_text_lines(text)
                } else {
                    Seq::empty()
                },
            }
        },
        Mode::Rustfmt => SummaryV {
            diagnostics: Seq::empty(),
            test_failures: Seq::empty(),
            text_lines: rustfmt_lines(text),
        },
        Mode::CargoDeny => SummaryV {
            diagnostics: Seq::empty(),
            test_failures: Seq::empty(),
            text_lines: cargo_deny_lines(text),
        },
        Mode::CargoMachete => SummaryV {
            diagnostics: Seq::empty(),
            test_failures: Seq::empty(),
            text_lines: cargo_machete_lines(text),
        },
        Mode::Auto => SummaryV {
            diagnostics: Seq::empty(),
            test_failures: Seq::empty(),
            text_lines: fallback_lines(text),
        },
    }
}

/// The summary of a check's output bytes, read as UTF-8 with invalid
/// sequences replaced.
pub open spec fn summary_of(mode: Mode, cmd: Seq<Seq<char>>, bytes: Seq<u8>) -> SummaryV {
    summary_of_text(mode, cmd, crate::text::utf8_lossy(bytes))
}

impl Summary {
    pub fn is_empty(&self) -> (r: bool)
        ensures
            r == summary_is_empty(self@),
    {
        self.diagnostics.len() == 0 && self.test_failures.len() == 0 && self.text_lines.len() == 0
    }
}

/// Summarizes the output of a check in the given format.
pub fn summarize(mode: Mode, bytes: &[u8]) -> (r: Summary)
    ensures
        r@ == summary_of(mode, Seq::empty(), bytes@),
{
    let command: Vec<String> = Vec::new();
    assert(strings_view(command@) =~= Seq::<Seq<char>>::empty());
    summarize_for_command(mode, command.as_slice(), bytes)
}

/// Summarizes the output of a check run with the given command, which
/// `Auto` also looks at to recognize the format.
pub fn summarize_for_command(mode: Mode, command: &[String], bytes: &[u8]) -> (r: Summary)
    ensures
        r@ == summary_of(mode, strings_view(command@), bytes@),
{
    let decoded = crate::text::decode_utf8_lossy(bytes);
    summarize_text(mode, command, decoded.as_str())
}

/// Summarizes a check's output, already read as text.
pub fn summarize_text(mode: Mode, command: &[String], output: &str) -> (r: Summary)
    ensures
        r@ == summary_of_text(mode, strings_view(command@), output@),
{
    let text = chars_of(output);
    let ghost tv = text@;
    let lines = split_lines(text.as_slice());
    let cmd = to_char_lines(command);
    let detected = detect_mode(mode, &cmd, &lines, Ghost(tv));
    match detected {
        Mode::Cargo => {
            let r = Summary {
                diagnostics: cargo_diagnostics(&lines, Ghost(tv)),
                test_failures: Vec::new(),
                text_lines: Vec::new(),
            };
            assert(r@ =~= summary_of_text(mode, strings_view(command@), output@));
            r
        },
        Mode::Nextest => {
            let test_failures = nextest_failures(&lines, Ghost(tv));
            let text_lines = if test_failures.len() == 0 {
                to_strings(&nextest_text_summary(text.as_slice()))
            } else {
                Vec::new()
            };
            let r = Summary { diagnostics: Vec::new(), test_failures, text_lines };
            assert(r@ =~= summary_of_text(mode, strings_view(command@), output@));
            r
        },
        Mode::Rustfmt => {
            let r = Summary {
                diagnostics: Vec::new(),
                test_failures: Vec::new(),
                text_lines: to_strings(&rustfmt_summary(text.as_slice())),
            };
            assert(r@ =~= summary_of_text(mode, strings_view(command@), output@));
            r
        },
        Mode::CargoDeny => {
            let r = Summary {
                diagnostics: Vec::new(),
                test_failures: Vec::new(),
                text_lines: to_strings(&cargo_deny_summary(text.as_slice())),
            };
            assert(r@ =~= summary_of_text(mode, strings_view(command@), output@));
            r
        },
        Mode::CargoMachete => {
            let r = Summary {
                diagnostics: Vec::new(),
                test_failures: Vec::new(),
                text_lines: to_strings(&cargo_machete_summary(text.as_slice())),
            };
            assert(r@ =~= summary_of_text(mode, strings_view(command@), output@));
            r
        },
        Mode::Auto => {
            let r = Summary {
                diagnostics: Vec::new(),
                test_failures: Vec::new(),
                text_lines: to_strings(&fallback_summary(text.as_slice())),
            };
            assert(r@ =~= summary_of_text(mode, strings_view(command@), output@));
            r
        },
    }
}

// ---------------------------------------------------------------------------
// Rendering
// ---------------------------------------------------------------------------

/// The head of a diagnostic: its location and code, or whichever of them
/// it has, or `diagnostic`.
pub open spec fn diagnostic_head(d: DiagnosticV) -> Seq<char> {
    match d.location {
        Some(l) => match d.code {
            Some(c) => l + " "@ + c,
            None => l,
        },
        None => match d.code {
            Some(c) => c,
            None => "diagnostic"@,
        },
    }
}

/// Each line indented by two spaces, on a line of its own.
pub open spec fn indented(ls: Seq<Seq<char>>) -> Seq<char> {
    join_all(ls.map_values(|l: Seq<char>| "  "@ + l + "\n"@))
}

pub open spec fn render_diagnostic(d: DiagnosticV) -> Seq<char> {
    d.severity + ": "@ + diagnostic_head(d) + "\n"@ + "  "@ + d.message + "\n"@ + indented(
        d.details,
    ) + "\n"@
}

pub open spec fn render_failure(f: TestFailureV) -> Seq<char> {
    "failed: "@ + f.name + "\n"@ + (if f.stdout.len() > 0 {
        "  STDOUT\n"@ + indented(f.stdout)
    } else {
        Seq::empty()
    }) + (if f.stderr.len() > 0 {
        "  STDERR\n"@ + indented(f.stderr)
    } else {
        Seq::empty()
    }) + "\n"@
}

/// The report of a summary: where the full log is, each diagnostic, each
/// failed test, then the text lines.
pub open spec fn rendered(s: SummaryV, log_path: Seq<char>) -> Seq<char> {
    "full log: "@ + log_path + "\n\n"@ + join_all(
        s.diagnostics.map_values(|d: DiagnosticV| render_diagnostic(d)),
    ) + join_all(s.test_failures.map_values(|f: TestFailureV| render_failure(f))) + join_all(
        s.text_lines.map_values(|l: Seq<char>| l + "\n"@),
    )
}

fn push_str(out: &mut Vec<char>, s: &str)
    ensures
        final(out)@ == old(out)@ + s@,
{
    let c = chars_of(s);
    push_all(out, c.as_slice());
}

fn push_string(out: &mut Vec<char>, s: &String)
    ensures
        final(out)@ == old(out)@ + s@,
{
    let c = chars_of(s.as_str());
    push_all(out, c.as_slice());
}

fn push_indented(out: &mut Vec<char>, lines: &Vec<String>)
    ensures
        final(out)@ == old(out)@ + indented(strings_view(lines@)),
{
    let ghost start = out@;
    let ghost ls = strings_view(lines@).map_values(|l: Seq<char>| "  "@ + l + "\n"@);
    let mut i: usize = 0;
    while i < lines.len()
        invariant
            i <= lines.len(),
            ls == strings_view(lines@).map_values(|l: Seq<char>| "  "@ + l + "\n"@),
            out@ == start + join_all(ls.subrange(0, i as int)),
        decreases lines.len() - i,
    {
        push_str(out, "  ");
        push_string(out, &lines[i]);
        push_str(out, "\n");
        assert(ls.subrange(0, i + 1).drop_last() =~= ls.subrange(0, i as int));
        i = i + 1;
        assert(out@ =~= start + join_all(ls.subrange(0, i as int)));
    }
    assert(ls.subrange(0, lines.len() as int) =~= ls);
}

fn push_diagnostic(out: &mut Vec<char>, d: &Diagnostic)
    ensures
        final(out)@ == old(out)@ + render_diagnostic(d@),
{
    let ghost start = out@;
    push_string(out, &d.severity);
    push_str(out, ": ");
    let ghost before_head = out@;
    match &d.location {
        Some(location) => {
            push_string(out, location);
            match &d.code {
                Some(code) => {
                    push_str(out, " ");
                    push_string(out, code);
                },
                None => {},
            }
        },
        None => match &d.code {
            Some(code) => push_string(out, code),
            None => push_str(out, "diagnostic"),
        },
    }
    assert(out@ =~= before_head + diagnostic_head(d@));
    push_str(out, "\n");
    push_str(out, "  ");
    push_string(out, &d.message);
    push_str(out, "\n");
    push_indented(out, &d.details);
    push_str(out, "\n");
    assert(out@ =~= start + render_diagnostic(d@));
}

fn push_failure(out: &mut Vec<char>, f: &TestFailure)
    ensures
        final(out)@ == old(out)@ + render_failure(f@),
{
    let ghost start = out@;
    push_str(out, "failed: ");
    push_string(out, &f.name);
    push_str(out, "\n");
    let ghost a = out@;
    if f.stdout.len() > 0 {
        push_str(out, "  STDOUT\n");
        push_indented(out, &f.stdout);
    }
    assert(out@ =~= a + (if f@.stdout.len() > 0 {
        "  STDOUT\n"@ + indented(f@.stdout)
    } else {
        Seq::empty()
    }));
    let ghost b = out@;
    if f.stderr.len() > 0 {
        push_str(out, "  STDERR\n");
        push_indented(out, &f.stderr);
    }
    assert(out@ =~= b + (if f@.stderr.len() > 0 {
        "  STDERR\n"@ + indented(f@.stderr)
    } else {
        Seq::empty()
    }));
    push_str(out, "\n");
    assert(out@ =~= start + render_failure(f@));
}

impl Summary {
    /// The report of this summary, pointing at the full log.
    pub fn render(&self, log_path: &str) -> (r: String)
        ensures
            r@ == rendered(self@, log_path@),
    {
        let mut out: Vec<char> = Vec::new();
        push_str(&mut out, "full log: ");
        push_str(&mut out, log_path);
        push_str(&mut out, "\n\n");
        let ghost head = out@;
        let ghost ds = self@.diagnostics.map_values(|d: DiagnosticV| render_diagnostic(d));
        let mut i: usize = 0;
        while i < self.diagnostics.len()
            invariant
                i <= self.diagnostics.len(),
                ds == self@.diagnostics.map_values(|d: DiagnosticV| render_diagnostic(d)),
                out@ == head + join_all(ds.subrange(0, i as int)),
            decreases self.diagnostics.len() - i,
        {
            push_diagnostic(&mut out, &self.diagnostics[i]);
            assert(ds.subrange(0, i + 1).drop_last() =~= ds.subrange(0, i as int));
            i = i + 1;
            assert(out@ =~= head + join_all(ds.subrange(0, i as int)));
        }
        assert(ds.subrange(0, ds.len() as int) =~= ds);
        let ghost head2 = out@;
        let ghost fs = self@.test_failures.map_values(|f: TestFailureV| render_failure(f));
        let mut i: usize = 0;
        while i < self.test_failures.len()
            invariant
                i <= self.test_failures.len(),
                fs == self@.test_failures.map_values(|f: TestFailureV| render_failure(f)),
                out@ == head2 + join_all(fs.subrange(0, i as int)),
            decreases self.test_failures.len() - i,
        {
            push_failure(&mut out, &self.test_failures[i]);
            assert(fs.subrange(0, i + 1).drop_last() =~= fs.subrange(0, i as int));
            i = i + 1;
            assert(out@ =~= head2 + join_all(fs.subrange(0, i as int)));
        }
        assert(fs.subrange(0, fs.len() as int) =~= fs);
        let ghost head3 = out@;
        let ghost ts = self@.text_lines.map_values(|l: Seq<char>| l + "\n"@);
        let mut i: usize = 0;
        while i < self.text_lines.len()
            invariant
                i <= self.text_lines.len(),
                ts == self@.text_lines.map_values(|l: Seq<char>| l + "\n"@),
                out@ == head3 + join_all(ts.subrange(0, i as int)),
            decreases self.text_lines.len() - i,
        {
            push_string(&mut out, &self.text_lines[i]);
            push_str(&mut out, "\n");
            assert(ts.subrange(0, i + 1).drop_last() =~= ts.subrange(0, i as int));
            i = i + 1;
            assert(out@ =~= head3 + join_all(ts.subrange(0, i as int)));
        }
        assert(ts.subrange(0, ts.len() as int) =~= ts);
        string_from(out.as_slice())
    }
}

// ---------------------------------------------------------------------------
// Laws
// ---------------------------------------------------------------------------

/// A summary comes from one parser only: at most one of its diagnostics,
/// failed tests and text lines is non-empty.
pub proof fn law_one_parser(mode: Mode, cmd: Seq<Seq<char>>, bytes: Seq<u8>)
    ensures
        ({
            let s = summary_of(mode, cmd, bytes);
            &&& s.diagnostics.len() > 0 ==> s.test_failures.len() == 0 && s.text_lines.len() == 0
            &&& s.test_failures.len() > 0 ==> s.diagnostics.len() == 0 && s.text_lines.len() == 0
            &&& s.text_lines.len() > 0 ==> s.diagnostics.len() == 0 && s.test_failures.len() == 0
        }),
{
}

/// Where a format is named, the command is not looked at: the summary is
/// the same whatever the command.
pub proof fn law_named_mode_ignores_command(
    mode: Mode,
    cmd1: Seq<Seq<char>>,
    cmd2: Seq<Seq<char>>,
    bytes: Seq<u8>,
)
    requires
        mode != Mode::Auto,
    ensures
        summary_of(mode, cmd1, bytes) == summary_of(mode, cmd2, bytes),
{
}

/// A named format is the format used.
pub proof fn law_named_mode_is_used(mode: Mode, cmd: Seq<Seq<char>>, text: Seq<char>)
    requires
        mode != Mode::Auto,
    ensures
        detected_mode(mode, cmd, text) == mode,
{
}

proof fn lemma_failures_scan_distinct(ls: Seq<Seq<char>>)
    ensures
        forall|i: int, j: int|
            0 <= i < j < failures_scan(ls).len() ==> (#[trigger] failures_scan(ls)[i]).name
                != (#[trigger] failures_scan(ls)[j]).name,
    decreases ls.len(),
{
    if ls.len() > 0 {
        lemma_failures_scan_distinct(ls.drop_last());
        let prev = failures_scan(ls.drop_last());
        match failure_of_line(ls.last()) {
            Some(f) => if !names_failure(prev, f.name) {
                let cur = prev.push(f);
                assert forall|i: int, j: int| 0 <= i < j < cur.len() implies (#[trigger] cur[i]).name
                    != (#[trigger] cur[j]).name by {
                    if j == cur.len() - 1 {
                        assert(cur[i] == prev[i]);
                        if cur[i].name == f.name {
                            assert(names_failure(prev, f.name));
                        }
                    }
                }
            },
            None => {},
        }
    }
}

/// Each failed test is reported once: no two failures of a summary have
/// the same name.
pub proof fn law_failures_named_once(mode: Mode, cmd: Seq<Seq<char>>, bytes: Seq<u8>)
    ensures
        ({
            let fs = summary_of(mode, cmd, bytes).test_failures;
            forall|i: int, j: int| 0 <= i < j < fs.len() ==> (#[trigger] fs[i]).name != (#[trigger] fs[j]).name
        }),
{
    lemma_failures_scan_distinct(lines_of(crate::text::utf8_lossy(bytes)));
}

proof fn lemma_tail_len<T>(s: Seq<T>, limit: nat)
    requires
        limit > 0,
    ensures
        tail_seq(s, limit).len() <= limit,
{
}

proof fn lemma_recent_lines_bounded(text: Seq<char>, limit: nat)
    requires
        limit > 0,
    ensures
        recent_lines_of(text, limit).len() <= limit,
{
}

proof fn lemma_failures_scan_bounded(ls: Seq<Seq<char>>)
    ensures
        forall|i: int|
            0 <= i < failures_scan(ls).len() ==> (#[trigger] failures_scan(ls)[i]).stdout.len() <= 12
                && failures_scan(ls)[i].stderr.len() <= 12,
    decreases ls.len(),
{
    if ls.len() > 0 {
        let prev = failures_scan(ls.drop_last());
        lemma_failures_scan_bounded(ls.drop_last());
        match failure_of_line(ls.last()) {
            Some(f) => {
                let e = decode_nextest_event(ls.last()).unwrap();
                lemma_recent_lines_bounded(unwrap_text(e.stdout), 12);
                lemma_recent_lines_bounded(unwrap_text(e.stderr), 12);
                assert(f.stdout.len() <= 12 && f.stderr.len() <= 12);
                if !names_failure(prev, f.name) {
                    let cur = prev.push(f);
                    assert forall|i: int| 0 <= i < cur.len() implies (#[trigger] cur[i]).stdout.len()
                        <= 12 && cur[i].stderr.len() <= 12 by {
                        if i < prev.len() {
                            assert(cur[i] == prev[i]);
                        }
                    }
                }
            },
            None => {},
        }
    }
}

proof fn lemma_diagnostics_bounded(ls: Seq<Seq<char>>)
    ensures
        forall|i: int|
            0 <= i < ls.filter_map(diagnostic_of_line_fn()).len() ==> (#[trigger] ls.filter_map(
                diagnostic_of_line_fn(),
            )[i]).details.len() <= 12,
    decreases ls.len(),
{
    if ls.len() > 0 {
        lemma_diagnostics_bounded(ls.drop_last());
        match decode_cargo_event(ls.last()) {
            Some(e) => match e.message {
                Some(m) => {
                    let base = span_details(m.spans, 4) + join_all(
                        first_n(m.children, 6).map_values(|c: ChildV| child_details(c)),
                    );
                    lemma_tail_len(base, 12);
                    match m.rendered {
                        Some(r) => lemma_tail_len(message_details(m) + rendered_details(r), 12),
                        None => {},
                    }
                },
                None => {},
            },
            None => {},
        }
    }
}

/// A summary is compact: at most 120 text lines, at most 12 details per
/// diagnostic, and at most 12 lines of each output of a failed test.
pub proof fn law_summary_is_compact(mode: Mode, cmd: Seq<Seq<char>>, bytes: Seq<u8>)
    ensures
        ({
            let s = summary_of(mode, cmd, bytes);
            &&& s.text_lines.len() <= 120
            &&& forall|i: int| 0 <= i < s.diagnostics.len() ==> (#[trigger] s.diagnostics[i]).details.len() <= 12
            &&& forall|i: int|
                0 <= i < s.test_failures.len() ==> (#[trigger] s.test_failures[i]).stdout.len() <= 12
                    && s.test_failures[i].stderr.len() <= 12
        }),
{
    let text = crate::text::utf8_lossy(bytes);
    let ls = lines_of(text);
    lemma_failures_scan_bounded(ls);
    lemma_diagnostics_bounded(ls);
    assert(ls.filter_map(diagnostic_of_line_fn()) == cargo_diagnostics_of(text));
    lemma_tail_len(rustfmt_scan(ls).0, 80);
    lemma_tail_len(nextest_scan(ls).0, 120);
    lemma_tail_len(ls.filter(|l: Seq<char>| starts_with_any(l, deny_prefixes())), 80);
    lemma_tail_len(ls.filter(|l: Seq<char>| starts_with_any(l, machete_prefixes())), 80);
    lemma_tail_len(ls.filter(|l: Seq<char>| starts_with_any(l, fallback_prefixes())), 80);
}


// ---------------------------------------------------------------------------
// Laws of the readers and of the report
// ---------------------------------------------------------------------------

/// The line is a Cargo compiler message that reports the diagnostic: same
/// level, text and code, located at the message's first primary span, or at
/// its first span where no span is primary, or nowhere where it has none.
pub open spec fn reports_diagnostic(l: Seq<char>, d: DiagnosticV) -> bool {
    match decode_cargo_event(l) {
        Some(e) => e.reason == Some("compiler-message"@) && match e.message {
            Some(m) => {
                &&& d.severity == m.level
                &&& d.message == m.message
                &&& d.code == m.code
                &&& forall|i: int|
                    #![trigger m.spans[i]]
                    0 <= i < m.spans.len() && m.spans[i].is_primary && (forall|j: int|
                        0 <= j < i ==> !(#[trigger] m.spans[j]).is_primary) ==> d.location == Some(
                        span_location(m.spans[i]),
                    )
                &&& (forall|i: int| 0 <= i < m.spans.len() ==> !(#[trigger] m.spans[i]).is_primary)
                    ==> d.location == (if m.spans.len() > 0 {
                    Some(span_location(m.spans[0]))
                } else {
                    None
                })
            },
            None => false,
        },
        None => false,
    }
}

proof fn lemma_first_primary(spans: Seq<SpanV>)
    ensures
        forall|i: int|
            #![trigger spans[i]]
            0 <= i < spans.len() && spans[i].is_primary && (forall|j: int|
                0 <= j < i ==> !(#[trigger] spans[j]).is_primary) ==> first_primary(spans) == Some(
                spans[i],
            ),
        (forall|i: int| 0 <= i < spans.len() ==> !(#[trigger] spans[i]).is_primary) ==> first_primary(
            spans,
        ) is None,
    decreases spans.len(),
{
    if spans.len() > 0 {
        let rest = spans.drop_first();
        lemma_first_primary(rest);
        assert forall|i: int|
            #![trigger spans[i]]
            0 <= i < spans.len() && spans[i].is_primary && (forall|j: int|
                0 <= j < i ==> !(#[trigger] spans[j]).is_primary) implies first_primary(spans) == Some(
            spans[i],
        ) by {
            if i > 0 {
                assert(!spans[0].is_primary);
                assert(rest[i - 1] == spans[i]);
                assert forall|j: int| 0 <= j < i - 1 implies !(#[trigger] rest[j]).is_primary by {
                    assert(rest[j] == spans[j + 1]);
                }
            }
        }
        if forall|i: int| 0 <= i < spans.len() ==> !(#[trigger] spans[i]).is_primary {
            assert(!spans[0].is_primary);
            assert forall|i: int| 0 <= i < rest.len() implies !(#[trigger] rest[i]).is_primary by {
                assert(rest[i] == spans[i + 1]);
            }
        }
    }
}

proof fn lemma_diagnostic_of_line_reports(l: Seq<char>)
    ensures
        diagnostic_of_line(l) matches Some(d) ==> reports_diagnostic(l, d),
{
    if let Some(d) = diagnostic_of_line(l) {
        let m = decode_cargo_event(l)->0.message->0;
        lemma_first_primary(m.spans);
    }
}

/// Each diagnostic of a summary is reported by a line of the output: a
/// compiler message with the diagnostic's level, text and code, located at
/// its first primary span (its first span only where no span is primary).
pub proof fn law_diagnostics_come_from_compiler_messages(mode: Mode, cmd: Seq<Seq<char>>, text: Seq<char>)
    ensures
        ({
            let ds = summary_of_text(mode, cmd, text).diagnostics;
            forall|k: int|
                #![trigger ds[k]]
                0 <= k < ds.len() ==> exists|j: int|
                    0 <= j < lines_of(text).len() && reports_diagnostic(
                        #[trigger] lines_of(text)[j],
                        ds[k],
                    )
        }),
{
    let ds = summary_of_text(mode, cmd, text).diagnostics;
    let ls = lines_of(text);
    if detected_mode(mode, cmd, text) == Mode::Cargo {
        assert forall|k: int| #![trigger ds[k]] 0 <= k < ds.len() implies exists|j: int|
            0 <= j < ls.len() && reports_diagnostic(#[trigger] ls[j], ds[k]) by {
            let f = |l: Seq<char>| diagnostic_of_line(l);
            assert(ds == ls.filter_map(f));
            assert(ds.contains(ds[k]));
            ls.lemma_filter_map_contains(f, ds[k]);
            let t = choose|t: Seq<char>| #[trigger] ls.contains(t) && f(t) == Some(ds[k]);
            let j = choose|j: int| 0 <= j < ls.len() && ls[j] == t;
            lemma_diagnostic_of_line_reports(t);
            assert(reports_diagnostic(ls[j], ds[k]));
        }
    }
}

/// The line is a nextest JSON event of the named test failing.
pub open spec fn reports_failure(l: Seq<char>, name: Seq<char>) -> bool {
    decode_nextest_event(l) matches Some(e) && e.kind == Some("test"@) && e.event == Some("failed"@)
        && e.name == Some(name)
}

proof fn lemma_failures_scan_reported(ls: Seq<Seq<char>>)
    ensures
        forall|k: int|
            #![trigger failures_scan(ls)[k]]
            0 <= k < failures_scan(ls).len() ==> exists|j: int|
                0 <= j < ls.len() && reports_failure(#[trigger] ls[j], failures_scan(ls)[k].name),
    decreases ls.len(),
{
    if ls.len() > 0 {
        let pre = ls.drop_last();
        lemma_failures_scan_reported(pre);
        let prev = failures_scan(pre);
        let cur = failures_scan(ls);
        assert forall|k: int| #![trigger cur[k]] 0 <= k < cur.len() implies exists|j: int|
            0 <= j < ls.len() && reports_failure(#[trigger] ls[j], cur[k].name) by {
            if k < prev.len() {
                assert(cur[k] == prev[k]);
                let j = choose|j: int| 0 <= j < pre.len() && reports_failure(#[trigger] pre[j], prev[k].name);
                assert(ls[j] == pre[j]);
            } else {
                let last = ls.len() - 1;
                assert(ls[last] == ls.last());
                assert(reports_failure(ls[last], cur[k].name));
            }
        }
    }
}

/// Each failed test of a summary is reported failed by a nextest JSON event
/// of the output: a test whose events all say it started or passed is no
/// failure.
pub proof fn law_failures_come_from_failed_events(mode: Mode, cmd: Seq<Seq<char>>, text: Seq<char>)
    ensures
        ({
            let fs = summary_of_text(mode, cmd, text).test_failures;
            forall|k: int|
                #![trigger fs[k]]
                0 <= k < fs.len() ==> exists|j: int|
                    0 <= j < lines_of(text).len() && reports_failure(#[trigger] lines_of(text)[j], fs[k].name)
        }),
{
    lemma_failures_scan_reported(lines_of(text));
}

/// A line that shows nextest's human output: the status line of a failed,
/// leaked or timed-out test, or its final summary line.
pub open spec fn shows_nextest_text(l: Seq<char>) -> bool {
    let t = trim_start(l);
    ||| starts_with(t, "FAIL "@)
    ||| starts_with(t, "TRY "@) && contains(t, " FAIL "@)
    ||| starts_with(t, "LEAK-FAIL "@)
    ||| starts_with(t, "TIMEOUT "@)
    ||| starts_with(l, "Summary "@) && contains(l, " test run"@)
}

/// Output without a Cargo compiler message that shows nextest's human
/// output is summarized as nextest output when the format is left to be
/// recognized.
pub proof fn law_nextest_text_is_recognized(cmd: Seq<Seq<char>>, text: Seq<char>)
    requires
        forall|i: int|
            0 <= i < lines_of(text).len() ==> !(decode_cargo_event(#[trigger] lines_of(text)[i]) matches Some(
                e,
            ) && e.reason == Some("compiler-message"@)),
        exists|i: int| 0 <= i < lines_of(text).len() && shows_nextest_text(#[trigger] lines_of(text)[i]),
    ensures
        summary_of_text(Mode::Auto, cmd, text) == summary_of_text(Mode::Nextest, cmd, text),
{
    let ls = lines_of(text);
    let i = choose|i: int| 0 <= i < ls.len() && shows_nextest_text(#[trigger] ls[i]);
    assert(line_passes(LineTest::NextestText, ls[i]));
    assert(some_line(LineTest::NextestText, text));
    assert(!some_line(LineTest::CargoMessage, text)) by {
        if some_line(LineTest::CargoMessage, text) {
            let k = choose|k: int| 0 <= k < ls.len() && line_passes(LineTest::CargoMessage, #[trigger] ls[k]);
            assert(is_cargo_message_line(ls[k]));
        }
    }
    assert(detected_mode(Mode::Auto, cmd, text) == Mode::Nextest);
}

/// A report starts with where the full log is and ends with the summary's
/// text lines, each on a line of its own; a summary of text lines alone is
/// reported as exactly those lines.
pub proof fn law_report_keeps_text_lines(s: SummaryV, log_path: Seq<char>)
    ensures
        ({
            let r = rendered(s, log_path);
            let head = "full log: "@ + log_path + "\n\n"@;
            let tail = join_all(s.text_lines.map_values(|l: Seq<char>| l + "\n"@));
            &&& head.len() + tail.len() <= r.len()
            &&& r.subrange(0, head.len() as int) == head
            &&& r.subrange(r.len() - tail.len(), r.len() as int) == tail
            &&& s.diagnostics.len() == 0 && s.test_failures.len() == 0 ==> r == head + tail
        }),
{
    let head = "full log: "@ + log_path + "\n\n"@;
    let tail = join_all(s.text_lines.map_values(|l: Seq<char>| l + "\n"@));
    let d = join_all(s.diagnostics.map_values(|d: DiagnosticV| render_diagnostic(d)));
    let f = join_all(s.test_failures.map_values(|f: TestFailureV| render_failure(f)));
    let r = rendered(s, log_path);
    assert(r == head + d + f + tail);
    assert(r.subrange(0, head.len() as int) =~= head);
    assert(r.subrange(r.len() - tail.len(), r.len() as int) =~= tail);
    if s.diagnostics.len() == 0 && s.test_failures.len() == 0 {
        assert(s.diagnostics.map_values(|d: DiagnosticV| render_diagnostic(d)) =~= Seq::<Seq<char>>::empty());
        assert(s.test_failures.map_values(|f: TestFailureV| render_failure(f)) =~= Seq::<Seq<char>>::empty());
        assert(r =~= head + tail);
    }
}


/// The line is a compiler message at level error or warning.
pub open spec fn is_reported_message(l: Seq<char>) -> bool {
    decode_cargo_event(l) matches Some(e) && e.reason == Some("compiler-message"@) && (e.message matches Some(
        m,
    ) && (m.level == "error"@ || m.level == "warning"@))
}

proof fn lemma_filter_map_keeps(ls: Seq<Seq<char>>, f: spec_fn(Seq<char>) -> Option<DiagnosticV>)
    ensures
        forall|j: int| 0 <= j < ls.len() && (#[trigger] f(ls[j])) is Some ==> ls.filter_map(f).contains(
            f(ls[j])->0,
        ),
    decreases ls.len(),
{
    if ls.len() > 0 {
        let pre = ls.drop_last();
        lemma_filter_map_keeps(pre, f);
        assert forall|j: int| 0 <= j < ls.len() && (#[trigger] f(ls[j])) is Some implies ls.filter_map(
            f,
        ).contains(f(ls[j])->0) by {
            let out = ls.filter_map(f);
            if j < ls.len() - 1 {
                assert(pre[j] == ls[j]);
                let k = choose|k: int| 0 <= k < pre.filter_map(f).len() && pre.filter_map(f)[k] == f(
                    pre[j],
                )->0;
                match f(ls.last()) {
                    Some(x) => assert(out[k] == pre.filter_map(f)[k]),
                    None => {},
                }
            } else {
                assert(ls[j] == ls.last());
                assert(out[out.len() - 1] == f(ls[j])->0);
            }
        }
    }
}

/// Each compiler message at level error or warning gives a diagnostic of a
/// Cargo summary, as it reports it.
pub proof fn law_compiler_messages_become_diagnostics(cmd: Seq<Seq<char>>, text: Seq<char>)
    ensures
        ({
            let ds = summary_of_text(Mode::Cargo, cmd, text).diagnostics;
            forall|j: int|
                #![trigger lines_of(text)[j]]
                0 <= j < lines_of(text).len() && is_reported_message(lines_of(text)[j]) ==> exists|k: int|
                    0 <= k < ds.len() && reports_diagnostic(lines_of(text)[j], #[trigger] ds[k])
        }),
{
    let ls = lines_of(text);
    let ds = summary_of_text(Mode::Cargo, cmd, text).diagnostics;
    let f = |l: Seq<char>| diagnostic_of_line(l);
    lemma_filter_map_keeps(ls, f);
    assert(ds == ls.filter_map(f));
    assert forall|j: int|
        #![trigger ls[j]]
        0 <= j < ls.len() && is_reported_message(ls[j]) implies exists|k: int|
        0 <= k < ds.len() && reports_diagnostic(ls[j], #[trigger] ds[k]) by {
        assert(f(ls[j]) is Some);
        let d = f(ls[j])->0;
        assert(ds.contains(d));
        let k = choose|k: int| 0 <= k < ds.len() && ds[k] == d;
        lemma_diagnostic_of_line_reports(ls[j]);
        assert(reports_diagnostic(ls[j], ds[k]));
    }
}

proof fn lemma_failures_scan_complete(ls: Seq<Seq<char>>)
    ensures
        forall|j: int|
            #![trigger ls[j]]
            0 <= j < ls.len() && failure_of_line(ls[j]) is Some ==> names_failure(
                failures_scan(ls),
                failure_of_line(ls[j])->0.name,
            ),
    decreases ls.len(),
{
    if ls.len() > 0 {
        let pre = ls.drop_last();
        lemma_failures_scan_complete(pre);
        let prev = failures_scan(pre);
        let cur = failures_scan(ls);
        assert forall|j: int|
            #![trigger ls[j]]
            0 <= j < ls.len() && failure_of_line(ls[j]) is Some implies names_failure(
            cur,
            failure_of_line(ls[j])->0.name,
        ) by {
            let n = failure_of_line(ls[j])->0.name;
            if j < ls.len() - 1 {
                assert(pre[j] == ls[j]);
                assert(names_failure(prev, n));
                let k = choose|k: int| 0 <= k < prev.len() && (#[trigger] prev[k]).name == n;
                assert(cur[k] == prev[k]);
            } else {
                assert(ls[j] == ls.last());
                if !names_failure(prev, n) {
                    assert(cur[cur.len() - 1].name == n);
                }
            }
        }
    }
}

/// Each test that a nextest JSON event reports failed is among the
/// failures of a nextest summary.
pub proof fn law_failed_events_become_failures(cmd: Seq<Seq<char>>, text: Seq<char>)
    ensures
        ({
            let fs = summary_of_text(Mode::Nextest, cmd, text).test_failures;
            forall|j: int, n: Seq<char>|
                #![trigger reports_failure(lines_of(text)[j], n)]
                0 <= j < lines_of(text).len() && reports_failure(lines_of(text)[j], n) ==> exists|k: int|
                    0 <= k < fs.len() && (#[trigger] fs[k]).name == n
        }),
{
    let ls = lines_of(text);
    lemma_failures_scan_complete(ls);
    assert(detected_mode(Mode::Nextest, cmd, text) == Mode::Nextest);
    assert(summary_of_text(Mode::Nextest, cmd, text).test_failures == failures_scan(ls));
    assert forall|j: int, n: Seq<char>|
        #![trigger reports_failure(ls[j], n)]
        0 <= j < ls.len() && reports_failure(ls[j], n) implies exists|k: int|
        0 <= k < failures_scan(ls).len() && (#[trigger] failures_scan(ls)[k]).name == n by {
        assert(failure_of_line(ls[j]) is Some);
        assert(failure_of_line(ls[j])->0.name == n);
        assert(names_failure(failures_scan(ls), n));
    }
}

} // verus!
