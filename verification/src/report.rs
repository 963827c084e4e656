//! Running one check: its log file, the report of a failure within the
//! configured limits, and the recent output shown where nothing compact
//! was found.

use vstd::prelude::*;

use crate::summary::{
    diagnostics_view, failures_view, first, first_n, join_all, recent_lines, recent_lines_of,
    rendered, strings_view, summarize_for_command, summary_is_empty, summary_of, tail_seq, Diagnostic,
    DiagnosticV, Mode, Summary, SummaryV, TestFailure, TestFailureV,
};
use crate::text::{chars_of, decode_utf8_lossy, is_ascii_alnum, is_ascii_alphanumeric, push_all, string_from, utf8_lossy};

verus! {

// ---------------------------------------------------------------------------
// Options and results
// ---------------------------------------------------------------------------

/// How much of a summary a report shows.
#[derive(Debug, Clone, Copy, PartialEq, Eq)]
pub struct SummaryLimits {
    /// Diagnostics shown, the first of them.
    pub max_diagnostics: usize,
    /// Failed tests shown, the first of them.
    pub max_failures: usize,
    /// Lines shown per diagnostic (its first details) and per failed test
    /// (the last lines of each of its outputs).
    pub max_lines: usize,
    /// Characters shown of each line.
    pub max_line_chars: usize,
    /// Recent lines shown where the output has no compact summary.
    pub max_fallback_lines: usize,
}

impl Default for SummaryLimits {
    fn default() -> (r: SummaryLimits)
        ensures
            r.max_diagnostics == 20,
            r.max_failures == 20,
            r.max_lines == 12,
            r.max_line_chars == 240,
            r.max_fallback_lines == 80,
    {
        SummaryLimits {
            max_diagnostics: 20,
            max_failures: 20,
            max_lines: 12,
            max_line_chars: 240,
            max_fallback_lines: 80,
        }
    }
}

/// A check to run: its label (which names its log), output format, log
/// directory, report limits and command.
#[derive(Debug, Clone)]
pub struct RunOptions {
    pub label: String,
    pub mode: Mode,
    pub log_dir: String,
    pub limits: SummaryLimits,
    pub command: Vec<String>,
}

/// What running a check gave: its exit code, where its log is, and its
/// standard output followed by its standard error.
#[derive(Debug, Clone)]
pub struct RunResult {
    pub exit_code: i32,
    pub log_path: String,
    pub output: Vec<u8>,
}

// ---------------------------------------------------------------------------
// Log files
// ---------------------------------------------------------------------------

pub open spec fn is_label_char(c: char) -> bool {
    is_ascii_alnum(c) || c == '_' || c == '.' || c == '-'
}

/// A label made of ASCII letters, digits, `_`, `.` and `-` only.
pub open spec fn valid_label(label: Seq<char>) -> bool {
    forall|i: int| 0 <= i < label.len() ==> is_label_char(#[trigger] label[i])
}

/// The log file name of a check, `label.log`; `None` for a label with a
/// character outside ASCII letters, digits, `_`, `.` and `-`, which could
/// collide with another label's log.
pub fn log_file_name(label: &str) -> (r: Option<String>)
    ensures
        r is Some <==> valid_label(label@),
        r matches Some(name) ==> name@ == label@ + ".log"@,
{
    let chars = chars_of(label);
    let mut i: usize = 0;
    while i < chars.len()
        invariant
            i <= chars.len(),
            chars@ == label@,
            forall|j: int| 0 <= j < i ==> is_label_char(#[trigger] chars@[j]),
        decreases chars.len() - i,
    {
        let c = chars[i];
        if !(is_ascii_alphanumeric(c) || c == '_' || c == '.' || c == '-') {
            return None;
        }
        i = i + 1;
    }
    let mut name = chars;
    push_all(&mut name, chars_of(".log").as_slice());
    Some(string_from(name.as_slice()))
}

/// Distinct labels keep their logs apart: two labels with the same log file
/// name are the same label.
pub proof fn law_log_names_distinct(a: Seq<char>, b: Seq<char>)
    ensures
        a + ".log"@ == b + ".log"@ ==> a == b,
{
    if a + ".log"@ == b + ".log"@ {
        reveal_strlit(".log");
        let x = ".log"@;
        assert((a + x).len() == a.len() + x.len());
        assert((b + x).len() == b.len() + x.len());
        assert(a.len() == b.len());
        assert(a =~= (a + ".log"@).subrange(0, a.len() as int));
        assert(b =~= (b + ".log"@).subrange(0, b.len() as int));
    }
}

/// The pieces of `b` between `sep` bytes, as `split` gives them: always at
/// least one piece.
pub open spec fn byte_pieces(b: Seq<u8>, sep: u8) -> Seq<Seq<u8>>
    decreases b.len(),
{
    if b.len() == 0 {
        seq![Seq::<u8>::empty()]
    } else {
        let prev = byte_pieces(b.drop_last(), sep);
        if b.last() == sep {
            prev.push(Seq::<u8>::empty())
        } else {
            prev.update(prev.len() - 1, prev.last().push(b.last()))
        }
    }
}

pub proof fn lemma_byte_pieces_nonempty(b: Seq<u8>, sep: u8)
    ensures
        byte_pieces(b, sep).len() >= 1,
    decreases b.len(),
{
    if b.len() > 0 {
        lemma_byte_pieces_nonempty(b.drop_last(), sep);
    }
}

/// The lines of a byte stream: the pieces between newlines, without an
/// empty piece after a final newline.
pub open spec fn byte_lines(b: Seq<u8>) -> Seq<Seq<u8>> {
    let p = byte_pieces(b, 10);
    if p.last().len() == 0 {
        p.drop_last()
    } else {
        p
    }
}

/// The pieces of `b` between `sep` bytes.
pub fn split_bytes(b: &[u8], sep: u8) -> (r: Vec<Vec<u8>>)
    ensures
        r@.len() == byte_pieces(b@, sep).len(),
        forall|j: int| 0 <= j < r@.len() ==> #[trigger] r@[j]@ == byte_pieces(b@, sep)[j],
{
    let mut done: Vec<Vec<u8>> = Vec::new();
    let mut cur: Vec<u8> = Vec::new();
    let mut i: usize = 0;
    while i < b.len()
        invariant
            i <= b.len(),
            byte_pieces(b@.subrange(0, i as int), sep).len() == done.len() + 1,
            forall|j: int|
                0 <= j < done.len() ==> #[trigger] done@[j]@ == byte_pieces(
                    b@.subrange(0, i as int),
                    sep,
                )[j],
            cur@ == byte_pieces(b@.subrange(0, i as int), sep).last(),
        decreases b.len() - i,
    {
        let c = b[i];
        assert(b@.subrange(0, i + 1).drop_last() =~= b@.subrange(0, i as int));
        if c == sep {
            done.push(cur);
            cur = Vec::new();
        } else {
            cur.push(c);
        }
        i = i + 1;
        proof {
            let p = byte_pieces(b@.subrange(0, i as int), sep);
            assert forall|j: int| 0 <= j < done.len() implies #[trigger] done@[j]@ == p[j] by {}
        }
    }
    assert(b@.subrange(0, b@.len() as int) =~= b@);
    done.push(cur);
    done
}

/// The bytes of the tag that starts each log line of a stream.
pub open spec fn stream_tag(stderr: bool) -> Seq<u8> {
    (if stderr {
        "[stderr] "@
    } else {
        "[stdout] "@
    }).map_values(|c: char| c as u8)
}

pub open spec fn tagged_line_fn(stderr: bool) -> spec_fn(Seq<u8>) -> Seq<u8> {
    |l: Seq<u8>| stream_tag(stderr) + l + seq![10u8]
}

/// The log of a check: each line of its standard output after `[stdout] `,
/// then each line of its standard error after `[stderr] `, each line ended
/// by a newline.
pub open spec fn log_of(stdout: Seq<u8>, stderr: Seq<u8>) -> Seq<u8> {
    join_all(byte_lines(stdout).map_values(tagged_line_fn(false))) + join_all(
        byte_lines(stderr).map_values(tagged_line_fn(true)),
    )
}

fn push_prefixed_lines(out: &mut Vec<u8>, bytes: &[u8], stderr: bool)
    ensures
        final(out)@ == old(out)@ + join_all(byte_lines(bytes@).map_values(tagged_line_fn(stderr))),
{
    let ghost start = out@;
    let pieces = split_bytes(bytes, 10);
    proof {
        lemma_byte_pieces_nonempty(bytes@, 10);
    }
    let n: usize = if pieces[pieces.len() - 1].len() == 0 {
        pieces.len() - 1
    } else {
        pieces.len()
    };
    let ghost ls = byte_lines(bytes@).map_values(tagged_line_fn(stderr));
    let tag = if stderr {
        chars_of("[stderr] ")
    } else {
        chars_of("[stdout] ")
    };
    let mut tag_bytes: Vec<u8> = Vec::new();
    let mut k: usize = 0;
    while k < tag.len()
        invariant
            k <= tag.len(),
            tag@ == (if stderr { "[stderr] "@ } else { "[stdout] "@ }),
            tag_bytes@ == tag@.subrange(0, k as int).map_values(|c: char| c as u8),
            stream_tag(stderr) == tag@.map_values(|c: char| c as u8),
        decreases tag.len() - k,
    {
        tag_bytes.push(tag[k] as u8);
        k = k + 1;
        assert(tag_bytes@ =~= tag@.subrange(0, k as int).map_values(|c: char| c as u8));
    }
    assert(tag@.subrange(0, tag@.len() as int) =~= tag@);
    assert(tag_bytes@ == stream_tag(stderr));
    assert(ls.len() == n);
    let mut i: usize = 0;
    while i < n
        invariant
            i <= n <= pieces@.len(),
            n == ls.len(),
            pieces@.len() == byte_pieces(bytes@, 10).len(),
            forall|j: int| 0 <= j < pieces@.len() ==> #[trigger] pieces@[j]@ == byte_pieces(bytes@, 10)[j],
            tag_bytes@ == stream_tag(stderr),
            ls == byte_lines(bytes@).map_values(tagged_line_fn(stderr)),
            out@ == start + join_all(ls.subrange(0, i as int)),
        decreases n - i,
    {
        let ghost prev = out@;
        let mut j: usize = 0;
        while j < tag_bytes.len()
            invariant
                j <= tag_bytes.len(),
                out@ == prev + tag_bytes@.subrange(0, j as int),
            decreases tag_bytes.len() - j,
        {
            out.push(tag_bytes[j]);
            j = j + 1;
            assert(out@ =~= prev + tag_bytes@.subrange(0, j as int));
        }
        let piece = &pieces[i];
        let mut j: usize = 0;
        let ghost mid = out@;
        while j < piece.len()
            invariant
                j <= piece.len(),
                out@ == mid + piece@.subrange(0, j as int),
            decreases piece.len() - j,
        {
            out.push(piece[j]);
            j = j + 1;
            assert(out@ =~= mid + piece@.subrange(0, j as int));
        }
        out.push(10u8);
        assert(tag_bytes@.subrange(0, tag_bytes@.len() as int) =~= tag_bytes@);
        assert(piece@.subrange(0, piece@.len() as int) =~= piece@);
        assert(ls[i as int] == tag_bytes@ + piece@ + seq![10u8]);
        assert(ls.subrange(0, i + 1).drop_last() =~= ls.subrange(0, i as int));
        i = i + 1;
        assert(out@ =~= start + join_all(ls.subrange(0, i as int)));
    }
    assert(ls.subrange(0, n as int) =~= ls);
}

/// The log of a check with the given output streams.
pub fn log_contents(stdout: &[u8], stderr: &[u8]) -> (r: Vec<u8>)
    ensures
        r@ == log_of(stdout@, stderr@),
{
    let mut out: Vec<u8> = Vec::new();
    push_prefixed_lines(&mut out, stdout, false);
    push_prefixed_lines(&mut out, stderr, true);
    assert(out@ =~= log_of(stdout@, stderr@));
    out
}

// ---------------------------------------------------------------------------
// Reports
// ---------------------------------------------------------------------------

/// The first `n` characters of a line.
pub open spec fn clip(l: Seq<char>, n: nat) -> Seq<char> {
    if l.len() <= n {
        l
    } else {
        l.take(n as int)
    }
}

pub open spec fn clip_fn(n: nat) -> spec_fn(Seq<char>) -> Seq<char> {
    |l: Seq<char>| clip(l, n)
}

/// The last `n` items, or all of them where there are fewer.
pub open spec fn last_n<T>(s: Seq<T>, n: nat) -> Seq<T> {
    if s.len() <= n {
        s
    } else {
        s.subrange(s.len() - n, s.len() as int)
    }
}

/// A diagnostic within the limits: its message and first details clipped.
pub open spec fn limit_diagnostic(d: DiagnosticV, lim: SummaryLimits) -> DiagnosticV {
    DiagnosticV {
        severity: d.severity,
        location: d.location,
        code: d.code,
        message: clip(d.message, lim.max_line_chars as nat),
        details: first_n(d.details, lim.max_lines as nat).map_values(
            clip_fn(lim.max_line_chars as nat),
        ),
    }
}

/// A failed test within the limits: the last lines of each output, clipped.
pub open spec fn limit_failure(f: TestFailureV, lim: SummaryLimits) -> TestFailureV {
    TestFailureV {
        name: f.name,
        stdout: last_n(f.stdout, lim.max_lines as nat).map_values(clip_fn(lim.max_line_chars as nat)),
        stderr: last_n(f.stderr, lim.max_lines as nat).map_values(clip_fn(lim.max_line_chars as nat)),
    }
}

/// A summary within the limits.
pub open spec fn limited(s: SummaryV, lim: SummaryLimits) -> SummaryV {
    SummaryV {
        diagnostics: first_n(s.diagnostics, lim.max_diagnostics as nat).map_values(
            |d: DiagnosticV| limit_diagnostic(d, lim),
        ),
        test_failures: first_n(s.test_failures, lim.max_failures as nat).map_values(
            |f: TestFailureV| limit_failure(f, lim),
        ),
        text_lines: s.text_lines.map_values(clip_fn(lim.max_line_chars as nat)),
    }
}

/// The last `limit` non-empty lines of the output, one per line.
pub open spec fn recent_text_of(output: Seq<u8>, limit: nat) -> Seq<char> {
    let ls = recent_lines_of(utf8_lossy(output), limit);
    if ls.len() == 0 {
        "\n"@
    } else {
        join_all(ls.map_values(|l: Seq<char>| l + "\n"@))
    }
}

/// The report of a failed check: its summary within the limits, or, where
/// the summary is empty, the recent lines of its output.
pub open spec fn report_of(s: SummaryV, log_path: Seq<char>, lim: SummaryLimits, output: Seq<u8>) -> Seq<
    char,
> {
    if summary_is_empty(s) {
        "full log: "@ + log_path + "\n\n"@
            + "no compact diagnostics found; showing recent log output:\n\n"@ + recent_text_of(
            output,
            lim.max_fallback_lines as nat,
        )
    } else {
        rendered(limited(s, lim), log_path)
    }
}

/// A report keeps within its limits: at most `max_diagnostics` diagnostics
/// and `max_failures` failed tests, at most `max_lines` lines of each, and
/// no line of them longer than `max_line_chars` characters.
pub proof fn law_report_within_limits(s: SummaryV, lim: SummaryLimits)
    ensures
        ({
            let l = limited(s, lim);
            &&& l.diagnostics.len() <= lim.max_diagnostics
            &&& l.test_failures.len() <= lim.max_failures
            &&& forall|i: int| 0 <= i < l.diagnostics.len() ==> {
                let d = #[trigger] l.diagnostics[i];
                &&& d.message.len() <= lim.max_line_chars
                &&& d.details.len() <= lim.max_lines
                &&& forall|j: int| 0 <= j < d.details.len() ==> (#[trigger] d.details[j]).len() <= lim.max_line_chars
            }
            &&& forall|i: int| 0 <= i < l.test_failures.len() ==> {
                let f = #[trigger] l.test_failures[i];
                &&& f.stdout.len() <= lim.max_lines
                &&& f.stderr.len() <= lim.max_lines
                &&& forall|j: int| 0 <= j < f.stdout.len() ==> (#[trigger] f.stdout[j]).len() <= lim.max_line_chars
                &&& forall|j: int| 0 <= j < f.stderr.len() ==> (#[trigger] f.stderr[j]).len() <= lim.max_line_chars
            }
            &&& forall|j: int| 0 <= j < l.text_lines.len() ==> (#[trigger] l.text_lines[j]).len() <= lim.max_line_chars
        }),
{
    let l = limited(s, lim);
    let n = lim.max_line_chars as nat;
    assert forall|i: int| 0 <= i < l.diagnostics.len() implies {
        let d = #[trigger] l.diagnostics[i];
        &&& d.message.len() <= lim.max_line_chars
        &&& d.details.len() <= lim.max_lines
        &&& forall|j: int| 0 <= j < d.details.len() ==> (#[trigger] d.details[j]).len() <= lim.max_line_chars
    } by {
        let d0 = first_n(s.diagnostics, lim.max_diagnostics as nat)[i];
        let d = l.diagnostics[i];
        assert(d == limit_diagnostic(d0, lim));
        let ds = first_n(d0.details, lim.max_lines as nat);
        assert forall|j: int| 0 <= j < d.details.len() implies (#[trigger] d.details[j]).len()
            <= lim.max_line_chars by {
            assert(d.details[j] == clip(ds[j], n));
        }
    }
    assert forall|i: int| 0 <= i < l.test_failures.len() implies {
        let f = #[trigger] l.test_failures[i];
        &&& f.stdout.len() <= lim.max_lines
        &&& f.stderr.len() <= lim.max_lines
        &&& forall|j: int| 0 <= j < f.stdout.len() ==> (#[trigger] f.stdout[j]).len() <= lim.max_line_chars
        &&& forall|j: int| 0 <= j < f.stderr.len() ==> (#[trigger] f.stderr[j]).len() <= lim.max_line_chars
    } by {
        let f0 = first_n(s.test_failures, lim.max_failures as nat)[i];
        let f = l.test_failures[i];
        assert(f == limit_failure(f0, lim));
        let so = last_n(f0.stdout, lim.max_lines as nat);
        let se = last_n(f0.stderr, lim.max_lines as nat);
        assert forall|j: int| 0 <= j < f.stdout.len() implies (#[trigger] f.stdout[j]).len()
            <= lim.max_line_chars by {
            assert(f.stdout[j] == clip(so[j], n));
        }
        assert forall|j: int| 0 <= j < f.stderr.len() implies (#[trigger] f.stderr[j]).len()
            <= lim.max_line_chars by {
            assert(f.stderr[j] == clip(se[j], n));
        }
    }
    assert forall|j: int| 0 <= j < l.text_lines.len() implies (#[trigger] l.text_lines[j]).len()
        <= lim.max_line_chars by {
        assert(l.text_lines[j] == clip(s.text_lines[j], n));
    }
}

fn clip_string(s: &String, n: usize) -> (r: String)
    ensures
        r@ == clip(s@, n as nat),
{
    let c = chars_of(s.as_str());
    if c.len() <= n {
        string_from(c.as_slice())
    } else {
        let r = string_from(crate::text::slice_range(c.as_slice(), 0, n).as_slice());
        assert(c@.subrange(0, n as int) =~= c@.take(n as int));
        r
    }
}

fn clip_strings(v: &[String], n: usize) -> (r: Vec<String>)
    ensures
        strings_view(r@) == strings_view(v@).map_values(clip_fn(n as nat)),
{
    let mut r: Vec<String> = Vec::new();
    let mut i: usize = 0;
    while i < v.len()
        invariant
            i <= v.len(),
            r@.len() == i,
            forall|j: int| 0 <= j < i ==> #[trigger] r@[j]@ == clip(v@[j]@, n as nat),
        decreases v.len() - i,
    {
        r.push(clip_string(&v[i], n));
        i = i + 1;
    }
    assert(strings_view(r@) =~= strings_view(v@).map_values(clip_fn(n as nat)));
    r
}

fn last_strings(v: &Vec<String>, n: usize) -> (r: Vec<String>)
    ensures
        strings_view(r@) == last_n(strings_view(v@), n as nat),
{
    let start: usize = if v.len() <= n {
        0
    } else {
        v.len() - n
    };
    let mut r: Vec<String> = Vec::new();
    let mut i: usize = start;
    while i < v.len()
        invariant
            start <= i <= v.len(),
            r@.len() == i - start,
            forall|j: int| 0 <= j < i - start ==> #[trigger] r@[j]@ == v@[start + j]@,
        decreases v.len() - i,
    {
        r.push(v[i].clone());
        i = i + 1;
    }
    assert(strings_view(r@) =~= last_n(strings_view(v@), n as nat));
    r
}

fn first_strings(v: &Vec<String>, n: usize) -> (r: Vec<String>)
    ensures
        strings_view(r@) == first_n(strings_view(v@), n as nat),
{
    let end: usize = if v.len() <= n {
        v.len()
    } else {
        n
    };
    let mut r: Vec<String> = Vec::new();
    let mut i: usize = 0;
    while i < end
        invariant
            i <= end <= v.len(),
            end == v.len() || end == n,
            v.len() <= n ==> end == v.len(),
            r@.len() == i,
            forall|j: int| 0 <= j < i ==> #[trigger] r@[j]@ == v@[j]@,
        decreases end - i,
    {
        r.push(v[i].clone());
        i = i + 1;
    }
    assert(strings_view(r@) =~= first_n(strings_view(v@), n as nat));
    r
}

fn limit_diagnostic_of(d: &Diagnostic, lim: SummaryLimits) -> (r: Diagnostic)
    ensures
        r@ == limit_diagnostic(d@, lim),
{
    let details = first_strings(&d.details, lim.max_lines);
    let r = Diagnostic {
        severity: d.severity.clone(),
        location: match &d.location {
            Some(l) => Some(l.clone()),
            None => None,
        },
        code: match &d.code {
            Some(c) => Some(c.clone()),
            None => None,
        },
        message: clip_string(&d.message, lim.max_line_chars),
        details: clip_strings(details.as_slice(), lim.max_line_chars),
    };
    assert(r@ =~= limit_diagnostic(d@, lim));
    r
}

fn limit_failure_of(f: &TestFailure, lim: SummaryLimits) -> (r: TestFailure)
    ensures
        r@ == limit_failure(f@, lim),
{
    let stdout = last_strings(&f.stdout, lim.max_lines);
    let stderr = last_strings(&f.stderr, lim.max_lines);
    let r = TestFailure {
        name: f.name.clone(),
        stdout: clip_strings(stdout.as_slice(), lim.max_line_chars),
        stderr: clip_strings(stderr.as_slice(), lim.max_line_chars),
    };
    assert(r@ =~= limit_failure(f@, lim));
    r
}

fn limit_summary(s: &Summary, lim: SummaryLimits) -> (r: Summary)
    ensures
        r@ == limited(s@, lim),
{
    let nd: usize = if s.diagnostics.len() <= lim.max_diagnostics {
        s.diagnostics.len()
    } else {
        lim.max_diagnostics
    };
    let mut diagnostics: Vec<Diagnostic> = Vec::new();
    let mut i: usize = 0;
    while i < nd
        invariant
            i <= nd <= s.diagnostics.len(),
            nd == first_n(s@.diagnostics, lim.max_diagnostics as nat).len(),
            diagnostics@.len() == i,
            forall|j: int| 0 <= j < i ==> #[trigger] diagnostics@[j]@ == limit_diagnostic(
                s.diagnostics@[j]@,
                lim,
            ),
        decreases nd - i,
    {
        diagnostics.push(limit_diagnostic_of(&s.diagnostics[i], lim));
        i = i + 1;
    }
    let nf: usize = if s.test_failures.len() <= lim.max_failures {
        s.test_failures.len()
    } else {
        lim.max_failures
    };
    let mut test_failures: Vec<TestFailure> = Vec::new();
    let mut i: usize = 0;
    while i < nf
        invariant
            i <= nf <= s.test_failures.len(),
            nf == first_n(s@.test_failures, lim.max_failures as nat).len(),
            test_failures@.len() == i,
            forall|j: int| 0 <= j < i ==> #[trigger] test_failures@[j]@ == limit_failure(
                s.test_failures@[j]@,
                lim,
            ),
        decreases nf - i,
    {
        test_failures.push(limit_failure_of(&s.test_failures[i], lim));
        i = i + 1;
    }
    let r = Summary {
        diagnostics,
        test_failures,
        text_lines: clip_strings(s.text_lines.as_slice(), lim.max_line_chars),
    };
    assert(diagnostics_view(r.diagnostics@) =~= limited(s@, lim).diagnostics);
    assert(failures_view(r.test_failures@) =~= limited(s@, lim).test_failures);
    assert(r@ =~= limited(s@, lim));
    r
}

/// The last `limit` non-empty lines of the output, one per line.
pub fn recent_text(output: &[u8], limit: usize) -> (r: String)
    ensures
        r@ == recent_text_of(output@, limit as nat),
{
    let decoded = decode_utf8_lossy(output);
    let text = chars_of(decoded.as_str());
    let lines = recent_lines(text.as_slice(), limit);
    let mut out: Vec<char> = Vec::new();
    if lines.len() == 0 {
        out.push('\n');
        proof {
            reveal_strlit("\n");
        }
        assert(out@ =~= "\n"@);
        return string_from(out.as_slice());
    }
    let ghost ls = lines.deep_view().map_values(|l: Seq<char>| l + "\n"@);
    let mut i: usize = 0;
    while i < lines.len()
        invariant
            i <= lines.len(),
            ls == lines.deep_view().map_values(|l: Seq<char>| l + "\n"@),
            out@ == join_all(ls.subrange(0, i as int)),
        decreases lines.len() - i,
    {
        assert(lines.deep_view()[i as int] =~= lines@[i as int]@);
        push_all(&mut out, lines[i].as_slice());
        out.push('\n');
        proof {
            reveal_strlit("\n");
        }
        assert(ls.subrange(0, i + 1).drop_last() =~= ls.subrange(0, i as int));
        i = i + 1;
        assert(out@ =~= join_all(ls.subrange(0, i as int)));
    }
    assert(ls.subrange(0, ls.len() as int) =~= ls);
    string_from(out.as_slice())
}

/// The report of a failed check.
pub fn render_report(summary: &Summary, log_path: &str, limits: &SummaryLimits, output: &[u8]) -> (r:
    String)
    ensures
        r@ == report_of(summary@, log_path@, *limits, output@),
{
    if summary.is_empty() {
        let mut out: Vec<char> = Vec::new();
        push_all(&mut out, chars_of("full log: ").as_slice());
        push_all(&mut out, chars_of(log_path).as_slice());
        push_all(&mut out, chars_of("\n\n").as_slice());
        push_all(
            &mut out,
            chars_of("no compact diagnostics found; showing recent log output:\n\n").as_slice(),
        );
        let recent = recent_text(output, limits.max_fallback_lines);
        push_all(&mut out, chars_of(recent.as_str()).as_slice());
        string_from(out.as_slice())
    } else {
        let limited_summary = limit_summary(summary, *limits);
        limited_summary.render(log_path)
    }
}

/// What a finished check prints: nothing where it passed (exit code 0),
/// else the report of its output.
pub fn failure_report(options: &RunOptions, result: &RunResult) -> (r: Option<String>)
    ensures
        result.exit_code == 0 ==> r is None,
        result.exit_code != 0 ==> (r matches Some(t) && t@ == report_of(
            summary_of(options.mode, strings_view(options.command@), result.output@),
            result.log_path@,
            options.limits,
            result.output@,
        )),
{
    if result.exit_code == 0 {
        return None;
    }
    let summary = summarize_for_command(
        options.mode,
        options.command.as_slice(),
        result.output.as_slice(),
    );
    Some(render_report(&summary, result.log_path.as_str(), &options.limits, result.output.as_slice()))
}

} // verus!
