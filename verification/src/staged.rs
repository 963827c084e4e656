//! The decisions of the staged-file formatter: which Rust edition a file is
//! formatted for, which index entries are formatted, and when formatted
//! output may be written to the index and the worktree.

use vstd::prelude::*;

use crate::git::{IndexEntry, IndexEntryV};
use crate::summary::strings_view;
use crate::text::{
    chars_equal, chars_of, has_prefix, lines_of, split_lines, starts_with, string_from, trim,
    trim_chars, trim_start, trim_start_chars,
};

verus! {

/// Where the repository that the formatter works in is.
#[derive(Debug, Clone)]
pub struct FormatStagedOptions {
    pub repo_root: String,
}

/// The staged Rust files that were formatted, that were already formatted,
/// and that were skipped (not regular files).
#[derive(Debug, Clone, PartialEq, Eq)]
pub struct FormatSummary {
    pub formatted: Vec<String>,
    pub unchanged: Vec<String>,
    pub skipped: Vec<String>,
}

impl Default for FormatSummary {
    fn default() -> (r: FormatSummary)
        ensures
            r.formatted@.len() == 0,
            r.unchanged@.len() == 0,
            r.skipped@.len() == 0,
    {
        FormatSummary { formatted: Vec::new(), unchanged: Vec::new(), skipped: Vec::new() }
    }
}

// ---------------------------------------------------------------------------
// Editions
// ---------------------------------------------------------------------------

/// One of the Rust editions that rustfmt knows.
pub open spec fn edition_name(v: Seq<char>) -> Option<Seq<char>> {
    if v == "2015"@ || v == "2018"@ || v == "2021"@ || v == "2024"@ {
        Some(v)
    } else {
        None
    }
}

/// `str::trim_start_matches('"')`.
pub open spec fn trim_start_quotes(s: Seq<char>) -> Seq<char>
    decreases s.len(),
{
    if s.len() > 0 && s[0] == '"' {
        trim_start_quotes(s.drop_first())
    } else {
        s
    }
}

/// `str::trim_end_matches('"')`.
pub open spec fn trim_end_quotes(s: Seq<char>) -> Seq<char>
    decreases s.len(),
{
    if s.len() > 0 && s.last() == '"' {
        trim_end_quotes(s.drop_last())
    } else {
        s
    }
}

/// `str::trim_matches('"')`.
pub open spec fn trim_quotes(s: Seq<char>) -> Seq<char> {
    trim_end_quotes(trim_start_quotes(s))
}

fn trim_quote_chars(s: &[char]) -> (r: Vec<char>)
    ensures
        r@ == trim_quotes(s@),
{
    let mut i: usize = 0;
    assert(s@.subrange(0, s@.len() as int) =~= s@);
    while i < s.len() && s[i] == '"'
        invariant
            i <= s.len(),
            trim_start_quotes(s@) == trim_start_quotes(s@.subrange(i as int, s@.len() as int)),
        decreases s.len() - i,
    {
        assert(s@.subrange(i as int, s@.len() as int).drop_first() =~= s@.subrange(
            i + 1,
            s@.len() as int,
        ));
        i = i + 1;
    }
    let t = crate::text::slice_range(s, i, s.len());
    let mut n: usize = t.len();
    assert(t@.subrange(0, t@.len() as int) =~= t@);
    while n > 0 && t[n - 1] == '"'
        invariant
            n <= t.len(),
            trim_end_quotes(t@) == trim_end_quotes(t@.subrange(0, n as int)),
        decreases n,
    {
        assert(t@.subrange(0, n as int).drop_last() =~= t@.subrange(0, n - 1));
        n = n - 1;
    }
    crate::text::slice_range(t.as_slice(), 0, n)
}

/// The edition that a (trimmed) manifest line sets: `edition`, an `=`,
/// and one of the editions, quoted or not.
pub open spec fn edition_of_line(line: Seq<char>) -> Option<Seq<char>> {
    if starts_with(line, "edition"@) {
        let rest = trim_start(line.subrange(7, line.len() as int));
        if rest.len() > 0 && rest[0] == '=' {
            edition_name(trim_quotes(trim(rest.drop_first())))
        } else {
            None
        }
    } else {
        None
    }
}

/// The first edition set in the table named by the header `table`, reading
/// the lines from the first on, `in_table` telling whether the reading is
/// inside that table.
pub open spec fn table_edition_from(ls: Seq<Seq<char>>, table: Seq<char>, in_table: bool) -> Option<
    Seq<char>,
>
    decreases ls.len(),
{
    if ls.len() == 0 {
        None
    } else {
        let line = trim(ls[0]);
        if line.len() > 0 && line[0] == '[' {
            table_edition_from(ls.drop_first(), table, line == table)
        } else if !in_table {
            table_edition_from(ls.drop_first(), table, in_table)
        } else {
            match edition_of_line(line) {
                Some(e) => Some(e),
                None => table_edition_from(ls.drop_first(), table, in_table),
            }
        }
    }
}

/// The edition that a Cargo manifest sets in the given table.
pub open spec fn table_edition(text: Seq<char>, table: Seq<char>) -> Option<Seq<char>> {
    table_edition_from(lines_of(text), table, false)
}

fn edition_literal(v: &[char]) -> (r: Option<&'static str>)
    ensures
        match r {
            Some(e) => edition_name(v@) == Some(e@),
            None => edition_name(v@) is None,
        },
{
    if chars_equal(v, chars_of("2015").as_slice()) {
        Some("2015")
    } else if chars_equal(v, chars_of("2018").as_slice()) {
        Some("2018")
    } else if chars_equal(v, chars_of("2021").as_slice()) {
        Some("2021")
    } else if chars_equal(v, chars_of("2024").as_slice()) {
        Some("2024")
    } else {
        None
    }
}

fn line_edition(line: &[char]) -> (r: Option<&'static str>)
    ensures
        match r {
            Some(e) => edition_of_line(line@) == Some(e@),
            None => edition_of_line(line@) is None,
        },
{
    if !has_prefix(line, chars_of("edition").as_slice()) {
        return None;
    }
    proof {
        reveal_strlit("edition");
    }
    let rest = trim_start_chars(crate::text::slice_range(line, 7, line.len()).as_slice());
    if rest.len() > 0 && rest[0] == '=' {
        let after = crate::text::slice_range(rest.as_slice(), 1, rest.len());
        assert(after@ =~= rest@.drop_first());
        let value = trim_quote_chars(trim_chars(after.as_slice()).as_slice());
        edition_literal(value.as_slice())
    } else {
        None
    }
}

/// The edition that a Cargo manifest sets in the table with the given
/// header, if any.
pub fn parse_table_edition(text: &str, table: &str) -> (r: Option<&'static str>)
    ensures
        match r {
            Some(e) => table_edition(text@, table@) == Some(e@),
            None => table_edition(text@, table@) is None,
        },
{
    let chars = chars_of(text);
    let header = chars_of(table);
    let lines = split_lines(chars.as_slice());
    let ghost lv = lines.deep_view();
    let mut in_table = false;
    let mut i: usize = 0;
    assert(lv.subrange(0, lv.len() as int) =~= lv);
    while i < lines.len()
        invariant
            i <= lines.len(),
            lv == lines.deep_view(),
            lv == lines_of(text@),
            header@ == table@,
            table_edition(text@, table@) == table_edition_from(
                lv.subrange(i as int, lv.len() as int),
                table@,
                in_table,
            ),
        decreases lines.len() - i,
    {
        let ghost rest = lv.subrange(i as int, lv.len() as int);
        assert(rest[0] =~= lines@[i as int]@);
        assert(rest.drop_first() =~= lv.subrange(i + 1, lv.len() as int));
        let line = trim_chars(lines[i].as_slice());
        if line.len() > 0 && line[0] == '[' {
            in_table = chars_equal(line.as_slice(), header.as_slice());
        } else if in_table {
            match line_edition(line.as_slice()) {
                Some(e) => return Some(e),
                None => {},
            }
        }
        i = i + 1;
    }
    None
}

/// The edition of the `[package]` table.
pub fn parse_package_edition(text: &str) -> (r: Option<&'static str>)
    ensures
        match r {
            Some(e) => table_edition(text@, "[package]"@) == Some(e@),
            None => table_edition(text@, "[package]"@) is None,
        },
{
    parse_table_edition(text, "[package]")
}

/// The edition of the `[workspace.package]` table.
pub fn parse_workspace_package_edition(text: &str) -> (r: Option<&'static str>)
    ensures
        match r {
            Some(e) => table_edition(text@, "[workspace.package]"@) == Some(e@),
            None => table_edition(text@, "[workspace.package]"@) is None,
        },
{
    parse_table_edition(text, "[workspace.package]")
}

/// The edition a manifest sets: that of its package, else that of its
/// workspace's packages.
pub open spec fn manifest_edition(text: Seq<char>) -> Option<Seq<char>> {
    match table_edition(text, "[package]"@) {
        Some(e) => Some(e),
        None => table_edition(text, "[workspace.package]"@),
    }
}

/// The edition to format with, given the manifests from the file's
/// directory up to the repository root: that of the nearest manifest that
/// sets one, else 2024.
pub open spec fn edition_for(manifests: Seq<Seq<char>>) -> Seq<char>
    decreases manifests.len(),
{
    if manifests.len() == 0 {
        "2024"@
    } else {
        match manifest_edition(manifests[0]) {
            Some(e) => e,
            None => edition_for(manifests.drop_first()),
        }
    }
}

/// The edition to format a file with, given the readable `Cargo.toml`
/// files from its directory up to the repository root, nearest first.
pub fn pick_edition(manifests: &[String]) -> (r: &'static str)
    ensures
        r@ == edition_for(strings_view(manifests@)),
{
    let ghost mv = strings_view(manifests@);
    let mut i: usize = 0;
    assert(mv.subrange(0, mv.len() as int) =~= mv);
    while i < manifests.len()
        invariant
            i <= manifests.len(),
            mv == strings_view(manifests@),
            edition_for(mv) == edition_for(mv.subrange(i as int, mv.len() as int)),
        decreases manifests.len() - i,
    {
        let ghost rest = mv.subrange(i as int, mv.len() as int);
        assert(rest[0] == manifests@[i as int]@);
        assert(rest.drop_first() =~= mv.subrange(i + 1, mv.len() as int));
        match parse_package_edition(manifests[i].as_str()) {
            Some(e) => return e,
            None => {},
        }
        match parse_workspace_package_edition(manifests[i].as_str()) {
            Some(e) => return e,
            None => {},
        }
        i = i + 1;
    }
    "2024"
}

// ---------------------------------------------------------------------------
// Index entries and updates
// ---------------------------------------------------------------------------

/// Why formatting the staged files stopped.
#[derive(Debug, Clone, PartialEq, Eq)]
pub enum StagedError {
    MergeConflict(String),
    Disappeared(String),
    Changed(String),
}

pub enum StagedErrorV {
    MergeConflict(Seq<char>),
    Disappeared(Seq<char>),
    Changed(Seq<char>),
}

impl View for StagedError {
    type V = StagedErrorV;

    open spec fn view(&self) -> StagedErrorV {
        match self {
            StagedError::MergeConflict(p) => StagedErrorV::MergeConflict(p@),
            StagedError::Disappeared(p) => StagedErrorV::Disappeared(p@),
            StagedError::Changed(p) => StagedErrorV::Changed(p@),
        }
    }
}

pub open spec fn staged_error_message(e: StagedErrorV) -> Seq<char> {
    match e {
        StagedErrorV::MergeConflict(p) => "cannot format staged Rust file with merge conflicts: "@
            + p,
        StagedErrorV::Disappeared(p) => "staged Rust file disappeared: "@ + p,
        StagedErrorV::Changed(p) => "staged Rust file changed while formatting: "@ + p,
    }
}

impl StagedError {
    /// The error as a sentence.
    pub fn message(&self) -> (r: String)
        ensures
            r@ == staged_error_message(self@),
    {
        let (mut out, p) = match self {
            StagedError::MergeConflict(p) => (
                chars_of("cannot format staged Rust file with merge conflicts: "),
                p,
            ),
            StagedError::Disappeared(p) => (chars_of("staged Rust file disappeared: "), p),
            StagedError::Changed(p) => (chars_of("staged Rust file changed while formatting: "), p),
        };
        crate::text::push_all(&mut out, chars_of(p.as_str()).as_slice());
        string_from(out.as_slice())
    }
}

/// What becomes of a staged Rust file.
#[derive(Debug, Clone, Copy, PartialEq, Eq, Structural)]
pub enum EntryAction {
    /// It has merge conflicts: formatting stops.
    Conflict,
    /// It is not a regular file (a symlink, a submodule): it is skipped.
    Skip,
    /// It is formatted.
    Format,
}

/// A regular file's mode in the index.
pub open spec fn is_regular_mode(mode: Seq<char>) -> bool {
    mode == "100644"@ || mode == "100755"@
}

pub open spec fn entry_action_of(e: IndexEntryV) -> EntryAction {
    if e.stage != 0 {
        EntryAction::Conflict
    } else if !is_regular_mode(e.mode) {
        EntryAction::Skip
    } else {
        EntryAction::Format
    }
}

pub fn entry_action(e: &IndexEntry) -> (r: EntryAction)
    ensures
        r == entry_action_of(e@),
{
    if e.stage != 0 {
        EntryAction::Conflict
    } else {
        let mode = chars_of(e.mode.as_str());
        if chars_equal(mode.as_slice(), chars_of("100644").as_slice()) || chars_equal(
            mode.as_slice(),
            chars_of("100755").as_slice(),
        ) {
            EntryAction::Format
        } else {
            EntryAction::Skip
        }
    }
}

/// A staged blob about to be replaced: its path, mode and object name.
#[derive(Debug, Clone, PartialEq, Eq)]
pub struct StagedBlob {
    pub path: String,
    pub mode: String,
    pub sha: String,
}

pub struct StagedBlobV {
    pub path: Seq<char>,
    pub mode: Seq<char>,
    pub sha: Seq<char>,
}

impl View for StagedBlob {
    type V = StagedBlobV;

    open spec fn view(&self) -> StagedBlobV {
        StagedBlobV { path: self.path@, mode: self.mode@, sha: self.sha@ }
    }
}

/// The last index entry for a path (entries collected by path keep the
/// last).
pub open spec fn last_entry_for(es: Seq<IndexEntryV>, path: Seq<char>) -> Option<IndexEntryV>
    decreases es.len(),
{
    if es.len() == 0 {
        None
    } else if es.last().path == path {
        Some(es.last())
    } else {
        last_entry_for(es.drop_last(), path)
    }
}

/// The blob is still what the index holds for its path, at stage 0.
pub open spec fn blob_check(b: StagedBlobV, es: Seq<IndexEntryV>) -> Option<StagedErrorV> {
    match last_entry_for(es, b.path) {
        None => Some(StagedErrorV::Disappeared(b.path)),
        Some(e) => if e.mode != b.mode || e.sha != b.sha || e.stage != 0 {
            Some(StagedErrorV::Changed(b.path))
        } else {
            None
        },
    }
}

/// The first blob that the index no longer holds as it was.
pub open spec fn first_changed(bs: Seq<StagedBlobV>, es: Seq<IndexEntryV>) -> Option<StagedErrorV>
    decreases bs.len(),
{
    if bs.len() == 0 {
        None
    } else {
        match blob_check(bs[0], es) {
            Some(err) => Some(err),
            None => first_changed(bs.drop_first(), es),
        }
    }
}

/// The index holds the blob as it was read: the last entry for its path is
/// at stage 0 with the blob's mode and object id.
pub open spec fn index_holds(b: StagedBlobV, es: Seq<IndexEntryV>) -> bool {
    last_entry_for(es, b.path) matches Some(e) && e.mode == b.mode && e.sha == b.sha && e.stage == 0
}

/// The index check finds no change exactly when the index still holds
/// every blob as it was read.
pub proof fn law_unchanged_index_holds_each_blob(bs: Seq<StagedBlobV>, es: Seq<IndexEntryV>)
    ensures
        first_changed(bs, es) is None <==> forall|i: int| 0 <= i < bs.len() ==> index_holds(#[trigger] bs[i], es),
    decreases bs.len(),
{
    if bs.len() > 0 {
        law_unchanged_index_holds_each_blob(bs.drop_first(), es);
        if first_changed(bs, es) is None {
            assert forall|i: int| 0 <= i < bs.len() implies index_holds(#[trigger] bs[i], es) by {
                if i > 0 {
                    assert(bs[i] == bs.drop_first()[i - 1]);
                }
            }
        } else if forall|i: int| 0 <= i < bs.len() ==> index_holds(#[trigger] bs[i], es) {
            assert(index_holds(bs[0], es));
            assert forall|i: int| 0 <= i < bs.drop_first().len() implies index_holds(
                #[trigger] bs.drop_first()[i],
                es,
            ) by {
                assert(bs.drop_first()[i] == bs[i + 1]);
            }
        }
    }
}

pub open spec fn blobs_view(v: Seq<StagedBlob>) -> Seq<StagedBlobV> {
    v.map_values(|b: StagedBlob| b@)
}

fn entry_for(es: &[IndexEntry], path: &String) -> (r: Option<usize>)
    ensures
        match r {
            Some(i) => i < es.len() && last_entry_for(
                crate::git::entries_view(es@),
                path@,
            ) == Some(es@[i as int]@),
            None => last_entry_for(crate::git::entries_view(es@), path@) is None,
        },
{
    let ghost ev = crate::git::entries_view(es@);
    let p = chars_of(path.as_str());
    let mut n: usize = es.len();
    assert(ev.subrange(0, ev.len() as int) =~= ev);
    while n > 0
        invariant
            n <= es.len(),
            ev == crate::git::entries_view(es@),
            p@ == path@,
            last_entry_for(ev, path@) == last_entry_for(ev.subrange(0, n as int), path@),
        decreases n,
    {
        let ghost pre = ev.subrange(0, n as int);
        assert(pre.last() == es@[n - 1]@);
        if chars_equal(chars_of(es[n - 1].path.as_str()).as_slice(), p.as_slice()) {
            return Some(n - 1);
        }
        assert(pre.drop_last() =~= ev.subrange(0, n - 1));
        n = n - 1;
    }
    None
}

/// Checks that the index still holds each blob as it was read, before the
/// formatted blobs replace them.
pub fn verify_index_unchanged(blobs: &[StagedBlob], entries: &[IndexEntry]) -> (r: Result<(), StagedError>)
    ensures
        match r {
            Ok(()) => first_changed(blobs_view(blobs@), crate::git::entries_view(entries@)) is None,
            Err(e) => first_changed(blobs_view(blobs@), crate::git::entries_view(entries@)) == Some(
                e@,
            ),
        },
{
    let ghost bv = blobs_view(blobs@);
    let ghost ev = crate::git::entries_view(entries@);
    let mut i: usize = 0;
    assert(bv.subrange(0, bv.len() as int) =~= bv);
    while i < blobs.len()
        invariant
            i <= blobs.len(),
            bv == blobs_view(blobs@),
            ev == crate::git::entries_view(entries@),
            first_changed(bv, ev) == first_changed(bv.subrange(i as int, bv.len() as int), ev),
        decreases blobs.len() - i,
    {
        let ghost rest = bv.subrange(i as int, bv.len() as int);
        assert(rest[0] == blobs@[i as int]@);
        assert(rest.drop_first() =~= bv.subrange(i + 1, bv.len() as int));
        let b = &blobs[i];
        match entry_for(entries, &b.path) {
            None => return Err(StagedError::Disappeared(b.path.clone())),
            Some(k) => {
                let e = &entries[k];
                let same_mode = chars_equal(
                    chars_of(e.mode.as_str()).as_slice(),
                    chars_of(b.mode.as_str()).as_slice(),
                );
                let same_sha = chars_equal(
                    chars_of(e.sha.as_str()).as_slice(),
                    chars_of(b.sha.as_str()).as_slice(),
                );
                if !same_mode || !same_sha || e.stage != 0 {
                    return Err(StagedError::Changed(b.path.clone()));
                }
            },
        }
        i = i + 1;
    }
    Ok(())
}

/// What formatting did to a staged blob.
#[derive(Debug, Clone, Copy, PartialEq, Eq, Structural)]
pub enum FormatOutcome {
    /// rustfmt left it as it was.
    Unchanged,
    /// rustfmt changed it; the worktree file may get the formatted output
    /// too where it had no unstaged edits.
    Formatted { mirror_worktree: bool },
}

/// What formatting did to the blob at `path`, given the paths with
/// unstaged edits.
pub fn format_outcome(original: &[u8], output: &[u8], dirty_paths: &[String], path: &str) -> (r:
    FormatOutcome)
    ensures
        output@ == original@ ==> r == FormatOutcome::Unchanged,
        output@ != original@ ==> r == (FormatOutcome::Formatted {
            mirror_worktree: !strings_view(dirty_paths@).contains(path@),
        }),
{
    if bytes_equal(output, original) {
        return FormatOutcome::Unchanged;
    }
    let p = chars_of(path);
    let mut i: usize = 0;
    while i < dirty_paths.len()
        invariant
            i <= dirty_paths.len(),
            p@ == path@,
            output@ != original@,
            forall|j: int| 0 <= j < i ==> strings_view(dirty_paths@)[j] != path@,
        decreases dirty_paths.len() - i,
    {
        if chars_equal(chars_of(dirty_paths[i].as_str()).as_slice(), p.as_slice()) {
            assert(strings_view(dirty_paths@)[i as int] == path@);
            assert(strings_view(dirty_paths@).contains(path@));
            return FormatOutcome::Formatted { mirror_worktree: false };
        }
        i = i + 1;
    }
    assert(!strings_view(dirty_paths@).contains(path@)) by {
        if strings_view(dirty_paths@).contains(path@) {
            let k = choose|k: int| 0 <= k < strings_view(dirty_paths@).len() && strings_view(dirty_paths@)[k] == path@;
        }
    }
    FormatOutcome::Formatted { mirror_worktree: true }
}

/// The paths of a format run so far: formatted, unchanged and skipped.
#[verifier::ext_equal]
pub struct FormatSummaryV {
    pub formatted: Seq<Seq<char>>,
    pub unchanged: Seq<Seq<char>>,
    pub skipped: Seq<Seq<char>>,
}

impl View for FormatSummary {
    type V = FormatSummaryV;

    open spec fn view(&self) -> FormatSummaryV {
        FormatSummaryV {
            formatted: strings_view(self.formatted@),
            unchanged: strings_view(self.unchanged@),
            skipped: strings_view(self.skipped@),
        }
    }
}

/// The outcome given for entry `i`, if any.
pub open spec fn outcome_at(os: Seq<Option<FormatOutcome>>, i: int) -> Option<FormatOutcome> {
    if 0 <= i < os.len() {
        os[i]
    } else {
        None
    }
}

/// What formatting the staged entries comes to, in their order: a merge
/// conflict stops it; a path that is not a regular file is skipped; a
/// formatted blob is formatted or unchanged as its outcome says (an entry
/// without an outcome is in no list).
pub open spec fn format_summary_spec(es: Seq<IndexEntryV>, os: Seq<Option<FormatOutcome>>) -> Result<
    FormatSummaryV,
    StagedErrorV,
>
    decreases es.len(),
{
    if es.len() == 0 {
        Ok(FormatSummaryV { formatted: Seq::empty(), unchanged: Seq::empty(), skipped: Seq::empty() })
    } else {
        match format_summary_spec(es.drop_last(), os) {
            Err(err) => Err(err),
            Ok(sum) => {
                let e = es.last();
                match entry_action_of(e) {
                    EntryAction::Conflict => Err(StagedErrorV::MergeConflict(e.path)),
                    EntryAction::Skip => Ok(FormatSummaryV { skipped: sum.skipped.push(e.path), ..sum }),
                    EntryAction::Format => match outcome_at(os, es.len() - 1) {
                        Some(FormatOutcome::Unchanged) => Ok(
                            FormatSummaryV { unchanged: sum.unchanged.push(e.path), ..sum },
                        ),
                        Some(FormatOutcome::Formatted { .. }) => Ok(
                            FormatSummaryV { formatted: sum.formatted.push(e.path), ..sum },
                        ),
                        None => Ok(sum),
                    },
                }
            },
        }
    }
}

/// The summary of formatting the staged entries, given what formatting did
/// to each entry's blob (`outcomes[i]` for `entries[i]`), or the merge
/// conflict that stops it.
pub fn format_summary_of(entries: &[IndexEntry], outcomes: &[Option<FormatOutcome>]) -> (r: Result<
    FormatSummary,
    StagedError,
>)
    ensures
        match r {
            Ok(sum) => format_summary_spec(crate::git::entries_view(entries@), outcomes@) == Ok::<
                FormatSummaryV,
                StagedErrorV,
            >(sum@),
            Err(err) => format_summary_spec(crate::git::entries_view(entries@), outcomes@) == Err::<
                FormatSummaryV,
                StagedErrorV,
            >(err@),
        },
{
    let ghost ev = crate::git::entries_view(entries@);
    let mut sum = FormatSummary { formatted: Vec::new(), unchanged: Vec::new(), skipped: Vec::new() };
    let mut i: usize = 0;
    assert(sum@ =~= FormatSummaryV {
        formatted: Seq::empty(),
        unchanged: Seq::empty(),
        skipped: Seq::empty(),
    });
    while i < entries.len()
        invariant
            i <= entries.len(),
            ev == crate::git::entries_view(entries@),
            format_summary_spec(ev.subrange(0, i as int), outcomes@) == Ok::<FormatSummaryV, StagedErrorV>(
                sum@,
            ),
        decreases entries.len() - i,
    {
        let ghost pre = ev.subrange(0, i + 1);
        assert(pre.drop_last() =~= ev.subrange(0, i as int));
        assert(pre.last() == entries@[i as int]@);
        let ghost before = sum@;
        let e = &entries[i];
        match entry_action(e) {
            EntryAction::Conflict => {
                proof {
                    lemma_format_summary_err(ev, outcomes@, i + 1);
                }
                return Err(StagedError::MergeConflict(e.path.clone()));
            },
            EntryAction::Skip => {
                sum.skipped.push(e.path.clone());
                assert(sum@ =~= FormatSummaryV { skipped: before.skipped.push(e.path@), ..before });
            },
            EntryAction::Format => {
                let o = if i < outcomes.len() {
                    outcomes[i]
                } else {
                    None
                };
                assert(o == outcome_at(outcomes@, i as int));
                match o {
                    Some(FormatOutcome::Unchanged) => {
                        sum.unchanged.push(e.path.clone());
                        assert(sum@ =~= FormatSummaryV {
                            unchanged: before.unchanged.push(e.path@),
                            ..before
                        });
                    },
                    Some(FormatOutcome::Formatted { .. }) => {
                        sum.formatted.push(e.path.clone());
                        assert(sum@ =~= FormatSummaryV {
                            formatted: before.formatted.push(e.path@),
                            ..before
                        });
                    },
                    None => {},
                }
            },
        }
        i = i + 1;
    }
    assert(ev.subrange(0, ev.len() as int) =~= ev);
    Ok(sum)
}

/// Once a prefix of the entries stops at a conflict, so do all of them.
proof fn lemma_format_summary_err(es: Seq<IndexEntryV>, os: Seq<Option<FormatOutcome>>, k: int)
    requires
        0 <= k <= es.len(),
        format_summary_spec(es.subrange(0, k), os) is Err,
    ensures
        format_summary_spec(es, os) == format_summary_spec(es.subrange(0, k), os),
    decreases es.len() - k,
{
    if k < es.len() {
        assert(es.subrange(0, k + 1).drop_last() =~= es.subrange(0, k));
        lemma_format_summary_err(es, os, k + 1);
    } else {
        assert(es.subrange(0, k) =~= es);
    }
}

/// Whether formatted output is written to the worktree file too: only
/// where the file had no unstaged edits when formatting began and still
/// holds what was staged.
pub fn should_mirror_worktree(mirror_worktree: bool, worktree: &Option<Vec<u8>>, original: &[u8]) -> (r:
    bool)
    ensures
        r == (mirror_worktree && (match worktree {
            Some(w) => w@ == original@,
            None => false,
        })),
{
    if !mirror_worktree {
        return false;
    }
    match worktree {
        Some(w) => bytes_equal(w.as_slice(), original),
        None => false,
    }
}

pub fn bytes_equal(a: &[u8], b: &[u8]) -> (r: bool)
    ensures
        r == (a@ == b@),
{
    if a.len() != b.len() {
        return false;
    }
    let mut i: usize = 0;
    while i < a.len()
        invariant
            a.len() == b.len(),
            i <= a.len(),
            forall|j: int| 0 <= j < i ==> a@[j] == b@[j],
        decreases a.len() - i,
    {
        if a[i] != b[i] {
            return false;
        }
        i = i + 1;
    }
    assert(a@ =~= b@);
    true
}

} // verus!
