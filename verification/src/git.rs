//! The git records the staged-file formatter reads and writes: NUL-separated
//! path lists, `git ls-files -s` entries, and `git update-index
//! --index-info` input.

use vstd::prelude::*;

use crate::report::{byte_pieces, lemma_byte_pieces_nonempty, split_bytes};
use crate::summary::{join_all, strings_view};
use crate::text::{
    all_digits, chars_of, decode_utf8, digits_value, is_ws, parse_decimal, parse_digits,
    string_from, trim_end, trim_end_chars,
};

verus! {

/// Why a git record could not be read.
#[derive(Debug, Clone, PartialEq, Eq)]
pub enum GitError {
    /// A path that is not UTF-8.
    DecodePath,
    /// An index entry that is not UTF-8.
    DecodeIndexEntry,
    /// An index entry without a tab before its path.
    IndexEntryFormat(String),
    MissingMode,
    MissingSha,
    MissingStage,
    /// A stage that is not a number from 0 to 255.
    StageNumber,
    /// Output that is not UTF-8.
    DecodeOutput,
}

pub enum GitErrorV {
    DecodePath,
    DecodeIndexEntry,
    IndexEntryFormat(Seq<char>),
    MissingMode,
    MissingSha,
    MissingStage,
    StageNumber,
    DecodeOutput,
}

impl View for GitError {
    type V = GitErrorV;

    open spec fn view(&self) -> GitErrorV {
        match self {
            GitError::DecodePath => GitErrorV::DecodePath,
            GitError::DecodeIndexEntry => GitErrorV::DecodeIndexEntry,
            GitError::IndexEntryFormat(t) => GitErrorV::IndexEntryFormat(t@),
            GitError::MissingMode => GitErrorV::MissingMode,
            GitError::MissingSha => GitErrorV::MissingSha,
            GitError::MissingStage => GitErrorV::MissingStage,
            GitError::StageNumber => GitErrorV::StageNumber,
            GitError::DecodeOutput => GitErrorV::DecodeOutput,
        }
    }
}

impl GitError {
    /// The error as a sentence.
    pub fn message(&self) -> (r: String)
        ensures
            r@ == git_error_message(self@),
    {
        match self {
            GitError::DecodePath => string_from(chars_of("decode git path").as_slice()),
            GitError::DecodeIndexEntry => string_from(chars_of("decode git index entry").as_slice()),
            GitError::IndexEntryFormat(text) => {
                let mut out = chars_of("parse git index entry: ");
                crate::text::push_all(&mut out, chars_of(text.as_str()).as_slice());
                string_from(out.as_slice())
            },
            GitError::MissingMode => string_from(chars_of("parse git index mode").as_slice()),
            GitError::MissingSha => string_from(chars_of("parse git index sha").as_slice()),
            GitError::MissingStage => string_from(chars_of("parse git index stage").as_slice()),
            GitError::StageNumber => string_from(chars_of("parse git index stage number").as_slice()),
            GitError::DecodeOutput => string_from(chars_of("decode git output").as_slice()),
        }
    }
}

pub open spec fn git_error_message(e: GitErrorV) -> Seq<char> {
    match e {
        GitErrorV::DecodePath => "decode git path"@,
        GitErrorV::DecodeIndexEntry => "decode git index entry"@,
        GitErrorV::IndexEntryFormat(text) => "parse git index entry: "@ + text,
        GitErrorV::MissingMode => "parse git index mode"@,
        GitErrorV::MissingSha => "parse git index sha"@,
        GitErrorV::MissingStage => "parse git index stage"@,
        GitErrorV::StageNumber => "parse git index stage number"@,
        GitErrorV::DecodeOutput => "decode git output"@,
    }
}

// ---------------------------------------------------------------------------
// NUL-separated lists
// ---------------------------------------------------------------------------

/// The non-empty records between NUL bytes.
pub open spec fn nul_records(b: Seq<u8>) -> Seq<Seq<u8>> {
    byte_pieces(b, 0).filter(|p: Seq<u8>| p.len() > 0)
}

/// The texts of NUL-separated UTF-8 records; `None` where one is not UTF-8.
pub open spec fn decode_records(rs: Seq<Seq<u8>>) -> Option<Seq<Seq<char>>>
    decreases rs.len(),
{
    if rs.len() == 0 {
        Some(Seq::empty())
    } else {
        match decode_records(rs.drop_last()) {
            Some(prev) => if vstd::utf8::valid_utf8(rs.last()) {
                Some(prev.push(vstd::utf8::decode_utf8(rs.last())))
            } else {
                None
            },
            None => None,
        }
    }
}

proof fn lemma_decode_records_prefix(rs: Seq<Seq<u8>>, k: int)
    requires
        0 <= k <= rs.len(),
        decode_records(rs.subrange(0, k)) is None,
    ensures
        decode_records(rs) is None,
    decreases rs.len() - k,
{
    if k < rs.len() {
        assert(rs.subrange(0, k + 1).drop_last() =~= rs.subrange(0, k));
        lemma_decode_records_prefix(rs, k + 1);
    } else {
        assert(rs.subrange(0, k) =~= rs);
    }
}

/// The non-empty NUL-separated records of `bytes`.
pub fn records(bytes: &[u8]) -> (r: Vec<Vec<u8>>)
    ensures
        r.deep_view() == nul_records(bytes@),
{
    let pieces = split_bytes(bytes, 0);
    let ghost pv = byte_pieces(bytes@, 0);
    let mut out: Vec<Vec<u8>> = Vec::new();
    let mut i: usize = 0;
    while i < pieces.len()
        invariant
            i <= pieces.len(),
            pv == byte_pieces(bytes@, 0),
            pieces@.len() == pv.len(),
            forall|j: int| 0 <= j < pieces@.len() ==> #[trigger] pieces@[j]@ == pv[j],
            out.deep_view() == pv.subrange(0, i as int).filter(|p: Seq<u8>| p.len() > 0),
        decreases pieces.len() - i,
    {
        reveal_with_fuel(Seq::<_>::filter, 1);
        assert(pv.subrange(0, i + 1).drop_last() =~= pv.subrange(0, i as int));
        let ghost prev = out.deep_view();
        if pieces[i].len() > 0 {
            let p = pieces[i].clone();
            assert(p@ == pieces@[i as int]@);
            assert(p.deep_view() =~= p@);
            out.push(p);
            assert(out.deep_view() =~= prev.push(pv[i as int]));
        }
        i = i + 1;
    }
    assert(pv.subrange(0, pv.len() as int) =~= pv);
    out
}

/// The NUL-separated paths that git prints with `-z`.
pub fn nul_strings(bytes: &[u8]) -> (r: Result<Vec<String>, GitError>)
    ensures
        match r {
            Ok(v) => decode_records(nul_records(bytes@)) == Some(strings_view(v@)),
            Err(e) => decode_records(nul_records(bytes@)) is None && e == GitError::DecodePath,
        },
{
    let rs = records(bytes);
    let ghost rv = rs.deep_view();
    let mut out: Vec<String> = Vec::new();
    let mut i: usize = 0;
    while i < rs.len()
        invariant
            i <= rs.len(),
            rv == rs.deep_view(),
            rv == nul_records(bytes@),
            decode_records(rv.subrange(0, i as int)) == Some(strings_view(out@)),
        decreases rs.len() - i,
    {
        assert(rv.subrange(0, i + 1).drop_last() =~= rv.subrange(0, i as int));
        assert(rv[i as int] =~= rs@[i as int]@);
        match decode_utf8(rs[i].as_slice()) {
            Some(s) => {
                let ghost prev = out@;
                out.push(s);
                assert(strings_view(out@) =~= strings_view(prev).push(out@.last()@));
            },
            None => {
                proof {
                    lemma_decode_records_prefix(rv, i + 1);
                }
                return Err(GitError::DecodePath);
            },
        }
        i = i + 1;
    }
    assert(rv.subrange(0, rv.len() as int) =~= rv);
    Ok(out)
}

// ---------------------------------------------------------------------------
// Index entries
// ---------------------------------------------------------------------------

/// An entry of the index, as `git ls-files -s` prints it.
#[derive(Debug, Clone, PartialEq, Eq)]
pub struct IndexEntry {
    pub mode: String,
    pub sha: String,
    pub stage: u8,
    pub path: String,
}

pub struct IndexEntryV {
    pub mode: Seq<char>,
    pub sha: Seq<char>,
    pub stage: u8,
    pub path: Seq<char>,
}

impl View for IndexEntry {
    type V = IndexEntryV;

    open spec fn view(&self) -> IndexEntryV {
        IndexEntryV { mode: self.mode@, sha: self.sha@, stage: self.stage, path: self.path@ }
    }
}

/// The index of the first `c` in `s`, if any.
pub open spec fn first_index_of(s: Seq<char>, c: char) -> Option<int>
    decreases s.len(),
{
    if s.len() == 0 {
        None
    } else if s[0] == c {
        Some(0)
    } else {
        match first_index_of(s.drop_first(), c) {
            Some(i) => Some(i + 1),
            None => None,
        }
    }
}

proof fn lemma_first_index_of(s: Seq<char>, c: char, i: int)
    requires
        0 <= i <= s.len(),
        forall|j: int| 0 <= j < i ==> s[j] != c,
        i < s.len() ==> s[i] == c,
    ensures
        first_index_of(s, c) == (if i < s.len() {
            Some(i)
        } else {
            None::<int>
        }),
    decreases i,
{
    if i > 0 {
        lemma_first_index_of(s.drop_first(), c, i - 1);
    }
}

/// The whitespace-separated words of `s`, as `str::split_whitespace`
/// yields them.
pub open spec fn words(s: Seq<char>) -> Seq<Seq<char>>
    decreases s.len(),
{
    if s.len() == 0 {
        Seq::empty()
    } else {
        let prev = words(s.drop_last());
        let c = s.last();
        if is_ws(c) {
            prev
        } else if s.len() >= 2 && !is_ws(s[s.len() - 2]) && prev.len() > 0 {
            prev.update(prev.len() - 1, prev.last().push(c))
        } else {
            prev.push(seq![c])
        }
    }
}

/// `str::split_whitespace` on characters.
pub fn split_words(s: &[char]) -> (r: Vec<Vec<char>>)
    ensures
        r.deep_view() == words(s@),
{
    let mut out: Vec<Vec<char>> = Vec::new();
    let mut i: usize = 0;
    while i < s.len()
        invariant
            i <= s.len(),
            out.deep_view() == words(s@.subrange(0, i as int)),
        decreases s.len() - i,
    {
        let c = s[i];
        let ghost pre = s@.subrange(0, i + 1);
        assert(pre.drop_last() =~= s@.subrange(0, i as int));
        assert(pre.last() == c);
        let ghost prev = out.deep_view();
        if crate::text::is_whitespace(c) {
        } else if i >= 1 && !crate::text::is_whitespace(s[i - 1]) && out.len() > 0 {
            let last = out.len() - 1;
            let mut w = out.pop().unwrap();
            let ghost wv = w@;
            assert(wv == prev.last()) by {
                assert(prev[last as int] =~= wv);
            }
            w.push(c);
            assert(w.deep_view() =~= wv.push(c));
            out.push(w);
            assert(pre[i - 1] == s@[i - 1]);
            assert(out.deep_view() =~= prev.update(prev.len() - 1, prev.last().push(c)));
        } else {
            let mut w: Vec<char> = Vec::new();
            w.push(c);
            assert(w.deep_view() =~= seq![c]);
            out.push(w);
            proof {
                if i >= 1 {
                    assert(pre[i - 1] == s@[i - 1]);
                }
            }
            assert(out.deep_view() =~= prev.push(seq![c]));
        }
        i = i + 1;
    }
    assert(s@.subrange(0, s@.len() as int) =~= s@);
    out
}

/// `u8::from_str`: an optional `+`, then decimal digits worth at most 255.
pub open spec fn parse_u8(s: Seq<char>) -> Option<u8> {
    let digits = if s.len() > 0 && s[0] == '+' {
        s.drop_first()
    } else {
        s
    };
    match parse_decimal(digits, 255) {
        Some(v) => Some(v as u8),
        None => None,
    }
}

fn parse_stage(s: &[char]) -> (r: Option<u8>)
    ensures
        r == parse_u8(s@),
{
    let digits = if s.len() > 0 && s[0] == '+' {
        crate::text::slice_range(s, 1, s.len())
    } else {
        crate::text::slice_range(s, 0, s.len())
    };
    assert(s@.subrange(0, s@.len() as int) =~= s@);
    assert(s@.len() > 0 ==> s@.subrange(1, s@.len() as int) =~= s@.drop_first());
    match parse_digits(digits.as_slice(), 255) {
        Some(v) => Some(v as u8),
        None => None,
    }
}

/// An index entry read from its record: `mode sha stage\tpath`, the fields
/// before the tab separated by whitespace.
pub open spec fn index_entry_of(record: Seq<u8>) -> Result<IndexEntryV, GitErrorV> {
    if !vstd::utf8::valid_utf8(record) {
        Err(GitErrorV::DecodeIndexEntry)
    } else {
        let text = vstd::utf8::decode_utf8(record);
        match first_index_of(text, '\t') {
            None => Err(GitErrorV::IndexEntryFormat(text)),
            Some(t) => {
                let fields = words(text.subrange(0, t));
                if fields.len() < 1 {
                    Err(GitErrorV::MissingMode)
                } else if fields.len() < 2 {
                    Err(GitErrorV::MissingSha)
                } else if fields.len() < 3 {
                    Err(GitErrorV::MissingStage)
                } else {
                    match parse_u8(fields[2]) {
                        None => Err(GitErrorV::StageNumber),
                        Some(stage) => Ok(
                            IndexEntryV {
                                mode: fields[0],
                                sha: fields[1],
                                stage: stage,
                                path: text.subrange(t + 1, text.len() as int),
                            },
                        ),
                    }
                }
            },
        }
    }
}

/// Reads an index entry from its record.
pub fn parse_index_entry(record: &[u8]) -> (r: Result<IndexEntry, GitError>)
    ensures
        match r {
            Ok(e) => index_entry_of(record@) == Ok::<IndexEntryV, GitErrorV>(e@),
            Err(e) => index_entry_of(record@) == Err::<IndexEntryV, GitErrorV>(e@),
        },
{
    let text = match decode_utf8(record) {
        Some(t) => t,
        None => return Err(GitError::DecodeIndexEntry),
    };
    let chars = chars_of(text.as_str());
    let mut t: usize = 0;
    while t < chars.len() && chars[t] != '\t'
        invariant
            t <= chars.len(),
            forall|j: int| 0 <= j < t ==> chars@[j] != '\t',
        decreases chars.len() - t,
    {
        t = t + 1;
    }
    proof {
        lemma_first_index_of(chars@, '\t', t as int);
    }
    if t == chars.len() {
        return Err(GitError::IndexEntryFormat(text));
    }
    let meta = crate::text::slice_range(chars.as_slice(), 0, t);
    let fields = split_words(meta.as_slice());
    if fields.len() < 1 {
        return Err(GitError::MissingMode);
    }
    if fields.len() < 2 {
        return Err(GitError::MissingSha);
    }
    if fields.len() < 3 {
        return Err(GitError::MissingStage);
    }
    assert(fields.deep_view()[2] =~= fields@[2]@);
    let stage = match parse_stage(fields[2].as_slice()) {
        Some(s) => s,
        None => return Err(GitError::StageNumber),
    };
    let path = crate::text::slice_range(chars.as_slice(), t + 1, chars.len());
    let e = IndexEntry {
        mode: string_from(fields[0].as_slice()),
        sha: string_from(fields[1].as_slice()),
        stage,
        path: string_from(path.as_slice()),
    };
    assert(fields.deep_view()[0] =~= fields@[0]@);
    assert(fields.deep_view()[1] =~= fields@[1]@);
    Ok(e)
}

/// The entries of `git ls-files -s -z` output; the first record that does
/// not read as an entry is the error.
pub open spec fn index_entries_of(rs: Seq<Seq<u8>>) -> Result<Seq<IndexEntryV>, GitErrorV>
    decreases rs.len(),
{
    if rs.len() == 0 {
        Ok(Seq::empty())
    } else {
        match index_entries_of(rs.drop_last()) {
            Ok(prev) => match index_entry_of(rs.last()) {
                Ok(e) => Ok(prev.push(e)),
                Err(e) => Err(e),
            },
            Err(e) => Err(e),
        }
    }
}

proof fn lemma_index_entries_prefix(rs: Seq<Seq<u8>>, k: int)
    requires
        0 <= k <= rs.len(),
        index_entries_of(rs.subrange(0, k)) is Err,
    ensures
        index_entries_of(rs) == index_entries_of(rs.subrange(0, k)),
    decreases rs.len() - k,
{
    if k < rs.len() {
        assert(rs.subrange(0, k + 1).drop_last() =~= rs.subrange(0, k));
        lemma_index_entries_prefix(rs, k + 1);
    } else {
        assert(rs.subrange(0, k) =~= rs);
    }
}

pub open spec fn entries_view(v: Seq<IndexEntry>) -> Seq<IndexEntryV> {
    v.map_values(|e: IndexEntry| e@)
}

/// Reads the index entries that `git ls-files -s -z` printed.
pub fn index_entries(output: &[u8]) -> (r: Result<Vec<IndexEntry>, GitError>)
    ensures
        match r {
            Ok(v) => index_entries_of(nul_records(output@)) == Ok::<Seq<IndexEntryV>, GitErrorV>(
                entries_view(v@),
            ),
            Err(e) => index_entries_of(nul_records(output@)) == Err::<Seq<IndexEntryV>, GitErrorV>(
                e@,
            ),
        },
{
    let rs = records(output);
    let ghost rv = rs.deep_view();
    let mut out: Vec<IndexEntry> = Vec::new();
    assert(entries_view(out@) =~= Seq::<IndexEntryV>::empty());
    let mut i: usize = 0;
    while i < rs.len()
        invariant
            i <= rs.len(),
            rv == rs.deep_view(),
            rv == nul_records(output@),
            index_entries_of(rv.subrange(0, i as int)) == Ok::<Seq<IndexEntryV>, GitErrorV>(
                entries_view(out@),
            ),
        decreases rs.len() - i,
    {
        assert(rv.subrange(0, i + 1).drop_last() =~= rv.subrange(0, i as int));
        assert(rv[i as int] =~= rs@[i as int]@);
        match parse_index_entry(rs[i].as_slice()) {
            Ok(e) => {
                let ghost prev = out@;
                out.push(e);
                assert(entries_view(out@) =~= entries_view(prev).push(out@.last()@));
            },
            Err(e) => {
                proof {
                    lemma_index_entries_prefix(rv, i + 1);
                }
                return Err(e);
            },
        }
        i = i + 1;
    }
    assert(rv.subrange(0, rv.len() as int) =~= rv);
    Ok(out)
}

// ---------------------------------------------------------------------------
// Commands and their input and output
// ---------------------------------------------------------------------------

fn push_strings(out: &mut Vec<String>, items: &[String])
    ensures
        strings_view(final(out)@) == strings_view(old(out)@) + strings_view(items@),
{
    let ghost start = strings_view(out@);
    let mut i: usize = 0;
    while i < items.len()
        invariant
            i <= items.len(),
            strings_view(out@) == start + strings_view(items@).subrange(0, i as int),
        decreases items.len() - i,
    {
        let ghost prev = out@;
        out.push(items[i].clone());
        assert(strings_view(out@) =~= strings_view(prev).push(items@[i as int]@));
        i = i + 1;
        assert(strings_view(out@) =~= start + strings_view(items@).subrange(0, i as int));
    }
    assert(strings_view(items@).subrange(0, items.len() as int) =~= strings_view(items@));
}

fn lit(s: &str) -> (r: String)
    ensures
        r@ == s@,
{
    string_from(chars_of(s).as_slice())
}

/// The arguments of `git diff --cached --name-only -z --diff-filter=..`
/// for the given path patterns.
pub fn staged_paths_args(diff_filter: &str, patterns: &[String]) -> (r: Vec<String>)
    ensures
        strings_view(r@) == seq![
            "diff"@,
            "--cached"@,
            "--name-only"@,
            "-z"@,
            "--diff-filter="@ + diff_filter@,
            "--"@,
        ] + strings_view(patterns@),
{
    let mut args: Vec<String> = Vec::new();
    args.push(lit("diff"));
    args.push(lit("--cached"));
    args.push(lit("--name-only"));
    args.push(lit("-z"));
    let mut f = chars_of("--diff-filter=");
    crate::text::push_all(&mut f, chars_of(diff_filter).as_slice());
    args.push(string_from(f.as_slice()));
    args.push(lit("--"));
    let ghost head = strings_view(args@);
    assert(head =~= seq![
        "diff"@,
        "--cached"@,
        "--name-only"@,
        "-z"@,
        "--diff-filter="@ + diff_filter@,
        "--"@,
    ]);
    push_strings(&mut args, patterns);
    args
}

/// The arguments of `git ls-files -s -z` for the given paths.
pub fn index_entries_args(paths: &[String]) -> (r: Vec<String>)
    ensures
        strings_view(r@) == seq!["ls-files"@, "-s"@, "-z"@, "--"@] + strings_view(paths@),
{
    let mut args: Vec<String> = Vec::new();
    args.push(lit("ls-files"));
    args.push(lit("-s"));
    args.push(lit("-z"));
    args.push(lit("--"));
    assert(strings_view(args@) =~= seq!["ls-files"@, "-s"@, "-z"@, "--"@]);
    push_strings(&mut args, paths);
    args
}

/// The arguments of `git diff --name-only -z` for the given paths.
pub fn dirty_paths_args(paths: &[String]) -> (r: Vec<String>)
    ensures
        strings_view(r@) == seq!["diff"@, "--name-only"@, "-z"@, "--"@] + strings_view(paths@),
{
    let mut args: Vec<String> = Vec::new();
    args.push(lit("diff"));
    args.push(lit("--name-only"));
    args.push(lit("-z"));
    args.push(lit("--"));
    assert(strings_view(args@) =~= seq!["diff"@, "--name-only"@, "-z"@, "--"@]);
    push_strings(&mut args, paths);
    args
}

/// One line of `git update-index -z --index-info` input.
pub open spec fn index_info_line(mode: Seq<char>, sha: Seq<char>, path: Seq<char>) -> Seq<u8> {
    vstd::utf8::encode_utf8(mode) + seq![32u8] + vstd::utf8::encode_utf8(sha) + seq![9u8]
        + vstd::utf8::encode_utf8(path) + seq![0u8]
}

pub open spec fn index_info_of(entries: Seq<(Seq<char>, Seq<char>, Seq<char>)>) -> Seq<u8> {
    join_all(entries.map_values(|e: (Seq<char>, Seq<char>, Seq<char>)| index_info_line(e.0, e.1, e.2)))
}

pub open spec fn triples_view(v: Seq<(String, String, String)>) -> Seq<(Seq<char>, Seq<char>, Seq<char>)> {
    v.map_values(|e: (String, String, String)| (e.0@, e.1@, e.2@))
}

fn push_bytes(out: &mut Vec<u8>, b: &[u8])
    ensures
        final(out)@ == old(out)@ + b@,
{
    let mut i: usize = 0;
    while i < b.len()
        invariant
            i <= b.len(),
            out@ == old(out)@ + b@.subrange(0, i as int),
        decreases b.len() - i,
    {
        out.push(b[i]);
        i = i + 1;
        assert(out@ =~= old(out)@ + b@.subrange(0, i as int));
    }
    assert(b@.subrange(0, b@.len() as int) =~= b@);
}

/// The input of `git update-index -z --index-info` that stages each
/// `(mode, sha, path)`.
pub fn update_index_input(entries: &[(String, String, String)]) -> (r: Vec<u8>)
    ensures
        r@ == index_info_of(triples_view(entries@)),
{
    let ghost ls = triples_view(entries@).map_values(
        |e: (Seq<char>, Seq<char>, Seq<char>)| index_info_line(e.0, e.1, e.2),
    );
    let mut out: Vec<u8> = Vec::new();
    let mut i: usize = 0;
    while i < entries.len()
        invariant
            i <= entries.len(),
            ls == triples_view(entries@).map_values(
                |e: (Seq<char>, Seq<char>, Seq<char>)| index_info_line(e.0, e.1, e.2),
            ),
            out@ == join_all(ls.subrange(0, i as int)),
        decreases entries.len() - i,
    {
        let ghost prev = out@;
        let (mode, sha, path) = &entries[i];
        push_bytes(&mut out, mode.as_str().as_bytes());
        out.push(32u8);
        push_bytes(&mut out, sha.as_str().as_bytes());
        out.push(9u8);
        push_bytes(&mut out, path.as_str().as_bytes());
        out.push(0u8);
        assert(out@ =~= prev + index_info_line(mode@, sha@, path@));
        assert(ls.subrange(0, i + 1).drop_last() =~= ls.subrange(0, i as int));
        i = i + 1;
    }
    assert(ls.subrange(0, ls.len() as int) =~= ls);
    out
}

/// Output of git read as one UTF-8 value without its trailing whitespace
/// (a repository root, an object name).
pub fn trimmed_output(bytes: &[u8]) -> (r: Result<String, GitError>)
    ensures
        match r {
            Ok(s) => vstd::utf8::valid_utf8(bytes@) && s@ == trim_end(
                vstd::utf8::decode_utf8(bytes@),
            ),
            Err(e) => !vstd::utf8::valid_utf8(bytes@) && e == GitError::DecodeOutput,
        },
{
    match decode_utf8(bytes) {
        Some(text) => {
            let t = trim_end_chars(chars_of(text.as_str()).as_slice());
            Ok(string_from(t.as_slice()))
        },
        None => Err(GitError::DecodeOutput),
    }
}

} // verus!
