//! The decisions of the pre-commit hook: which staged changes need no
//! checks, and which checks run.

use vstd::prelude::*;

use crate::report::SummaryLimits;
use crate::summary::strings_view;
use crate::text::{ascii_lower, ascii_lower_seq, chars_of, ends_with, has_suffix, string_from, to_ascii_lowercase};

verus! {

/// What the pre-commit hook runs: the checks (the `all` group where none
/// are named), where their logs go, and the report limits.
#[derive(Debug, Clone)]
pub struct PreCommitOptions {
    pub checks: Vec<String>,
    pub log_dir: String,
    pub limits: SummaryLimits,
}

/// The extensions of documentation and media files.
pub open spec fn doc_media_suffixes() -> Seq<Seq<char>> {
    seq![
        ".md"@,
        ".markdown"@,
        ".avif"@,
        ".gif"@,
        ".jpeg"@,
        ".jpg"@,
        ".png"@,
        ".svg"@,
        ".webp"@,
    ]
}

/// A documentation or media path: its ASCII-lowercased form ends with one
/// of the documentation and media extensions.
pub open spec fn is_doc_or_media_path(path: Seq<char>) -> bool {
    exists|i: int|
        0 <= i < doc_media_suffixes().len() && ends_with(
            ascii_lower_seq(path),
            #[trigger] doc_media_suffixes()[i],
        )
}

pub fn is_doc_or_media(path: &str) -> (r: bool)
    ensures
        r == is_doc_or_media_path(path@),
{
    let lower = to_ascii_lowercase(chars_of(path).as_slice());
    let suffixes = [".md", ".markdown", ".avif", ".gif", ".jpeg", ".jpg", ".png", ".svg", ".webp"];
    assert(suffixes@.map_values(|s: &str| s@) =~= doc_media_suffixes());
    let mut i: usize = 0;
    while i < 9
        invariant
            i <= 9,
            lower@ == ascii_lower_seq(path@),
            suffixes@.map_values(|s: &str| s@) == doc_media_suffixes(),
            forall|j: int| 0 <= j < i ==> !ends_with(lower@, #[trigger] doc_media_suffixes()[j]),
        decreases 9 - i,
    {
        assert(doc_media_suffixes()[i as int] == suffixes@[i as int]@);
        if has_suffix(lower.as_slice(), chars_of(suffixes[i]).as_slice()) {
            return true;
        }
        i = i + 1;
    }
    false
}

proof fn lemma_ascii_lower_idempotent(p: Seq<char>)
    ensures
        ascii_lower_seq(ascii_lower_seq(p)) == ascii_lower_seq(p),
{
    assert forall|i: int| 0 <= i < p.len() implies #[trigger] ascii_lower(ascii_lower(p[i])) == ascii_lower(
        p[i],
    ) by {
        let c = p[i];
        if 65 <= c as u32 <= 90 {
            assert(ascii_lower(c) as u32 == (c as u32) + 32);
        }
    }
    assert(ascii_lower_seq(ascii_lower_seq(p)) =~= ascii_lower_seq(p));
}

/// Whether a path is documentation or media does not depend on the case of
/// its ASCII letters.
pub proof fn law_doc_or_media_ignores_case(path: Seq<char>)
    ensures
        is_doc_or_media_path(ascii_lower_seq(path)) == is_doc_or_media_path(path),
{
    lemma_ascii_lower_idempotent(path);
}

/// Only documentation and media files are staged (and at least one is).
pub open spec fn docs_or_media_only(paths: Seq<Seq<char>>) -> bool {
    paths.len() > 0 && forall|i: int| 0 <= i < paths.len() ==> is_doc_or_media_path(#[trigger] paths[i])
}

/// The checks are skipped only where every staged path is documentation or
/// media: one other path anywhere in the list, or an empty list, keeps
/// them; a non-empty list of such paths skips them.
pub proof fn law_docs_only_needs_every_path(paths: Seq<Seq<char>>)
    ensures
        forall|i: int| 0 <= i < paths.len() && !is_doc_or_media_path(#[trigger] paths[i]) ==> !docs_or_media_only(
            paths,
        ),
        paths.len() == 0 ==> !docs_or_media_only(paths),
        paths.len() > 0 && (forall|i: int| 0 <= i < paths.len() ==> is_doc_or_media_path(#[trigger] paths[i]))
            ==> docs_or_media_only(paths),
{
}

/// Whether the staged paths are documentation or media files only, in
/// which case the pre-commit checks are skipped.
pub fn staged_paths_are_docs_or_media_only(paths: &[String]) -> (r: bool)
    ensures
        r == docs_or_media_only(strings_view(paths@)),
{
    if paths.len() == 0 {
        return false;
    }
    let mut i: usize = 0;
    while i < paths.len()
        invariant
            i <= paths.len(),
            forall|j: int| 0 <= j < i ==> is_doc_or_media_path(#[trigger] strings_view(paths@)[j]),
        decreases paths.len() - i,
    {
        if !is_doc_or_media(paths[i].as_str()) {
            assert(!is_doc_or_media_path(strings_view(paths@)[i as int]));
            return false;
        }
        i = i + 1;
    }
    true
}

/// The checks the hook runs: those named, or the `all` group.
pub fn checks_to_run(checks: Vec<String>) -> (r: Vec<String>)
    ensures
        strings_view(r@) == (if checks@.len() == 0 {
            seq!["all"@]
        } else {
            strings_view(checks@)
        }),
{
    if checks.len() == 0 {
        let mut r: Vec<String> = Vec::new();
        r.push(string_from(chars_of("all").as_slice()));
        assert(strings_view(r@) =~= seq!["all"@]);
        r
    } else {
        checks
    }
}

} // verus!
