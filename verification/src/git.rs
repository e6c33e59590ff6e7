//! Creation and update dates of a source, from what `git log` prints.
use vstd::prelude::*;
use crate::external::{decode_lossy, utf8_lossy};
use crate::frontmatter::{lines, lines_of};
use crate::text::{trim, trim_text, views};

verus! {

/// Why no dates could be had for a source.
#[derive(Debug)]
pub enum GitError {
    /// `git` ran and failed; its standard error, trimmed.
    CommandFailed(String),
    /// `git log` knows no commit that touched the source.
    NoHistory(String),
}

/// What a finished `git` command gives: its standard output, decoded and
/// trimmed, when it succeeded; else its standard error, decoded and trimmed,
/// as the reason it failed.
pub fn git_command_output(success: bool, stdout: &[u8], stderr: &[u8]) -> (r: Result<
    String,
    GitError,
>)
    ensures
        success ==> (r matches Ok(out) && out@ == trim(utf8_lossy(stdout@))),
        !success ==> (r matches Err(GitError::CommandFailed(msg)) && msg@ == trim(
            utf8_lossy(stderr@),
        )),
{
    if success {
        let text = decode_lossy(stdout);
        Ok(trim_text(text.as_str()))
    } else {
        let text = decode_lossy(stderr);
        Err(GitError::CommandFailed(trim_text(text.as_str())))
    }
}

/// The arguments of the `git` command that prints when a source was last
/// changed.
pub open spec fn updated_at_args(source: Seq<char>) -> Seq<Seq<char>> {
    seq!["log"@, "-1"@, "--format=%cI"@, "--"@, source]
}

/// The arguments of the `git` command that prints when a source was added,
/// following renames.
pub open spec fn created_at_args(source: Seq<char>) -> Seq<Seq<char>> {
    seq!["log"@, "--diff-filter=A"@, "--follow"@, "--format=%cI"@, "--"@, source]
}

/// The arguments of `git log -1 --format=%cI -- <source>`.
pub fn updated_at_command(source: &str) -> (args: Vec<String>)
    ensures
        views(args@) == updated_at_args(source@),
{
    let mut args: Vec<String> = Vec::new();
    args.push(String::from_str("log"));
    args.push(String::from_str("-1"));
    args.push(String::from_str("--format=%cI"));
    args.push(String::from_str("--"));
    args.push(String::from_str(source));
    assert(views(args@) =~= updated_at_args(source@));
    args
}

/// The arguments of `git log --diff-filter=A --follow --format=%cI -- <source>`.
pub fn created_at_command(source: &str) -> (args: Vec<String>)
    ensures
        views(args@) == created_at_args(source@),
{
    let mut args: Vec<String> = Vec::new();
    args.push(String::from_str("log"));
    args.push(String::from_str("--diff-filter=A"));
    args.push(String::from_str("--follow"));
    args.push(String::from_str("--format=%cI"));
    args.push(String::from_str("--"));
    args.push(String::from_str(source));
    assert(views(args@) =~= created_at_args(source@));
    args
}

/// A source has history when `git log` printed a date for its last change;
/// otherwise the source is refused.
pub fn check_git_history(source: &str, updated_at: &str) -> (r: Result<(), GitError>)
    ensures
        updated_at@.len() > 0 ==> r is Ok,
        updated_at@.len() == 0 ==> (r matches Err(GitError::NoHistory(s)) && s@ == source@),
{
    if updated_at.is_empty() {
        Err(GitError::NoHistory(String::from_str(source)))
    } else {
        Ok(())
    }
}

/// When a source was written and last changed, as ISO 8601 timestamps.
pub struct GitDates {
    pub created_at: String,
    pub updated_at: String,
}

/// The creation date: the last line that the creation command printed (its
/// oldest entry), or the update date when it printed nothing.
pub open spec fn creation_date(history: Seq<char>, updated_at: Seq<char>) -> Seq<char> {
    let ls = lines(history);
    if ls.len() == 0 {
        updated_at
    } else {
        ls.last()
    }
}

/// The dates of a source from what the two `git log` commands printed.
pub fn resolve_git_dates(updated_at: String, created_history: &str) -> (dates: GitDates)
    ensures
        dates.updated_at@ == updated_at@,
        dates.created_at@ == creation_date(created_history@, updated_at@),
{
    let mut ls = lines_of(created_history);
    let ghost vs = views(ls@);
    let created_at = match ls.pop() {
        Some(last) => {
            assert(last@ == vs.last());
            last
        },
        None => updated_at.clone(),
    };
    GitDates { created_at, updated_at }
}

} // verus!
