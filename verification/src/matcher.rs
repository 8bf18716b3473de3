//! The ignore rules of one directory, compiled by the `ignore` crate, and the
//! question that the walk asks of them: do the rules on the stack ignore this
//! directory?

use crate::path::{DirPath, PathSpec};
use ignore::gitignore::{Gitignore, GitignoreBuilder};
use ignore::Match;
use std::path::PathBuf;
use vstd::prelude::*;

verus! {

/// The compiled rules of one ignore-file. Opaque here: only `matched` reads it.
#[verifier::external_type_specification]
#[verifier::external_body]
pub struct ExGitignore(ignore::gitignore::Gitignore);

/// The rules of one ignore-file as they were read, not yet compiled.
#[verifier::external_type_specification]
#[verifier::external_body]
pub struct ExGitignoreBuilder(ignore::gitignore::GitignoreBuilder);

/// Why a set of rules could not be compiled.
#[verifier::external_type_specification]
#[verifier::external_body]
pub struct ExIgnoreError(ignore::Error);

/// What one set of rules says of a path.
#[derive(Clone, Copy, Debug, PartialEq, Eq, Structural)]
pub enum Verdict {
    /// No rule matches the path.
    Unmatched,
    /// The rule of highest precedence that matches asks to ignore the path.
    Ignored,
    /// The rule of highest precedence that matches is a negated one.
    Allowed,
}

/// Why a walk ended early.
#[derive(Debug)]
pub enum WalkError {
    /// The rules of a directory could not be compiled.
    MatcherBuild(ignore::Error),
    /// The caller answered something that the walk had not asked.
    UnexpectedEvent,
}

/// What `Gitignore::matched` says of the path with these components under
/// `matcher`, where `is_dir` tells whether the path is a directory. Nothing
/// is said here of which paths a given set of rules matches: that is the
/// business of the `ignore` crate.
pub uninterp spec fn match_verdict(matcher: Gitignore, path: PathSpec, is_dir: bool) -> Verdict;

/// What `GitignoreBuilder::build` makes of `builder`: the matcher for the
/// rules that were added to it, or the reason why they do not compile.
pub uninterp spec fn build_outcome(builder: GitignoreBuilder) -> Result<Gitignore, ignore::Error>;

/// `Gitignore::matched` on the path with these components. The matcher's
/// three answers come back as the three verdicts; which glob matched is
/// dropped. Trusted: the call returns, and its answer depends on the
/// matcher, the path and `is_dir` alone.
#[verifier::external_body]
pub(crate) fn matched(matcher: &Gitignore, path: &DirPath, is_dir: bool) -> (verdict: Verdict)
    ensures
        verdict == match_verdict(*matcher, path@, is_dir),
{
    let path: PathBuf = path.components.iter().collect();
    match matcher.matched(&path, is_dir) {
        Match::None => Verdict::Unmatched,
        Match::Ignore(_) => Verdict::Ignored,
        Match::Whitelist(_) => Verdict::Allowed,
    }
}

/// `GitignoreBuilder::build`: compiles the rules added so far, or says why
/// they cannot be compiled. Trusted: the call returns, and whether it
/// succeeds, with which error it fails, and what the matcher it gives says
/// of any path depend on the builder alone.
#[verifier::external_body]
pub(crate) fn build(builder: &GitignoreBuilder) -> (outcome: Result<Gitignore, ignore::Error>)
    ensures
        outcome == build_outcome(*builder),
{
    builder.build()
}

impl Verdict {
    /// Whether the verdict asks to ignore the path. A negated rule does not,
    /// and neither does the absence of a match.
    pub fn is_ignore(&self) -> (yes: bool)
        ensures
            yes == (*self == Verdict::Ignored),
    {
        match self {
            Verdict::Ignored => true,
            Verdict::Unmatched => false,
            Verdict::Allowed => false,
        }
    }
}

/// `matcher` asks to ignore the directory `dir`.
pub open spec fn ignores(matcher: Gitignore, dir: PathSpec) -> bool {
    match_verdict(matcher, dir, true) == Verdict::Ignored
}

/// Some matcher on the stack asks to ignore the directory `dir`.
pub open spec fn is_ignored(stack: Seq<Gitignore>, dir: PathSpec) -> bool {
    exists|i: int| 0 <= i < stack.len() && ignores(#[trigger] stack[i], dir)
}

/// The matcher that a directory contributes: none where it has no rules,
/// else what compiling them gives.
pub open spec fn matcher_of(rules: Option<GitignoreBuilder>) -> Result<Option<Gitignore>, WalkError> {
    match rules {
        None => Ok(None),
        Some(builder) => own_matcher_of(build_outcome(builder)),
    }
}

/// How the outcome of a compilation is read: a failure ends the walk.
pub open spec fn own_matcher_of(outcome: Result<Gitignore, ignore::Error>) -> Result<
    Option<Gitignore>,
    WalkError,
> {
    match outcome {
        Ok(matcher) => Ok(Some(matcher)),
        Err(error) => Err(WalkError::MatcherBuild(error)),
    }
}

/// Tests the directory `dir` against every matcher on the stack.
pub fn ignored_by_any(stack: &Vec<Gitignore>, dir: &DirPath) -> (yes: bool)
    ensures
        yes == is_ignored(stack@, dir@),
{
    let mut i: usize = 0;
    while i < stack.len()
        invariant
            i <= stack.len(),
            forall|k: int| 0 <= k < i ==> !ignores(#[trigger] stack@[k], dir@),
        decreases stack.len() - i,
    {
        if matched(&stack[i], dir, true).is_ignore() {
            assert(ignores(stack@[i as int], dir@));
            return true;
        }
        i += 1;
    }
    false
}

/// Reads the outcome of compiling a directory's rules.
pub fn own_matcher(outcome: Result<Gitignore, ignore::Error>) -> (built: Result<
    Option<Gitignore>,
    WalkError,
>)
    ensures
        built == own_matcher_of(outcome),
{
    match outcome {
        Ok(matcher) => Ok(Some(matcher)),
        Err(error) => Err(WalkError::MatcherBuild(error)),
    }
}

/// The matcher for a directory whose ignore-file held `rules`, if it had one.
pub fn maybe_build_gitignore(rules: Option<GitignoreBuilder>) -> (built: Result<
    Option<Gitignore>,
    WalkError,
>)
    ensures
        built == matcher_of(rules),
{
    match rules {
        None => Ok(None),
        Some(builder) => own_matcher(build(&builder)),
    }
}

} // verus!
