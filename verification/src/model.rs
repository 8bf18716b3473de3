//! A model of the tree that a walk reads, and the walk described over it:
//! which directories it reports, in which order, and whether it fails.

use crate::matcher::{is_ignored, matcher_of, WalkError};
use crate::path::{exclusion, PathSpec};
use crate::walk::{is_candidate, marker_name, EntrySpec};
use ignore::gitignore::{Gitignore, GitignoreBuilder};
use vstd::prelude::*;

verus! {

/// A directory as the walk may come to see it.
pub struct DirTree {
    /// The names of which the directory holds a file.
    pub present: Set<Seq<char>>,
    /// The rules of its ignore-file, where it has one.
    pub rules: Option<GitignoreBuilder>,
    /// Its entries in the order in which they are listed, or nothing where
    /// the directory cannot be read.
    pub listing: Option<Seq<TreeEntry>>,
}

/// One entry of a directory.
pub struct TreeEntry {
    pub name: Seq<char>,
    /// What the entry holds, where it is a directory.
    pub dir: Option<DirTree>,
}

/// What a walk, or a part of one, brings about.
pub struct Outcome {
    /// The directories reported, in the order of the reports.
    pub reports: Seq<PathSpec>,
    /// Why the walk ended early, where it did.
    pub failure: Option<WalkError>,
}

impl Outcome {
    /// No report and no failure.
    pub open spec fn nothing() -> Outcome {
        Outcome { reports: Seq::empty(), failure: None }
    }

    /// The report of one directory.
    pub open spec fn report(dir: PathSpec) -> Outcome {
        Outcome { reports: seq![dir], failure: None }
    }

    /// A failure before any report.
    pub open spec fn failed(error: WalkError) -> Outcome {
        Outcome { reports: Seq::empty(), failure: Some(error) }
    }

    /// This part of the walk, then `next`, unless this part failed.
    pub open spec fn followed_by(self, next: Outcome) -> Outcome {
        if self.failure is Some {
            self
        } else {
            Outcome { reports: self.reports + next.reports, failure: next.failure }
        }
    }
}

/// How the walk sees an entry of the tree.
pub open spec fn entry_of(entry: TreeEntry) -> EntrySpec {
    EntrySpec { name: entry.name, is_dir: entry.dir is Some }
}

/// How the walk sees the entries of a directory.
pub open spec fn entries_of(entries: Seq<TreeEntry>) -> Seq<EntrySpec> {
    Seq::new(entries.len(), |i: int| entry_of(entries[i]))
}

/// The directory holds one of the marker files.
pub open spec fn has_marker(node: DirTree) -> bool {
    node.present.contains(marker_name(0)) || node.present.contains(marker_name(1))
}

/// The stack with the directory's own matcher on top, where it has one.
pub open spec fn extended(stack: Seq<Gitignore>, own: Option<Gitignore>) -> Seq<Gitignore> {
    match own {
        Some(matcher) => stack.push(matcher),
        None => stack,
    }
}

/// The walk of the directory `dir`, which holds `node`, with the excluded
/// paths and the matchers that its parent hands down.
///
/// An excluded directory is passed over in silence. One that holds a marker
/// is passed over too. One that a matcher on the stack ignores is reported,
/// and not entered. Any other is entered: its own rules go on the stack, and
/// its entries are walked in turn with the excluded paths that lie inside it.
pub open spec fn visit(
    node: DirTree,
    dir: PathSpec,
    excluded: Seq<PathSpec>,
    stack: Seq<Gitignore>,
) -> Outcome
    decreases node, 3nat, 0nat,
{
    match exclusion(dir, excluded) {
        None => Outcome::nothing(),
        Some(kept) => evaluate(node, dir, kept, stack),
    }
}

/// The walk of a directory that is not excluded.
pub open spec fn evaluate(
    node: DirTree,
    dir: PathSpec,
    kept: Seq<PathSpec>,
    stack: Seq<Gitignore>,
) -> Outcome
    decreases node, 2nat, 0nat,
{
    if has_marker(node) {
        Outcome::nothing()
    } else if is_ignored(stack, dir) {
        Outcome::report(dir)
    } else {
        descend(node, dir, kept, stack)
    }
}

/// The walk of a directory that is entered. Rules that do not compile end
/// the whole walk.
pub open spec fn descend(
    node: DirTree,
    dir: PathSpec,
    kept: Seq<PathSpec>,
    stack: Seq<Gitignore>,
) -> Outcome
    decreases node, 1nat, 0nat,
{
    match matcher_of(node.rules) {
        Err(error) => Outcome::failed(error),
        Ok(own) => visit_from(node, 0, dir, kept, extended(stack, own)),
    }
}

/// The walk of the entries of `node` from the index `from` on. A directory
/// that cannot be read has none. Only directories are walked, and never the
/// one of version control. After a failure nothing more is walked.
pub open spec fn visit_from(
    node: DirTree,
    from: nat,
    dir: PathSpec,
    kept: Seq<PathSpec>,
    stack: Seq<Gitignore>,
) -> Outcome
    decreases node, 0nat, (match node.listing {
        Some(entries) => entries.len() - from,
        None => 0,
    }),
{
    match node.listing {
        None => Outcome::nothing(),
        Some(entries) => {
            if from >= entries.len() {
                Outcome::nothing()
            } else {
                let entry = entries[from as int];
                let first = match entry.dir {
                    Some(child) => {
                        if is_candidate(entry_of(entry)) {
                            visit(child, dir.push(entry.name), kept, stack)
                        } else {
                            Outcome::nothing()
                        }
                    },
                    None => Outcome::nothing(),
                };
                first.followed_by(visit_from(node, from + 1, dir, kept, stack))
            }
        },
    }
}

/// A directory of the tree together with what the walk brings to it.
pub struct Position {
    pub node: DirTree,
    pub dir: PathSpec,
    pub excluded: Seq<PathSpec>,
    pub stack: Seq<Gitignore>,
}

/// The walk that starts at a position.
pub open spec fn visit_at(at: Position) -> Outcome {
    visit(at.node, at.dir, at.excluded, at.stack)
}

/// Whether the walk enters the directory at this position.
pub open spec fn enters(at: Position) -> bool {
    &&& !crate::path::is_excluded(at.dir, at.excluded)
    &&& !has_marker(at.node)
    &&& !is_ignored(at.stack, at.dir)
    &&& matcher_of(at.node.rules) is Ok
    &&& at.node.listing is Some
}

/// The position of the entry of index `index`, where the walk enters the
/// directory at `at` and walks that entry.
pub open spec fn step_down(at: Position, index: int) -> Option<Position> {
    if enters(at) && 0 <= index < at.node.listing->0.len() && is_candidate(
        entry_of(at.node.listing->0[index]),
    ) {
        let entry = at.node.listing->0[index];
        Some(
            Position {
                node: entry.dir->0,
                dir: at.dir.push(entry.name),
                excluded: exclusion(at.dir, at.excluded)->0,
                stack: extended(at.stack, matcher_of(at.node.rules)->Ok_0),
            },
        )
    } else {
        None
    }
}

/// The position that the walk from `at` visits along `route`, a sequence of
/// entry indices, where every directory on the way is entered.
pub open spec fn reach(at: Position, route: Seq<int>) -> Option<Position>
    decreases route.len(),
{
    if route.len() == 0 {
        Some(at)
    } else {
        match step_down(at, route[0]) {
            Some(child) => reach(child, route.drop_first()),
            None => None,
        }
    }
}

} // verus!
