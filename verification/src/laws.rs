//! What holds of every walk, proved of its description over the model.
//!
//! The laws speak of positions: a directory of the tree together with the
//! excluded paths and the matchers that the walk brings to it. A position is
//! visited where the walk enters every directory on the way to it.

use crate::matcher::{is_ignored, matcher_of};
use crate::model::{
    enters, entry_of, extended, has_marker, reach, step_down, visit, visit_at, visit_from,
    DirTree, Outcome, Position,
};
use crate::path::{exclusion, is_excluded, narrowed, within, PathSpec};
use crate::refinement::{related, FrameCtx};
use crate::walk::{is_candidate, FrameSpec, Stage, WalkSpec, VCS_DIR};
use ignore::gitignore::Gitignore;
use vstd::prelude::*;

verus! {

/// The walk reports the directory at this position: it is not excluded, it
/// holds no marker, and a matcher on the stack ignores it.
pub open spec fn is_reported(at: Position) -> bool {
    &&& !is_excluded(at.dir, at.excluded)
    &&& !has_marker(at.node)
    &&& is_ignored(at.stack, at.dir)
}

/// What the walk of one entry of the directory at `at` brings about.
pub open spec fn walk_of_entry(at: Position, index: int) -> Outcome {
    match step_down(at, index) {
        Some(child) => visit_at(child),
        None => Outcome::nothing(),
    }
}

/// What the walk of the entries from `from` on brings about, in a directory
/// that the walk enters.
pub open spec fn entries_from(at: Position, from: nat) -> Outcome {
    visit_from(
        at.node,
        from,
        at.dir,
        exclusion(at.dir, at.excluded)->0,
        extended(at.stack, matcher_of(at.node.rules)->Ok_0),
    )
}

/// The walk of a directory is one of four: silence for an excluded one,
/// silence for a marked one, a single report for an ignored one, and the
/// walk of its entries for one that is entered.
pub proof fn lemma_visit_cases(at: Position)
    ensures
        is_excluded(at.dir, at.excluded) ==> visit_at(at) == Outcome::nothing(),
        has_marker(at.node) ==> visit_at(at) == Outcome::nothing(),
        is_reported(at) ==> visit_at(at) == Outcome::report(at.dir),
        enters(at) ==> visit_at(at) == entries_from(at, 0),
        !enters(at) ==> visit_at(at).reports.len() == 0 || is_reported(at),
{
    reveal_with_fuel(visit, 1);
    reveal_with_fuel(visit_from, 1);
}

/// The walk of the entries from one index on is the walk of that entry,
/// followed by the walk of the entries after it.
pub proof fn lemma_entries_unfold(at: Position, from: nat)
    requires
        enters(at),
        from < at.node.listing->0.len(),
    ensures
        entries_from(at, from) == walk_of_entry(at, from as int).followed_by(
            entries_from(at, from + 1),
        ),
{
    let entry = at.node.listing->0[from as int];
    assert(is_candidate(entry_of(entry)) ==> entry.dir is Some);
}

/// Past the last entry nothing is walked.
pub proof fn lemma_entries_end(at: Position, from: nat)
    requires
        enters(at),
        from >= at.node.listing->0.len(),
    ensures
        entries_from(at, from) == Outcome::nothing(),
{
}

/// A route in two parts leads where its second part leads from the end of
/// its first.
pub proof fn lemma_reach_concat(at: Position, first: Seq<int>, second: Seq<int>)
    ensures
        reach(at, first + second) == match reach(at, first) {
            Some(middle) => reach(middle, second),
            None => None,
        },
    decreases first.len(),
{
    if first.len() == 0 {
        assert(first + second =~= second);
    } else {
        assert((first + second)[0] == first[0]);
        assert((first + second).drop_first() =~= first.drop_first() + second);
        match step_down(at, first[0]) {
            Some(child) => {
                lemma_reach_concat(child, first.drop_first(), second);
            },
            None => {},
        }
    }
}

/// Nothing below a directory that the walk does not enter is visited.
pub proof fn lemma_nothing_beyond(start: Position, route: Seq<int>, more: Seq<int>)
    requires
        reach(start, route) matches Some(at) && !enters(at),
        more.len() > 0,
    ensures
        reach(start, route + more) is None,
{
    lemma_reach_concat(start, route, more);
}

/// Whatever the walk visits lies inside the directory that it started from,
/// and sees every matcher that the walk started with.
pub proof fn lemma_reach_inside(start: Position, route: Seq<int>)
    requires
        reach(start, route) is Some,
    ensures
        within(reach(start, route)->0.dir, start.dir),
        start.stack.is_prefix_of(reach(start, route)->0.stack),
        route.len() > 0 ==> enters(start),
    decreases route.len(),
{
    if route.len() == 0 {
        assert(start.dir =~= start.dir.subrange(0, start.dir.len() as int));
        assert(start.stack =~= start.stack.subrange(0, start.stack.len() as int));
    } else {
        let child = step_down(start, route[0])->0;
        let end = reach(start, route)->0;
        lemma_reach_inside(child, route.drop_first());
        assert(start.dir =~= child.dir.subrange(0, start.dir.len() as int));
        assert(start.dir =~= end.dir.subrange(0, start.dir.len() as int));
        assert(start.stack =~= child.stack.subrange(0, start.stack.len() as int));
        assert(start.stack =~= end.stack.subrange(0, start.stack.len() as int));
    }
}

/// A matcher that ignores a directory still does so on a longer stack.
pub proof fn lemma_ignored_on_longer_stack(
    stack: Seq<Gitignore>,
    longer: Seq<Gitignore>,
    dir: PathSpec,
)
    requires
        stack.is_prefix_of(longer),
        is_ignored(stack, dir),
    ensures
        is_ignored(longer, dir),
{
    let i = choose|i: int| 0 <= i < stack.len() && crate::matcher::ignores(#[trigger] stack[i], dir);
    assert(longer[i] == stack[i]);
}

/// Narrowing the excluded paths to those inside a directory loses nothing
/// for the paths inside that directory.
pub proof fn lemma_narrowing_exact(dir: PathSpec, excluded: Seq<PathSpec>, inner: PathSpec)
    requires
        !is_excluded(dir, excluded),
        within(inner, dir),
    ensures
        is_excluded(inner, narrowed(dir, excluded)) <==> is_excluded(inner, excluded),
{
    let inside = |e: PathSpec| within(e, dir);
    let kept = excluded.filter(inside);
    if is_excluded(inner, kept) {
        let i = choose|i: int| 0 <= i < kept.len() && within(inner, #[trigger] kept[i]);
        assert(kept.contains(kept[i]));
        excluded.lemma_filter_contains_rev(inside, kept[i]);
        let j = choose|j: int| 0 <= j < excluded.len() && excluded[j] == kept[i];
        assert(within(inner, excluded[j]));
    }
    if is_excluded(inner, excluded) {
        let j = choose|j: int| 0 <= j < excluded.len() && within(inner, #[trigger] excluded[j]);
        let e = excluded[j];
        if e.len() <= dir.len() {
            assert(e =~= dir.subrange(0, e.len() as int));
            assert(within(dir, excluded[j]));
        }
        assert(dir =~= e.subrange(0, dir.len() as int));
        assert(inside(e));
        excluded.lemma_filter_contains(inside, j);
        let i = choose|i: int| 0 <= i < kept.len() && kept[i] == e;
        assert(within(inner, kept[i]));
    }
}

/// Pruning is exact: a directory that the walk visits is excluded by the
/// paths that reached it exactly when it is excluded by the paths that the
/// walk was started with.
pub proof fn law_exclusions_reach_everywhere(start: Position, route: Seq<int>)
    requires
        reach(start, route) is Some,
    ensures
        is_excluded(reach(start, route)->0.dir, reach(start, route)->0.excluded) <==> is_excluded(
            reach(start, route)->0.dir,
            start.excluded,
        ),
    decreases route.len(),
{
    if route.len() > 0 {
        let child = step_down(start, route[0])->0;
        let end = reach(start, route)->0;
        law_exclusions_reach_everywhere(child, route.drop_first());
        lemma_reach_inside(child, route.drop_first());
        assert(start.dir =~= child.dir.subrange(0, start.dir.len() as int));
        assert(start.dir =~= end.dir.subrange(0, start.dir.len() as int));
        lemma_narrowing_exact(start.dir, start.excluded, end.dir);
    }
}

/// Pruning is silent and total: the walk of an excluded directory brings
/// nothing about, whatever the directory holds and whatever ignores it, and
/// nothing below it is visited.
pub proof fn law_pruning(start: Position, route: Seq<int>, more: Seq<int>)
    requires
        reach(start, route) matches Some(at) && is_excluded(at.dir, start.excluded),
    ensures
        visit_at(reach(start, route)->0) == Outcome::nothing(),
        more.len() > 0 ==> reach(start, route + more) is None,
{
    let at = reach(start, route)->0;
    law_exclusions_reach_everywhere(start, route);
    lemma_visit_cases(at);
    if more.len() > 0 {
        lemma_nothing_beyond(start, route, more);
    }
}

/// A marker ends the matter: the walk of a directory that holds one brings
/// nothing about, even where a matcher ignores the directory, and nothing
/// below it is visited.
pub proof fn law_marker_short_circuit(start: Position, route: Seq<int>, more: Seq<int>)
    requires
        reach(start, route) matches Some(at) && has_marker(at.node),
    ensures
        visit_at(reach(start, route)->0) == Outcome::nothing(),
        more.len() > 0 ==> reach(start, route + more) is None,
{
    lemma_visit_cases(reach(start, route)->0);
    if more.len() > 0 {
        lemma_nothing_beyond(start, route, more);
    }
}

/// No descent past a match: the walk of a directory that is reported is that
/// one report, and nothing below the directory is visited.
pub proof fn law_no_descent_past_match(start: Position, route: Seq<int>, more: Seq<int>)
    requires
        reach(start, route) matches Some(at) && is_reported(at),
    ensures
        visit_at(reach(start, route)->0) == Outcome::report(reach(start, route)->0.dir),
        more.len() > 0 ==> reach(start, route + more) is None,
{
    lemma_visit_cases(reach(start, route)->0);
    if more.len() > 0 {
        lemma_nothing_beyond(start, route, more);
    }
}

/// Only directories count: an entry that is no directory is not visited and
/// brings nothing about, whatever its name.
pub proof fn law_directory_only(at: Position, index: int)
    requires
        enters(at),
        0 <= index < at.node.listing->0.len(),
        at.node.listing->0[index].dir is None,
    ensures
        step_down(at, index) is None,
        walk_of_entry(at, index) == Outcome::nothing(),
        entries_from(at, index as nat) == entries_from(at, (index + 1) as nat),
{
    lemma_entries_unfold(at, index as nat);
    crate::refinement::lemma_nothing_neutral(entries_from(at, (index + 1) as nat));
}

/// The directory of version control is invisible: an entry of that name is
/// not visited and brings nothing about, whatever it holds and whatever
/// ignores it.
pub proof fn law_vcs_invisible(at: Position, index: int)
    requires
        enters(at),
        0 <= index < at.node.listing->0.len(),
        at.node.listing->0[index].name == VCS_DIR@,
    ensures
        step_down(at, index) is None,
        walk_of_entry(at, index) == Outcome::nothing(),
        entries_from(at, index as nat) == entries_from(at, (index + 1) as nat),
{
    lemma_entries_unfold(at, index as nat);
    crate::refinement::lemma_nothing_neutral(entries_from(at, (index + 1) as nat));
}

/// A report among those of the entries from `from` on is a report of the
/// walk of one of these entries.
pub proof fn lemma_origin_in_entries(at: Position, from: nat, i: int) -> (found: (int, int))
    requires
        enters(at),
        0 <= i < entries_from(at, from).reports.len(),
    ensures
        from <= found.0 < at.node.listing->0.len(),
        step_down(at, found.0) is Some,
        0 <= found.1 < walk_of_entry(at, found.0).reports.len(),
        walk_of_entry(at, found.0).reports[found.1] == entries_from(at, from).reports[i],
    decreases at.node.listing->0.len() - from,
{
    if from >= at.node.listing->0.len() {
        lemma_entries_end(at, from);
        (0, 0)
    } else {
        lemma_entries_unfold(at, from);
        let first = walk_of_entry(at, from as int);
        if i < first.reports.len() {
            (from as int, i)
        } else {
            lemma_origin_in_entries(at, from + 1, i - first.reports.len())
        }
    }
}

/// Every report is the report of a directory that the walk visits: there is
/// a route from the start to a position that is reported, and the report is
/// its path. So what is reported is a directory, is not excluded, holds no
/// marker, lies below no directory that was reported, and lies neither in
/// nor below a directory of version control.
pub proof fn law_reports_are_visited(start: Position, i: int) -> (route: Seq<int>)
    requires
        0 <= i < visit_at(start).reports.len(),
    ensures
        reach(start, route) matches Some(at) && is_reported(at) && at.dir == visit_at(
            start,
        ).reports[i],
    decreases start.node,
{
    lemma_visit_cases(start);
    if is_reported(start) {
        Seq::empty()
    } else {
        let found = lemma_origin_in_entries(start, 0, i);
        let child = step_down(start, found.0)->0;
        let rest = law_reports_are_visited(child, found.1);
        let route = seq![found.0] + rest;
        assert(route.drop_first() =~= rest);
        route
    }
}

/// Where the entries from `from` on are walked without a failure, so is each
/// of them, and its reports are among theirs.
pub proof fn lemma_entry_included(at: Position, from: nat, index: int, path: PathSpec)
    requires
        enters(at),
        from <= index < at.node.listing->0.len(),
        entries_from(at, from).failure is None,
    ensures
        walk_of_entry(at, index).failure is None,
        walk_of_entry(at, index).reports.contains(path) ==> entries_from(at, from).reports.contains(
            path,
        ),
    decreases at.node.listing->0.len() - from,
{
    lemma_entries_unfold(at, from);
    let first = walk_of_entry(at, from as int);
    let later = entries_from(at, from + 1);
    let all = entries_from(at, from);
    if index == from {
        if first.reports.contains(path) {
            let j = choose|j: int| 0 <= j < first.reports.len() && first.reports[j] == path;
            assert(all.reports[j] == path);
        }
    } else {
        lemma_entry_included(at, from + 1, index, path);
        if walk_of_entry(at, index).reports.contains(path) {
            let j = choose|j: int| 0 <= j < later.reports.len() && later.reports[j] == path;
            assert(all.reports[first.reports.len() + j] == path);
        }
    }
}

/// Where a walk does not fail, neither does the walk from a position that it
/// visits, and what that walk reports the whole walk reports.
pub proof fn lemma_visited_is_included(start: Position, route: Seq<int>, path: PathSpec)
    requires
        reach(start, route) is Some,
        visit_at(start).failure is None,
    ensures
        visit_at(reach(start, route)->0).failure is None,
        visit_at(reach(start, route)->0).reports.contains(path) ==> visit_at(
            start,
        ).reports.contains(path),
    decreases route.len(),
{
    if route.len() > 0 {
        let child = step_down(start, route[0])->0;
        lemma_visit_cases(start);
        lemma_entry_included(start, 0, route[0], path);
        lemma_visited_is_included(child, route.drop_first(), path);
    }
}

/// Inheritance: the rules of a directory reach every directory that the
/// walk visits below it. Each matcher that the walk brings to a directory
/// is brought to all that is visited below, and where a walk does not fail,
/// every visited directory that such a matcher ignores is reported, unless
/// the directory is excluded or holds a marker.
pub proof fn law_inheritance(start: Position, route: Seq<int>)
    requires
        reach(start, route) is Some,
    ensures
        start.stack.is_prefix_of(reach(start, route)->0.stack),
        is_ignored(start.stack, reach(start, route)->0.dir) ==> is_ignored(
            reach(start, route)->0.stack,
            reach(start, route)->0.dir,
        ),
        is_reported(reach(start, route)->0) && visit_at(start).failure is None ==> visit_at(
            start,
        ).reports.contains(reach(start, route)->0.dir),
{
    let at = reach(start, route)->0;
    lemma_reach_inside(start, route);
    if is_ignored(start.stack, at.dir) {
        lemma_ignored_on_longer_stack(start.stack, at.stack, at.dir);
    }
    if is_reported(at) && visit_at(start).failure is None {
        lemma_visit_cases(at);
        assert(Outcome::report(at.dir).reports[0] == at.dir);
        lemma_visited_is_included(start, route, at.dir);
    }
}

/// No two entries of a directory of the tree have the same name.
pub open spec fn names_distinct(node: DirTree) -> bool
    decreases node,
{
    match node.listing {
        None => true,
        Some(entries) => {
            &&& forall|i: int, j: int|
                0 <= i < j < entries.len() ==> (#[trigger] entries[i]).name != (
                #[trigger] entries[j]).name
            &&& forall|i: int|
                0 <= i < entries.len() ==> match (#[trigger] entries[i]).dir {
                    Some(child) => names_distinct(child),
                    None => true,
                }
        },
    }
}

/// Every report of a walk is a path inside the directory that the walk
/// started from.
pub proof fn lemma_reports_inside(start: Position, i: int)
    requires
        0 <= i < visit_at(start).reports.len(),
    ensures
        within(visit_at(start).reports[i], start.dir),
{
    let route = law_reports_are_visited(start, i);
    lemma_reach_inside(start, route);
}

/// In a tree without two entries of one name in a directory, the entries
/// from `from` on report no directory twice.
pub proof fn lemma_entries_report_once(at: Position, from: nat, i: int, j: int)
    requires
        enters(at),
        names_distinct(at.node),
        0 <= i < j < entries_from(at, from).reports.len(),
    ensures
        entries_from(at, from).reports[i] != entries_from(at, from).reports[j],
    decreases at.node, 0nat, at.node.listing->0.len() - from,
{
    let entries = at.node.listing->0;
    if from >= entries.len() {
        lemma_entries_end(at, from);
    } else {
        lemma_entries_unfold(at, from);
        let first = walk_of_entry(at, from as int);
        let count = first.reports.len();
        if first.failure is None {
            if j < count {
                let child = step_down(at, from as int)->0;
                assert(names_distinct(child.node));
                law_reported_once(child, i, j);
            } else if i >= count {
                lemma_entries_report_once(at, from + 1, i - count, j - count);
            } else {
                let child = step_down(at, from as int)->0;
                lemma_reports_inside(child, i);
                let found = lemma_origin_in_entries(at, from + 1, j - count);
                let other = step_down(at, found.0)->0;
                lemma_reports_inside(other, found.1);
                let path = first.reports[i];
                if path == entries_from(at, from).reports[j] {
                    assert(child.dir[at.dir.len() as int] == entries[from as int].name);
                    assert(other.dir[at.dir.len() as int] == entries[found.0].name);
                    assert(child.dir[at.dir.len() as int] == path[at.dir.len() as int]);
                    assert(other.dir[at.dir.len() as int] == path[at.dir.len() as int]);
                    assert(false);
                }
            }
        } else {
            let child = step_down(at, from as int)->0;
            assert(names_distinct(child.node));
            law_reported_once(child, i, j);
        }
    }
}

/// Each directory is reported at most once, in a tree in which no directory
/// lists two entries of one name.
pub proof fn law_reported_once(start: Position, i: int, j: int)
    requires
        names_distinct(start.node),
        0 <= i < j < visit_at(start).reports.len(),
    ensures
        visit_at(start).reports[i] != visit_at(start).reports[j],
    decreases start.node, 1nat, 0nat,
{
    lemma_visit_cases(start);
    if !is_reported(start) {
        lemma_entries_report_once(start, 0, i, j);
    }
}

/// Stack restoration: whenever the machine is about to evaluate a directory,
/// its matchers are those that the directory's parent hands down, whatever
/// was pushed and dropped before. Two directories with the same parent are
/// evaluated with the same stack, and so is the first directory of a walk
/// with the empty one.
pub proof fn law_stack_restoration(
    first: WalkSpec,
    first_ctx: Seq<FrameCtx>,
    second: WalkSpec,
    second_ctx: Seq<FrameCtx>,
)
    requires
        related(first, first_ctx),
        related(second, second_ctx),
        first.stage == Stage::Marker(0),
        second.stage == Stage::Marker(0),
        first_ctx.len() == second_ctx.len(),
        first_ctx.drop_last() == second_ctx.drop_last(),
    ensures
        first.matchers == second.matchers,
        first.matchers == first_ctx.last().stack,
        first_ctx.len() == 1 ==> first.matchers == Seq::<Gitignore>::empty(),
{
    let outer = first_ctx.drop_last();
    let depth = first.frames.len() - 1;
    if depth > 0 {
        lemma_parent_stack(first.frames.drop_last(), outer);
        lemma_parent_stack(second.frames.drop_last(), outer);
    }
}

/// The stack that a frame hands to its entries is that of its node: the
/// stack that the frame found, and the matcher of the node's own rules.
pub proof fn lemma_parent_stack(frames: Seq<FrameSpec>, ctx: Seq<FrameCtx>)
    requires
        frames.len() > 0,
        crate::refinement::settled(frames, ctx),
    ensures
        crate::refinement::stack_below(frames, ctx) == extended(
            ctx.last().stack,
            matcher_of(ctx.last().node.rules)->Ok_0,
        ),
{
}

} // verus!
