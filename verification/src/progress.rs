//! Every walk ends: a bound on the number of steps that the machine takes on
//! a tree, and with it the whole of what a walk does from its first request
//! to its last.

use crate::laws::{is_reported, law_inheritance, law_reports_are_visited};
use crate::matcher::{is_ignored, matcher_of};
use crate::model::{
    entries_of, entry_of, extended, reach, visit, visit_at, DirTree, Outcome, Position,
};
use crate::path::{exclusion, PathSpec};
use crate::refinement::{
    advance_ctx, answer, below, law_run_refines, law_start_refines, law_step_refines,
    lemma_nothing_neutral, lemma_release_frame, related, run, settled, stack_below, start_ctx,
    step_ctx, FrameCtx,
};
use crate::stack_vec::released;
use crate::walk::{
    entries_left, fresh_frame, is_candidate, marker_name, past_entry, spec_advance, spec_enter,
    spec_start, spec_step, FrameSpec, Stage, WalkSpec,
};
use ignore::gitignore::Gitignore;
use vstd::prelude::*;

verus! {

/// The most steps that the walk of a directory takes, from its first
/// question about the directory to the answer after which it leaves the
/// directory behind.
pub open spec fn visit_steps(
    node: DirTree,
    dir: PathSpec,
    excluded: Seq<PathSpec>,
    stack: Seq<Gitignore>,
) -> nat
    decreases node, 3nat, 0nat,
{
    match exclusion(dir, excluded) {
        None => 0,
        Some(kept) => evaluate_steps(node, dir, kept, stack),
    }
}

/// The most steps that the walk of a directory takes that is not excluded:
/// one or two for its markers, one more for a report, and for a directory
/// that is entered those of its rules, its listing and its entries.
pub open spec fn evaluate_steps(
    node: DirTree,
    dir: PathSpec,
    kept: Seq<PathSpec>,
    stack: Seq<Gitignore>,
) -> nat
    decreases node, 2nat, 0nat,
{
    if node.present.contains(marker_name(0)) {
        1
    } else if node.present.contains(marker_name(1)) {
        2
    } else if is_ignored(stack, dir) {
        3
    } else {
        2 + descend_steps(node, dir, kept, stack)
    }
}

/// The most steps that the walk of a directory takes once it is entered.
pub open spec fn descend_steps(
    node: DirTree,
    dir: PathSpec,
    kept: Seq<PathSpec>,
    stack: Seq<Gitignore>,
) -> nat
    decreases node, 1nat, 0nat,
{
    match matcher_of(node.rules) {
        Err(_) => 1,
        Ok(own) => 2 + entries_steps(node, 0, dir, kept, extended(stack, own)),
    }
}

/// The most steps that the walk of the entries from `from` on takes.
pub open spec fn entries_steps(
    node: DirTree,
    from: nat,
    dir: PathSpec,
    kept: Seq<PathSpec>,
    stack: Seq<Gitignore>,
) -> nat
    decreases node, 0nat, (match node.listing {
        Some(entries) => entries.len() - from,
        None => 0,
    }),
{
    match node.listing {
        None => 0,
        Some(entries) => {
            if from >= entries.len() {
                0
            } else {
                let entry = entries[from as int];
                let first = match entry.dir {
                    Some(child) => {
                        if is_candidate(entry_of(entry)) {
                            visit_steps(child, dir.push(entry.name), kept, stack)
                        } else {
                            0
                        }
                    },
                    None => 0,
                };
                first + entries_steps(node, from + 1, dir, kept, stack)
            }
        },
    }
}

/// The most steps that the entries still to be walked of a frame take.
pub open spec fn frame_steps(frame: FrameSpec, at: FrameCtx) -> nat {
    entries_steps(at.node, frame.next, frame.dir, frame.excluded, below(frame, at))
}

/// The most steps that the entries still to be walked of all these frames
/// take.
pub open spec fn steps_below(frames: Seq<FrameSpec>, ctx: Seq<FrameCtx>) -> nat
    decreases frames.len(),
{
    if frames.len() == 0 {
        0
    } else {
        frame_steps(frames.last(), ctx.last()) + steps_below(frames.drop_last(), ctx.drop_last())
    }
}

/// The most steps that the directory of the top frame still takes.
pub open spec fn top_steps(stage: Stage, frame: FrameSpec, at: FrameCtx) -> nat {
    match stage {
        Stage::Marker(index) => {
            let all = evaluate_steps(at.node, frame.dir, frame.excluded, at.stack);
            if index == 0 {
                all
            } else {
                (all - 1) as nat
            }
        },
        Stage::Reporting => 1,
        Stage::Rules => descend_steps(at.node, frame.dir, frame.excluded, at.stack),
        Stage::Listing => 1 + entries_steps(
            at.node,
            0,
            frame.dir,
            frame.excluded,
            below(frame, at),
        ),
        Stage::Children => frame_steps(frame, at),
        Stage::Finished => 0,
        Stage::Failed => 0,
    }
}

/// The most steps that the rest of the walk takes.
pub open spec fn steps_left(walk: WalkSpec, ctx: Seq<FrameCtx>) -> nat {
    if walk.frames.len() == 0 {
        0
    } else {
        top_steps(walk.stage, walk.frames.last(), ctx.last()) + steps_below(
            walk.frames.drop_last(),
            ctx.drop_last(),
        )
    }
}

/// Moving on takes no step of its own.
pub proof fn lemma_advance_steps(
    frames: Seq<FrameSpec>,
    matchers: Seq<Gitignore>,
    ctx: Seq<FrameCtx>,
)
    requires
        settled(frames, ctx),
        matchers == stack_below(frames, ctx),
    ensures
        steps_left(spec_advance(frames, matchers).0, advance_ctx(frames, ctx)) == steps_below(
            frames,
            ctx,
        ),
    decreases frames.len(), entries_left(frames),
{
    if frames.len() == 0 {
    } else {
        let top = frames.last();
        let at = ctx.last();
        if top.next < top.entries.len() {
            let entry = top.entries[top.next as int];
            let tree_entry = at.node.listing->0[top.next as int];
            assert(entry == entry_of(tree_entry));
            let after = past_entry(frames);
            let moved = FrameSpec { next: top.next + 1, ..top };
            assert(after.last() == moved);
            assert(after.drop_last() =~= frames.drop_last());
            assert(settled(after, ctx));
            assert(below(moved, at) == below(top, at));
            let path = top.dir.push(entry.name);
            assert(steps_below(after, ctx) == frame_steps(moved, at) + steps_below(
                frames.drop_last(),
                ctx.drop_last(),
            ));
            if is_candidate(entry) && exclusion(path, top.excluded) is Some {
                let kept = exclusion(path, top.excluded)->0;
                let child = tree_entry.dir->0;
                let entry_result = spec_enter(after, matchers, path, top.excluded)->0;
                let entered = entry_result.0;
                let inner = FrameCtx { node: child, stack: below(top, at) };
                let ctx2 = ctx.push(inner);
                assert(advance_ctx(frames, ctx) == ctx2);
                assert(spec_advance(frames, matchers).0 == entered);
                assert(entered.frames.last() == fresh_frame(path, kept));
                assert(entered.frames.drop_last() =~= after);
                assert(ctx2.drop_last() =~= ctx);
                assert(ctx2.last() == inner);
                let first = visit_steps(child, path, top.excluded, below(top, at));
                assert(first == evaluate_steps(child, path, kept, below(top, at)));
                assert(frame_steps(top, at) == first + frame_steps(moved, at));
            } else {
                assert(frame_steps(top, at) == frame_steps(moved, at));
                lemma_advance_steps(after, matchers, ctx);
            }
        } else {
            assert(frame_steps(top, at) == 0);
            lemma_release_frame(top, at);
            lemma_advance_steps(
                frames.drop_last(),
                released(matchers, top.pushed),
                ctx.drop_last(),
            );
        }
    }
}

/// Each step uses up one of the steps that are left.
pub proof fn lemma_step_counts(walk: WalkSpec, ctx: Seq<FrameCtx>)
    requires
        related(walk, ctx),
        walk.frames.len() > 0,
        walk.stage != Stage::Children,
    ensures
        steps_left(spec_step(walk, answer(walk, ctx)).0, step_ctx(walk, ctx)) < steps_left(
            walk,
            ctx,
        ),
{
    let top = walk.frames.last();
    let at = ctx.last();
    let next = spec_step(walk, answer(walk, ctx));
    let outside = walk.frames.drop_last();
    match walk.stage {
        Stage::Marker(index) => {
            assert(!at.node.present.contains(marker_name(0)) || index == 0);
            if at.node.present.contains(marker_name(index as nat)) {
                lemma_release_frame(top, at);
                lemma_advance_steps(outside, released(walk.matchers, top.pushed), ctx.drop_last());
            }
        },
        Stage::Reporting => {
            lemma_release_frame(top, at);
            lemma_advance_steps(outside, released(walk.matchers, top.pushed), ctx.drop_last());
        },
        Stage::Rules => {
            match matcher_of(at.node.rules) {
                Err(error) => {},
                Ok(None) => {},
                Ok(Some(matcher)) => {
                    assert(next.0.frames.last() == FrameSpec { pushed: 1, ..top });
                    assert(next.0.frames.drop_last() =~= outside);
                },
            }
        },
        Stage::Listing => {
            match at.node.listing {
                None => {
                    lemma_release_frame(top, at);
                    lemma_advance_steps(
                        outside,
                        released(walk.matchers, top.pushed),
                        ctx.drop_last(),
                    );
                },
                Some(entries) => {
                    let listed = FrameSpec { entries: entries_of(entries), next: 0, ..top };
                    let frames = outside.push(listed);
                    assert(frames.last() == listed);
                    assert(frames.drop_last() =~= outside);
                    assert(settled(frames, ctx));
                    lemma_advance_steps(frames, walk.matchers, ctx);
                },
            }
        },
        _ => {},
    }
}

/// A machine that is given as many steps as are left, or more, comes to the
/// end of its walk.
pub proof fn law_run_ends(walk: WalkSpec, ctx: Seq<FrameCtx>, steps: nat)
    requires
        related(walk, ctx),
        walk.stage != Stage::Children,
        steps >= steps_left(walk, ctx),
    ensures
        run(walk, ctx, steps).1.frames.len() == 0,
    decreases steps,
{
    if walk.frames.len() > 0 {
        lemma_step_counts(walk, ctx);
        law_step_refines(walk, ctx);
        law_run_ends(
            spec_step(walk, answer(walk, ctx)).0,
            step_ctx(walk, ctx),
            (steps - 1) as nat,
        );
    }
}

/// The whole walk: started on a root and answered from a tree, the machine
/// comes to its end within the steps that the tree allows, and by then it
/// has handed out what the description of the walk of that tree says,
/// report for report, has failed where the description fails, and has left
/// no matcher on its stack.
pub proof fn law_whole_walk(tree: DirTree, root: PathSpec, excluded: Seq<PathSpec>)
    ensures
        ({
            let steps = visit_steps(tree, root, excluded, Seq::empty());
            let end = run(spec_start(root, excluded).0, start_ctx(tree, root, excluded), steps);
            &&& end.1.frames.len() == 0
            &&& end.1.matchers == Seq::<Gitignore>::empty()
            &&& end.0 == visit(tree, root, excluded, Seq::empty())
        }),
{
    let started = spec_start(root, excluded);
    let ctx = start_ctx(tree, root, excluded);
    let steps = visit_steps(tree, root, excluded, Seq::empty());
    law_start_refines(tree, root, excluded);
    if exclusion(root, excluded) is Some {
        assert(started.0.frames.drop_last() =~= Seq::<FrameSpec>::empty());
        assert(ctx.drop_last() =~= Seq::<FrameCtx>::empty());
        assert(ctx.last() == FrameCtx { node: tree, stack: Seq::empty() });
    }
    law_run_ends(started.0, ctx, steps);
    law_run_refines(started.0, ctx, steps);
    lemma_nothing_neutral(run(started.0, ctx, steps).0);
}

/// Where a walk of `tree` starts: at the root, with all the excluded paths
/// and no matcher.
pub open spec fn start_position(tree: DirTree, root: PathSpec, excluded: Seq<PathSpec>) -> Position {
    Position { node: tree, dir: root, excluded, stack: Seq::empty() }
}

/// What the machine hands out in a whole walk of `tree`.
pub open spec fn walk_outcome(tree: DirTree, root: PathSpec, excluded: Seq<PathSpec>) -> Outcome {
    run(
        spec_start(root, excluded).0,
        start_ctx(tree, root, excluded),
        visit_steps(tree, root, excluded, Seq::empty()),
    ).0
}

/// Whatever the machine reports is a directory that the walk visits and
/// that is reported there: it is not excluded, holds no marker, and is
/// ignored by a matcher of a directory above it.
pub proof fn law_machine_reports_are_visited(
    tree: DirTree,
    root: PathSpec,
    excluded: Seq<PathSpec>,
    i: int,
) -> (route: Seq<int>)
    requires
        0 <= i < walk_outcome(tree, root, excluded).reports.len(),
    ensures
        reach(start_position(tree, root, excluded), route) matches Some(at) && is_reported(at)
            && at.dir == walk_outcome(tree, root, excluded).reports[i],
{
    law_whole_walk(tree, root, excluded);
    law_reports_are_visited(start_position(tree, root, excluded), i)
}

/// A machine that does not fail reports every directory that the walk
/// visits and that is to be reported.
pub proof fn law_machine_reports_every_match(
    tree: DirTree,
    root: PathSpec,
    excluded: Seq<PathSpec>,
    route: Seq<int>,
)
    requires
        walk_outcome(tree, root, excluded).failure is None,
        reach(start_position(tree, root, excluded), route) matches Some(at) && is_reported(at),
    ensures
        walk_outcome(tree, root, excluded).reports.contains(
            reach(start_position(tree, root, excluded), route)->0.dir,
        ),
{
    law_whole_walk(tree, root, excluded);
    assert(visit_at(start_position(tree, root, excluded)) == walk_outcome(tree, root, excluded));
    law_inheritance(start_position(tree, root, excluded), route);
}

} // verus!
