//! The state machine does what the description of the walk says: driven by
//! answers that are true of a tree, it reports the directories that the
//! description reports, in the same order, and fails where it fails.
//!
//! The proof relates each frame of the machine to the node of the tree that
//! its directory holds, and shows that what is still to come stays the same
//! from step to step, but for what the step itself hands out.

use crate::matcher::{is_ignored, matcher_of, WalkError};
use crate::model::{
    descend, entries_of, entry_of, evaluate, extended, has_marker, visit, visit_from, DirTree,
    Outcome,
};
use crate::path::{exclusion, PathSpec};
use crate::stack_vec::released;
use crate::walk::{
    entries_left, fresh_frame, is_candidate, marker_name, past_entry, spec_advance, spec_enter,
    spec_skip, spec_start, spec_step, ActionSpec, EventSpec, FrameSpec, Stage, WalkSpec,
    MARKER_COUNT,
};
use ignore::gitignore::Gitignore;
use vstd::prelude::*;

verus! {

/// What a frame of the machine stands for: the node that its directory
/// holds, and the stack with which the directory is evaluated.
pub struct FrameCtx {
    pub node: DirTree,
    pub stack: Seq<Gitignore>,
}

/// The frame's directory has given the stack what its rules ask for.
pub open spec fn rules_done(frame: FrameSpec, at: FrameCtx) -> bool {
    match matcher_of(at.node.rules) {
        Ok(Some(_)) => frame.pushed == 1,
        Ok(None) => frame.pushed == 0,
        Err(_) => false,
    }
}

/// The stack with which the entries of the frame's directory are walked.
pub open spec fn below(frame: FrameSpec, at: FrameCtx) -> Seq<Gitignore> {
    if frame.pushed == 0 {
        at.stack
    } else {
        match matcher_of(at.node.rules) {
            Ok(own) => extended(at.stack, own),
            Err(_) => at.stack,
        }
    }
}

/// The frame is walking the entries of its node.
pub open spec fn iterating(frame: FrameSpec, at: FrameCtx) -> bool {
    &&& rules_done(frame, at)
    &&& at.node.listing is Some
    &&& frame.entries == entries_of(at.node.listing->0)
}

/// What the entries of the frame that are still to be walked bring about.
pub open spec fn frame_rest(frame: FrameSpec, at: FrameCtx) -> Outcome {
    visit_from(at.node, frame.next, frame.dir, frame.excluded, below(frame, at))
}

/// The stack that the innermost of these frames hands to its entries.
pub open spec fn stack_below(frames: Seq<FrameSpec>, ctx: Seq<FrameCtx>) -> Seq<Gitignore> {
    if frames.len() == 0 {
        Seq::empty()
    } else {
        below(frames.last(), ctx.last())
    }
}

/// Every frame is walking the entries of its node, with the stack that the
/// frame outside it hands down.
pub open spec fn settled(frames: Seq<FrameSpec>, ctx: Seq<FrameCtx>) -> bool
    decreases frames.len(),
{
    if frames.len() == 0 {
        ctx.len() == 0
    } else {
        &&& ctx.len() == frames.len()
        &&& iterating(frames.last(), ctx.last())
        &&& ctx.last().stack == stack_below(frames.drop_last(), ctx.drop_last())
        &&& settled(frames.drop_last(), ctx.drop_last())
    }
}

/// What the entries still to be walked of all these frames bring about,
/// innermost frame first.
pub open spec fn rest_below(frames: Seq<FrameSpec>, ctx: Seq<FrameCtx>) -> Outcome
    decreases frames.len(),
{
    if frames.len() == 0 {
        Outcome::nothing()
    } else {
        frame_rest(frames.last(), ctx.last()).followed_by(
            rest_below(frames.drop_last(), ctx.drop_last()),
        )
    }
}

/// What the stage of the walk says of its top frame.
pub open spec fn top_ok(stage: Stage, frame: FrameSpec, at: FrameCtx) -> bool {
    match stage {
        Stage::Marker(index) => {
            &&& index < MARKER_COUNT
            &&& frame.pushed == 0
            &&& forall|j: nat| j < index ==> !at.node.present.contains(#[trigger] marker_name(j))
        },
        Stage::Reporting => frame.pushed == 0,
        Stage::Rules => frame.pushed == 0,
        Stage::Listing => rules_done(frame, at),
        Stage::Children => iterating(frame, at),
        Stage::Finished => false,
        Stage::Failed => false,
    }
}

/// What is still to come of the top frame's directory.
pub open spec fn top_rest(stage: Stage, frame: FrameSpec, at: FrameCtx) -> Outcome {
    match stage {
        Stage::Marker(_) => evaluate(at.node, frame.dir, frame.excluded, at.stack),
        Stage::Reporting => Outcome::nothing(),
        Stage::Rules => descend(at.node, frame.dir, frame.excluded, at.stack),
        Stage::Listing => visit_from(at.node, 0, frame.dir, frame.excluded, below(frame, at)),
        Stage::Children => frame_rest(frame, at),
        Stage::Finished => Outcome::nothing(),
        Stage::Failed => Outcome::nothing(),
    }
}

/// The machine is somewhere in a walk of the tree: its frames are the
/// directories on the way from the root, and its matchers are those of
/// these directories, no more and no less.
pub open spec fn related(walk: WalkSpec, ctx: Seq<FrameCtx>) -> bool {
    &&& walk.matchers == stack_below(walk.frames, ctx)
    &&& if walk.frames.len() == 0 {
        ctx.len() == 0 && (walk.stage == Stage::Finished || walk.stage == Stage::Failed)
    } else {
        &&& ctx.len() == walk.frames.len()
        &&& top_ok(walk.stage, walk.frames.last(), ctx.last())
        &&& ctx.last().stack == stack_below(walk.frames.drop_last(), ctx.drop_last())
        &&& settled(walk.frames.drop_last(), ctx.drop_last())
    }
}

/// What the rest of the walk brings about.
pub open spec fn remaining(walk: WalkSpec, ctx: Seq<FrameCtx>) -> Outcome {
    if walk.frames.len() == 0 {
        Outcome::nothing()
    } else {
        top_rest(walk.stage, walk.frames.last(), ctx.last()).followed_by(
            rest_below(walk.frames.drop_last(), ctx.drop_last()),
        )
    }
}

/// The answer that is true of the tree to the last request of the machine.
pub open spec fn answer(walk: WalkSpec, ctx: Seq<FrameCtx>) -> EventSpec {
    let node = ctx.last().node;
    match walk.stage {
        Stage::Marker(index) => EventSpec::Exists(node.present.contains(marker_name(index as nat))),
        Stage::Rules => EventSpec::Rules(node.rules),
        Stage::Listing => EventSpec::Listing(
            match node.listing {
                Some(entries) => Some(entries_of(entries)),
                None => None,
            },
        ),
        _ => EventSpec::Reported,
    }
}

/// What a step hands out: a report, a failure, or nothing.
pub open spec fn emitted(result: Result<ActionSpec, WalkError>) -> Outcome {
    match result {
        Ok(ActionSpec::Report(dir)) => Outcome::report(dir),
        Ok(_) => Outcome::nothing(),
        Err(error) => Outcome::failed(error),
    }
}

/// What the frames stand for once the machine has moved on.
pub open spec fn advance_ctx(frames: Seq<FrameSpec>, ctx: Seq<FrameCtx>) -> Seq<FrameCtx>
    decreases frames.len(), entries_left(frames),
{
    if frames.len() == 0 {
        ctx
    } else {
        let top = frames.last();
        if top.next < top.entries.len() {
            let entry = top.entries[top.next as int];
            if is_candidate(entry) && exclusion(top.dir.push(entry.name), top.excluded) is Some {
                ctx.push(
                    FrameCtx {
                        node: ctx.last().node.listing->0[top.next as int].dir->0,
                        stack: below(top, ctx.last()),
                    },
                )
            } else {
                advance_ctx(past_entry(frames), ctx)
            }
        } else {
            advance_ctx(frames.drop_last(), ctx.drop_last())
        }
    }
}

/// What the frames stand for after a step that was answered from the tree.
pub open spec fn step_ctx(walk: WalkSpec, ctx: Seq<FrameCtx>) -> Seq<FrameCtx> {
    let top = walk.frames.last();
    let node = ctx.last().node;
    let outside = advance_ctx(walk.frames.drop_last(), ctx.drop_last());
    match walk.stage {
        Stage::Marker(index) => {
            if node.present.contains(marker_name(index as nat)) {
                outside
            } else {
                ctx
            }
        },
        Stage::Reporting => outside,
        Stage::Rules => {
            if matcher_of(node.rules) is Err {
                Seq::empty()
            } else {
                ctx
            }
        },
        Stage::Listing => {
            match node.listing {
                None => outside,
                Some(entries) => advance_ctx(
                    walk.frames.drop_last().push(
                        FrameSpec { entries: entries_of(entries), next: 0, ..top },
                    ),
                    ctx,
                ),
            }
        },
        _ => ctx,
    }
}

/// All that the frames stand for after a step, but for a frame that the step
/// itself entered, is what they stood for before: a frame stands for the
/// same node and the same stack as long as it lasts.
pub open spec fn carried_over(before: Seq<FrameCtx>, after: Seq<FrameCtx>) -> bool {
    after.len() == 0 || after.drop_last().is_prefix_of(before)
}

/// One part after another, in three parts: the grouping does not matter.
pub proof fn lemma_followed_by_assoc(a: Outcome, b: Outcome, c: Outcome)
    ensures
        a.followed_by(b).followed_by(c) == a.followed_by(b.followed_by(c)),
{
    assert((a.reports + b.reports) + c.reports =~= a.reports + (b.reports + c.reports));
}

/// A part that brings nothing about changes nothing.
pub proof fn lemma_nothing_neutral(a: Outcome)
    ensures
        Outcome::nothing().followed_by(a) == a,
        a.followed_by(Outcome::nothing()) == a,
{
    assert(Seq::<PathSpec>::empty() + a.reports =~= a.reports);
    assert(a.reports + Seq::<PathSpec>::empty() =~= a.reports);
}

/// Dropping what a frame pushed gives back the stack that the frame found.
pub proof fn lemma_release_frame(frame: FrameSpec, at: FrameCtx)
    requires
        frame.pushed == 0 || rules_done(frame, at),
    ensures
        released(below(frame, at), frame.pushed) == at.stack,
{
    if frame.pushed == 0 {
        assert(at.stack.take(at.stack.len() as int) =~= at.stack);
    } else {
        let own = matcher_of(at.node.rules)->Ok_0->0;
        assert(at.stack.push(own).take(at.stack.len() as int) =~= at.stack);
    }
}

/// Moving on keeps the machine in the walk, and changes nothing of what is
/// still to come.
pub proof fn lemma_advance(frames: Seq<FrameSpec>, matchers: Seq<Gitignore>, ctx: Seq<FrameCtx>)
    requires
        settled(frames, ctx),
        matchers == stack_below(frames, ctx),
    ensures
        related(spec_advance(frames, matchers).0, advance_ctx(frames, ctx)),
        remaining(spec_advance(frames, matchers).0, advance_ctx(frames, ctx)) == rest_below(
            frames,
            ctx,
        ),
        emitted(Ok(spec_advance(frames, matchers).1)) == Outcome::nothing(),
        spec_advance(frames, matchers).0.stage != Stage::Children,
        carried_over(ctx, advance_ctx(frames, ctx)),
    decreases frames.len(), entries_left(frames),
{
    if frames.len() == 0 {
    } else {
        let top = frames.last();
        let at = ctx.last();
        let outer = rest_below(frames.drop_last(), ctx.drop_last());
        if top.next < top.entries.len() {
            let entry = top.entries[top.next as int];
            let tree_entry = at.node.listing->0[top.next as int];
            assert(entry == entry_of(tree_entry));
            let after = past_entry(frames);
            let moved = FrameSpec { next: top.next + 1, ..top };
            assert(after.last() == moved);
            assert(after.drop_last() =~= frames.drop_last());
            assert(settled(after, ctx));
            assert(below(moved, at) == below(top, at));
            let path = top.dir.push(entry.name);
            let later = frame_rest(moved, at);
            assert(rest_below(after, ctx) == later.followed_by(outer));
            if is_candidate(entry) && exclusion(path, top.excluded) is Some {
                let kept = exclusion(path, top.excluded)->0;
                let child = tree_entry.dir->0;
                let entered = spec_enter(after, matchers, path, top.excluded)->0;
                let fresh = fresh_frame(path, kept);
                let inner = FrameCtx { node: child, stack: below(top, at) };
                let ctx2 = ctx.push(inner);
                assert(advance_ctx(frames, ctx) == ctx2);
                assert(spec_advance(frames, matchers) == entered);
                assert(entered.0.frames.last() == fresh);
                assert(entered.0.frames.drop_last() =~= after);
                assert(ctx2.drop_last() =~= ctx);
                assert(ctx2.last() == inner);
                assert(ctx =~= ctx.subrange(0, ctx.len() as int));
                let first = visit(child, path, top.excluded, below(top, at));
                assert(first == evaluate(child, path, kept, below(top, at)));
                assert(frame_rest(top, at) == first.followed_by(later));
                lemma_followed_by_assoc(first, later, outer);
            } else {
                assert(frame_rest(top, at) == Outcome::nothing().followed_by(later));
                lemma_nothing_neutral(later);
                lemma_advance(after, matchers, ctx);
            }
        } else {
            assert(frame_rest(top, at) == Outcome::nothing());
            lemma_nothing_neutral(outer);
            lemma_release_frame(top, at);
            lemma_advance(frames.drop_last(), released(matchers, top.pushed), ctx.drop_last());
            let ctx2 = advance_ctx(frames, ctx);
            if ctx2.len() > 0 {
                assert(ctx2.drop_last() =~= ctx.subrange(0, ctx2.len() - 1));
            }
        }
    }
}

/// Leaving the top frame without walking its entries keeps the machine in
/// the walk; what is still to come is what the outer frames hold.
pub proof fn lemma_skip(walk: WalkSpec, ctx: Seq<FrameCtx>)
    requires
        walk.frames.len() > 0,
        ctx.len() == walk.frames.len(),
        walk.matchers == below(walk.frames.last(), ctx.last()),
        walk.frames.last().pushed == 0 || rules_done(walk.frames.last(), ctx.last()),
        ctx.last().stack == stack_below(walk.frames.drop_last(), ctx.drop_last()),
        settled(walk.frames.drop_last(), ctx.drop_last()),
    ensures
        ({
            let next = spec_skip(walk);
            let ctx2 = advance_ctx(walk.frames.drop_last(), ctx.drop_last());
            &&& related(next.0, ctx2)
            &&& remaining(next.0, ctx2) == rest_below(walk.frames.drop_last(), ctx.drop_last())
            &&& emitted(next.1) == Outcome::nothing()
            &&& next.0.stage != Stage::Children
            &&& carried_over(ctx, ctx2)
        }),
{
    lemma_release_frame(walk.frames.last(), ctx.last());
    lemma_advance(
        walk.frames.drop_last(),
        released(walk.matchers, walk.frames.last().pushed),
        ctx.drop_last(),
    );
    let ctx2 = advance_ctx(walk.frames.drop_last(), ctx.drop_last());
    if ctx2.len() > 0 {
        assert(ctx2.drop_last() =~= ctx.subrange(0, ctx2.len() - 1));
    }
}

/// A walk starts in the walk of the tree, with all of it still to come.
pub proof fn law_start_refines(tree: DirTree, root: PathSpec, excluded: Seq<PathSpec>)
    ensures
        ({
            let started = spec_start(root, excluded);
            let ctx = start_ctx(tree, root, excluded);
            &&& related(started.0, ctx)
            &&& remaining(started.0, ctx) == visit(tree, root, excluded, Seq::empty())
            &&& emitted(Ok(started.1)) == Outcome::nothing()
        }),
{
    let started = spec_start(root, excluded);
    let ctx = start_ctx(tree, root, excluded);
    match exclusion(root, excluded) {
        None => {},
        Some(kept) => {
            let at = FrameCtx { node: tree, stack: Seq::empty() };
            assert(started.0.frames.last() == fresh_frame(root, kept));
            assert(started.0.frames.drop_last() =~= Seq::<FrameSpec>::empty());
            assert(ctx.last() == at);
            assert(ctx.drop_last() =~= Seq::<FrameCtx>::empty());
            lemma_nothing_neutral(evaluate(tree, root, kept, Seq::empty()));
        },
    }
}

/// What the frames of a walk that has just started stand for.
pub open spec fn start_ctx(tree: DirTree, root: PathSpec, excluded: Seq<PathSpec>) -> Seq<
    FrameCtx,
> {
    if exclusion(root, excluded) is Some {
        seq![FrameCtx { node: tree, stack: Seq::empty() }]
    } else {
        Seq::empty()
    }
}

/// Each step keeps the machine in the walk of the tree, and what was still
/// to come before the step is what the step hands out, followed by what is
/// still to come after it.
pub proof fn law_step_refines(walk: WalkSpec, ctx: Seq<FrameCtx>)
    requires
        related(walk, ctx),
        walk.frames.len() > 0,
        walk.stage != Stage::Children,
    ensures
        ({
            let next = spec_step(walk, answer(walk, ctx));
            let ctx2 = step_ctx(walk, ctx);
            &&& related(next.0, ctx2)
            &&& next.0.stage != Stage::Children
            &&& remaining(walk, ctx) == emitted(next.1).followed_by(remaining(next.0, ctx2))
            &&& carried_over(ctx, ctx2)
        }),
{
    assert(ctx.drop_last() =~= ctx.subrange(0, ctx.len() - 1));
    let top = walk.frames.last();
    let at = ctx.last();
    let outer = rest_below(walk.frames.drop_last(), ctx.drop_last());
    let next = spec_step(walk, answer(walk, ctx));
    let ctx2 = step_ctx(walk, ctx);
    lemma_nothing_neutral(outer);
    lemma_nothing_neutral(remaining(next.0, ctx2));
    match walk.stage {
        Stage::Marker(index) => {
            if at.node.present.contains(marker_name(index as nat)) {
                assert(has_marker(at.node));
                lemma_skip(walk, ctx);
            } else if index + 1 < MARKER_COUNT {
                assert forall|j: nat| j < index + 1 implies !at.node.present.contains(
                    #[trigger] marker_name(j),
                ) by {
                    if j == index {
                    }
                }
            } else {
                assert(!at.node.present.contains(marker_name(0)));
                assert(!has_marker(at.node));
                if is_ignored(walk.matchers, top.dir) {
                    lemma_followed_by_assoc(Outcome::report(top.dir), Outcome::nothing(), outer);
                }
            }
        },
        Stage::Reporting => {
            lemma_skip(walk, ctx);
        },
        Stage::Rules => {
            match matcher_of(at.node.rules) {
                Err(error) => {},
                Ok(None) => {},
                Ok(Some(matcher)) => {
                    let grown = FrameSpec { pushed: 1, ..top };
                    assert(next.0.frames.last() == grown);
                    assert(next.0.frames.drop_last() =~= walk.frames.drop_last());
                },
            }
        },
        Stage::Listing => {
            match at.node.listing {
                None => {
                    lemma_skip(walk, ctx);
                },
                Some(entries) => {
                    let listed = FrameSpec { entries: entries_of(entries), next: 0, ..top };
                    let frames = walk.frames.drop_last().push(listed);
                    assert(frames.last() == listed);
                    assert(frames.drop_last() =~= walk.frames.drop_last());
                    assert(ctx.len() == frames.len());
                    assert(settled(frames, ctx));
                    lemma_advance(frames, walk.matchers, ctx);
                },
            }
        },
        _ => {},
    }
}

/// What a number of steps, each answered from the tree, hand out one after
/// another, and where they leave the machine. A walk that is over takes no
/// further step.
pub open spec fn run(walk: WalkSpec, ctx: Seq<FrameCtx>, steps: nat) -> (
    Outcome,
    WalkSpec,
    Seq<FrameCtx>,
)
    decreases steps,
{
    if steps == 0 || walk.frames.len() == 0 {
        (Outcome::nothing(), walk, ctx)
    } else {
        let next = spec_step(walk, answer(walk, ctx));
        let rest = run(next.0, step_ctx(walk, ctx), (steps - 1) as nat);
        (emitted(next.1).followed_by(rest.0), rest.1, rest.2)
    }
}

/// However many steps a machine takes, what was still to come at first is
/// what the steps hand out, followed by what is still to come after them.
pub proof fn law_run_refines(walk: WalkSpec, ctx: Seq<FrameCtx>, steps: nat)
    requires
        related(walk, ctx),
        walk.stage != Stage::Children,
    ensures
        related(run(walk, ctx, steps).1, run(walk, ctx, steps).2),
        run(walk, ctx, steps).1.stage != Stage::Children,
        remaining(walk, ctx) == run(walk, ctx, steps).0.followed_by(
            remaining(run(walk, ctx, steps).1, run(walk, ctx, steps).2),
        ),
    decreases steps,
{
    if steps == 0 || walk.frames.len() == 0 {
        lemma_nothing_neutral(remaining(walk, ctx));
    } else {
        let next = spec_step(walk, answer(walk, ctx));
        let ctx2 = step_ctx(walk, ctx);
        let rest = run(next.0, ctx2, (steps - 1) as nat);
        law_step_refines(walk, ctx);
        law_run_refines(next.0, ctx2, (steps - 1) as nat);
        lemma_followed_by_assoc(emitted(next.1), rest.0, remaining(rest.1, rest.2));
    }
}

/// A whole walk: where the machine, started on a root and answered from a
/// tree, has come to its end, it has handed out what the description of the
/// walk of that tree says, report for report, and has failed where it says.
pub proof fn law_walk_refines(tree: DirTree, root: PathSpec, excluded: Seq<PathSpec>, steps: nat)
    requires
        run(spec_start(root, excluded).0, start_ctx(tree, root, excluded), steps).1.frames.len()
            == 0,
    ensures
        run(spec_start(root, excluded).0, start_ctx(tree, root, excluded), steps).0 == visit(
            tree,
            root,
            excluded,
            Seq::empty(),
        ),
        run(spec_start(root, excluded).0, start_ctx(tree, root, excluded), steps).1.matchers
            == Seq::<Gitignore>::empty(),
{
    let started = spec_start(root, excluded);
    let ctx = start_ctx(tree, root, excluded);
    let end = run(started.0, ctx, steps);
    law_start_refines(tree, root, excluded);
    law_run_refines(started.0, ctx, steps);
    lemma_nothing_neutral(end.0);
}

/// A machine that has left every frame has nothing more to come, and no
/// matcher left on its stack.
pub proof fn law_end_refines(walk: WalkSpec, ctx: Seq<FrameCtx>)
    requires
        related(walk, ctx),
        walk.frames.len() == 0,
    ensures
        remaining(walk, ctx) == Outcome::nothing(),
        walk.matchers == Seq::<Gitignore>::empty(),
{
}

} // verus!
