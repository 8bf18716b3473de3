//! The walk as a state machine. It performs no input or output: each step
//! takes the answer to the question it asked last and returns the next
//! question, a directory to report, or the end of the walk.

use crate::matcher::{ignored_by_any, is_ignored, matcher_of, maybe_build_gitignore, WalkError};
use crate::path::{check_exclusion, exclusion, path_views, DirPath, PathSpec};
use crate::stack_vec::{release, released};
use ignore::gitignore::{Gitignore, GitignoreBuilder};
use vstd::prelude::*;

verus! {

/// A directory that holds a file of this name was dealt with before.
pub const DEJA_DUP_MARKER: &'static str = ".deja-dup-ignore";

/// A directory that holds a file of this name is a cache, and dealt with.
pub const CACHEDIR_MARKER: &'static str = "CACHEDIR.TAG";

/// The file that holds the ignore rules of a directory.
pub const IGNORE_FILE: &'static str = ".gitignore";

/// The directory in which version control keeps its own data.
pub const VCS_DIR: &'static str = ".git";

/// How many marker names there are.
pub const MARKER_COUNT: usize = 2;

/// The marker names, in the order in which a walk asks for them.
pub open spec fn marker_name(index: nat) -> Seq<char> {
    if index == 0 {
        DEJA_DUP_MARKER@
    } else {
        CACHEDIR_MARKER@
    }
}

/// What the walk is waiting for, of the directory on top of its frames.
#[derive(Clone, Copy, Debug, PartialEq, Eq, Structural)]
pub enum Stage {
    /// Whether the marker file of this index exists in the directory.
    Marker(usize),
    /// That the directory was reported.
    Reporting,
    /// The ignore rules of the directory.
    Rules,
    /// The entries of the directory.
    Listing,
    /// Nothing: the walk is between two entries of the directory.
    Children,
    /// Nothing: the walk is over.
    Finished,
    /// Nothing: the walk has failed.
    Failed,
}

/// One entry of a directory, in the model.
pub struct EntrySpec {
    pub name: Seq<char>,
    pub is_dir: bool,
}

/// A directory that the walk has entered and not left, in the model.
pub struct FrameSpec {
    /// The directory.
    pub dir: PathSpec,
    /// The excluded paths that lie inside it.
    pub excluded: Seq<PathSpec>,
    /// How many matchers the directory has put on the stack.
    pub pushed: nat,
    /// Its entries, once they are known.
    pub entries: Seq<EntrySpec>,
    /// The index of the entry to look at next.
    pub next: nat,
}

/// The state of a walk, in the model.
pub struct WalkSpec {
    /// The directories entered and not left, outermost first.
    pub frames: Seq<FrameSpec>,
    /// The matchers of those directories that have rules, outermost first.
    pub matchers: Seq<Gitignore>,
    pub stage: Stage,
}

/// An answer of the caller, in the model.
pub enum EventSpec {
    Exists(bool),
    Reported,
    Rules(Option<GitignoreBuilder>),
    Listing(Option<Seq<EntrySpec>>),
}

/// A request of the walk, in the model.
pub enum ActionSpec {
    Exists { dir: PathSpec, name: Seq<char> },
    Report(PathSpec),
    ReadRules(PathSpec),
    List(PathSpec),
    Finished,
}

/// Whether the walk looks into an entry: it is a directory, and not the one
/// of version control.
pub open spec fn is_candidate(entry: EntrySpec) -> bool {
    entry.is_dir && entry.name != VCS_DIR@
}

/// The frame of a directory that was just entered.
pub open spec fn fresh_frame(dir: PathSpec, kept: Seq<PathSpec>) -> FrameSpec {
    FrameSpec { dir, excluded: kept, pushed: 0, entries: Seq::empty(), next: 0 }
}

/// Entering `dir`: nothing happens where it is excluded, else it becomes the
/// top frame and the walk asks for its first marker.
pub open spec fn spec_enter(
    frames: Seq<FrameSpec>,
    matchers: Seq<Gitignore>,
    dir: PathSpec,
    excluded: Seq<PathSpec>,
) -> Option<(WalkSpec, ActionSpec)> {
    match exclusion(dir, excluded) {
        None => None,
        Some(kept) => Some(
            (
                WalkSpec {
                    frames: frames.push(fresh_frame(dir, kept)),
                    matchers,
                    stage: Stage::Marker(0),
                },
                ActionSpec::Exists { dir, name: marker_name(0) },
            ),
        ),
    }
}

/// How many entries of the top frame are still to be looked at.
pub open spec fn entries_left(frames: Seq<FrameSpec>) -> nat {
    if frames.len() > 0 && frames.last().next < frames.last().entries.len() {
        (frames.last().entries.len() - frames.last().next) as nat
    } else {
        0
    }
}

/// The top frame with one more entry looked at.
pub open spec fn past_entry(frames: Seq<FrameSpec>) -> Seq<FrameSpec> {
    frames.drop_last().push(FrameSpec { next: frames.last().next + 1, ..frames.last() })
}

/// Moving on to the next directory to evaluate: entries that are no
/// candidates and candidates that are excluded are passed over, and a frame
/// without entries left is dropped together with the matchers it pushed.
pub open spec fn spec_advance(frames: Seq<FrameSpec>, matchers: Seq<Gitignore>) -> (
    WalkSpec,
    ActionSpec,
)
    decreases frames.len(), entries_left(frames),
{
    if frames.len() == 0 {
        (WalkSpec { frames, matchers, stage: Stage::Finished }, ActionSpec::Finished)
    } else {
        let top = frames.last();
        if top.next < top.entries.len() {
            let entry = top.entries[top.next as int];
            let after = past_entry(frames);
            if is_candidate(entry) {
                match spec_enter(after, matchers, top.dir.push(entry.name), top.excluded) {
                    Some(entered) => entered,
                    None => spec_advance(after, matchers),
                }
            } else {
                spec_advance(after, matchers)
            }
        } else {
            spec_advance(frames.drop_last(), released(matchers, top.pushed))
        }
    }
}

/// A result that is an action.
pub open spec fn go(walk: WalkSpec, action: ActionSpec) -> (WalkSpec, Result<ActionSpec, WalkError>) {
    (walk, Ok(action))
}

/// Leaving the top frame without having looked at any entry of it.
pub open spec fn spec_skip(walk: WalkSpec) -> (WalkSpec, Result<ActionSpec, WalkError>) {
    let moved = spec_advance(
        walk.frames.drop_last(),
        released(walk.matchers, walk.frames.last().pushed),
    );
    (moved.0, Ok(moved.1))
}

/// One step of the walk: the state and the request that follow from a state
/// and the answer to its last request. An answer that was not asked for
/// changes nothing and is an error.
pub open spec fn spec_step(walk: WalkSpec, event: EventSpec) -> (
    WalkSpec,
    Result<ActionSpec, WalkError>,
) {
    if walk.frames.len() == 0 {
        (walk, Err(WalkError::UnexpectedEvent))
    } else {
        let top = walk.frames.last();
        match (walk.stage, event) {
            (Stage::Marker(index), EventSpec::Exists(found)) => {
                if found {
                    spec_skip(walk)
                } else if index + 1 < MARKER_COUNT {
                    go(
                        WalkSpec { stage: Stage::Marker((index + 1) as usize), ..walk },
                        ActionSpec::Exists { dir: top.dir, name: marker_name((index + 1) as nat) },
                    )
                } else if is_ignored(walk.matchers, top.dir) {
                    go(WalkSpec { stage: Stage::Reporting, ..walk }, ActionSpec::Report(top.dir))
                } else {
                    go(WalkSpec { stage: Stage::Rules, ..walk }, ActionSpec::ReadRules(top.dir))
                }
            },
            (Stage::Reporting, EventSpec::Reported) => spec_skip(walk),
            (Stage::Rules, EventSpec::Rules(rules)) => {
                match matcher_of(rules) {
                    Err(error) => (
                        WalkSpec {
                            frames: Seq::empty(),
                            matchers: Seq::empty(),
                            stage: Stage::Failed,
                        },
                        Err(error),
                    ),
                    Ok(None) => go(
                        WalkSpec { stage: Stage::Listing, ..walk },
                        ActionSpec::List(top.dir),
                    ),
                    Ok(Some(matcher)) => go(
                        WalkSpec {
                            frames: walk.frames.drop_last().push(FrameSpec { pushed: 1, ..top }),
                            matchers: walk.matchers.push(matcher),
                            stage: Stage::Listing,
                        },
                        ActionSpec::List(top.dir),
                    ),
                }
            },
            (Stage::Listing, EventSpec::Listing(listing)) => {
                match listing {
                    None => spec_skip(walk),
                    Some(entries) => {
                        let moved = spec_advance(
                            walk.frames.drop_last().push(FrameSpec { entries, next: 0, ..top }),
                            walk.matchers,
                        );
                        (moved.0, Ok(moved.1))
                    },
                }
            },
            _ => (walk, Err(WalkError::UnexpectedEvent)),
        }
    }
}

/// The start of a walk of `root`: the walk of an excluded root is over at
/// once.
pub open spec fn spec_start(root: PathSpec, excluded: Seq<PathSpec>) -> (WalkSpec, ActionSpec) {
    match spec_enter(Seq::empty(), Seq::empty(), root, excluded) {
        Some(entered) => entered,
        None => spec_advance(Seq::empty(), Seq::empty()),
    }
}

/// One entry of a directory: its name, and whether it is a directory.
#[derive(Debug)]
pub struct Entry {
    pub name: String,
    pub is_dir: bool,
}

impl View for Entry {
    type V = EntrySpec;

    open spec fn view(&self) -> EntrySpec {
        EntrySpec { name: self.name@, is_dir: self.is_dir }
    }
}

/// The views of a list of entries.
pub open spec fn entry_views(entries: Seq<Entry>) -> Seq<EntrySpec> {
    Seq::new(entries.len(), |i: int| entries[i]@)
}

/// An answer of the caller to the last request of the walk.
#[derive(Debug)]
pub enum Event {
    /// Whether the file asked for exists.
    Exists(bool),
    /// The directory was reported.
    Reported,
    /// The rules of the directory's ignore-file, where it has one.
    Rules(Option<GitignoreBuilder>),
    /// The entries of the directory, or nothing where it cannot be read.
    Listing(Option<Vec<Entry>>),
}

impl View for Event {
    type V = EventSpec;

    open spec fn view(&self) -> EventSpec {
        match self {
            Event::Exists(found) => EventSpec::Exists(*found),
            Event::Reported => EventSpec::Reported,
            Event::Rules(rules) => EventSpec::Rules(*rules),
            Event::Listing(None) => EventSpec::Listing(None),
            Event::Listing(Some(entries)) => EventSpec::Listing(Some(entry_views(entries@))),
        }
    }
}

/// What the walk asks of its caller next.
#[derive(Debug)]
pub enum Action {
    /// Say whether `dir` holds a file called `name`.
    Exists { dir: DirPath, name: &'static str },
    /// Take note of `dir` as a directory to ignore.
    Report(DirPath),
    /// Read the ignore-file of this directory, if it has one.
    ReadRules(DirPath),
    /// List the entries of this directory.
    List(DirPath),
    /// Nothing more: the walk is over.
    Finished,
}

impl View for Action {
    type V = ActionSpec;

    open spec fn view(&self) -> ActionSpec {
        match self {
            Action::Exists { dir, name } => ActionSpec::Exists { dir: dir@, name: name@ },
            Action::Report(dir) => ActionSpec::Report(dir@),
            Action::ReadRules(dir) => ActionSpec::ReadRules(dir@),
            Action::List(dir) => ActionSpec::List(dir@),
            Action::Finished => ActionSpec::Finished,
        }
    }
}

/// The view of what a step returns.
pub open spec fn result_view(result: Result<Action, WalkError>) -> Result<ActionSpec, WalkError> {
    match result {
        Ok(action) => Ok(action@),
        Err(error) => Err(error),
    }
}

/// A directory that the walk has entered and not left.
struct Frame {
    dir: DirPath,
    excluded: Vec<DirPath>,
    has_matcher: bool,
    entries: Vec<Entry>,
    next: usize,
}

impl View for Frame {
    type V = FrameSpec;

    closed spec fn view(&self) -> FrameSpec {
        FrameSpec {
            dir: self.dir@,
            excluded: path_views(self.excluded@),
            pushed: if self.has_matcher { 1 } else { 0 },
            entries: entry_views(self.entries@),
            next: self.next as nat,
        }
    }
}

spec fn frame_views(frames: Seq<Frame>) -> Seq<FrameSpec> {
    Seq::new(frames.len(), |i: int| frames[i]@)
}

/// A walk in progress.
pub struct Walk {
    frames: Vec<Frame>,
    matchers: Vec<Gitignore>,
    stage: Stage,
}

impl View for Walk {
    type V = WalkSpec;

    closed spec fn view(&self) -> WalkSpec {
        WalkSpec { frames: frame_views(self.frames@), matchers: self.matchers@, stage: self.stage }
    }
}

/// The marker name of the given index.
fn marker_file(index: usize) -> (name: &'static str)
    ensures
        name@ == marker_name(index as nat),
{
    if index == 0 {
        DEJA_DUP_MARKER
    } else {
        CACHEDIR_MARKER
    }
}

/// Whether an entry of this name is the directory of version control.
fn is_vcs_dir(name: &String) -> (yes: bool)
    ensures
        yes == (name@ == VCS_DIR@),
{
    *name == String::from_str(VCS_DIR)
}

/// The frame for `dir`, unless `dir` is excluded.
fn open_frame(dir: DirPath, excluded: &Vec<DirPath>) -> (frame: Option<Frame>)
    ensures
        match exclusion(dir@, path_views(excluded@)) {
            None => frame is None,
            Some(kept) => frame matches Some(opened) && opened@ == fresh_frame(dir@, kept),
        },
{
    match check_exclusion(&dir, excluded) {
        None => None,
        Some(kept) => {
            let opened = Frame { dir, excluded: kept, has_matcher: false, entries: Vec::new(), next: 0 };
            assert(opened@.entries =~= Seq::<EntrySpec>::empty());
            Some(opened)
        },
    }
}

impl Walk {
    /// What the walk is waiting for.
    pub fn stage(&self) -> (stage: Stage)
        ensures
            stage == self@.stage,
    {
        self.stage
    }

    /// How many directories the walk has entered and not left.
    pub fn depth(&self) -> (depth: usize)
        ensures
            depth == self@.frames.len(),
    {
        self.frames.len()
    }

    /// How many matchers are on the stack.
    pub fn matcher_count(&self) -> (count: usize)
        ensures
            count == self@.matchers.len(),
    {
        self.matchers.len()
    }

    /// Makes `frame` the top frame and asks for its first marker.
    fn push_frame(&mut self, frame: Frame) -> (action: Action)
        ensures
            final(self)@ == (WalkSpec {
                frames: old(self)@.frames.push(frame@),
                matchers: old(self)@.matchers,
                stage: Stage::Marker(0),
            }),
            action@ == (ActionSpec::Exists { dir: frame@.dir, name: marker_name(0) }),
    {
        let dir = frame.dir.duplicate();
        self.frames.push(frame);
        self.stage = Stage::Marker(0);
        assert(frame_views(self.frames@) =~= frame_views(old(self).frames@).push(frame@));
        Action::Exists { dir, name: marker_file(0) }
    }

    /// Moves on to the next directory to evaluate, or to the end.
    fn advance(&mut self) -> (action: Action)
        ensures
            (final(self)@, action@) == spec_advance(old(self)@.frames, old(self)@.matchers),
    {
        loop
            invariant
                spec_advance(self@.frames, self@.matchers) == spec_advance(
                    old(self)@.frames,
                    old(self)@.matchers,
                ),
            decreases self.frames.len(), entries_left(self@.frames),
        {
            let ghost frames = self@.frames;
            let ghost matchers = self@.matchers;
            match self.frames.pop() {
                None => {
                    self.stage = Stage::Finished;
                    assert(self@.frames =~= frames);
                    return Action::Finished;
                },
                Some(mut top) => {
                    assert(frame_views(self.frames@) =~= frames.drop_last());
                    assert(top@ == frames.last());
                    if top.next < top.entries.len() {
                        let candidate = top.entries[top.next].is_dir && !is_vcs_dir(
                            &top.entries[top.next].name,
                        );
                        assert(candidate == is_candidate(frames.last().entries[top.next as int]));
                        let opened = if candidate {
                            open_frame(
                                top.dir.child(top.entries[top.next].name.as_str()),
                                &top.excluded,
                            )
                        } else {
                            None
                        };
                        top.next = top.next + 1;
                        self.frames.push(top);
                        assert(frame_views(self.frames@) =~= past_entry(frames));
                        match opened {
                            Some(frame) => {
                                return self.push_frame(frame);
                            },
                            None => {},
                        }
                    } else {
                        release(&mut self.matchers, if top.has_matcher { 1 } else { 0 });
                    }
                },
            }
        }
    }

    /// Leaves the top frame without looking at its entries, and moves on.
    fn skip(&mut self) -> (action: Action)
        requires
            old(self).frames.len() > 0,
        ensures
            (final(self)@, Ok::<ActionSpec, WalkError>(action@)) == spec_skip(old(self)@),
    {
        let top = self.frames.pop().unwrap();
        assert(frame_views(self.frames@) =~= old(self)@.frames.drop_last());
        assert(top@ == old(self)@.frames.last());
        release(&mut self.matchers, if top.has_matcher { 1 } else { 0 });
        self.advance()
    }

    /// Takes the answer to the last request and returns the next one.
    ///
    /// After `Finished` or an error the walk is over, and every further
    /// answer is unexpected.
    pub fn step(&mut self, event: Event) -> (result: Result<Action, WalkError>)
        ensures
            (final(self)@, result_view(result)) == spec_step(old(self)@, event@),
    {
        let count = self.frames.len();
        if count == 0 {
            return Err(WalkError::UnexpectedEvent);
        }
        assert(self@.frames.last() == self.frames@[count - 1]@);
        match (self.stage, event) {
            (Stage::Marker(index), Event::Exists(found)) => {
                if found {
                    Ok(self.skip())
                } else if index < MARKER_COUNT - 1 {
                    self.stage = Stage::Marker(index + 1);
                    Ok(
                        Action::Exists {
                            dir: self.frames[count - 1].dir.duplicate(),
                            name: marker_file(index + 1),
                        },
                    )
                } else if ignored_by_any(&self.matchers, &self.frames[count - 1].dir) {
                    self.stage = Stage::Reporting;
                    Ok(Action::Report(self.frames[count - 1].dir.duplicate()))
                } else {
                    self.stage = Stage::Rules;
                    Ok(Action::ReadRules(self.frames[count - 1].dir.duplicate()))
                }
            },
            (Stage::Reporting, Event::Reported) => Ok(self.skip()),
            (Stage::Rules, Event::Rules(rules)) => {
                match maybe_build_gitignore(rules) {
                    Err(error) => {
                        self.frames.clear();
                        self.matchers.clear();
                        self.stage = Stage::Failed;
                        assert(self@.frames =~= Seq::<FrameSpec>::empty());
                        Err(error)
                    },
                    Ok(None) => {
                        self.stage = Stage::Listing;
                        Ok(Action::List(self.frames[count - 1].dir.duplicate()))
                    },
                    Ok(Some(matcher)) => {
                        let mut top = self.frames.pop().unwrap();
                        let dir = top.dir.duplicate();
                        top.has_matcher = true;
                        self.frames.push(top);
                        self.matchers.push(matcher);
                        self.stage = Stage::Listing;
                        assert(self@.frames =~= old(self)@.frames.drop_last().push(
                            FrameSpec { pushed: 1, ..old(self)@.frames.last() },
                        ));
                        Ok(Action::List(dir))
                    },
                }
            },
            (Stage::Listing, Event::Listing(listing)) => {
                match listing {
                    None => Ok(self.skip()),
                    Some(entries) => {
                        let mut top = self.frames.pop().unwrap();
                        top.entries = entries;
                        top.next = 0;
                        self.frames.push(top);
                        assert(self@.frames =~= old(self)@.frames.drop_last().push(
                            FrameSpec {
                                entries: entry_views(entries@),
                                next: 0,
                                ..old(self)@.frames.last()
                            },
                        ));
                        Ok(self.advance())
                    },
                }
            },
            _ => Err(WalkError::UnexpectedEvent),
        }
    }
}

/// Starts the walk of the tree below `root` that never enters a path of
/// `exclude_paths`, and returns it with its first request.
pub fn find_directory_to_ignore(root: &DirPath, exclude_paths: &Vec<DirPath>) -> (started: (
    Walk,
    Action,
))
    ensures
        (started.0@, started.1@) == spec_start(root@, path_views(exclude_paths@)),
{
    let mut walk = Walk { frames: Vec::new(), matchers: Vec::new(), stage: Stage::Finished };
    assert(walk@.frames =~= Seq::<FrameSpec>::empty());
    assert(walk@.matchers =~= Seq::<Gitignore>::empty());
    match open_frame(root.duplicate(), exclude_paths) {
        Some(frame) => {
            let action = walk.push_frame(frame);
            (walk, action)
        },
        None => {
            let action = walk.advance();
            (walk, action)
        },
    }
}

} // verus!
