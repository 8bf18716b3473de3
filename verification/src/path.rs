//! Directory paths as sequences of components, and the list of paths that a
//! walk must never enter.

use vstd::prelude::*;

verus! {

/// A path in the model: its components, outermost first.
pub type PathSpec = Seq<Seq<char>>;

/// An absolute directory path, held as its components. The root of the file
/// system is a component of its own, so that one path lies inside another
/// exactly when the other's components are a prefix of its own.
#[derive(Debug)]
pub struct DirPath {
    pub components: Vec<String>,
}

impl View for DirPath {
    type V = PathSpec;

    open spec fn view(&self) -> PathSpec {
        Seq::new(self.components@.len(), |i: int| self.components@[i]@)
    }
}

/// The views of a list of paths.
pub open spec fn path_views(paths: Seq<DirPath>) -> Seq<PathSpec> {
    Seq::new(paths.len(), |i: int| paths[i]@)
}

/// `dir` is `base` itself or lies somewhere below it.
pub open spec fn within(dir: PathSpec, base: PathSpec) -> bool {
    base.is_prefix_of(dir)
}

/// `dir` is one of the excluded paths or lies below one.
pub open spec fn is_excluded(dir: PathSpec, excluded: Seq<PathSpec>) -> bool {
    exists|i: int| 0 <= i < excluded.len() && within(dir, #[trigger] excluded[i])
}

/// The excluded paths that can still matter below `dir`: those inside it, in
/// the order in which they were given.
pub open spec fn narrowed(dir: PathSpec, excluded: Seq<PathSpec>) -> Seq<PathSpec> {
    excluded.filter(|e: PathSpec| within(e, dir))
}

/// What the exclusion check of a directory yields: `None` where the
/// directory is excluded, else the list to hand to its children.
pub open spec fn exclusion(dir: PathSpec, excluded: Seq<PathSpec>) -> Option<Seq<PathSpec>> {
    if is_excluded(dir, excluded) {
        None
    } else {
        Some(narrowed(dir, excluded))
    }
}

impl DirPath {
    /// The path with the given components.
    pub fn new(components: Vec<String>) -> (path: DirPath)
        ensures
            path.components == components,
    {
        DirPath { components }
    }

    /// A copy of this path.
    pub fn duplicate(&self) -> (copy: DirPath)
        ensures
            copy@ == self@,
    {
        let mut components: Vec<String> = Vec::new();
        let mut i: usize = 0;
        while i < self.components.len()
            invariant
                i <= self.components.len(),
                components.len() == i,
                forall|k: int| 0 <= k < i ==> components@[k]@ == self.components@[k]@,
            decreases self.components.len() - i,
        {
            components.push(self.components[i].clone());
            i += 1;
        }
        let copy = DirPath { components };
        assert(copy@ =~= self@);
        copy
    }

    /// The directory `name` directly inside this one.
    pub fn child(&self, name: &str) -> (path: DirPath)
        ensures
            path@ == self@.push(name@),
    {
        let mut path = self.duplicate();
        path.components.push(String::from_str(name));
        assert(path@ =~= self@.push(name@));
        path
    }

    /// Whether this path is `base` or lies below it, component by component.
    pub fn starts_with(&self, base: &DirPath) -> (yes: bool)
        ensures
            yes == within(self@, base@),
    {
        if base.components.len() > self.components.len() {
            return false;
        }
        let mut i: usize = 0;
        while i < base.components.len()
            invariant
                i <= base.components.len() <= self.components.len(),
                forall|k: int| 0 <= k < i ==> self@[k] == base@[k],
            decreases base.components.len() - i,
        {
            if self.components[i] != base.components[i] {
                assert(self@[i as int] != base@[i as int]);
                return false;
            }
            i += 1;
        }
        assert(base@ =~= self@.subrange(0, base@.len() as int));
        true
    }
}

/// The exclusion check of one directory: `None` where `dir` is excluded,
/// else the excluded paths that lie inside `dir`.
pub fn check_exclusion(dir: &DirPath, excluded: &Vec<DirPath>) -> (kept: Option<Vec<DirPath>>)
    ensures
        kept is None <==> is_excluded(dir@, path_views(excluded@)),
        kept matches Some(list) ==> path_views(list@) == narrowed(dir@, path_views(excluded@)),
{
    let ghost all = path_views(excluded@);
    let ghost inside = |e: PathSpec| within(e, dir@);
    let mut list: Vec<DirPath> = Vec::new();
    let mut i: usize = 0;
    assert(all.take(0).filter(inside) =~= Seq::<PathSpec>::empty()) by {
        reveal(Seq::filter);
    }
    while i < excluded.len()
        invariant
            i <= excluded.len(),
            all == path_views(excluded@),
            inside == (|e: PathSpec| within(e, dir@)),
            forall|k: int| 0 <= k < i ==> !within(dir@, #[trigger] all[k]),
            path_views(list@) =~= all.take(i as int).filter(inside),
        decreases excluded.len() - i,
    {
        let ghost done = all.take(i as int);
        assert(all.take(i + 1) =~= done.push(all[i as int]));
        proof {
            done.lemma_filter_push(all[i as int], inside);
        }
        if dir.starts_with(&excluded[i]) {
            assert(within(dir@, all[i as int]));
            return None;
        } else if excluded[i].starts_with(dir) {
            let ghost before = path_views(list@);
            list.push(excluded[i].duplicate());
            assert(path_views(list@) =~= before.push(all[i as int]));
        }
        i += 1;
    }
    assert(all.take(i as int) =~= all);
    Some(list)
}

} // verus!
