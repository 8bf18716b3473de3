//! Which marker file a reported directory is given, by its name.

use crate::config::chars_of;
use crate::walk::{CACHEDIR_MARKER, DEJA_DUP_MARKER};
use vstd::prelude::*;

verus! {

/// The name is that of a directory of dependencies or of build output.
pub open spec fn is_build_dir(name: Seq<char>) -> bool {
    ||| name == "node_modules"@
    ||| name == "venv"@
    ||| name == ".venv"@
    ||| name == ".gradle"@
    ||| name == "target"@
    ||| name == "build"@
    ||| name == "out"@
    ||| name == "dist"@
}

/// `needle` stands somewhere in `text`.
pub open spec fn mentions(text: Seq<char>, needle: Seq<char>) -> bool {
    exists|i: int|
        0 <= i <= text.len() - needle.len() && #[trigger] text.subrange(i, i + needle.len())
            == needle
}

/// The marker for a directory of this name: the backup's own marker for
/// dependencies and build output, the cache tag for whatever calls itself a
/// cache, and none for any other name.
pub open spec fn marker_of(name: Seq<char>) -> Option<Seq<char>> {
    if is_build_dir(name) {
        Some(DEJA_DUP_MARKER@)
    } else if mentions(name, "cache"@) {
        Some(CACHEDIR_MARKER@)
    } else {
        None
    }
}

/// Whether two texts are the same.
pub fn same_text(left: &str, right: &str) -> (same: bool)
    ensures
        same == (left@ == right@),
{
    String::from_str(left) == String::from_str(right)
}

/// Whether `needle` stands in `text` at the index `at`.
fn occurs_at(text: &Vec<char>, needle: &Vec<char>, at: usize) -> (yes: bool)
    requires
        at + needle.len() <= text.len(),
    ensures
        yes == (text@.subrange(at as int, at + needle.len()) == needle@),
{
    let mut k: usize = 0;
    while k < needle.len()
        invariant
            k <= needle.len(),
            at + needle.len() <= text.len(),
            forall|j: int| 0 <= j < k ==> text@[at + j] == needle@[j],
        decreases needle.len() - k,
    {
        if text[at + k] != needle[k] {
            assert(text@.subrange(at as int, at + needle.len())[k as int] != needle@[k as int]);
            return false;
        }
        k += 1;
    }
    assert(text@.subrange(at as int, at + needle.len()) =~= needle@);
    true
}

/// Whether `needle` stands somewhere in `text`.
pub fn contains_text(text: &str, needle: &str) -> (yes: bool)
    ensures
        yes == mentions(text@, needle@),
{
    let hay = chars_of(text);
    let pattern = chars_of(needle);
    if pattern.len() > hay.len() {
        return false;
    }
    let last: usize = hay.len() - pattern.len();
    let mut at: usize = 0;
    loop
        invariant
            at <= last,
            hay@ == text@,
            pattern@ == needle@,
            last == hay.len() - pattern.len(),
            forall|i: int| 0 <= i < at ==> #[trigger] hay@.subrange(i, i + pattern.len()) != pattern@,
        decreases last - at,
    {
        if occurs_at(&hay, &pattern, at) {
            return true;
        }
        if at == last {
            return false;
        }
        at += 1;
    }
}

/// The marker file to put into a reported directory called `name`, if any.
pub fn marker_for(name: &str) -> (marker: Option<&'static str>)
    ensures
        marker is Some <==> marker_of(name@) is Some,
        marker matches Some(file) ==> marker_of(name@) == Some(file@),
{
    if same_text(name, "node_modules") || same_text(name, "venv") || same_text(name, ".venv")
        || same_text(name, ".gradle") || same_text(name, "target") || same_text(name, "build")
        || same_text(name, "out") || same_text(name, "dist") {
        Some(DEJA_DUP_MARKER)
    } else if contains_text(name, "cache") {
        Some(CACHEDIR_MARKER)
    } else {
        None
    }
}

} // verus!
