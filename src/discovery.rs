//! Which children of a base directory are taken as repositories.
use vstd::prelude::*;
use crate::config::{BaseDirEntry, DirSettings, strs, text_eq};

verus! {

/// An immediate entry of a base directory, as the file system shows it.
#[derive(Clone, Debug, PartialEq, Eq)]
pub struct DirChild {
    pub name: String,
    /// The entry is a directory (not a file).
    pub is_dir: bool,
    /// The entry opened as a repository.
    pub is_repo: bool,
}

/// Whether an entry named `name` is a candidate: a directory, not ignored,
/// and named in the list of names to keep when that list is not empty.
pub open spec fn wanted_spec(base: DirSettings, name: Seq<char>, is_dir: bool) -> bool {
    is_dir && !base.ignore.contains(name) && (base.only.len() == 0 || base.only.contains(name))
}

/// Whether an entry is taken as a repository.
pub open spec fn kept(base: DirSettings, c: DirChild) -> bool {
    wanted_spec(base, c.name@, c.is_dir) && c.is_repo
}

/// The names of the entries taken as repositories, in the order given.
pub open spec fn discovered(base: DirSettings, children: Seq<DirChild>) -> Seq<Seq<char>>
    decreases children.len(),
{
    if children.len() == 0 {
        seq![]
    } else {
        let rest = discovered(base, children.drop_last());
        if kept(base, children.last()) {
            rest.push(children.last().name@)
        } else {
            rest
        }
    }
}

/// Whether `name` is among `names`.
pub fn contains_name(names: &Vec<String>, name: &str) -> (r: bool)
    ensures
        r == strs(names@).contains(name@),
{
    let mut i: usize = 0;
    while i < names.len()
        invariant
            i <= names@.len(),
            forall|j: int| 0 <= j < i ==> names@[j]@ != name@,
        decreases names.len() - i,
    {
        if text_eq(names[i].as_str(), name) {
            assert(strs(names@)[i as int] == name@);
            return true;
        }
        i = i + 1;
    }
    assert(!strs(names@).contains(name@)) by {
        if strs(names@).contains(name@) {
            let j = choose|j: int| 0 <= j < strs(names@).len() && strs(names@)[j] == name@;
            assert(names@[j]@ == name@);
        }
    }
    false
}

/// Whether an entry should be opened as a candidate repository.
pub fn wanted(base: &BaseDirEntry, name: &str, is_dir: bool) -> (r: bool)
    ensures
        r == wanted_spec(base@, name@, is_dir),
{
    is_dir && !contains_name(&base.ignore, name) && (base.only.len() == 0 || contains_name(
        &base.only,
        name,
    ))
}

/// The names of the children of `base` taken as repositories: directories
/// that opened as repositories, filtered by the ignore list and the list of
/// names to keep.
pub fn discover(base: &BaseDirEntry, children: &Vec<DirChild>) -> (r: Vec<String>)
    ensures
        strs(r@) == discovered(base@, children@),
{
    let mut out: Vec<String> = Vec::new();
    let mut i: usize = 0;
    assert(children@.take(0) =~= seq![]);
    assert(strs(out@) =~= seq![]);
    while i < children.len()
        invariant
            i <= children@.len(),
            strs(out@) == discovered(base@, children@.take(i as int)),
        decreases children.len() - i,
    {
        assert(children@.take(i + 1).drop_last() =~= children@.take(i as int));
        assert(children@.take(i + 1).last() == children@[i as int]);
        let c = &children[i];
        if wanted(base, c.name.as_str(), c.is_dir) && c.is_repo {
            let ghost before = out@;
            out.push(c.name.clone());
            assert(strs(out@) =~= strs(before).push(c.name@));
        }
        i = i + 1;
    }
    assert(children@.take(i as int) =~= children@);
    out
}

/// Each discovered name is a directory child that opened as a repository,
/// is not ignored, and, when the list of names to keep is not empty, is in
/// it; and each such child is discovered.
pub proof fn lemma_discovery_filters(base: DirSettings, children: Seq<DirChild>)
    ensures
        forall|n: Seq<char>| #[trigger]
            discovered(base, children).contains(n) ==> !base.ignore.contains(n) && (
            base.only.len() > 0 ==> base.only.contains(n)),
        forall|n: Seq<char>| #[trigger]
            discovered(base, children).contains(n) <==> exists|i: int|
                0 <= i < children.len() && children[i].name@ == n && kept(base, children[i]),
    decreases children.len(),
{
    if children.len() > 0 {
        let init = children.drop_last();
        lemma_discovery_filters(base, init);
        let rest = discovered(base, init);
        assert forall|n: Seq<char>| #[trigger]
            discovered(base, children).contains(n) <==> exists|i: int|
                0 <= i < children.len() && children[i].name@ == n && kept(base, children[i]) by {
            if discovered(base, children).contains(n) {
                if rest.contains(n) {
                    let i = choose|i: int|
                        0 <= i < init.len() && init[i].name@ == n && kept(base, init[i]);
                    assert(children[i] == init[i]);
                } else {
                    let k = choose|k: int| 0 <= k < discovered(base, children).len()
                        && discovered(base, children)[k] == n;
                    assert(k == rest.len());
                    assert(children[children.len() - 1] == children.last());
                }
            }
            if exists|i: int|
                0 <= i < children.len() && children[i].name@ == n && kept(base, children[i]) {
                let i = choose|i: int|
                    0 <= i < children.len() && children[i].name@ == n && kept(base, children[i]);
                if i < init.len() {
                    assert(init[i] == children[i]);
                    assert(rest.contains(n));
                    let k = choose|k: int| 0 <= k < rest.len() && rest[k] == n;
                    assert(discovered(base, children)[k] == n);
                } else {
                    assert(discovered(base, children).last() == n);
                }
            }
        }
    }
}

} // verus!
