//! Paths of the file system, as sequences of components.
//!
//! A path is absolute and has every symbolic link followed. Its components are
//! bytes, since names in a file system need not be text.
use vstd::prelude::*;

verus! {

/// Whether `path` is `root` or lies below it: the components of `root` are the
/// first ones of `path`.
pub open spec fn lies_below(path: Seq<Seq<u8>>, root: Seq<Seq<u8>>) -> bool {
    root.is_prefix_of(path)
}

fn same_bytes(a: &Vec<u8>, b: &Vec<u8>) -> (r: bool)
    ensures
        r == (a.deep_view() == b.deep_view()),
{
    assert(a.deep_view() =~= a@);
    assert(b.deep_view() =~= b@);
    if a.len() != b.len() {
        return false;
    }
    let mut i: usize = 0;
    while i < a.len()
        invariant
            i <= a.len(),
            a.len() == b.len(),
            a.deep_view() == a@,
            b.deep_view() == b@,
            forall|j: int| 0 <= j < i ==> a@[j] == b@[j],
        decreases a.len() - i,
    {
        if a[i] != b[i] {
            return false;
        }
        i += 1;
    }
    assert(a@ =~= b@);
    true
}

/// Whether `path` is `root` or lies below it.
pub fn is_below(path: &[Vec<u8>], root: &[Vec<u8>]) -> (r: bool)
    ensures
        r == lies_below(path.deep_view(), root.deep_view()),
{
    let ghost whole = path.deep_view();
    let ghost first = root.deep_view();
    if path.len() < root.len() {
        return false;
    }
    let mut i: usize = 0;
    while i < root.len()
        invariant
            i <= root.len() <= path.len(),
            whole == path.deep_view(),
            first == root.deep_view(),
            forall|j: int| 0 <= j < i ==> #[trigger] first[j] == whole[j],
        decreases root.len() - i,
    {
        if !same_bytes(&path[i], &root[i]) {
            assert(first[i as int] != whole[i as int]);
            assert(first.is_prefix_of(whole) ==> first[i as int] == whole.subrange(
                0,
                first.len() as int,
            )[i as int]);
            return false;
        }
        assert(first[i as int] == whole[i as int]);
        i += 1;
    }
    assert(first =~= whole.subrange(0, first.len() as int));
    true
}

/// Whether two paths are the same.
pub fn same_path(a: &[Vec<u8>], b: &[Vec<u8>]) -> (r: bool)
    ensures
        r == (a.deep_view() == b.deep_view()),
{
    let r = a.len() == b.len() && is_below(a, b);
    proof {
        if a@.len() == b@.len() {
            assert(a.deep_view().subrange(0, b.deep_view().len() as int) =~= a.deep_view());
        } else {
            assert(a.deep_view().len() != b.deep_view().len());
        }
    }
    r
}

// ---------------------------------------------------------------------------
// Laws

/// A path lies below itself, and what lies below a path that lies below a root
/// lies below that root. Two paths that lie below each other are the same.
pub proof fn law_below_is_an_order(a: Seq<Seq<u8>>, b: Seq<Seq<u8>>, c: Seq<Seq<u8>>)
    ensures
        lies_below(a, a),
        lies_below(a, b) && lies_below(b, c) ==> lies_below(a, c),
        lies_below(a, b) && lies_below(b, a) ==> a == b,
{
    assert(a.subrange(0, a.len() as int) =~= a);
    if lies_below(a, b) && lies_below(b, c) {
        assert(a.subrange(0, b.len() as int).subrange(0, c.len() as int) =~= a.subrange(
            0,
            c.len() as int,
        ));
    }
    assert(b.subrange(0, b.len() as int) =~= b);
}

/// What lies below a path is the path with further components: adding some gives
/// a path below it, and one component that differs does not.
pub proof fn law_below_means_further_components(
    root: Seq<Seq<u8>>,
    more: Seq<Seq<u8>>,
    path: Seq<Seq<u8>>,
    i: int,
)
    ensures
        lies_below(root + more, root),
        lies_below(path, root) ==> path == root + path.skip(root.len() as int),
        0 <= i < root.len() && (i >= path.len() || path[i] != root[i]) ==> !lies_below(path, root),
{
    assert((root + more).subrange(0, root.len() as int) =~= root);
    if lies_below(path, root) {
        assert(path =~= path.subrange(0, root.len() as int) + path.skip(root.len() as int));
        if 0 <= i < root.len() {
            assert(path.subrange(0, root.len() as int)[i] == path[i]);
        }
    }
}

} // verus!
