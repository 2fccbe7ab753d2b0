//! When two paths are the same, spelled differently or not.
//!
//! Paths are compared by their components, as Unix has them and
//! `std::path::Path` compares them: repeated and trailing slashes do not
//! count, nor does a `.` anywhere but at the start of a relative path.

use vstd::prelude::*;
use vstd::string::StringSliceAdditionalSpecFns;

use crate::bytes::{contents, same_bytes, starts_with, utf8};
use crate::split::{lemma_split_concat, lemma_split_extend, split};

verus! {

/// Whether a path starts at the root.
pub open spec fn is_rooted(path: Seq<u8>) -> bool {
    path.len() > 0 && path[0] == 0x2f
}

/// Whether a path starts at the current directory by saying so.
pub open spec fn starts_here(path: Seq<u8>) -> bool {
    path == utf8(".") || utf8("./").is_prefix_of(path)
}

/// Whether a stretch between slashes is the name of something.
pub open spec fn is_name(part: Seq<u8>) -> bool {
    part.len() > 0 && part != utf8(".")
}

/// The names along a path.
pub open spec fn path_names(path: Seq<u8>) -> Seq<Seq<u8>> {
    split(path, 0x2f).filter(|part: Seq<u8>| is_name(part))
}

/// Whether two paths have the same components.
pub open spec fn paths_agree(a: Seq<u8>, b: Seq<u8>) -> bool {
    &&& is_rooted(a) == is_rooted(b)
    &&& starts_here(a) == starts_here(b)
    &&& path_names(a) == path_names(b)
}

/// The names along a path.
fn names_of(path: &[u8]) -> (names: Vec<Vec<u8>>)
    ensures
        contents(names@) == path_names(path@),
{
    let mut names: Vec<Vec<u8>> = Vec::new();
    let mut part: Vec<u8> = Vec::new();
    let ghost mut seen: Seq<u8> = Seq::empty();
    let ghost is = |part: Seq<u8>| is_name(part);
    assert(split(seen, 0x2fu8).drop_last() =~= Seq::empty());
    assert(contents(names@) =~= Seq::<Seq<u8>>::empty().filter(is));
    for i in 0..path.len()
        invariant
            seen == path@.take(i as int),
            part@ == split(seen, 0x2f).last(),
            split(seen, 0x2f).len() > 0,
            is == (|part: Seq<u8>| is_name(part)),
            contents(names@) == split(seen, 0x2f).drop_last().filter(is),
    {
        let ghost so_far = seen;
        let byte = path[i];
        proof {
            seen = seen.push(byte);
            assert(seen.drop_last() =~= so_far);
            let pieces = split(so_far, 0x2f);
            assert(pieces =~= pieces.drop_last().push(pieces.last()));
            pieces.drop_last().lemma_filter_push(pieces.last(), is);
        }
        if byte == 0x2f {
            if part.len() > 0 && !same_bytes(part.as_slice(), ".".as_bytes()) {
                let ghost had = names@;
                names.push(part);
                assert(contents(names@) =~= contents(had).push(part@));
            }
            part = Vec::new();
            assert(split(seen, 0x2f).drop_last() =~= split(so_far, 0x2f));
        } else {
            part.push(byte);
            assert(split(seen, 0x2f).drop_last() =~= split(so_far, 0x2f).drop_last());
        }
        assert(seen =~= path@.take(i + 1));
    }
    proof {
        assert(seen =~= path@);
        let pieces = split(seen, 0x2f);
        assert(pieces =~= pieces.drop_last().push(pieces.last()));
        pieces.drop_last().lemma_filter_push(pieces.last(), is);
    }
    if part.len() > 0 && !same_bytes(part.as_slice(), ".".as_bytes()) {
        let ghost had = names@;
        names.push(part);
        assert(contents(names@) =~= contents(had).push(part@));
    }
    names
}

/// Whether two lists hold the same byte strings in the same order.
fn same_list(a: &Vec<Vec<u8>>, b: &Vec<Vec<u8>>) -> (same: bool)
    ensures
        same == (contents(a@) == contents(b@)),
{
    if a.len() != b.len() {
        assert(contents(a@).len() != contents(b@).len());
        return false;
    }
    for i in 0..a.len()
        invariant
            a@.len() == b@.len(),
            forall|j: int| 0 <= j < i ==> contents(a@)[j] == contents(b@)[j],
    {
        if !same_bytes(a[i].as_slice(), b[i].as_slice()) {
            assert(contents(a@)[i as int] != contents(b@)[i as int]);
            return false;
        }
    }
    assert(contents(a@) =~= contents(b@));
    true
}

/// Whether a path starts at the root.
fn rooted(path: &[u8]) -> (rooted: bool)
    ensures
        rooted == is_rooted(path@),
{
    path.len() > 0 && path[0] == 0x2f
}

/// Whether a path starts at the current directory by saying so.
fn here(path: &[u8]) -> (here: bool)
    ensures
        here == starts_here(path@),
{
    same_bytes(path, ".".as_bytes()) || starts_with(path, "./".as_bytes())
}

/// Whether two paths have the same components.
pub fn same_path(a: &[u8], b: &[u8]) -> (same: bool)
    ensures
        same == paths_agree(a@, b@),
{
    rooted(a) == rooted(b) && here(a) == here(b) && same_list(&names_of(a), &names_of(b))
}

/// Being the same path is an equivalence.
pub proof fn law_same_path_is_equivalence(a: Seq<u8>, b: Seq<u8>, c: Seq<u8>)
    ensures
        paths_agree(a, a),
        paths_agree(a, b) ==> paths_agree(b, a),
        paths_agree(a, b) && paths_agree(b, c) ==> paths_agree(a, c),
{
}

/// What the two spellings of the current directory hold.
proof fn lemma_here(path: Seq<u8>)
    ensures
        utf8(".") == seq![0x2eu8],
        starts_here(path) <==> path.len() > 0 && path[0] == 0x2e && (path.len() > 1 ==> path[1]
            == 0x2f),
{
    reveal_strlit(".");
    reveal_strlit("./");
    vstd::string::is_ascii_spec_bytes(".");
    vstd::string::is_ascii_spec_bytes("./");
    assert(vstd::string::is_ascii("."));
    assert(vstd::string::is_ascii("./"));
    assert(utf8(".") =~= seq![0x2eu8]);
    assert("./".spec_bytes() =~= seq![0x2eu8, 0x2fu8]);
    let two = utf8("./");
    assert(two =~= seq![0x2eu8, 0x2fu8]);
    if path.len() == 1 && path[0] == 0x2e {
        assert(path =~= utf8("."));
    }
    if path.len() > 1 && path[0] == 0x2e && path[1] == 0x2f {
        assert(two =~= path.subrange(0, 2));
    }
    if two.is_prefix_of(path) {
        assert(two == path.subrange(0, 2));
        assert(path.subrange(0, 2)[0] == path[0]);
        assert(path.subrange(0, 2)[1] == path[1]);
    }
}

/// Names of two paths, one after the other.
proof fn lemma_names_concat(a: Seq<u8>, b: Seq<u8>)
    ensures
        path_names(a.push(0x2f) + b) == path_names(a) + path_names(b),
{
    let is = |part: Seq<u8>| is_name(part);
    lemma_split_concat(a, b, 0x2f);
    Seq::filter_distributes_over_add(split(a, 0x2f), split(b, 0x2f), is);
}

/// The empty path has no names.
proof fn lemma_no_names()
    ensures
        path_names(Seq::empty()) == Seq::<Seq<u8>>::empty(),
{
    let is = |part: Seq<u8>| is_name(part);
    let none = Seq::<Seq<u8>>::empty();
    assert(split(Seq::<u8>::empty(), 0x2f) =~= none.push(Seq::empty()));
    none.lemma_filter_push(Seq::empty(), is);
    assert(none.filter(is) =~= none);
}

/// Slashes at the end of a path do not count.
pub proof fn law_trailing_slash(path: Seq<u8>)
    requires
        path.len() > 0,
    ensures
        paths_agree(path.push(0x2f), path),
{
    lemma_names_concat(path, Seq::empty());
    lemma_no_names();
    assert(path.push(0x2f) + Seq::<u8>::empty() =~= path.push(0x2f));
    assert(path_names(path) + Seq::<Seq<u8>>::empty() =~= path_names(path));
    lemma_here(path);
    lemma_here(path.push(0x2f));
}

/// Several slashes are as good as one.
pub proof fn law_repeated_slash(a: Seq<u8>, b: Seq<u8>)
    ensures
        paths_agree(a.push(0x2f).push(0x2f) + b, a.push(0x2f) + b),
{
    lemma_names_concat(a.push(0x2f), b);
    lemma_names_concat(a, b);
    lemma_names_concat(a, Seq::empty());
    lemma_no_names();
    assert(a.push(0x2f) + Seq::<u8>::empty() =~= a.push(0x2f));
    assert(path_names(a) + Seq::<Seq<u8>>::empty() =~= path_names(a));
    lemma_here(a.push(0x2f).push(0x2f) + b);
    lemma_here(a.push(0x2f) + b);
}

/// Paths are the same when both or neither start at the root, both or neither
/// start at the current directory by saying so, and they have the same names.
pub proof fn law_same_path(a: Seq<u8>, b: Seq<u8>)
    ensures
        paths_agree(a, b) <==> {
            &&& (a.len() > 0 && a[0] == 0x2f) == (b.len() > 0 && b[0] == 0x2f)
            &&& (a.len() > 0 && a[0] == 0x2e && (a.len() > 1 ==> a[1] == 0x2f)) == (b.len() > 0
                && b[0] == 0x2e && (b.len() > 1 ==> b[1] == 0x2f))
            &&& path_names(a) == path_names(b)
        },
{
    lemma_here(a);
    lemma_here(b);
}

/// The names along a path are those before a slash and those after it, in order;
/// and a stretch without a slash is one name, whole, unless it is empty or a dot.
pub proof fn law_path_names(a: Seq<u8>, b: Seq<u8>, part: Seq<u8>)
    requires
        !part.contains(0x2f),
    ensures
        path_names(a + seq![0x2fu8] + b) == path_names(a) + path_names(b),
        part.len() == 0 || part == seq![0x2eu8] ==> path_names(part) == Seq::<Seq<u8>>::empty(),
        part.len() > 0 && part != seq![0x2eu8] ==> path_names(part) == seq![part],
{
    let is = |part: Seq<u8>| is_name(part);
    let none = Seq::<Seq<u8>>::empty();
    lemma_names_concat(a, b);
    assert(a + seq![0x2fu8] + b =~= a.push(0x2f) + b);
    lemma_here(part);
    lemma_split_extend(Seq::<u8>::empty(), part, 0x2fu8);
    assert(Seq::<u8>::empty() + part =~= part);
    assert(split(part, 0x2fu8) =~= none.push(part));
    none.lemma_filter_push(part, is);
    assert(none.filter(is) =~= none);
    assert(none.push(part) =~= seq![part]);
}

/// Two paths that end in different names are different.
pub proof fn law_last_name_tells_paths_apart(dir: Seq<u8>, a: Seq<u8>, b: Seq<u8>)
    requires
        !a.contains(0x2f),
        !b.contains(0x2f),
        a.len() > 0 && a != seq![0x2eu8],
        b.len() > 0 && b != seq![0x2eu8],
        paths_agree(dir + seq![0x2fu8] + a, dir + seq![0x2fu8] + b),
    ensures
        a == b,
{
    law_path_names(dir, a, a);
    law_path_names(dir, b, b);
    assert((path_names(dir) + seq![a]).last() == a);
    assert((path_names(dir) + seq![b]).last() == b);
}

} // verus!
