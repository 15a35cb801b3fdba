//! File paths as text: their components, equality and containment.
//!
//! A path is a list of names separated by `/`. Repeated separators, a trailing
//! separator and the name `.` (except as the first name of a relative path) make
//! no difference.

use vstd::prelude::*;

use crate::text;

verus! {

/// A path's names, and whether they start at the root.
#[verifier::ext_equal]
pub struct PathFacts {
    pub absolute: bool,
    pub names: Seq<Seq<char>>,
}

/// A piece counts as a name unless it is empty or a `.` behind the first piece.
pub open spec fn is_name(piece: Seq<char>, index: int) -> bool {
    piece.len() > 0 && (index == 0 || piece != seq!['.'])
}

pub open spec fn names_of(pieces: Seq<Seq<char>>) -> Seq<Seq<char>>
    decreases pieces.len(),
{
    if pieces.len() == 0 {
        Seq::empty()
    } else {
        let earlier = names_of(pieces.drop_last());
        if is_name(pieces.last(), pieces.len() - 1) {
            earlier.push(pieces.last())
        } else {
            earlier
        }
    }
}

pub open spec fn path_of(path: Seq<char>) -> PathFacts {
    PathFacts {
        absolute: path.len() > 0 && path[0] == '/',
        names: names_of(text::split_on(path, '/')),
    }
}

/// `base` names a directory on the way to `path`, or `path` itself.
pub open spec fn is_under(path: PathFacts, base: PathFacts) -> bool {
    &&& path.absolute == base.absolute
    &&& base.names.len() <= path.names.len()
    &&& path.names.take(base.names.len() as int) == base.names
}

pub struct PathNames {
    pub absolute: bool,
    pub names: Vec<Vec<char>>,
}

impl View for PathNames {
    type V = PathFacts;

    open spec fn view(&self) -> PathFacts {
        PathFacts { absolute: self.absolute, names: text::pieces(self.names@) }
    }
}

fn copy_chars(chars: &Vec<char>) -> (copy: Vec<char>)
    ensures
        copy@ == chars@,
{
    let mut copy: Vec<char> = Vec::new();
    for i in 0..chars.len()
        invariant
            copy@ == chars@.take(i as int),
    {
        copy.push(chars[i]);
        assert(chars@.take(i as int).push(chars@[i as int]) =~= chars@.take(i as int + 1));
    }
    assert(chars@.take(chars@.len() as int) =~= chars@);
    copy
}

/// Splits a path into its names.
pub fn path_names(path: &str) -> (names: PathNames)
    ensures
        names@ == path_of(path@),
{
    let chars = text::to_chars(path);
    let absolute = chars.len() > 0 && chars[0] == '/';
    let parts = text::split_chars(&chars, '/');
    let ghost all = text::pieces(parts@);
    let mut names: Vec<Vec<char>> = Vec::new();
    assert(text::pieces(names@) =~= names_of(all.take(0)));
    for i in 0..parts.len()
        invariant
            all == text::pieces(parts@),
            text::pieces(names@) == names_of(all.take(i as int)),
    {
        let part = &parts[i];
        let ghost before = names@;
        proof {
            assert(all.take(i as int + 1).drop_last() =~= all.take(i as int));
            assert(all.take(i as int + 1).last() == part@);
        }
        let is_dot = part.len() == 1 && part[0] == '.';
        assert(is_dot == (part@ == seq!['.'])) by {
            if is_dot {
                assert(part@ =~= seq!['.']);
            } else if part@ == seq!['.'] {
                assert(part@.len() == 1 && part@[0] == '.');
            }
        }
        if part.len() > 0 && (i == 0 || !is_dot) {
            names.push(copy_chars(part));
            assert(text::pieces(names@) =~= text::pieces(before).push(part@));
        }
    }
    assert(all.take(all.len() as int) =~= all);
    PathNames { absolute, names }
}

/// Whether two paths name the same place.
pub fn same_path(left: &str, right: &str) -> (same: bool)
    ensures
        same == (path_of(left@) == path_of(right@)),
{
    let a = path_names(left);
    let b = path_names(right);
    assert(a@.names.len() == a.names@.len());
    assert(b@.names.len() == b.names@.len());
    if a.absolute != b.absolute || a.names.len() != b.names.len() {
        return false;
    }
    for i in 0..a.names.len()
        invariant
            a@.names.len() == b@.names.len(),
            a.names@.len() == b.names@.len(),
            a@ == path_of(left@),
            b@ == path_of(right@),
            forall|j: int| 0 <= j < i ==> #[trigger] a@.names[j] == b@.names[j],
    {
        if !text::chars_equal(&a.names[i], &b.names[i]) {
            assert(a@.names[i as int] != b@.names[i as int]);
            return false;
        }
    }
    assert(a@ =~= b@);
    true
}

/// Whether `base` is `path` or a directory on the way to it.
pub fn path_starts_with(path: &str, base: &str) -> (under: bool)
    ensures
        under == is_under(path_of(path@), path_of(base@)),
{
    let whole = path_names(path);
    let prefix = path_names(base);
    if whole.absolute != prefix.absolute || prefix.names.len() > whole.names.len() {
        return false;
    }
    let ghost head = whole@.names.take(prefix@.names.len() as int);
    for i in 0..prefix.names.len()
        invariant
            whole@ == path_of(path@),
            prefix@ == path_of(base@),
            whole.absolute == prefix.absolute,
            prefix.names@.len() <= whole.names@.len(),
            head == whole@.names.take(prefix@.names.len() as int),
            forall|j: int| 0 <= j < i ==> #[trigger] head[j] == prefix@.names[j],
    {
        assert(head[i as int] == whole.names@[i as int]@);
        if !text::chars_equal(&whole.names[i], &prefix.names[i]) {
            assert(head[i as int] != prefix@.names[i as int]);
            return false;
        }
    }
    assert(head =~= prefix@.names);
    true
}

/// A path is under itself, and what is under a path is under all that the path is
/// under.
pub proof fn lemma_under(path: PathFacts, middle: PathFacts, base: PathFacts)
    ensures
        is_under(path, path),
        is_under(path, middle) && is_under(middle, base) ==> is_under(path, base),
        is_under(path, base) && is_under(base, path) ==> path == base,
{
    assert(path.names.take(path.names.len() as int) =~= path.names);
    assert(base.names.take(base.names.len() as int) =~= base.names);
    if is_under(path, middle) && is_under(middle, base) {
        assert(path.names.take(base.names.len() as int) =~= base.names) by {
            assert forall|i: int| 0 <= i < base.names.len() implies path.names.take(
                base.names.len() as int,
            )[i] == base.names[i] by {
                assert(path.names.take(middle.names.len() as int)[i] == path.names[i]);
                assert(middle.names.take(base.names.len() as int)[i] == middle.names[i]);
            }
        }
    }
    if is_under(path, base) && is_under(base, path) {
        assert(path.names =~= base.names);
    }
}

/// Being under a path goes by whole names: every name of the base is the name at
/// the same place of the path, and absolute paths are under absolute ones only.
pub proof fn lemma_under_by_names(path: PathFacts, base: PathFacts)
    ensures
        is_under(path, base) <==> path.absolute == base.absolute && base.names.len()
            <= path.names.len() && forall|i: int|
            0 <= i < base.names.len() ==> #[trigger] path.names[i] == base.names[i],
{
    if base.names.len() <= path.names.len() {
        let head = path.names.take(base.names.len() as int);
        if is_under(path, base) {
            assert forall|i: int| 0 <= i < base.names.len() implies #[trigger] path.names[i]
                == base.names[i] by {
                assert(head[i] == path.names[i]);
            }
        }
        if forall|i: int| 0 <= i < base.names.len() ==> #[trigger] path.names[i] == base.names[i] {
            assert(head =~= base.names);
        }
    }
}

/// The names of a path are its pieces that are not empty, without the dots that
/// stand for the place they are at.
pub proof fn lemma_names(pieces: Seq<Seq<char>>)
    ensures
        forall|k: int|
            0 <= k < names_of(pieces).len() ==> (#[trigger] names_of(pieces)[k]).len() > 0
                && pieces.contains(names_of(pieces)[k]),
        forall|i: int|
            0 < i < pieces.len() && (#[trigger] pieces[i]).len() > 0 && pieces[i] != seq!['.']
                ==> names_of(pieces).contains(pieces[i]),
        pieces.len() > 0 && pieces[0].len() > 0 ==> names_of(pieces).len() > 0 && names_of(
            pieces,
        )[0] == pieces[0],
    decreases pieces.len(),
{
    if pieces.len() > 0 {
        let shorter = pieces.drop_last();
        let end = pieces.len() - 1;
        lemma_names(shorter);
        let earlier = names_of(shorter);
        let names = names_of(pieces);
        assert(forall|i: int| 0 <= i < end ==> #[trigger] shorter[i] == pieces[i]);
        assert forall|k: int| 0 <= k < names.len() implies (#[trigger] names[k]).len() > 0
            && pieces.contains(names[k]) by {
            if k < earlier.len() {
                assert(names[k] == earlier[k]);
                let i = choose|i: int| 0 <= i < shorter.len() && shorter[i] == earlier[k];
                assert(pieces[i] == names[k]);
            } else {
                assert(pieces[end] == names[k]);
            }
        }
        assert forall|i: int|
            0 < i < pieces.len() && (#[trigger] pieces[i]).len() > 0 && pieces[i] != seq![
                '.',
            ] implies names.contains(pieces[i]) by {
            if i < end {
                assert(shorter[i] == pieces[i]);
                let k = choose|k: int| 0 <= k < earlier.len() && earlier[k] == pieces[i];
                assert(names[k] == pieces[i]);
            } else {
                assert(names[names.len() - 1] == pieces[i]);
            }
        }
    }
}

} // verus!
