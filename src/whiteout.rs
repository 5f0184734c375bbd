//! Recognising whiteout markers among a layer's entry names.
use vstd::prelude::*;
use crate::paths::{components, copy_bytes, path_components, views, DOT};

verus! {

pub const LOWER_W: u8 = 0x77;

pub const LOWER_H: u8 = 0x68;

pub const LOWER_O: u8 = 0x6f;

pub const LOWER_P: u8 = 0x70;

pub const LOWER_Q: u8 = 0x71;

/// `.wh.`, the prefix of every whiteout marker.
pub open spec fn whiteout_prefix() -> Seq<u8> {
    seq![DOT, LOWER_W, LOWER_H, DOT]
}

/// `.wh..wh..opq`, the opaque-directory marker.
pub open spec fn opaque_marker() -> Seq<u8> {
    whiteout_prefix() + whiteout_prefix() + seq![DOT, LOWER_O, LOWER_P, LOWER_Q]
}

/// `..`, the parent directory.
pub open spec fn dot_dot() -> Seq<u8> {
    seq![DOT, DOT]
}

pub open spec fn has_whiteout_prefix(n: Seq<u8>) -> bool {
    n.len() >= 4 && n.take(4) == whiteout_prefix()
}

/// The final component of an entry path, unless there is none or it is `..`.
pub open spec fn file_name(p: Seq<u8>) -> Option<Seq<u8>> {
    let c = components(p);
    if c.len() > 0 && c.last() != dot_dot() {
        Some(c.last())
    } else {
        None
    }
}

/// The name less its `.wh.` prefix, once; a name without it is unchanged.
pub open spec fn strip_whiteout(n: Seq<u8>) -> Seq<u8> {
    if has_whiteout_prefix(n) {
        n.skip(4)
    } else {
        n
    }
}

/// The entry is the opaque-directory marker.
pub open spec fn is_opaque_entry(p: Seq<u8>) -> bool {
    file_name(p) == Some(opaque_marker())
}

/// The entry is an explicit file whiteout.
pub open spec fn is_whiteout_entry(p: Seq<u8>) -> bool {
    match file_name(p) {
        Some(n) => n != opaque_marker() && has_whiteout_prefix(n),
        None => false,
    }
}

/// What a whiteout entry hides: its sibling named by the marker, less the prefix.
pub open spec fn shadowed_path(p: Seq<u8>) -> Seq<Seq<u8>> {
    let c = components(p);
    c.drop_last().push(strip_whiteout(c.last()))
}

/// The paths, relative to the target and in this order, that the entry at `p`
/// asks to remove: for a file whiteout, the shadowed sibling and then the
/// marker itself; for any other entry, none. The opaque marker is recognised
/// and removes nothing.
pub open spec fn entry_removals(p: Seq<u8>) -> Seq<Seq<Seq<u8>>> {
    if is_whiteout_entry(p) {
        seq![shadowed_path(p), components(p)]
    } else {
        Seq::empty()
    }
}

/// How an entry of a layer takes part in whiteout resolution.
#[derive(Debug)]
pub enum EntryKind {
    /// An ordinary entry, already in place after extraction.
    Plain,
    /// The opaque-directory marker, which removes nothing.
    OpaqueMarker,
    /// A file whiteout: remove `shadowed`, then `marker`, both given as
    /// components relative to the target directory.
    Whiteout { shadowed: Vec<Vec<u8>>, marker: Vec<Vec<u8>> },
}

fn has_whiteout_prefix_exec(n: &Vec<u8>) -> (r: bool)
    ensures
        r == has_whiteout_prefix(n@),
{
    let r = n.len() >= 4 && n[0] == DOT && n[1] == LOWER_W && n[2] == LOWER_H && n[3] == DOT;
    if n.len() >= 4 {
        assert(r == (n@.take(4) =~= whiteout_prefix()));
    }
    r
}

fn is_opaque_name(n: &Vec<u8>) -> (r: bool)
    ensures
        r == (n@ == opaque_marker()),
{
    let r = n.len() == 12 && n[0] == DOT && n[1] == LOWER_W && n[2] == LOWER_H && n[3] == DOT
        && n[4] == DOT && n[5] == LOWER_W && n[6] == LOWER_H && n[7] == DOT && n[8] == DOT
        && n[9] == LOWER_O && n[10] == LOWER_P && n[11] == LOWER_Q;
    assert(r == (n@ =~= opaque_marker()));
    r
}

/// Removes the leading `.wh.` of a name, once; other names are copied.
pub fn strip_whiteout_prefix(n: &Vec<u8>) -> (r: Vec<u8>)
    ensures
        r@ == strip_whiteout(n@),
{
    let start: usize = if has_whiteout_prefix_exec(n) {
        4
    } else {
        0
    };
    let mut r: Vec<u8> = Vec::new();
    let mut i: usize = start;
    while i < n.len()
        invariant
            start <= i <= n@.len(),
            r@ == n@.subrange(start as int, i as int),
        decreases n.len() - i,
    {
        r.push(n[i]);
        assert(r@ =~= n@.subrange(start as int, i + 1));
        i = i + 1;
    }
    assert(r@ =~= n@.skip(start as int));
    r
}

/// Classifies the entry whose path (as the archive gives it) is `p`.
pub fn classify_entry(p: &[u8]) -> (r: EntryKind)
    ensures
        r is OpaqueMarker <==> is_opaque_entry(p@),
        r is Whiteout <==> is_whiteout_entry(p@),
        r matches EntryKind::Whiteout { shadowed, marker } ==> views(shadowed@) == shadowed_path(p@)
            && views(marker@) == components(p@),
{
    let comps = path_components(p);
    let n = comps.len();
    if n == 0 {
        return EntryKind::Plain;
    }
    let name = &comps[n - 1];
    proof {
        assert(views(comps@).last() == name@);
    }
    if name.len() == 2 && name[0] == DOT && name[1] == DOT {
        assert(name@ =~= dot_dot());
        return EntryKind::Plain;
    }
    assert(name@ != dot_dot()) by {
        if name@ == dot_dot() {
            assert(name@.len() == 2 && name@[0] == DOT && name@[1] == DOT);
        }
    }
    if is_opaque_name(name) {
        EntryKind::OpaqueMarker
    } else if has_whiteout_prefix_exec(name) {
        let bare = strip_whiteout_prefix(name);
        let mut shadowed: Vec<Vec<u8>> = Vec::new();
        let mut i: usize = 0;
        while i + 1 < n
            invariant
                n == comps@.len(),
                i < n,
                views(shadowed@) == views(comps@).take(i as int),
            decreases n - i,
        {
            let c = copy_bytes(comps[i].as_slice());
            assert(views(comps@)[i as int] == c@);
            let ghost prev = shadowed@;
            shadowed.push(c);
            assert(views(shadowed@) =~= views(prev).push(c@));
            assert(views(shadowed@) =~= views(comps@).take(i + 1));
            i = i + 1;
        }
        let ghost prev = shadowed@;
        shadowed.push(bare);
        assert(views(shadowed@) =~= views(prev).push(bare@));
        assert(views(shadowed@) =~= shadowed_path(p@));
        EntryKind::Whiteout { shadowed, marker: comps }
    } else {
        EntryKind::Plain
    }
}

} // verus!

verus! {

/// A file whiteout whose name keeps something once its prefix is removed
/// removes two paths, both inside the marker's own directory: the directory
/// itself is never among them, and it stays in place.
pub proof fn lemma_whiteout_keeps_parent(p: Seq<u8>)
    requires
        is_whiteout_entry(p),
        file_name(p)->Some_0.len() > 4,
    ensures
        entry_removals(p).len() == 2,
        forall|k: int|
            0 <= k < 2 ==> {
                let r = #[trigger] entry_removals(p)[k];
                &&& r.len() == components(p).len()
                &&& r.drop_last() == components(p).drop_last()
                &&& r.last().len() > 0
            },
{
    let c = components(p);
    assert(shadowed_path(p).drop_last() =~= c.drop_last());
}

} // verus!
