//! Paths as byte strings, split into components the way a Unix path is read.
use vstd::prelude::*;

verus! {

/// The separator `/`.
pub const SLASH: u8 = 0x2f;

/// The byte `.`.
pub const DOT: u8 = 0x2e;

/// The pieces of `p` between separators, empty pieces included, in order.
pub open spec fn segments(p: Seq<u8>) -> Seq<Seq<u8>>
    decreases p.len(),
{
    if p.len() == 0 {
        seq![Seq::empty()]
    } else {
        let s = segments(p.drop_last());
        if p.last() == SLASH {
            s.push(Seq::empty())
        } else {
            s.update(s.len() - 1, s.last().push(p.last()))
        }
    }
}

/// A piece that names something: neither empty (a repeated, leading or
/// trailing separator) nor the current directory `.`.
pub open spec fn is_component(s: Seq<u8>) -> bool {
    s.len() > 0 && s != seq![DOT]
}

pub open spec fn component_pred() -> spec_fn(Seq<u8>) -> bool {
    |s: Seq<u8>| is_component(s)
}

/// The components of `p`: its pieces, less empty ones and `.`; a leading
/// separator (the root) contributes none, and `..` is kept as it stands.
pub open spec fn components(p: Seq<u8>) -> Seq<Seq<u8>> {
    segments(p).filter(component_pred())
}

/// A path is absolute when it starts at the root.
pub open spec fn is_absolute(p: Seq<u8>) -> bool {
    p.len() > 0 && p[0] == SLASH
}

/// The byte views of a sequence of byte vectors.
pub open spec fn views(v: Seq<Vec<u8>>) -> Seq<Seq<u8>> {
    v.map_values(|c: Vec<u8>| c@)
}

/// Unfolds the filter at the last element of a non-empty sequence.
proof fn lemma_filter_last(s: Seq<Seq<u8>>)
    requires
        s.len() >= 1,
    ensures
        s.filter(component_pred()) == (if is_component(s.last()) {
            s.drop_last().filter(component_pred()).push(s.last())
        } else {
            s.drop_last().filter(component_pred())
        }),
{
    reveal(Seq::filter);
}

fn is_component_exec(s: &Vec<u8>) -> (r: bool)
    ensures
        r == is_component(s@),
{
    if s.len() == 0 {
        false
    } else if s.len() == 1 && s[0] == DOT {
        assert(s@ =~= seq![DOT]);
        false
    } else {
        assert(s@ != seq![DOT] ) by {
            if s@ == seq![DOT] {
                assert(s@.len() == 1 && s@[0] == DOT);
            }
        }
        true
    }
}

/// A copy of `v`.
pub fn copy_bytes(v: &[u8]) -> (r: Vec<u8>)
    ensures
        r@ == v@,
{
    let mut r: Vec<u8> = Vec::new();
    let mut i: usize = 0;
    while i < v.len()
        invariant
            i <= v@.len(),
            r@ == v@.take(i as int),
        decreases v.len() - i,
    {
        r.push(v[i]);
        assert(r@ =~= v@.take(i + 1));
        i = i + 1;
    }
    assert(r@ =~= v@);
    r
}

/// Whether `p` is absolute.
pub fn path_is_absolute(p: &[u8]) -> (r: bool)
    ensures
        r == is_absolute(p@),
{
    p.len() > 0 && p[0] == SLASH
}

/// Splits `p` into its components.
pub fn path_components(p: &[u8]) -> (r: Vec<Vec<u8>>)
    ensures
        views(r@) == components(p@),
{
    let mut out: Vec<Vec<u8>> = Vec::new();
    let mut cur: Vec<u8> = Vec::new();
    let mut i: usize = 0;
    proof {
        assert(p@.take(0) =~= Seq::<u8>::empty());
        assert(views(out@) =~= Seq::<Seq<u8>>::empty());
        reveal(Seq::filter);
    }
    while i < p.len()
        invariant
            0 <= i <= p@.len(),
            segments(p@.take(i as int)).len() >= 1,
            cur@ == segments(p@.take(i as int)).last(),
            views(out@) == segments(p@.take(i as int)).drop_last().filter(component_pred()),
        decreases p.len() - i,
    {
        let b = p[i];
        let ghost s = segments(p@.take(i as int));
        proof {
            assert(p@.take(i + 1).drop_last() =~= p@.take(i as int));
            assert(p@.take(i + 1).last() == b);
        }
        if b == SLASH {
            let keep = is_component_exec(&cur);
            proof {
                assert(segments(p@.take(i + 1)) == s.push(Seq::empty()));
                assert(s.push(Seq::empty()).drop_last() =~= s);
                lemma_filter_last(s);
            }
            if keep {
                out.push(cur);
                assert(views(out@) =~= s.drop_last().filter(component_pred()).push(s.last()));
            } else {
                assert(views(out@) =~= s.filter(component_pred()));
            }
            cur = Vec::new();
            assert(cur@ =~= Seq::<u8>::empty());
        } else {
            cur.push(b);
            proof {
                let t = s.update(s.len() - 1, s.last().push(b));
                assert(segments(p@.take(i + 1)) == t);
                assert(t.drop_last() =~= s.drop_last());
            }
        }
        i = i + 1;
    }
    proof {
        assert(p@.take(p@.len() as int) =~= p@);
        lemma_filter_last(segments(p@));
    }
    if is_component_exec(&cur) {
        out.push(cur);
    }
    assert(views(out@) =~= components(p@));
    out
}

} // verus!
