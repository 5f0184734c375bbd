//! Planning the application of an ordered stack of layers onto a target
//! directory: for each layer in turn, extract it, then resolve its whiteouts.
use vstd::prelude::*;
use crate::archive::{entry_paths, gunzip, gunzip_of, tar_entry_paths};
use crate::error::RenderError;
use crate::options::UnpackOptions;
use crate::paths::{copy_bytes, is_absolute, path_is_absolute, views};
use crate::whiteout::{classify_entry, entry_removals, is_whiteout_entry, shadowed_path, EntryKind};

verus! {

/// One filesystem step against the target directory.
#[derive(Debug)]
pub enum Step {
    /// Write every entry of `archive`, an uncompressed tar archive, under the
    /// target directory, with the given switches.
    Extract { archive: Vec<u8>, options: UnpackOptions },
    /// Remove, with everything beneath it, the path made of these components
    /// under the target directory. Removing a path that does not exist fails.
    Remove(Vec<Vec<u8>>),
}

/// The model of a step: the archive's bytes and the two switches
/// (permissions, extended attributes), or the components of a path.
pub enum StepView {
    Extract(Seq<u8>, bool, bool),
    Remove(Seq<Seq<u8>>),
}

impl View for Step {
    type V = StepView;

    open spec fn view(&self) -> StepView {
        match self {
            Step::Extract { archive, options } => StepView::Extract(
                archive@,
                options.spec_preserve_permissions(),
                options.spec_unpack_xattrs(),
            ),
            Step::Remove(p) => StepView::Remove(views(p@)),
        }
    }
}

/// What applying the layers comes to: the steps to carry out in order,
/// stopping at the first that fails, and the outcome once all have succeeded.
#[derive(Debug)]
pub struct Plan {
    pub steps: Vec<Step>,
    pub outcome: Result<(), RenderError>,
}

pub open spec fn step_views(s: Seq<Step>) -> Seq<StepView> {
    s.map_values(|x: Step| x@)
}

/// The removals asked for by a layer's entries, in archive order.
pub open spec fn removal_steps(entries: Seq<Seq<u8>>) -> Seq<StepView>
    decreases entries.len(),
{
    if entries.len() == 0 {
        Seq::empty()
    } else {
        removal_steps(entries.drop_last()) + entry_removals(entries.last()).map_values(
            |p: Seq<Seq<u8>>| StepView::Remove(p),
        )
    }
}

/// The steps of one compressed layer, and whether it could be read through:
/// nothing when it does not decode; its extraction alone when its entries
/// cannot be walked; else its extraction followed by its removals.
pub open spec fn layer_steps(layer: Seq<u8>, perms: bool, xattrs: bool) -> (Seq<StepView>, bool) {
    match gunzip_of(layer) {
        None => (Seq::empty(), false),
        Some(t) => match tar_entry_paths(t) {
            None => (seq![StepView::Extract(t, perms, xattrs)], false),
            Some(es) => (seq![StepView::Extract(t, perms, xattrs)] + removal_steps(es), true),
        },
    }
}

/// The steps of a stack of layers, lowest first, and whether every layer
/// could be read through; the first layer that cannot ends the stack.
pub open spec fn stack_steps(layers: Seq<Seq<u8>>, perms: bool, xattrs: bool) -> (
    Seq<StepView>,
    bool,
)
    decreases layers.len(),
{
    if layers.len() == 0 {
        (Seq::empty(), true)
    } else {
        let prev = stack_steps(layers.drop_last(), perms, xattrs);
        if !prev.1 {
            prev
        } else {
            let here = layer_steps(layers.last(), perms, xattrs);
            (prev.0 + here.0, here.1)
        }
    }
}

/// The target is the absolute path of an existing directory.
pub open spec fn target_ok(target: Seq<u8>, target_is_dir: bool) -> bool {
    is_absolute(target) && target_is_dir
}

/// `r` is the plan for these inputs. A target that is not the absolute path
/// of an existing directory gives no step and the wrong-target error carrying
/// the path. Otherwise the steps are those of the stack, and the outcome is
/// `Ok` exactly when every layer could be read through, else an I/O error.
pub open spec fn is_plan(
    r: Plan,
    layers: Seq<Seq<u8>>,
    target: Seq<u8>,
    target_is_dir: bool,
    perms: bool,
    xattrs: bool,
) -> bool {
    if !target_ok(target, target_is_dir) {
        r.steps@.len() == 0 && (r.outcome matches Err(RenderError::WrongTargetPath(p)) && p@
            == target)
    } else {
        let s = stack_steps(layers, perms, xattrs);
        &&& step_views(r.steps@) == s.0
        &&& (r.outcome is Ok <==> s.1)
        &&& (r.outcome is Err ==> r.outcome matches Err(RenderError::Io(_)))
    }
}

proof fn lemma_stack_stops(s: Seq<Seq<u8>>, j: int, perms: bool, xattrs: bool)
    requires
        0 <= j <= s.len(),
        !stack_steps(s.take(j), perms, xattrs).1,
    ensures
        stack_steps(s, perms, xattrs) == stack_steps(s.take(j), perms, xattrs),
    decreases s.len(),
{
    if s.len() > j {
        assert(s.drop_last().take(j) =~= s.take(j));
        lemma_stack_stops(s.drop_last(), j, perms, xattrs);
    } else {
        assert(s.take(j) =~= s);
    }
}

/// Plans the application of `layers` (gzip-compressed tar archives, lowest
/// first) onto `target_dir`, with the switches of `options`.
/// `target_is_dir` tells whether `target_dir` names an existing directory.
pub fn unpack_with_options(
    layers: &[Vec<u8>],
    target_dir: &[u8],
    target_is_dir: bool,
    options: UnpackOptions,
) -> (r: Plan)
    ensures
        is_plan(
            r,
            views(layers@),
            target_dir@,
            target_is_dir,
            options.spec_preserve_permissions(),
            options.spec_unpack_xattrs(),
        ),
{
    if !(path_is_absolute(target_dir) && target_is_dir) {
        let p = copy_bytes(target_dir);
        return Plan { steps: Vec::new(), outcome: Err(RenderError::WrongTargetPath(p)) };
    }
    let ghost perms = options.spec_preserve_permissions();
    let ghost xattrs = options.spec_unpack_xattrs();
    let ghost ls = views(layers@);
    let mut steps: Vec<Step> = Vec::new();
    let mut i: usize = 0;
    proof {
        assert(ls.take(0) =~= Seq::<Seq<u8>>::empty());
        assert(step_views(steps@) =~= Seq::<StepView>::empty());
    }
    while i < layers.len()
        invariant
            i <= layers@.len(),
            ls == views(layers@),
            perms == options.spec_preserve_permissions(),
            xattrs == options.spec_unpack_xattrs(),
            target_ok(target_dir@, target_is_dir),
            step_views(steps@) == stack_steps(ls.take(i as int), perms, xattrs).0,
            stack_steps(ls.take(i as int), perms, xattrs).1,
        decreases layers.len() - i,
    {
        let ghost before = step_views(steps@);
        proof {
            assert(ls.take(i + 1).drop_last() =~= ls.take(i as int));
            assert(ls.take(i + 1).last() == layers@[i as int]@);
        }
        let decoded = gunzip(layers[i].as_slice());
        match decoded {
            Err(e) => {
                proof {
                    assert(before + Seq::<StepView>::empty() =~= before);
                    lemma_stack_stops(ls, i + 1, perms, xattrs);
                }
                return Plan { steps, outcome: Err(RenderError::Io(e)) };
            },
            Ok(tar) => {
                let listed = entry_paths(tar.as_slice());
                let ghost t = tar@;
                let ghost prev = steps@;
                steps.push(Step::Extract { archive: tar, options });
                assert(step_views(steps@) =~= step_views(prev).push(
                    StepView::Extract(t, perms, xattrs),
                ));
                match listed {
                    Err(e) => {
                        proof {
                            assert(step_views(steps@) =~= before + seq![
                                StepView::Extract(t, perms, xattrs),
                            ]);
                            lemma_stack_stops(ls, i + 1, perms, xattrs);
                        }
                        return Plan { steps, outcome: Err(RenderError::Io(e)) };
                    },
                    Ok(paths) => {
                        let ghost es = views(paths@);
                        let ghost head = before + seq![StepView::Extract(t, perms, xattrs)];
                        let mut j: usize = 0;
                        proof {
                            assert(es.take(0) =~= Seq::<Seq<u8>>::empty());
                            assert(step_views(steps@) =~= head + removal_steps(es.take(0)));
                        }
                        while j < paths.len()
                            invariant
                                j <= paths@.len(),
                                es == views(paths@),
                                step_views(steps@) == head + removal_steps(es.take(j as int)),
                            decreases paths.len() - j,
                        {
                            proof {
                                assert(es.take(j + 1).drop_last() =~= es.take(j as int));
                                assert(es.take(j + 1).last() == paths@[j as int]@);
                            }
                            let ghost prev = steps@;
                            let kind = classify_entry(paths[j].as_slice());
                            match kind {
                                EntryKind::Whiteout { shadowed, marker } => {
                                    let ghost sv = views(shadowed@);
                                    let ghost mv = views(marker@);
                                    steps.push(Step::Remove(shadowed));
                                    steps.push(Step::Remove(marker));
                                    proof {
                                        let rm = entry_removals(paths@[j as int]@);
                                        assert(rm =~= seq![sv, mv]);
                                        assert(step_views(steps@) =~= step_views(prev) + rm.map_values(
                                            |p: Seq<Seq<u8>>| StepView::Remove(p),
                                        ));
                                    }
                                },
                                _ => {
                                    proof {
                                        let rm = entry_removals(paths@[j as int]@);
                                        assert(rm.map_values(|p: Seq<Seq<u8>>| StepView::Remove(p))
                                            =~= Seq::<StepView>::empty());
                                        assert(step_views(steps@) =~= step_views(prev) + rm.map_values(
                                            |p: Seq<Seq<u8>>| StepView::Remove(p),
                                        ));
                                    }
                                },
                            }
                            assert(head + removal_steps(es.take(j + 1)) =~= head + removal_steps(es.take(j as int)) + entry_removals(paths@[j as int]@).map_values(|p: Seq<Seq<u8>>| StepView::Remove(p)));
                            j = j + 1;
                        }
                        proof {
                            assert(es.take(paths@.len() as int) =~= es);
                            assert(step_views(steps@) =~= before + (seq![
                                StepView::Extract(t, perms, xattrs),
                            ] + removal_steps(es)));
                        }
                    },
                }
            },
        }
        i = i + 1;
    }
    proof {
        assert(ls.take(layers@.len() as int) =~= ls);
    }
    Plan { steps, outcome: Ok(()) }
}

/// Plans the application of `layers` onto `target_dir` with both switches on:
/// permissions are preserved and extended attributes unpacked.
pub fn unpack(layers: &[Vec<u8>], target_dir: &[u8], target_is_dir: bool) -> (r: Plan)
    ensures
        is_plan(r, views(layers@), target_dir@, target_is_dir, true, true),
{
    let options = UnpackOptions::new().preserve_permissions(true).unpack_xattrs(true);
    unpack_with_options(layers, target_dir, target_is_dir, options)
}

} // verus!

verus! {

/// Two plans for the same layers, target and switches hold the same steps in
/// the same order and agree on whether they end in success: applying them to
/// two freshly prepared targets performs the same writes and removals.
pub proof fn lemma_plan_deterministic(
    r1: Plan,
    r2: Plan,
    layers: Seq<Seq<u8>>,
    target: Seq<u8>,
    target_is_dir: bool,
    perms: bool,
    xattrs: bool,
)
    requires
        is_plan(r1, layers, target, target_is_dir, perms, xattrs),
        is_plan(r2, layers, target, target_is_dir, perms, xattrs),
    ensures
        step_views(r1.steps@) == step_views(r2.steps@),
        r1.outcome is Ok <==> r2.outcome is Ok,
{
    if !target_ok(target, target_is_dir) {
        assert(step_views(r1.steps@) =~= step_views(r2.steps@));
    }
}

/// Every extraction in a stack's steps carries the switches it was planned
/// with: with extended attributes switched off, no layer is extracted with
/// them, and likewise for permissions.
pub proof fn lemma_extract_switches(layers: Seq<Seq<u8>>, perms: bool, xattrs: bool, i: int)
    requires
        0 <= i < stack_steps(layers, perms, xattrs).0.len(),
    ensures
        stack_steps(layers, perms, xattrs).0[i] matches StepView::Extract(_, p, x) ==> p == perms
            && x == xattrs,
    decreases layers.len(),
{
    if layers.len() > 0 {
        let prev = stack_steps(layers.drop_last(), perms, xattrs);
        if prev.1 && i >= prev.0.len() {
            let here = layer_steps(layers.last(), perms, xattrs);
            let k = i - prev.0.len();
            assert(stack_steps(layers, perms, xattrs).0[i] == here.0[k]);
            if let Some(t) = gunzip_of(layers.last()) {
                if let Some(es) = tar_entry_paths(t) {
                    if k > 0 {
                        lemma_removals_remove(es, k - 1);
                    }
                }
            }
        } else {
            lemma_extract_switches(layers.drop_last(), perms, xattrs, i);
        }
    }
}

/// Every step that resolving whiteouts produces is a removal.
proof fn lemma_removals_remove(entries: Seq<Seq<u8>>, k: int)
    requires
        0 <= k < removal_steps(entries).len(),
    ensures
        removal_steps(entries)[k] is Remove,
    decreases entries.len(),
{
    if entries.len() > 0 {
        let prev = removal_steps(entries.drop_last());
        if k < prev.len() {
            lemma_removals_remove(entries.drop_last(), k);
        }
    }
}

/// Layers are applied in order: when the lower layers read through, the steps
/// of the stack with one more layer on top are those of the lower stack
/// followed by the new layer's extraction and then its removals, which do
/// not depend on what the lower layers hold.
pub proof fn lemma_stack_push(lower: Seq<Seq<u8>>, top: Seq<u8>, perms: bool, xattrs: bool)
    requires
        stack_steps(lower, perms, xattrs).1,
    ensures
        stack_steps(lower.push(top), perms, xattrs).0 == stack_steps(lower, perms, xattrs).0
            + layer_steps(top, perms, xattrs).0,
        stack_steps(lower.push(top), perms, xattrs).1 == layer_steps(top, perms, xattrs).1,
{
    assert(lower.push(top).drop_last() =~= lower);
}

} // verus!

verus! {

/// A whiteout entry always asks for its shadowed path to be removed.
proof fn lemma_removal_listed(entries: Seq<Seq<u8>>, k: int)
    requires
        0 <= k < entries.len(),
        is_whiteout_entry(entries[k]),
    ensures
        removal_steps(entries).contains(StepView::Remove(shadowed_path(entries[k]))),
    decreases entries.len(),
{
    let prev = removal_steps(entries.drop_last());
    let here = entry_removals(entries.last()).map_values(|p: Seq<Seq<u8>>| StepView::Remove(p));
    if k == entries.len() - 1 {
        assert(removal_steps(entries)[prev.len() as int] == here[0]);
    } else {
        lemma_removal_listed(entries.drop_last(), k);
        let m = choose|m: int| 0 <= m < prev.len() && prev[m] == StepView::Remove(
            shadowed_path(entries[k]),
        );
        assert(removal_steps(entries)[m] == prev[m]);
    }
}

/// A layer that reads through and holds a whiteout marker plans the removal
/// of the path that the marker shadows, whatever the layers below it hold:
/// the removal is not skipped when nothing lies at that path, so carrying it
/// out then fails.
pub proof fn lemma_whiteout_removal_planned(
    lower: Seq<Seq<u8>>,
    top: Seq<u8>,
    perms: bool,
    xattrs: bool,
    k: int,
)
    requires
        stack_steps(lower, perms, xattrs).1,
        gunzip_of(top) is Some,
        tar_entry_paths(gunzip_of(top)->Some_0) is Some,
        0 <= k < tar_entry_paths(gunzip_of(top)->Some_0)->Some_0.len(),
        is_whiteout_entry(tar_entry_paths(gunzip_of(top)->Some_0)->Some_0[k]),
    ensures
        stack_steps(lower.push(top), perms, xattrs).0.contains(
            StepView::Remove(shadowed_path(tar_entry_paths(gunzip_of(top)->Some_0)->Some_0[k])),
        ),
{
    let t = gunzip_of(top)->Some_0;
    let es = tar_entry_paths(t)->Some_0;
    let want = StepView::Remove(shadowed_path(es[k]));
    lemma_stack_push(lower, top, perms, xattrs);
    lemma_removal_listed(es, k);
    let rs = removal_steps(es);
    let m = choose|m: int| 0 <= m < rs.len() && rs[m] == want;
    let before = stack_steps(lower, perms, xattrs).0;
    let all = stack_steps(lower.push(top), perms, xattrs).0;
    assert(all[before.len() + 1 + m] == want);
}

} // verus!
