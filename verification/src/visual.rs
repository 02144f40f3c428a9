//! Deferred-visual lifecycle: a visual object spawned before its backing
//! image has finished loading stays invisible and unscaled until the
//! image's intrinsic dimensions are known, and is then — exactly once —
//! scaled to the fixed target height preserving aspect ratio and made
//! visible. The transition is checked by a per-tick sweep and is
//! idempotent: already-finalized visuals are skipped.

use vstd::prelude::*;
use crate::TARGET_HEIGHT;

verus! {

/// Lifecycle of a visual whose asset may load late: `AwaitingAsset` on
/// creation, `Ready` (terminal) once scaled and made visible. `width` is
/// the scaled pixel width; the scaled height is always `TARGET_HEIGHT`.
#[derive(Clone, Copy, PartialEq, Eq, Debug, Structural)]
pub enum VisualState {
    AwaitingAsset,
    Ready { width: u64 },
}

/// One tracked visual object, keyed by the caller's handle for it.
#[derive(Clone, Copy, PartialEq, Eq, Debug, Structural)]
pub struct PendingVisual {
    pub id: u64,
    pub state: VisualState,
}

/// An asset that finished loading, with its intrinsic pixel dimensions.
#[derive(Clone, Copy, PartialEq, Eq, Debug, Structural)]
pub struct AssetLoad {
    pub id: u64,
    pub width: u32,
    pub height: u32,
}

/// The instruction a finalized visual sends to the renderer: resize to
/// `width` by `TARGET_HEIGHT` pixels and make visible.
#[derive(Clone, Copy, PartialEq, Eq, Debug, Structural)]
pub struct FinalizeAction {
    pub id: u64,
    pub width: u64,
}

/// The width that scales an image of `w` by `h` pixels to the target
/// height while preserving its aspect ratio (rounded down).
pub open spec fn scaled_width(w: u32, h: u32) -> int {
    w as int * TARGET_HEIGHT as int / h as int
}

/// The first reported load for asset `id`, if any.
pub open spec fn find_load(loads: Seq<AssetLoad>, id: u64) -> Option<AssetLoad>
    decreases loads.len(),
{
    if loads.len() == 0 {
        None
    } else if loads[0].id == id {
        Some(loads[0])
    } else {
        find_load(loads.drop_first(), id)
    }
}

/// What one sweep does to one visual: a visual still awaiting its asset
/// becomes `Ready` and emits one finalize action when a load with usable
/// dimensions has arrived for it; everything else — already-`Ready`
/// visuals above all — is left untouched with no action.
pub open spec fn sweep_visual(v: PendingVisual, loads: Seq<AssetLoad>) -> (
    PendingVisual,
    Option<FinalizeAction>,
) {
    match v.state {
        VisualState::AwaitingAsset => match find_load(loads, v.id) {
            Some(l) => {
                if l.height > 0 {
                    (
                        PendingVisual {
                            id: v.id,
                            state: VisualState::Ready { width: scaled_width(l.width, l.height) as u64 },
                        },
                        Some(FinalizeAction { id: v.id, width: scaled_width(l.width, l.height) as u64 }),
                    )
                } else {
                    (v, None)
                }
            },
            None => (v, None),
        },
        VisualState::Ready { .. } => (v, None),
    }
}

/// One sweep over a whole registry: every visual stepped by
/// `sweep_visual`, the emitted actions collected in registry order.
pub open spec fn sweep_model(vs: Seq<PendingVisual>, loads: Seq<AssetLoad>) -> (
    Seq<PendingVisual>,
    Seq<FinalizeAction>,
)
    decreases vs.len(),
{
    if vs.len() == 0 {
        (Seq::empty(), Seq::empty())
    } else {
        let head = sweep_visual(vs[0], loads);
        let rest = sweep_model(vs.drop_first(), loads);
        match head.1 {
            Some(a) => (seq![head.0] + rest.0, seq![a] + rest.1),
            None => (seq![head.0] + rest.0, rest.1),
        }
    }
}

proof fn lemma_sweep_model_len(vs: Seq<PendingVisual>, loads: Seq<AssetLoad>)
    ensures
        sweep_model(vs, loads).0.len() == vs.len(),
    decreases vs.len(),
{
    if vs.len() > 0 {
        lemma_sweep_model_len(vs.drop_first(), loads);
    }
}

/// The registry of visuals whose assets may still be loading.
pub struct VisualRegistry {
    visuals: Vec<PendingVisual>,
}

impl VisualRegistry {
    /// The tracked visuals, in creation order.
    pub closed spec fn rows(&self) -> Seq<PendingVisual> {
        self.visuals@
    }

    pub fn new() -> (r: VisualRegistry)
        ensures
            r.rows() == Seq::<PendingVisual>::empty(),
    {
        VisualRegistry { visuals: Vec::new() }
    }

    pub fn len(&self) -> (n: usize)
        ensures
            n as nat == self.rows().len(),
    {
        self.visuals.len()
    }

    /// The visual at position `i`.
    pub fn get(&self, i: usize) -> (v: PendingVisual)
        requires
            i < self.rows().len(),
        ensures
            v == self.rows()[i as int],
    {
        self.visuals[i]
    }

    /// Starts tracking a visual spawned before its asset has loaded: it
    /// enters the registry awaiting its asset, invisible and unscaled.
    pub fn spawn_pending(&mut self, id: u64)
        ensures
            final(self).rows() == old(self).rows().push(
                (PendingVisual { id, state: VisualState::AwaitingAsset }),
            ),
    {
        self.visuals.push(PendingVisual { id, state: VisualState::AwaitingAsset });
    }

    /// One per-tick sweep: finalizes, exactly once each, every visual
    /// whose asset has now loaded, and returns the resize-and-show
    /// actions for the renderer. Already-finalized visuals are skipped.
    pub fn sweep(&mut self, loads: &Vec<AssetLoad>) -> (actions: Vec<FinalizeAction>)
        ensures
            final(self).rows() == sweep_model(old(self).rows(), loads@).0,
            actions@ == sweep_model(old(self).rows(), loads@).1,
    {
        let ghost vs0 = self.visuals@;
        let mut actions: Vec<FinalizeAction> = Vec::new();
        let mut i: usize = 0;
        proof {
            lemma_sweep_model_len(vs0, loads@);
            assert(vs0.skip(0) =~= vs0);
            assert(self.visuals@.take(0) =~= sweep_model(vs0, loads@).0.take(0));
            assert(actions@ + sweep_model(vs0.skip(0), loads@).1 =~= sweep_model(vs0, loads@).1);
            assert(sweep_model(vs0.skip(0), loads@).0 =~= sweep_model(vs0, loads@).0.skip(0));
        }
        while i < self.visuals.len()
            invariant
                0 <= i <= vs0.len(),
                self.visuals@.len() == vs0.len(),
                self.visuals@.take(i as int) == sweep_model(vs0, loads@).0.take(i as int),
                sweep_model(vs0, loads@).0.len() == vs0.len(),
                forall|j: int| i <= j < vs0.len() ==> self.visuals@[j] == vs0[j],
                actions@ + sweep_model(vs0.skip(i as int), loads@).1 == sweep_model(vs0, loads@).1,
                sweep_model(vs0.skip(i as int), loads@).0 == sweep_model(vs0, loads@).0.skip(
                    i as int,
                ),
            decreases vs0.len() - i,
        {
            let ghost rem = vs0.skip(i as int);
            proof {
                assert(rem[0] == vs0[i as int]);
                assert(rem.drop_first() =~= vs0.skip(i as int + 1));
            }
            let v = self.visuals[i];
            let stepped = match find_load_in(loads, v.id) {
                Some(l) => {
                    if matches!(v.state, VisualState::AwaitingAsset) && l.height > 0 {
                        let w = (l.width as u64) * (TARGET_HEIGHT as u64) / (l.height as u64);
                        actions.push(FinalizeAction { id: v.id, width: w });
                        PendingVisual { id: v.id, state: VisualState::Ready { width: w } }
                    } else {
                        v
                    }
                },
                None => v,
            };
            self.visuals.set(i, stepped);
            proof {
                let m = sweep_model(vs0, loads@);
                assert(stepped == sweep_visual(vs0[i as int], loads@).0);
                assert(sweep_model(rem, loads@).0[0] == sweep_visual(rem[0], loads@).0);
                assert(m.0[i as int] == sweep_model(rem, loads@).0[0]);
                assert(self.visuals@.take(i as int + 1) =~= self.visuals@.take(i as int).push(
                    stepped,
                ));
                assert(m.0.take(i as int + 1) =~= m.0.take(i as int).push(m.0[i as int]));
                assert(sweep_model(rem, loads@).0.drop_first() =~= sweep_model(
                    vs0.skip(i as int + 1),
                    loads@,
                ).0);
                assert(m.0.skip(i as int).drop_first() =~= m.0.skip(i as int + 1));
                match sweep_visual(rem[0], loads@).1 {
                    Some(a) => {
                        assert(actions@ =~= actions@.drop_last().push(a));
                        assert(actions@.drop_last().push(a) + sweep_model(
                            vs0.skip(i as int + 1),
                            loads@,
                        ).1 =~= actions@.drop_last() + (seq![a] + sweep_model(
                            vs0.skip(i as int + 1),
                            loads@,
                        ).1));
                        assert(sweep_model(rem, loads@).1 == seq![a] + sweep_model(
                            rem.drop_first(),
                            loads@,
                        ).1);
                    },
                    None => {
                        assert(sweep_model(rem, loads@).1 == sweep_model(rem.drop_first(), loads@).1);
                    },
                }
            }
            i = i + 1;
        }
        proof {
            assert(self.visuals@.take(vs0.len() as int) =~= self.visuals@);
            assert(sweep_model(vs0, loads@).0.take(vs0.len() as int) =~= sweep_model(
                vs0,
                loads@,
            ).0);
            assert(vs0.skip(vs0.len() as int) =~= Seq::<PendingVisual>::empty());
            assert(actions@ + Seq::<FinalizeAction>::empty() =~= actions@);
        }
        actions
    }
}

/// Linear scan for the first load reported for `id`.
fn find_load_in(loads: &Vec<AssetLoad>, id: u64) -> (r: Option<AssetLoad>)
    ensures
        r == find_load(loads@, id),
{
    let mut i: usize = 0;
    proof {
        assert(loads@.skip(0) =~= loads@);
    }
    while i < loads.len()
        invariant
            0 <= i <= loads@.len(),
            find_load(loads@, id) == find_load(loads@.skip(i as int), id),
        decreases loads@.len() - i,
    {
        proof {
            assert(loads@.skip(i as int)[0] == loads@[i as int]);
            assert(loads@.skip(i as int).drop_first() =~= loads@.skip(i as int + 1));
        }
        if loads[i].id == id {
            return Some(loads[i]);
        }
        i = i + 1;
    }
    proof {
        assert(loads@.skip(loads@.len() as int) =~= Seq::<AssetLoad>::empty());
    }
    None
}

/// Finalization is idempotent: sweeping never changes an already-`Ready`
/// visual and never emits a second action for it; in particular a whole
/// second sweep with the same loads changes nothing and emits nothing.
pub proof fn lemma_finalize_idempotent(vs: Seq<PendingVisual>, loads: Seq<AssetLoad>)
    ensures
        forall|v: PendingVisual|
            v.state is Ready ==> #[trigger] sweep_visual(v, loads) == (v, None::<FinalizeAction>),
        sweep_model(sweep_model(vs, loads).0, loads).0 == sweep_model(vs, loads).0,
        sweep_model(sweep_model(vs, loads).0, loads).1 == Seq::<FinalizeAction>::empty(),
    decreases vs.len(),
{
    if vs.len() == 0 {
    } else {
        lemma_finalize_idempotent(vs.drop_first(), loads);
        let first = sweep_model(vs, loads);
        let head = sweep_visual(vs[0], loads);
        assert(first.0 == seq![head.0] + sweep_model(vs.drop_first(), loads).0);
        assert(first.0[0] == head.0);
        assert(first.0.drop_first() =~= sweep_model(vs.drop_first(), loads).0);
        assert(sweep_visual(head.0, loads).1 is None && sweep_visual(head.0, loads).0 == head.0);
        let second = sweep_model(first.0, loads);
        assert(second.0 == seq![head.0] + sweep_model(first.0.drop_first(), loads).0);
        assert(second.0 =~= first.0);
        assert(second.1 =~= Seq::<FinalizeAction>::empty());
    }
}

} // verus!
