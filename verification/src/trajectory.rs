//! What holds of a card and its animation over any sequence of updates.

use vstd::prelude::*;
use crate::cards::{CardModel, FlipAnimationState, FlipModel};

verus! {

/// The time that a sequence of time steps takes in all.
pub open spec fn total(dts: Seq<nat>) -> nat
    decreases dts.len(),
{
    if dts.len() == 0 {
        0
    } else {
        total(dts.drop_last()) + dts.last()
    }
}

/// Every time step of the sequence is longer than nothing.
pub open spec fn all_positive(dts: Seq<nat>) -> bool {
    forall|i: int| 0 <= i < dts.len() ==> #[trigger] dts[i] > 0
}

/// An update keeps an animation well-formed.
pub proof fn lemma_step_keeps_animation_wf(a: FlipModel, dt: nat)
    requires
        a.wf(),
    ensures
        a.step(dt).wf(),
{
}

/// After every update of a sequence of updates, of whatever lengths, the
/// scale factor lies between 0 and 1 and is `1 - progress / duration`: its
/// denominator is the duration, and its numerator is what progress leaves of
/// the duration.
pub proof fn lemma_scale_after_updates(a: FlipModel, dts: Seq<nat>)
    requires
        a.wf(),
    ensures
        a.run(dts).wf(),
        a.run(dts).duration == a.duration,
        a.run(dts).scale_x.in_unit_interval(),
        a.run(dts).scale_x.den == a.duration,
        a.run(dts).scale_x.num + a.run(dts).progress == a.duration,
    decreases dts.len(),
{
    if dts.len() > 0 {
        lemma_scale_after_updates(a, dts.drop_last());
    }
}

/// An update keeps a card well-formed.
pub proof fn lemma_step_keeps_card_wf(c: CardModel, dt: nat)
    requires
        c.wf(),
    ensures
        c.step(dt).wf(),
{
}

/// A sequence of updates keeps a card well-formed, and after each of them the
/// card's scale factor lies between 0 and 1 and is `1 - progress / duration`.
pub proof fn lemma_card_scale_after_updates(c: CardModel, dts: Seq<nat>)
    requires
        c.wf(),
    ensures
        c.run(dts).wf(),
        c.run(dts).identifier == c.identifier,
        c.run(dts).animation.duration == c.animation.duration,
        c.run(dts).animation.scale_x.in_unit_interval(),
        c.run(dts).animation.scale_x.den == c.animation.duration,
        c.run(dts).animation.scale_x.num + c.run(dts).animation.progress == c.animation.duration,
    decreases dts.len(),
{
    if dts.len() > 0 {
        lemma_card_scale_after_updates(c, dts.drop_last());
    }
}

/// A request to start an animation that is running changes nothing, and a
/// second request right after a first changes nothing either.
pub proof fn lemma_trigger_idempotent(a: FlipModel)
    ensures
        a.state != FlipAnimationState::Stopped ==> a.triggered() == a,
        a.triggered().triggered() == a.triggered(),
{
}

/// A request to flip a card whose animation is running changes nothing, and
/// a second request right after a first changes nothing either.
pub proof fn lemma_trigger_flip_idempotent(c: CardModel)
    ensures
        c.animation.state != FlipAnimationState::Stopped ==> c.triggered() == c,
        c.triggered().triggered() == c.triggered(),
{
}

/// While the animation is running after each update, requests to flip the
/// card after each update leave its trajectory as it is without them.
pub proof fn lemma_retriggering_keeps_trajectory(c: CardModel, dts: Seq<nat>)
    requires
        forall|k: int|
            1 <= k <= dts.len() ==> (#[trigger] c.run(dts.take(k))).animation.state
                != FlipAnimationState::Stopped,
    ensures
        c.run_retriggered(dts) == c.run(dts),
    decreases dts.len(),
{
    if dts.len() > 0 {
        let shorter = dts.drop_last();
        assert forall|k: int| 1 <= k <= shorter.len() implies (#[trigger] c.run(
            shorter.take(k),
        )).animation.state != FlipAnimationState::Stopped by {
            assert(shorter.take(k) =~= dts.take(k));
        }
        lemma_retriggering_keeps_trajectory(c, shorter);
        assert(dts.take(dts.len() as int) =~= dts);
    }
}

/// The animation at another point of its traversal, with the scale factor
/// that belongs to it.
pub open spec fn at_progress(a: FlipModel, progress: nat) -> FlipModel {
    FlipModel { progress, scale_x: FlipModel::scale_for(a.duration, progress), ..a }
}

/// The card with its animation at another point of its traversal.
pub open spec fn card_at_progress(c: CardModel, progress: nat) -> CardModel {
    CardModel { animation: at_progress(c.animation, progress), ..c }
}

/// While a started animation has not reached its duration, updates only add
/// their time to its progress: the card shows the same face and the animation
/// stays started.
pub proof fn lemma_shrinking(c: CardModel, dts: Seq<nat>)
    requires
        c.wf(),
        c.animation.state == FlipAnimationState::Started,
        all_positive(dts),
        c.animation.progress + total(dts) < c.animation.duration,
    ensures
        c.run(dts) == card_at_progress(c, c.animation.progress + total(dts)),
    decreases dts.len(),
{
    if dts.len() > 0 {
        lemma_shrinking(c, dts.drop_last());
    }
}

/// While a flipped card's animation has not come back to the start, updates
/// only take their time from its progress: the card shows the same face and
/// the animation stays in its second half.
pub proof fn lemma_growing(c: CardModel, dts: Seq<nat>)
    requires
        c.wf(),
        c.animation.state == FlipAnimationState::AfterFlip,
        all_positive(dts),
        total(dts) < c.animation.progress,
    ensures
        c.run(dts) == card_at_progress(c, (c.animation.progress - total(dts)) as nat),
    decreases dts.len(),
{
    if dts.len() > 0 {
        lemma_growing(c, dts.drop_last());
    }
}

/// A full flip of an idle card. After the request, the updates `shrink` stay
/// short of the duration and `turn` reaches it; the updates `grow` stay short
/// of it again and `stop` reaches it. Then the card shows its old face up to
/// `turn`, the other face from `turn` on, and after `stop` it is idle again,
/// as it was but for the face. The face changes once, at the update with
/// which the time since the request first reaches the duration. The whole
/// takes at least twice the duration, and exactly that where `turn` and
/// `stop` reach the duration without passing it.
pub proof fn lemma_full_flip_cycle(
    c: CardModel,
    shrink: Seq<nat>,
    turn: nat,
    grow: Seq<nat>,
    stop: nat,
)
    requires
        c.wf(),
        c.animation.state == FlipAnimationState::Stopped,
        all_positive(shrink),
        all_positive(grow),
        turn > 0,
        stop > 0,
        total(shrink) < c.animation.duration <= total(shrink) + turn,
        total(grow) < c.animation.duration <= total(grow) + stop,
    ensures
        forall|k: int|
            0 <= k <= shrink.len() ==> {
                let during = #[trigger] c.triggered().run(shrink.take(k));
                &&& during.state == c.state
                &&& during.animation.state == FlipAnimationState::Started
                &&& during.animation.progress == total(shrink.take(k))
            },
        ({
            let turned = c.triggered().run(shrink).step(turn);
            &&& turned.state == c.state.flipped()
            &&& turned.animation.state == FlipAnimationState::AfterFlip
            &&& turned.animation.progress == c.animation.duration
            &&& forall|k: int|
                0 <= k <= grow.len() ==> {
                    let during = #[trigger] turned.run(grow.take(k));
                    &&& during.state == c.state.flipped()
                    &&& during.animation.state == FlipAnimationState::AfterFlip
                    &&& during.animation.progress == c.animation.duration - total(grow.take(k))
                }
            &&& turned.run(grow).step(stop) == (CardModel { state: c.state.flipped(), ..c })
        }),
        total(shrink) + turn + total(grow) + stop >= 2 * c.animation.duration,
        total(shrink) + turn + total(grow) + stop == 2 * c.animation.duration <==> total(shrink)
            + turn == c.animation.duration && total(grow) + stop == c.animation.duration,
{
    let started = c.triggered();
    assert forall|k: int| 0 <= k <= shrink.len() implies {
        let during = #[trigger] started.run(shrink.take(k));
        &&& during.state == c.state
        &&& during.animation.state == FlipAnimationState::Started
        &&& during.animation.progress == total(shrink.take(k))
    } by {
        lemma_total_of_prefix(shrink, k);
        lemma_shrinking(started, shrink.take(k));
    }
    lemma_shrinking(started, shrink);
    let turned = started.run(shrink).step(turn);
    assert forall|k: int| 0 <= k <= grow.len() implies {
        let during = #[trigger] turned.run(grow.take(k));
        &&& during.state == c.state.flipped()
        &&& during.animation.state == FlipAnimationState::AfterFlip
        &&& during.animation.progress == c.animation.duration - total(grow.take(k))
    } by {
        lemma_total_of_prefix(grow, k);
        lemma_growing(turned, grow.take(k));
    }
    lemma_growing(turned, grow);
}

/// A prefix of a sequence of time steps takes no longer than the whole, and
/// its steps are positive where all are.
pub proof fn lemma_total_of_prefix(dts: Seq<nat>, k: int)
    requires
        0 <= k <= dts.len(),
    ensures
        total(dts.take(k)) <= total(dts),
        all_positive(dts) ==> all_positive(dts.take(k)),
    decreases dts.len(),
{
    if k == dts.len() {
        assert(dts.take(k) =~= dts);
    } else {
        lemma_total_of_prefix(dts.drop_last(), k);
        assert(dts.drop_last().take(k) =~= dts.take(k));
    }
}

} // verus!
