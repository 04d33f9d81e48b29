//! A card and the animation that turns it over.

use vstd::prelude::*;
use vstd::string::StringExecFns;
use crate::ratio::{Fraction, Ratio};

verus! {

/// The time that a card takes to turn from face-on to edge-on, in microseconds.
pub const FLIP_DURATION: u64 = 300_000;

/// Numerator of the factor by which a card's image is enlarged.
pub const BASE_SCALE_NUM: u128 = 3;

/// Denominator of the factor by which a card's image is enlarged.
pub const BASE_SCALE_DEN: u128 = 2;

/// The face of a card that is showing.
#[derive(Debug, Clone, Copy, PartialEq, Eq, Structural)]
pub enum CardState {
    Front,
    Back,
}

impl CardState {
    /// The other face.
    pub open spec fn flipped(self) -> CardState {
        match self {
            CardState::Front => CardState::Back,
            CardState::Back => CardState::Front,
        }
    }
}

/// The phase of a flip animation.
#[derive(Debug, Clone, Copy, PartialEq, Eq, Structural)]
pub enum FlipAnimationState {
    /// The animation will play
    Started,
    /// The animation is at the point where the card should be flipped
    BeforeFlip,
    /// The card has been flipped now
    AfterFlip,
    /// The animation is not playing
    Stopped,
}

/// The mathematical state of a flip animation.
pub ghost struct FlipModel {
    /// The horizontal scale factor.
    pub scale_x: Fraction,
    pub state: FlipAnimationState,
    /// Microseconds that one direction of the animation takes.
    pub duration: nat,
    /// Microseconds into the current traversal.
    pub progress: nat,
    /// `1` while the card shrinks to its edge, `-1` while it grows back.
    pub direction: int,
}

impl FlipModel {
    /// An idle animation of the given duration.
    pub open spec fn idle(duration: nat) -> FlipModel {
        FlipModel {
            scale_x: Fraction { num: duration, den: duration },
            state: FlipAnimationState::Stopped,
            duration,
            progress: 0,
            direction: 1,
        }
    }

    /// The scale factor `1 - progress / duration`, over the denominator
    /// `duration`.
    pub open spec fn scale_for(duration: nat, progress: nat) -> Fraction {
        Fraction { num: (duration - progress) as nat, den: duration }
    }

    /// What holds of every animation that `new`, `update`, `trigger` and
    /// `flip_done` can produce.
    pub open spec fn wf(self) -> bool {
        &&& self.duration > 0
        &&& self.progress <= self.duration
        &&& self.scale_x == Self::scale_for(self.duration, self.progress)
        &&& match self.state {
            FlipAnimationState::Stopped => self.direction == 1 && self.progress == 0,
            FlipAnimationState::Started => self.direction == 1 && self.progress < self.duration,
            FlipAnimationState::BeforeFlip => self.direction == -1 && self.progress > 0,
            FlipAnimationState::AfterFlip => self.direction == -1 && self.progress > 0,
        }
    }

    /// The animation after `dt` more microseconds.
    pub open spec fn step(self, dt: nat) -> FlipModel {
        if self.state == FlipAnimationState::Stopped {
            self
        } else {
            let moved = self.progress + self.direction * dt;
            if moved >= self.duration {
                FlipModel {
                    scale_x: Self::scale_for(self.duration, self.duration),
                    state: FlipAnimationState::BeforeFlip,
                    progress: self.duration,
                    direction: -1,
                    ..self
                }
            } else if moved <= 0 {
                FlipModel {
                    scale_x: Self::scale_for(self.duration, 0),
                    state: FlipAnimationState::Stopped,
                    progress: 0,
                    direction: 1,
                    ..self
                }
            } else {
                FlipModel {
                    scale_x: Self::scale_for(self.duration, moved as nat),
                    progress: moved as nat,
                    ..self
                }
            }
        }
    }

    /// The animation after a sequence of updates, one time step each.
    pub open spec fn run(self, dts: Seq<nat>) -> FlipModel
        decreases dts.len(),
    {
        if dts.len() == 0 {
            self
        } else {
            self.run(dts.drop_last()).step(dts.last())
        }
    }

    /// The animation after a request to start: an idle one starts, a running
    /// one goes on as it is.
    pub open spec fn triggered(self) -> FlipModel {
        if self.state == FlipAnimationState::Stopped {
            FlipModel { state: FlipAnimationState::Started, ..self }
        } else {
            self
        }
    }

    /// The animation after its owner has turned the card: from the point of
    /// the flip it goes on into its second half.
    pub open spec fn flip_done(self) -> FlipModel {
        if self.state == FlipAnimationState::BeforeFlip {
            FlipModel { state: FlipAnimationState::AfterFlip, ..self }
        } else {
            self
        }
    }
}

/// The direction in which an animation's progress moves.
#[derive(Debug, Clone, Copy, PartialEq, Eq, Structural)]
enum Direction {
    /// Progress grows: the card shrinks towards its edge.
    Forward,
    /// Progress falls: the card grows back.
    Backward,
}

impl Direction {
    /// `1` for forward, `-1` for backward.
    spec fn sign(self) -> int {
        match self {
            Direction::Forward => 1,
            Direction::Backward => -1,
        }
    }
}

/// A time-driven animation of a card turning over.
#[derive(Debug, Clone, Copy)]
pub struct FlipAnimation {
    scale_x: Ratio,
    state: FlipAnimationState,
    /// Number of microseconds to animate in one direction
    duration: u64,
    /// Progress of the animation: 0 <= progress <= duration
    progress: u64,
    direction: Direction,
}

impl View for FlipAnimation {
    type V = FlipModel;

    closed spec fn view(&self) -> FlipModel {
        FlipModel {
            scale_x: self.scale_x@,
            state: self.state,
            duration: self.duration as nat,
            progress: self.progress as nat,
            direction: self.direction.sign(),
        }
    }
}

impl FlipAnimation {
    /// The animation is one that `new`, `update`, `trigger` and `flip_done`
    /// can produce.
    pub open spec fn wf(&self) -> bool {
        self@.wf()
    }

    /// An idle animation that takes `duration` microseconds in each direction.
    pub fn new(duration: u64) -> (animation: FlipAnimation)
        requires
            duration > 0,
        ensures
            animation@ == FlipModel::idle(duration as nat),
            animation.wf(),
    {
        FlipAnimation {
            scale_x: Ratio { num: duration as u128, den: duration as u128 },
            state: FlipAnimationState::Stopped,
            progress: 0,
            direction: Direction::Forward,
            duration,
        }
    }

    /// Advances the animation by `dt` microseconds.
    pub fn update(&mut self, dt: u64)
        requires
            old(self).wf(),
        ensures
            final(self)@ == old(self)@.step(dt as nat),
            final(self).wf(),
    {
        if matches!(self.state, FlipAnimationState::Stopped) {
            return;
        }
        let moved: i128 = match self.direction {
            Direction::Forward => self.progress as i128 + dt as i128,
            Direction::Backward => self.progress as i128 - dt as i128,
        };

        // Flip conditions:
        if moved >= self.duration as i128 {
            self.progress = self.duration;
            self.direction = Direction::Backward;
            self.state = FlipAnimationState::BeforeFlip;
        } else if moved <= 0 {
            self.progress = 0;
            self.direction = Direction::Forward;
            self.state = FlipAnimationState::Stopped;
        } else {
            self.progress = moved as u64;
        }
        self.scale_x = Ratio {
            num: (self.duration - self.progress) as u128,
            den: self.duration as u128,
        };
    }

    /// Starts the animation if it is idle; a running animation goes on as it
    /// is.
    pub fn trigger(&mut self)
        ensures
            final(self)@ == old(self)@.triggered(),
            old(self).wf() ==> final(self).wf(),
    {
        if matches!(self.state, FlipAnimationState::Stopped) {
            self.state = FlipAnimationState::Started;
        }
    }

    /// Tells the animation, at the point of the flip, that the card was
    /// turned: it goes on into its second half.
    pub fn flip_done(&mut self)
        ensures
            final(self)@ == old(self)@.flip_done(),
            old(self).wf() ==> final(self).wf(),
    {
        if matches!(self.state, FlipAnimationState::BeforeFlip) {
            self.state = FlipAnimationState::AfterFlip;
        }
    }

    /// The horizontal scale factor.
    pub fn scale_x(&self) -> (scale: Ratio)
        ensures
            scale@ == self@.scale_x,
    {
        self.scale_x
    }

    /// The phase of the animation.
    pub fn state(&self) -> (state: FlipAnimationState)
        ensures
            state == self@.state,
    {
        self.state
    }

    /// The microseconds that one direction of the animation takes.
    pub fn duration(&self) -> (duration: u64)
        ensures
            duration == self@.duration,
    {
        self.duration
    }

    /// The microseconds into the current traversal.
    pub fn progress(&self) -> (progress: u64)
        ensures
            progress == self@.progress,
    {
        self.progress
    }
}

/// The handle by which the renderer finds a loaded image.
#[derive(Debug, Clone, Copy, PartialEq, Eq, Structural)]
pub struct ImageHandle {
    pub id: u64,
}

/// The mathematical state of a card.
pub ghost struct CardModel {
    pub state: CardState,
    pub identifier: Seq<char>,
    pub image_front: Option<ImageHandle>,
    pub image_back: Option<ImageHandle>,
    pub animation: FlipModel,
}

/// What the renderer is asked to draw, as a fraction in each coordinate.
pub ghost struct SpriteModel {
    pub image: ImageHandle,
    /// Where the image's anchor goes on the screen, in pixels.
    pub dest: (Fraction, Fraction),
    /// The anchor, as a share of the image's width and height.
    pub offset: (Fraction, Fraction),
    /// The factors by which the image is enlarged.
    pub scale: (Fraction, Fraction),
}

/// The factor by which a card's image is enlarged when the card is face-on.
pub open spec fn base_scale() -> Fraction {
    Fraction { num: BASE_SCALE_NUM as nat, den: BASE_SCALE_DEN as nat }
}

impl CardModel {
    /// A new card: face down, idle, without images.
    pub open spec fn fresh(identifier: Seq<char>) -> CardModel {
        CardModel {
            state: CardState::Back,
            identifier,
            image_front: None,
            image_back: None,
            animation: FlipModel::idle(FLIP_DURATION as nat),
        }
    }

    /// What holds of every card that `new`, `update`, `trigger_flip` and
    /// `load` can produce: its animation is well-formed, and never rests at
    /// the point where the card is to be flipped.
    pub open spec fn wf(self) -> bool {
        self.animation.wf() && self.animation.state != FlipAnimationState::BeforeFlip
    }

    /// The card after `dt` more microseconds: the animation advances, and
    /// where it reaches the point of the flip, the other face shows and the
    /// animation goes on from there.
    pub open spec fn step(self, dt: nat) -> CardModel {
        let animation = self.animation.step(dt);
        if animation.state == FlipAnimationState::BeforeFlip {
            CardModel { state: self.state.flipped(), animation: animation.flip_done(), ..self }
        } else {
            CardModel { animation, ..self }
        }
    }

    /// The card after a request to flip it: an idle animation starts, a
    /// running one goes on.
    pub open spec fn triggered(self) -> CardModel {
        CardModel { animation: self.animation.triggered(), ..self }
    }

    /// The card after a sequence of updates, one time step each.
    pub open spec fn run(self, dts: Seq<nat>) -> CardModel
        decreases dts.len(),
    {
        if dts.len() == 0 {
            self
        } else {
            self.run(dts.drop_last()).step(dts.last())
        }
    }

    /// The card after a sequence of updates with a request to flip it after
    /// each of them.
    pub open spec fn run_retriggered(self, dts: Seq<nat>) -> CardModel
        decreases dts.len(),
    {
        if dts.len() == 0 {
            self
        } else {
            self.run_retriggered(dts.drop_last()).step(dts.last()).triggered()
        }
    }

    /// The image of the face that is showing, if it was loaded.
    pub open spec fn visible_image(self) -> Option<ImageHandle> {
        match self.state {
            CardState::Front => self.image_front,
            CardState::Back => self.image_back,
        }
    }

    /// The drawing of the card with its centre at `(x, y)`: none while the
    /// image of the face that is showing is not loaded.
    pub open spec fn sprite(self, x: Fraction, y: Fraction) -> Option<SpriteModel> {
        match self.visible_image() {
            Some(image) => Some(
                SpriteModel {
                    image,
                    dest: (x, y),
                    offset: (Fraction { num: 1, den: 2 }, Fraction { num: 1, den: 2 }),
                    scale: (base_scale().times(self.animation.scale_x), base_scale()),
                },
            ),
            None => None,
        }
    }
}

/// What the renderer is asked to draw.
#[derive(Debug, Clone, Copy, PartialEq, Eq, Structural)]
pub struct Sprite {
    pub image: ImageHandle,
    pub dest_x: Ratio,
    pub dest_y: Ratio,
    pub offset_x: Ratio,
    pub offset_y: Ratio,
    pub scale_x: Ratio,
    pub scale_y: Ratio,
}

impl View for Sprite {
    type V = SpriteModel;

    open spec fn view(&self) -> SpriteModel {
        SpriteModel {
            image: self.image,
            dest: (self.dest_x@, self.dest_y@),
            offset: (self.offset_x@, self.offset_y@),
            scale: (self.scale_x@, self.scale_y@),
        }
    }
}

/// The view of an optional sprite.
pub open spec fn sprite_view(sprite: Option<Sprite>) -> Option<SpriteModel> {
    match sprite {
        Some(s) => Some(s@),
        None => None,
    }
}

/// A card of the game.
#[derive(Debug)]
pub struct Card {
    pub state: CardState,
    pub identifier: String,
    pub image_front: Option<ImageHandle>,
    pub image_back: Option<ImageHandle>,
    pub animation: FlipAnimation,
}

impl View for Card {
    type V = CardModel;

    open spec fn view(&self) -> CardModel {
        CardModel {
            state: self.state,
            identifier: self.identifier@,
            image_front: self.image_front,
            image_back: self.image_back,
            animation: self.animation@,
        }
    }
}

impl Clone for Card {
    /// A card with the same name, face, images and animation.
    fn clone(&self) -> (copy: Card)
        ensures
            copy@ == self@,
    {
        Card {
            state: self.state,
            identifier: self.identifier.clone(),
            image_front: self.image_front,
            image_back: self.image_back,
            animation: self.animation,
        }
    }
}

impl Card {
    /// The card is one that `new`, `update`, `trigger_flip` and `load` can
    /// produce.
    pub open spec fn wf(&self) -> bool {
        self@.wf()
    }

    /// A card with the given name: face down, idle, its images not loaded.
    pub fn new(identifier: &str) -> (card: Card)
        ensures
            card@ == CardModel::fresh(identifier@),
            card.wf(),
    {
        Card {
            identifier: String::from_str(identifier),
            state: CardState::Back,
            animation: FlipAnimation::new(FLIP_DURATION),
            // Images loaded later
            image_front: None,
            image_back: None,
        }
    }

    /// Where the image of the card's front is kept: `/cards/`, the card's
    /// name, and `.png`.
    pub fn front_image_path(&self) -> (path: String)
        ensures
            path@ == "/cards/"@ + self@.identifier + ".png"@,
    {
        String::from_str("/cards/").concat(self.identifier.as_str()).concat(".png")
    }

    /// Where the image of every card's back is kept.
    pub fn back_image_path() -> (path: String)
        ensures
            path@ == "/cards/card_back.png"@,
    {
        String::from_str("/cards/card_back.png")
    }

    /// Records the images of the two faces, once the renderer has them.
    pub fn load(&mut self, front: ImageHandle, back: ImageHandle)
        ensures
            final(self)@ == (CardModel {
                image_front: Some(front),
                image_back: Some(back),
                ..old(self)@
            }),
    {
        self.image_front = Some(front);
        self.image_back = Some(back);
    }

    /// Advances the card by `dt` microseconds.
    pub fn update(&mut self, dt: u64)
        requires
            old(self).wf(),
        ensures
            final(self)@ == old(self)@.step(dt as nat),
            final(self).wf(),
    {
        self.animation.update(dt);

        if matches!(self.animation.state(), FlipAnimationState::BeforeFlip) {
            self.flip();
            self.animation.flip_done();
        }
    }

    /// The drawing of the card with its centre at `(x, y)`, or nothing while
    /// the image of the face that is showing is not loaded.
    pub fn draw(&self, x: Ratio, y: Ratio) -> (sprite: Option<Sprite>)
        requires
            self.wf(),
        ensures
            sprite_view(sprite) == self@.sprite(x@, y@),
    {
        if let Some(image) = self.visible_image() {
            let base = Ratio { num: BASE_SCALE_NUM, den: BASE_SCALE_DEN };
            Some(
                Sprite {
                    image,
                    dest_x: x,
                    dest_y: y,
                    offset_x: Ratio { num: 1, den: 2 },
                    offset_y: Ratio { num: 1, den: 2 },
                    scale_x: base.times(self.animation.scale_x),
                    scale_y: base,
                },
            )
        } else {
            None
        }
    }

    /// Only starts flip animation if it's already done -- so it can be safely called multiple
    /// times in a row.
    pub fn trigger_flip(&mut self)
        ensures
            final(self)@ == old(self)@.triggered(),
            old(self).wf() ==> final(self).wf(),
    {
        self.animation.trigger();
    }

    /// The image of the face that is showing, if it was loaded.
    pub fn visible_image(&self) -> (image: Option<ImageHandle>)
        ensures
            image == self@.visible_image(),
    {
        match self.state {
            CardState::Front => self.image_front,
            CardState::Back => self.image_back,
        }
    }

    fn flip(&mut self)
        ensures
            final(self)@ == (CardModel { state: old(self)@.state.flipped(), ..old(self)@ }),
    {
        match self.state {
            CardState::Front => self.state = CardState::Back,
            CardState::Back => self.state = CardState::Front,
        }
    }
}

/// The names of the cards of the full deck, in the deck's order.
pub open spec fn deck_names() -> Seq<Seq<char>> {
    seq![
        "card_hearts_A"@,
        "card_hearts_02"@,
        "card_hearts_03"@,
        "card_hearts_04"@,
        "card_hearts_05"@,
        "card_hearts_06"@,
        "card_hearts_07"@,
        "card_hearts_08"@,
        "card_hearts_09"@,
        "card_hearts_10"@,
        "card_hearts_J"@,
        "card_hearts_Q"@,
        "card_hearts_K"@,
        "card_empty"@,
        "card_diamonds_A"@,
        "card_diamonds_02"@,
        "card_diamonds_03"@,
        "card_diamonds_04"@,
        "card_diamonds_05"@,
        "card_diamonds_06"@,
        "card_diamonds_07"@,
        "card_diamonds_08"@,
        "card_diamonds_09"@,
        "card_diamonds_10"@,
        "card_diamonds_J"@,
        "card_diamonds_Q"@,
        "card_diamonds_K"@,
        "card_back"@,
        "card_clubs_A"@,
        "card_clubs_02"@,
        "card_clubs_03"@,
        "card_clubs_04"@,
        "card_clubs_05"@,
        "card_clubs_06"@,
        "card_clubs_07"@,
        "card_clubs_08"@,
        "card_clubs_09"@,
        "card_clubs_10"@,
        "card_clubs_J"@,
        "card_clubs_Q"@,
        "card_clubs_K"@,
        "card_joker_red"@,
        "card_spades_A"@,
        "card_spades_02"@,
        "card_spades_03"@,
        "card_spades_04"@,
        "card_spades_05"@,
        "card_spades_06"@,
        "card_spades_07"@,
        "card_spades_08"@,
        "card_spades_09"@,
        "card_spades_10"@,
        "card_spades_J"@,
        "card_spades_Q"@,
        "card_spades_K"@,
        "card_joker_black"@,
    ]
}

/// The full deck: one new card for each name of `deck_names`, in that order.
pub fn all() -> (deck: Vec<Card>)
    ensures
        deck@.len() == 56,
        deck@.len() == deck_names().len(),
        forall|i: int|
            0 <= i < deck@.len() ==> (#[trigger] deck@[i])@ == CardModel::fresh(deck_names()[i])
                && deck@[i].wf(),
{
    vec![
        Card::new("card_hearts_A"),
        Card::new("card_hearts_02"),
        Card::new("card_hearts_03"),
        Card::new("card_hearts_04"),
        Card::new("card_hearts_05"),
        Card::new("card_hearts_06"),
        Card::new("card_hearts_07"),
        Card::new("card_hearts_08"),
        Card::new("card_hearts_09"),
        Card::new("card_hearts_10"),
        Card::new("card_hearts_J"),
        Card::new("card_hearts_Q"),
        Card::new("card_hearts_K"),
        Card::new("card_empty"),
        Card::new("card_diamonds_A"),
        Card::new("card_diamonds_02"),
        Card::new("card_diamonds_03"),
        Card::new("card_diamonds_04"),
        Card::new("card_diamonds_05"),
        Card::new("card_diamonds_06"),
        Card::new("card_diamonds_07"),
        Card::new("card_diamonds_08"),
        Card::new("card_diamonds_09"),
        Card::new("card_diamonds_10"),
        Card::new("card_diamonds_J"),
        Card::new("card_diamonds_Q"),
        Card::new("card_diamonds_K"),
        Card::new("card_back"),
        Card::new("card_clubs_A"),
        Card::new("card_clubs_02"),
        Card::new("card_clubs_03"),
        Card::new("card_clubs_04"),
        Card::new("card_clubs_05"),
        Card::new("card_clubs_06"),
        Card::new("card_clubs_07"),
        Card::new("card_clubs_08"),
        Card::new("card_clubs_09"),
        Card::new("card_clubs_10"),
        Card::new("card_clubs_J"),
        Card::new("card_clubs_Q"),
        Card::new("card_clubs_K"),
        Card::new("card_joker_red"),
        Card::new("card_spades_A"),
        Card::new("card_spades_02"),
        Card::new("card_spades_03"),
        Card::new("card_spades_04"),
        Card::new("card_spades_05"),
        Card::new("card_spades_06"),
        Card::new("card_spades_07"),
        Card::new("card_spades_08"),
        Card::new("card_spades_09"),
        Card::new("card_spades_10"),
        Card::new("card_spades_J"),
        Card::new("card_spades_Q"),
        Card::new("card_spades_K"),
        Card::new("card_joker_black"),
    ]
}

} // verus!
