//! The progressive training pipeline: which step comes next, how large each
//! level is, and how a level's pixels become samples and frames.
//!
//! The pipeline itself reads no image, trains nothing and sends nothing. It
//! decides; its driver performs each [`Action`] and reports back with an
//! [`Event`].
use vstd::prelude::*;
use vstd::arithmetic::div_mod::lemma_fundamental_div_mod_converse;

verus! {

/// The number of resolution levels. The last level has the source's size.
pub const LEVELS: u32 = 100;

/// Where the pipeline stands.
#[derive(Debug, Clone, Copy, PartialEq, Eq, Structural)]
pub enum Stage {
    /// Nothing has been asked for yet.
    Start,
    /// The level's dataset has been asked for.
    Preparing(u32),
    /// The level is being trained.
    Training(u32),
    /// The last level has converged.
    Done,
}

/// What the driver reports.
#[derive(Debug, Clone, Copy, PartialEq, Eq, Structural)]
pub enum Event {
    /// The driver is ready to start.
    Begin,
    /// The level's image is resized and stored, its samples are built, and
    /// the trainer's convergence flag is reset.
    Prepared,
    /// One training step is over and its frame is sent; `converged` is the
    /// trainer's word on the level.
    Trained { converged: bool },
}

/// What the driver has to do next.
#[derive(Debug, Clone, Copy, PartialEq, Eq, Structural)]
pub enum Action {
    /// Resize the source to at most `width` by `height`, store the result as
    /// the checkpoint of `level`, build its samples and reset the trainer's
    /// convergence flag.
    Prepare { level: u32, width: u32, height: u32 },
    /// Shuffle the samples, run one training step over all of them, evaluate
    /// the network at every pixel and send the frame.
    Train,
    /// Nothing is left to do.
    Stop,
}

/// The pipeline's state: the size of the source image and the stage. The
/// level of its stage is always one of the `LEVELS` levels.
#[derive(Debug, Clone, Copy, PartialEq, Eq)]
pub struct Pipeline {
    width: u32,
    height: u32,
    stage: Stage,
}

/// One pixel of a level as a training sample. The network's input is the
/// pixel's place, `x / width` and `y / height`; the expected output is its
/// colour, each channel over 255.
#[derive(Debug, Clone, Copy, PartialEq, Eq, Structural)]
pub struct Sample {
    pub x: u32,
    pub y: u32,
    pub width: u32,
    pub height: u32,
    pub red: u8,
    pub green: u8,
    pub blue: u8,
}

/// The instruction to draw one pixel of a frame that is `width` by `height`.
#[derive(Debug, Clone, Copy, PartialEq)]
pub struct PixelDrawInstruction<C> {
    pub x: u32,
    pub y: u32,
    pub r: C,
    pub g: C,
    pub b: C,
    pub width: u32,
    pub height: u32,
}

/// One side of a level: the `level` hundredths of the source's side, rounded
/// down.
pub open spec fn scaled(side: u32, level: u32) -> int {
    side * level / 100
}

/// The stage that follows `stage` on `event`.
pub open spec fn next_stage(stage: Stage, event: Event) -> Stage {
    match stage {
        Stage::Start => Stage::Preparing(1),
        Stage::Preparing(level) => match event {
            Event::Prepared => Stage::Training(level),
            _ => Stage::Preparing(level),
        },
        Stage::Training(level) => match event {
            Event::Trained { converged: true } => if level < LEVELS {
                Stage::Preparing((level + 1) as u32)
            } else {
                Stage::Done
            },
            _ => Stage::Training(level),
        },
        Stage::Done => Stage::Done,
    }
}

/// What the driver has to do when the pipeline of a source of `width` by
/// `height` stands at `stage`.
pub open spec fn action_at(width: u32, height: u32, stage: Stage) -> Action {
    match stage {
        Stage::Start => Action::Stop,
        Stage::Preparing(level) => Action::Prepare {
            level,
            width: scaled(width, level) as u32,
            height: scaled(height, level) as u32,
        },
        Stage::Training(_) => Action::Train,
        Stage::Done => Action::Stop,
    }
}

/// The level that a stage belongs to: none before the first, and one past the
/// last when all is done.
pub open spec fn level_of(stage: Stage) -> int {
    match stage {
        Stage::Start => 0,
        Stage::Preparing(level) => level as int,
        Stage::Training(level) => level as int,
        Stage::Done => LEVELS + 1,
    }
}

/// The `index`-th pixel of a level in row-major order, as a sample.
pub open spec fn sample_at(width: u32, height: u32, pixels: Seq<[u8; 4]>, index: int) -> Sample {
    Sample {
        x: (index % (width as int)) as u32,
        y: (index / (width as int)) as u32,
        width,
        height,
        red: pixels[index][0],
        green: pixels[index][1],
        blue: pixels[index][2],
    }
}

/// The `index`-th pixel of a frame in row-major order, as an instruction.
pub open spec fn instruction_at<C>(
    width: u32,
    height: u32,
    predictions: Seq<[C; 3]>,
    index: int,
) -> PixelDrawInstruction<C> {
    PixelDrawInstruction {
        x: (index % (width as int)) as u32,
        y: (index / (width as int)) as u32,
        r: predictions[index][0],
        g: predictions[index][1],
        b: predictions[index][2],
        width,
        height,
    }
}

/// Whether the level of `stage`, if it has one, is one of the `LEVELS` levels.
pub open spec fn in_range(stage: Stage) -> bool {
    match stage {
        Stage::Preparing(level) => 1 <= level <= LEVELS,
        Stage::Training(level) => 1 <= level <= LEVELS,
        _ => true,
    }
}

impl Pipeline {
    #[verifier::type_invariant]
    spec fn well_formed(self) -> bool {
        in_range(self.stage)
    }

    /// The width of the source image.
    pub closed spec fn source_width(self) -> u32 {
        self.width
    }

    /// The height of the source image.
    pub closed spec fn source_height(self) -> u32 {
        self.height
    }

    /// Where the pipeline stands.
    pub closed spec fn stage_spec(self) -> Stage {
        self.stage
    }

    /// The pipeline for a source image of `width` by `height`, before its
    /// first level.
    pub fn new(width: u32, height: u32) -> (r: Pipeline)
        ensures
            r.source_width() == width,
            r.source_height() == height,
            r.stage_spec() == Stage::Start,
    {
        Pipeline { width, height, stage: Stage::Start }
    }

    /// Where the pipeline stands.
    pub fn stage(&self) -> (r: Stage)
        ensures
            r == self.stage_spec(),
            in_range(r),
    {
        proof {
            use_type_invariant(self);
        }
        self.stage
    }

    /// Whether the last level has converged.
    pub fn is_done(&self) -> (r: bool)
        ensures
            r == (self.stage_spec() == Stage::Done),
    {
        match self.stage {
            Stage::Done => true,
            _ => false,
        }
    }

    /// Takes `event` in and tells what to do next.
    ///
    /// The first event starts level 1. A level is trained, step after step,
    /// until a step reports convergence; then the next level is prepared, or
    /// the pipeline is done after the last. An event that the stage does not
    /// wait for changes nothing, and the pending action is given again. The
    /// level never falls and never rises by more than one.
    pub fn step(&mut self, event: Event) -> (action: Action)
        ensures
            final(self).source_width() == old(self).source_width(),
            final(self).source_height() == old(self).source_height(),
            final(self).stage_spec() == next_stage(old(self).stage_spec(), event),
            action == action_at(old(self).source_width(), old(self).source_height(), final(self).stage_spec()),
            in_range(final(self).stage_spec()),
            level_of(old(self).stage_spec()) <= level_of(final(self).stage_spec()) <= level_of(
                old(self).stage_spec(),
            ) + 1,
    {
        proof {
            use_type_invariant(&*self);
        }
        let stage = match self.stage {
            Stage::Start => Stage::Preparing(1),
            Stage::Preparing(level) => match event {
                Event::Prepared => Stage::Training(level),
                _ => Stage::Preparing(level),
            },
            Stage::Training(level) => match event {
                Event::Trained { converged: true } => if level < LEVELS {
                    Stage::Preparing(level + 1)
                } else {
                    Stage::Done
                },
                _ => Stage::Training(level),
            },
            Stage::Done => Stage::Done,
        };
        *self = Pipeline { width: self.width, height: self.height, stage };
        match stage {
            Stage::Preparing(level) => {
                let (width, height) = level_size(self.width, self.height, level);
                Action::Prepare { level, width, height }
            },
            Stage::Training(_) => Action::Train,
            _ => Action::Stop,
        }
    }
}

/// The size of `level` for a source of `width` by `height`: each side is the
/// `level` hundredths of the source's, rounded down.
pub fn level_size(width: u32, height: u32, level: u32) -> (r: (u32, u32))
    requires
        1 <= level <= LEVELS,
    ensures
        r.0 == scaled(width, level),
        r.1 == scaled(height, level),
        r.0 <= width,
        r.1 <= height,
        level == LEVELS ==> r == (width, height),
{
    (scale(width, level), scale(height, level))
}

/// The `level` hundredths of `side`, rounded down.
fn scale(side: u32, level: u32) -> (r: u32)
    requires
        1 <= level <= LEVELS,
    ensures
        r == scaled(side, level),
        r <= side,
        level == LEVELS ==> r == side,
{
    assert(0 <= side * level <= side * 100) by (nonlinear_arith)
        requires
            0 <= level <= 100,
    ;
    let hundredths: u64 = side as u64 * level as u64;
    (hundredths / 100) as u32
}

/// In a grid that is `width` wide, the place in column `x` of row `y` has the
/// row-major index `y * width + x`, and no other place has it.
pub proof fn lemma_row_major(width: u32, x: u32, y: u32)
    requires
        x < width,
    ensures
        (y * width + x) % (width as int) == x,
        (y * width + x) / (width as int) == y,
{
    lemma_fundamental_div_mod_converse(y * width + x, width as int, y as int, x as int);
}

/// The samples of a level of `width` by `height` whose pixels, row by row and
/// each as red, green, blue and alpha, are `pixels`. There is one sample per
/// pixel, in the pixels' order; the alpha channel is dropped.
pub fn build_dataset(width: u32, height: u32, pixels: &[[u8; 4]]) -> (samples: Vec<Sample>)
    requires
        pixels@.len() == width * height,
    ensures
        samples@ == Seq::new(pixels@.len(), |k: int| sample_at(width, height, pixels@, k)),
        forall|k: int| 0 <= k < samples@.len() ==> (#[trigger] samples@[k]).x < width && samples@[k].y < height,
{
    let total = pixels.len();
    let mut samples: Vec<Sample> = Vec::new();
    for y in 0..height
        invariant
            total == width * height,
            pixels@.len() == total,
            samples@ == Seq::new((y * width) as nat, |k: int| sample_at(width, height, pixels@, k)),
            forall|k: int| 0 <= k < samples@.len() ==> (#[trigger] samples@[k]).x < width && samples@[k].y < height,
    {
        for x in 0..width
            invariant
                y < height,
                total == width * height,
                pixels@.len() == total,
                samples@ == Seq::new((y * width + x) as nat, |k: int| sample_at(width, height, pixels@, k)),
                forall|k: int| 0 <= k < samples@.len() ==> (#[trigger] samples@[k]).x < width && samples@[k].y
                    < height,
        {
            proof {
                lemma_row_major(width, x, y);
                assert(0 <= y * width && y * width + x < width * height) by (nonlinear_arith)
                    requires
                        y < height,
                        x < width,
                ;
            }
            let index = y as usize * width as usize + x as usize;
            let pixel = &pixels[index];
            samples.push(Sample { x, y, width, height, red: pixel[0], green: pixel[1], blue: pixel[2] });
            assert(samples@ =~= Seq::new((y * width + x + 1) as nat, |k: int| sample_at(width, height, pixels@, k)));
        }
        assert((y + 1) * width == y * width + width) by (nonlinear_arith);
    }
    assert(height * width == width * height) by (nonlinear_arith);
    samples
}

/// The frame of a level of `width` by `height` whose predicted colours, row by
/// row and each as red, green and blue, are `predictions`. There is one
/// instruction per pixel, in the pixels' order, and each one names the
/// frame's size.
pub fn build_frame<C: Copy>(width: u32, height: u32, predictions: &[[C; 3]]) -> (frame: Vec<
    PixelDrawInstruction<C>,
>)
    requires
        predictions@.len() == width * height,
    ensures
        frame@ == Seq::new(predictions@.len(), |k: int| instruction_at(width, height, predictions@, k)),
        forall|k: int| 0 <= k < frame@.len() ==> (#[trigger] frame@[k]).x < width && frame@[k].y < height,
{
    let total = predictions.len();
    let mut frame: Vec<PixelDrawInstruction<C>> = Vec::new();
    for y in 0..height
        invariant
            total == width * height,
            predictions@.len() == total,
            frame@ == Seq::new((y * width) as nat, |k: int| instruction_at(width, height, predictions@, k)),
            forall|k: int| 0 <= k < frame@.len() ==> (#[trigger] frame@[k]).x < width && frame@[k].y < height,
    {
        for x in 0..width
            invariant
                y < height,
                total == width * height,
                predictions@.len() == total,
                frame@ == Seq::new(
                    (y * width + x) as nat,
                    |k: int| instruction_at(width, height, predictions@, k),
                ),
                forall|k: int| 0 <= k < frame@.len() ==> (#[trigger] frame@[k]).x < width && frame@[k].y < height,
        {
            proof {
                lemma_row_major(width, x, y);
                assert(0 <= y * width && y * width + x < width * height) by (nonlinear_arith)
                    requires
                        y < height,
                        x < width,
                ;
            }
            let index = y as usize * width as usize + x as usize;
            let colour = &predictions[index];
            frame.push(PixelDrawInstruction { x, y, r: colour[0], g: colour[1], b: colour[2], width, height });
            assert(frame@ =~= Seq::new(
                (y * width + x + 1) as nat,
                |k: int| instruction_at(width, height, predictions@, k),
            ));
        }
        assert((y + 1) * width == y * width + width) by (nonlinear_arith);
    }
    assert(height * width == width * height) by (nonlinear_arith);
    frame
}

} // verus!
