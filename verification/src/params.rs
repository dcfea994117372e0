//! The fixed parameters of the evolutionary run.

use vstd::prelude::*;

verus! {

/// Number of bits per color channel; a channel decodes MSB-first to `u8`.
pub const GENE_LENGTH: usize = 8;

/// Number of color channels in a gene (red, green, blue).
pub const RGB_CHANNELS: usize = 3;

/// Chromosomes per pixel population.
pub const POPULATION_SIZE: usize = 6;

/// Candidates compared in one tournament (the fixed baseline plus
/// `TOURNAMENT_SIZE - 1` random draws).
pub const TOURNAMENT_SIZE: usize = 3;

/// Chromosomes carried unchanged into the next generation.
pub const ELITE_SIZE: usize = 2;

/// Per-bit flip chance during mutation, in percent.
pub const MUTATION_PERCENT: u64 = 5;

/// Chance that uniform crossover mixes at all, in percent.
pub const CROSSOVER_PERCENT: u64 = 80;

/// Chance of the extra single forced bit flip after mutation, in percent.
pub const FORCE_FLIP_PERCENT: u64 = 10;

/// Side length of the image the stand-alone program evolves.
pub const IMG_SIZE: usize = 100;

/// Generations the stand-alone program runs.
pub const ITERATION: usize = 50;

/// Most frames kept in the animation; longer runs are sampled by stride.
pub const MAX_ANIM_FRAMES: usize = 50;

/// Delay of every animation frame, in hundredths of a second.
pub const FRAME_DELAY: u16 = 20;

} // verus!
