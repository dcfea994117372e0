//! A per-pixel genetic algorithm that approximates a target image.
//!
//! Every pixel of the target owns an independent population of bit-genome
//! chromosomes; each chromosome decodes to one RGB color. Populations
//! evolve by elitist tournament selection, uniform crossover and mutation,
//! and the best chromosome of every cell is rendered into one frame per
//! generation. A fixed 216-color palette quantizes the frame sequence
//! into an animated GIF.
//!
//! The float fitness `exp(-RMSE / 50)` used for ranking is strictly
//! decreasing in the integer sum of squared channel differences, so the
//! verified core orders chromosomes by that integer error and never
//! touches floating point; callers that want the float value derive it
//! from the error.

pub mod animation;
pub mod chromosome;
pub mod color;
pub mod grid;
pub mod params;
pub mod population;
pub mod rng;
pub mod target;
