//! Databending: deliberately destructive, randomised transformations of raster
//! images, with every effect stated over a mathematical model of the pixel
//! buffer and proved against it.
//!
//! The image is a [`pixel::PixelBuffer`]; what is random comes from a
//! [`random::RandomSource`]. Four effects run at once: [`noise`],
//! [`exposure`], [`shuffle`] and [`layers`], the last with the compositor of
//! [`blend`]. [`synesthesia`] and [`burst`] bend the image key by key.
//! [`dispatch`] knows the effects by name and [`params`] reads what the user
//! typed for them; [`shell`] says what each key does. Reading and writing
//! image files and drawing the screen are left to the program around the
//! library.
//!
//! Every effect that runs at once leaves its input alone and hands out a
//! fresh buffer. Nothing here is computed in floating point: an exposure
//! factor and the alpha that a layer keeps are counted in thousandths, and
//! the compositor weighs its pixels in whole numbers.

pub mod blend;
pub mod burst;
pub mod dispatch;
pub mod error;
pub mod exposure;
pub mod grid;
pub mod layers;
pub mod noise;
pub mod params;
pub mod pixel;
pub mod random;
pub mod shell;
pub mod shuffle;
pub mod synesthesia;
pub mod text;

