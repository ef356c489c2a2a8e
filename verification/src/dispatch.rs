//! The effects by name: which there are, what parameter each takes, and how
//! an image is run through one of them and made ready to be saved.

use crate::error::ConfigError;
use crate::exposure::boost_limit;
use crate::exposure::exposure_outcome;
use crate::exposure::lemma_exposure_zero_keeps_image;
use crate::exposure::overexpose;
use crate::layers::composite;
use crate::layers::composite_outcome;
use crate::layers::layered_composite;
use crate::layers::lemma_composite_shape;
use crate::layers::Layer;
use crate::noise::inject_noise;
use crate::noise::noise_outcome;
use crate::params::exposure_or_default;
use crate::params::exposure_parameter;
use crate::params::iso_or_default;
use crate::params::iso_parameter;
use crate::params::layers_or_default;
use crate::params::layers_parameter;
use crate::params::patch_size_or_default;
use crate::params::patch_size_parameter;
use crate::pixel::flattened;
use crate::pixel::PixelBuffer;
use crate::pixel::Raster;
use crate::random::RandomSource;
use crate::shuffle::is_permutation;
use crate::shuffle::patch_shuffle;
use crate::shuffle::rearranged;
use crate::shuffle::shuffle_outcome;
use crate::shuffle::tile_count;
use vstd::prelude::*;

verus! {

/// Number of effects on offer.
pub const EFFECT_COUNT: usize = 7;

/// The effects on offer, in the order in which they are listed.
#[derive(Clone, Copy, Debug, PartialEq, Eq, Structural)]
pub enum EffectKind {
    /// Noise injection.
    Oversensibility,
    /// Exposure boost.
    Overexposure,
    /// The image bent key by key.
    Synesthesia,
    /// Patch shuffle.
    VariationsOnACloud,
    /// Layered composite.
    TheMindElectric,
    /// The image overwritten with a text, key by key.
    JackStauberism,
    /// The image overwritten with noise, key by key.
    NewNormal,
}

impl EffectKind {
    /// The place of the effect in the list.
    pub open spec fn position(self) -> nat {
        match self {
            EffectKind::Oversensibility => 0,
            EffectKind::Overexposure => 1,
            EffectKind::Synesthesia => 2,
            EffectKind::VariationsOnACloud => 3,
            EffectKind::TheMindElectric => 4,
            EffectKind::JackStauberism => 5,
            EffectKind::NewNormal => 6,
        }
    }

    /// Whether the effect runs key by key rather than at once.
    pub open spec fn interactive(self) -> bool {
        self == EffectKind::Synesthesia || self == EffectKind::JackStauberism || self
            == EffectKind::NewNormal
    }

    /// The place of the effect in the list.
    pub fn index(self) -> (index: usize)
        ensures
            index == self.position(),
            index < EFFECT_COUNT,
    {
        match self {
            EffectKind::Oversensibility => 0,
            EffectKind::Overexposure => 1,
            EffectKind::Synesthesia => 2,
            EffectKind::VariationsOnACloud => 3,
            EffectKind::TheMindElectric => 4,
            EffectKind::JackStauberism => 5,
            EffectKind::NewNormal => 6,
        }
    }

    /// The effect in place `index` of the list.
    pub fn from_index(index: usize) -> (kind: Option<EffectKind>)
        ensures
            kind is Some <==> index < EFFECT_COUNT,
            kind matches Some(k) ==> k.position() == index,
    {
        if index == 0 {
            Some(EffectKind::Oversensibility)
        } else if index == 1 {
            Some(EffectKind::Overexposure)
        } else if index == 2 {
            Some(EffectKind::Synesthesia)
        } else if index == 3 {
            Some(EffectKind::VariationsOnACloud)
        } else if index == 4 {
            Some(EffectKind::TheMindElectric)
        } else if index == 5 {
            Some(EffectKind::JackStauberism)
        } else if index == 6 {
            Some(EffectKind::NewNormal)
        } else {
            None
        }
    }

    /// The effect that follows in the list, the first after the last.
    pub fn following(self) -> (next: EffectKind)
        ensures
            next.position() == if self.position() + 1 == EFFECT_COUNT {
                0
            } else {
                self.position() + 1
            },
    {
        match self {
            EffectKind::Oversensibility => EffectKind::Overexposure,
            EffectKind::Overexposure => EffectKind::Synesthesia,
            EffectKind::Synesthesia => EffectKind::VariationsOnACloud,
            EffectKind::VariationsOnACloud => EffectKind::TheMindElectric,
            EffectKind::TheMindElectric => EffectKind::JackStauberism,
            EffectKind::JackStauberism => EffectKind::NewNormal,
            EffectKind::NewNormal => EffectKind::Oversensibility,
        }
    }

    /// The effect that comes before in the list, the last before the first.
    pub fn preceding(self) -> (previous: EffectKind)
        ensures
            previous.position() == if self.position() == 0 {
                EFFECT_COUNT - 1
            } else {
                self.position() - 1
            },
    {
        match self {
            EffectKind::Oversensibility => EffectKind::NewNormal,
            EffectKind::Overexposure => EffectKind::Oversensibility,
            EffectKind::Synesthesia => EffectKind::Overexposure,
            EffectKind::VariationsOnACloud => EffectKind::Synesthesia,
            EffectKind::TheMindElectric => EffectKind::VariationsOnACloud,
            EffectKind::JackStauberism => EffectKind::TheMindElectric,
            EffectKind::NewNormal => EffectKind::JackStauberism,
        }
    }

    /// Whether the effect runs key by key rather than at once.
    pub fn is_interactive(self) -> (yes: bool)
        ensures
            yes == self.interactive(),
    {
        match self {
            EffectKind::Synesthesia | EffectKind::JackStauberism | EffectKind::NewNormal => true,
            _ => false,
        }
    }

    /// How many parameters the effect takes: one where it runs at once, none
    /// where it runs key by key.
    pub fn parameter_count(self) -> (count: usize)
        ensures
            count == if self.interactive() {
                0nat
            } else {
                1nat
            },
    {
        if self.is_interactive() {
            0
        } else {
            1
        }
    }
}

/// An effect that runs at once, with its parameter.
#[derive(Clone, Copy, Debug, PartialEq, Eq, Structural)]
pub enum Effect {
    NoiseInjection { iso: i32 },
    /// The exposure factor is counted in thousandths.
    ExposureBoost { factor_milli: u32 },
    PatchShuffle { patch_size: u32 },
    LayeredComposite { layers: u32 },
}

/// The effect of the given kind with its parameter as the user typed it;
/// none for the kinds that run key by key.
pub open spec fn effect_for(kind: EffectKind, text: Seq<char>) -> Option<Effect> {
    match kind {
        EffectKind::Oversensibility => Some(
            Effect::NoiseInjection { iso: iso_or_default(text) as i32 },
        ),
        EffectKind::Overexposure => Some(
            Effect::ExposureBoost { factor_milli: exposure_or_default(text) as u32 },
        ),
        EffectKind::VariationsOnACloud => Some(
            Effect::PatchShuffle { patch_size: patch_size_or_default(text) as u32 },
        ),
        EffectKind::TheMindElectric => Some(
            Effect::LayeredComposite { layers: layers_or_default(text) as u32 },
        ),
        _ => None,
    }
}

/// The parameter with which the effect cannot run on the image, if it is so.
pub open spec fn effect_error(effect: Effect, input: Raster) -> Option<ConfigError> {
    match effect {
        Effect::PatchShuffle { patch_size } => if patch_size == 0 {
            Some(ConfigError::PatchSizeZero)
        } else if patch_size > input.width || patch_size > input.height {
            Some(ConfigError::PatchSizeExceedsImage)
        } else {
            None
        },
        _ => None,
    }
}

/// Everything that is certain of the image that the effect makes of `input`,
/// alpha included, whatever was drawn.
pub open spec fn bend_outcome(effect: Effect, input: Raster, bent: Raster) -> bool {
    match effect {
        Effect::NoiseInjection { iso } => noise_outcome(input, iso as int, bent),
        Effect::ExposureBoost { factor_milli } => exposure_outcome(
            input,
            boost_limit(factor_milli as int),
            bent,
        ),
        Effect::PatchShuffle { patch_size } => shuffle_outcome(input, patch_size as int, bent),
        Effect::LayeredComposite { layers } => composite_outcome(input, layers as int, bent),
    }
}

/// Everything that is certain of the image that is saved after the effect
/// ran on `input`: it is what the effect made of the input, with alpha
/// dropped.
pub open spec fn effect_outcome(effect: Effect, input: Raster, out: Raster) -> bool {
    exists|bent: Raster| bend_outcome(effect, input, bent) && out == flattened(bent)
}

impl Effect {
    /// The effect of the given kind with its parameter as the user typed it;
    /// none for the kinds that run key by key.
    pub fn from_input(kind: EffectKind, text: &str) -> (effect: Option<Effect>)
        ensures
            effect == effect_for(kind, text@),
    {
        match kind {
            EffectKind::Oversensibility => Some(
                Effect::NoiseInjection { iso: iso_parameter(text) },
            ),
            EffectKind::Overexposure => Some(
                Effect::ExposureBoost { factor_milli: exposure_parameter(text) },
            ),
            EffectKind::VariationsOnACloud => Some(
                Effect::PatchShuffle { patch_size: patch_size_parameter(text) },
            ),
            EffectKind::TheMindElectric => Some(
                Effect::LayeredComposite { layers: layers_parameter(text) },
            ),
            _ => None,
        }
    }

    /// The kind of the effect.
    pub fn kind(&self) -> (kind: EffectKind)
        ensures
            kind == match *self {
                Effect::NoiseInjection { .. } => EffectKind::Oversensibility,
                Effect::ExposureBoost { .. } => EffectKind::Overexposure,
                Effect::PatchShuffle { .. } => EffectKind::VariationsOnACloud,
                Effect::LayeredComposite { .. } => EffectKind::TheMindElectric,
            },
            !kind.interactive(),
    {
        match self {
            Effect::NoiseInjection { .. } => EffectKind::Oversensibility,
            Effect::ExposureBoost { .. } => EffectKind::Overexposure,
            Effect::PatchShuffle { .. } => EffectKind::VariationsOnACloud,
            Effect::LayeredComposite { .. } => EffectKind::TheMindElectric,
        }
    }

    /// Runs the effect on the image and keeps the alpha channel.
    pub fn bend(&self, input: &PixelBuffer, rng: &mut RandomSource) -> (result: Result<
        PixelBuffer,
        ConfigError,
    >)
        requires
            input.wf(),
            input@.channels == 4,
        ensures
            match result {
                Ok(bent) => {
                    &&& effect_error(*self, input@) is None
                    &&& bent.wf()
                    &&& bent@.channels == 4
                    &&& bend_outcome(*self, input@, bent@)
                },
                Err(e) => effect_error(*self, input@) == Some(e),
            },
            result is Err ==> *final(rng) == *old(rng),
    {
        match self {
            Effect::NoiseInjection { iso } => Ok(inject_noise(input, *iso, rng)),
            Effect::ExposureBoost { factor_milli } => Ok(overexpose(input, *factor_milli, rng)),
            Effect::PatchShuffle { patch_size } => patch_shuffle(input, *patch_size, rng),
            Effect::LayeredComposite { layers } => {
                let bent: PixelBuffer = layered_composite(input, *layers, rng);
                proof {
                    lemma_outcome_shape(*self, input@, bent@);
                }
                Ok(bent)
            },
        }
    }

    /// Runs the effect on the image and hands out what is saved: the image
    /// with three channels to the pixel.
    pub fn apply(&self, input: &PixelBuffer, rng: &mut RandomSource) -> (result: Result<
        PixelBuffer,
        ConfigError,
    >)
        requires
            input.wf(),
            input@.channels == 4,
        ensures
            match result {
                Ok(out) => {
                    &&& effect_error(*self, input@) is None
                    &&& out.wf()
                    &&& effect_outcome(*self, input@, out@)
                },
                Err(e) => effect_error(*self, input@) == Some(e),
            },
            result is Err ==> *final(rng) == *old(rng),
    {
        match self.bend(input, rng) {
            Ok(bent) => Ok(bent.flatten()),
            Err(e) => Err(e),
        }
    }
}

/// Whatever the effect and whatever was drawn, the image keeps its shape
/// while the effect runs on it.
pub proof fn lemma_outcome_shape(effect: Effect, input: Raster, bent: Raster)
    requires
        bend_outcome(effect, input, bent),
    ensures
        bent.same_shape(input),
{
    match effect {
        Effect::PatchShuffle { patch_size } => {
            let order = choose|order: Seq<usize>|
                is_permutation(order, tile_count(input, patch_size as int)) && rearranged(
                    input,
                    patch_size as int,
                    order,
                    bent,
                );
        },
        Effect::LayeredComposite { layers } => {
            if input.bytes.len() != 0 {
                let drawn = choose|drawn: Seq<Layer>|
                    {
                        &&& drawn.len() == layers as int
                        &&& forall|k: int|
                            0 <= k < layers as int ==> (#[trigger] drawn[k]).drawn_for(input)
                        &&& bent == composite(input, drawn)
                    };
                lemma_composite_shape(input, drawn);
            }
        },
        _ => {},
    }
}

/// Whatever the effect and whatever was drawn, the image that is saved has
/// the width and the height of the input and three bytes to the pixel.
pub proof fn lemma_effect_keeps_dimensions(effect: Effect, input: Raster, out: Raster)
    requires
        input.wf(),
        input.channels == 4,
        effect_outcome(effect, input, out),
    ensures
        out.width == input.width,
        out.height == input.height,
        out.channels == 3,
        out.bytes.len() == input.width * input.height * 3,
{
    let bent = choose|bent: Raster| bend_outcome(effect, input, bent) && out == flattened(bent);
    lemma_outcome_shape(effect, input, bent);
    assert(bent.bytes.len() == (input.width * input.height) * 4);
}

/// A noise injection without sensitivity saves the image as it came.
pub proof fn lemma_zero_noise_keeps_image(input: Raster, out: Raster)
    requires
        effect_outcome(Effect::NoiseInjection { iso: 0 }, input, out),
    ensures
        out == flattened(input),
{
    let effect = Effect::NoiseInjection { iso: 0 };
    let bent = choose|bent: Raster| bend_outcome(effect, input, bent) && out == flattened(bent);
    assert(bent =~= input);
}

/// An exposure boost with factor zero saves the image as it came.
pub proof fn lemma_zero_exposure_keeps_image(input: Raster, out: Raster)
    requires
        input.wf(),
        input.channels == 4,
        effect_outcome(Effect::ExposureBoost { factor_milli: 0 }, input, out),
    ensures
        out == flattened(input),
{
    let effect = Effect::ExposureBoost { factor_milli: 0 };
    let bent = choose|bent: Raster| bend_outcome(effect, input, bent) && out == flattened(bent);
    lemma_exposure_zero_keeps_image(input, bent);
}

} // verus!
