//! The noise-type selector and the playback configuration.
//!
//! The selector is parsed from a string once, at configuration time, into a
//! closed variant; per-sample code never re-parses it.

use vstd::prelude::*;

use crate::ratio::Ratio;
use crate::NoiseError;

verus! {

/// Which generator the engine runs: the enveloped triple-voice mix, or the
/// additive harmonic hum.
#[derive(Clone, Copy, Debug, PartialEq, Eq, Structural)]
pub enum NoiseType {
    /// The enveloped three-voice banded noise mix.
    Default,
    /// The additive-synthesis harmonic hum; it ignores the envelope and plays
    /// indefinitely.
    Pink,
}

/// Parses a noise-type selector string.  `"default"` and `"pink"` name the
/// two generators; any other string is rejected.
pub fn convert_string_to_noise_type(noise_type: String) -> (r: Result<NoiseType, NoiseError>)
    ensures
        noise_type@ == "default"@ <==> r == Ok::<NoiseType, NoiseError>(NoiseType::Default),
        noise_type@ == "pink"@ <==> r == Ok::<NoiseType, NoiseError>(NoiseType::Pink),
        r is Err ==> r->Err_0 == NoiseError::UnknownNoiseType,
{
    proof {
        reveal_strlit("default");
        reveal_strlit("pink");
    }
    let default_name = "default".to_owned();
    let pink_name = "pink".to_owned();
    proof {
        assert("default"@.len() == 7);
        assert("pink"@.len() == 4);
    }
    if noise_type == default_name {
        Ok(NoiseType::Default)
    } else if noise_type == pink_name {
        Ok(NoiseType::Pink)
    } else {
        Err(NoiseError::UnknownNoiseType)
    }
}

/// The playback configuration: a noise type and the three envelope stage
/// lengths, in seconds.
#[derive(Clone, Copy, Debug)]
pub struct NoiseConfig {
    pub noise_type: NoiseType,
    pub fade_in: Ratio,
    pub hold: Ratio,
    pub fade_out: Ratio,
}

impl NoiseConfig {
    /// All stage lengths are valid, non-negative durations.
    pub open spec fn wf(&self) -> bool {
        &&& self.fade_in.wf() && self.fade_in.num >= 0
        &&& self.hold.wf() && self.hold.num >= 0
        &&& self.fade_out.wf() && self.fade_out.num >= 0
    }

    /// Builds a configuration from a selector string and the three envelope
    /// stage lengths.  Fails exactly when the selector string names no known
    /// noise type.
    pub fn new(noise_type: String, fade_in: Ratio, hold: Ratio, fade_out: Ratio) -> (r: Result<
        NoiseConfig,
        NoiseError,
    >)
        requires
            fade_in.wf(),
            fade_in.num >= 0,
            hold.wf(),
            hold.num >= 0,
            fade_out.wf(),
            fade_out.num >= 0,
        ensures
            r is Ok ==> {
                let c = r->Ok_0;
                &&& c.wf()
                &&& c.fade_in == fade_in
                &&& c.hold == hold
                &&& c.fade_out == fade_out
                &&& (noise_type@ == "default"@ ==> c.noise_type == NoiseType::Default)
                &&& (noise_type@ == "pink"@ ==> c.noise_type == NoiseType::Pink)
            },
            r is Err <==> !(noise_type@ == "default"@ || noise_type@ == "pink"@),
            r is Err ==> r->Err_0 == NoiseError::UnknownNoiseType,
    {
        let parsed = match convert_string_to_noise_type(noise_type) {
            Ok(t) => t,
            Err(e) => {
                return Err(e);
            },
        };
        Ok(NoiseConfig { noise_type: parsed, fade_in, hold, fade_out })
    }
}

} // verus!
