//! Keyframe tracks: their validation, and the names of their interpolation modes in glTF.
use vstd::prelude::*;

verus! {

/// How an animation track interpolates between keyframes.
#[derive(Copy, Clone, PartialEq, Eq, Structural, Debug)]
pub enum Interpolation {
    Linear,
    Step,
    CubicSpline,
}

/// Why a keyframe track was refused.
#[derive(Copy, Clone, PartialEq, Eq, Structural, Debug)]
pub enum ChannelError {
    /// Some keyframe time is infinite or NaN.
    NonFiniteTime,
    /// With cubic-spline interpolation, there must be three outputs per keyframe.
    CubicSplineLength,
    /// There must be one output per keyframe.
    Length,
}

/// A keyframe track: times (bit patterns of `f64` seconds), one output per time (three with
/// cubic-spline interpolation: in-tangent, value, out-tangent), and the interpolation (linear
/// when absent).
pub struct Channel<T> {
    pub input: Vec<u64>,
    pub output: Vec<T>,
    pub interpolation: Option<Interpolation>,
}

/// The bit pattern of a finite `f64` value: its exponent field is not all ones.
pub open spec fn finite_f64_bits(bits: u64) -> bool {
    (bits / 0x10_0000_0000_0000) % 0x800 != 0x7ff
}

/// What `Channel::new` answers for these inputs, when it fails.
pub open spec fn channel_error(input: Seq<u64>, n_output: int, interpolation: Option<Interpolation>) -> Option<ChannelError> {
    if exists|i: int| 0 <= i < input.len() && !finite_f64_bits(#[trigger] input[i]) {
        Some(ChannelError::NonFiniteTime)
    } else if interpolation == Some(Interpolation::CubicSpline) {
        if 3 * input.len() != n_output {
            Some(ChannelError::CubicSplineLength)
        } else {
            None
        }
    } else if input.len() != n_output {
        Some(ChannelError::Length)
    } else {
        None
    }
}

/// A track whose keyframe times are all finite (no exponent field of all ones) is accepted
/// exactly when it has one output per keyframe, or three per keyframe with cubic-spline
/// interpolation; linear, step and absent interpolation are judged alike; and a track with a
/// time that is not finite is refused for that, whatever its outputs.
pub proof fn lemma_channel_accepts(input: Seq<u64>, n_output: int, interpolation: Option<Interpolation>)
    ensures
        (forall|i: int| 0 <= i < input.len() ==> (#[trigger] input[i] / 0x10_0000_0000_0000) % 0x800 != 0x7ff)
            ==> (channel_error(input, n_output, interpolation) is None <==> if interpolation == Some(
            Interpolation::CubicSpline,
        ) {
            n_output == 3 * input.len()
        } else {
            n_output == input.len()
        }),
        (exists|i: int| 0 <= i < input.len() && (#[trigger] input[i] / 0x10_0000_0000_0000) % 0x800 == 0x7ff)
            ==> channel_error(input, n_output, interpolation) == Some(ChannelError::NonFiniteTime),
        channel_error(input, n_output, Some(Interpolation::Step)) == channel_error(input, n_output, None),
        channel_error(input, n_output, Some(Interpolation::Linear)) == channel_error(input, n_output, None),
{
}

impl<T> Channel<T> {
    /// A track of keyframe times `input` and values `output`: every time must be finite, and
    /// there must be one output per time (three with cubic-spline interpolation).
    pub fn new(input: Vec<u64>, output: Vec<T>, interpolation: Option<Interpolation>) -> (r: Result<Channel<T>, ChannelError>)
        ensures
            match channel_error(input@, output@.len() as int, interpolation) {
                Some(e) => r matches Err(e2) && e2 == e,
                None => r matches Ok(c) && c.input@ == input@ && c.output@ == output@ && c.interpolation
                    == interpolation,
            },
    {
        let mut k: usize = 0;
        while k < input.len()
            invariant
                k <= input@.len(),
                forall|i: int| 0 <= i < k ==> finite_f64_bits(#[trigger] input@[i]),
            decreases input@.len() - k,
        {
            let b = input[k];
            let finite = (b >> 52u64) & 0x7ff != 0x7ff;
            assert(((b >> 52u64) & 0x7ff) == (b / 0x10_0000_0000_0000) % 0x800) by (bit_vector);
            if !finite {
                return Err(ChannelError::NonFiniteTime);
            }
            k = k + 1;
        }
        match interpolation {
            Some(Interpolation::CubicSpline) => {
                if !(output.len() % 3 == 0 && output.len() / 3 == input.len()) {
                    return Err(ChannelError::CubicSplineLength);
                }
            },
            _ => {
                if input.len() != output.len() {
                    return Err(ChannelError::Length);
                }
            },
        }
        Ok(Channel { input, output, interpolation })
    }
}

/// The glTF name of interpolation `i`; absent for linear, the glTF default.
pub open spec fn interpolation_name_spec(i: Option<Interpolation>) -> Option<Seq<char>> {
    match i {
        Some(Interpolation::Step) => Some("STEP"@),
        Some(Interpolation::CubicSpline) => Some("CUBICSPLINE"@),
        _ => None,
    }
}

/// The interpolation a glTF sampler names: `LINEAR` when absent, and for any name it does not
/// know.
pub open spec fn parse_interpolation_spec(s: Option<Seq<char>>) -> Interpolation {
    match s {
        Some(n) => if n == "STEP"@ {
            Interpolation::Step
        } else if n == "CUBICSPLINE"@ {
            Interpolation::CubicSpline
        } else {
            Interpolation::Linear
        },
        None => Interpolation::Linear,
    }
}

/// The name a glTF animation sampler gives interpolation `i`; none for linear, the default.
pub fn interpolation_name(i: Option<Interpolation>) -> (r: Option<String>)
    ensures
        match r {
            Some(s) => interpolation_name_spec(i) == Some(s@),
            None => interpolation_name_spec(i) is None,
        },
{
    match i {
        Some(Interpolation::Step) => Some(String::from_str("STEP")),
        Some(Interpolation::CubicSpline) => Some(String::from_str("CUBICSPLINE")),
        _ => None,
    }
}

/// The interpolation a glTF animation sampler names (`LINEAR`, `STEP` or `CUBICSPLINE`); linear
/// when the name is absent or unknown.
pub fn parse_interpolation(s: Option<&str>) -> (r: Interpolation)
    ensures
        r == parse_interpolation_spec(
            match s {
                Some(n) => Some(n@),
                None => None,
            },
        ),
{
    match s {
        None => Interpolation::Linear,
        Some(n) => {
            let name = String::from_str(n);
            if name == String::from_str("STEP") {
                Interpolation::Step
            } else if name == String::from_str("CUBICSPLINE") {
                Interpolation::CubicSpline
            } else {
                Interpolation::Linear
            }
        },
    }
}

/// Reading back the name written for an interpolation gives that interpolation (linear when no
/// name was written).
pub proof fn lemma_interpolation_name_round_trip(i: Option<Interpolation>)
    ensures
        parse_interpolation_spec(interpolation_name_spec(i)) == match i {
            Some(j) => j,
            None => Interpolation::Linear,
        },
{
    reveal_strlit("STEP");
    reveal_strlit("CUBICSPLINE");
    assert("STEP"@ != "CUBICSPLINE"@) by {
        assert("STEP"@.len() != "CUBICSPLINE"@.len());
    }
}

} // verus!
