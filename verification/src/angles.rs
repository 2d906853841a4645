//! Camera angles for renders: their validation, and the comma-separated form they take on the
//! command line.
use vstd::prelude::*;

use crate::anim::finite_f64_bits;

verus! {

/// The error `str::parse` gives for a malformed `f64`.
#[verifier::external_type_specification]
#[verifier::external_body]
pub struct ExParseFloatError(std::num::ParseFloatError);

/// A camera position orbiting the framed subject: yaw and pitch in degrees and an optional zoom
/// factor, as the bit patterns of `f64` values.
#[derive(Copy, Clone, PartialEq, Eq, Structural, Debug)]
pub struct CameraAngle {
    pub yaw: u64,
    pub pitch: u64,
    pub zoom: Option<u64>,
}

/// Which part of a camera angle is not finite.
#[derive(Copy, Clone, PartialEq, Eq, Structural, Debug)]
pub enum CameraAngleError {
    Yaw,
    Pitch,
    Zoom,
}

/// Why a command-line camera angle was refused.
#[derive(Debug)]
pub enum ParseAngleError {
    /// Fewer than two comma-separated fields.
    InvalidFormat,
    /// A field is not a number.
    ParseFloatError(std::num::ParseFloatError),
}

fn is_finite_bits(bits: u64) -> (r: bool)
    ensures
        r == finite_f64_bits(bits),
{
    assert(((bits >> 52u64) & 0x7ff) == (bits / 0x10_0000_0000_0000) % 0x800) by (bit_vector);
    (bits >> 52u64) & 0x7ff != 0x7ff
}

/// The first part of `yaw`, `pitch`, `zoom` that is not finite, checked in that order.
pub open spec fn camera_angle_error(yaw: u64, pitch: u64, zoom: Option<u64>) -> Option<CameraAngleError> {
    if !finite_f64_bits(yaw) {
        Some(CameraAngleError::Yaw)
    } else if !finite_f64_bits(pitch) {
        Some(CameraAngleError::Pitch)
    } else if zoom matches Some(z) && !finite_f64_bits(z) {
        Some(CameraAngleError::Zoom)
    } else {
        None
    }
}

/// A camera angle is accepted exactly when its yaw, its pitch and its zoom (when given) are
/// finite, that is when the exponent field (bits 52 to 62) of each is not all ones; and the sign
/// of any of them plays no part in the answer.
pub proof fn lemma_camera_angle_accepts_finite(yaw: u64, pitch: u64, zoom: Option<u64>)
    ensures
        camera_angle_error(yaw, pitch, zoom) is None <==> ((yaw / 0x10_0000_0000_0000) % 0x800 != 0x7ff
            && (pitch / 0x10_0000_0000_0000) % 0x800 != 0x7ff && (zoom matches Some(z) ==> (z
            / 0x10_0000_0000_0000) % 0x800 != 0x7ff)),
        camera_angle_error(sign_flipped(yaw), pitch, zoom) == camera_angle_error(yaw, pitch, zoom),
        camera_angle_error(yaw, sign_flipped(pitch), zoom) == camera_angle_error(yaw, pitch, zoom),
        zoom matches Some(z) ==> camera_angle_error(yaw, pitch, Some(sign_flipped(z)))
            == camera_angle_error(yaw, pitch, zoom),
{
    lemma_sign_keeps_exponent(yaw);
    lemma_sign_keeps_exponent(pitch);
    if let Some(z) = zoom {
        lemma_sign_keeps_exponent(z);
    }
}

/// `bits` with its sign bit (bit 63) flipped: the bit pattern of the negated value.
pub open spec fn sign_flipped(bits: u64) -> u64 {
    if bits >= 0x8000_0000_0000_0000 {
        (bits - 0x8000_0000_0000_0000) as u64
    } else {
        (bits + 0x8000_0000_0000_0000) as u64
    }
}

proof fn lemma_sign_keeps_exponent(bits: u64)
    ensures
        (sign_flipped(bits) / 0x10_0000_0000_0000) % 0x800 == (bits / 0x10_0000_0000_0000) % 0x800,
{
    let f = sign_flipped(bits);
    if bits >= 0x8000_0000_0000_0000 {
        assert(f + 0x8000_0000_0000_0000 == bits);
        assert((f / 0x10_0000_0000_0000) % 0x800 == ((f + 0x8000_0000_0000_0000) / 0x10_0000_0000_0000) % 0x800)
            by (nonlinear_arith)
            requires
                f < 0x8000_0000_0000_0000,
        ;
    } else {
        assert(f == bits + 0x8000_0000_0000_0000);
        assert((bits / 0x10_0000_0000_0000) % 0x800 == ((bits + 0x8000_0000_0000_0000) / 0x10_0000_0000_0000)
            % 0x800) by (nonlinear_arith)
            requires
                bits < 0x8000_0000_0000_0000,
        ;
    }
}

impl CameraAngle {
    /// A camera angle; yaw, pitch and zoom (when given) must be finite.
    pub fn new(yaw: u64, pitch: u64, zoom: Option<u64>) -> (r: Result<CameraAngle, CameraAngleError>)
        ensures
            match camera_angle_error(yaw, pitch, zoom) {
                Some(e) => r == Err::<CameraAngle, _>(e),
                None => r == Ok::<_, CameraAngleError>(CameraAngle { yaw, pitch, zoom }),
            },
    {
        if !is_finite_bits(yaw) {
            return Err(CameraAngleError::Yaw);
        }
        if !is_finite_bits(pitch) {
            return Err(CameraAngleError::Pitch);
        }
        if let Some(z) = zoom {
            if !is_finite_bits(z) {
                return Err(CameraAngleError::Zoom);
            }
        }
        Ok(CameraAngle { yaw, pitch, zoom })
    }
}

/// The pieces of `s` between commas, in order (one piece when `s` has no comma).
pub open spec fn comma_fields(s: Seq<char>) -> Seq<Seq<char>>
    decreases s.len(),
{
    if s.len() == 0 {
        seq![Seq::empty()]
    } else {
        let prev = comma_fields(s.drop_last());
        if s.last() == ',' {
            prev.push(Seq::empty())
        } else {
            prev.update(prev.len() - 1, prev.last().push(s.last()))
        }
    }
}

proof fn lemma_comma_fields_nonempty(s: Seq<char>)
    ensures
        comma_fields(s).len() >= 1,
    decreases s.len(),
{
    if s.len() > 0 {
        lemma_comma_fields_nonempty(s.drop_last());
    }
}

/// The pieces of `s` between commas: `comma_fields` written by where each piece starts.
proof fn lemma_comma_fields_step(s: Seq<char>, k: int, start: int)
    requires
        0 <= start <= k < s.len(),
        forall|j: int| start <= j < k ==> s[j] != ',',
        start == 0 || s[start - 1] == ',',
    ensures
        s[k] != ',' ==> comma_fields(s.take(k + 1)) == comma_fields(s.take(k as int)).update(
            comma_fields(s.take(k as int)).len() - 1,
            s.subrange(start, k + 1),
        ),
        s[k] == ',' ==> comma_fields(s.take(k + 1)) == comma_fields(s.take(k as int)).push(Seq::empty()),
{
    assert(s.take(k + 1).drop_last() =~= s.take(k as int));
    lemma_comma_fields_nonempty(s.take(k as int));
    if s[k] != ',' {
        lemma_last_field(s, k, start);
        assert(s.subrange(start, k).push(s[k]) =~= s.subrange(start, k + 1));
    }
}

/// The last piece of `s.take(k)` is what follows the last comma before `k`.
proof fn lemma_last_field(s: Seq<char>, k: int, start: int)
    requires
        0 <= start <= k <= s.len(),
        forall|j: int| start <= j < k ==> s[j] != ',',
        start == 0 || s[start - 1] == ',',
    ensures
        comma_fields(s.take(k)).last() == s.subrange(start, k),
    decreases k - start,
{
    lemma_comma_fields_nonempty(s.take(k));
    if k == start {
        if start == 0 {
            assert(s.take(0) =~= Seq::<char>::empty());
        } else {
            assert(s.take(k).drop_last() =~= s.take(k - 1));
            assert(s.take(k).last() == ',');
        }
        assert(s.subrange(start, k) =~= Seq::<char>::empty());
    } else {
        lemma_last_field(s, k - 1, start);
        assert(s.take(k).drop_last() =~= s.take(k - 1));
        lemma_comma_fields_nonempty(s.take(k - 1));
        assert(s.subrange(start, k - 1).push(s[k - 1]) =~= s.subrange(start, k));
    }
}

/// Splits `s` at every comma.
pub fn split_fields(s: &str) -> (fields: Vec<String>)
    ensures
        fields@.map_values(|f: String| f@) == comma_fields(s@),
{
    let n = s.unicode_len();
    let mut fields: Vec<String> = Vec::new();
    let mut start: usize = 0;
    let mut k: usize = 0;
    proof {
        assert(s@.take(0) =~= Seq::<char>::empty());
        assert(s@.subrange(0, 0) =~= Seq::<char>::empty());
    }
    while k < n
        invariant
            n == s@.len(),
            start <= k <= n,
            forall|j: int| start <= j < k ==> s@[j] != ',',
            start == 0 || s@[start - 1] == ',',
            fields@.map_values(|f: String| f@).push(s@.subrange(start as int, k as int)) == comma_fields(
                s@.take(k as int),
            ),
        decreases n - k,
    {
        let c = s.get_char(k);
        proof {
            lemma_comma_fields_step(s@, k as int, start as int);
        }
        let ghost before = fields@.map_values(|f: String| f@);
        if c == ',' {
            let piece = String::from_str(s.substring_char(start, k));
            fields.push(piece);
            assert(fields@.map_values(|f: String| f@) =~= before.push(s@.subrange(start as int, k as int)));
            start = k + 1;
            assert(s@.subrange(start as int, k + 1) =~= Seq::<char>::empty());
        } else {
            assert(before.push(s@.subrange(start as int, k + 1)) =~= before.push(
                s@.subrange(start as int, k as int),
            ).update(before.len() as int, s@.subrange(start as int, k + 1)));
        }
        k = k + 1;
    }
    proof {
        assert(s@.take(n as int) =~= s@);
    }
    let ghost before = fields@.map_values(|f: String| f@);
    let last = String::from_str(s.substring_char(start, n));
    fields.push(last);
    assert(fields@.map_values(|f: String| f@) =~= before.push(s@.subrange(start as int, n as int)));
    fields
}

} // verus!
