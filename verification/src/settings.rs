//! The camera settings as the app reads them from its runtime properties:
//! every value is stored as text, and a missing one takes its default.
use vstd::prelude::*;
use crate::commands::opt_view;
use crate::decimal::{parse_i64, parse_i64_chars};
use crate::text::to_chars;

verus! {

/// The default motion sensitivity.
pub const DEFAULT_MOTION_SENSITIVITY: i64 = 8;

/// The default motion noise cancelling.
pub const DEFAULT_MOTION_NOISE_CANCEL: i64 = 4;

/// The default frame rate.
pub const DEFAULT_FRAMERATE: i64 = 30;

/// The default rotation, in degrees.
pub const DEFAULT_ROTATION: i64 = 0;

/// The settings as stored: the text of each, where it is set.
pub struct StoredSettings {
    pub dvr: Option<String>,
    pub motion: Option<String>,
    pub motion_sensitivity: Option<String>,
    pub motion_noise_cancel: Option<String>,
    pub framerate: Option<String>,
    pub rotation: Option<String>,
    pub storage: Option<String>,
}

/// The settings the camera runs with.
pub struct RuntimeSettings {
    pub dvr: bool,
    pub motion: bool,
    pub motion_sensitivity: i64,
    pub motion_noise_cancel: i64,
    pub framerate: i64,
    pub rotation: i64,
    pub storage: String,
}

/// A switch is on exactly when its text is `true`.
pub open spec fn flag_value(v: Option<Seq<char>>) -> bool {
    v == Some("true"@)
}

/// An integer setting: its default where it is missing, else its text read
/// by `str::parse::<i64>` (`None` where that fails).
pub open spec fn int_value(v: Option<Seq<char>>, default: i64) -> Option<i64> {
    match v {
        None => Some(default),
        Some(s) => parse_i64(s),
    }
}

/// The storage directory: as set, or `runtime/camera/storage`.
pub open spec fn storage_value(v: Option<Seq<char>>) -> Seq<char> {
    match v {
        Some(s) => s,
        None => "runtime/camera/storage"@,
    }
}

/// Whether every integer setting that is set reads as an integer.
pub open spec fn ints_ok(s: StoredSettings) -> bool {
    &&& int_value(opt_view(s.motion_sensitivity), DEFAULT_MOTION_SENSITIVITY) is Some
    &&& int_value(opt_view(s.motion_noise_cancel), DEFAULT_MOTION_NOISE_CANCEL) is Some
    &&& int_value(opt_view(s.framerate), DEFAULT_FRAMERATE) is Some
    &&& int_value(opt_view(s.rotation), DEFAULT_ROTATION) is Some
}

/// Whether a switch's text is `true`.
pub fn flag_setting(v: &Option<String>) -> (b: bool)
    ensures
        b == flag_value(opt_view(*v)),
{
    match v {
        Some(s) => {
            let c = to_chars(s.as_str());
            let t = to_chars("true");
            proof {
                reveal_strlit("true");
            }
            if c.len() != 4 {
                proof {
                    assert(s@ != "true"@);
                }
                return false;
            }
            let mut i: usize = 0;
            while i < 4
                invariant
                    c@ == s@,
                    opt_view(*v) == Some(s@),
                    t@ == "true"@,
                    c@.len() == 4,
                    t@.len() == 4,
                    i <= 4,
                    forall|j: int| 0 <= j < i ==> c@[j] == t@[j],
                decreases 4 - i,
            {
                if c[i] != t[i] {
                    proof {
                        assert(s@[i as int] != "true"@[i as int]);
                    }
                    return false;
                }
                i = i + 1;
            }
            proof {
                assert(s@ =~= "true"@);
            }
            true
        },
        None => false,
    }
}

/// An integer setting, or its default where it is missing; `None` where its
/// text is not an integer.
pub fn int_setting(v: &Option<String>, default: i64) -> (r: Option<i64>)
    ensures
        r == int_value(opt_view(*v), default),
{
    match v {
        Some(s) => parse_i64_chars(to_chars(s.as_str()).as_slice()),
        None => Some(default),
    }
}

/// The settings the camera runs with, from those stored: a switch is on when
/// its text is `true`, an integer setting is read from its text or takes its
/// default (8, 4, 30 and 0), and the storage directory defaults to
/// `runtime/camera/storage`. `None` where an integer setting that is set is
/// not an integer.
pub fn runtime_settings(s: StoredSettings) -> (r: Option<RuntimeSettings>)
    ensures
        r is Some <==> ints_ok(s),
        r matches Some(x) ==> {
            &&& x.dvr == flag_value(opt_view(s.dvr))
            &&& x.motion == flag_value(opt_view(s.motion))
            &&& Some(x.motion_sensitivity) == int_value(
                opt_view(s.motion_sensitivity),
                DEFAULT_MOTION_SENSITIVITY,
            )
            &&& Some(x.motion_noise_cancel) == int_value(
                opt_view(s.motion_noise_cancel),
                DEFAULT_MOTION_NOISE_CANCEL,
            )
            &&& Some(x.framerate) == int_value(opt_view(s.framerate), DEFAULT_FRAMERATE)
            &&& Some(x.rotation) == int_value(opt_view(s.rotation), DEFAULT_ROTATION)
            &&& x.storage@ == storage_value(opt_view(s.storage))
        },
{
    let dvr = flag_setting(&s.dvr);
    let motion = flag_setting(&s.motion);
    let ms = int_setting(&s.motion_sensitivity, DEFAULT_MOTION_SENSITIVITY);
    let mn = int_setting(&s.motion_noise_cancel, DEFAULT_MOTION_NOISE_CANCEL);
    let fr = int_setting(&s.framerate, DEFAULT_FRAMERATE);
    let ro = int_setting(&s.rotation, DEFAULT_ROTATION);
    let storage = match s.storage {
        Some(st) => st,
        None => String::from_str("runtime/camera/storage"),
    };
    match (ms, mn, fr, ro) {
        (Some(a), Some(b), Some(c), Some(d)) => Some(
            RuntimeSettings {
                dvr,
                motion,
                motion_sensitivity: a,
                motion_noise_cancel: b,
                framerate: c,
                rotation: d,
                storage,
            },
        ),
        _ => None,
    }
}

} // verus!
