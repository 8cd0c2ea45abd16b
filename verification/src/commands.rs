//! The command lines the camera runs: the capture process that streams the
//! camera, the segmenting encoder, the live-view encoder, still snapshots and
//! recording to segment files.
use vstd::prelude::*;
use crate::decimal::{decimal, format_i64, lemma_parse_i64_decimal, parse_i64, parse_i64_chars};
use crate::paths::{join, join_chars};
use crate::text::{from_chars, piece, split, split_chars, to_chars, lemma_split_nonempty};

verus! {

// ---------------------------------------------------------------------------
// Argument lists
// ---------------------------------------------------------------------------

/// The texts of a list of strings.
pub open spec fn views(v: Seq<String>) -> Seq<Seq<char>> {
    v.map_values(|s: String| s@)
}

/// `seq![flag, value]` when `value` is present, else nothing.
pub open spec fn optional(flag: Seq<char>, value: Option<Seq<char>>) -> Seq<Seq<char>> {
    match value {
        Some(v) => seq![flag, v],
        None => Seq::empty(),
    }
}

/// The text of an optional string.
pub open spec fn opt_view(o: Option<String>) -> Option<Seq<char>> {
    match o {
        Some(s) => Some(s@),
        None => None,
    }
}

/// The value of an optional string, or `default`.
pub open spec fn or_default(o: Option<String>, default: Seq<char>) -> Seq<char> {
    match o {
        Some(s) => s@,
        None => default,
    }
}

fn push_str(v: &mut Vec<String>, s: &str)
    ensures
        views(final(v)@) == views(old(v)@).push(s@),
{
    v.push(String::from_str(s));
    proof {
        assert(views(final(v)@) =~= views(old(v)@).push(s@));
    }
}

fn push_string(v: &mut Vec<String>, s: String)
    ensures
        views(final(v)@) == views(old(v)@).push(s@),
{
    let ghost t = s@;
    v.push(s);
    proof {
        assert(views(final(v)@) =~= views(old(v)@).push(t));
    }
}

fn push_optional(v: &mut Vec<String>, flag: &str, value: &Option<String>)
    ensures
        views(final(v)@) == views(old(v)@) + optional(flag@, opt_view(*value)),
{
    match value {
        Some(x) => {
            push_str(v, flag);
            push_string(v, x.clone());
            proof {
                assert(views(final(v)@) =~= views(old(v)@) + optional(flag@, opt_view(*value)));
            }
        },
        None => {
            proof {
                assert(views(old(v)@) + optional(flag@, opt_view(*value)) =~= views(old(v)@));
            }
        },
    }
}

// ---------------------------------------------------------------------------
// Camera geometry and formats
// ---------------------------------------------------------------------------

/// Whether a rotation turns the picture on its side.
pub open spec fn is_portrait(rot: i64) -> bool {
    rot == 90 || rot == 270
}

/// The frame size the sensor is asked for: width and height swap for a
/// picture turned on its side.
pub open spec fn spec_rotated_size(width: i64, height: i64, rot: i64) -> (i64, i64) {
    if is_portrait(rot) {
        (height, width)
    } else {
        (width, height)
    }
}

/// The frame size to request for a rotation.
pub fn rotated_size(width: i64, height: i64, rot: i64) -> (r: (i64, i64))
    ensures
        r == spec_rotated_size(width, height, rot),
{
    if rot == 90 || rot == 270 {
        (height, width)
    } else {
        (width, height)
    }
}

/// The ffmpeg filter that turns the picture by `rot` degrees.
pub open spec fn spec_transpose(rot: i64) -> Seq<char> {
    if rot == 90 {
        "transpose=1"@
    } else if rot == 180 {
        "transpose=2,transpose=2"@
    } else if rot == 270 {
        "transpose=2"@
    } else {
        "transpose=none"@
    }
}

/// The ffmpeg filter that turns the picture by `rot` degrees.
pub fn transpose_filter(rot: i64) -> (r: &'static str)
    ensures
        r@ == spec_transpose(rot),
{
    if rot == 90 {
        "transpose=1"
    } else if rot == 180 {
        "transpose=2,transpose=2"
    } else if rot == 270 {
        "transpose=2"
    } else {
        "transpose=none"
    }
}

/// Rust's `/` on integers: the quotient rounded toward zero.
pub open spec fn trunc_div(a: int, b: int) -> int {
    if (a >= 0) == (b > 0) {
        if a >= 0 {
            a / b
        } else {
            (-a) / (-b)
        }
    } else if a >= 0 {
        -(a / (-b))
    } else {
        -((-a) / b)
    }
}

/// Whether the portrait scaling of a `width` by `height` frame can be
/// computed: `width * width / height` neither divides by zero nor overflows.
pub open spec fn scalable(width: i64, height: i64) -> bool {
    height != 0 && width * width <= i64::MAX
}

/// The filter for a picture turned on its side by a camera that cannot do so
/// itself: the turn, then a scale to the frame width and a crop to the frame.
pub open spec fn spec_portrait_filter(rot: i64, width: i64, height: i64) -> Seq<char> {
    spec_transpose(rot) + ",scale="@ + decimal(width as int) + ":"@ + decimal(
        trunc_div(width * width, height as int),
    ) + ",crop="@ + decimal(width as int) + ":"@ + decimal(height as int)
}

/// The filter for a picture turned on its side (see `spec_portrait_filter`).
pub fn portrait_filter(rot: i64, width: i64, height: i64) -> (r: String)
    requires
        scalable(width, height),
    ensures
        r@ == spec_portrait_filter(rot, width, height),
{
    proof {
        assert(width * width >= 0) by (nonlinear_arith);
    }
    let sq = width * width;
    let q: i64 = if height > 0 {
        sq / height
    } else if height == i64::MIN {
        0
    } else {
        let m = sq / (-height);
        proof {
            let d: int = -(height as int);
            assert(0 <= m <= sq) by (nonlinear_arith)
                requires
                    m as int == (sq as int) / d,
                    sq >= 0,
                    d > 0,
            ;
        }
        -m
    };
    proof {
        if height == i64::MIN {
            assert((sq as int) / (-(height as int)) == 0) by (nonlinear_arith)
                requires
                    0 <= sq < -(height as int),
            ;
        }
        assert(q == trunc_div(sq as int, height as int));
    }
    let mut r = String::from_str(transpose_filter(rot));
    r.append(",scale=");
    r.append(format_i64(width).as_str());
    r.append(":");
    r.append(format_i64(q).as_str());
    r.append(",crop=");
    r.append(format_i64(width).as_str());
    r.append(":");
    r.append(format_i64(height).as_str());
    r
}

/// The `WIDTHxHEIGHT` text of a frame size.
pub open spec fn spec_video_size(width: i64, height: i64) -> Seq<char> {
    decimal(width as int) + "x"@ + decimal(height as int)
}

fn video_size(width: i64, height: i64) -> (r: String)
    ensures
        r@ == spec_video_size(width, height),
{
    let mut r = format_i64(width);
    r.append("x");
    r.append(format_i64(height).as_str());
    r
}

/// The ffmpeg input codec named by a V4L2 pixel format, where one is known.
pub open spec fn spec_known_codec(format: Seq<char>) -> Option<Seq<char>> {
    if format == "H264"@ {
        Some("h264"@)
    } else if format == "MJPG"@ {
        Some("mjpeg"@)
    } else if format == "YUYV"@ {
        Some("yuyv422"@)
    } else {
        None
    }
}

/// The ffmpeg input codec named by a V4L2 pixel format, where one is known.
pub fn known_codec(format: &str) -> (r: Option<&'static str>)
    ensures
        match spec_known_codec(format@) {
            Some(c) => r matches Some(x) && x@ == c,
            None => r is None,
        },
{
    let f = String::from_str(format);
    let h264 = String::from_str("H264");
    let mjpg = String::from_str("MJPG");
    let yuyv = String::from_str("YUYV");
    if f == h264 {
        Some("h264")
    } else if f == mjpg {
        Some("mjpeg")
    } else if f == yuyv {
        Some("yuyv422")
    } else {
        None
    }
}

/// The codec the capture process reads and writes: the known one, else h264.
pub open spec fn spec_stream_codec(format: Seq<char>) -> Seq<char> {
    match spec_known_codec(format) {
        Some(c) => c,
        None => "h264"@,
    }
}

/// `-vcodec` and the codec, where the format names one.
pub open spec fn codec_args(format: Seq<char>) -> Seq<Seq<char>> {
    match spec_known_codec(format) {
        Some(c) => seq!["-vcodec"@, c],
        None => Seq::empty(),
    }
}

fn push_codec_args(v: &mut Vec<String>, format: &str)
    ensures
        views(final(v)@) == views(old(v)@) + codec_args(format@),
{
    match known_codec(format) {
        Some(c) => {
            push_str(v, "-vcodec");
            push_str(v, c);
            proof {
                assert(views(final(v)@) =~= views(old(v)@) + codec_args(format@));
            }
        },
        None => {
            proof {
                assert(views(old(v)@) + codec_args(format@) =~= views(old(v)@));
            }
        },
    }
}

/// The device name that selects the Raspberry Pi camera stack.
pub open spec fn is_libcamera(device: Seq<char>) -> bool {
    device == "libcamera-apps"@
}

fn libcamera_device(device: &str) -> (b: bool)
    ensures
        b == is_libcamera(device@),
{
    String::from_str(device) == String::from_str("libcamera-apps")
}

// ---------------------------------------------------------------------------
// Settings
// ---------------------------------------------------------------------------

/// What `"WIDTHxHEIGHT".split("x")` and `parse::<i64>()` give for a
/// resolution setting; `None` where reading it panics.
pub open spec fn spec_resolution(s: Seq<char>) -> Option<(i64, i64)> {
    match (piece(s, 'x', 0), piece(s, 'x', 1)) {
        (Some(a), Some(b)) => match (parse_i64(a), parse_i64(b)) {
            (Some(w), Some(h)) => Some((w, h)),
            _ => None,
        },
        _ => None,
    }
}

/// Reads a resolution setting such as `1920x1080`; `None` where the app's
/// reading of it panics.
pub fn parse_resolution(s: &str) -> (r: Option<(i64, i64)>)
    ensures
        r == spec_resolution(s@),
{
    resolution_chars(to_chars(s).as_slice())
}

/// Reads a `WIDTHxHEIGHT` size from characters (see `spec_resolution`).
pub fn resolution_chars(s: &[char]) -> (r: Option<(i64, i64)>)
    ensures
        r == spec_resolution(s@),
{
    let parts = split_chars(s, 'x');
    proof {
        lemma_split_nonempty(s@, 'x');
    }
    if parts.len() < 2 {
        return None;
    }
    let w = parse_i64_chars(parts[0].as_slice());
    let h = parse_i64_chars(parts[1].as_slice());
    match (w, h) {
        (Some(w), Some(h)) => Some((w, h)),
        _ => None,
    }
}

/// The camera settings that the capture process is started with.
pub struct CaptureSettings {
    /// `libcamera-apps`, or the V4L2 device path.
    pub device: String,
    /// The V4L2 pixel format, such as `H264`, `MJPG` or `YUYV`.
    pub format: String,
    pub width: i64,
    pub height: i64,
    /// Rotation in degrees.
    pub rotation: i64,
    pub framerate: i64,
    /// The `bitrate` setting, where there is one.
    pub bitrate: Option<String>,
    /// The `video_encoder` setting, where there is one.
    pub video_encoder: Option<String>,
}

/// The program that `open_camera` starts.
pub open spec fn spec_capture_program(s: CaptureSettings) -> Seq<char> {
    if is_libcamera(s.device@) {
        "libcamera-vid"@
    } else {
        "ffmpeg"@
    }
}

/// The arguments that `open_camera` starts the capture program with: the
/// camera's video stream written to standard output.
pub open spec fn spec_capture_args(s: CaptureSettings) -> Seq<Seq<char>> {
    if is_libcamera(s.device@) {
        let (w, h) = spec_rotated_size(s.width, s.height, s.rotation);
        optional("-b"@, opt_view(s.bitrate)) + seq![
            "--framerate"@,
            decimal(s.framerate as int),
            "--nopreview"@,
            "-t"@,
            "0"@,
            "--width"@,
            decimal(w as int),
            "--height"@,
            decimal(h as int),
            "-o"@,
            "-"@,
        ]
    } else {
        let codec = spec_stream_codec(s.format@);
        seq![
            "-f"@,
            "v4l2"@,
            "-vcodec"@,
            codec,
            "-framerate"@,
            decimal(s.framerate as int),
            "-video_size"@,
            spec_video_size(s.width, s.height),
            "-i"@,
            s.device@,
        ] + optional("-b:v"@, opt_view(s.bitrate)) + seq![
            "-c"@,
            or_default(s.video_encoder, "copy"@),
            "-f"@,
            codec,
            "-"@,
        ]
    }
}

/// The capture command of `open_camera`: the program and its arguments.
pub fn capture_command(s: &CaptureSettings) -> (r: (String, Vec<String>))
    ensures
        r.0@ == spec_capture_program(*s),
        views(r.1@) == spec_capture_args(*s),
{
    let mut o: Vec<String> = Vec::new();
    if libcamera_device(s.device.as_str()) {
        let (w, h) = rotated_size(s.width, s.height, s.rotation);
        push_optional(&mut o, "-b", &s.bitrate);
        push_str(&mut o, "--framerate");
        push_string(&mut o, format_i64(s.framerate));
        push_str(&mut o, "--nopreview");
        push_str(&mut o, "-t");
        push_str(&mut o, "0");
        push_str(&mut o, "--width");
        push_string(&mut o, format_i64(w));
        push_str(&mut o, "--height");
        push_string(&mut o, format_i64(h));
        push_str(&mut o, "-o");
        push_str(&mut o, "-");
        proof {
            assert(views(o@) =~= spec_capture_args(*s));
        }
        (String::from_str("libcamera-vid"), o)
    } else {
        let codec = match known_codec(s.format.as_str()) {
            Some(c) => c,
            None => "h264",
        };
        push_str(&mut o, "-f");
        push_str(&mut o, "v4l2");
        push_str(&mut o, "-vcodec");
        push_str(&mut o, codec);
        push_str(&mut o, "-framerate");
        push_string(&mut o, format_i64(s.framerate));
        push_str(&mut o, "-video_size");
        push_string(&mut o, video_size(s.width, s.height));
        push_str(&mut o, "-i");
        push_string(&mut o, s.device.clone());
        push_optional(&mut o, "-b:v", &s.bitrate);
        push_str(&mut o, "-c");
        let enc = match &s.video_encoder {
            Some(e) => e.clone(),
            None => String::from_str("copy"),
        };
        push_string(&mut o, enc);
        push_str(&mut o, "-f");
        push_str(&mut o, codec);
        push_str(&mut o, "-");
        proof {
            assert(views(o@) =~= spec_capture_args(*s));
        }
        (String::from_str("ffmpeg"), o)
    }
}


// ---------------------------------------------------------------------------
// Segmenting encoder and live view
// ---------------------------------------------------------------------------

/// Where the segmenting encoder writes numbered two-second segments:
/// `storage/capture/%d.mp4`.
pub open spec fn spec_capture_pattern(storage: Seq<char>) -> Seq<char> {
    join(join(storage, "capture"@), "%d.mp4"@)
}

/// The arguments of the ffmpeg process of `write_video`: the camera stream
/// from standard input, cut into two-second segments at forced keyframes.
pub open spec fn spec_segment_args(framerate: i64, pattern: Seq<char>) -> Seq<Seq<char>> {
    seq![
        "-framerate"@,
        decimal(framerate as int),
        "-i"@,
        "-"@,
        "-segment_time"@,
        "2"@,
        "-g"@,
        "2"@,
        "-sc_threshold"@,
        "0"@,
        "-force_key_frames"@,
        "expr:gte(t,n_forced*2)"@,
        "-c"@,
        "copy"@,
        "-f"@,
        "segment"@,
        pattern,
    ]
}

/// The segment file pattern under the storage directory.
pub fn capture_pattern(storage: &str) -> (r: String)
    ensures
        r@ == spec_capture_pattern(storage@),
{
    let p = join_chars(to_chars(storage).as_slice(), to_chars("capture").as_slice());
    let p = join_chars(p.as_slice(), to_chars("%d.mp4").as_slice());
    from_chars(p.as_slice())
}

/// The arguments of the segmenting ffmpeg process of `write_video`.
pub fn segment_args(framerate: i64, pattern: &str) -> (r: Vec<String>)
    ensures
        views(r@) == spec_segment_args(framerate, pattern@),
{
    let mut o: Vec<String> = Vec::new();
    push_str(&mut o, "-framerate");
    push_string(&mut o, format_i64(framerate));
    push_str(&mut o, "-i");
    push_str(&mut o, "-");
    push_str(&mut o, "-segment_time");
    push_str(&mut o, "2");
    push_str(&mut o, "-g");
    push_str(&mut o, "2");
    push_str(&mut o, "-sc_threshold");
    push_str(&mut o, "0");
    push_str(&mut o, "-force_key_frames");
    push_str(&mut o, "expr:gte(t,n_forced*2)");
    push_str(&mut o, "-c");
    push_str(&mut o, "copy");
    push_str(&mut o, "-f");
    push_str(&mut o, "segment");
    push_str(&mut o, pattern);
    proof {
        assert(views(o@) =~= spec_segment_args(framerate, pattern@));
    }
    o
}

/// The arguments of the ffmpeg process of `live`: the camera stream from
/// standard input as fragmented MP4 on standard output.
pub open spec fn spec_live_args(framerate: i64) -> Seq<Seq<char>> {
    seq![
        "-framerate"@,
        decimal(framerate as int),
        "-i"@,
        "-"@,
        "-movflags"@,
        "frag_keyframe+empty_moov"@,
        "-f"@,
        "mp4"@,
        "-"@,
    ]
}

/// The arguments of the live-view ffmpeg process.
pub fn live_args(framerate: i64) -> (r: Vec<String>)
    ensures
        views(r@) == spec_live_args(framerate),
{
    let mut o: Vec<String> = Vec::new();
    push_str(&mut o, "-framerate");
    push_string(&mut o, format_i64(framerate));
    push_str(&mut o, "-i");
    push_str(&mut o, "-");
    push_str(&mut o, "-movflags");
    push_str(&mut o, "frag_keyframe+empty_moov");
    push_str(&mut o, "-f");
    push_str(&mut o, "mp4");
    push_str(&mut o, "-");
    proof {
        assert(views(o@) =~= spec_live_args(framerate));
    }
    o
}

// ---------------------------------------------------------------------------
// Snapshots
// ---------------------------------------------------------------------------

/// Whether `snapshot` can build its commands for these inputs: the scaling
/// of a portrait picture from a V4L2 camera must be computable.
pub open spec fn snapshot_ok(device: Seq<char>, width: i64, height: i64, rot: i64) -> bool {
    !is_libcamera(device) && is_portrait(rot) ==> scalable(width, height)
}

/// The system calls of `snapshot`, in order, that write one JPEG still of the
/// camera to `temp` (`temp2` is the intermediate file of a libcamera still).
pub open spec fn spec_snapshot_commands(
    device: Seq<char>,
    format: Seq<char>,
    width: i64,
    height: i64,
    rot: i64,
    temp: Seq<char>,
    temp2: Seq<char>,
) -> Seq<Seq<Seq<char>>> {
    let filter = if rot != 0 { seq!["-filter:v"@, spec_transpose(rot)] } else { Seq::empty() };
    if is_libcamera(device) {
        let (w, h) = spec_rotated_size(width, height, rot);
        seq![
            seq![
                "libcamera-still"@,
                "-n"@,
                "--width"@,
                decimal(w as int),
                "--height"@,
                decimal(h as int),
                "-o"@,
                temp2,
            ],
            seq!["ffmpeg"@, "-i"@, temp2] + filter + seq![temp],
        ]
    } else {
        let t = if is_portrait(rot) {
            spec_portrait_filter(rot, width, height)
        } else {
            spec_transpose(rot)
        };
        let filter = if rot != 0 { seq!["-filter:v"@, t] } else { Seq::empty() };
        seq![
            seq!["ffmpeg"@, "-f"@, "v4l2"@] + codec_args(format) + seq![
                "-video_size"@,
                spec_video_size(width, height),
                "-i"@,
                device,
                "-update"@,
                "1"@,
                "-vframes:v"@,
                "1"@,
            ] + filter + seq![temp],
        ]
    }
}

/// The commands of one snapshot; `temp` receives the image, `temp2` is a
/// scratch file that the caller removes afterwards.
pub fn snapshot_commands(
    device: &str,
    format: &str,
    width: i64,
    height: i64,
    rot: i64,
    temp: &str,
    temp2: &str,
) -> (r: Vec<Vec<String>>)
    requires
        snapshot_ok(device@, width, height, rot),
    ensures
        r@.len() == spec_snapshot_commands(device@, format@, width, height, rot, temp@, temp2@).len(),
        forall|i: int|
            0 <= i < r@.len() ==> views(#[trigger] r@[i]@) == spec_snapshot_commands(
                device@,
                format@,
                width,
                height,
                rot,
                temp@,
                temp2@,
            )[i],
{
    let t = transpose_filter(rot);
    let ghost spec = spec_snapshot_commands(device@, format@, width, height, rot, temp@, temp2@);
    if libcamera_device(device) {
        let (w, h) = rotated_size(width, height, rot);
        let mut a: Vec<String> = Vec::new();
        push_str(&mut a, "libcamera-still");
        push_str(&mut a, "-n");
        push_str(&mut a, "--width");
        push_string(&mut a, format_i64(w));
        push_str(&mut a, "--height");
        push_string(&mut a, format_i64(h));
        push_str(&mut a, "-o");
        push_str(&mut a, temp2);
        let mut b: Vec<String> = Vec::new();
        push_str(&mut b, "ffmpeg");
        push_str(&mut b, "-i");
        push_str(&mut b, temp2);
        if rot != 0 {
            push_str(&mut b, "-filter:v");
            push_str(&mut b, t);
        }
        push_str(&mut b, temp);
        proof {
            assert(views(a@) =~= spec[0]);
            assert(views(b@) =~= spec[1]);
        }
        let mut r: Vec<Vec<String>> = Vec::new();
        r.push(a);
        r.push(b);
        r
    } else {
        let filter = if rot == 90 || rot == 270 {
            portrait_filter(rot, width, height)
        } else {
            String::from_str(t)
        };
        let mut a: Vec<String> = Vec::new();
        push_str(&mut a, "ffmpeg");
        push_str(&mut a, "-f");
        push_str(&mut a, "v4l2");
        push_codec_args(&mut a, format);
        push_str(&mut a, "-video_size");
        push_string(&mut a, video_size(width, height));
        push_str(&mut a, "-i");
        push_str(&mut a, device);
        push_str(&mut a, "-update");
        push_str(&mut a, "1");
        push_str(&mut a, "-vframes:v");
        push_str(&mut a, "1");
        if rot != 0 {
            push_str(&mut a, "-filter:v");
            push_string(&mut a, filter);
        }
        push_str(&mut a, temp);
        proof {
            assert(views(a@) =~= spec[0]);
        }
        let mut r: Vec<Vec<String>> = Vec::new();
        r.push(a);
        r
    }
}

// ---------------------------------------------------------------------------
// Recording to segment files
// ---------------------------------------------------------------------------

/// The recording settings that `record_video` reads besides its arguments.
pub struct RecordOptions {
    /// The segment file pattern written to.
    pub path: String,
    /// The V4L2 pixel format.
    pub format: String,
    /// Whether sound is recorded with the picture.
    pub audio: bool,
    /// The `audiodevice` setting, where there is one.
    pub audiodevice: Option<String>,
    /// The `itsoffset` setting, where there is one.
    pub itsoffset: Option<String>,
    /// The `video_encoder` setting, where there is one.
    pub video_encoder: Option<String>,
    /// The `bitrate` setting, where there is one.
    pub bitrate: Option<String>,
    /// The `audio_bitrate` setting, where there is one.
    pub audio_bitrate: Option<String>,
}

/// The arguments that select the sound input of a recording.
pub open spec fn spec_audio_input(opts: RecordOptions) -> Seq<Seq<char>> {
    if opts.audio {
        seq!["-f"@, "alsa"@, "-ac"@, "2"@, "-i"@, or_default(opts.audiodevice, "default"@)]
            + optional("-itsoffset"@, opt_view(opts.itsoffset))
    } else {
        Seq::empty()
    }
}

/// The arguments that select the picture input and its encoder.
pub open spec fn spec_video_input(device: Seq<char>, width: i64, height: i64, fps: i64, opts: RecordOptions) -> Seq<Seq<char>> {
    seq!["-f"@, "v4l2"@] + codec_args(opts.format@) + seq![
        "-framerate"@,
        decimal(fps as int),
        "-video_size"@,
        spec_video_size(width, height),
        "-i"@,
        device,
        "-c:v"@,
        or_default(opts.video_encoder, "h264"@),
    ]
}

/// The arguments that encode the sound and map both streams.
pub open spec fn spec_audio_map(opts: RecordOptions) -> Seq<Seq<char>> {
    if opts.audio {
        seq!["-c:a"@, "aac"@, "-map"@, "0:a:0"@, "-map"@, "1:v:0"@]
    } else {
        Seq::empty()
    }
}

/// The arguments that cut the output into two-second segments.
pub open spec fn spec_segmenting() -> Seq<Seq<char>> {
    seq![
        "-segment_time"@,
        "2"@,
        "-g"@,
        "2"@,
        "-sc_threshold"@,
        "0"@,
        "-force_key_frames"@,
        "expr:gte(t,n_forced*2)"@,
        "-f"@,
        "segment"@,
    ]
}

/// The command line of `record_video`: the recorder program and its arguments.
pub open spec fn spec_record_command(
    device: Seq<char>,
    width: i64,
    height: i64,
    rot: i64,
    bitrate: i64,
    fps: i64,
    opts: RecordOptions,
) -> Seq<Seq<char>> {
    if is_libcamera(device) {
        let (w, h) = spec_rotated_size(width, height, rot);
        seq!["libcamera-vid"@] + (if bitrate > 0 {
            seq!["-b"@, decimal(bitrate as int)]
        } else {
            Seq::empty()
        }) + seq![
            "--framerate"@,
            decimal(fps as int),
            "--segment"@,
            "1000"@,
            "--nopreview"@,
            "--inline"@,
            "-t"@,
            "0"@,
            "--width"@,
            decimal(w as int),
            "--height"@,
            decimal(h as int),
            "-o"@,
            opts.path@,
        ]
    } else {
        seq!["ffmpeg"@] + spec_audio_input(opts) + spec_video_input(device, width, height, fps, opts)
            + spec_audio_map(opts) + spec_segmenting() + optional("-b:v"@, opt_view(opts.bitrate))
            + optional("-b:a"@, opt_view(opts.audio_bitrate)) + seq![opts.path@]
    }
}

fn push_audio_input(o: &mut Vec<String>, opts: &RecordOptions)
    ensures
        views(final(o)@) == views(old(o)@) + spec_audio_input(*opts),
{
    if opts.audio {
        push_str(o, "-f");
        push_str(o, "alsa");
        push_str(o, "-ac");
        push_str(o, "2");
        push_str(o, "-i");
        let dev = match &opts.audiodevice {
            Some(d) => d.clone(),
            None => String::from_str("default"),
        };
        push_string(o, dev);
        push_optional(o, "-itsoffset", &opts.itsoffset);
        proof {
            assert(views(final(o)@) =~= views(old(o)@) + spec_audio_input(*opts));
        }
    } else {
        proof {
            assert(views(old(o)@) + spec_audio_input(*opts) =~= views(old(o)@));
        }
    }
}

fn push_video_input(o: &mut Vec<String>, device: &str, width: i64, height: i64, fps: i64, opts: &RecordOptions)
    ensures
        views(final(o)@) == views(old(o)@) + spec_video_input(device@, width, height, fps, *opts),
{
    push_str(o, "-f");
    push_str(o, "v4l2");
    push_codec_args(o, opts.format.as_str());
    push_str(o, "-framerate");
    push_string(o, format_i64(fps));
    push_str(o, "-video_size");
    push_string(o, video_size(width, height));
    push_str(o, "-i");
    push_str(o, device);
    push_str(o, "-c:v");
    let enc = match &opts.video_encoder {
        Some(e) => e.clone(),
        None => String::from_str("h264"),
    };
    push_string(o, enc);
    proof {
        assert(views(final(o)@) =~= views(old(o)@) + spec_video_input(device@, width, height, fps, *opts));
    }
}

fn push_audio_map(o: &mut Vec<String>, opts: &RecordOptions)
    ensures
        views(final(o)@) == views(old(o)@) + spec_audio_map(*opts),
{
    if opts.audio {
        push_str(o, "-c:a");
        push_str(o, "aac");
        push_str(o, "-map");
        push_str(o, "0:a:0");
        push_str(o, "-map");
        push_str(o, "1:v:0");
        proof {
            assert(views(final(o)@) =~= views(old(o)@) + spec_audio_map(*opts));
        }
    } else {
        proof {
            assert(views(old(o)@) + spec_audio_map(*opts) =~= views(old(o)@));
        }
    }
}

fn push_segmenting(o: &mut Vec<String>)
    ensures
        views(final(o)@) == views(old(o)@) + spec_segmenting(),
{
    push_str(o, "-segment_time");
    push_str(o, "2");
    push_str(o, "-g");
    push_str(o, "2");
    push_str(o, "-sc_threshold");
    push_str(o, "0");
    push_str(o, "-force_key_frames");
    push_str(o, "expr:gte(t,n_forced*2)");
    push_str(o, "-f");
    push_str(o, "segment");
    proof {
        assert(views(final(o)@) =~= views(old(o)@) + spec_segmenting());
    }
}

/// The command line that records the camera to segment files.
pub fn record_video(
    device: &str,
    width: i64,
    height: i64,
    rot: i64,
    bitrate: i64,
    fps: i64,
    opts: &RecordOptions,
) -> (r: Vec<String>)
    ensures
        views(r@) == spec_record_command(device@, width, height, rot, bitrate, fps, *opts),
{
    let mut o: Vec<String> = Vec::new();
    if libcamera_device(device) {
        let (w, h) = rotated_size(width, height, rot);
        push_str(&mut o, "libcamera-vid");
        if bitrate > 0 {
            push_str(&mut o, "-b");
            push_string(&mut o, format_i64(bitrate));
        }
        push_str(&mut o, "--framerate");
        push_string(&mut o, format_i64(fps));
        push_str(&mut o, "--segment");
        push_str(&mut o, "1000");
        push_str(&mut o, "--nopreview");
        push_str(&mut o, "--inline");
        push_str(&mut o, "-t");
        push_str(&mut o, "0");
        push_str(&mut o, "--width");
        push_string(&mut o, format_i64(w));
        push_str(&mut o, "--height");
        push_string(&mut o, format_i64(h));
        push_str(&mut o, "-o");
        push_string(&mut o, opts.path.clone());
        proof {
            assert(views(o@) =~= spec_record_command(device@, width, height, rot, bitrate, fps, *opts));
        }
        o
    } else {
        push_str(&mut o, "ffmpeg");
        push_audio_input(&mut o, opts);
        push_video_input(&mut o, device, width, height, fps, opts);
        push_audio_map(&mut o, opts);
        push_segmenting(&mut o);
        push_optional(&mut o, "-b:v", &opts.bitrate);
        push_optional(&mut o, "-b:a", &opts.audio_bitrate);
        push_string(&mut o, opts.path.clone());
        o
    }
}

// ---------------------------------------------------------------------------
// Laws of the command lines
// ---------------------------------------------------------------------------

/// The frame a camera is asked for when the picture is turned by `rot`
/// degrees: on its side (90 or 270) width and height trade places; otherwise
/// (0, 180 or any other setting) they are the requested width and height.
pub open spec fn sensor_frame(width: i64, height: i64, rot: i64) -> (i64, i64) {
    if rot == 90 || rot == 270 {
        (height, width)
    } else {
        (width, height)
    }
}

/// The ffmpeg filter that turns a picture by `rot` degrees, one rotation at a
/// time.
pub open spec fn turn_filter(rot: i64) -> Seq<char> {
    if rot == 90 {
        "transpose=1"@
    } else if rot == 180 {
        "transpose=2,transpose=2"@
    } else if rot == 270 {
        "transpose=2"@
    } else {
        "transpose=none"@
    }
}

/// Law: the live view encodes at the configured frame rate: its arguments
/// start with `-framerate` and the decimal text of the frame rate, which reads
/// back as that frame rate, and end by writing fragmented MP4 to standard
/// output.
pub proof fn lemma_live_args_framerate(framerate: i64)
    ensures
        spec_live_args(framerate).len() == 9,
        spec_live_args(framerate)[0] == "-framerate"@,
        spec_live_args(framerate)[1] == decimal(framerate as int),
        parse_i64(spec_live_args(framerate)[1]) == Some(framerate),
        spec_live_args(framerate)[2] == "-i"@,
        spec_live_args(framerate)[7] == "mp4"@,
        spec_live_args(framerate)[8] == "-"@,
{
    lemma_parse_i64_decimal(framerate);
}

/// Law: the libcamera capture of `open_camera` asks the camera for the frame
/// of the resolution setting, with width and height swapped exactly when the
/// picture is turned on its side, at the configured frame rate, and passes
/// the bitrate setting where there is one.
pub proof fn lemma_libcamera_capture_frame(s: CaptureSettings)
    requires
        is_libcamera(s.device@),
    ensures
        ({
            let a = spec_capture_args(s);
            let k: int = if s.bitrate is Some { 2 } else { 0 };
            let (w, h) = sensor_frame(s.width, s.height, s.rotation);
            &&& a.len() == k + 11
            &&& s.bitrate matches Some(b) ==> a[0] == "-b"@ && a[1] == b@
            &&& a[k] == "--framerate"@
            &&& a[k + 1] == decimal(s.framerate as int)
            &&& a[k + 5] == "--width"@
            &&& a[k + 6] == decimal(w as int)
            &&& a[k + 7] == "--height"@
            &&& a[k + 8] == decimal(h as int)
            &&& parse_i64(a[k + 6]) == Some(w)
            &&& parse_i64(a[k + 8]) == Some(h)
            &&& a[k + 10] == "-"@
        }),
{
    let (w, h) = sensor_frame(s.width, s.height, s.rotation);
    lemma_parse_i64_decimal(w);
    lemma_parse_i64_decimal(h);
}

/// Law: turning the picture upside down (180) asks a libcamera capture for
/// the same frame as not turning it, and turning it by 90 or 270 asks for the
/// frame of the swapped resolution.
pub proof fn lemma_libcamera_capture_rotation(s: CaptureSettings)
    requires
        is_libcamera(s.device@),
    ensures
        s.rotation == 180 ==> spec_capture_args(s) == spec_capture_args(CaptureSettings { rotation: 0, ..s }),
        (s.rotation == 90 || s.rotation == 270) ==> spec_capture_args(s) == spec_capture_args(
            CaptureSettings { rotation: 0, width: s.height, height: s.width, ..s },
        ),
{
    let z = CaptureSettings { rotation: 0, ..s };
    let sw = CaptureSettings { rotation: 0, width: s.height, height: s.width, ..s };
    lemma_libcamera_capture_frame(s);
    lemma_libcamera_capture_frame(z);
    lemma_libcamera_capture_frame(sw);
    if s.rotation == 180 {
        assert(spec_capture_args(s) =~= spec_capture_args(z));
    }
    if s.rotation == 90 || s.rotation == 270 {
        assert(spec_capture_args(s) =~= spec_capture_args(sw));
    }
}

/// Law: a libcamera snapshot takes a still of the frame for the rotation
/// (width and height swapped exactly when the picture is on its side) into
/// `temp2`, then converts it into `temp`, turning it by the rotation exactly
/// when the rotation is not 0: by `transpose=1` for 90, twice by
/// `transpose=2` for 180 and by `transpose=2` for 270.
pub proof fn lemma_libcamera_snapshot_turns(
    device: Seq<char>,
    format: Seq<char>,
    width: i64,
    height: i64,
    rot: i64,
    temp: Seq<char>,
    temp2: Seq<char>,
)
    requires
        is_libcamera(device),
    ensures
        ({
            let c = spec_snapshot_commands(device, format, width, height, rot, temp, temp2);
            let (w, h) = sensor_frame(width, height, rot);
            &&& c.len() == 2
            &&& c[0] == seq![
                "libcamera-still"@,
                "-n"@,
                "--width"@,
                decimal(w as int),
                "--height"@,
                decimal(h as int),
                "-o"@,
                temp2,
            ]
            &&& rot != 0 ==> c[1] == seq!["ffmpeg"@, "-i"@, temp2, "-filter:v"@, turn_filter(rot), temp]
            &&& rot == 0 ==> c[1] == seq!["ffmpeg"@, "-i"@, temp2, temp]
        }),
{
    let c = spec_snapshot_commands(device, format, width, height, rot, temp, temp2);
    assert(spec_transpose(rot) == turn_filter(rot));
    if rot != 0 {
        assert(c[1] =~= seq!["ffmpeg"@, "-i"@, temp2, "-filter:v"@, turn_filter(rot), temp]);
    } else {
        assert(c[1] =~= seq!["ffmpeg"@, "-i"@, temp2, temp]);
    }
    assert(c[0] =~= seq![
        "libcamera-still"@,
        "-n"@,
        "--width"@,
        decimal(sensor_frame(width, height, rot).0 as int),
        "--height"@,
        decimal(sensor_frame(width, height, rot).1 as int),
        "-o"@,
        temp2,
    ]);
}

/// Law: a V4L2 snapshot grabs one frame into `temp`, turned exactly when the
/// rotation is not 0: the filter before `temp` is the turn of the rotation,
/// followed by scaling back to the frame size where the picture is on its
/// side.
pub proof fn lemma_v4l2_snapshot_turns(
    device: Seq<char>,
    format: Seq<char>,
    width: i64,
    height: i64,
    rot: i64,
    temp: Seq<char>,
    temp2: Seq<char>,
)
    requires
        !is_libcamera(device),
    ensures
        ({
            let c = spec_snapshot_commands(device, format, width, height, rot, temp, temp2);
            let n = c[0].len() as int;
            &&& c.len() == 1
            &&& c[0][0] == "ffmpeg"@
            &&& c[0][n - 1] == temp
            &&& rot == 0 ==> c[0][n - 3] == "-vframes:v"@ && c[0][n - 2] == "1"@
            &&& rot != 0 ==> c[0][n - 5] == "-vframes:v"@ && c[0][n - 4] == "1"@ && c[0][n - 3] == "-filter:v"@
            &&& (rot == 90 || rot == 270) ==> c[0][n - 2] == spec_portrait_filter(rot, width, height)
                && c[0][n - 2].take(turn_filter(rot).len() as int) == turn_filter(rot)
            &&& (rot != 0 && rot != 90 && rot != 270) ==> c[0][n - 2] == turn_filter(rot)
        }),
{
    assert(spec_transpose(rot) == turn_filter(rot));
    let p = spec_portrait_filter(rot, width, height);
    assert(p.take(turn_filter(rot).len() as int) =~= turn_filter(rot));
}

/// Law: a libcamera recording runs `libcamera-vid` in one-second segments at
/// the given frame rate and bitrate (only where it is positive) on the frame
/// for the rotation (width and height swapped exactly when the picture is on
/// its side), writing to the segment path.
pub proof fn lemma_libcamera_record_frame(
    device: Seq<char>,
    width: i64,
    height: i64,
    rot: i64,
    bitrate: i64,
    fps: i64,
    opts: RecordOptions,
)
    requires
        is_libcamera(device),
    ensures
        ({
            let a = spec_record_command(device, width, height, rot, bitrate, fps, opts);
            let k: int = if bitrate > 0 { 2 } else { 0 };
            let (w, h) = sensor_frame(width, height, rot);
            &&& a.len() == k + 15
            &&& a[0] == "libcamera-vid"@
            &&& bitrate > 0 ==> a[1] == "-b"@ && a[2] == decimal(bitrate as int)
            &&& a[k + 1] == "--framerate"@
            &&& a[k + 2] == decimal(fps as int)
            &&& a[k + 3] == "--segment"@
            &&& a[k + 9] == "--width"@
            &&& a[k + 10] == decimal(w as int)
            &&& a[k + 11] == "--height"@
            &&& a[k + 12] == decimal(h as int)
            &&& parse_i64(a[k + 10]) == Some(w)
            &&& parse_i64(a[k + 12]) == Some(h)
            &&& a[k + 13] == "-o"@
            &&& a[k + 14] == opts.path@
        }),
{
    let (w, h) = sensor_frame(width, height, rot);
    lemma_parse_i64_decimal(w);
    lemma_parse_i64_decimal(h);
}

/// Law: an upside-down camera (180) records the same frame as an upright one,
/// and one on its side (90 or 270) records the frame of the swapped size.
pub proof fn lemma_libcamera_record_rotation(
    device: Seq<char>,
    width: i64,
    height: i64,
    rot: i64,
    bitrate: i64,
    fps: i64,
    opts: RecordOptions,
)
    requires
        is_libcamera(device),
    ensures
        rot == 180 ==> spec_record_command(device, width, height, rot, bitrate, fps, opts)
            == spec_record_command(device, width, height, 0, bitrate, fps, opts),
        (rot == 90 || rot == 270) ==> spec_record_command(device, width, height, rot, bitrate, fps, opts)
            == spec_record_command(device, height, width, 0, bitrate, fps, opts),
{
    lemma_libcamera_record_frame(device, width, height, rot, bitrate, fps, opts);
    lemma_libcamera_record_frame(device, width, height, 0, bitrate, fps, opts);
    lemma_libcamera_record_frame(device, height, width, 0, bitrate, fps, opts);
    if rot == 180 {
        assert(spec_record_command(device, width, height, rot, bitrate, fps, opts)
            =~= spec_record_command(device, width, height, 0, bitrate, fps, opts));
    }
    if rot == 90 || rot == 270 {
        assert(spec_record_command(device, width, height, rot, bitrate, fps, opts)
            =~= spec_record_command(device, height, width, 0, bitrate, fps, opts));
    }
}

/// Law: the segmenting encoder reads the camera stream from standard input at
/// the configured frame rate, cuts it at forced keyframes into two-second
/// segments without re-encoding, and writes them to the segment pattern.
pub proof fn lemma_segment_args(framerate: i64, pattern: Seq<char>)
    ensures
        ({
            let a = spec_segment_args(framerate, pattern);
            &&& a.len() == 17
            &&& a[0] == "-framerate"@ && a[1] == decimal(framerate as int)
            &&& parse_i64(a[1]) == Some(framerate)
            &&& a[2] == "-i"@ && a[3] == "-"@
            &&& a[4] == "-segment_time"@ && a[5] == "2"@
            &&& a[12] == "-c"@ && a[13] == "copy"@
            &&& a[14] == "-f"@ && a[15] == "segment"@
            &&& a[16] == pattern
        }),
{
    lemma_parse_i64_decimal(framerate);
}

/// Law: a V4L2 capture reads the device at the configured frame rate and the
/// resolution setting as it is (the rotation does not change it), decodes with
/// the codec of its pixel format (`h264` for H264 and any format it does not
/// know, `mjpeg` for MJPG, `yuyv422` for YUYV), and writes the stream in that
/// same codec to standard output, copied unless an encoder is set.
pub proof fn lemma_v4l2_capture(s: CaptureSettings)
    requires
        !is_libcamera(s.device@),
    ensures
        ({
            let a = spec_capture_args(s);
            let n = a.len() as int;
            let k: int = if s.bitrate is Some { 2 } else { 0 };
            &&& n == k + 15
            &&& a[0] == "-f"@ && a[1] == "v4l2"@
            &&& a[2] == "-vcodec"@
            &&& (s.format@ == "MJPG"@ ==> a[3] == "mjpeg"@)
            &&& (s.format@ == "YUYV"@ ==> a[3] == "yuyv422"@)
            &&& (s.format@ != "MJPG"@ && s.format@ != "YUYV"@ ==> a[3] == "h264"@)
            &&& a[4] == "-framerate"@ && a[5] == decimal(s.framerate as int)
            &&& a[6] == "-video_size"@
            &&& a[7] == decimal(s.width as int) + "x"@ + decimal(s.height as int)
            &&& a[8] == "-i"@ && a[9] == s.device@
            &&& s.bitrate matches Some(b) ==> a[10] == "-b:v"@ && a[11] == b@
            &&& a[n - 5] == "-c"@
            &&& a[n - 4] == (match s.video_encoder {
                Some(e) => e@,
                None => "copy"@,
            })
            &&& a[n - 3] == "-f"@ && a[n - 2] == a[3]
            &&& a[n - 1] == "-"@
        }),
{
    reveal_strlit("H264");
    reveal_strlit("MJPG");
    reveal_strlit("YUYV");
    assert("MJPG"@[0] != "H264"@[0]);
    assert("YUYV"@[0] != "H264"@[0] && "YUYV"@[0] != "MJPG"@[0]);
    let a = spec_capture_args(s);
    assert(a[3] == spec_stream_codec(s.format@));
}

/// Law: a V4L2 recording runs ffmpeg, reading the sound card first where
/// sound is recorded, then the camera at the configured frame rate and the
/// resolution setting as it is, and ends with the segment path.
pub proof fn lemma_v4l2_record(
    device: Seq<char>,
    width: i64,
    height: i64,
    rot: i64,
    bitrate: i64,
    fps: i64,
    opts: RecordOptions,
)
    requires
        !is_libcamera(device),
    ensures
        ({
            let a = spec_record_command(device, width, height, rot, bitrate, fps, opts);
            let ai: int = if opts.audio {
                if opts.itsoffset is Some { 8 } else { 6 }
            } else {
                0
            };
            let c: int = if spec_known_codec(opts.format@) is Some { 2 } else { 0 };
            let v = 1 + ai + 2 + c;
            &&& a[0] == "ffmpeg"@
            &&& a[a.len() - 1] == opts.path@
            &&& opts.audio ==> a[1] == "-f"@ && a[2] == "alsa"@ && a[5] == "-i"@ && a[6] == (match opts.audiodevice {
                Some(d) => d@,
                None => "default"@,
            })
            &&& a[1 + ai] == "-f"@ && a[2 + ai] == "v4l2"@
            &&& a[v] == "-framerate"@ && a[v + 1] == decimal(fps as int)
            &&& a[v + 2] == "-video_size"@
            &&& a[v + 3] == decimal(width as int) + "x"@ + decimal(height as int)
            &&& a[v + 4] == "-i"@ && a[v + 5] == device
            &&& a[v + 6] == "-c:v"@
            &&& a[v + 7] == (match opts.video_encoder {
                Some(e) => e@,
                None => "h264"@,
            })
        }),
{
    let a = spec_record_command(device, width, height, rot, bitrate, fps, opts);
    let head = seq!["ffmpeg"@] + spec_audio_input(opts);
    let vi = spec_video_input(device, width, height, fps, opts);
    assert(spec_audio_input(opts).len() == if opts.audio {
        if opts.itsoffset is Some { 8int } else { 6int }
    } else {
        0int
    });
    assert(codec_args(opts.format@).len() == if spec_known_codec(opts.format@) is Some { 2int } else { 0int });
    let rest = spec_audio_map(opts) + spec_segmenting() + optional("-b:v"@, opt_view(opts.bitrate))
        + optional("-b:a"@, opt_view(opts.audio_bitrate)) + seq![opts.path@];
    assert(a =~= head + vi + rest);
    assert forall|i: int| 0 <= i < vi.len() implies a[head.len() + i] == #[trigger] vi[i] by {
        assert(a[head.len() + i] == (head + vi + rest)[head.len() + i]);
    }
    assert forall|i: int| 0 <= i < head.len() implies a[i] == #[trigger] head[i] by {
        assert(a[i] == (head + vi + rest)[i]);
    }
}

} // verus!
