use camera::commands::{
    capture_command, capture_pattern, known_codec, live_args, parse_resolution, portrait_filter,
    record_video, rotated_size, segment_args, snapshot_commands, transpose_filter, CaptureSettings,
    RecordOptions,
};

fn strs(v: &[&str]) -> Vec<String> {
    v.iter().map(|s| s.to_string()).collect()
}

fn settings(device: &str, format: &str, rotation: i64) -> CaptureSettings {
    CaptureSettings {
        device: device.to_string(),
        format: format.to_string(),
        width: 1920,
        height: 1080,
        rotation,
        framerate: 30,
        bitrate: None,
        video_encoder: None,
    }
}

#[test]
fn capture_command_for_libcamera() {
    let mut s = settings("libcamera-apps", "SBGGR12_CSI2P", 90);
    s.bitrate = Some("4000000".to_string());
    let (prog, args) = capture_command(&s);
    assert_eq!(prog, "libcamera-vid");
    assert_eq!(
        args,
        strs(&["-b", "4000000", "--framerate", "30", "--nopreview", "-t", "0", "--width", "1080", "--height", "1920", "-o", "-"])
    );
}

#[test]
fn capture_command_for_v4l2() {
    let s = settings("/dev/video0", "MJPG", 0);
    let (prog, args) = capture_command(&s);
    assert_eq!(prog, "ffmpeg");
    assert_eq!(
        args,
        strs(&["-f", "v4l2", "-vcodec", "mjpeg", "-framerate", "30", "-video_size", "1920x1080", "-i", "/dev/video0", "-c", "copy", "-f", "mjpeg", "-"])
    );
}

#[test]
fn capture_command_unknown_format_and_settings() {
    let mut s = settings("/dev/video2", "NV12", 180);
    s.bitrate = Some("2M".to_string());
    s.video_encoder = Some("libx264".to_string());
    let (_, args) = capture_command(&s);
    assert_eq!(
        args,
        strs(&["-f", "v4l2", "-vcodec", "h264", "-framerate", "30", "-video_size", "1920x1080", "-i", "/dev/video2", "-b:v", "2M", "-c", "libx264", "-f", "h264", "-"])
    );
}

#[test]
fn segment_and_live_arguments() {
    let p = capture_pattern("/mnt/st");
    assert_eq!(p, "/mnt/st/capture/%d.mp4");
    assert_eq!(
        segment_args(25, &p),
        strs(&["-framerate", "25", "-i", "-", "-segment_time", "2", "-g", "2", "-sc_threshold", "0", "-force_key_frames", "expr:gte(t,n_forced*2)", "-c", "copy", "-f", "segment", "/mnt/st/capture/%d.mp4"])
    );
    assert_eq!(
        live_args(30),
        strs(&["-framerate", "30", "-i", "-", "-movflags", "frag_keyframe+empty_moov", "-f", "mp4", "-"])
    );
}

#[test]
fn rotations() {
    assert_eq!(rotated_size(1920, 1080, 90), (1080, 1920));
    assert_eq!(rotated_size(1920, 1080, 270), (1080, 1920));
    assert_eq!(rotated_size(1920, 1080, 180), (1920, 1080));
    assert_eq!(transpose_filter(90), "transpose=1");
    assert_eq!(transpose_filter(180), "transpose=2,transpose=2");
    assert_eq!(transpose_filter(270), "transpose=2");
    assert_eq!(transpose_filter(45), "transpose=none");
}

#[test]
fn portrait_scaling_rounds_toward_zero() {
    assert_eq!(portrait_filter(90, 640, 480), "transpose=1,scale=640:853,crop=640:480");
    assert_eq!(portrait_filter(270, 3, -2), "transpose=2,scale=3:-4,crop=3:-2");
    assert_eq!(portrait_filter(90, 5, i64::MIN), format!("transpose=1,scale=5:0,crop=5:{}", i64::MIN));
}

#[test]
fn codecs_of_formats() {
    assert_eq!(known_codec("H264"), Some("h264"));
    assert_eq!(known_codec("MJPG"), Some("mjpeg"));
    assert_eq!(known_codec("YUYV"), Some("yuyv422"));
    assert_eq!(known_codec("yuyv"), None);
}

#[test]
fn resolutions() {
    assert_eq!(parse_resolution("1920x1080"), Some((1920, 1080)));
    assert_eq!(parse_resolution("1920x1080x3"), Some((1920, 1080)));
    assert_eq!(parse_resolution("1920"), None);
    assert_eq!(parse_resolution("axb"), None);
}

#[test]
fn snapshot_with_libcamera() {
    let cmds = snapshot_commands("libcamera-apps", "", 1920, 1080, 90, "/tmp/a.jpg", "/tmp/a_x.jpg");
    assert_eq!(
        cmds,
        vec![
            strs(&["libcamera-still", "-n", "--width", "1080", "--height", "1920", "-o", "/tmp/a_x.jpg"]),
            strs(&["ffmpeg", "-i", "/tmp/a_x.jpg", "-filter:v", "transpose=1", "/tmp/a.jpg"]),
        ]
    );
    let cmds = snapshot_commands("libcamera-apps", "", 640, 480, 0, "t.jpg", "u.jpg");
    assert_eq!(cmds[1], strs(&["ffmpeg", "-i", "u.jpg", "t.jpg"]));
}

#[test]
fn snapshot_with_v4l2() {
    let cmds = snapshot_commands("/dev/video0", "YUYV", 640, 480, 270, "/tmp/b.jpg", "unused");
    assert_eq!(
        cmds,
        vec![strs(&["ffmpeg", "-f", "v4l2", "-vcodec", "yuyv422", "-video_size", "640x480", "-i", "/dev/video0", "-update", "1", "-vframes:v", "1", "-filter:v", "transpose=2,scale=640:853,crop=640:480", "/tmp/b.jpg"])]
    );
    let cmds = snapshot_commands("/dev/video0", "XYZ", 640, 480, 180, "o.jpg", "unused");
    assert_eq!(
        cmds,
        vec![strs(&["ffmpeg", "-f", "v4l2", "-video_size", "640x480", "-i", "/dev/video0", "-update", "1", "-vframes:v", "1", "-filter:v", "transpose=2,transpose=2", "o.jpg"])]
    );
}

fn options(audio: bool) -> RecordOptions {
    RecordOptions {
        path: "/st/capture/%d.mp4".to_string(),
        format: "H264".to_string(),
        audio,
        audiodevice: None,
        itsoffset: None,
        video_encoder: None,
        bitrate: None,
        audio_bitrate: None,
    }
}

#[test]
fn record_video_with_libcamera() {
    let cmd = record_video("libcamera-apps", 1920, 1080, 270, 5000000, 30, &options(false));
    assert_eq!(
        cmd,
        strs(&["libcamera-vid", "-b", "5000000", "--framerate", "30", "--segment", "1000", "--nopreview", "--inline", "-t", "0", "--width", "1080", "--height", "1920", "-o", "/st/capture/%d.mp4"])
    );
    let cmd = record_video("libcamera-apps", 1920, 1080, 0, 0, 30, &options(false));
    assert_eq!(cmd[1], "--framerate");
}

#[test]
fn record_video_with_ffmpeg() {
    let cmd = record_video("/dev/video0", 1280, 720, 90, 0, 25, &options(false));
    assert_eq!(
        cmd,
        strs(&["ffmpeg", "-f", "v4l2", "-vcodec", "h264", "-framerate", "25", "-video_size", "1280x720", "-i", "/dev/video0", "-c:v", "h264", "-segment_time", "2", "-g", "2", "-sc_threshold", "0", "-force_key_frames", "expr:gte(t,n_forced*2)", "-f", "segment", "/st/capture/%d.mp4"])
    );
}

#[test]
fn record_video_with_sound() {
    let mut o = options(true);
    o.audiodevice = Some("hw:1".to_string());
    o.itsoffset = Some("0.5".to_string());
    o.video_encoder = Some("copy".to_string());
    o.bitrate = Some("3M".to_string());
    o.audio_bitrate = Some("128k".to_string());
    let cmd = record_video("/dev/video0", 1280, 720, 0, 0, 25, &o);
    assert_eq!(
        cmd,
        strs(&["ffmpeg", "-f", "alsa", "-ac", "2", "-i", "hw:1", "-itsoffset", "0.5", "-f", "v4l2", "-vcodec", "h264", "-framerate", "25", "-video_size", "1280x720", "-i", "/dev/video0", "-c:v", "copy", "-c:a", "aac", "-map", "0:a:0", "-map", "1:v:0", "-segment_time", "2", "-g", "2", "-sc_threshold", "0", "-force_key_frames", "expr:gte(t,n_forced*2)", "-f", "segment", "-b:v", "3M", "-b:a", "128k", "/st/capture/%d.mp4"])
    );
    let cmd = record_video("/dev/video0", 1280, 720, 0, 0, 25, &options(true));
    assert_eq!(&cmd[1..7], &strs(&["-f", "alsa", "-ac", "2", "-i", "default"])[..]);
}
