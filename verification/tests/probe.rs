use camera::probe::{
    device_formats, format_queries, is_camera_listing, libcamera_cameras, libcamera_installed,
    v4l2_cameras, ProbeTables,
};

type Flat = (Vec<String>, Vec<(usize, String)>, Vec<(usize, String)>, Vec<(usize, i64, i64)>);

fn flat(t: &ProbeTables) -> Flat {
    (
        t.groups.clone(),
        t.sources.iter().map(|e| (e.parent, e.name.clone())).collect(),
        t.formats.iter().map(|e| (e.parent, e.name.clone())).collect(),
        t.sizes.iter().map(|s| (s.format, s.width, s.height)).collect(),
    )
}

const LIBCAMERA: &str = "Available cameras
-----------------
0 : imx477 [4056x3040] (/base/soc/i2c0mux/i2c@1/imx477@1a)
    Modes: 'SRGGB10_CSI2P' : 1332x990 [120.05 fps - (696, 528)/2664x1980 crop]
           'SRGGB12_CSI2P' : 2028x1080 [50.03 fps - (0, 440)/4056x2160 crop]
                             2028x1520 [40.01 fps - (0, 0)/4056x3040 crop]
                             4056x3040 [10.00 fps - (0, 0)/4056x3040 crop]
";

#[test]
fn libcamera_listing_is_read() {
    assert!(is_camera_listing(LIBCAMERA));
    assert!(!is_camera_listing("No cameras available!"));
    let t = libcamera_cameras(LIBCAMERA).unwrap();
    assert_eq!(
        flat(&t),
        (
            vec!["Raspberry Pi - imx477 [4056x3040] (/base/soc/i2c0mux/i2c@1/imx477@1a)".to_string()],
            vec![(0, "libcamera-apps".to_string())],
            vec![(0, "SRGGB10_CSI2P".to_string()), (0, "SRGGB12_CSI2P".to_string())],
            vec![(0, 1332, 990), (1, 2028, 1080), (1, 2028, 1520), (1, 4056, 3040)],
        )
    );
}

#[test]
fn libcamera_two_cameras() {
    let out = "Available cameras\n---\n0 : a [1x1] (x)\n    Modes: 'F1' : 10x20 [1 fps]\n1 : b [2x2] (y)\n    Modes: 'F2' : 30x40 [1 fps]\n";
    let t = libcamera_cameras(out).unwrap();
    assert_eq!(
        flat(&t),
        (
            vec!["Raspberry Pi - a [1x1] (x)".to_string(), "Raspberry Pi - b [2x2] (y)".to_string()],
            vec![(0, "libcamera-apps".to_string()), (1, "libcamera-apps".to_string())],
            vec![(0, "F1".to_string()), (1, "F2".to_string())],
            vec![(0, 10, 20), (1, 30, 40)],
        )
    );
}

#[test]
fn libcamera_listing_without_dashes_is_empty() {
    let t = libcamera_cameras("Available cameras\n0 : a\n").unwrap();
    assert!(t.groups.is_empty() && t.sources.is_empty());
}

#[test]
fn libcamera_listing_that_panics_gives_none() {
    // An empty line after the dashes.
    assert!(libcamera_cameras("Available cameras\n---\n\n").is_none());
    // A camera line without a colon.
    assert!(libcamera_cameras("Available cameras\n---\nimx477\n").is_none());
    // A mode line without a size.
    assert!(libcamera_cameras("Available cameras\n---\n0 : a\n    Modes: 'F' : big\n").is_none());
    // A short indented line.
    assert!(libcamera_cameras("Available cameras\n---\n0 : a\n    x\n").is_none());
}

const DEVICES: &str = "bcm2835-codec-decode (platform:bcm2835-codec):
\t/dev/video10
\t/dev/video11

USB Camera: USB Camera (usb-0000:01:00.0-1.2):
\t/dev/video0
\t/dev/video1
";

const VIDEO0: &str = "ioctl: VIDIOC_ENUM_FMT
\tType: Video Capture

\t[0]: 'MJPG' (Motion-JPEG, compressed)
\t\tSize: Discrete 1280x720
\t\t\tInterval: Discrete 0.033s (30.000 fps)
\t\tSize: Discrete 640x480
\t[1]: 'YUYV' (YUYV 4:2:2)
\t\tSize: Stepwise 64x64 - 1280x720 with step 2/2
";

#[test]
fn format_queries_one_per_device() {
    let q = format_queries(DEVICES);
    let want: Vec<Vec<String>> = ["/dev/video10", "/dev/video11", "/dev/video0", "/dev/video1"]
        .iter()
        .map(|d| vec!["v4l2-ctl".to_string(), format!("--device={}", d), "--list-formats-ext".to_string()])
        .collect();
    assert_eq!(q, want);
}

#[test]
fn device_formats_discrete_and_stepwise() {
    let f = device_formats(VIDEO0).unwrap();
    assert!(f.found);
    assert_eq!(f.formats, vec!["MJPG".to_string(), "YUYV".to_string()]);
    let sizes: Vec<(usize, i64, i64)> = f.sizes.iter().map(|s| (s.format, s.width, s.height)).collect();
    assert_eq!(
        sizes,
        vec![(0, 1280, 720), (0, 640, 480), (1, 1280, 720), (1, 800, 600), (1, 640, 480), (1, 480, 360), (1, 320, 240), (1, 240, 180)]
    );
}

#[test]
fn device_formats_that_panic_give_none() {
    assert!(device_formats("[0]: no quote\n").is_none());
    assert!(device_formats("[0]: 'A'\nSize: Stepwise 64x64\n").is_none());
    assert!(device_formats("[0]: 'A'\nSize: Discrete big\n").is_none());
    let f = device_formats("ioctl: VIDIOC_ENUM_FMT\n").unwrap();
    assert!(!f.found);
}

#[test]
fn v4l2_devices_with_sizes_become_sources() {
    let outs = vec![
        Some("ioctl: VIDIOC_ENUM_FMT\n\tType: Video Capture\n".to_string()),
        Some(String::new()),
        Some(VIDEO0.to_string()),
        None,
    ];
    let t = v4l2_cameras(DEVICES, &outs).unwrap();
    assert_eq!(
        flat(&t),
        (
            vec![
                "bcm2835-codec-decode (platform:bcm2835-codec):".to_string(),
                "USB Camera: USB Camera (usb-0000:01:00.0-1.2):".to_string(),
            ],
            vec![(1, "/dev/video0".to_string())],
            vec![(0, "MJPG".to_string()), (0, "YUYV".to_string())],
            vec![(0, 1280, 720), (0, 640, 480), (1, 1280, 720), (1, 800, 600), (1, 640, 480), (1, 480, 360), (1, 320, 240), (1, 240, 180)],
        )
    );
}

#[test]
fn v4l2_device_before_any_group_is_dropped() {
    let outs = vec![Some(VIDEO0.to_string())];
    let t = v4l2_cameras("\t/dev/video0\n", &outs).unwrap();
    assert!(t.groups.is_empty() && t.sources.is_empty() && t.formats.is_empty());
}

#[test]
fn v4l2_bad_format_listing_gives_none() {
    let outs = vec![Some("[0]: 'A'\nSize: Discrete x\n".to_string())];
    assert!(v4l2_cameras("G:\n\t/dev/video0\n", &outs).is_none());
}

#[test]
fn which_output_decides_libcamera() {
    assert!(libcamera_installed("/usr/bin/libcamera-vid\n"));
    assert!(!libcamera_installed(""));
}
