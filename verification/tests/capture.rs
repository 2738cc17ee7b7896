use screen_mirror::capture::{
    analyze_capture, bmp_bytes, capture_result, capture_size, client_size, falls_back_to_window,
    pixel_bytes, CaptureError, CaptureMetrics, CaptureSource, CapturedImage, DrawStage,
};
use screen_mirror::receiver_window::{
    is_receiver_window, judge, overlay_action, overlay_size, stream_flow, OverlayAction,
    StreamFlow, Surface, Verdict, VisualCaptureState,
};

fn solid(width: u32, height: u32, blue: u8, green: u8, red: u8) -> CapturedImage {
    let mut pixels = Vec::with_capacity((width * height * 4) as usize);
    for _ in 0..width * height {
        pixels.extend_from_slice(&[blue, green, red, 255]);
    }
    CapturedImage {
        width,
        height,
        pixels,
    }
}

fn white_ratio(metrics: &CaptureMetrics) -> f32 {
    metrics.white as f32 / metrics.count as f32
}

fn black_ratio(metrics: &CaptureMetrics) -> f32 {
    metrics.black as f32 / metrics.count as f32
}

fn mean_luma(metrics: &CaptureMetrics) -> f32 {
    (metrics.luma as f64 / 2_f64.powi(56) / metrics.count as f64) as f32
}

#[test]
fn visual_probe_classifies_a_white_surface() {
    let metrics = analyze_capture(&solid(16, 16, 255, 255, 255));

    assert_eq!(metrics.classification().name(), "likely-white");
    assert!(white_ratio(&metrics) >= 0.98);
    assert!(mean_luma(&metrics) >= 245.0);
}

#[test]
fn visual_probe_classifies_a_black_surface() {
    let metrics = analyze_capture(&solid(16, 16, 0, 0, 0));

    assert_eq!(metrics.classification().name(), "likely-black");
    assert!(black_ratio(&metrics) >= 0.98);
    assert!(mean_luma(&metrics) <= 10.0);
}

#[test]
fn visual_probe_does_not_call_a_varied_frame_blank() {
    let mut image = solid(16, 16, 255, 255, 255);
    for (index, pixel) in image.pixels.chunks_exact_mut(4).enumerate() {
        if index % 2 == 0 {
            pixel[..3].copy_from_slice(&[0, 0, 0]);
        }
    }

    let metrics = analyze_capture(&image);

    assert_eq!(metrics.classification().name(), "mixed");
    assert!(white_ratio(&metrics) < 0.98);
    assert!(black_ratio(&metrics) < 0.98);
}

#[test]
fn a_capture_is_measured_pixel_by_pixel() {
    let metrics = analyze_capture(&CapturedImage {
        width: 1,
        height: 1,
        pixels: vec![10, 20, 30, 0],
    });
    assert_eq!(metrics.count, 1);
    let luma = 30.0 * 0.2126 + 20.0 * 0.7152 + 10.0 * 0.0722;
    assert_eq!(metrics.luma, (luma * 2_f64.powi(56)) as u128);
    let exact: u128 = 30 * 2126 + 20 * 7152 + 10 * 722;
    assert_eq!(metrics.luma_squares, exact * exact);
    let mut hash = 14_695_981_039_346_656_037_u64;
    for byte in [10_u64, 20, 30, 0] {
        hash = (hash ^ byte).wrapping_mul(1_099_511_628_211);
    }
    assert_eq!(metrics.hash, hash);
    let middle = analyze_capture(&solid(16, 8, 0, 0, 0));
    assert_eq!(middle.count, 8 * 4);
    let cut = analyze_capture(&CapturedImage {
        width: 4,
        height: 4,
        pixels: vec![255; 26],
    });
    assert_eq!(cut.count, 1);
    let empty = analyze_capture(&CapturedImage {
        width: 0,
        height: 0,
        pixels: Vec::new(),
    });
    assert_eq!(empty.count, 0);
    assert_eq!(empty.classification(), Surface::Mixed);
}

/// The sum of the brightness of the middle pixels, and what they look like, in floating point.
fn by_floating_point(image: &CapturedImage) -> (f64, &'static str) {
    let (width, height) = (image.width as usize, image.height as usize);
    let (mut count, mut white, mut black, mut sum) = (0_u64, 0_u64, 0_u64, 0.0_f64);
    for y in height / 4..(height * 3 / 4).max(height / 4 + 1) {
        for x in width / 4..(width * 3 / 4).max(width / 4 + 1) {
            let at = (y * width + x) * 4;
            let blue = f64::from(image.pixels[at]);
            let green = f64::from(image.pixels[at + 1]);
            let red = f64::from(image.pixels[at + 2]);
            count += 1;
            sum += red * 0.2126 + green * 0.7152 + blue * 0.0722;
            white += u64::from(red >= 245.0 && green >= 245.0 && blue >= 245.0);
            black += u64::from(red <= 10.0 && green <= 10.0 && blue <= 10.0);
        }
    }
    let mean = (sum / count as f64) as f32;
    let looks = if white as f32 / count as f64 as f32 >= 0.98 && mean >= 245.0 {
        "likely-white"
    } else if black as f32 / count as f64 as f32 >= 0.98 && mean <= 10.0 {
        "likely-black"
    } else {
        "mixed"
    };
    (sum, looks)
}

#[test]
fn brightness_is_summed_as_floating_point_sums_it() {
    let mut seed = 1_u32;
    let mut next = || {
        seed = seed.wrapping_mul(1_664_525).wrapping_add(1_013_904_223);
        (seed >> 24) as u8
    };
    for round in 0..60_u8 {
        let mut image = solid(23 + u32::from(round), 17, 0, 0, 0);
        for byte in &mut image.pixels {
            *byte = match round % 3 {
                0 => next(),
                1 => 244 + next() % 3,
                _ => 9 + next() % 3,
            };
        }
        let metrics = analyze_capture(&image);
        let (sum, looks) = by_floating_point(&image);
        assert_eq!(metrics.luma as f64 / 2_f64.powi(56), sum);
        assert_eq!(metrics.classification().name(), looks);
    }
}

#[test]
fn a_mean_that_single_precision_rounds_to_the_threshold_reaches_it() {
    for (side, level, off, pixels, looks) in [
        (480, 245, 244, 1, "likely-white"),
        (480, 245, 244, 1_100, "mixed"),
        (480, 10, 11, 1, "mixed"),
        (960, 10, 11, 1, "likely-black"),
        (960, 10, 11, 2, "mixed"),
    ] {
        let mut image = solid(side as u32, side as u32, level, level, level);
        for k in 0..pixels {
            let (x, y) = (side / 4 + k % 100, side / 4 + k / 100);
            image.pixels[(y * side + x) * 4] = off;
        }
        let metrics = analyze_capture(&image);
        assert_eq!(metrics.count as usize, side * side / 4);
        let (sum, expected) = by_floating_point(&image);
        assert_eq!(metrics.luma as f64 / 2_f64.powi(56), sum);
        assert_eq!(metrics.classification().name(), expected);
        assert_eq!(expected, looks, "{level} {pixels}");
    }
}

#[test]
fn captures_are_scaled_as_floating_point_scales() {
    let expected = |width: i32, height: i32| {
        let scale = (640.0 / f64::from(width)).min(360.0 / f64::from(height)).min(1.0);
        let side = |side: i32| (f64::from(side) * scale).round().max(1.0) as i32;
        (side(width), side(height))
    };
    let sizes = || {
        (1..2_000)
            .step_by(7)
            .chain([640, 641, 1_280, 1_281, 3_840, 7_680, 65_535, 1 << 20, i32::MAX - 1, i32::MAX])
    };
    for width in sizes() {
        for height in sizes() {
            assert_eq!(capture_size(width, height), expected(width, height), "{width}x{height}");
        }
    }
    // Halfway between two sizes, the quotient in double precision decides.
    for width in 641..6_000 {
        for whole in [3, 101, 359] {
            let height = (2 * whole + 1) * width / 1_280;
            assert_eq!(capture_size(width, height), expected(width, height), "{width}x{height}");
        }
    }
}

#[test]
fn captures_are_scaled_to_fit() {
    assert_eq!(capture_size(640, 360), (640, 360));
    assert_eq!(capture_size(300, 200), (300, 200));
    assert_eq!(capture_size(1920, 1080), (640, 360));
    assert_eq!(capture_size(2560, 1080), (640, 270));
    assert_eq!(capture_size(1080, 1920), (203, 360));
    assert_eq!(capture_size(1366, 768), (640, 360));
    assert_eq!(capture_size(i32::MAX, 1), (640, 1));
    assert_eq!(capture_size(1, i32::MAX), (1, 360));
    assert_eq!(pixel_bytes(640, 360), 921_600);
}

#[test]
fn a_client_area_has_a_size() {
    assert_eq!(client_size(0, 0, 800, 600), Ok((800, 600)));
    assert_eq!(client_size(10, 5, 10, 6), Err(CaptureError::EmptyClientArea));
    assert_eq!(
        client_size(i32::MIN, 0, i32::MAX, 1),
        Ok((i32::MAX, 1))
    );
}

#[test]
fn the_desktop_is_captured_before_the_window() {
    let failed = Some(Err(CaptureError::StretchBlt));
    assert!(!falls_back_to_window(&Some(Ok(()))));
    assert!(falls_back_to_window(&failed));
    assert!(falls_back_to_window(&None));
    assert_eq!(capture_result(Some(Ok(())), None), Ok(CaptureSource::Desktop));
    assert_eq!(capture_result(failed, Some(Ok(()))), Ok(CaptureSource::Window));
    assert_eq!(capture_result(failed, None), Err(CaptureError::StretchBlt));
    assert_eq!(
        capture_result(failed, Some(Err(CaptureError::SelectObject))),
        Err(CaptureError::StretchBlt)
    );
    assert_eq!(
        capture_result(None, Some(Err(CaptureError::SelectObject))),
        Err(CaptureError::Window)
    );
    assert_eq!(capture_result(None, None), Err(CaptureError::NoDeviceContext));
    assert_eq!(CaptureSource::Desktop.name(), "desktop");
    assert_eq!(CaptureSource::Window.name(), "window");
}

#[test]
fn drawing_releases_what_it_holds() {
    let mut stage = DrawStage::CreateDc;
    let mut seen = Vec::new();
    while stage != DrawStage::Done {
        let held = stage.held();
        seen.push((held.dc, held.bitmap, held.selected));
        stage.step(true, 9, 9).unwrap();
    }
    assert_eq!(
        seen,
        vec![
            (false, false, false),
            (true, false, false),
            (true, true, false),
            (true, true, true),
            (true, true, true),
            (true, true, false),
        ]
    );
    for (at, message) in [
        (DrawStage::CreateDc, "CreateCompatibleDC failed"),
        (DrawStage::CreateBitmap, "CreateCompatibleBitmap failed"),
        (DrawStage::Select, "SelectObject failed"),
        (DrawStage::Stretch, "StretchBlt failed"),
        (DrawStage::ReadPixels, "GetDIBits copied -3 lines"),
    ] {
        let mut failing = at;
        assert_eq!(failing.step(false, -3, 9).unwrap_err().message(), message);
        assert_eq!(failing, at);
    }
    assert_eq!(
        CaptureError::EmptyClientArea.message(),
        "receiver renderer has an empty client area"
    );
}

#[test]
fn a_capture_is_kept_as_a_bitmap_file() {
    let image = solid(2, 3, 1, 2, 3);
    let bytes = bmp_bytes(&image).unwrap();
    assert_eq!(bytes.len(), 54 + 24);
    assert_eq!(&bytes[..2], b"BM");
    assert_eq!(&bytes[2..6], &78_u32.to_le_bytes());
    assert_eq!(&bytes[6..10], &[0; 4]);
    assert_eq!(&bytes[10..14], &54_u32.to_le_bytes());
    assert_eq!(&bytes[14..18], &40_u32.to_le_bytes());
    assert_eq!(&bytes[18..22], &2_i32.to_le_bytes());
    assert_eq!(&bytes[22..26], &(-3_i32).to_le_bytes());
    assert_eq!(&bytes[26..28], &1_u16.to_le_bytes());
    assert_eq!(&bytes[28..30], &32_u16.to_le_bytes());
    assert_eq!(&bytes[30..34], &0_u32.to_le_bytes());
    assert_eq!(&bytes[34..38], &24_u32.to_le_bytes());
    assert_eq!(&bytes[38..42], &2_835_i32.to_le_bytes());
    assert_eq!(&bytes[42..46], &2_835_i32.to_le_bytes());
    assert_eq!(&bytes[46..54], &[0; 8]);
    assert_eq!(&bytes[54..], &image.pixels[..]);
}

#[test]
fn a_bitmap_without_lines_is_only_its_headers() {
    let bytes = bmp_bytes(&solid(2, 0, 1, 2, 3)).unwrap();
    assert_eq!(bytes.len(), 54);
    assert_eq!(&bytes[2..6], &54_u32.to_le_bytes());
    assert_eq!(&bytes[18..22], &2_i32.to_le_bytes());
    assert_eq!(&bytes[22..26], &0_i32.to_le_bytes());
    assert_eq!(&bytes[34..38], &0_u32.to_le_bytes());
}

#[test]
fn the_receivers_window_is_known_by_its_title() {
    assert!(is_receiver_window(true, true, "Direct3D11 Renderer"));
    assert!(is_receiver_window(true, true, "screen-mirror Receiver"));
    assert!(!is_receiver_window(true, true, "Notepad"));
    assert!(!is_receiver_window(false, true, "renderer"));
    assert!(!is_receiver_window(true, false, "renderer"));
}

#[test]
fn statistics_lie_over_the_current_renderer() {
    assert_eq!(overlay_action(true, Some(1), None), OverlayAction::Create);
    assert_eq!(overlay_action(true, Some(1), Some(1)), OverlayAction::Keep);
    assert_eq!(overlay_action(true, Some(2), Some(1)), OverlayAction::Recreate);
    assert_eq!(overlay_action(true, None, Some(1)), OverlayAction::Destroy);
    assert_eq!(overlay_action(false, Some(1), Some(1)), OverlayAction::Destroy);
    assert_eq!(overlay_action(false, Some(1), None), OverlayAction::Nothing);
    assert_eq!(overlay_size(100, 1_000), (280, 120));
    assert_eq!(overlay_size(1_000, 90), (420, 90));
}

#[test]
fn flow_and_surface_make_a_verdict() {
    assert_eq!(stream_flow(false, Some(0), true), StreamFlow::Unknown);
    assert_eq!(stream_flow(true, None, true), StreamFlow::Stale);
    assert_eq!(stream_flow(true, Some(1_501), true), StreamFlow::Stale);
    assert_eq!(stream_flow(true, Some(1_500), false), StreamFlow::Silent);
    assert_eq!(stream_flow(true, Some(1_500), true), StreamFlow::Active);
    assert_eq!(StreamFlow::Silent.name(), "none");
    for (flow, surface, changed, name) in [
        (StreamFlow::Stale, Surface::White, true, "blank-white-no-frame"),
        (StreamFlow::Silent, Surface::Black, false, "blank-black-no-frame"),
        (StreamFlow::Stale, Surface::Mixed, false, "stale-frame-no-frame"),
        (StreamFlow::Active, Surface::White, false, "white-frame-or-renderer"),
        (StreamFlow::Unknown, Surface::Black, true, "black-frame-or-renderer"),
        (StreamFlow::Active, Surface::Mixed, false, "rendered"),
        (StreamFlow::Stale, Surface::Mixed, true, "rendered"),
    ] {
        assert_eq!(judge(flow, surface, changed).name(), name);
    }
}

#[test]
fn the_probe_keeps_an_anomaly_once_and_reports_what_is_new() {
    let mut state = VisualCaptureState::new();
    assert!(state.take_due(0));
    assert!(!state.take_due(999));
    assert!(state.take_due(1_000));
    let seen = state.observe(7, Surface::White, StreamFlow::Stale);
    assert!(seen.changed && seen.save_anomaly);
    assert_eq!(seen.verdict, Verdict::BlankWhiteNoFrame);
    assert_eq!(
        state.conclude(1_000, seen, Some("a.bmp".to_string())),
        Some("a.bmp".to_string())
    );
    let seen = state.observe(7, Surface::White, StreamFlow::Stale);
    assert!(!seen.changed && !seen.save_anomaly);
    assert_eq!(
        state.conclude(2_000, seen, None),
        Some("a.bmp".to_string())
    );
    let seen = state.observe(7, Surface::White, StreamFlow::Stale);
    assert_eq!(state.conclude(3_000, seen, None), None);
    assert_eq!(
        state.conclude(7_000, seen, None),
        Some("a.bmp".to_string())
    );
    let seen = state.observe(8, Surface::Mixed, StreamFlow::Active);
    assert_eq!(state.conclude(7_100, seen, None), Some(String::new()));
    assert!(!state.capture_failed(7_200));
    assert!(state.capture_failed(12_100));
}
