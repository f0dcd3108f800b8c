use fractals::animation::{ffmpeg_args, frame_filename, frame_descriptors, points_from_lines};
use fractals::{FractalCfg, FractalError};

fn lines(v: &[&str]) -> Vec<String> {
    v.iter().map(|s| s.to_string()).collect()
}

#[test]
fn frame_filenames_by_index() {
    assert_eq!(frame_filename(0), "frame_0.png");
    assert_eq!(frame_filename(3), "frame_3.png");
    assert_eq!(frame_filename(31), "frame_31.png");
    assert_eq!(frame_filename(299), "frame_299.png");
}

#[test]
fn four_frames_are_named_in_index_order() {
    let mut cfg = FractalCfg::default();
    cfg.julia = true;
    let points: Vec<(u64, u64)> = (0..4)
        .map(|i| (f64::to_bits(0.285 + i as f64 * 0.001), f64::to_bits(0.01)))
        .collect();
    let frames = frame_descriptors(&cfg, &points);
    assert_eq!(frames.len(), 4);
    let names: Vec<&str> = frames.iter().map(|f| f.filename.as_str()).collect();
    assert_eq!(names, vec!["frame_0.png", "frame_1.png", "frame_2.png", "frame_3.png"]);
    for (i, f) in frames.iter().enumerate() {
        assert_eq!(f.index as usize, i);
    }
}

#[test]
fn frame_configs_vary_only_the_julia_constant() {
    let mut cfg = FractalCfg::default();
    cfg.julia = true;
    cfg.colormap = "cosine".to_string();
    let points = vec![
        (f64::to_bits(0.285), f64::to_bits(0.01)),
        (f64::to_bits(-0.4), f64::to_bits(0.6)),
    ];
    let frames = frame_descriptors(&cfg, &points);
    for (i, f) in frames.iter().enumerate() {
        assert_eq!(f.cfg.cr, points[i].0);
        assert_eq!(f.cfg.ci, points[i].1);
        assert_eq!(f.cfg.width, cfg.width);
        assert_eq!(f.cfg.height, cfg.height);
        assert_eq!(f.cfg.max_iterations, cfg.max_iterations);
        assert_eq!(f.cfg.center_r, cfg.center_r);
        assert_eq!(f.cfg.center_i, cfg.center_i);
        assert_eq!(f.cfg.zoom, cfg.zoom);
        assert_eq!(f.cfg.multiplier, cfg.multiplier);
        assert_eq!(f.cfg.julia, cfg.julia);
        assert_eq!(f.cfg.offset, cfg.offset);
        assert_eq!(f.cfg.colormap, cfg.colormap);
        assert_eq!(f.cfg.downsample, cfg.downsample);
    }
}

#[test]
fn encoder_argument_template() {
    let args = ffmpeg_args("frames");
    assert_eq!(
        args,
        vec!["-framerate", "60", "-y", "-i", "frames/frame_%d.png", "frames.mp4"]
    );
}

#[test]
fn points_file_skips_comments() {
    let pts = points_from_lines(&lines(&[
        "# circle around the seed",
        "0.285 0.01",
        "0.286 0.011 trailing words are kept out",
        "-0.4 0.6",
    ]))
    .expect("well-formed points");
    assert_eq!(pts.len(), 3);
    assert_eq!(pts[0], ("0.285".to_string(), "0.01".to_string()));
    assert_eq!(pts[1], ("0.286".to_string(), "0.011".to_string()));
    assert_eq!(pts[2], ("-0.4".to_string(), "0.6".to_string()));
}

#[test]
fn points_file_rejects_short_line() {
    assert!(matches!(
        points_from_lines(&lines(&["0.285 0.01", "0.5"])),
        Err(FractalError::Parse)
    ));
}
