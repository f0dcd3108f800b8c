use fractals::{
    bytes_eq, duration_str, metadata_path, bin_path, plan_render, FractalCfg, FractalError,
    RenderPlan,
};

#[test]
fn default_config_values() {
    let c = FractalCfg::default();
    assert_eq!(c.width, 800);
    assert_eq!(c.height, 800);
    assert_eq!(c.max_iterations, 256);
    assert_eq!(c.center_r, 0.0f64.to_bits());
    assert_eq!(c.center_i, 0.0f64.to_bits());
    assert_eq!(c.zoom, 1.0f64.to_bits());
    assert_eq!(c.cr, 0.0f64.to_bits());
    assert_eq!(c.ci, 0.0f64.to_bits());
    assert_eq!(c.multiplier, 1.0f64.to_bits());
    assert!(!c.julia);
    assert_eq!(c.offset, 0.0f64.to_bits());
    assert_eq!(c.colormap, "hot");
    assert!(!c.downsample);
}

#[test]
fn matching_fingerprint_skips() {
    let cfg = FractalCfg::default();
    let fp: Vec<u8> = b"{\"width\":800}".to_vec();
    let prev = fp.clone();
    assert_eq!(plan_render(&cfg, Some(&prev), &fp), Ok(RenderPlan::Skip));
}

#[test]
fn changed_fingerprint_renders() {
    let cfg = FractalCfg::default();
    let fp: Vec<u8> = b"new".to_vec();
    let prev: Vec<u8> = b"old".to_vec();
    assert_eq!(
        plan_render(&cfg, Some(&prev), &fp),
        Ok(RenderPlan::Render { width: 800, height: 800 })
    );
}

#[test]
fn missing_fingerprint_renders() {
    let cfg = FractalCfg::default();
    let fp: Vec<u8> = b"new".to_vec();
    assert_eq!(
        plan_render(&cfg, None, &fp),
        Ok(RenderPlan::Render { width: 800, height: 800 })
    );
}

#[test]
fn bad_width_is_configuration_error() {
    let mut cfg = FractalCfg::default();
    cfg.width = 10;
    let fp: Vec<u8> = b"new".to_vec();
    assert_eq!(plan_render(&cfg, None, &fp), Err(FractalError::Configuration));
}

#[test]
fn cache_hit_wins_over_bad_width() {
    let mut cfg = FractalCfg::default();
    cfg.width = 10;
    let fp: Vec<u8> = b"same".to_vec();
    let prev = fp.clone();
    assert_eq!(plan_render(&cfg, Some(&prev), &fp), Ok(RenderPlan::Skip));
}

#[test]
fn supersampling_doubles_kernel_dimensions() {
    let mut cfg = FractalCfg::default();
    cfg.width = 640;
    cfg.height = 480;
    cfg.downsample = true;
    let fp: Vec<u8> = b"new".to_vec();
    assert_eq!(
        plan_render(&cfg, None, &fp),
        Ok(RenderPlan::Render { width: 1280, height: 960 })
    );
}

#[test]
fn supersampling_overflow_is_configuration_error() {
    let mut cfg = FractalCfg::default();
    cfg.width = 2_200_000_000;
    cfg.height = 800;
    cfg.downsample = true;
    assert_eq!(cfg.width % 8, 0);
    let fp: Vec<u8> = b"new".to_vec();
    assert_eq!(plan_render(&cfg, None, &fp), Err(FractalError::Configuration));
}

#[test]
fn byte_buffer_equality() {
    assert!(bytes_eq(&vec![1, 2, 3], &vec![1, 2, 3]));
    assert!(!bytes_eq(&vec![1, 2, 3], &vec![1, 2, 4]));
    assert!(!bytes_eq(&vec![1, 2, 3], &vec![1, 2]));
    assert!(bytes_eq(&Vec::new(), &Vec::new()));
}

#[test]
fn sidecar_paths() {
    assert_eq!(metadata_path("out.png"), "out.png.json");
    assert_eq!(bin_path("out.png"), "out.png.bin");
    assert_eq!(metadata_path("frames/frame_3.png"), "frames/frame_3.png.json");
}

#[test]
fn duration_strings() {
    assert_eq!(duration_str(0, 0), "0");
    assert_eq!(duration_str(2, 0), "2");
    assert_eq!(duration_str(1, 500_000_000), "1.5");
    assert_eq!(duration_str(0, 100_000_000), "0.1");
    assert_eq!(duration_str(0, 123), "0.000000123");
    assert_eq!(duration_str(12, 345_678_900), "12.3456789");
    assert_eq!(duration_str(3, 999_999_999), "3.999999999");
}
