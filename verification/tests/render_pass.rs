//! Post-processing pipeline and the box blur.
use goud_engine::render_pass::{box_blur_rgba, GaussianBlurPass, PostProcessPipeline, RenderPass};

#[test]
fn test_postprocess_pipeline_add_and_remove() {
    let mut pipeline = PostProcessPipeline::new();
    assert_eq!(pipeline.pass_count(), 0);
    pipeline.add_pass(Box::new(GaussianBlurPass::default()));
    assert_eq!(pipeline.pass_count(), 1);
    assert!(pipeline.remove_pass(0));
    assert_eq!(pipeline.pass_count(), 0);
    assert!(!pipeline.remove_pass(0));
}

#[test]
fn pipeline_runs_enabled_blur() {
    let mut pipeline = PostProcessPipeline::new();
    pipeline.add_pass(Box::new(GaussianBlurPass::default()));
    // 3x3 image: a single bright center pixel is averaged over its block.
    let mut data = vec![0u8; 36];
    data[16] = 90;
    data[17] = 180;
    data[18] = 255;
    data[19] = 7;
    pipeline.run(3, 3, &mut data);
    assert_eq!(&data[16..20], &[10, 20, 28, 7]);
}

#[test]
fn pipeline_skips_disabled_pass() {
    let mut pipeline = PostProcessPipeline::default();
    pipeline.add_pass(Box::new(GaussianBlurPass { radius: 2, enabled: false }));
    let mut data: Vec<u8> = (0..36).map(|i| (i * 7) as u8).collect();
    let before = data.clone();
    pipeline.run(3, 3, &mut data);
    assert_eq!(data, before);
}

#[test]
fn gaussian_blur_pass_defaults_and_name() {
    let pass = GaussianBlurPass::default();
    assert_eq!(pass.radius, 2);
    assert!(pass.enabled);
    assert_eq!(pass.name(), "GaussianBlur");
    assert!(pass.enabled());
}

#[test]
fn box_blur_keeps_border_and_alpha() {
    let w = 4u32;
    let h = 3u32;
    let data: Vec<u8> = (0..(w * h * 4)).map(|i| (i % 251) as u8).collect();
    let out = box_blur_rgba(&data, w, h);
    assert_eq!(out.len(), data.len());
    for y in 0..h as usize {
        for x in 0..w as usize {
            for c in 0..4usize {
                let i = (y * w as usize + x) * 4 + c;
                let interior = x >= 1 && x + 1 < w as usize && y >= 1 && y + 1 < h as usize && c < 3;
                if interior {
                    let mut sum = 0u32;
                    for dy in 0..3 {
                        for dx in 0..3 {
                            sum += data[((y + dy - 1) * w as usize + (x + dx - 1)) * 4 + c] as u32;
                        }
                    }
                    assert_eq!(out[i] as u32, sum / 9);
                } else {
                    assert_eq!(out[i], data[i]);
                }
            }
        }
    }
}

#[test]
fn box_blur_leaves_tiny_images_unchanged() {
    let data = vec![1u8, 2, 3, 4, 5, 6, 7, 8];
    assert_eq!(box_blur_rgba(&data, 2, 1), data);
    assert_eq!(box_blur_rgba(&[], 0, 0), Vec::<u8>::new());
}

#[test]
fn box_blur_of_uniform_image_is_identity() {
    let data = vec![77u8; 5 * 4 * 4];
    assert_eq!(box_blur_rgba(&data, 5, 4), data);
}

#[test]
fn disabled_pass_accepts_a_short_buffer() {
    let mut pipeline = PostProcessPipeline::new();
    pipeline.add_pass(Box::new(GaussianBlurPass { radius: 1, enabled: false }));
    let mut data = vec![9u8; 5];
    pipeline.run(4, 4, &mut data);
    assert_eq!(data, vec![9u8; 5]);
}
