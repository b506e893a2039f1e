use imq::gpu::comparison::{
    batch_pair_failure, check_windowed_ssim_rgba8, compare_many_rgba8, compare_rgba8,
    error_sums_from_partials, error_sums_of_batch, windowed_ssim_comparison, ChannelGroupSums,
    CodeErrors, GroupSums, KernelBatch, KernelSums, WindowSummary,
};
use imq::gpu::{
    cpu_error_sums_rgba8, GpuExecution, GpuFallbackPolicy, GpuWindowedSsimOptions, WORKGROUP_SIZE,
};
use imq::metrics::Score;
use imq::{Error, FrameOwned, PixelFormat};

fn score(value: f64) -> Score {
    Score::from_bits(value.to_bits())
}

fn frame(width: u32, seed: usize) -> FrameOwned {
    let data = (0..width as usize * 4)
        .map(|index| ((index * 37 + seed * 11 + index / 7 * seed) % 256) as u8)
        .collect();
    FrameOwned::packed_tight(data, width, 1, PixelFormat::Rgba8).unwrap()
}

fn group(a: &[u8], b: &[u8]) -> GroupSums {
    let channel = |channel: usize| {
        let mut sums = ChannelGroupSums {
            squared: 0,
            absolute: 0,
            largest: 0,
        };
        for pixel in 0..a.len() / 4 {
            let delta = a[4 * pixel + channel].abs_diff(b[4 * pixel + channel]);
            sums.squared += u32::from(delta) * u32::from(delta);
            sums.absolute += u32::from(delta);
            sums.largest = sums.largest.max(delta);
        }
        sums
    };
    GroupSums {
        red: channel(0),
        green: channel(1),
        blue: channel(2),
        alpha: channel(3),
    }
}

fn groups_of(a: &FrameOwned, b: &FrameOwned) -> Vec<GroupSums> {
    let size = WORKGROUP_SIZE as usize * 4;
    a.owned_planes()[0]
        .data
        .chunks(size)
        .zip(b.owned_planes()[0].data.chunks(size))
        .map(|(a, b)| group(a, b))
        .collect()
}

#[test]
fn group_sums_merge_into_frame_sums() {
    let (a, b, c) = (frame(600, 1), frame(600, 2), frame(600, 3));
    let groups = groups_of(&a, &b);
    assert_eq!(groups.len(), 3);
    let cpu = cpu_error_sums_rgba8(&a.as_view(), &b.as_view()).unwrap();
    assert_eq!(error_sums_from_partials(&groups, 600), cpu);
    let mut batch = groups;
    batch.extend(groups_of(&a, &c));
    let sums = error_sums_of_batch(&batch, 3, 600);
    assert_eq!(sums.len(), 2);
    assert_eq!(sums[0], cpu);
    assert_eq!(
        sums[1],
        cpu_error_sums_rgba8(&a.as_view(), &c.as_view()).unwrap()
    );
}

#[test]
fn comparisons_fall_back_to_the_cpu() {
    let (a, b) = (frame(5, 1), frame(5, 2));
    let (reference, distorted) = (a.as_view(), b.as_view());
    let cpu = cpu_error_sums_rgba8(&reference, &distorted).unwrap();
    let missing = KernelSums::Unavailable(Some("test adapter unavailable".to_string()));
    let compared =
        compare_rgba8(&reference, &distorted, GpuFallbackPolicy::default(), missing).unwrap();
    assert_eq!(compared.execution, GpuExecution::CpuFallback);
    assert_eq!(compared.error_sums, cpu);
    assert_eq!(
        compared.fallback_reason.as_deref(),
        Some("test adapter unavailable")
    );
    let failed = || KernelSums::Failed(Error::Gpu("lost".to_string()));
    let compared =
        compare_rgba8(&reference, &distorted, GpuFallbackPolicy::AnyGpuError, failed()).unwrap();
    assert_eq!(
        compared.fallback_reason,
        Some(Error::Gpu("lost".to_string()).message())
    );
    assert!(matches!(
        compare_rgba8(&reference, &distorted, GpuFallbackPolicy::InitializationOnly, failed()),
        Err(Error::Gpu(_))
    ));
    let computed = KernelSums::Computed(cpu);
    let compared =
        compare_rgba8(&reference, &distorted, GpuFallbackPolicy::Never, computed).unwrap();
    assert_eq!(compared.execution, GpuExecution::Gpu);
    let other = frame(6, 1);
    let missing = KernelSums::Unavailable(None);
    assert!(matches!(
        compare_rgba8(&reference, &other.as_view(), GpuFallbackPolicy::Never, missing),
        Err(Error::IncompatibleFrames(_))
    ));
}

#[test]
fn batches_keep_their_order() {
    let (a, b, c) = (frame(5, 1), frame(5, 2), frame(5, 3));
    let (reference, first, second) = (a.as_view(), b.as_view(), c.as_view());
    let candidates = vec![&first, &second];
    let compared = compare_many_rgba8(
        &reference,
        &candidates,
        GpuFallbackPolicy::AnyGpuError,
        KernelBatch::Failed(Error::Gpu("lost".to_string())),
    )
    .unwrap();
    assert_eq!(compared.len(), 2);
    let sums = compared.iter().map(|one| one.error_sums).collect::<Vec<_>>();
    assert_eq!(sums[1], cpu_error_sums_rgba8(&reference, &second).unwrap());
    let compared = compare_many_rgba8(
        &reference,
        &candidates,
        GpuFallbackPolicy::Never,
        KernelBatch::Computed(sums.clone()),
    )
    .unwrap();
    assert_eq!(compared[0].error_sums, sums[0]);
    assert_eq!(compared[0].execution, GpuExecution::Gpu);
    let wrong = frame(6, 1);
    let wrong_view = wrong.as_view();
    let mixed = compare_many_rgba8(
        &reference,
        &vec![&first, &wrong_view],
        GpuFallbackPolicy::Never,
        KernelBatch::Unavailable(None),
    );
    assert!(matches!(mixed, Err(Error::IncompatibleFrames(_))));
    let none = compare_many_rgba8(
        &reference,
        &vec![],
        GpuFallbackPolicy::Never,
        KernelBatch::Unavailable(None),
    );
    assert!(none.unwrap().is_empty());
    let failure = batch_pair_failure(3, &Error::Gpu("lost".to_string()));
    assert!(failure.message().contains("RGBA8 batch pair 3 failed: "));
}

#[test]
fn kernel_metrics_carry_their_details() {
    let output = CodeErrors {
        mse: score(35.0),
        mse_red: score(13.0),
        mse_green: score(14.5),
        mse_blue: score(54.5),
        mse_alpha: score(58.0),
        mae: score(5.0),
        max_abs: score(10.0),
        pixels: score(2.0),
    }
    .into_metric_output();
    assert_eq!(output.name, "gpu_mse_rgba8");
    assert_eq!(output.score, score(35.0));
    assert_eq!(output.details.len(), 7);
    assert_eq!(output.details.get("mse_g"), Some(score(14.5)));
    let output = WindowSummary {
        mean: score(0.9),
        windows: score(4.0),
        samples: score(256.0),
        window_width: score(8.0),
        window_height: score(8.0),
        stride_x: score(8.0),
        stride_y: score(8.0),
        mean_contrast_structure: score(0.95),
        smallest: score(0.8),
        largest: score(1.0),
    }
    .into_metric_output();
    assert_eq!(output.details.get("windows"), Some(score(4.0)));
    assert_eq!(output.details.get("min_window_ssim"), Some(score(0.8)));
    let compared = windowed_ssim_comparison(output, GpuExecution::Gpu, None);
    assert_eq!(compared.metric.name, "wssim");
    assert_eq!(compared.metric.score, score(0.9));
}

#[test]
fn windowed_inputs_are_checked() {
    let a = frame(5, 1);
    let view = a.as_view();
    let options = GpuWindowedSsimOptions::default();
    assert!(check_windowed_ssim_rgba8(&view, &view, options).is_ok());
    let options = GpuWindowedSsimOptions {
        stride_x: 0,
        ..options
    };
    assert!(check_windowed_ssim_rgba8(&view, &view, options).is_err());
}
