use imq::cli::gpu::{
    gpu_context_options, parse_gpu_metrics, plan_gpu_compare, GpuAdapterArgs, GpuDomainArg,
    GpuFallbackArg, GpuPowerArg,
};
use imq::gpu::{
    batch_working_set_bytes, capabilities_from_adapter, cpu_error_sums_rgba8,
    ensure_gpu_wssim_workload, normalized_metric_outputs_in_domain, rgba8_bytes,
    validate_rgba8_pair, validate_windowed_ssim_options, window_axis_count, GpuAdapterFacts,
    GpuAttempt, GpuContextOptions, GpuErrorDomain, GpuErrorMetric, GpuExecution,
    GpuFallbackPolicy, GpuLimits, GpuNextStep, GpuPowerPreference, GpuWindowedSsimOptions,
    NormalizedErrors, MAX_GPU_BATCH_WORKING_SET_BYTES, MAX_GPU_WSSIM_TOTAL_SAMPLE_VISITS,
    WORKGROUP_SIZE,
};
use imq::metrics::Score;
use imq::{Error, FrameOwned, PixelFormat};

fn score(value: f64) -> Score {
    Score::from_bits(value.to_bits())
}

fn known_pair() -> (FrameOwned, FrameOwned) {
    let reference = FrameOwned::packed_tight(
        vec![0, 10, 20, 30, 255, 250, 240, 230],
        2,
        1,
        PixelFormat::Rgba8,
    )
    .unwrap();
    let distorted = FrameOwned::packed_tight(
        vec![1, 8, 23, 26, 250, 255, 230, 240],
        2,
        1,
        PixelFormat::Rgba8,
    )
    .unwrap();
    (reference, distorted)
}

fn limits() -> GpuLimits {
    GpuLimits {
        max_buffer_size: 1 << 28,
        max_storage_buffer_binding_size: 1 << 27,
        max_compute_workgroups_per_dimension: 65535,
    }
}

#[test]
fn gpu_workload_safety_limits_reject_adversarial_layouts() {
    let options = GpuWindowedSsimOptions {
        window_width: 0,
        ..GpuWindowedSsimOptions::default()
    };
    assert!(validate_windowed_ssim_options(options).is_err());
    let options = GpuWindowedSsimOptions {
        stride_y: 0,
        ..GpuWindowedSsimOptions::default()
    };
    assert!(validate_windowed_ssim_options(options).is_err());

    assert!(ensure_gpu_wssim_workload(1024, 1024, 1).is_ok());
    let per_invocation = ensure_gpu_wssim_workload(1025, 1024, 1)
        .unwrap_err()
        .message();
    assert!(per_invocation.contains("per-invocation safety cap"));
    let excessive_windows = usize::try_from(MAX_GPU_WSSIM_TOTAL_SAMPLE_VISITS / 64 + 1).unwrap();
    let aggregate = ensure_gpu_wssim_workload(8, 8, excessive_windows)
        .unwrap_err()
        .message();
    assert!(aggregate.contains("GPU work safety cap"));

    assert_eq!(batch_working_set_bytes(16, 32, 48), Some(144));
    assert!(batch_working_set_bytes(u64::MAX, 1, 1).is_none());
    let over_cap =
        batch_working_set_bytes(4 * 1024 * 1024, 255 * 1024 * 1024, 4 * 1024 * 1024).unwrap();
    assert!(over_cap > MAX_GPU_BATCH_WORKING_SET_BYTES);
}

#[test]
fn cpu_fallback_stats_are_exact_and_multi_metric_projection_is_ordered() {
    let (reference, distorted) = known_pair();
    let sums = cpu_error_sums_rgba8(&reference.as_view(), &distorted.as_view()).unwrap();
    let channels = [sums.red, sums.green, sums.blue, sums.alpha];
    let pixels = sums.pixels as f64;
    assert_eq!(sums.pixels, 2);
    let mse = channels.map(|channel| channel.squared as f64 / pixels);
    assert_eq!(mse, [13.0, 14.5, 54.5, 58.0]);
    assert_eq!(mse.iter().sum::<f64>() / 4.0, 35.0);
    let mae = channels.map(|channel| channel.absolute as f64 / pixels);
    assert_eq!(mae, [3.0, 3.5, 6.5, 7.0]);
    assert_eq!(mae.iter().sum::<f64>() / 4.0, 5.0);
    let largest = channels.map(|channel| f64::from(channel.largest));
    assert_eq!(largest, [5.0, 5.0, 10.0, 10.0]);

    let normalized = |channels: f64, mse: f64| NormalizedErrors {
        mse: score(mse / (255.0 * 255.0)),
        rmse: score(mse.sqrt() / 255.0),
        psnr: score(10.0 * (255.0 * 255.0 / mse).log10()),
        mae: score(5.0 / 255.0),
        max_abs: score(10.0 / 255.0),
        pixels: score(2.0),
        samples: score(2.0 * channels),
        channels: score(channels),
    };
    let outputs = normalized_metric_outputs_in_domain(
        &vec![
            GpuErrorMetric::Psnr,
            GpuErrorMetric::Mae,
            GpuErrorMetric::Mse,
        ],
        GpuErrorDomain::All,
        &normalized(4.0, 35.0),
    );
    assert_eq!(
        outputs
            .iter()
            .map(|output| output.name.as_str())
            .collect::<Vec<_>>(),
        ["psnr:all", "mae:all", "mse:all"]
    );
    assert_eq!(outputs[0].details.get("samples"), Some(score(8.0)));
    assert_eq!(outputs[0].details.get("channels"), Some(score(4.0)));
    let color_outputs = normalized_metric_outputs_in_domain(
        &GpuErrorMetric::all(),
        GpuErrorDomain::Color,
        &normalized(3.0, (13.0 + 14.5 + 54.5) / 3.0),
    );
    assert_eq!(color_outputs[0].name, "mse:color");
    assert_eq!(color_outputs[0].details.get("samples"), Some(score(6.0)));
    assert_eq!(color_outputs[0].details.get("channels"), Some(score(3.0)));
    let value = f64::from_bits(color_outputs[0].score.bits);
    assert!((value - (82.0 / 3.0) / (255.0 * 255.0)).abs() < 1e-12);

    let step = GpuFallbackPolicy::default().next_step(GpuAttempt::Unavailable(Some(
        "test adapter unavailable".to_string(),
    )));
    assert_eq!(step.execution(), Some(GpuExecution::CpuFallback));
    assert!(matches!(
        step,
        GpuNextStep::RunCpu(Some(ref reason)) if reason == "test adapter unavailable"
    ));
    let invalid_options = GpuWindowedSsimOptions {
        stride_x: 0,
        ..GpuWindowedSsimOptions::default()
    };
    assert!(validate_windowed_ssim_options(invalid_options).is_err());
}

#[test]
fn strided_frames_give_the_sums_of_tight_ones() {
    let width = 19usize;
    let height = 17usize;
    let stride = width * 4 + 12;
    let mut reference_bytes = vec![0u8; stride * height];
    let mut distorted_bytes = vec![0u8; stride * height];
    for y in 0..height {
        for x in 0..width {
            for channel in 0..4 {
                let offset = y * stride + x * 4 + channel;
                let value = ((x * 17 + y * 13 + channel * 47) % 256) as u8;
                reference_bytes[offset] = value;
                distorted_bytes[offset] = value.saturating_add(((x + y + channel) % 7) as u8);
            }
        }
    }
    let frame = |bytes: Vec<u8>| {
        FrameOwned::packed(bytes, width as u32, height as u32, PixelFormat::Rgba8, stride).unwrap()
    };
    let reference = frame(reference_bytes);
    let distorted = frame(distorted_bytes);
    let strided = cpu_error_sums_rgba8(&reference.as_view(), &distorted.as_view()).unwrap();
    let a = reference.to_tightly_packed().unwrap();
    let b = distorted.to_tightly_packed().unwrap();
    let tight = cpu_error_sums_rgba8(&a.as_view(), &b.as_view()).unwrap();
    assert_eq!(strided, tight);
    let mirrored = cpu_error_sums_rgba8(&b.as_view(), &a.as_view()).unwrap();
    assert_eq!(mirrored, tight);
    let same = cpu_error_sums_rgba8(&a.as_view(), &a.as_view()).unwrap();
    assert_eq!(same.red.squared, 0);
    assert_eq!(same.alpha.largest, 0);
    assert_eq!(rgba8_bytes(&reference.as_view()).unwrap(), a.owned_planes()[0].data);
}

#[test]
fn dispatches_split_over_two_dimensions() {
    let limits = GpuLimits {
        max_compute_workgroups_per_dimension: 10,
        ..limits()
    };
    assert_eq!(
        limits.dispatch_dimensions("test", 11 * WORKGROUP_SIZE).unwrap(),
        (11, 10, 2)
    );
    assert_eq!(limits.dispatch_dimensions("test", 1).unwrap(), (1, 1, 1));
    assert!(matches!(
        limits.dispatch_dimensions("test", 101 * WORKGROUP_SIZE),
        Err(Error::UnsupportedInput(_))
    ));
}

#[test]
fn plans_count_pixels_and_windows() {
    let (reference, distorted) = known_pair();
    let plan = limits()
        .plan_error_stats(&reference.as_view(), &distorted.as_view())
        .unwrap();
    assert_eq!(plan.pixels, 2);
    assert_eq!(plan.input_bytes, 8);
    assert_eq!((plan.groups, plan.partial_bytes), (1, 48));
    let reference_view = reference.as_view();
    let distorted_view = distorted.as_view();
    let many = limits()
        .plan_error_stats_many(&reference_view, &vec![&distorted_view, &reference_view])
        .unwrap()
        .unwrap();
    assert_eq!(many.candidates, 2);
    assert_eq!(many.candidate_bytes, 16);
    let frame = FrameOwned::packed_tight(vec![0; 16 * 16 * 4], 16, 16, PixelFormat::Rgba8).unwrap();
    let plan = limits()
        .plan_windowed_ssim(
            &frame.as_view(),
            &frame.as_view(),
            GpuWindowedSsimOptions::default(),
        )
        .unwrap();
    assert_eq!(plan.window_count, 4);
    assert_eq!(plan.output_bytes, 64);
    assert_eq!(window_axis_count(16, 8, 8), 2);
    assert_eq!(window_axis_count(17, 8, 8), 3);
    assert_eq!(window_axis_count(5, 8, 8), 1);
    assert_eq!(limits().chunk_lengths(2, 3).unwrap(), [3]);
    let error = limits().chunk_lengths(0, 3).unwrap_err();
    assert!(error.message().contains("cannot fit a 0-pixel candidate on this adapter"));
}

#[test]
fn pairs_must_match() {
    let (reference, _) = known_pair();
    let other = FrameOwned::packed_tight(vec![0; 4], 1, 1, PixelFormat::Rgba8).unwrap();
    let error = validate_rgba8_pair(&reference.as_view(), &other.as_view()).unwrap_err();
    assert!(matches!(error, Error::IncompatibleFrames(_)));
    let gray = FrameOwned::packed_tight(vec![0; 2], 2, 1, PixelFormat::Luma8).unwrap();
    let error = validate_rgba8_pair(&reference.as_view(), &gray.as_view()).unwrap_err();
    assert!(matches!(error, Error::UnsupportedInput(_)));
}

#[test]
fn fallback_follows_the_policy() {
    let failed = || GpuAttempt::Failed("lost".to_string());
    assert!(matches!(GpuFallbackPolicy::Never.next_step(failed()), GpuNextStep::Fail));
    assert!(matches!(
        GpuFallbackPolicy::InitializationOnly.next_step(failed()),
        GpuNextStep::Fail
    ));
    assert!(matches!(
        GpuFallbackPolicy::AnyGpuError.next_step(failed()),
        GpuNextStep::RunCpu(Some(_))
    ));
    let step = GpuFallbackPolicy::Never.next_step(GpuAttempt::Succeeded);
    assert_eq!(step.execution(), Some(GpuExecution::Gpu));
    assert!(!GpuFallbackPolicy::Never.keeps_initialization_failure());
    assert!(GpuFallbackPolicy::InitializationOnly.keeps_initialization_failure());
}

#[test]
fn capabilities_come_from_the_limits() {
    let facts = GpuAdapterFacts {
        name: "adapter".to_string(),
        backend: "Vulkan".to_string(),
        device_type: "Cpu".to_string(),
        driver: "d".to_string(),
        driver_info: "i".to_string(),
        vendor: 1,
        device: 2,
    };
    let capabilities = capabilities_from_adapter(facts, limits(), GpuContextOptions::default());
    assert_eq!(capabilities.adapter_name, "adapter");
    assert_eq!(capabilities.max_rgba8_input_pixels, (1 << 27) / 4);
    assert_eq!(capabilities.max_windowed_ssim_windows, (1 << 27) / 16);
    assert!(!capabilities.fallback_adapter);
}

#[test]
fn metrics_are_named_by_domain() {
    assert_eq!(
        GpuErrorMetric::MaxAbsoluteError.output_name(GpuErrorDomain::Color),
        "maxae:color"
    );
    assert_eq!(GpuErrorMetric::Psnr.unit(), "dB");
    assert_eq!(GpuErrorDomain::All.channels(), 4);
    assert_eq!(GpuErrorMetric::all().len(), 5);
}

#[test]
fn parses_gpu_error_and_window_metrics() {
    let (metrics, wssim) = parse_gpu_metrics("psnr,maxae,wssim").unwrap();
    assert_eq!(
        metrics,
        vec![GpuErrorMetric::Psnr, GpuErrorMetric::MaxAbsoluteError]
    );
    assert!(wssim);

    let (metrics, wssim) = parse_gpu_metrics("wssim").unwrap();
    assert!(metrics.is_empty());
    assert!(wssim);
    assert!(parse_gpu_metrics("ssim").is_err());
}

#[test]
fn gpu_requests_are_planned() {
    let adapter = GpuAdapterArgs {
        power: GpuPowerArg::Low,
        fallback_adapter: true,
    };
    let options = gpu_context_options(&adapter);
    assert_eq!(options.power_preference, GpuPowerPreference::LowPower);
    assert!(options.force_fallback_adapter);
    let plan = plan_gpu_compare(
        "mse,wssim",
        &adapter,
        GpuFallbackArg::Any,
        GpuDomainArg::Color,
        8,
        4,
    )
    .unwrap();
    assert_eq!(plan.error_metrics, [GpuErrorMetric::Mse]);
    assert_eq!(plan.domain, GpuErrorDomain::Color);
    assert_eq!(plan.windows.unwrap().stride_x, 4);
    assert!(matches!(plan.options.fallback, GpuFallbackPolicy::AnyGpuError));
}
