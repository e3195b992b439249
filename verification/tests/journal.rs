use benilla::journal::{
    cpu_bucket, gpu_bucket, journal_switch, per_frame, preamble, AdapterFacts, DeviceFeatures,
    GpuBucket, JournalSwitch, GPU_BUCKETS,
};

#[test]
fn buckets_name_every_pass_we_draw_and_skip_what_is_not_a_gpu_span() {
    let b = |p: &str| gpu_bucket(p);
    assert_eq!(b("render/main_opaque_pass_3d/elapsed_gpu"), Some(GpuBucket::Opaque));
    assert_eq!(b("render/static_gx/elapsed_gpu"), Some(GpuBucket::Static));
    assert_eq!(
        b("render/main_transparent_pass_3d/elapsed_gpu"),
        Some(GpuBucket::Transparent)
    );
    assert_eq!(b("render/ffx_glow_gauss_h/elapsed_gpu"), Some(GpuBucket::Glow));
    assert_eq!(b("render/ffx_glow_combine/elapsed_gpu"), Some(GpuBucket::Glow));
    assert_eq!(b("render/tonemapping/elapsed_gpu"), Some(GpuBucket::Post));
    assert_eq!(b("render/upscaling/elapsed_gpu"), Some(GpuBucket::Post));
    assert_eq!(b("render/ui/elapsed_gpu"), Some(GpuBucket::Ui));
    assert_eq!(b("render/ui_gamma_decode/elapsed_gpu"), Some(GpuBucket::Ui));
    assert_eq!(b("render/main_transparent_pass_2d/elapsed_gpu"), Some(GpuBucket::Ui));
    // Unnamed passes are counted, not dropped.
    assert_eq!(
        b("render/early_mesh_preprocessing/elapsed_gpu"),
        Some(GpuBucket::Other)
    );
    // CPU spans, non-render diagnostics and nested spans are not GPU cells.
    assert_eq!(b("render/main_opaque_pass_3d/elapsed_cpu"), None);
    assert_eq!(b("fps"), None);
    assert_eq!(b("render/outer/inner/elapsed_gpu"), None);
}

#[test]
fn the_cpu_twin_reads_the_other_suffix() {
    assert_eq!(cpu_bucket("render/main_opaque_pass_3d/elapsed_cpu"), Some(GpuBucket::Opaque));
    assert_eq!(cpu_bucket("render/main_opaque_pass_3d/elapsed_gpu"), None);
    assert_eq!(cpu_bucket("render/msaa_writeback/elapsed_cpu"), Some(GpuBucket::Post));
    assert_eq!(cpu_bucket("render/main_transmissive_pass_3d/elapsed_cpu"), Some(GpuBucket::Transparent));
    assert_eq!(cpu_bucket("render/main_opaque_pass_2d/elapsed_cpu"), Some(GpuBucket::Ui));
    assert_eq!(cpu_bucket("render/postprocessing/elapsed_cpu"), Some(GpuBucket::Post));
    // An empty pass name is still a top-level span.
    assert_eq!(cpu_bucket("render//elapsed_cpu"), Some(GpuBucket::Other));
    assert_eq!(cpu_bucket("render/elapsed_cpu"), None);
}

#[test]
fn buckets_are_numbered_in_header_order() {
    let all = [
        GpuBucket::Opaque,
        GpuBucket::Static,
        GpuBucket::Transparent,
        GpuBucket::Glow,
        GpuBucket::Post,
        GpuBucket::Ui,
        GpuBucket::Other,
    ];
    assert_eq!(all.len(), GPU_BUCKETS);
    for (i, b) in all.iter().enumerate() {
        assert_eq!(b.index(), i);
    }
}

#[test]
fn the_preamble_names_the_adapter_or_says_it_cannot() {
    assert_eq!(
        preamble(None, None),
        "# benilla fps journal | gpu ? | backend ? | driver ? | gpu_ts ? | gpu_inside_encoders ? | gpu_inside_passes ?\n"
    );
}

#[test]
fn the_preamble_reports_each_feature_by_itself() {
    let adapter = AdapterFacts {
        name: "Apple M2".to_string(),
        backend: "Metal".to_string(),
        driver: String::new(),
        driver_info: String::new(),
    };
    let device = DeviceFeatures { timestamp_query: true, inside_encoders: false, inside_passes: true };
    assert_eq!(
        preamble(Some(&adapter), Some(&device)),
        "# benilla fps journal | gpu Apple M2 | backend Metal | driver ? | gpu_ts yes | gpu_inside_encoders no | gpu_inside_passes yes\n"
    );
    let adapter = AdapterFacts {
        name: "RADV".to_string(),
        backend: "Vulkan".to_string(),
        driver: "radv".to_string(),
        driver_info: "Mesa 24.0".to_string(),
    };
    assert_eq!(
        preamble(Some(&adapter), None),
        "# benilla fps journal | gpu RADV | backend Vulkan | driver radv Mesa 24.0 | gpu_ts ? | gpu_inside_encoders ? | gpu_inside_passes ?\n"
    );
}

#[test]
fn the_journal_opens_and_closes_with_its_switch() {
    assert_eq!(journal_switch(false, false, false), JournalSwitch::Idle);
    assert_eq!(journal_switch(false, false, true), JournalSwitch::Close);
    assert_eq!(journal_switch(false, true, false), JournalSwitch::Open);
    assert_eq!(journal_switch(true, false, false), JournalSwitch::Open);
    assert_eq!(journal_switch(true, false, true), JournalSwitch::Continue);
}

#[test]
fn an_unmeasured_second_is_empty_not_zero() {
    assert_eq!(per_frame(0, 0), None);
    assert_eq!(per_frame(1000, 0), None);
    assert_eq!(per_frame(1000, 3), Some(333));
    assert_eq!(per_frame(0, 5), Some(0));
}
