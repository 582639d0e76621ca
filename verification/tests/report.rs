use vulkan_ai::report::{
    build_profile, check_index_values, custom_benchmark_order, fusion_state,
    record_profile_timing_method, value_or_unavailable, CustomBenchmark, VulkanAdapterReport,
};
use vulkan_ai::{quadratic_training_order, ProbeError, QuadraticTrainingPath};

fn example_report() -> VulkanAdapterReport {
    VulkanAdapterReport {
        name: "Example GPU".to_owned(),
        backend: "Vulkan".to_owned(),
        device_type: "DiscreteGpu".to_owned(),
        vendor_id: 0x1234,
        device_id: 0x5678,
        pci_bus_id: String::new(),
        driver: "example".to_owned(),
        driver_info: "1.2.3".to_owned(),
        subgroup_min_size: 32,
        subgroup_max_size: 64,
        max_compute_invocations_per_workgroup: 1024,
        max_compute_workgroup_size: [1024, 1024, 64],
        max_compute_workgroups_per_dimension: 65_535,
        max_compute_workgroup_storage_size: 32_768,
        max_storage_buffer_binding_size: 134_217_728,
        max_storage_buffers_per_shader_stage: 8,
        max_buffer_size: 268_435_456,
    }
}

#[test]
fn formats_vulkan_adapter_report() {
    let report = example_report();

    assert_eq!(
        report.to_string(),
        "\
Vulkan adapter:
  Name: Example GPU
  Backend: Vulkan
  Device type: DiscreteGpu
  Vendor/device ID: 0x1234/0x5678
  PCI bus: unavailable
  Driver: example
  Driver info: 1.2.3
Vulkan compute capabilities:
  Subgroup size: 32..=64
  Max invocations/workgroup: 1024
  Max workgroup size: 1024 x 1024 x 64
  Max workgroups/dimension: 65535
  Max workgroup storage: 32768 bytes
  Max storage buffer binding: 134217728 bytes
  Max storage buffers/shader stage: 8
  Max buffer size: 268435456 bytes"
    );
}

#[test]
fn pads_and_extends_adapter_identifiers() {
    let mut report = example_report();
    report.vendor_id = 0x10de;
    report.device_id = 0x2;
    report.pci_bus_id = "0000:03:00.0".to_owned();
    report.max_buffer_size = u64::MAX;
    let text = report.to_string();
    assert!(text.contains("  Vendor/device ID: 0x10de/0x0002\n"));
    assert!(text.contains("  PCI bus: 0000:03:00.0\n"));
    assert!(text.ends_with("  Max buffer size: 18446744073709551615 bytes"));

    report.vendor_id = 0x1_0DE0;
    report.device_id = u32::MAX;
    report.max_compute_workgroup_size = [0, 7, 100];
    let text = report.to_string();
    assert!(text.contains("  Vendor/device ID: 0x10de0/0xffffffff\n"));
    assert!(text.contains("  Max workgroup size: 0 x 7 x 100\n"));
}

#[test]
fn replaces_only_empty_values() {
    assert_eq!(value_or_unavailable(""), "unavailable");
    assert_eq!(value_or_unavailable("radv"), "radv");
    assert_eq!(value_or_unavailable(" "), " ");
}

#[test]
fn rotates_custom_benchmark_order() {
    assert_eq!(
        custom_benchmark_order(0),
        [CustomBenchmark::Kernel, CustomBenchmark::Reference]
    );
    assert_eq!(
        custom_benchmark_order(1),
        [CustomBenchmark::Reference, CustomBenchmark::Kernel]
    );
    assert_eq!(custom_benchmark_order(2), custom_benchmark_order(0));
}

#[test]
fn rotates_quadratic_training_order() {
    assert_eq!(
        quadratic_training_order(0),
        [
            QuadraticTrainingPath::Custom,
            QuadraticTrainingPath::Reference,
        ]
    );
    assert_eq!(
        quadratic_training_order(1),
        [
            QuadraticTrainingPath::Reference,
            QuadraticTrainingPath::Custom,
        ]
    );
    assert_eq!(quadratic_training_order(2), quadratic_training_order(0));
}

#[test]
fn orders_balance_over_many_iterations() {
    for iteration in [3usize, 10, 11, usize::MAX - 1, usize::MAX] {
        let order = custom_benchmark_order(iteration);
        assert_ne!(order[0], order[1]);
        assert_eq!(order[0], custom_benchmark_order(iteration.wrapping_add(1))[1]);
        let training = quadratic_training_order(iteration);
        assert_ne!(training[0], training[1]);
    }
}

#[test]
fn names_benchmark_profiles() {
    assert_eq!(CustomBenchmark::Kernel.profile_name(), "vulkan_ai_quadratic_kernel");
    assert_eq!(
        CustomBenchmark::Reference.profile_name(),
        "vulkan_ai_quadratic_reference"
    );
}

#[test]
fn names_build_settings() {
    assert_eq!(build_profile(true), "debug");
    assert_eq!(build_profile(false), "release");
    assert_eq!(fusion_state(true), "enabled");
    assert_eq!(fusion_state(false), "disabled");
}

#[test]
fn accepts_equal_index_values() {
    assert_eq!(check_index_values("sequence", "CPU", &[0, 1], "Vulkan", &[0, 1]), Ok(()));
    assert_eq!(check_index_values("sequence", "CPU", &[], "Vulkan", &[]), Ok(()));
}

#[test]
fn rejects_index_values_of_different_length() {
    assert_eq!(
        check_index_values("mini-batch sequence", "CPU", &[0, 1], "Vulkan", &[0]),
        Err("CPU/Vulkan mini-batch sequence length differs: 2 versus 1".to_owned())
    );
}

#[test]
fn rejects_the_first_differing_index_value() {
    assert_eq!(
        check_index_values(
            "mini-batch sequence",
            "Vulkan uninterrupted",
            &[0, 1, 2],
            "Vulkan resumed",
            &[0, 0, 3],
        ),
        Err(
            "Vulkan uninterrupted/Vulkan resumed mini-batch sequence differs at index 1: 1 versus 0"
                .to_owned()
        )
    );
}

#[test]
fn records_one_profile_timing_method() {
    let mut current = None;
    assert_eq!(
        record_profile_timing_method(&mut current, "device".to_owned()),
        Ok(())
    );
    assert_eq!(current.as_deref(), Some("device"));
    assert_eq!(
        record_profile_timing_method(&mut current, "device".to_owned()),
        Ok(())
    );
    assert_eq!(
        record_profile_timing_method(&mut current, "system".to_owned()),
        Err(ProbeError::Profiling(
            "CubeCL profile timing method changed from device to system".to_owned()
        ))
    );
    assert_eq!(current.as_deref(), Some("device"));
}
