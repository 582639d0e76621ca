//! Adapter reports and the bookkeeping around benchmark runs.
use vstd::prelude::*;

use crate::text::{decimal, prefixed_hex4, push_decimal, push_prefixed_hex4, push_str};
use crate::ProbeError;

verus! {

/// Identity, driver and compute limits of the selected Vulkan adapter.
#[derive(Debug, PartialEq, Eq)]
pub struct VulkanAdapterReport {
    pub name: String,
    pub backend: String,
    pub device_type: String,
    pub vendor_id: u32,
    pub device_id: u32,
    pub pci_bus_id: String,
    pub driver: String,
    pub driver_info: String,
    pub subgroup_min_size: u32,
    pub subgroup_max_size: u32,
    pub max_compute_invocations_per_workgroup: u32,
    pub max_compute_workgroup_size: [u32; 3],
    pub max_compute_workgroups_per_dimension: u32,
    pub max_compute_workgroup_storage_size: u32,
    pub max_storage_buffer_binding_size: u64,
    pub max_storage_buffers_per_shader_stage: u32,
    pub max_buffer_size: u64,
}

/// `value`, or `unavailable` when it is empty.
pub open spec fn or_unavailable(value: Seq<char>) -> Seq<char> {
    if value.len() == 0 {
        "unavailable"@
    } else {
        value
    }
}

/// Show `unavailable` in place of an empty adapter field.
pub fn value_or_unavailable(value: &str) -> (shown: &str)
    ensures
        shown@ == or_unavailable(value@),
{
    if value.is_empty() {
        "unavailable"
    } else {
        value
    }
}

/// The rendered adapter report, one property per line.
pub open spec fn adapter_report_text(report: VulkanAdapterReport) -> Seq<char> {
    "Vulkan adapter:\n  Name: "@ + report.name@ + "\n  Backend: "@ + report.backend@
        + "\n  Device type: "@ + report.device_type@ + "\n  Vendor/device ID: "@ + prefixed_hex4(
        report.vendor_id as nat,
    ) + "/"@ + prefixed_hex4(report.device_id as nat) + "\n  PCI bus: "@ + or_unavailable(
        report.pci_bus_id@,
    ) + "\n  Driver: "@ + or_unavailable(report.driver@) + "\n  Driver info: "@ + or_unavailable(
        report.driver_info@,
    ) + "\nVulkan compute capabilities:\n  Subgroup size: "@ + decimal(
        report.subgroup_min_size as nat,
    ) + "..="@ + decimal(report.subgroup_max_size as nat) + "\n  Max invocations/workgroup: "@
        + decimal(report.max_compute_invocations_per_workgroup as nat)
        + "\n  Max workgroup size: "@ + decimal(report.max_compute_workgroup_size[0] as nat)
        + " x "@ + decimal(report.max_compute_workgroup_size[1] as nat) + " x "@ + decimal(
        report.max_compute_workgroup_size[2] as nat,
    ) + "\n  Max workgroups/dimension: "@ + decimal(
        report.max_compute_workgroups_per_dimension as nat,
    ) + "\n  Max workgroup storage: "@ + decimal(report.max_compute_workgroup_storage_size as nat)
        + " bytes\n  Max storage buffer binding: "@ + decimal(
        report.max_storage_buffer_binding_size as nat,
    ) + " bytes\n  Max storage buffers/shader stage: "@ + decimal(
        report.max_storage_buffers_per_shader_stage as nat,
    ) + "\n  Max buffer size: "@ + decimal(report.max_buffer_size as nat) + " bytes"@
}

/// `segment` occurs in `text`.
pub open spec fn contains_segment(text: Seq<char>, segment: Seq<char>) -> bool {
    exists|before: Seq<char>, after: Seq<char>| #[trigger] (before + segment + after) == text
}

/// The first `count` pieces joined from left to right.
spec fn joined(pieces: spec_fn(int) -> Seq<char>, count: nat) -> Seq<char>
    decreases count,
{
    if count == 0 {
        Seq::empty()
    } else if count == 1 {
        pieces(0)
    } else {
        joined(pieces, (count - 1) as nat) + pieces(count - 1)
    }
}

/// Three consecutive pieces occur, in order, in the joined text.
proof fn lemma_joined_contains(pieces: spec_fn(int) -> Seq<char>, count: nat, i: int)
    requires
        1 <= i < count - 1,
    ensures
        contains_segment(joined(pieces, count), pieces(i - 1) + pieces(i) + pieces(i + 1)),
    decreases count,
{
    let segment = pieces(i - 1) + pieces(i) + pieces(i + 1);
    if i + 2 < count {
        lemma_joined_contains(pieces, (count - 1) as nat, i);
        let (before, after) = choose|before: Seq<char>, after: Seq<char>|
            #[trigger] (before + segment + after) == joined(pieces, (count - 1) as nat);
        assert(joined(pieces, count) =~= before + segment + (after + pieces(count - 1)));
    } else if i == 1 {
        assert(joined(pieces, 2) == pieces(0) + pieces(1));
        assert(joined(pieces, count) =~= Seq::<char>::empty() + segment + Seq::<char>::empty());
    } else {
        let head = joined(pieces, (i - 1) as nat);
        assert(joined(pieces, i as nat) == head + pieces(i - 1));
        assert(joined(pieces, (i + 1) as nat) == joined(pieces, i as nat) + pieces(i));
        assert(joined(pieces, count) =~= head + segment + Seq::<char>::empty());
    }
}

/// The report's labels and values in the order they are printed.
spec fn report_piece(report: VulkanAdapterReport, index: int) -> Seq<char> {
    if index == 0 {
        "Vulkan adapter:\n  Name: "@
    } else if index == 1 {
        report.name@
    } else if index == 2 {
        "\n  Backend: "@
    } else if index == 3 {
        report.backend@
    } else if index == 4 {
        "\n  Device type: "@
    } else if index == 5 {
        report.device_type@
    } else if index == 6 {
        "\n  Vendor/device ID: "@
    } else if index == 7 {
        prefixed_hex4(report.vendor_id as nat)
    } else if index == 8 {
        "/"@
    } else if index == 9 {
        prefixed_hex4(report.device_id as nat)
    } else if index == 10 {
        "\n  PCI bus: "@
    } else if index == 11 {
        or_unavailable(report.pci_bus_id@)
    } else if index == 12 {
        "\n  Driver: "@
    } else if index == 13 {
        or_unavailable(report.driver@)
    } else if index == 14 {
        "\n  Driver info: "@
    } else if index == 15 {
        or_unavailable(report.driver_info@)
    } else if index == 16 {
        "\nVulkan compute capabilities:\n  Subgroup size: "@
    } else if index == 17 {
        decimal(report.subgroup_min_size as nat)
    } else if index == 18 {
        "..="@
    } else if index == 19 {
        decimal(report.subgroup_max_size as nat)
    } else if index == 20 {
        "\n  Max invocations/workgroup: "@
    } else if index == 21 {
        decimal(report.max_compute_invocations_per_workgroup as nat)
    } else if index == 22 {
        "\n  Max workgroup size: "@
    } else if index == 23 {
        decimal(report.max_compute_workgroup_size[0] as nat)
    } else if index == 24 {
        " x "@
    } else if index == 25 {
        decimal(report.max_compute_workgroup_size[1] as nat)
    } else if index == 26 {
        " x "@
    } else if index == 27 {
        decimal(report.max_compute_workgroup_size[2] as nat)
    } else if index == 28 {
        "\n  Max workgroups/dimension: "@
    } else if index == 29 {
        decimal(report.max_compute_workgroups_per_dimension as nat)
    } else if index == 30 {
        "\n  Max workgroup storage: "@
    } else if index == 31 {
        decimal(report.max_compute_workgroup_storage_size as nat)
    } else if index == 32 {
        " bytes\n  Max storage buffer binding: "@
    } else if index == 33 {
        decimal(report.max_storage_buffer_binding_size as nat)
    } else if index == 34 {
        " bytes\n  Max storage buffers/shader stage: "@
    } else if index == 35 {
        decimal(report.max_storage_buffers_per_shader_stage as nat)
    } else if index == 36 {
        "\n  Max buffer size: "@
    } else if index == 37 {
        decimal(report.max_buffer_size as nat)
    } else {
        " bytes"@
    }
}

/// The report text is its pieces joined in order.
proof fn lemma_report_pieces_joined(report: VulkanAdapterReport)
    ensures
        adapter_report_text(report) == joined(|index: int| report_piece(report, index), 39),
{
    reveal_with_fuel(joined, 41);
}

/// Every value of the adapter report stands in the text between its own label and
/// the next one: the name after "Name: ", the two identifiers as `{:#06x}` around
/// "/", the subgroup range as minimum "..=" maximum, each workgroup dimension
/// between " x " separators, and each limit before its unit. A field's value is
/// printed only at its own label, so changing one field changes only that value.
pub proof fn lemma_adapter_report_fields(report: VulkanAdapterReport)
    ensures
        ({
            let text = adapter_report_text(report);
            &&& contains_segment(
                text,
                "Vulkan adapter:\n  Name: "@ + report.name@ + "\n  Backend: "@,
            )
            &&& contains_segment(
                text,
                "\n  Backend: "@ + report.backend@ + "\n  Device type: "@,
            )
            &&& contains_segment(
                text,
                "\n  Device type: "@ + report.device_type@ + "\n  Vendor/device ID: "@,
            )
            &&& contains_segment(
                text,
                "\n  Vendor/device ID: "@ + prefixed_hex4(report.vendor_id as nat) + "/"@,
            )
            &&& contains_segment(
                text,
                "/"@ + prefixed_hex4(report.device_id as nat) + "\n  PCI bus: "@,
            )
            &&& contains_segment(
                text,
                "\n  PCI bus: "@ + or_unavailable(report.pci_bus_id@) + "\n  Driver: "@,
            )
            &&& contains_segment(
                text,
                "\n  Driver: "@ + or_unavailable(report.driver@) + "\n  Driver info: "@,
            )
            &&& contains_segment(
                text,
                "\n  Driver info: "@ + or_unavailable(report.driver_info@) + "\nVulkan compute capabilities:\n  Subgroup size: "@,
            )
            &&& contains_segment(
                text,
                "\nVulkan compute capabilities:\n  Subgroup size: "@ + decimal(report.subgroup_min_size as nat) + "..="@,
            )
            &&& contains_segment(
                text,
                "..="@ + decimal(report.subgroup_max_size as nat) + "\n  Max invocations/workgroup: "@,
            )
            &&& contains_segment(
                text,
                "\n  Max invocations/workgroup: "@ + decimal(report.max_compute_invocations_per_workgroup as nat) + "\n  Max workgroup size: "@,
            )
            &&& contains_segment(
                text,
                "\n  Max workgroup size: "@ + decimal(report.max_compute_workgroup_size[0] as nat) + " x "@,
            )
            &&& contains_segment(
                text,
                " x "@ + decimal(report.max_compute_workgroup_size[1] as nat) + " x "@,
            )
            &&& contains_segment(
                text,
                " x "@ + decimal(report.max_compute_workgroup_size[2] as nat) + "\n  Max workgroups/dimension: "@,
            )
            &&& contains_segment(
                text,
                "\n  Max workgroups/dimension: "@ + decimal(report.max_compute_workgroups_per_dimension as nat) + "\n  Max workgroup storage: "@,
            )
            &&& contains_segment(
                text,
                "\n  Max workgroup storage: "@ + decimal(report.max_compute_workgroup_storage_size as nat) + " bytes\n  Max storage buffer binding: "@,
            )
            &&& contains_segment(
                text,
                " bytes\n  Max storage buffer binding: "@ + decimal(report.max_storage_buffer_binding_size as nat) + " bytes\n  Max storage buffers/shader stage: "@,
            )
            &&& contains_segment(
                text,
                " bytes\n  Max storage buffers/shader stage: "@ + decimal(report.max_storage_buffers_per_shader_stage as nat) + "\n  Max buffer size: "@,
            )
            &&& contains_segment(
                text,
                "\n  Max buffer size: "@ + decimal(report.max_buffer_size as nat) + " bytes"@,
            )
        }),
{
    let pieces = |index: int| report_piece(report, index);
    lemma_report_pieces_joined(report);
    lemma_joined_contains(pieces, 39, 1);
    lemma_joined_contains(pieces, 39, 3);
    lemma_joined_contains(pieces, 39, 5);
    lemma_joined_contains(pieces, 39, 7);
    lemma_joined_contains(pieces, 39, 9);
    lemma_joined_contains(pieces, 39, 11);
    lemma_joined_contains(pieces, 39, 13);
    lemma_joined_contains(pieces, 39, 15);
    lemma_joined_contains(pieces, 39, 17);
    lemma_joined_contains(pieces, 39, 19);
    lemma_joined_contains(pieces, 39, 21);
    lemma_joined_contains(pieces, 39, 23);
    lemma_joined_contains(pieces, 39, 25);
    lemma_joined_contains(pieces, 39, 27);
    lemma_joined_contains(pieces, 39, 29);
    lemma_joined_contains(pieces, 39, 31);
    lemma_joined_contains(pieces, 39, 33);
    lemma_joined_contains(pieces, 39, 35);
    lemma_joined_contains(pieces, 39, 37);
}

impl VulkanAdapterReport {
    /// Render the report as text.
    pub fn to_string(&self) -> (text: String)
        ensures
            text@ == adapter_report_text(*self),
    {
        let mut out = String::new();
        push_str(&mut out, "Vulkan adapter:\n  Name: ");
        push_str(&mut out, self.name.as_str());
        push_str(&mut out, "\n  Backend: ");
        push_str(&mut out, self.backend.as_str());
        push_str(&mut out, "\n  Device type: ");
        push_str(&mut out, self.device_type.as_str());
        push_str(&mut out, "\n  Vendor/device ID: ");
        push_prefixed_hex4(&mut out, self.vendor_id as u64);
        push_str(&mut out, "/");
        push_prefixed_hex4(&mut out, self.device_id as u64);
        push_str(&mut out, "\n  PCI bus: ");
        push_str(&mut out, value_or_unavailable(self.pci_bus_id.as_str()));
        push_str(&mut out, "\n  Driver: ");
        push_str(&mut out, value_or_unavailable(self.driver.as_str()));
        push_str(&mut out, "\n  Driver info: ");
        push_str(&mut out, value_or_unavailable(self.driver_info.as_str()));
        push_str(&mut out, "\nVulkan compute capabilities:\n  Subgroup size: ");
        push_decimal(&mut out, self.subgroup_min_size as u64);
        push_str(&mut out, "..=");
        push_decimal(&mut out, self.subgroup_max_size as u64);
        push_str(&mut out, "\n  Max invocations/workgroup: ");
        push_decimal(&mut out, self.max_compute_invocations_per_workgroup as u64);
        push_str(&mut out, "\n  Max workgroup size: ");
        push_decimal(&mut out, self.max_compute_workgroup_size[0] as u64);
        push_str(&mut out, " x ");
        push_decimal(&mut out, self.max_compute_workgroup_size[1] as u64);
        push_str(&mut out, " x ");
        push_decimal(&mut out, self.max_compute_workgroup_size[2] as u64);
        push_str(&mut out, "\n  Max workgroups/dimension: ");
        push_decimal(&mut out, self.max_compute_workgroups_per_dimension as u64);
        push_str(&mut out, "\n  Max workgroup storage: ");
        push_decimal(&mut out, self.max_compute_workgroup_storage_size as u64);
        push_str(&mut out, " bytes\n  Max storage buffer binding: ");
        push_decimal(&mut out, self.max_storage_buffer_binding_size);
        push_str(&mut out, " bytes\n  Max storage buffers/shader stage: ");
        push_decimal(&mut out, self.max_storage_buffers_per_shader_stage as u64);
        push_str(&mut out, "\n  Max buffer size: ");
        push_decimal(&mut out, self.max_buffer_size);
        push_str(&mut out, " bytes");
        out
    }
}

/// Name of the build profile the probe was compiled with.
pub fn build_profile(debug_assertions: bool) -> (profile: &'static str)
    ensures
        profile@ == (if debug_assertions {
            "debug"@
        } else {
            "release"@
        }),
{
    if debug_assertions {
        "debug"
    } else {
        "release"
    }
}

/// Whether Burn's fusion optimizer was compiled in.
pub fn fusion_state(fusion_enabled: bool) -> (state: &'static str)
    ensures
        state@ == (if fusion_enabled {
            "enabled"@
        } else {
            "disabled"@
        }),
{
    if fusion_enabled {
        "enabled"
    } else {
        "disabled"
    }
}

/// Implementation measured by the custom quadratic benchmark.
#[derive(Clone, Copy, Debug, PartialEq, Eq)]
pub enum CustomBenchmark {
    Kernel,
    Reference,
}

/// Name under which a benchmark's runtime profile is recorded.
pub open spec fn benchmark_profile_name(benchmark: CustomBenchmark) -> Seq<char> {
    match benchmark {
        CustomBenchmark::Kernel => "vulkan_ai_quadratic_kernel"@,
        CustomBenchmark::Reference => "vulkan_ai_quadratic_reference"@,
    }
}

impl CustomBenchmark {
    /// Name under which this benchmark's runtime profile is recorded.
    pub fn profile_name(self) -> (name: &'static str)
        ensures
            name@ == benchmark_profile_name(self),
    {
        match self {
            CustomBenchmark::Kernel => "vulkan_ai_quadratic_kernel",
            CustomBenchmark::Reference => "vulkan_ai_quadratic_reference",
        }
    }
}

/// The order in which the two benchmarks run in iteration `iteration`.
pub open spec fn benchmark_order(iteration: nat) -> Seq<CustomBenchmark> {
    if iteration % 2 == 0 {
        seq![CustomBenchmark::Kernel, CustomBenchmark::Reference]
    } else {
        seq![CustomBenchmark::Reference, CustomBenchmark::Kernel]
    }
}

/// Alternate which implementation runs first, one iteration after the other.
pub fn custom_benchmark_order(iteration: usize) -> (order: [CustomBenchmark; 2])
    ensures
        order@ == benchmark_order(iteration as nat),
{
    if iteration % 2 == 0 {
        [CustomBenchmark::Kernel, CustomBenchmark::Reference]
    } else {
        [CustomBenchmark::Reference, CustomBenchmark::Kernel]
    }
}

/// The benchmark order repeats every two iterations, each order runs both
/// implementations once, and consecutive iterations run them in opposite orders.
pub proof fn lemma_benchmark_order_balanced(iteration: nat)
    ensures
        benchmark_order(iteration) == benchmark_order(iteration + 2),
        benchmark_order(iteration)[0] != benchmark_order(iteration)[1],
        benchmark_order(iteration)[0] == benchmark_order(iteration + 1)[1],
        benchmark_order(iteration)[1] == benchmark_order(iteration + 1)[0],
{
}

/// `index` is the first position at which the two sequences differ.
pub open spec fn first_difference(left: Seq<usize>, right: Seq<usize>, index: int) -> bool {
    &&& 0 <= index < left.len()
    &&& index < right.len()
    &&& left[index] != right[index]
    &&& forall|j: int| 0 <= j < index ==> left[j] == right[j]
}

/// Message for index sequences of different lengths.
pub open spec fn index_length_text(
    description: Seq<char>,
    left_name: Seq<char>,
    left: Seq<usize>,
    right_name: Seq<char>,
    right: Seq<usize>,
) -> Seq<char> {
    left_name + "/"@ + right_name + " "@ + description + " length differs: "@ + decimal(left.len())
        + " versus "@ + decimal(right.len())
}

/// Message for index sequences that first differ at `index`.
pub open spec fn index_difference_text(
    description: Seq<char>,
    left_name: Seq<char>,
    left: Seq<usize>,
    right_name: Seq<char>,
    right: Seq<usize>,
    index: int,
) -> Seq<char> {
    left_name + "/"@ + right_name + " "@ + description + " differs at index "@ + decimal(
        index as nat,
    ) + ": "@ + decimal(left[index] as nat) + " versus "@ + decimal(right[index] as nat)
}

/// Require two sequences of identifiers to be equal, and describe the first difference.
pub fn check_index_values(
    description: &str,
    left_name: &str,
    left: &[usize],
    right_name: &str,
    right: &[usize],
) -> (checked: Result<(), String>)
    ensures
        left@ == right@ <==> checked is Ok,
        left@.len() != right@.len() ==> (checked matches Err(message) && message@
            == index_length_text(description@, left_name@, left@, right_name@, right@)),
        left@.len() == right@.len() && left@ != right@ ==> (checked matches Err(message) && exists|
            index: int,
        |
            first_difference(left@, right@, index) && message@ == index_difference_text(
                description@,
                left_name@,
                left@,
                right_name@,
                right@,
                index,
            )),
{
    if left.len() != right.len() {
        let mut message = String::new();
        push_str(&mut message, left_name);
        push_str(&mut message, "/");
        push_str(&mut message, right_name);
        push_str(&mut message, " ");
        push_str(&mut message, description);
        push_str(&mut message, " length differs: ");
        push_decimal(&mut message, left.len() as u64);
        push_str(&mut message, " versus ");
        push_decimal(&mut message, right.len() as u64);
        return Err(message);
    }
    let mut index: usize = 0;
    while index < left.len()
        invariant
            left@.len() == right@.len(),
            index <= left@.len(),
            forall|j: int| 0 <= j < index ==> left@[j] == right@[j],
        decreases left@.len() - index,
    {
        let left_value = left[index];
        let right_value = right[index];
        if left_value != right_value {
            let mut message = String::new();
            push_str(&mut message, left_name);
            push_str(&mut message, "/");
            push_str(&mut message, right_name);
            push_str(&mut message, " ");
            push_str(&mut message, description);
            push_str(&mut message, " differs at index ");
            push_decimal(&mut message, index as u64);
            push_str(&mut message, ": ");
            push_decimal(&mut message, left_value as u64);
            push_str(&mut message, " versus ");
            push_decimal(&mut message, right_value as u64);
            assert(first_difference(left@, right@, index as int));
            return Err(message);
        }
        index = index + 1;
    }
    assert(left@ =~= right@);
    Ok(())
}

/// Message for a profile timing method that differs from the one seen before.
pub open spec fn timing_method_change_text(current: Seq<char>, observed: Seq<char>) -> Seq<char> {
    "CubeCL profile timing method changed from "@ + current + " to "@ + observed
}

/// Remember the first profile timing method and require every later one to match it.
pub fn record_profile_timing_method(current: &mut Option<String>, observed: String) -> (recorded:
    Result<(), ProbeError>)
    ensures
        match *old(current) {
            None => recorded is Ok && *final(current) == Some(observed),
            Some(seen) => *final(current) == *old(current) && if seen@ == observed@ {
                recorded is Ok
            } else {
                recorded matches Err(ProbeError::Profiling(message)) && message@
                    == timing_method_change_text(seen@, observed@)
            },
        },
{
    match current {
        Some(seen) => {
            if *seen == observed {
                Ok(())
            } else {
                let mut message = String::new();
                push_str(&mut message, "CubeCL profile timing method changed from ");
                push_str(&mut message, seen.as_str());
                push_str(&mut message, " to ");
                push_str(&mut message, observed.as_str());
                Err(ProbeError::Profiling(message))
            }
        },
        None => {
            *current = Some(observed);
            Ok(())
        },
    }
}

} // verus!
