//! The decisions taken when the renderer is set up: which layers and
//! extensions to enable, which physical device and queue to use, and how
//! the swapchain and the render attachments are shaped.
//!
//! The graphics api is queried outside of this module; the answers come in
//! as plain values: names as bytes without their final nul, flags and enum
//! codes as integers.

use vstd::prelude::*;
use crate::memory::{align_device, align_up, is_power_of_two};
use vstd::string::StringSliceAdditionalSpecFns;

verus! {

/// `name` is one of `available`.
pub open spec fn name_available(name: Seq<u8>, available: Seq<Vec<u8>>) -> bool {
    exists|j: int| 0 <= j < available.len() && #[trigger] available[j]@ == name
}

/// The two names are the same bytes.
pub fn names_equal(a: &Vec<u8>, b: &Vec<u8>) -> (r: bool)
    ensures
        r == (a@ == b@),
{
    if a.len() != b.len() {
        return false;
    }
    let mut i: usize = 0;
    while i < a.len()
        invariant
            a@.len() == b@.len(),
            i <= a@.len(),
            forall|j: int| 0 <= j < i ==> #[trigger] a@[j] == b@[j],
        decreases a@.len() - i,
    {
        if a[i] != b[i] {
            return false;
        }
        i = i + 1;
    }
    proof {
        assert(a@ =~= b@);
    }
    true
}

/// Whether `name` is among `available`.
pub fn find_name(name: &Vec<u8>, available: &[Vec<u8>]) -> (r: bool)
    ensures
        r == name_available(name@, available@),
{
    let mut j: usize = 0;
    while j < available.len()
        invariant
            j <= available@.len(),
            forall|k: int| 0 <= k < j ==> #[trigger] available@[k]@ != name@,
        decreases available@.len() - j,
    {
        if names_equal(name, &available[j]) {
            return true;
        }
        j = j + 1;
    }
    false
}

/// The positions in `requested` of the names that are available, in order.
pub open spec fn found_names(requested: Seq<Vec<u8>>, available: Seq<Vec<u8>>) -> Seq<usize>
    decreases requested.len(),
{
    if requested.len() == 0 {
        Seq::empty()
    } else {
        let rest = found_names(requested.drop_last(), available);
        if name_available(requested.last()@, available) {
            rest.push((requested.len() - 1) as usize)
        } else {
            rest
        }
    }
}

/// The positions in `requested` of the names that are not available, in
/// order.
pub open spec fn missing_names(requested: Seq<Vec<u8>>, available: Seq<Vec<u8>>) -> Seq<usize>
    decreases requested.len(),
{
    if requested.len() == 0 {
        Seq::empty()
    } else {
        let rest = missing_names(requested.drop_last(), available);
        if name_available(requested.last()@, available) {
            rest
        } else {
            rest.push((requested.len() - 1) as usize)
        }
    }
}

/// Splits the requested names in those that are available and those that
/// are missing, each given by its position in `requested`.
pub fn select_names(requested: &[Vec<u8>], available: &[Vec<u8>]) -> (r: (Vec<usize>, Vec<usize>))
    ensures
        r.0@ == found_names(requested@, available@),
        r.1@ == missing_names(requested@, available@),
{
    let mut found: Vec<usize> = Vec::new();
    let mut missing: Vec<usize> = Vec::new();
    let mut i: usize = 0;
    while i < requested.len()
        invariant
            i <= requested@.len(),
            found@ == found_names(requested@.take(i as int), available@),
            missing@ == missing_names(requested@.take(i as int), available@),
        decreases requested@.len() - i,
    {
        proof {
            assert(requested@.take(i + 1).drop_last() =~= requested@.take(i as int));
            assert(requested@.take(i + 1).last() == requested@[i as int]);
        }
        if find_name(&requested[i], available) {
            found.push(i);
        } else {
            missing.push(i);
        }
        i = i + 1;
    }
    proof {
        assert(requested@.take(requested@.len() as int) =~= requested@);
    }
    (found, missing)
}

/// Number of entries of `available` equal to `name`.
pub open spec fn name_count(name: Seq<u8>, available: Seq<Vec<u8>>) -> nat
    decreases available.len(),
{
    if available.len() == 0 {
        0
    } else {
        name_count(name, available.drop_last()) + if available.last()@ == name {
            1nat
        } else {
            0nat
        }
    }
}

/// The surface extensions to enable on linux: each candidate, given by its
/// position, as many times as it is listed among the available extensions.
pub open spec fn surface_extensions(candidates: Seq<Vec<u8>>, available: Seq<Vec<u8>>) -> Seq<usize>
    decreases candidates.len(),
{
    if candidates.len() == 0 {
        Seq::empty()
    } else {
        surface_extensions(candidates.drop_last(), available) + Seq::new(
            name_count(candidates.last()@, available),
            |k: int| (candidates.len() - 1) as usize,
        )
    }
}

/// The surface extensions to enable on linux, each candidate given by its
/// position once for every available extension of that name.
pub fn linux_surface_extensions(candidates: &[Vec<u8>], available: &[Vec<u8>]) -> (r: Vec<usize>)
    ensures
        r@ == surface_extensions(candidates@, available@),
{
    let mut out: Vec<usize> = Vec::new();
    let mut i: usize = 0;
    while i < candidates.len()
        invariant
            i <= candidates@.len(),
            out@ == surface_extensions(candidates@.take(i as int), available@),
        decreases candidates@.len() - i,
    {
        let ghost before = out@;
        let mut j: usize = 0;
        while j < available.len()
            invariant
                i < candidates@.len(),
                j <= available@.len(),
                out@ == before + Seq::new(
                    name_count(candidates@[i as int]@, available@.take(j as int)),
                    |k: int| i as usize,
                ),
            decreases available@.len() - j,
        {
            proof {
                assert(available@.take(j + 1).drop_last() =~= available@.take(j as int));
            }
            if names_equal(&candidates[i], &available[j]) {
                out.push(i);
            }
            proof {
                assert(out@ =~= before + Seq::new(
                    name_count(candidates@[i as int]@, available@.take(j + 1)),
                    |k: int| i as usize,
                ));
            }
            j = j + 1;
        }
        proof {
            assert(available@.take(available@.len() as int) =~= available@);
            assert(candidates@.take(i + 1).drop_last() =~= candidates@.take(i as int));
        }
        i = i + 1;
    }
    proof {
        assert(candidates@.take(candidates@.len() as int) =~= candidates@);
    }
    out
}

/// The bytes of a name written as text.
fn name_bytes(s: &str) -> (r: Vec<u8>)
    ensures
        r@ == s.spec_bytes(),
{
    vstd::slice::slice_to_vec(s.as_bytes())
}

/// The names held by a list, as bytes.
pub open spec fn names_view(names: Seq<Vec<u8>>) -> Seq<Seq<u8>> {
    names.map_values(|n: Vec<u8>| n@)
}

/// The instance layers the renderer asks for: the validation layer in
/// debug builds, none otherwise.
pub open spec fn instance_layer_names(debug: bool) -> Seq<Seq<u8>> {
    if debug {
        seq!["VK_LAYER_KHRONOS_validation".spec_bytes()]
    } else {
        Seq::empty()
    }
}

/// The instance layers the renderer asks for.
pub fn requested_instance_layers(debug: bool) -> (r: Vec<Vec<u8>>)
    ensures
        names_view(r@) == instance_layer_names(debug),
{
    let mut out: Vec<Vec<u8>> = Vec::new();
    if debug {
        out.push(name_bytes("VK_LAYER_KHRONOS_validation"));
    }
    proof {
        assert(names_view(out@) =~= instance_layer_names(debug));
    }
    out
}

/// The instance extensions the renderer asks for, in order: the surface
/// extension; debug utils in debug builds; the win32 surface on windows;
/// portability enumeration and the metal surface on macos. The linux
/// surface extensions are chosen apart, among the available ones.
pub open spec fn instance_extension_names(debug: bool, windows: bool, macos: bool) -> Seq<Seq<u8>> {
    let base = seq!["VK_KHR_surface".spec_bytes()];
    let with_debug = if debug {
        base.push("VK_EXT_debug_utils".spec_bytes())
    } else {
        base
    };
    let with_windows = if windows {
        with_debug.push("VK_KHR_win32_surface".spec_bytes())
    } else {
        with_debug
    };
    if macos {
        with_windows.push("VK_KHR_portability_enumeration".spec_bytes()).push("VK_EXT_metal_surface".spec_bytes())
    } else {
        with_windows
    }
}

/// The instance extensions the renderer asks for on the given build.
pub fn requested_instance_extensions(debug: bool, windows: bool, macos: bool) -> (r: Vec<Vec<u8>>)
    ensures
        names_view(r@) == instance_extension_names(debug, windows, macos),
{
    let mut out: Vec<Vec<u8>> = Vec::new();
    out.push(name_bytes("VK_KHR_surface"));
    if debug {
        out.push(name_bytes("VK_EXT_debug_utils"));
    }
    if windows {
        out.push(name_bytes("VK_KHR_win32_surface"));
    }
    if macos {
        out.push(name_bytes("VK_KHR_portability_enumeration"));
        out.push(name_bytes("VK_EXT_metal_surface"));
    }
    proof {
        assert(names_view(out@) =~= instance_extension_names(debug, windows, macos));
    }
    out
}

/// The surface extensions looked for on linux, in order: wayland, xcb, xlib.
pub open spec fn linux_surface_names() -> Seq<Seq<u8>> {
    seq![
        "VK_KHR_wayland_surface".spec_bytes(),
        "VK_KHR_xcb_surface".spec_bytes(),
        "VK_KHR_xlib_surface".spec_bytes(),
    ]
}

/// The surface extensions looked for on linux.
pub fn linux_surface_candidates() -> (r: Vec<Vec<u8>>)
    ensures
        names_view(r@) == linux_surface_names(),
{
    let mut out: Vec<Vec<u8>> = Vec::new();
    out.push(name_bytes("VK_KHR_wayland_surface"));
    out.push(name_bytes("VK_KHR_xcb_surface"));
    out.push(name_bytes("VK_KHR_xlib_surface"));
    proof {
        assert(names_view(out@) =~= linux_surface_names());
    }
    out
}

/// Errors of the setup decisions.
pub enum SetupError {
    /// These validation layers, by position, are not available.
    MissingLayers(Vec<usize>),
    /// These instance extensions, by position, are not available.
    MissingExtensions(Vec<usize>),
    /// The surface allows no image count the renderer can use.
    ImageCount { min_image_count: u32, max_image_count: u32 },
    /// The surface supports none of the formats the renderer can use.
    UnsupportedFormat,
}

/// Checks the instance layers and extensions: returns the positions of the
/// layers and of the extensions to enable, or the missing layers, or else
/// the missing extensions.
pub fn check_layers_and_extensions(
    layers: &[Vec<u8>],
    available_layers: &[Vec<u8>],
    extensions: &[Vec<u8>],
    available_extensions: &[Vec<u8>],
) -> (r: Result<(Vec<usize>, Vec<usize>), SetupError>)
    ensures
        missing_names(layers@, available_layers@).len() > 0 ==> (r matches Err(SetupError::MissingLayers(m))
            && m@ == missing_names(layers@, available_layers@)),
        missing_names(layers@, available_layers@).len() == 0 && missing_names(extensions@, available_extensions@).len()
            > 0 ==> (r matches Err(SetupError::MissingExtensions(m)) && m@ == missing_names(
            extensions@,
            available_extensions@,
        )),
        missing_names(layers@, available_layers@).len() == 0 && missing_names(extensions@, available_extensions@).len()
            == 0 ==> (r matches Ok(ok) && ok.0@ == found_names(layers@, available_layers@) && ok.1@ == found_names(
            extensions@,
            available_extensions@,
        )),
{
    let (found_layers, missing_layers) = select_names(layers, available_layers);
    let (found_extensions, missing_extensions) = select_names(extensions, available_extensions);
    if missing_layers.len() > 0 {
        Err(SetupError::MissingLayers(missing_layers))
    } else if missing_extensions.len() > 0 {
        Err(SetupError::MissingExtensions(missing_extensions))
    } else {
        Ok((found_layers, found_extensions))
    }
}


/// Queue family flag: the family supports graphics.
pub const QUEUE_GRAPHICS: u32 = 0x1;

/// The features a physical device reports, each `1` when supported.
#[derive(Copy, Clone, PartialEq, Eq, Structural, Debug)]
pub struct DeviceFeatures {
    pub timeline_semaphore: u32,
    pub shader_sampled_image_array_non_uniform_indexing: u32,
    pub runtime_descriptor_array: u32,
    pub descriptor_binding_partially_bound: u32,
    pub descriptor_binding_variable_descriptor_count: u32,
    pub dynamic_rendering: u32,
}

/// What a physical device reports: its features, its extensions (`None`
/// when they could not be listed) and the flags of its queue families.
pub struct DeviceInfo {
    pub features: DeviceFeatures,
    pub extensions: Option<Vec<Vec<u8>>>,
    pub queue_flags: Vec<u32>,
}

/// Why a physical device was not chosen.
#[derive(Copy, Clone, PartialEq, Eq, Structural, Debug)]
pub enum FailureKind {
    /// Dynamic rendering is not supported.
    MissingDynamicRendering,
    /// The feature at this position of the feature list is not supported.
    MissingFeature(u8),
    /// The extensions could not be listed.
    ExtensionsUnavailable,
    /// Some required extensions are not supported.
    MissingExtensions,
    /// No queue family supports graphics.
    NoGraphicsQueue,
}

/// A reason, for the device at position `device`; `missing` lists the
/// missing extensions by position for `MissingExtensions`.
pub struct FailureReason {
    pub device: usize,
    pub kind: FailureKind,
    pub missing: Vec<usize>,
}

/// The feature at position `i` of the feature list.
pub open spec fn feature_at(f: DeviceFeatures, i: int) -> u32 {
    if i == 0 {
        f.timeline_semaphore
    } else if i == 1 {
        f.shader_sampled_image_array_non_uniform_indexing
    } else if i == 2 {
        f.runtime_descriptor_array
    } else if i == 3 {
        f.descriptor_binding_partially_bound
    } else if i == 4 {
        f.descriptor_binding_variable_descriptor_count
    } else {
        f.dynamic_rendering
    }
}

/// The features, by position, that are not supported.
pub open spec fn missing_features(f: DeviceFeatures, n: int) -> Seq<u8>
    decreases n,
{
    if n <= 0 {
        Seq::empty()
    } else {
        let rest = missing_features(f, n - 1);
        if feature_at(f, n - 1) != 1 {
            rest.push((n - 1) as u8)
        } else {
            rest
        }
    }
}

/// The first queue family that supports graphics.
pub open spec fn graphics_family(flags: Seq<u32>) -> Option<int> {
    if exists|i: int| 0 <= i < flags.len() && #[trigger] (flags[i] & QUEUE_GRAPHICS) == QUEUE_GRAPHICS {
        Some(
            choose|i: int|
                0 <= i < flags.len() && #[trigger] (flags[i] & QUEUE_GRAPHICS) == QUEUE_GRAPHICS && forall|j: int|
                    0 <= j < i ==> (flags[j] & QUEUE_GRAPHICS) != QUEUE_GRAPHICS,
        )
    } else {
        None
    }
}

/// The device can be used: dynamic rendering, every required extension,
/// and a graphics queue. The other features are reported but not required.
pub open spec fn device_usable(d: DeviceInfo, required: Seq<Vec<u8>>) -> bool {
    &&& d.features.dynamic_rendering == 1
    &&& d.extensions is Some
    &&& missing_names(required, d.extensions->0@).len() == 0
    &&& graphics_family(d.queue_flags@) is Some
}

/// A failure reason as plain values.
pub open spec fn reason_view(r: FailureReason) -> (usize, FailureKind, Seq<usize>) {
    (r.device, r.kind, r.missing@)
}

/// The failure reasons as plain values.
pub open spec fn reason_views(s: Seq<FailureReason>) -> Seq<(usize, FailureKind, Seq<usize>)> {
    Seq::new(s.len(), |k: int| reason_view(s[k]))
}

proof fn lemma_reason_views_push(s: Seq<FailureReason>, x: FailureReason)
    ensures
        reason_views(s.push(x)) == reason_views(s).push(reason_view(x)),
{
    assert(reason_views(s.push(x)) =~= reason_views(s).push(reason_view(x)));
}

/// The reasons reported for the device `d` at position `i`.
pub open spec fn device_reasons(d: DeviceInfo, i: usize, required: Seq<Vec<u8>>) -> Seq<(usize, FailureKind, Seq<usize>)> {
    if d.features.dynamic_rendering != 1 {
        seq![(i, FailureKind::MissingDynamicRendering, Seq::<usize>::empty())]
    } else {
        let features = missing_features(d.features, 6).map_values(
            |f: u8| (i, FailureKind::MissingFeature(f), Seq::<usize>::empty()),
        );
        let last = match d.extensions {
            None => seq![(i, FailureKind::ExtensionsUnavailable, Seq::<usize>::empty())],
            Some(e) => if missing_names(required, e@).len() > 0 {
                seq![(i, FailureKind::MissingExtensions, missing_names(required, e@))]
            } else if graphics_family(d.queue_flags@) is None {
                seq![(i, FailureKind::NoGraphicsQueue, Seq::<usize>::empty())]
            } else {
                Seq::empty()
            },
        };
        features + last
    }
}

/// The reasons reported for the first `n` devices.
pub open spec fn all_reasons(devices: Seq<DeviceInfo>, n: int, required: Seq<Vec<u8>>) -> Seq<(usize, FailureKind, Seq<usize>)>
    decreases n,
{
    if n <= 0 {
        Seq::empty()
    } else {
        all_reasons(devices, n - 1, required) + device_reasons(devices[n - 1], (n - 1) as usize, required)
    }
}

/// The first queue family that supports graphics, if any.
pub fn validate_queues(queue_flags: &[u32]) -> (r: Option<u32>)
    requires
        queue_flags@.len() <= u32::MAX,
    ensures
        match graphics_family(queue_flags@) {
            Some(i) => r == Some(i as u32),
            None => r is None,
        },
        r matches Some(q) ==> graphics_family(queue_flags@) == Some(q as int),
{
    let mut i: usize = 0;
    while i < queue_flags.len()
        invariant
            i <= queue_flags@.len(),
            queue_flags@.len() <= u32::MAX,
            forall|j: int| 0 <= j < i ==> (#[trigger] queue_flags@[j] & QUEUE_GRAPHICS) != QUEUE_GRAPHICS,
        decreases queue_flags@.len() - i,
    {
        if queue_flags[i] & QUEUE_GRAPHICS == QUEUE_GRAPHICS {
            proof {
                let k = choose|k: int|
                    0 <= k < queue_flags@.len() && #[trigger] (queue_flags@[k] & QUEUE_GRAPHICS) == QUEUE_GRAPHICS
                        && forall|j: int| 0 <= j < k ==> (queue_flags@[j] & QUEUE_GRAPHICS) != QUEUE_GRAPHICS;
                assert(k == i);
            }
            return Some(i as u32);
        }
        i = i + 1;
    }
    None
}

fn feature_value(f: &DeviceFeatures, i: usize) -> (v: u32)
    requires
        i < 6,
    ensures
        v == feature_at(*f, i as int),
{
    if i == 0 {
        f.timeline_semaphore
    } else if i == 1 {
        f.shader_sampled_image_array_non_uniform_indexing
    } else if i == 2 {
        f.runtime_descriptor_array
    } else if i == 3 {
        f.descriptor_binding_partially_bound
    } else if i == 4 {
        f.descriptor_binding_variable_descriptor_count
    } else {
        f.dynamic_rendering
    }
}

/// The device extensions the renderer needs, in order: swapchain,
/// descriptor indexing, dynamic rendering and synchronization2, and the
/// portability subset on macos.
pub open spec fn device_extension_names(macos: bool) -> Seq<Seq<u8>> {
    let base = seq![
        "VK_KHR_swapchain".spec_bytes(),
        "VK_EXT_descriptor_indexing".spec_bytes(),
        "VK_KHR_dynamic_rendering".spec_bytes(),
        "VK_KHR_synchronization2".spec_bytes(),
    ];
    if macos {
        base.push("VK_KHR_portability_subset".spec_bytes())
    } else {
        base
    }
}

/// The device extensions the renderer needs.
pub fn required_device_extensions(macos: bool) -> (r: Vec<Vec<u8>>)
    ensures
        names_view(r@) == device_extension_names(macos),
{
    let mut out: Vec<Vec<u8>> = Vec::new();
    out.push(name_bytes("VK_KHR_swapchain"));
    out.push(name_bytes("VK_EXT_descriptor_indexing"));
    out.push(name_bytes("VK_KHR_dynamic_rendering"));
    out.push(name_bytes("VK_KHR_synchronization2"));
    if macos {
        out.push(name_bytes("VK_KHR_portability_subset"));
    }
    proof {
        assert(names_view(out@) =~= device_extension_names(macos));
    }
    out
}

/// Chooses the physical device: the first usable one, with its first
/// graphics queue family. When none is usable, every reason reported while
/// looking is returned.
pub fn select_physical_device(devices: &[DeviceInfo], required: &[Vec<u8>]) -> (r: Result<(usize, u32), Vec<FailureReason>>)
    requires
        forall|i: int| 0 <= i < devices@.len() ==> (#[trigger] devices@[i]).queue_flags@.len() <= u32::MAX,
    ensures
        match r {
            Ok((i, q)) => {
                &&& 0 <= i < devices@.len()
                &&& device_usable(devices@[i as int], required@)
                &&& forall|j: int| 0 <= j < i ==> !device_usable(#[trigger] devices@[j], required@)
                &&& graphics_family(devices@[i as int].queue_flags@) == Some(q as int)
            },
            Err(reasons) => {
                &&& forall|j: int| 0 <= j < devices@.len() ==> !device_usable(#[trigger] devices@[j], required@)
                &&& reason_views(reasons@) == all_reasons(
                    devices@,
                    devices@.len() as int,
                    required@,
                )
            },
        },
{
    let mut reasons: Vec<FailureReason> = Vec::new();
    let mut i: usize = 0;
    while i < devices.len()
        invariant
            i <= devices@.len(),
            forall|k: int| 0 <= k < devices@.len() ==> (#[trigger] devices@[k]).queue_flags@.len() <= u32::MAX,
            forall|j: int| 0 <= j < i ==> !device_usable(#[trigger] devices@[j], required@),
            reason_views(reasons@) == all_reasons(devices@, i as int, required@),
        decreases devices@.len() - i,
    {
        let d = &devices[i];
        let ghost before = reason_views(reasons@);
        let ghost prev = reasons@;
        let ghost feats = missing_features(d.features, 6).map_values(
            |m: u8| (i, FailureKind::MissingFeature(m), Seq::<usize>::empty()),
        );
        if d.features.dynamic_rendering != 1 {
            reasons.push(FailureReason { device: i, kind: FailureKind::MissingDynamicRendering, missing: Vec::new() });
            proof {
                lemma_reason_views_push(prev, reasons@.last());
                assert(reason_views(reasons@) =~= all_reasons(devices@, i + 1, required@));
            }
        } else {
            let mut f: usize = 0;
            while f < 6
                invariant
                    f <= 6,
                    d.features.dynamic_rendering == 1,
                    reason_views(reasons@) == before + missing_features(d.features, f as int).map_values(
                        |m: u8| (i, FailureKind::MissingFeature(m), Seq::<usize>::empty()),
                    ),
                decreases 6 - f,
            {
                let ghost prev_f = reasons@;
                let ghost ms = missing_features(d.features, f as int);
                let v = feature_value(&d.features, f);
                if v != 1 {
                    reasons.push(FailureReason { device: i, kind: FailureKind::MissingFeature(f as u8), missing: Vec::new() });
                    proof {
                        lemma_reason_views_push(prev_f, reasons@.last());
                        assert(missing_features(d.features, f + 1) == ms.push(f as u8));
                        assert(ms.push(f as u8).map_values(
                            |m: u8| (i, FailureKind::MissingFeature(m), Seq::<usize>::empty()),
                        ) =~= ms.map_values(|m: u8| (i, FailureKind::MissingFeature(m), Seq::<usize>::empty())).push(
                            (i, FailureKind::MissingFeature(f as u8), Seq::<usize>::empty()),
                        ));
                        assert(reason_views(reasons@) =~= before + missing_features(d.features, f + 1).map_values(
                            |m: u8| (i, FailureKind::MissingFeature(m), Seq::<usize>::empty()),
                        ));
                    }
                } else {
                    proof {
                        assert(missing_features(d.features, f + 1) == ms);
                    }
                }
                f = f + 1;
            }
            let ghost prev2 = reasons@;
            proof {
                assert(reason_views(prev2) == before + feats);
            }
            match &d.extensions {
                None => {
                    reasons.push(FailureReason { device: i, kind: FailureKind::ExtensionsUnavailable, missing: Vec::new() });
                    proof {
                        lemma_reason_views_push(prev2, reasons@.last());
                        assert(reason_views(reasons@) =~= all_reasons(devices@, i + 1, required@));
                    }
                },
                Some(extensions) => {
                    let (_found, missing) = select_names(required, extensions);
                    if missing.len() > 0 {
                        reasons.push(FailureReason { device: i, kind: FailureKind::MissingExtensions, missing });
                        proof {
                            lemma_reason_views_push(prev2, reasons@.last());
                            assert(reason_views(reasons@) =~= all_reasons(devices@, i + 1, required@));
                        }
                    } else {
                        match validate_queues(&d.queue_flags) {
                            None => {
                                reasons.push(FailureReason { device: i, kind: FailureKind::NoGraphicsQueue, missing: Vec::new() });
                                proof {
                                    lemma_reason_views_push(prev2, reasons@.last());
                                    assert(reason_views(reasons@) =~= all_reasons(devices@, i + 1, required@));
                                }
                            },
                            Some(q) => {
                                proof {
                                    assert(d.extensions == Some(*extensions));
                                    assert(missing_names(required@, extensions@).len() == 0);
                                    assert(graphics_family(d.queue_flags@) is Some);
                                    assert(device_usable(devices@[i as int], required@));
                                }
                                return Ok((i, q));
                            },
                        }
                    }
                },
            }
        }
        i = i + 1;
    }
    Err(reasons)
}

/// Chooses the physical device for the renderer: builds the list of device
/// extensions it needs on the given platform, returns it with the choice
/// made by [`select_physical_device`] against it.
pub fn setup_device_choice(devices: &[DeviceInfo], macos: bool) -> (r: (
    Vec<Vec<u8>>,
    Result<(usize, u32), Vec<FailureReason>>,
))
    requires
        forall|i: int| 0 <= i < devices@.len() ==> (#[trigger] devices@[i]).queue_flags@.len() <= u32::MAX,
    ensures
        names_view(r.0@) == device_extension_names(macos),
        match r.1 {
            Ok((i, q)) => {
                &&& 0 <= i < devices@.len()
                &&& device_usable(devices@[i as int], r.0@)
                &&& forall|j: int| 0 <= j < i ==> !device_usable(#[trigger] devices@[j], r.0@)
                &&& graphics_family(devices@[i as int].queue_flags@) == Some(q as int)
            },
            Err(reasons) => {
                &&& forall|j: int| 0 <= j < devices@.len() ==> !device_usable(#[trigger] devices@[j], r.0@)
                &&& reason_views(reasons@) == all_reasons(devices@, devices@.len() as int, r.0@)
            },
        },
{
    let required = required_device_extensions(macos);
    let choice = select_physical_device(devices, &required);
    (required, choice)
}

//
// Swapchain
//

/// Present mode that shows images as soon as they are ready.
pub const PRESENT_MODE_IMMEDIATE: i32 = 0;
/// Present mode that waits for the vertical blank.
pub const PRESENT_MODE_FIFO: i32 = 2;
/// Surface transform that leaves images as they are.
pub const TRANSFORM_IDENTITY: u32 = 0x1;
/// Format code of 8 bit blue, green, red, alpha.
pub const FORMAT_B8G8R8A8_UNORM: i32 = 44;
/// Format code of 8 bit red, green, blue, alpha.
pub const FORMAT_R8G8B8A8_UNORM: i32 = 37;

/// The size of the swapchain images: the size of the surface, or the
/// requested size when the surface leaves it to the swapchain (a side is
/// `u32::MAX`).
pub fn select_swapchain_extent(current: (u32, u32), requested: (u32, u32)) -> (r: (u32, u32))
    requires
        current.0 == u32::MAX || current.1 == u32::MAX || (current.0 != 0 && current.1 != 0),
    ensures
        r == if current.0 == u32::MAX || current.1 == u32::MAX {
            requested
        } else {
            current
        },
{
    if current.0 == u32::MAX || current.1 == u32::MAX {
        requested
    } else {
        current
    }
}

/// The number of swapchain images: two, or the surface minimum when it is
/// larger; refused when the surface maximum (`0`: none) is lower.
pub fn select_image_count(min_image_count: u32, max_image_count: u32) -> (r: Result<u32, SetupError>)
    ensures
        ({
            let count = if min_image_count > 2 { min_image_count } else { 2 };
            if max_image_count != 0 && max_image_count < count {
                r matches Err(SetupError::ImageCount { min_image_count: a, max_image_count: b }) && a == min_image_count
                    && b == max_image_count
            } else {
                r matches Ok(c) && c == count
            }
        }),
{
    let mut image_count: u32 = 2;
    if min_image_count > image_count {
        image_count = min_image_count;
    }
    if max_image_count != 0 && max_image_count < image_count || min_image_count > image_count {
        return Err(SetupError::ImageCount { min_image_count, max_image_count });
    }
    Ok(image_count)
}

/// The present mode: immediate when vsync is off and the surface supports
/// it, else fifo.
pub fn select_present_mode(present_modes: &[i32], vsync: bool) -> (r: i32)
    ensures
        r == if !vsync && present_modes@.contains(PRESENT_MODE_IMMEDIATE) {
            PRESENT_MODE_IMMEDIATE
        } else {
            PRESENT_MODE_FIFO
        },
{
    let mut immediate_supported = false;
    let mut i: usize = 0;
    while i < present_modes.len()
        invariant
            i <= present_modes@.len(),
            immediate_supported == exists|j: int| 0 <= j < i && present_modes@[j] == PRESENT_MODE_IMMEDIATE,
        decreases present_modes@.len() - i,
    {
        if present_modes[i] == PRESENT_MODE_IMMEDIATE {
            immediate_supported = true;
        }
        i = i + 1;
    }
    if !vsync && immediate_supported {
        PRESENT_MODE_IMMEDIATE
    } else {
        PRESENT_MODE_FIFO
    }
}

/// The surface transform: identity when supported, else the current one.
pub fn select_transform(current_transform: u32, supported_transforms: u32) -> (r: u32)
    ensures
        r == if supported_transforms & TRANSFORM_IDENTITY == TRANSFORM_IDENTITY {
            TRANSFORM_IDENTITY
        } else {
            current_transform
        },
{
    if supported_transforms & TRANSFORM_IDENTITY == TRANSFORM_IDENTITY {
        TRANSFORM_IDENTITY
    } else {
        current_transform
    }
}

/// A format a surface supports, with its color space.
#[derive(Copy, Clone, PartialEq, Eq, Structural, Debug)]
pub struct SurfaceFormat {
    pub format: i32,
    pub color_space: i32,
}

/// The first supported entry of format `format`.
pub open spec fn first_with_format(formats: Seq<SurfaceFormat>, format: i32) -> Option<int> {
    if exists|i: int| 0 <= i < formats.len() && #[trigger] formats[i].format == format {
        Some(choose|i: int| 0 <= i < formats.len() && #[trigger] formats[i].format == format && forall|j: int| 0 <= j < i ==> formats[j].format != format)
    } else {
        None
    }
}

fn find_format(formats: &[SurfaceFormat], format: i32) -> (r: Option<SurfaceFormat>)
    ensures
        match first_with_format(formats@, format) {
            Some(i) => r == Some(formats@[i]),
            None => r is None,
        },
{
    let mut i: usize = 0;
    while i < formats.len()
        invariant
            i <= formats@.len(),
            forall|j: int| 0 <= j < i ==> #[trigger] formats@[j].format != format,
        decreases formats@.len() - i,
    {
        if formats[i].format == format {
            proof {
                let k = choose|k: int|
                    0 <= k < formats@.len() && #[trigger] formats@[k].format == format && forall|j: int|
                        0 <= j < k ==> formats@[j].format != format;
                assert(k == i);
            }
            return Some(formats[i]);
        }
        i = i + 1;
    }
    None
}

/// The swapchain format: the first supported entry in blue-green-red-alpha,
/// else the first in red-green-blue-alpha; refused when neither is
/// supported.
pub fn select_swapchain_format(formats: &[SurfaceFormat]) -> (r: Result<SurfaceFormat, SetupError>)
    ensures
        match first_with_format(formats@, FORMAT_B8G8R8A8_UNORM) {
            Some(i) => r matches Ok(f) && f == formats@[i],
            None => match first_with_format(formats@, FORMAT_R8G8B8A8_UNORM) {
                Some(i) => r matches Ok(f) && f == formats@[i],
                None => r matches Err(SetupError::UnsupportedFormat),
            },
        },
{
    match find_format(formats, FORMAT_B8G8R8A8_UNORM) {
        Some(f) => Ok(f),
        None => match find_format(formats, FORMAT_R8G8B8A8_UNORM) {
            Some(f) => Ok(f),
            None => Err(SetupError::UnsupportedFormat),
        },
    }
}

/// The sample counts a render target may use, from the largest.
pub open spec fn sample_count_at(i: int) -> u32 {
    if i == 0 {
        16
    } else if i == 1 {
        8
    } else if i == 2 {
        4
    } else if i == 3 {
        2
    } else {
        1
    }
}

/// The largest sample count among 16, 8, 4, 2 and 1 that `supported`
/// contains; 1 when it contains none.
pub fn max_sample(supported: u32) -> (r: u32)
    ensures
        (exists|i: int|
            0 <= i < 5 && r == sample_count_at(i) && (#[trigger] sample_count_at(i) & supported) == sample_count_at(i)
                && forall|j: int| 0 <= j < i ==> (sample_count_at(j) & supported) != sample_count_at(j))
            || (r == 1 && forall|j: int| 0 <= j < 5 ==> (#[trigger] sample_count_at(j) & supported) != sample_count_at(j)),
{
    let samples: [u32; 5] = [16, 8, 4, 2, 1];
    let mut i: usize = 0;
    while i < 5
        invariant
            i <= 5,
            samples@ == seq![16u32, 8u32, 4u32, 2u32, 1u32],
            forall|j: int| 0 <= j < i ==> (#[trigger] sample_count_at(j) & supported) != sample_count_at(j),
        decreases 5 - i,
    {
        let sample = samples[i];
        assert(sample == sample_count_at(i as int));
        if sample & supported == sample {
            return sample;
        }
        i = i + 1;
    }
    1
}

/// Memory property: local to the device.
pub const DEVICE_LOCAL: u32 = 0x1;

/// The memory type for the attachments: the first whose properties are
/// exactly device local, else the last that is device local among others.
pub open spec fn attachments_memory_index(flags: Seq<u32>) -> int {
    if exists|i: int| 0 <= i < flags.len() && #[trigger] flags[i] == DEVICE_LOCAL {
        choose|i: int| 0 <= i < flags.len() && #[trigger] flags[i] == DEVICE_LOCAL && forall|j: int| 0 <= j < i ==> flags[j] != DEVICE_LOCAL
    } else {
        choose|i: int| 0 <= i < flags.len() && (#[trigger] flags[i] & DEVICE_LOCAL) == DEVICE_LOCAL && forall|j: int| i < j < flags.len() ==> (flags[j] & DEVICE_LOCAL) != DEVICE_LOCAL
    }
}

/// The memory type for the attachments, given the property flags of each
/// memory type. Some memory type must be device local.
pub fn fetch_attachments_memory_index(flags: &[u32]) -> (r: u32)
    requires
        flags@.len() <= u32::MAX,
        exists|i: int| 0 <= i < flags@.len() && (#[trigger] flags@[i] & DEVICE_LOCAL) == DEVICE_LOCAL,
    ensures
        r == attachments_memory_index(flags@),
{
    let mut found: Option<u32> = None;
    let mut i: usize = 0;
    while i < flags.len()
        invariant
            i <= flags@.len(),
            flags@.len() <= u32::MAX,
            forall|j: int| 0 <= j < i ==> #[trigger] flags@[j] != DEVICE_LOCAL,
            match found {
                Some(k) => k < i && (flags@[k as int] & DEVICE_LOCAL) == DEVICE_LOCAL && forall|j: int| k < j < i ==> (#[trigger] flags@[j] & DEVICE_LOCAL) != DEVICE_LOCAL,
                None => forall|j: int| 0 <= j < i ==> (#[trigger] flags@[j] & DEVICE_LOCAL) != DEVICE_LOCAL,
            },
        decreases flags@.len() - i,
    {
        if flags[i] == DEVICE_LOCAL {
            proof {
                let k = choose|k: int| 0 <= k < flags@.len() && #[trigger] flags@[k] == DEVICE_LOCAL && forall|j: int| 0 <= j < k ==> flags@[j] != DEVICE_LOCAL;
                assert(k == i);
            }
            return i as u32;
        }
        if flags[i] & DEVICE_LOCAL == DEVICE_LOCAL {
            found = Some(i as u32);
        }
        i = i + 1;
    }
    match found {
        Some(k) => {
            proof {
                let c = choose|c: int| 0 <= c < flags@.len() && (#[trigger] flags@[c] & DEVICE_LOCAL) == DEVICE_LOCAL && forall|j: int| c < j < flags@.len() ==> (flags@[j] & DEVICE_LOCAL) != DEVICE_LOCAL;
                if c < k {
                    assert((flags@[k as int] & DEVICE_LOCAL) != DEVICE_LOCAL);
                } else if c > k {
                    assert((flags@[c] & DEVICE_LOCAL) != DEVICE_LOCAL);
                }
            }
            k
        },
        None => {
            proof {
                let c = choose|c: int| 0 <= c < flags@.len() && (#[trigger] flags@[c] & DEVICE_LOCAL) == DEVICE_LOCAL;
                assert(false);
            }
            0
        },
    }
}

/// Offsets of the color and depth attachments in their shared memory, and
/// the size of that memory: each is placed after the previous one, aligned
/// to its own alignment.
pub fn attachments_memory_layout(sizes: [u64; 2], alignments: [u64; 2]) -> (r: ([u64; 2], u64))
    requires
        is_power_of_two(alignments[0] as int),
        is_power_of_two(alignments[1] as int),
        alignments[0] + sizes[0] + alignments[1] + sizes[1] <= i64::MAX,
    ensures
        r.0[0] == align_up(0, alignments[0] as int),
        r.0[1] == align_up(r.0[0] + sizes[0], alignments[1] as int),
        r.1 == r.0[1] + sizes[1],
{
    proof {
        crate::memory::lemma_power_of_two_positive(alignments[0] as int);
        crate::memory::lemma_power_of_two_positive(alignments[1] as int);
        crate::memory::lemma_align_up(0, alignments[0] as int);
    }
    let first = align_device(0, alignments[0]);
    let after_first = first + sizes[0];
    proof {
        crate::memory::lemma_align_up(after_first as int, alignments[1] as int);
    }
    let second = align_device(after_first, alignments[1]);
    ([first, second], second + sizes[1])
}


/// Format feature: usable as a color attachment with optimal tiling.
pub const FEATURE_COLOR_ATTACHMENT: u32 = 0x80;
/// Format feature: usable as a depth stencil attachment with optimal tiling.
pub const FEATURE_DEPTH_STENCIL_ATTACHMENT: u32 = 0x200;

/// The color formats the renderer can use, in order of preference: blue,
/// green, red, alpha and red, green, blue, alpha, both 8 bit srgb.
pub open spec fn color_format_candidates() -> Seq<i32> {
    seq![50i32, 43i32]
}

/// The depth formats the renderer can use, in order of preference.
pub open spec fn depth_format_candidates() -> Seq<i32> {
    seq![126i32, 124i32, 130i32, 129i32, 128i32]
}

/// The first candidate whose optimal tiling features contain `required`,
/// `features[i]` being the features of `candidates[i]`.
pub open spec fn first_supported(candidates: Seq<i32>, features: Seq<u32>, required: u32) -> Option<i32>
    decreases candidates.len(),
{
    if candidates.len() == 0 || features.len() == 0 {
        None
    } else if features[0] & required == required {
        Some(candidates[0])
    } else {
        first_supported(candidates.drop_first(), features.drop_first(), required)
    }
}

fn select_format(candidates: &[i32], features: &[u32], required: u32) -> (r: Option<i32>)
    requires
        candidates@.len() == features@.len(),
    ensures
        r == first_supported(candidates@, features@, required),
{
    proof {
        assert(candidates@.skip(0) =~= candidates@);
        assert(features@.skip(0) =~= features@);
    }
    let mut i: usize = 0;
    while i < candidates.len()
        invariant
            candidates@.len() == features@.len(),
            i <= candidates@.len(),
            first_supported(candidates@, features@, required) == first_supported(
                candidates@.skip(i as int),
                features@.skip(i as int),
                required,
            ),
        decreases candidates@.len() - i,
    {
        proof {
            assert(candidates@.skip(i as int).drop_first() =~= candidates@.skip(i + 1));
            assert(features@.skip(i as int).drop_first() =~= features@.skip(i + 1));
        }
        if features[i] & required == required {
            return Some(candidates[i]);
        }
        i = i + 1;
    }
    None
}

/// The color attachment format: the first candidate that supports color
/// attachments, given the optimal tiling features of each candidate.
pub fn color_format(features: &[u32; 2]) -> (r: Option<i32>)
    ensures
        r == first_supported(color_format_candidates(), features@, FEATURE_COLOR_ATTACHMENT),
{
    let candidates: [i32; 2] = [50, 43];
    proof {
        assert(candidates@ =~= color_format_candidates());
    }
    select_format(&candidates, features, FEATURE_COLOR_ATTACHMENT)
}

/// The depth attachment format: the first candidate that supports depth
/// stencil attachments, given the optimal tiling features of each candidate.
pub fn depth_format(features: &[u32; 5]) -> (r: Option<i32>)
    ensures
        r == first_supported(depth_format_candidates(), features@, FEATURE_DEPTH_STENCIL_ATTACHMENT),
{
    let candidates: [i32; 5] = [126, 124, 130, 129, 128];
    proof {
        assert(candidates@ =~= depth_format_candidates());
    }
    select_format(&candidates, features, FEATURE_DEPTH_STENCIL_ATTACHMENT)
}

} // verus!
