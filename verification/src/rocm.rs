//! The on-demand per-GPU ROCm SDK runtime: where it lives, which wheels
//! make it up, which files mark it complete and which libraries are
//! preloaded before libtorch.

use vstd::prelude::*;
use vstd::string::StringExecFns;

use crate::platform::{Os, Platform};

verus! {

/// ROCm SDK release published on the AMD wheel index; must match the pinned
/// libtorch (`rocm7.14`).
pub const ROCM_VERSION: &'static str = "7.14.0";

/// AMD wheel index hosting the ROCm torch and SDK packages.
pub const INDEX: &'static str = "https://repo.amd.com/rocm/whl-multi-arch";

/// The wheel platform tag of the host.
pub open spec fn spec_wheel_platform(p: Platform) -> &'static str {
    if p.os == Os::Windows && p.x86_64 {
        "win_amd64"
    } else {
        "linux_x86_64"
    }
}

/// The wheel platform tag of the host.
pub fn wheel_platform(p: Platform) -> (r: &'static str)
    ensures
        r == spec_wheel_platform(p),
{
    if p.os == Os::Windows && p.x86_64 {
        "win_amd64"
    } else {
        "linux_x86_64"
    }
}

/// Path components, under the data dir, of the SDK install for `target`.
pub fn install_dir(target: &str) -> (r: Vec<String>)
    ensures
        r.len() == 3,
        r@[0]@ == "rocm"@,
        r@[1]@ == ROCM_VERSION@,
        r@[2]@ == target@,
{
    let mut r: Vec<String> = Vec::new();
    r.push(String::from_str("rocm"));
    r.push(String::from_str(ROCM_VERSION));
    r.push(target.to_owned());
    r
}

/// The two files (relative to the install root) whose presence marks the
/// per-GPU SDK complete.
pub fn completion_markers(p: Platform) -> (r: (&'static str, &'static str))
    ensures
        r == (if p.os == Os::Windows {
            ("_rocm_sdk_core/bin/amdhip64_7.dll", "_rocm_sdk_libraries/bin/MIOpen.dll")
        } else {
            ("_rocm_sdk_core/lib/libamdhip64.so.7", "_rocm_sdk_libraries/lib/libMIOpen.so.1")
        }),
{
    if p.os == Os::Windows {
        ("_rocm_sdk_core/bin/amdhip64_7.dll", "_rocm_sdk_libraries/bin/MIOpen.dll")
    } else {
        ("_rocm_sdk_core/lib/libamdhip64.so.7", "_rocm_sdk_libraries/lib/libMIOpen.so.1")
    }
}

/// Whether the per-GPU SDK is fully present on disk, from whether each of
/// the two completion markers (see `completion_markers`) exists as a file.
pub fn is_complete(core_marker: bool, libraries_marker: bool) -> (r: bool)
    ensures
        r == (core_marker && libraries_marker),
{
    core_marker && libraries_marker
}

/// One SDK wheel to fetch: its file name, its URL, and the archive prefix
/// to extract from it.
pub struct SdkWheel {
    pub file: String,
    pub url: String,
    pub prefix: &'static str,
}

/// `<name>-7.14.0-py3-none-<platform>.whl`.
pub open spec fn sdk_wheel_file(name: Seq<char>, p: Platform) -> Seq<char> {
    name + "-"@ + ROCM_VERSION@ + "-py3-none-"@ + spec_wheel_platform(p)@ + ".whl"@
}

fn wheel(name: &str, p: Platform, prefix: &'static str) -> (r: SdkWheel)
    ensures
        r.file@ == sdk_wheel_file(name@, p),
        r.url@ == INDEX@ + "/"@ + sdk_wheel_file(name@, p),
        r.prefix == prefix,
{
    let mut file = name.to_owned();
    file.append("-");
    file.append(ROCM_VERSION);
    file.append("-py3-none-");
    file.append(wheel_platform(p));
    file.append(".whl");
    let mut url = String::from_str(INDEX);
    url.append("/");
    url.append(file.as_str());
    proof {
        assert(file@ =~= sdk_wheel_file(name@, p));
        assert(url@ =~= INDEX@ + "/"@ + sdk_wheel_file(name@, p));
    }
    SdkWheel { file, url, prefix }
}

/// The three per-GPU SDK wheels, in download order: the core runtime, the
/// math libraries and the device kernels for `target`.
pub fn sdk_wheels(target: &str, p: Platform) -> (r: Vec<SdkWheel>)
    ensures
        r.len() == 3,
        r@[0].file@ == sdk_wheel_file("rocm_sdk_core"@, p),
        r@[0].prefix == "_rocm_sdk_core",
        r@[1].file@ == sdk_wheel_file("rocm_sdk_libraries"@, p),
        r@[1].prefix == "_rocm_sdk_libraries",
        r@[2].file@ == sdk_wheel_file("rocm_sdk_device_"@ + target@, p),
        r@[2].prefix == "_rocm_sdk_libraries",
        forall|i: int| 0 <= i < 3 ==> (#[trigger] r@[i]).url@ == INDEX@ + "/"@ + r@[i].file@,
{
    let mut device = String::from_str("rocm_sdk_device_");
    device.append(target);
    let mut r: Vec<SdkWheel> = Vec::new();
    r.push(wheel("rocm_sdk_core", p, "_rocm_sdk_core"));
    r.push(wheel("rocm_sdk_libraries", p, "_rocm_sdk_libraries"));
    r.push(wheel(device.as_str(), p, "_rocm_sdk_libraries"));
    r
}

/// The SDK libraries (relative to the install root) to preload with
/// RTLD_GLOBAL before libtorch, in dependency order.
pub fn preload_libs(p: Platform) -> (r: Vec<&'static str>)
    ensures
        p.os == Os::Windows ==> r@ == seq![
            "_rocm_sdk_core/bin/amd_comgr.dll",
            "_rocm_sdk_core/bin/rocm_kpack.dll",
            "_rocm_sdk_core/bin/rocm-openblas.dll",
            "_rocm_sdk_core/bin/amdhip64_7.dll",
            "_rocm_sdk_core/bin/hiprtc-builtins0714.dll",
            "_rocm_sdk_core/bin/hiprtc0714.dll",
            "_rocm_sdk_libraries/bin/rocrand.dll",
            "_rocm_sdk_libraries/bin/hiprand.dll",
            "_rocm_sdk_libraries/bin/rocblas.dll",
            "_rocm_sdk_libraries/bin/hipblas.dll",
            "_rocm_sdk_libraries/bin/libhipblaslt.dll",
            "_rocm_sdk_libraries/bin/rocfft.dll",
            "_rocm_sdk_libraries/bin/hipfft.dll",
            "_rocm_sdk_libraries/bin/rocsolver.dll",
            "_rocm_sdk_libraries/bin/hipsolver.dll",
            "_rocm_sdk_libraries/bin/rocsparse.dll",
            "_rocm_sdk_libraries/bin/hipsparse.dll",
            "_rocm_sdk_libraries/bin/MIOpen.dll",
        ],
        p.os != Os::Windows ==> r@ == seq![
            "_rocm_sdk_core/lib/librocprofiler-register.so.0",
            "_rocm_sdk_core/lib/libamd_comgr.so.3",
            "_rocm_sdk_core/lib/libhsa-runtime64.so.1",
            "_rocm_sdk_core/lib/libamdhip64.so.7",
            "_rocm_sdk_core/lib/librocprofiler-sdk.so.1",
            "_rocm_sdk_core/lib/librocprofiler-sdk-roctx.so.1",
            "_rocm_sdk_core/lib/libroctracer64.so.4",
            "_rocm_sdk_core/lib/libroctx64.so.4",
            "_rocm_sdk_core/lib/libhiprtc-builtins.so.7",
            "_rocm_sdk_core/lib/libhiprtc.so.7",
            "_rocm_sdk_core/lib/rocm_sysdeps/lib/librocm_sysdeps_liblzma.so.5",
            "_rocm_sdk_core/lib/host-math/lib/librocm-openblas.so.0",
            "_rocm_sdk_core/lib/librocm_smi64.so.1",
            "_rocm_sdk_libraries/lib/librocblas.so.5",
            "_rocm_sdk_libraries/lib/libhipblas.so.3",
            "_rocm_sdk_libraries/lib/libhipblaslt.so.1",
            "_rocm_sdk_libraries/lib/librocfft.so.0",
            "_rocm_sdk_libraries/lib/libhipfft.so.0",
            "_rocm_sdk_libraries/lib/librocrand.so.1",
            "_rocm_sdk_libraries/lib/libhiprand.so.1",
            "_rocm_sdk_libraries/lib/librocsolver.so.0",
            "_rocm_sdk_libraries/lib/libhipsolver.so.1",
            "_rocm_sdk_libraries/lib/librocsparse.so.1",
            "_rocm_sdk_libraries/lib/libhipsparse.so.4",
            "_rocm_sdk_libraries/lib/libhipsparselt.so.0",
            "_rocm_sdk_libraries/lib/libMIOpen.so.1",
            "_rocm_sdk_libraries/lib/libhipdnn_backend.so",
            "_rocm_sdk_libraries/lib/librccl.so.1",
        ],
{
    if p.os == Os::Windows {
        vec![
            "_rocm_sdk_core/bin/amd_comgr.dll",
            "_rocm_sdk_core/bin/rocm_kpack.dll",
            "_rocm_sdk_core/bin/rocm-openblas.dll",
            "_rocm_sdk_core/bin/amdhip64_7.dll",
            "_rocm_sdk_core/bin/hiprtc-builtins0714.dll",
            "_rocm_sdk_core/bin/hiprtc0714.dll",
            "_rocm_sdk_libraries/bin/rocrand.dll",
            "_rocm_sdk_libraries/bin/hiprand.dll",
            "_rocm_sdk_libraries/bin/rocblas.dll",
            "_rocm_sdk_libraries/bin/hipblas.dll",
            "_rocm_sdk_libraries/bin/libhipblaslt.dll",
            "_rocm_sdk_libraries/bin/rocfft.dll",
            "_rocm_sdk_libraries/bin/hipfft.dll",
            "_rocm_sdk_libraries/bin/rocsolver.dll",
            "_rocm_sdk_libraries/bin/hipsolver.dll",
            "_rocm_sdk_libraries/bin/rocsparse.dll",
            "_rocm_sdk_libraries/bin/hipsparse.dll",
            "_rocm_sdk_libraries/bin/MIOpen.dll",
        ]
    } else {
        vec![
            "_rocm_sdk_core/lib/librocprofiler-register.so.0",
            "_rocm_sdk_core/lib/libamd_comgr.so.3",
            "_rocm_sdk_core/lib/libhsa-runtime64.so.1",
            "_rocm_sdk_core/lib/libamdhip64.so.7",
            "_rocm_sdk_core/lib/librocprofiler-sdk.so.1",
            "_rocm_sdk_core/lib/librocprofiler-sdk-roctx.so.1",
            "_rocm_sdk_core/lib/libroctracer64.so.4",
            "_rocm_sdk_core/lib/libroctx64.so.4",
            "_rocm_sdk_core/lib/libhiprtc-builtins.so.7",
            "_rocm_sdk_core/lib/libhiprtc.so.7",
            "_rocm_sdk_core/lib/rocm_sysdeps/lib/librocm_sysdeps_liblzma.so.5",
            "_rocm_sdk_core/lib/host-math/lib/librocm-openblas.so.0",
            "_rocm_sdk_core/lib/librocm_smi64.so.1",
            "_rocm_sdk_libraries/lib/librocblas.so.5",
            "_rocm_sdk_libraries/lib/libhipblas.so.3",
            "_rocm_sdk_libraries/lib/libhipblaslt.so.1",
            "_rocm_sdk_libraries/lib/librocfft.so.0",
            "_rocm_sdk_libraries/lib/libhipfft.so.0",
            "_rocm_sdk_libraries/lib/librocrand.so.1",
            "_rocm_sdk_libraries/lib/libhiprand.so.1",
            "_rocm_sdk_libraries/lib/librocsolver.so.0",
            "_rocm_sdk_libraries/lib/libhipsolver.so.1",
            "_rocm_sdk_libraries/lib/librocsparse.so.1",
            "_rocm_sdk_libraries/lib/libhipsparse.so.4",
            "_rocm_sdk_libraries/lib/libhipsparselt.so.0",
            "_rocm_sdk_libraries/lib/libMIOpen.so.1",
            "_rocm_sdk_libraries/lib/libhipdnn_backend.so",
            "_rocm_sdk_libraries/lib/librccl.so.1",
        ]
    }
}

} // verus!
