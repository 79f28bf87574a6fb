//! Runtime libtorch resolution (CUDA/ROCm only, no CPU): which build to use
//! for the detected hardware, where it is installed, where it is fetched
//! from, and which files make an install complete.

use vstd::prelude::*;
use vstd::string::StringExecFns;

use crate::hardware::{has_devices, Hardware};
use crate::platform::{has_prefix, str_starts_with, Platform};
use crate::rocm::{spec_wheel_platform, wheel_platform, ROCM_VERSION};

verus! {

/// Torch release of the CUDA libtorch zips (download.pytorch.org).
pub const TORCH_VERSION: &'static str = "2.11.0";

/// ROCm torch release from the AMD wheel index; pinned to the ROCm SDK.
pub const ROCM_TORCH_VERSION: &'static str = "2.12.0";

/// Relative install dir inside the data dir.
pub const INSTALL_DIR: &'static str = "libtorch";

/// AMD wheel index hosting the ROCm torch and SDK packages.
pub const ROCM_INDEX: &'static str = "https://repo.amd.com/rocm/whl-multi-arch";

/// The arch family whose device wheel carries the aotriton kernels.
pub open spec fn spec_torch_family(target: Seq<char>) -> Option<&'static str> {
    if has_prefix(target, "gfx11"@) {
        Some("gfx11")
    } else if has_prefix(target, "gfx12"@) {
        Some("gfx12_0")
    } else {
        None
    }
}

/// Per-GPU `.kpack`/aotriton kernels live in per-GPU and per-family device
/// wheels; the family wheel covers the whole arch family (e.g. `gfx12_0`).
pub fn torch_family(target: &str) -> (r: Option<&'static str>)
    ensures
        r == spec_torch_family(target@),
{
    if str_starts_with(target, "gfx11") {
        Some("gfx11")
    } else if str_starts_with(target, "gfx12") {
        Some("gfx12_0")
    } else {
        None
    }
}

/// Which GPU backend variant to fetch. CPU is intentionally excluded.
#[derive(Clone, Copy, Debug, PartialEq, Eq)]
pub enum TorchVariant {
    /// NVIDIA CUDA build (e.g. `cu128`).
    Cuda(&'static str),
    /// AMD ROCm build (e.g. `rocm7.14`).
    Rocm(&'static str),
}

/// A libtorch device for the tch engine.
#[derive(Clone, Copy, Debug, PartialEq, Eq, Structural)]
pub enum TchDevice {
    /// CUDA device index; maps to ROCm on an AMD libtorch build.
    Cuda(usize),
    /// Apple silicon Metal Performance Shaders.
    Mps,
}

/// The device directory name of a variant (`cu128`, `rocm7.14`).
pub open spec fn variant_dir(v: TorchVariant) -> &'static str {
    match v {
        TorchVariant::Cuda(d) => d,
        TorchVariant::Rocm(d) => d,
    }
}

/// The torch release of a variant.
pub open spec fn variant_version(v: TorchVariant) -> &'static str {
    match v {
        TorchVariant::Cuda(_) => TORCH_VERSION,
        TorchVariant::Rocm(_) => ROCM_TORCH_VERSION,
    }
}

/// `<index>/<package>-2.12.0%2Brocm7.14.0-cp312-cp312-<platform>.whl`.
pub open spec fn rocm_wheel_url(package: Seq<char>, p: Platform) -> Seq<char> {
    ROCM_INDEX@ + "/"@ + package + "-"@ + ROCM_TORCH_VERSION@ + "%2Brocm"@ + ROCM_VERSION@
        + "-cp312-cp312-"@ + spec_wheel_platform(p)@ + ".whl"@
}

/// Where a variant's libtorch archive is downloaded from.
pub open spec fn variant_url(v: TorchVariant, p: Platform) -> Seq<char> {
    match v {
        TorchVariant::Cuda(d) => "https://download.pytorch.org/libtorch/"@ + d@
            + "/libtorch-shared-with-deps-"@ + TORCH_VERSION@ + "%2B"@ + d@ + ".zip"@,
        TorchVariant::Rocm(_) => rocm_wheel_url("torch"@, p),
    }
}

/// The shared libraries a complete install holds under `lib/`.
pub open spec fn variant_libs(v: TorchVariant) -> Seq<&'static str> {
    match v {
        TorchVariant::Cuda(_) => seq![
            "libc10.so",
            "libtorch.so",
            "libtorch_cpu.so",
            "libtorch_cuda.so",
            "libc10_cuda.so",
            "libcaffe2_nvrtc.so",
        ],
        TorchVariant::Rocm(_) => seq![
            "libc10.so",
            "libc10_hip.so",
            "libaotriton_v2.so.0.11.2",
            "libcaffe2_nvrtc.so",
            "libshm.so",
            "libtorch_global_deps.so",
            "libtorch_cpu.so",
            "libtorch_hip.so",
            "libtorch_rocshmem.so",
            "libtorch.so",
        ],
    }
}

/// Concatenation of two string slices.
fn concat(a: &str, b: &str) -> (r: String)
    ensures
        r@ == a@ + b@,
{
    let mut s = a.to_owned();
    s.append(b);
    s
}

/// The URL of the ROCm wheel `package`.
fn rocm_wheel(package: &str, p: Platform) -> (r: String)
    ensures
        r@ == rocm_wheel_url(package@, p),
{
    let mut s = concat(ROCM_INDEX, "/");
    s.append(package);
    s.append("-");
    s.append(ROCM_TORCH_VERSION);
    s.append("%2Brocm");
    s.append(ROCM_VERSION);
    s.append("-cp312-cp312-");
    s.append(wheel_platform(p));
    s.append(".whl");
    proof {
        assert(s@ =~= rocm_wheel_url(package@, p));
    }
    s
}

impl TorchVariant {
    /// The device directory name (`cu128`, `rocm7.14`).
    pub fn libtorch_dir(&self) -> (r: &'static str)
        ensures
            r == variant_dir(*self),
    {
        match self {
            TorchVariant::Cuda(device) => device,
            TorchVariant::Rocm(device) => device,
        }
    }

    /// The torch release of this variant.
    pub fn version(&self) -> (r: &'static str)
        ensures
            r == variant_version(*self),
    {
        match self {
            TorchVariant::Cuda(_) => TORCH_VERSION,
            TorchVariant::Rocm(_) => ROCM_TORCH_VERSION,
        }
    }

    /// Where the libtorch archive of this variant is downloaded from, for a
    /// host of platform `p`.
    pub fn url(&self, p: Platform) -> (r: String)
        ensures
            r@ == variant_url(*self, p),
    {
        match self {
            TorchVariant::Cuda(device) => {
                let mut s = concat("https://download.pytorch.org/libtorch/", device);
                s.append("/libtorch-shared-with-deps-");
                s.append(TORCH_VERSION);
                s.append("%2B");
                s.append(device);
                s.append(".zip");
                proof {
                    assert(s@ =~= variant_url(*self, p));
                }
                s
            },
            TorchVariant::Rocm(_) => rocm_wheel("torch", p),
        }
    }

    /// The additional ROCm wheels: the per-GPU `.kpack` kernels, then the
    /// per-family aotriton kernels where `target` has a family.
    pub fn rocm_device_urls(&self, target: &str, p: Platform) -> (r: Vec<String>)
        ensures
            r.len() == if spec_torch_family(target@) is Some { 2int } else { 1int },
            r@[0]@ == rocm_wheel_url("amd_torch_device_"@ + target@, p),
            spec_torch_family(target@) matches Some(f) ==> r@[1]@ == rocm_wheel_url(
                "amd_torch_device_"@ + f@,
                p,
            ),
    {
        let mut urls: Vec<String> = Vec::new();
        let device = concat("amd_torch_device_", target);
        urls.push(rocm_wheel(device.as_str(), p));
        match torch_family(target) {
            Some(family) => {
                let name = concat("amd_torch_device_", family);
                urls.push(rocm_wheel(name.as_str(), p));
            },
            None => {},
        }
        urls
    }

    /// The shared libraries a complete install holds under `lib/`.
    pub fn expected_libs(&self) -> (r: Vec<&'static str>)
        ensures
            r@ == variant_libs(*self),
    {
        match self {
            TorchVariant::Cuda(_) => vec![
                "libc10.so",
                "libtorch.so",
                "libtorch_cpu.so",
                "libtorch_cuda.so",
                "libc10_cuda.so",
                "libcaffe2_nvrtc.so",
            ],
            TorchVariant::Rocm(_) => vec![
                "libc10.so",
                "libc10_hip.so",
                "libaotriton_v2.so.0.11.2",
                "libcaffe2_nvrtc.so",
                "libshm.so",
                "libtorch_global_deps.so",
                "libtorch_cpu.so",
                "libtorch_hip.so",
                "libtorch_rocshmem.so",
                "libtorch.so",
            ],
        }
    }

    /// The install directory of this variant inside `INSTALL_DIR`:
    /// `<version>-<device>`.
    pub fn install_subdir(&self) -> (r: String)
        ensures
            r@ == variant_version(*self)@ + "-"@ + variant_dir(*self)@,
    {
        let mut s = concat(self.version(), "-");
        s.append(self.libtorch_dir());
        s
    }
}

/// The resolved libtorch install: its `lib` directory (for rpath/dlopen) and
/// the chosen variant.
pub struct TorchInstall {
    pub variant: TorchVariant,
    pub lib_dir: String,
}

/// The variant picked for detected hardware: CUDA wins over ROCm.
pub open spec fn spec_pick_variant(hw: Hardware) -> Option<TorchVariant> {
    if has_devices(hw.cuda) {
        Some(TorchVariant::Cuda("cu128"))
    } else if has_devices(hw.rocm) {
        Some(TorchVariant::Rocm("rocm7.14"))
    } else {
        None
    }
}

/// Pick the variant from detected hardware (CUDA wins over ROCm when both).
pub fn pick_variant(hardware: &Hardware) -> (r: Option<TorchVariant>)
    ensures
        r == spec_pick_variant(*hardware),
{
    if hardware.supports_cuda() {
        Some(TorchVariant::Cuda("cu128"))
    } else if hardware.supports_rocm() {
        Some(TorchVariant::Rocm("rocm7.14"))
    } else {
        None
    }
}

/// The variant of a local libtorch install, from which of its libraries are
/// present: none without `libtorch.so`; a HIP build wins over a CUDA one; a
/// CPU-only build is not used.
pub fn local_variant(has_libtorch: bool, has_hip: bool, has_cuda: bool) -> (r: Option<TorchVariant>)
    ensures
        r == if !has_libtorch {
            None
        } else if has_hip {
            Some(TorchVariant::Rocm("rocm7.14"))
        } else if has_cuda {
            Some(TorchVariant::Cuda("cu128"))
        } else {
            None
        },
{
    if !has_libtorch {
        None
    } else if has_hip {
        Some(TorchVariant::Rocm("rocm7.14"))
    } else if has_cuda {
        Some(TorchVariant::Cuda("cu128"))
    } else {
        None
    }
}

/// Which archive entries are unpacked into the install: from a ROCm wheel
/// only the libraries (`torch/lib/…`) and kernel packs (`torch/.kpack/…`);
/// from a CUDA archive everything.
pub fn keeps_entry(rocm_wheel: bool, name: &str) -> (r: bool)
    ensures
        r == (!rocm_wheel || has_prefix(name@, "torch/lib/"@) || has_prefix(name@, "torch/.kpack/"@)),
{
    !rocm_wheel || str_starts_with(name, "torch/lib/") || str_starts_with(name, "torch/.kpack/")
}

/// What finding the libtorch runtime has learned at each of its stages.
#[derive(Clone, Copy, Debug)]
pub enum ResolveEvent {
    /// The variant of a local install, when one is opted into and usable, and
    /// the variant the detected hardware calls for (`None`: no GPU).
    Probed { local: Option<TorchVariant>, picked: Option<TorchVariant> },
    /// Whether the cached install of `variant` has every required file.
    CacheChecked { variant: TorchVariant, complete: bool },
    /// Whether the install of `variant` is complete after its download.
    Downloaded { variant: TorchVariant, complete: bool },
}

/// What to do next.
#[derive(Clone, Copy, Debug, PartialEq, Eq)]
pub enum ResolveAction {
    /// Use this install: the local one, or the one under the data dir.
    Use { variant: TorchVariant, local: bool },
    /// No GPU was detected: there is no runtime to use.
    NoDevice,
    /// Check whether the cached install of this variant is complete.
    CheckCache(TorchVariant),
    /// Discard the partial install and download this variant.
    Download(TorchVariant),
    /// The download left an incomplete install.
    Incomplete,
}

/// The order in which the runtime is found: an opted-in local install
/// first, then the variant for the hardware (none without a GPU), its cached
/// install when complete, else a download that must leave a complete one.
pub fn resolve_next(e: ResolveEvent) -> (a: ResolveAction)
    ensures
        match e {
            ResolveEvent::Probed { local, picked } => match (local, picked) {
                (Some(v), _) => a == (ResolveAction::Use { variant: v, local: true }),
                (None, None) => a == ResolveAction::NoDevice,
                (None, Some(v)) => a == ResolveAction::CheckCache(v),
            },
            ResolveEvent::CacheChecked { variant, complete } => a == if complete {
                ResolveAction::Use { variant, local: false }
            } else {
                ResolveAction::Download(variant)
            },
            ResolveEvent::Downloaded { variant, complete } => a == if complete {
                ResolveAction::Use { variant, local: false }
            } else {
                ResolveAction::Incomplete
            },
        },
{
    match e {
        ResolveEvent::Probed { local, picked } => match local {
            Some(v) => ResolveAction::Use { variant: v, local: true },
            None => match picked {
                None => ResolveAction::NoDevice,
                Some(v) => ResolveAction::CheckCache(v),
            },
        },
        ResolveEvent::CacheChecked { variant, complete } => if complete {
            ResolveAction::Use { variant, local: false }
        } else {
            ResolveAction::Download(variant)
        },
        ResolveEvent::Downloaded { variant, complete } => if complete {
            ResolveAction::Use { variant, local: false }
        } else {
            ResolveAction::Incomplete
        },
    }
}

impl ResolveAction {
    /// The error message of a failed resolution; `None` for the others.
    pub fn failure(&self) -> (r: Option<&'static str>)
        ensures
            r == match *self {
                ResolveAction::Incomplete => Some("libtorch download incomplete"),
                _ => None,
            },
    {
        match self {
            ResolveAction::Incomplete => Some("libtorch download incomplete"),
            _ => None,
        }
    }
}

/// `lib/<name>`.
pub open spec fn lib_path(name: Seq<char>) -> Seq<char> {
    "lib/"@ + name
}

/// `.kpack/torch_<target>.kpack`.
pub open spec fn kpack_path(target: Seq<char>) -> Seq<char> {
    ".kpack/torch_"@ + target + ".kpack"@
}

/// The ROCm target, empty when unknown.
pub open spec fn target_text(t: Option<&str>) -> Seq<char> {
    match t {
        Some(s) => s@,
        None => Seq::empty(),
    }
}

/// What must exist inside an install directory for it to be usable.
pub struct InstallRequirements {
    /// Files, relative to the install directory.
    pub files: Vec<String>,
    /// Directories, relative to the install directory.
    pub dirs: Vec<String>,
}

/// Which files and directories make an install of `variant` complete: every
/// expected library under `lib/`; for ROCm also the per-GPU `.kpack` of the
/// target, and the aotriton kernels where the target has a family wheel
/// (gfx9/gfx10 have none, so they are not asked for there).
pub fn install_requirements(variant: TorchVariant, rocm_target: Option<&str>) -> (r: InstallRequirements)
    ensures
        r.files.len() == variant_libs(variant).len() + if variant is Rocm { 1int } else { 0int },
        forall|i: int|
            0 <= i < variant_libs(variant).len() ==> (#[trigger] r.files@[i])@ == lib_path(
                variant_libs(variant)[i]@,
            ),
        variant is Rocm ==> r.files@[variant_libs(variant).len() as int]@ == kpack_path(
            target_text(rocm_target),
        ),
        r.dirs.len() == if variant is Rocm && spec_torch_family(target_text(rocm_target)) is Some {
            1int
        } else {
            0int
        },
        r.dirs.len() == 1 ==> r.dirs@[0]@ == "lib/aotriton.images"@,
{
    let libs = variant.expected_libs();
    let mut files: Vec<String> = Vec::new();
    let mut i: usize = 0;
    while i < libs.len()
        invariant
            i <= libs.len(),
            libs@ == variant_libs(variant),
            files.len() == i,
            forall|k: int| 0 <= k < i ==> (#[trigger] files@[k])@ == lib_path(libs@[k]@),
        decreases libs.len() - i,
    {
        files.push(concat("lib/", libs[i]));
        i += 1;
    }
    let mut dirs: Vec<String> = Vec::new();
    match variant {
        TorchVariant::Rocm(_) => {
            let target: &str = match rocm_target {
                Some(t) => t,
                None => "",
            };
            proof {
                reveal_strlit("");
                assert(target@ =~= target_text(rocm_target));
            }
            let mut kpack = concat(".kpack/torch_", target);
            kpack.append(".kpack");
            files.push(kpack);
            if torch_family(target).is_some() {
                dirs.push(String::from_str("lib/aotriton.images"));
            }
        },
        TorchVariant::Cuda(_) => {},
    }
    InstallRequirements { files, dirs }
}

/// Whether every entry of `v` is `true`.
pub fn all_true(v: &Vec<bool>) -> (r: bool)
    ensures
        r == (forall|i: int| 0 <= i < v.len() ==> #[trigger] v@[i]),
{
    let mut i: usize = 0;
    while i < v.len()
        invariant
            i <= v.len(),
            forall|k: int| 0 <= k < i ==> #[trigger] v@[k],
        decreases v.len() - i,
    {
        if !v[i] {
            return false;
        }
        i += 1;
    }
    true
}

} // verus!
