use senmei::hardware::{gfx_target, kfd_devices, vram_available_bytes, vram_mem_info, vram_total_bytes, DrmVram, KfdNode};
use senmei::hardware::pick_device;
use senmei::platform::{Os, Platform};
use senmei::rocm::{completion_markers, install_dir, is_complete, preload_libs, sdk_wheels, wheel_platform};
use senmei::torch::{
    install_requirements, keeps_entry, local_variant, pick_variant, resolve_next, torch_family, ResolveAction,
    ResolveEvent, TchDevice, TorchInstall, TorchVariant,
};
use senmei::sysfs::{gcn_target, kfd_render_minor, kfd_target_version, parse_counter, property};
use senmei::{Device, Hardware};

const LINUX: Platform = Platform { os: Os::Linux, x86_64: true };
const WINDOWS: Platform = Platform { os: Os::Windows, x86_64: true };

fn device(name: &str, vram_bytes: u64) -> Device {
    Device { name: name.to_string(), vram_bytes }
}

#[test]
fn cuda_url_shape() {
    let u = TorchVariant::Cuda("cu128").url(LINUX);
    assert!(u.contains("libtorch-shared-with-deps-2.11.0%2Bcu128.zip"));
    assert!(u.starts_with("https://download.pytorch.org/libtorch/cu128/"));
}

#[test]
fn pick_variant_matches_hardware() {
    let none = Hardware::default();
    assert_eq!(pick_variant(&none), None);
    let empty_cuda = Hardware { cuda: Some(Vec::new()), rocm: None, rocm_target: None };
    assert_eq!(pick_variant(&empty_cuda), None);
    let amd = Hardware { cuda: None, rocm: Some(vec![device("AMD Radeon gfx1201", 1 << 34)]), rocm_target: None };
    assert_eq!(pick_variant(&amd), Some(TorchVariant::Rocm("rocm7.14")));
    let both = Hardware {
        cuda: Some(vec![device("nv", 1 << 33)]),
        rocm: Some(vec![device("amd", 1 << 34)]),
        rocm_target: None,
    };
    assert_eq!(pick_variant(&both), Some(TorchVariant::Cuda("cu128")));
}

#[test]
fn pick_device_prefers_most_vram() {
    let hw = Hardware {
        cuda: None,
        rocm: Some(vec![device("apu", 2 << 30), device("dgpu", 16 << 30)]),
        rocm_target: None,
    };
    assert_eq!(pick_device(&hw).name, "dgpu");
}

#[test]
fn pick_device_falls_back_to_unknown() {
    let d = pick_device(&Hardware::default());
    assert_eq!((d.name.as_str(), d.vram_bytes), ("unknown", 0));
    // Ties keep the last device, CUDA before ROCm.
    let hw = Hardware {
        cuda: Some(vec![device("a", 8)]),
        rocm: Some(vec![device("b", 8)]),
        rocm_target: None,
    };
    assert_eq!(pick_device(&hw).name, "b");
}

#[test]
fn supports_reports_nonempty_lists() {
    let hw = Hardware { cuda: Some(Vec::new()), rocm: Some(vec![device("x", 1)]), rocm_target: None };
    assert!(!hw.supports_cuda());
    assert!(hw.supports_rocm());
    assert!(hw.supports_gpu());
    assert!(!Hardware::default().supports_gpu());
}

#[test]
fn rocm_urls_and_libs() {
    let v = TorchVariant::Rocm("rocm7.14");
    assert_eq!(
        v.url(LINUX),
        "https://repo.amd.com/rocm/whl-multi-arch/torch-2.12.0%2Brocm7.14.0-cp312-cp312-linux_x86_64.whl"
    );
    let urls = v.rocm_device_urls("gfx1201", LINUX);
    assert_eq!(
        urls,
        vec![
            "https://repo.amd.com/rocm/whl-multi-arch/amd_torch_device_gfx1201-2.12.0%2Brocm7.14.0-cp312-cp312-linux_x86_64.whl",
            "https://repo.amd.com/rocm/whl-multi-arch/amd_torch_device_gfx12_0-2.12.0%2Brocm7.14.0-cp312-cp312-linux_x86_64.whl",
        ]
    );
    assert_eq!(v.rocm_device_urls("gfx90a", WINDOWS).len(), 1);
    assert_eq!(v.expected_libs().len(), 10);
    assert_eq!(TorchVariant::Cuda("cu128").expected_libs()[3], "libtorch_cuda.so");
    assert_eq!(v.install_subdir(), "2.12.0-rocm7.14");
    assert_eq!(TorchVariant::Cuda("cu128").install_subdir(), "2.11.0-cu128");
    assert_eq!((v.version(), v.libtorch_dir()), ("2.12.0", "rocm7.14"));
}

#[test]
fn torch_family_by_prefix() {
    assert_eq!(torch_family("gfx1100"), Some("gfx11"));
    assert_eq!(torch_family("gfx1201"), Some("gfx12_0"));
    assert_eq!(torch_family("gfx90a"), None);
    assert_eq!(torch_family("gfx1"), None);
}

#[test]
fn install_requirements_per_variant() {
    let cuda = install_requirements(TorchVariant::Cuda("cu128"), None);
    assert_eq!(cuda.files.len(), 6);
    assert_eq!(cuda.files[0], "lib/libc10.so");
    assert!(cuda.dirs.is_empty());
    let rocm = install_requirements(TorchVariant::Rocm("rocm7.14"), Some("gfx1201"));
    assert_eq!(rocm.files.len(), 11);
    assert_eq!(rocm.files[10], ".kpack/torch_gfx1201.kpack");
    assert_eq!(rocm.dirs, vec!["lib/aotriton.images".to_string()]);
    let gfx9 = install_requirements(TorchVariant::Rocm("rocm7.14"), Some("gfx90a"));
    assert!(gfx9.dirs.is_empty());
    let unknown = install_requirements(TorchVariant::Rocm("rocm7.14"), None);
    assert_eq!(unknown.files[10], ".kpack/torch_.kpack");
}

#[test]
fn local_install_variant() {
    assert_eq!(local_variant(false, true, true), None);
    assert_eq!(local_variant(true, true, true), Some(TorchVariant::Rocm("rocm7.14")));
    assert_eq!(local_variant(true, false, true), Some(TorchVariant::Cuda("cu128")));
    assert_eq!(local_variant(true, false, false), None);
    let install = TorchInstall { variant: TorchVariant::Cuda("cu128"), lib_dir: "/data/libtorch/lib".to_string() };
    assert_eq!(install.variant, TorchVariant::Cuda("cu128"));
    assert_ne!(TchDevice::Cuda(0), TchDevice::Mps);
}

#[test]
fn rocm_sdk_layout() {
    assert_eq!(wheel_platform(LINUX), "linux_x86_64");
    assert_eq!(wheel_platform(WINDOWS), "win_amd64");
    assert_eq!(wheel_platform(Platform { os: Os::Windows, x86_64: false }), "linux_x86_64");
    assert_eq!(install_dir("gfx1201"), vec!["rocm", "7.14.0", "gfx1201"]);
    let w = sdk_wheels("gfx1201", LINUX);
    assert_eq!(w[0].file, "rocm_sdk_core-7.14.0-py3-none-linux_x86_64.whl");
    assert_eq!(w[2].file, "rocm_sdk_device_gfx1201-7.14.0-py3-none-linux_x86_64.whl");
    assert_eq!(
        w[1].url,
        "https://repo.amd.com/rocm/whl-multi-arch/rocm_sdk_libraries-7.14.0-py3-none-linux_x86_64.whl"
    );
    assert_eq!((w[0].prefix, w[1].prefix, w[2].prefix), ("_rocm_sdk_core", "_rocm_sdk_libraries", "_rocm_sdk_libraries"));
    assert_eq!(
        completion_markers(LINUX),
        ("_rocm_sdk_core/lib/libamdhip64.so.7", "_rocm_sdk_libraries/lib/libMIOpen.so.1")
    );
    assert!(is_complete(true, true));
    assert!(!is_complete(true, false));
    assert_eq!(preload_libs(LINUX).len(), 28);
    assert_eq!(preload_libs(WINDOWS)[0], "_rocm_sdk_core/bin/amd_comgr.dll");
    assert_eq!(preload_libs(LINUX)[27], "_rocm_sdk_libraries/lib/librccl.so.1");
}

#[test]
fn vram_of_largest_render_node() {
    let nodes = vec![
        DrmVram { total: Some(512), used: Some(100) },
        DrmVram { total: Some(2048), used: None },
        DrmVram { total: Some(2048), used: Some(10) },
    ];
    assert_eq!(vram_mem_info(&nodes), Some((2048, 0)));
    assert_eq!(vram_available_bytes(&nodes), Some(2048));
    assert_eq!(vram_total_bytes(&nodes), Some(2048));
    let over = vec![DrmVram { total: Some(10), used: Some(20) }];
    assert_eq!(vram_available_bytes(&over), Some(0));
    let unreadable = vec![DrmVram { total: Some(10), used: None }, DrmVram { total: None, used: None }];
    assert_eq!(vram_mem_info(&unreadable), Some((10, 0)));
    let none_readable = vec![DrmVram { total: None, used: Some(5) }, DrmVram { total: None, used: None }];
    assert_eq!(vram_mem_info(&none_readable), None);
    assert_eq!(vram_available_bytes(&none_readable), None);
    assert_eq!(vram_total_bytes(&Vec::new()), None);
}

#[test]
fn vram_skips_integrated_gpu_without_total() {
    let gib: u64 = 1 << 30;
    let nodes = vec![
        DrmVram { total: None, used: Some(gib) },
        DrmVram { total: Some(16 * gib), used: Some(gib) },
    ];
    assert_eq!(vram_mem_info(&nodes), Some((16 * gib, gib)));
    assert_eq!(vram_available_bytes(&nodes), Some(15 * gib));
    assert_eq!(vram_total_bytes(&nodes), Some(16 * gib));
}

#[test]
fn gfx_target_names() {
    assert_eq!(gfx_target(0x120001).as_deref(), Some("gfx1201"));
    assert_eq!(gfx_target(0x09000a).as_deref(), Some("gfx90a"));
    assert_eq!(gfx_target(0x000001), None);
}

#[test]
fn kfd_devices_pick_largest_target() {
    assert!(matches!(kfd_devices(&Vec::new()), (None, None)));
    let found = vec![
        KfdNode { target: "gfx1036".to_string(), vram_bytes: 512 },
        KfdNode { target: "gfx1201".to_string(), vram_bytes: 16 << 30 },
    ];
    let (devices, target) = kfd_devices(&found);
    let devices = devices.unwrap();
    assert_eq!(devices[0].name, "AMD Radeon gfx1036");
    assert_eq!(devices[1].vram_bytes, 16 << 30);
    assert_eq!(target.as_deref(), Some("gfx1201"));
}

#[test]
fn kfd_properties_are_parsed() {
    let props = "cpu_cores_count 0\r\ngfx_target_version 120001\ndrm_render_minor 128\nsimd_count 64";
    assert_eq!(kfd_target_version(props), Some(0x120001));
    assert_eq!(kfd_render_minor(props), Some(128));
    assert_eq!(property(props, "cpu_cores_count ").as_deref(), Some("0"));
    assert_eq!(property(props, "simd_count ").as_deref(), Some("64"));
    assert_eq!(property(props, "missing "), None);
    assert_eq!(kfd_target_version("gfx_target_version 0x0x90a\n"), Some(0x90a));
    assert_eq!(kfd_target_version("gfx_target_version zz\n"), None);
    assert_eq!(kfd_target_version("gfx_target_version 1ffffffff\n"), None);
    assert_eq!(parse_counter(" 17163091968\n"), Some(17163091968));
    assert_eq!(parse_counter("+5"), Some(5));
    assert_eq!(parse_counter("-5"), None);
    assert_eq!(parse_counter(""), None);
    assert_eq!(parse_counter("18446744073709551616"), None);
}

#[test]
fn hip_gcn_target_is_found() {
    let mut props = vec![0u8; 64];
    props[10..13].copy_from_slice(b"gfx");
    props[20..31].copy_from_slice(b"gfx1201:sra");
    assert_eq!(gcn_target(&props).as_deref(), Some("gfx1201"));
    assert_eq!(gcn_target(b"gfxabc gfx"), None);
    assert_eq!(gcn_target(b"xxgfx90a"), Some("gfx90a".to_string()));
}

#[test]
fn rocm_wheel_extract_keeps_libraries_and_kernel_packs() {
    assert!(keeps_entry(true, "torch/lib/libtorch_hip.so"));
    assert!(keeps_entry(true, "torch/.kpack/gfx1201.kpack"));
    assert!(!keeps_entry(true, "torch/include/torch.h"));
    assert!(!keeps_entry(true, "torch/lib"));
    assert!(!keeps_entry(true, "other/torch/lib/x.so"));
    assert!(keeps_entry(false, "libtorch/include/torch.h"));
}

#[test]
fn resolve_order_local_then_cache_then_download() {
    let cuda = TorchVariant::Cuda("cu128");
    let rocm = TorchVariant::Rocm("rocm7.14");
    assert_eq!(
        resolve_next(ResolveEvent::Probed { local: Some(rocm), picked: Some(cuda) }),
        ResolveAction::Use { variant: rocm, local: true }
    );
    assert_eq!(resolve_next(ResolveEvent::Probed { local: None, picked: None }), ResolveAction::NoDevice);
    assert_eq!(resolve_next(ResolveEvent::Probed { local: None, picked: Some(cuda) }), ResolveAction::CheckCache(cuda));
    assert_eq!(
        resolve_next(ResolveEvent::CacheChecked { variant: cuda, complete: true }),
        ResolveAction::Use { variant: cuda, local: false }
    );
    assert_eq!(resolve_next(ResolveEvent::CacheChecked { variant: cuda, complete: false }), ResolveAction::Download(cuda));
    assert_eq!(
        resolve_next(ResolveEvent::Downloaded { variant: cuda, complete: true }),
        ResolveAction::Use { variant: cuda, local: false }
    );
    let failed = resolve_next(ResolveEvent::Downloaded { variant: cuda, complete: false });
    assert_eq!(failed, ResolveAction::Incomplete);
    assert_eq!(failed.failure(), Some("libtorch download incomplete"));
    assert_eq!(ResolveAction::NoDevice.failure(), None);
}
