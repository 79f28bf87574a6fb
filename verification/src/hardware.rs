//! GPU hardware detection results and the decisions taken on them: which
//! backend is present, which device and which DRM card to trust for VRAM,
//! and the ROCm target names.

use vstd::prelude::*;
use vstd::string::StringExecFns;

use crate::text::{hex, numeral, push_char, push_numeral};

verus! {

/// A detected GPU compute device.
#[derive(Clone, Debug)]
pub struct Device {
    pub name: String,
    pub vram_bytes: u64,
}

/// Runtime GPU backend detection result.
#[derive(Clone, Debug)]
pub struct Hardware {
    pub cuda: Option<Vec<Device>>,
    pub rocm: Option<Vec<Device>>,
    /// Per-GPU ROCm target (e.g. `gfx1201`), for the on-demand SDK download.
    pub rocm_target: Option<String>,
}

impl Default for Hardware {
    fn default() -> (r: Hardware)
        ensures
            r.cuda is None && r.rocm is None && r.rocm_target is None,
    {
        Hardware { cuda: None, rocm: None, rocm_target: None }
    }
}

/// A device list that is present and non-empty.
pub open spec fn has_devices(list: Option<Vec<Device>>) -> bool {
    match list {
        Some(d) => d.len() > 0,
        None => false,
    }
}

impl Hardware {
    /// True when a CUDA (NVIDIA) device is present.
    pub fn supports_cuda(&self) -> (r: bool)
        ensures
            r == has_devices(self.cuda),
    {
        match &self.cuda {
            Some(d) => d.len() > 0,
            None => false,
        }
    }

    /// True when a ROCm (AMD) device is present.
    pub fn supports_rocm(&self) -> (r: bool)
        ensures
            r == has_devices(self.rocm),
    {
        match &self.rocm {
            Some(d) => d.len() > 0,
            None => false,
        }
    }

    /// True when any GPU backend is present (CUDA or ROCm).
    pub fn supports_gpu(&self) -> (r: bool)
        ensures
            r == (has_devices(self.cuda) || has_devices(self.rocm)),
    {
        self.supports_cuda() || self.supports_rocm()
    }
}

/// The devices of a possibly absent list.
pub open spec fn devices_of(list: Option<Vec<Device>>) -> Seq<Device> {
    match list {
        Some(d) => d@,
        None => seq![],
    }
}

/// All detected devices: CUDA first, then ROCm.
pub open spec fn all_devices(hw: Hardware) -> Seq<Device> {
    devices_of(hw.cuda) + devices_of(hw.rocm)
}

/// `k` is the last position holding the largest VRAM of `ds`.
pub open spec fn is_last_max_vram(ds: Seq<Device>, k: int) -> bool {
    &&& 0 <= k < ds.len()
    &&& forall|j: int| 0 <= j < ds.len() ==> ds[j].vram_bytes <= ds[k].vram_bytes
    &&& forall|j: int| k < j < ds.len() ==> ds[j].vram_bytes < ds[k].vram_bytes
}

fn copy_device(d: &Device) -> (r: Device)
    ensures
        r.name@ == d.name@,
        r.vram_bytes == d.vram_bytes,
{
    Device { name: d.name.clone(), vram_bytes: d.vram_bytes }
}

/// Best device for the resolved install: the one with the most VRAM over
/// CUDA then ROCm devices (the last of equals); `unknown` with no VRAM when
/// nothing was detected.
pub fn pick_device(hardware: &Hardware) -> (r: Device)
    ensures
        ({
            let all = all_devices(*hardware);
            if all.len() == 0 {
                r.name@ == "unknown"@ && r.vram_bytes == 0
            } else {
                exists|k: int| #[trigger] is_last_max_vram(all, k) && r.name@ == all[k].name@
                    && r.vram_bytes == all[k].vram_bytes
            }
        }),
{
    let ghost all = all_devices(*hardware);
    let empty: Vec<Device> = Vec::new();
    let cuda = match &hardware.cuda {
        Some(d) => d,
        None => &empty,
    };
    let rocm = match &hardware.rocm {
        Some(d) => d,
        None => &empty,
    };
    assert(all == cuda@ + rocm@);
    // Best so far: `(in_rocm, index)`; the position in `all` is the index,
    // offset by the CUDA count for ROCm devices.
    let mut best: Option<(bool, usize)> = None;
    let mut best_v: u64 = 0;
    let mut i: usize = 0;
    while i < cuda.len()
        invariant
            all == cuda@ + rocm@,
            i <= cuda.len(),
            i == 0 <==> best is None,
            best matches Some((b, k)) ==> !b && is_last_max_vram(all.take(i as int), k as int)
                && best_v == all[k as int].vram_bytes,
        decreases cuda.len() - i,
    {
        let v = cuda[i].vram_bytes;
        if best.is_none() || v >= best_v {
            best = Some((false, i));
            best_v = v;
        }
        i += 1;
        assert(all.take(i as int).drop_last() =~= all.take(i - 1));
    }
    let ghost n1 = cuda.len() as int;
    let mut j: usize = 0;
    while j < rocm.len()
        invariant
            all == cuda@ + rocm@,
            n1 == cuda.len(),
            j <= rocm.len(),
            n1 + j == 0 <==> best is None,
            best matches Some((b, k)) ==> {
                let pos = if b { n1 + k } else { k as int };
                &&& (b ==> k < j)
                &&& (!b ==> k < n1)
                &&& is_last_max_vram(all.take(n1 + j), pos)
                &&& best_v == all[pos].vram_bytes
            },
        decreases rocm.len() - j,
    {
        let v = rocm[j].vram_bytes;
        assert(v == all[n1 + j].vram_bytes);
        if best.is_none() || v >= best_v {
            best = Some((true, j));
            best_v = v;
        }
        j += 1;
        assert(all.take(n1 + j).drop_last() =~= all.take(n1 + j - 1));
    }
    assert(all.take(n1 + rocm.len()) =~= all);
    match best {
        None => Device { name: "unknown".to_owned(), vram_bytes: 0 },
        Some((b, k)) => {
            if b {
                copy_device(&rocm[k])
            } else {
                copy_device(&cuda[k])
            }
        },
    }
}

/// The VRAM counters of one DRM render node: total (when readable) and used
/// (when readable).
#[derive(Clone, Copy)]
pub struct DrmVram {
    pub total: Option<u64>,
    pub used: Option<u64>,
}

/// Whether some render node's total VRAM was readable.
pub open spec fn has_readable_total(nodes: Seq<DrmVram>) -> bool {
    exists|i: int| 0 <= i < nodes.len() && (#[trigger] nodes[i]).total is Some
}

/// `k` is the first render node with the largest total VRAM among the nodes
/// whose total was readable.
pub open spec fn is_first_max_readable(nodes: Seq<DrmVram>, k: int) -> bool {
    &&& 0 <= k < nodes.len()
    &&& nodes[k].total is Some
    &&& forall|j: int|
        0 <= j < nodes.len() && (#[trigger] nodes[j]).total is Some ==> nodes[j].total->0
            <= nodes[k].total->0
    &&& forall|j: int|
        0 <= j < k && (#[trigger] nodes[j]).total is Some ==> nodes[j].total->0
            < nodes[k].total->0
}

/// Law: the node chosen for the VRAM figures is unique, so the free and the
/// total VRAM reported for one list of render nodes are those of the same GPU.
pub proof fn lemma_first_max_readable_unique(nodes: Seq<DrmVram>, k1: int, k2: int)
    requires
        is_first_max_readable(nodes, k1),
        is_first_max_readable(nodes, k2),
    ensures
        k1 == k2,
{
    if k1 < k2 {
        assert(nodes[k1].total is Some);
    } else if k2 < k1 {
        assert(nodes[k2].total is Some);
    }
}

/// The used VRAM of a node, 0 when unreadable.
pub open spec fn used_or_zero(n: DrmVram) -> u64 {
    match n.used {
        Some(u) => u,
        None => 0,
    }
}

/// `(total, used)` VRAM of the discrete GPU with the most memory, among the
/// render nodes in directory order. Nodes whose total is unreadable (an
/// integrated GPU, say) are passed over; the answer is unknown (`None`) only
/// when no node has a readable total. A missing `used` counts as 0.
pub fn vram_mem_info(nodes: &Vec<DrmVram>) -> (r: Option<(u64, u64)>)
    ensures
        !has_readable_total(nodes@) ==> r is None,
        has_readable_total(nodes@) ==> exists|k: int|
            #[trigger] is_first_max_readable(nodes@, k) && r == Some::<(u64, u64)>(
                (nodes@[k].total->0, used_or_zero(nodes@[k])),
            ),
{
    let mut best: Option<usize> = None;
    let mut i: usize = 0;
    while i < nodes.len()
        invariant
            i <= nodes.len(),
            best is None ==> forall|j: int| 0 <= j < i ==> (#[trigger] nodes@[j]).total is None,
            best matches Some(k) ==> is_first_max_readable(nodes@.take(i as int), k as int),
        decreases nodes.len() - i,
    {
        if let Some(total) = nodes[i].total {
            match best {
                None => {
                    best = Some(i);
                },
                Some(k) => {
                    if total > nodes[k].total.unwrap() {
                        best = Some(i);
                    }
                },
            }
        }
        i += 1;
        assert(nodes@.take(i as int).drop_last() =~= nodes@.take(i - 1));
    }
    assert(nodes@.take(nodes.len() as int) =~= nodes@);
    match best {
        None => None,
        Some(k) => {
            let used = match nodes[k].used {
                Some(u) => u,
                None => 0,
            };
            Some((nodes[k].total.unwrap(), used))
        },
    }
}

/// Free VRAM on the discrete GPU with the most memory (`total − used`,
/// saturating at 0), for the fused-path VRAM guard; nodes with an unreadable
/// total are passed over.
pub fn vram_available_bytes(nodes: &Vec<DrmVram>) -> (r: Option<u64>)
    ensures
        !has_readable_total(nodes@) ==> r is None,
        has_readable_total(nodes@) ==> exists|k: int|
            #[trigger] is_first_max_readable(nodes@, k) && r == Some::<u64>(
                {
                    let t = nodes@[k].total->0;
                    let u = used_or_zero(nodes@[k]);
                    if t >= u { (t - u) as u64 } else { 0 }
                },
            ),
{
    match vram_mem_info(nodes) {
        Some((t, u)) => Some(if t >= u { t - u } else { 0 }),
        None => None,
    }
}

/// Total VRAM of the discrete GPU with the most memory; nodes with an
/// unreadable total are passed over.
pub fn vram_total_bytes(nodes: &Vec<DrmVram>) -> (r: Option<u64>)
    ensures
        !has_readable_total(nodes@) ==> r is None,
        has_readable_total(nodes@) ==> exists|k: int|
            #[trigger] is_first_max_readable(nodes@, k) && r == Some(nodes@[k].total->0),
{
    match vram_mem_info(nodes) {
        Some((t, _)) => Some(t),
        None => None,
    }
}

/// The ROCm target name of a KFD `gfx_target_version`
/// (`major << 16 | minor << 8 | stepping`): `gfx` and the three fields in
/// lower-case hex; `None` for a CPU node (major 0).
pub open spec fn spec_gfx_target(v: u32) -> Option<Seq<char>> {
    let major = (v >> 16) & 0xff;
    let minor = (v >> 8) & 0xff;
    let stepping = v & 0xff;
    if major == 0 {
        None
    } else {
        Some("gfx"@ + hex(major as nat) + hex(minor as nat) + hex(stepping as nat))
    }
}

/// Name the ROCm target of a KFD node (e.g. `0x120001` → `gfx1201`).
pub fn gfx_target(v: u32) -> (r: Option<String>)
    ensures
        match spec_gfx_target(v) {
            Some(t) => r is Some && r->0@ == t,
            None => r is None,
        },
{
    let major = (v >> 16) & 0xff;
    let minor = (v >> 8) & 0xff;
    let stepping = v & 0xff;
    if major == 0 {
        return None;
    }
    let mut s = String::from_str("gfx");
    push_numeral(&mut s, major as u64, 16);
    push_numeral(&mut s, minor as u64, 16);
    push_numeral(&mut s, stepping as u64, 16);
    Some(s)
}

/// A ROCm GPU found in the KFD topology: its target and total VRAM.
pub struct KfdNode {
    pub target: String,
    pub vram_bytes: u64,
}

/// The ROCm devices and download target of the KFD GPU nodes found (in
/// topology order): none when the list is empty; otherwise one device per
/// node named `AMD Radeon <target>`, and the target of the node with the
/// most VRAM (the last of equals).
pub fn kfd_devices(found: &Vec<KfdNode>) -> (r: (Option<Vec<Device>>, Option<String>))
    ensures
        found.len() == 0 ==> r.0 is None && r.1 is None,
        found.len() > 0 ==> {
            &&& r.0 is Some
            &&& r.0->0.len() == found.len()
            &&& forall|i: int|
                0 <= i < found.len() ==> (#[trigger] r.0->0@[i]).name@ == "AMD Radeon "@ + found@[i].target@
                    && r.0->0@[i].vram_bytes == found@[i].vram_bytes
            &&& r.1 is Some
            &&& exists|k: int|
                0 <= k < found.len() && (forall|j: int|
                    0 <= j < found.len() ==> found@[j].vram_bytes <= found@[k].vram_bytes) && (forall|j: int|
                    k < j < found.len() ==> found@[j].vram_bytes < found@[k].vram_bytes) && r.1->0@
                    == found@[k].target@
        },
{
    if found.len() == 0 {
        return (None, None);
    }
    let mut devices: Vec<Device> = Vec::new();
    let mut best: usize = 0;
    let mut i: usize = 0;
    while i < found.len()
        invariant
            found.len() > 0,
            i <= found.len(),
            best < found.len(),
            i > 0 ==> best < i,
            i == 0 ==> best == 0,
            devices.len() == i,
            forall|k: int|
                0 <= k < i ==> (#[trigger] devices@[k]).name@ == "AMD Radeon "@ + found@[k].target@
                    && devices@[k].vram_bytes == found@[k].vram_bytes,
            i > 0 ==> forall|j: int| 0 <= j < i ==> found@[j].vram_bytes <= found@[best as int].vram_bytes,
            i > 0 ==> forall|j: int| best < j < i ==> found@[j].vram_bytes < found@[best as int].vram_bytes,
        decreases found.len() - i,
    {
        let mut name = String::from_str("AMD Radeon ");
        name.append(found[i].target.as_str());
        devices.push(Device { name, vram_bytes: found[i].vram_bytes });
        if i == 0 || found[i].vram_bytes >= found[best].vram_bytes {
            best = i;
        }
        i += 1;
    }
    (Some(devices), Some(found[best].target.clone()))
}

} // verus!
