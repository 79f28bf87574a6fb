//! The model registry: metadata of the known models and the resolution of a
//! model id to the weight file and configuration the engine loads.

use vstd::prelude::*;
use vstd::string::{StrSliceExecFns, StringExecFns};

use crate::convert::pth_remap_spec;
use crate::platform::has_prefix;
use crate::text::str_eq;

verus! {

/// What a model does.
#[derive(Clone, Copy, Debug, PartialEq, Eq, Structural)]
pub enum ModelKind {
    Interpolate,
    Upscale,
    Denoise,
    Decompress,
    Deblur,
}

/// One model's metadata entry.
pub struct ModelMetadata {
    pub id: String,
    pub kind: ModelKind,
    pub scale: u32,
    pub arch: String,
    /// Weight files (e.g. `.pth`, `.bpk`), first entry is the primary.
    pub weights: Option<Vec<String>>,
    pub license: Option<String>,
    pub source_url: Option<String>,
    /// Direct download URL for the primary weight file (download-on-demand).
    pub download_url: Option<String>,
    /// SHA-256 of the primary weight file, verified on download.
    pub sha256: Option<String>,
    /// Whether the engine can load these weights yet.
    pub loadable: bool,
    /// The `num_block` entry of the free-form metadata, where it is an
    /// unsigned integer.
    pub num_block: Option<u64>,
}

/// `loadable` of an entry that does not say.
pub fn default_true() -> (r: bool)
    ensures
        r,
{
    true
}

/// A model resolved for loading: id, arch and configuration, and the path
/// of its primary weight file.
pub struct ModelRef {
    pub id: String,
    pub arch: String,
    pub scale: u32,
    /// RRDB blocks for the `realesrgan` arch family.
    pub num_block: u32,
    pub path: String,
}

/// The known models, in the order they were added.
pub struct Registry {
    models: Vec<ModelMetadata>,
}

/// `file` under `dir`: an absolute `file` stands alone; otherwise a `/`
/// separates the two unless `dir` is empty or already ends with one.
pub open spec fn joined_path(dir: Seq<char>, file: Seq<char>) -> Seq<char> {
    if has_prefix(file, "/"@) {
        file
    } else if dir.len() == 0 || dir.last() == '/' {
        dir + file
    } else {
        dir + "/"@ + file
    }
}

/// `k` is the first entry of `ms` with id `id`.
pub open spec fn is_first_with_id(ms: Seq<ModelMetadata>, id: Seq<char>, k: int) -> bool {
    &&& 0 <= k < ms.len()
    &&& ms[k].id@ == id
    &&& forall|j: int| 0 <= j < k ==> ms[j].id@ != id
}

/// The resolution of entry `m` under `dir`, as the id `id`: present when the
/// entry lists a weight file.
pub open spec fn resolves_to(m: ModelMetadata, id: Seq<char>, dir: Seq<char>, r: Option<ModelRef>) -> bool {
    match m.weights {
        Some(w) if w.len() > 0 => r matches Some(mr) && mr.id@ == id && mr.arch@ == m.arch@
            && mr.scale == m.scale && mr.num_block == (match m.num_block {
            Some(n) => n,
            None => 4u64,
        }) as u32 && mr.path@ == joined_path(dir, w@[0]@),
        _ => r is None,
    }
}

/// `file` under `dir` (see `joined_path`).
pub fn join_path(dir: &str, file: &str) -> (r: String)
    ensures
        r@ == joined_path(dir@, file@),
{
    proof {
        reveal_strlit("/");
    }
    let fl = file.unicode_len();
    if fl > 0 && file.get_char(0) == '/' {
        assert(file@.subrange(0, 1) =~= "/"@);
        return file.to_owned();
    }
    if fl > 0 {
        assert(file@.subrange(0, 1)[0] == file@[0]);
    }
    assert(!has_prefix(file@, "/"@));
    let dl = dir.unicode_len();
    let mut s = dir.to_owned();
    if dl > 0 && dir.get_char(dl - 1) == '/' {
        s.append(file);
        return s;
    }
    if dl > 0 {
        s.append("/");
    }
    s.append(file);
    proof {
        if dl == 0 {
            assert(s@ =~= dir@ + file@);
        }
    }
    s
}

impl Registry {
    /// The entries, in order.
    pub closed spec fn entries(&self) -> Seq<ModelMetadata> {
        self.models@
    }

    /// An empty registry.
    pub fn new() -> (r: Self)
        ensures
            r.entries().len() == 0,
    {
        Registry { models: Vec::new() }
    }

    /// Append one entry.
    pub fn add(&mut self, m: ModelMetadata)
        ensures
            final(self).entries() == old(self).entries().push(m),
    {
        self.models.push(m);
    }

    /// The entries, in order.
    pub fn models(&self) -> (r: &[ModelMetadata])
        ensures
            r@ == self.entries(),
    {
        self.models.as_slice()
    }

    /// Resolve a model by id to a `ModelRef` pointing at its primary weight
    /// file under `dir`; carries the arch/config the engine needs (`num_block`
    /// 4 where the metadata does not give one). The first entry with that id
    /// decides; `None` when there is none or it lists no weight file.
    pub fn resolve(&self, id: &str, dir: &str) -> (r: Option<ModelRef>)
        ensures
            (forall|k: int| 0 <= k < self.entries().len() ==> self.entries()[k].id@ != id@) ==> r is None,
            forall|k: int| #[trigger]
                is_first_with_id(self.entries(), id@, k) ==> resolves_to(self.entries()[k], id@, dir@, r),
    {
        let mut i: usize = 0;
        while i < self.models.len()
            invariant
                i <= self.models.len(),
                forall|j: int| 0 <= j < i ==> self.models@[j].id@ != id@,
            decreases self.models.len() - i,
        {
            let m = &self.models[i];
            if str_eq(m.id.as_str(), id) {
                assert(self.models@[i as int].id@ == id@);
                assert(self.entries()[i as int].id@ == id@);
                proof {
                    assert forall|k: int| #[trigger] is_first_with_id(self.models@, id@, k) implies k
                        == i by {
                        if k < i {
                        } else if k > i {
                            assert(self.models@[i as int].id@ == id@);
                        }
                    }
                }
                return match &m.weights {
                    Some(w) => {
                        if w.len() > 0 {
                            let num_block: u64 = match m.num_block {
                                Some(n) => n,
                                None => 4,
                            };
                            Some(
                                ModelRef {
                                    id: id.to_owned(),
                                    arch: m.arch.clone(),
                                    scale: m.scale,
                                    num_block: #[verifier::truncate] (num_block as u32),
                                    path: join_path(dir, w[0].as_str()),
                                },
                            )
                        } else {
                            None
                        }
                    },
                    None => None,
                };
            }
            i += 1;
        }
        None
    }
}

/// The network architectures the engines can build.
#[derive(Clone, Copy, Debug, PartialEq, Eq, Structural)]
pub enum ArchKind {
    UpCunet2x,
    UpCunet2xFast,
    RrdbNet,
    SrvggNet,
    DisNet,
    IfrNet,
    Drunet,
    Dncnn,
    Ffdnet,
    Scunet,
    NafNet,
    RealPlk,
    Span,
    SafmnNet,
    ParagonSrNet,
}

impl ArchKind {
    /// Whether the network runs on a plain 3-channel image alone (used to
    /// pick warm-up inputs): DRUNet wants a noise-level channel too, and
    /// FFDNet and IFRNet have no single-input forward.
    pub fn single_input_rgb(&self) -> (r: bool)
        ensures
            r == !(*self is Drunet || *self is Ffdnet || *self is IfrNet),
    {
        match self {
            ArchKind::Drunet | ArchKind::Ffdnet | ArchKind::IfrNet => false,
            _ => true,
        }
    }
}

/// The architecture a model's `arch` names, if the engines support it.
pub open spec fn spec_arch_kind(arch: Seq<char>) -> Option<ArchKind> {
    if arch == "upcunet2x"@ {
        Some(ArchKind::UpCunet2x)
    } else if arch == "upcunet2x-fast"@ || arch == "fallin-cugan"@ {
        Some(ArchKind::UpCunet2xFast)
    } else if arch == "realesrgan"@ {
        Some(ArchKind::RrdbNet)
    } else if arch == "srvgg"@ {
        Some(ArchKind::SrvggNet)
    } else if arch == "dis"@ {
        Some(ArchKind::DisNet)
    } else if arch == "ifrnet"@ {
        Some(ArchKind::IfrNet)
    } else if arch == "drunet"@ {
        Some(ArchKind::Drunet)
    } else if arch == "dncnn"@ {
        Some(ArchKind::Dncnn)
    } else if arch == "ffdnet"@ {
        Some(ArchKind::Ffdnet)
    } else if arch == "scunet"@ {
        Some(ArchKind::Scunet)
    } else if arch == "nafnet"@ {
        Some(ArchKind::NafNet)
    } else if arch == "real-plksr"@ {
        Some(ArchKind::RealPlk)
    } else if arch == "span"@ {
        Some(ArchKind::Span)
    } else if arch == "safmn"@ {
        Some(ArchKind::SafmnNet)
    } else if arch == "paragonsr"@ {
        Some(ArchKind::ParagonSrNet)
    } else {
        None
    }
}

/// The canonical `arch` name of each network.
pub open spec fn arch_name(k: ArchKind) -> Seq<char> {
    match k {
        ArchKind::UpCunet2x => "upcunet2x"@,
        ArchKind::UpCunet2xFast => "upcunet2x-fast"@,
        ArchKind::RrdbNet => "realesrgan"@,
        ArchKind::SrvggNet => "srvgg"@,
        ArchKind::DisNet => "dis"@,
        ArchKind::IfrNet => "ifrnet"@,
        ArchKind::Drunet => "drunet"@,
        ArchKind::Dncnn => "dncnn"@,
        ArchKind::Ffdnet => "ffdnet"@,
        ArchKind::Scunet => "scunet"@,
        ArchKind::NafNet => "nafnet"@,
        ArchKind::RealPlk => "real-plksr"@,
        ArchKind::Span => "span"@,
        ArchKind::SafmnNet => "safmn"@,
        ArchKind::ParagonSrNet => "paragonsr"@,
    }
}

proof fn lemma_arch_names_revealed()
    ensures
        "upcunet2x"@ == seq!['u', 'p', 'c', 'u', 'n', 'e', 't', '2', 'x'],
        "upcunet2x-fast"@ == seq!['u', 'p', 'c', 'u', 'n', 'e', 't', '2', 'x', '-', 'f', 'a', 's', 't'],
        "fallin-cugan"@ == seq!['f', 'a', 'l', 'l', 'i', 'n', '-', 'c', 'u', 'g', 'a', 'n'],
        "realesrgan"@ == seq!['r', 'e', 'a', 'l', 'e', 's', 'r', 'g', 'a', 'n'],
        "srvgg"@ == seq!['s', 'r', 'v', 'g', 'g'],
        "dis"@ == seq!['d', 'i', 's'],
        "ifrnet"@ == seq!['i', 'f', 'r', 'n', 'e', 't'],
        "drunet"@ == seq!['d', 'r', 'u', 'n', 'e', 't'],
        "dncnn"@ == seq!['d', 'n', 'c', 'n', 'n'],
        "ffdnet"@ == seq!['f', 'f', 'd', 'n', 'e', 't'],
        "scunet"@ == seq!['s', 'c', 'u', 'n', 'e', 't'],
        "nafnet"@ == seq!['n', 'a', 'f', 'n', 'e', 't'],
        "real-plksr"@ == seq!['r', 'e', 'a', 'l', '-', 'p', 'l', 'k', 's', 'r'],
        "span"@ == seq!['s', 'p', 'a', 'n'],
        "safmn"@ == seq!['s', 'a', 'f', 'm', 'n'],
        "paragonsr"@ == seq!['p', 'a', 'r', 'a', 'g', 'o', 'n', 's', 'r'],
{
    reveal_strlit("upcunet2x");
    reveal_strlit("upcunet2x-fast");
    reveal_strlit("fallin-cugan");
    reveal_strlit("realesrgan");
    reveal_strlit("srvgg");
    reveal_strlit("dis");
    reveal_strlit("ifrnet");
    reveal_strlit("drunet");
    reveal_strlit("dncnn");
    reveal_strlit("ffdnet");
    reveal_strlit("scunet");
    reveal_strlit("nafnet");
    reveal_strlit("real-plksr");
    reveal_strlit("span");
    reveal_strlit("safmn");
    reveal_strlit("paragonsr");
    assert("upcunet2x"@ =~= seq!['u', 'p', 'c', 'u', 'n', 'e', 't', '2', 'x']);
    assert("upcunet2x-fast"@ =~= seq!['u', 'p', 'c', 'u', 'n', 'e', 't', '2', 'x', '-', 'f', 'a', 's', 't']);
    assert("fallin-cugan"@ =~= seq!['f', 'a', 'l', 'l', 'i', 'n', '-', 'c', 'u', 'g', 'a', 'n']);
    assert("realesrgan"@ =~= seq!['r', 'e', 'a', 'l', 'e', 's', 'r', 'g', 'a', 'n']);
    assert("srvgg"@ =~= seq!['s', 'r', 'v', 'g', 'g']);
    assert("dis"@ =~= seq!['d', 'i', 's']);
    assert("ifrnet"@ =~= seq!['i', 'f', 'r', 'n', 'e', 't']);
    assert("drunet"@ =~= seq!['d', 'r', 'u', 'n', 'e', 't']);
    assert("dncnn"@ =~= seq!['d', 'n', 'c', 'n', 'n']);
    assert("ffdnet"@ =~= seq!['f', 'f', 'd', 'n', 'e', 't']);
    assert("scunet"@ =~= seq!['s', 'c', 'u', 'n', 'e', 't']);
    assert("nafnet"@ =~= seq!['n', 'a', 'f', 'n', 'e', 't']);
    assert("real-plksr"@ =~= seq!['r', 'e', 'a', 'l', '-', 'p', 'l', 'k', 's', 'r']);
    assert("span"@ =~= seq!['s', 'p', 'a', 'n']);
    assert("safmn"@ =~= seq!['s', 'a', 'f', 'm', 'n']);
    assert("paragonsr"@ =~= seq!['p', 'a', 'r', 'a', 'g', 'o', 'n', 's', 'r']);
}

/// Law: every network is built from its own `arch` name, and a name builds
/// a network only if it is that network's name (or `fallin-cugan`, the other
/// name of the fast Real-CUGAN): distinct names give distinct networks.
pub proof fn lemma_arch_name_roundtrip(k: ArchKind, arch: Seq<char>)
    ensures
        spec_arch_kind(arch_name(k)) == Some(k),
        spec_arch_kind(arch) == Some(k) ==> arch == arch_name(k) || (k == ArchKind::UpCunet2xFast
            && arch == "fallin-cugan"@),
{
    lemma_arch_names_revealed();
    lemma_differ_at("paragonsr"@, "upcunet2x"@, 0);
    lemma_differ_at("real-plksr"@, "realesrgan"@, 4);
    lemma_differ_at("dncnn"@, "srvgg"@, 0);
    lemma_differ_at("safmn"@, "srvgg"@, 1);
    lemma_differ_at("safmn"@, "dncnn"@, 0);
    lemma_differ_at("drunet"@, "ifrnet"@, 0);
    lemma_differ_at("ffdnet"@, "ifrnet"@, 0);
    lemma_differ_at("ffdnet"@, "drunet"@, 0);
    lemma_differ_at("scunet"@, "ifrnet"@, 0);
    lemma_differ_at("scunet"@, "drunet"@, 0);
    lemma_differ_at("scunet"@, "ffdnet"@, 0);
    lemma_differ_at("nafnet"@, "ifrnet"@, 0);
    lemma_differ_at("nafnet"@, "drunet"@, 0);
    lemma_differ_at("nafnet"@, "ffdnet"@, 0);
    lemma_differ_at("nafnet"@, "scunet"@, 0);
    match k {
        ArchKind::UpCunet2x => {
            assert(spec_arch_kind(arch_name(k)) == Some(ArchKind::UpCunet2x));
        },
        ArchKind::UpCunet2xFast => {
            assert("upcunet2x-fast"@.len() != "upcunet2x"@.len());
            assert(spec_arch_kind(arch_name(k)) == Some(ArchKind::UpCunet2xFast));
        },
        ArchKind::RrdbNet => {
            assert(spec_arch_kind(arch_name(k)) == Some(ArchKind::RrdbNet));
        },
        ArchKind::SrvggNet => {
            assert(spec_arch_kind(arch_name(k)) == Some(ArchKind::SrvggNet));
        },
        ArchKind::DisNet => {
            assert(spec_arch_kind(arch_name(k)) == Some(ArchKind::DisNet));
        },
        ArchKind::IfrNet => {
            assert(spec_arch_kind(arch_name(k)) == Some(ArchKind::IfrNet));
        },
        ArchKind::Drunet => {
            assert(spec_arch_kind(arch_name(k)) == Some(ArchKind::Drunet));
        },
        ArchKind::Dncnn => {
            assert(spec_arch_kind(arch_name(k)) == Some(ArchKind::Dncnn));
        },
        ArchKind::Ffdnet => {
            assert(spec_arch_kind(arch_name(k)) == Some(ArchKind::Ffdnet));
        },
        ArchKind::Scunet => {
            assert(spec_arch_kind(arch_name(k)) == Some(ArchKind::Scunet));
        },
        ArchKind::NafNet => {
            assert(spec_arch_kind(arch_name(k)) == Some(ArchKind::NafNet));
        },
        ArchKind::RealPlk => {
            assert(spec_arch_kind(arch_name(k)) == Some(ArchKind::RealPlk));
        },
        ArchKind::Span => {
            assert(spec_arch_kind(arch_name(k)) == Some(ArchKind::Span));
        },
        ArchKind::SafmnNet => {
            assert(spec_arch_kind(arch_name(k)) == Some(ArchKind::SafmnNet));
        },
        ArchKind::ParagonSrNet => {
            assert(spec_arch_kind(arch_name(k)) == Some(ArchKind::ParagonSrNet));
        },
    }
}

proof fn lemma_differ_at(a: Seq<char>, b: Seq<char>, i: int)
    requires
        0 <= i < a.len(),
        i < b.len(),
        a[i] != b[i],
    ensures
        a != b,
{
}

/// Law: `fallin-cugan` is another name of `upcunet2x-fast`: a checkpoint
/// of either is converted by the same remapping plan and loaded as the same
/// (fast) network, never as the full `upcunet2x`.
pub proof fn lemma_cugan_alias(layer_norm: bool, num_block: nat)
    ensures
        pth_remap_spec("fallin-cugan"@, layer_norm, num_block) == pth_remap_spec(
            "upcunet2x-fast"@,
            layer_norm,
            num_block,
        ),
        spec_arch_kind("fallin-cugan"@) == spec_arch_kind("upcunet2x-fast"@),
        spec_arch_kind("fallin-cugan"@) == Some(ArchKind::UpCunet2xFast),
{
    reveal_strlit("upcunet2x");
    reveal_strlit("upcunet2x-fast");
    reveal_strlit("fallin-cugan");
    assert("fallin-cugan"@ != "upcunet2x"@) by {
        assert("fallin-cugan"@[0] != "upcunet2x"@[0]);
    }
    assert("upcunet2x-fast"@ != "upcunet2x"@) by {
        assert("upcunet2x-fast"@.len() != "upcunet2x"@.len());
    }
}

/// The architecture a model's `arch` names (`fallin-cugan` is the fast
/// Real-CUGAN); `None` for one the engines cannot build.
pub fn arch_kind(arch: &str) -> (r: Option<ArchKind>)
    ensures
        r == spec_arch_kind(arch@),
{
    if str_eq(arch, "upcunet2x") {
        Some(ArchKind::UpCunet2x)
    } else if str_eq(arch, "upcunet2x-fast") || str_eq(arch, "fallin-cugan") {
        Some(ArchKind::UpCunet2xFast)
    } else if str_eq(arch, "realesrgan") {
        Some(ArchKind::RrdbNet)
    } else if str_eq(arch, "srvgg") {
        Some(ArchKind::SrvggNet)
    } else if str_eq(arch, "dis") {
        Some(ArchKind::DisNet)
    } else if str_eq(arch, "ifrnet") {
        Some(ArchKind::IfrNet)
    } else if str_eq(arch, "drunet") {
        Some(ArchKind::Drunet)
    } else if str_eq(arch, "dncnn") {
        Some(ArchKind::Dncnn)
    } else if str_eq(arch, "ffdnet") {
        Some(ArchKind::Ffdnet)
    } else if str_eq(arch, "scunet") {
        Some(ArchKind::Scunet)
    } else if str_eq(arch, "nafnet") {
        Some(ArchKind::NafNet)
    } else if str_eq(arch, "real-plksr") {
        Some(ArchKind::RealPlk)
    } else if str_eq(arch, "span") {
        Some(ArchKind::Span)
    } else if str_eq(arch, "safmn") {
        Some(ArchKind::SafmnNet)
    } else if str_eq(arch, "paragonsr") {
        Some(ArchKind::ParagonSrNet)
    } else {
        None
    }
}

} // verus!
