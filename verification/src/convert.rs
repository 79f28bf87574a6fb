//! Checkpoint conversion settings and the key-remapping rules that carry
//! PyTorch checkpoint keys over to the module layout of the engine.

use vstd::prelude::*;
use vstd::string::StringExecFns;

use crate::platform::has_prefix;
use crate::text::{decimal, push_numeral, str_eq};

verus! {

/// Conversion knobs for the `.pth` → `.bpk` maintainer tool.
#[derive(Clone, Copy)]
pub struct ConvertOptions<'a> {
    pub arch: &'a str,
    pub pth_path: &'a str,
    pub bpk_path: &'a str,
    pub scale: u32,
    pub num_block: u32,
    pub layer_norm: bool,
    pub dysample: bool,
    pub shuffle: u32,
}

/// `prefix`, the decimal numeral of `n`, then `suffix`.
pub open spec fn numbered(prefix: Seq<char>, n: nat, suffix: Seq<char>) -> Seq<char> {
    prefix + decimal(n) + suffix
}

fn numbered_string(prefix: &str, n: usize, suffix: &str) -> (r: String)
    ensures
        r@ == numbered(prefix@, n as nat, suffix@),
{
    let mut s = prefix.to_owned();
    push_numeral(&mut s, n as u64, 10);
    s.append(suffix);
    s
}

fn rule(from: &str, to: &str) -> (r: (String, String))
    ensures
        r.0@ == from@,
        r.1@ == to@,
{
    (from.to_owned(), to.to_owned())
}

/// Key remapping rules of the SRVGG checkpoints with `n` mid-convs: strip
/// `params.`; activation `body.<2k+1>.weight` (k ≤ `n`) becomes
/// `prelu.<k>.weight`; conv `body.<2i>.` (i < `n` + 2) becomes `body.<i>.`.
pub open spec fn srvgg_rules(n: nat) -> Seq<(Seq<char>, Seq<char>)> {
    seq![("^params\\."@, ""@)] + Seq::new(
        n + 1,
        |k: int| (numbered("^body\\."@, (2 * k + 1) as nat, "\\.weight$"@), numbered("prelu."@, k as nat, ".weight"@)),
    ) + Seq::new(
        n + 2,
        |i: int| (numbered("body\\."@, (2 * i) as nat, "\\.(weight|bias)"@), numbered("body."@, i as nat, ".$1"@)),
    )
}

/// Remap rules for the SRVGG checkpoints (regex, replacement), in order:
/// strip `params.`; each activation `body.<2k+1>.weight` (k ≤ `num_conv`)
/// becomes `prelu.<k>.weight`; each conv `body.<2i>.` (i < `num_conv` + 2)
/// becomes `body.<i>.`. `num_conv` is the mid-conv count (16
/// animevideo-xs, 32 general-x4v3).
pub fn srvgg_remap_patterns(num_conv: usize) -> (r: Vec<(String, String)>)
    requires
        2 * num_conv + 2 <= usize::MAX,
    ensures
        rules_view(r@) == srvgg_rules(num_conv as nat),
{
    let mut patterns: Vec<(String, String)> = Vec::new();
    patterns.push(rule("^params\\.", ""));
    let mut k: usize = 0;
    while k <= num_conv
        invariant
            2 * num_conv + 2 <= usize::MAX,
            k <= num_conv + 1,
            patterns.len() == 1 + k,
            patterns@[0].0@ == "^params\\."@,
            patterns@[0].1@ == ""@,
            forall|j: int|
                0 <= j < k ==> (#[trigger] patterns@[1 + j]).0@ == numbered(
                    "^body\\."@,
                    (2 * j + 1) as nat,
                    "\\.weight$"@,
                ) && patterns@[1 + j].1@ == numbered("prelu."@, j as nat, ".weight"@),
        decreases num_conv + 1 - k,
    {
        let from = numbered_string("^body\\.", k * 2 + 1, "\\.weight$");
        let to = numbered_string("prelu.", k, ".weight");
        patterns.push((from, to));
        k += 1;
    }
    let mut i: usize = 0;
    while i < num_conv + 2
        invariant
            2 * num_conv + 2 <= usize::MAX,
            i <= num_conv + 2,
            patterns.len() == num_conv + 2 + i,
            patterns@[0].0@ == "^params\\."@,
            patterns@[0].1@ == ""@,
            forall|j: int|
                0 <= j <= num_conv ==> (#[trigger] patterns@[1 + j]).0@ == numbered(
                    "^body\\."@,
                    (2 * j + 1) as nat,
                    "\\.weight$"@,
                ) && patterns@[1 + j].1@ == numbered("prelu."@, j as nat, ".weight"@),
            forall|j: int|
                0 <= j < i ==> (#[trigger] patterns@[num_conv + 2 + j]).0@ == numbered(
                    "body\\."@,
                    (2 * j) as nat,
                    "\\.(weight|bias)"@,
                ) && patterns@[num_conv + 2 + j].1@ == numbered("body."@, j as nat, ".$1"@),
        decreases num_conv + 2 - i,
    {
        let from = numbered_string("body\\.", i * 2, "\\.(weight|bias)");
        let to = numbered_string("body.", i, ".$1");
        patterns.push((from, to));
        i += 1;
    }
    proof {
        assert(rules_view(patterns@) =~= srvgg_rules(num_conv as nat)) by {
            let spec = srvgg_rules(num_conv as nat);
            assert forall|j: int| 0 <= j < patterns.len() implies #[trigger] rules_view(patterns@)[j] == spec[j] by {
                if j == 0 {
                } else if j < num_conv + 2 {
                    assert(patterns@[1 + (j - 1)] == patterns@[j]);
                } else {
                    assert(patterns@[num_conv + 2 + (j - num_conv - 2)] == patterns@[j]);
                }
            }
        }
    }
    patterns
}

/// Key remapping rules of the SAFMN checkpoints.
pub open spec fn safmn_rules() -> Seq<(Seq<char>, Seq<char>)> {
    seq![
        ("^params_ema\\."@, ""@),
        ("^params\\."@, ""@),
        ("^feats\\.(\\d+)\\."@, "blocks.$1."@),
        ("\\.ccm\\.ccm\\.0\\."@, ".ccm.conv1."@),
        ("\\.ccm\\.ccm\\.2\\."@, ".ccm.conv2."@),
        ("^to_img\\.0\\."@, "to_img_conv."@),
    ]
}

/// Remap rules for the SAFMN checkpoints (regex, replacement), in order.
pub fn safmn_remap_patterns() -> (r: Vec<(String, String)>)
    ensures
        rules_view(r@) == safmn_rules(),
{
    let mut r: Vec<(String, String)> = Vec::new();
    r.push(rule("^params_ema\\.", ""));
    r.push(rule("^params\\.", ""));
    r.push(rule("^feats\\.(\\d+)\\.", "blocks.$1."));
    r.push(rule("\\.ccm\\.ccm\\.0\\.", ".ccm.conv1."));
    r.push(rule("\\.ccm\\.ccm\\.2\\.", ".ccm.conv2."));
    r.push(rule("^to_img\\.0\\.", "to_img_conv."));
    proof {
        assert(rules_view(r@) =~= safmn_rules());
    }
    r
}

/// Remap rules for the DIS (scale-2) checkpoints (regex, replacement).
pub fn dis_remap_patterns() -> (r: Vec<(String, String)>)
    ensures
        r.len() == 1,
        r@[0].0@ == "^upsampler\\.(conv|act)\\."@,
        r@[0].1@ == "upsampler.0.$1."@,
{
    let mut r: Vec<(String, String)> = Vec::new();
    r.push(rule("^upsampler\\.(conv|act)\\.", "upsampler.0.$1."));
    r
}

// ---------------------------------------------------------------------------
// Per-architecture checkpoint key remapping
// ---------------------------------------------------------------------------

/// The (pattern, replacement) texts of a list of rules.
pub open spec fn rules_view(v: Seq<(String, String)>) -> Seq<(Seq<char>, Seq<char>)> {
    Seq::new(v.len(), |i: int| (v[i].0@, v[i].1@))
}

/// Key remapping rules of the Real-CUGAN (`upcunet2x`, `upcunet2x-fast`, `fallin-cugan`) checkpoints.
pub open spec fn cugan_rules() -> Seq<(Seq<char>, Seq<char>)> {
    seq![
        ("^params\\."@, ""@),
        ("\\.conv\\.0\\."@, ".conv."@),
        ("\\.conv\\.2\\."@, ".conv2."@),
    ]
}

fn make_cugan_rules() -> (r: Vec<(String, String)>)
    ensures
        rules_view(r@) == cugan_rules(),
{
    let mut r: Vec<(String, String)> = Vec::new();
    r.push(rule("^params\\.", ""));
    r.push(rule("\\.conv\\.0\\.", ".conv."));
    r.push(rule("\\.conv\\.2\\.", ".conv2."));
    proof {
        assert(rules_view(r@) =~= cugan_rules());
    }
    r
}

/// Key remapping rules of the Real-ESRGAN (RRDB) checkpoints.
pub open spec fn realesrgan_rules() -> Seq<(Seq<char>, Seq<char>)> {
    seq![
        ("^RRDB_trunk\\.(\\d+)\\.RDB(\\d+)\\.conv(\\d+)\\."@, "body.$1.rdb$2.conv$3."@),
        ("^params_ema\\."@, ""@),
        ("^params\\."@, ""@),
        ("^trunk_conv\\."@, "conv_body."@),
        ("^upconv1\\."@, "conv_up1."@),
        ("^upconv2\\."@, "conv_up2."@),
        ("^HRconv\\."@, "conv_hr."@),
    ]
}

fn make_realesrgan_rules() -> (r: Vec<(String, String)>)
    ensures
        rules_view(r@) == realesrgan_rules(),
{
    let mut r: Vec<(String, String)> = Vec::new();
    r.push(rule("^RRDB_trunk\\.(\\d+)\\.RDB(\\d+)\\.conv(\\d+)\\.", "body.$1.rdb$2.conv$3."));
    r.push(rule("^params_ema\\.", ""));
    r.push(rule("^params\\.", ""));
    r.push(rule("^trunk_conv\\.", "conv_body."));
    r.push(rule("^upconv1\\.", "conv_up1."));
    r.push(rule("^upconv2\\.", "conv_up2."));
    r.push(rule("^HRconv\\.", "conv_hr."));
    proof {
        assert(rules_view(r@) =~= realesrgan_rules());
    }
    r
}

/// Key remapping rules of the IFRNet checkpoints.
pub open spec fn ifrnet_rules() -> Seq<(Seq<char>, Seq<char>)> {
    seq![
        ("^module\\."@, ""@),
        ("encoder\\.pyramid(\\d)\\.(\\d)\\.0\\."@, "encoder.p$1.c$2.conv."@),
        ("encoder\\.pyramid(\\d)\\.(\\d)\\.1\\."@, "encoder.p$1.c$2.prelu."@),
        ("decoder(\\d)\\.convblock\\.0\\.0\\."@, "decoder$1.cb0.conv."@),
        ("decoder(\\d)\\.convblock\\.0\\.1\\."@, "decoder$1.cb0.prelu."@),
        ("decoder(\\d)\\.convblock\\.1\\.conv([1-4])\\.0\\."@, "decoder$1.cb1.c$2.conv."@),
        ("decoder(\\d)\\.convblock\\.1\\.conv([1-4])\\.1\\."@, "decoder$1.cb1.c$2.prelu."@),
        ("decoder(\\d)\\.convblock\\.1\\.conv5\\."@, "decoder$1.cb1.c5."@),
        ("decoder(\\d)\\.convblock\\.1\\.prelu\\."@, "decoder$1.cb1.pl."@),
        ("decoder(\\d)\\.convblock\\.2\\."@, "decoder$1.cb2."@),
    ]
}

fn make_ifrnet_rules() -> (r: Vec<(String, String)>)
    ensures
        rules_view(r@) == ifrnet_rules(),
{
    let mut r: Vec<(String, String)> = Vec::new();
    r.push(rule("^module\\.", ""));
    r.push(rule("encoder\\.pyramid(\\d)\\.(\\d)\\.0\\.", "encoder.p$1.c$2.conv."));
    r.push(rule("encoder\\.pyramid(\\d)\\.(\\d)\\.1\\.", "encoder.p$1.c$2.prelu."));
    r.push(rule("decoder(\\d)\\.convblock\\.0\\.0\\.", "decoder$1.cb0.conv."));
    r.push(rule("decoder(\\d)\\.convblock\\.0\\.1\\.", "decoder$1.cb0.prelu."));
    r.push(rule("decoder(\\d)\\.convblock\\.1\\.conv([1-4])\\.0\\.", "decoder$1.cb1.c$2.conv."));
    r.push(rule("decoder(\\d)\\.convblock\\.1\\.conv([1-4])\\.1\\.", "decoder$1.cb1.c$2.prelu."));
    r.push(rule("decoder(\\d)\\.convblock\\.1\\.conv5\\.", "decoder$1.cb1.c5."));
    r.push(rule("decoder(\\d)\\.convblock\\.1\\.prelu\\.", "decoder$1.cb1.pl."));
    r.push(rule("decoder(\\d)\\.convblock\\.2\\.", "decoder$1.cb2."));
    proof {
        assert(rules_view(r@) =~= ifrnet_rules());
    }
    r
}

/// Key remapping rules of the DRUNet checkpoints.
pub open spec fn drunet_rules() -> Seq<(Seq<char>, Seq<char>)> {
    seq![
        ("^module\\."@, ""@),
        ("m_down(\\d)\\.(\\d)\\.res\\.0\\."@, "m_down$1.b$2.c1."@),
        ("m_down(\\d)\\.(\\d)\\.res\\.2\\."@, "m_down$1.b$2.c2."@),
        ("m_down(\\d)\\.4\\."@, "m_down$1.down."@),
        ("m_body\\.(\\d)\\.res\\.0\\."@, "m_body.b$1.c1."@),
        ("m_body\\.(\\d)\\.res\\.2\\."@, "m_body.b$1.c2."@),
        ("m_up(\\d)\\.(\\d)\\.res\\.0\\."@, "m_up$1.b$2.c1."@),
        ("m_up(\\d)\\.(\\d)\\.res\\.2\\."@, "m_up$1.b$2.c2."@),
        ("m_up(\\d)\\.0\\."@, "m_up$1.up."@),
    ]
}

fn make_drunet_rules() -> (r: Vec<(String, String)>)
    ensures
        rules_view(r@) == drunet_rules(),
{
    let mut r: Vec<(String, String)> = Vec::new();
    r.push(rule("^module\\.", ""));
    r.push(rule("m_down(\\d)\\.(\\d)\\.res\\.0\\.", "m_down$1.b$2.c1."));
    r.push(rule("m_down(\\d)\\.(\\d)\\.res\\.2\\.", "m_down$1.b$2.c2."));
    r.push(rule("m_down(\\d)\\.4\\.", "m_down$1.down."));
    r.push(rule("m_body\\.(\\d)\\.res\\.0\\.", "m_body.b$1.c1."));
    r.push(rule("m_body\\.(\\d)\\.res\\.2\\.", "m_body.b$1.c2."));
    r.push(rule("m_up(\\d)\\.(\\d)\\.res\\.0\\.", "m_up$1.b$2.c1."));
    r.push(rule("m_up(\\d)\\.(\\d)\\.res\\.2\\.", "m_up$1.b$2.c2."));
    r.push(rule("m_up(\\d)\\.0\\.", "m_up$1.up."));
    proof {
        assert(rules_view(r@) =~= drunet_rules());
    }
    r
}

/// Key remapping rules of the DnCNN and FFDNet checkpoints.
pub open spec fn numbered_conv_rules() -> Seq<(Seq<char>, Seq<char>)> {
    seq![
        ("^model\\.(\\d+)\\."@, "c$1."@),
    ]
}

fn make_numbered_conv_rules() -> (r: Vec<(String, String)>)
    ensures
        rules_view(r@) == numbered_conv_rules(),
{
    let mut r: Vec<(String, String)> = Vec::new();
    r.push(rule("^model\\.(\\d+)\\.", "c$1."));
    proof {
        assert(rules_view(r@) =~= numbered_conv_rules());
    }
    r
}

/// Key remapping rules of the SCUNet checkpoints.
pub open spec fn scunet_rules() -> Seq<(Seq<char>, Seq<char>)> {
    seq![
        ("^module\\."@, ""@),
        ("^m_head\\.0\\."@, "m_head."@),
        ("^m_tail\\.0\\."@, "m_tail."@),
        ("^m_down(\\d)\\.4\\."@, "m_down${1}_down."@),
        ("^m_up(\\d)\\.0\\."@, "m_up${1}_up."@),
        ("\\.trans_block\\.mlp\\.0\\."@, ".trans_block.mlp0."@),
        ("\\.trans_block\\.mlp\\.2\\."@, ".trans_block.mlp2."@),
        ("\\.conv_block\\.0\\."@, ".conv_block.c0."@),
        ("\\.conv_block\\.2\\."@, ".conv_block.c2."@),
        ("\\.ln([12])\\.weight"@, ".ln$1.gamma"@),
        ("\\.ln([12])\\.bias"@, ".ln$1.beta"@),
    ]
}

fn make_scunet_rules() -> (r: Vec<(String, String)>)
    ensures
        rules_view(r@) == scunet_rules(),
{
    let mut r: Vec<(String, String)> = Vec::new();
    r.push(rule("^module\\.", ""));
    r.push(rule("^m_head\\.0\\.", "m_head."));
    r.push(rule("^m_tail\\.0\\.", "m_tail."));
    r.push(rule("^m_down(\\d)\\.4\\.", "m_down${1}_down."));
    r.push(rule("^m_up(\\d)\\.0\\.", "m_up${1}_up."));
    r.push(rule("\\.trans_block\\.mlp\\.0\\.", ".trans_block.mlp0."));
    r.push(rule("\\.trans_block\\.mlp\\.2\\.", ".trans_block.mlp2."));
    r.push(rule("\\.conv_block\\.0\\.", ".conv_block.c0."));
    r.push(rule("\\.conv_block\\.2\\.", ".conv_block.c2."));
    r.push(rule("\\.ln([12])\\.weight", ".ln$1.gamma"));
    r.push(rule("\\.ln([12])\\.bias", ".ln$1.beta"));
    proof {
        assert(rules_view(r@) =~= scunet_rules());
    }
    r
}

/// Key remapping rules of the NAFNet checkpoints.
pub open spec fn nafnet_rules() -> Seq<(Seq<char>, Seq<char>)> {
    seq![
        ("^encoders\\.(\\d+)\\.(\\d+)\\."@, "encoders.$1.blocks.$2."@),
        ("^decoders\\.(\\d+)\\.(\\d+)\\."@, "decoders.$1.blocks.$2."@),
        ("^middle_blks\\.(\\d+)\\."@, "middle.$1."@),
        ("^ups\\.(\\d+)\\.0\\."@, "ups.$1.conv."@),
        ("sca\\.1\\."@, "sca_conv."@),
    ]
}

fn make_nafnet_rules() -> (r: Vec<(String, String)>)
    ensures
        rules_view(r@) == nafnet_rules(),
{
    let mut r: Vec<(String, String)> = Vec::new();
    r.push(rule("^encoders\\.(\\d+)\\.(\\d+)\\.", "encoders.$1.blocks.$2."));
    r.push(rule("^decoders\\.(\\d+)\\.(\\d+)\\.", "decoders.$1.blocks.$2."));
    r.push(rule("^middle_blks\\.(\\d+)\\.", "middle.$1."));
    r.push(rule("^ups\\.(\\d+)\\.0\\.", "ups.$1.conv."));
    r.push(rule("sca\\.1\\.", "sca_conv."));
    proof {
        assert(rules_view(r@) =~= nafnet_rules());
    }
    r
}

/// Key remapping rules of the RealPLKSR, before the optional norm rule and the block renumbering checkpoints.
pub open spec fn plksr_base_rules() -> Seq<(Seq<char>, Seq<char>)> {
    seq![
        ("^params\\."@, ""@),
        ("^feats\\.0\\."@, "head."@),
        ("^feats\\.30\\."@, "tail."@),
        ("^to_img\\."@, ""@),
        ("\\.channel_mixer\\.0\\."@, ".channel_mixer.conv1."@),
        ("\\.channel_mixer\\.2\\."@, ".channel_mixer.conv2."@),
        ("\\.attn\\.f\\.0\\."@, ".attn.f."@),
    ]
}

fn make_plksr_base_rules() -> (r: Vec<(String, String)>)
    ensures
        rules_view(r@) == plksr_base_rules(),
{
    let mut r: Vec<(String, String)> = Vec::new();
    r.push(rule("^params\\.", ""));
    r.push(rule("^feats\\.0\\.", "head."));
    r.push(rule("^feats\\.30\\.", "tail."));
    r.push(rule("^to_img\\.", ""));
    r.push(rule("\\.channel_mixer\\.0\\.", ".channel_mixer.conv1."));
    r.push(rule("\\.channel_mixer\\.2\\.", ".channel_mixer.conv2."));
    r.push(rule("\\.attn\\.f\\.0\\.", ".attn.f."));
    proof {
        assert(rules_view(r@) =~= plksr_base_rules());
    }
    r
}

/// Key remapping rules of the SPAN checkpoints.
pub open spec fn span_rules() -> Seq<(Seq<char>, Seq<char>)> {
    seq![
        ("^params\\."@, ""@),
        ("\\.conv\\.0\\."@, ".conv0."@),
        ("\\.conv\\.1\\."@, ".conv1."@),
        ("\\.conv\\.2\\."@, ".conv2."@),
        ("^upsampler\\.0\\."@, "upsampler."@),
    ]
}

fn make_span_rules() -> (r: Vec<(String, String)>)
    ensures
        rules_view(r@) == span_rules(),
{
    let mut r: Vec<(String, String)> = Vec::new();
    r.push(rule("^params\\.", ""));
    r.push(rule("\\.conv\\.0\\.", ".conv0."));
    r.push(rule("\\.conv\\.1\\.", ".conv1."));
    r.push(rule("\\.conv\\.2\\.", ".conv2."));
    r.push(rule("^upsampler\\.0\\.", "upsampler."));
    proof {
        assert(rules_view(r@) =~= span_rules());
    }
    r
}


/// Key remapping rules of the RealPLKSR checkpoints: the base rules, the
/// norm rule for the layer-norm variant, then `feats.<i>.` (1 ≤ i ≤ 28)
/// renumbered to `blocks.<i-1>.`.
pub open spec fn plksr_rules(layer_norm: bool) -> Seq<(Seq<char>, Seq<char>)> {
    plksr_base_rules() + (if layer_norm {
        seq![("\\.norm\\."@, ".layer_norm."@)]
    } else {
        Seq::empty()
    }) + Seq::new(28, |j: int| (numbered("^feats\\."@, (j + 1) as nat, "\\."@), numbered("blocks."@, j as nat, "."@)))
}

fn make_plksr_rules(layer_norm: bool) -> (r: Vec<(String, String)>)
    ensures
        rules_view(r@) == plksr_rules(layer_norm),
{
    let mut r = make_plksr_base_rules();
    if layer_norm {
        r.push(rule("\\.norm\\.", ".layer_norm."));
    }
    let ghost base = rules_view(r@);
    proof {
        assert(base =~= plksr_base_rules() + (if layer_norm {
            seq![("\\.norm\\."@, ".layer_norm."@)]
        } else {
            Seq::empty()
        }));
    }
    let mut i: usize = 1;
    while i <= 28
        invariant
            1 <= i <= 29,
            base.len() <= r.len(),
            r.len() == base.len() + (i - 1),
            rules_view(r@).subrange(0, base.len() as int) == base,
            forall|j: int| 0 <= j < i - 1 ==> #[trigger] rules_view(r@)[base.len() + j] == (numbered("^feats\\."@, (j + 1) as nat, "\\."@), numbered("blocks."@, j as nat, "."@)),
        decreases 29 - i,
    {
        let from = numbered_string("^feats\\.", i, "\\.");
        let to = numbered_string("blocks.", i - 1, ".");
        let ghost before = rules_view(r@);
        r.push((from, to));
        proof {
            assert(rules_view(r@) =~= before.push((from@, to@)));
        }
        i += 1;
    }
    proof {
        assert(rules_view(r@) =~= plksr_rules(layer_norm)) by {
            let spec = plksr_rules(layer_norm);
            assert forall|j: int| 0 <= j < r.len() implies #[trigger] rules_view(r@)[j] == spec[j] by {
                if j < base.len() {
                    assert(rules_view(r@).subrange(0, base.len() as int)[j] == base[j]);
                } else {
                    assert(rules_view(r@)[base.len() + (j - base.len())] == rules_view(r@)[j]);
                }
            }
        }
    }
    r
}

/// How a `.pth` checkpoint of an architecture is read: the key its state
/// dict sits under (if any) and the key remapping rules, in order.
pub struct PthRemap {
    pub top_level_key: Option<&'static str>,
    pub rules: Vec<(String, String)>,
}

/// The text of an optional string.
pub open spec fn opt_text(s: Option<&str>) -> Option<Seq<char>> {
    match s {
        Some(t) => Some(t@),
        None => None,
    }
}

/// The `.pth` reading plan of each supported architecture; `None` for an
/// architecture the converter does not support.
pub open spec fn pth_remap_spec(arch: Seq<char>, layer_norm: bool, num_block: nat) -> Option<
    (Option<Seq<char>>, Seq<(Seq<char>, Seq<char>)>),
> {
    if arch == "upcunet2x"@ || arch == "upcunet2x-fast"@ || arch == "fallin-cugan"@ {
        Some((None, cugan_rules()))
    } else if arch == "srvgg"@ {
        Some((None, srvgg_rules(num_block)))
    } else if arch == "realesrgan"@ {
        Some((None, realesrgan_rules()))
    } else if arch == "ifrnet"@ {
        Some((None, ifrnet_rules()))
    } else if arch == "drunet"@ {
        Some((None, drunet_rules()))
    } else if arch == "dncnn"@ || arch == "ffdnet"@ {
        Some((None, numbered_conv_rules()))
    } else if arch == "scunet"@ {
        Some((None, scunet_rules()))
    } else if arch == "nafnet"@ {
        Some((Some("params"@), nafnet_rules()))
    } else if arch == "real-plksr"@ {
        Some((None, plksr_rules(layer_norm)))
    } else if arch == "span"@ {
        Some((None, span_rules()))
    } else if arch == "safmn"@ {
        Some((None, safmn_rules()))
    } else {
        None
    }
}

/// The message of an architecture the converters do not support.
pub open spec fn unsupported_arch(arch: Seq<char>) -> Seq<char> {
    "unsupported arch: "@ + arch
}

/// The `.pth` reading plan of `arch` (`num_block` mid-convs for `srvgg`,
/// the norm rule for a layer-norm RealPLKSR); an error for an unsupported
/// architecture.
pub fn pth_remap(arch: &str, layer_norm: bool, num_block: u32) -> (r: Result<PthRemap, String>)
    requires
        2 * num_block + 2 <= usize::MAX,
    ensures
        match pth_remap_spec(arch@, layer_norm, num_block as nat) {
            Some((key, rules)) => r matches Ok(p) && opt_text(p.top_level_key) == key && rules_view(p.rules@)
                == rules,
            None => r matches Err(e) && e@ == unsupported_arch(arch@),
        },
{
    proof {
        reveal_strlit("params");
    }
    if str_eq(arch, "upcunet2x") || str_eq(arch, "upcunet2x-fast") || str_eq(arch, "fallin-cugan") {
        Ok(PthRemap { top_level_key: None, rules: make_cugan_rules() })
    } else if str_eq(arch, "srvgg") {
        Ok(PthRemap { top_level_key: None, rules: srvgg_remap_patterns(num_block as usize) })
    } else if str_eq(arch, "realesrgan") {
        Ok(PthRemap { top_level_key: None, rules: make_realesrgan_rules() })
    } else if str_eq(arch, "ifrnet") {
        Ok(PthRemap { top_level_key: None, rules: make_ifrnet_rules() })
    } else if str_eq(arch, "drunet") {
        Ok(PthRemap { top_level_key: None, rules: make_drunet_rules() })
    } else if str_eq(arch, "dncnn") || str_eq(arch, "ffdnet") {
        Ok(PthRemap { top_level_key: None, rules: make_numbered_conv_rules() })
    } else if str_eq(arch, "scunet") {
        Ok(PthRemap { top_level_key: None, rules: make_scunet_rules() })
    } else if str_eq(arch, "nafnet") {
        Ok(PthRemap { top_level_key: Some("params"), rules: make_nafnet_rules() })
    } else if str_eq(arch, "real-plksr") {
        Ok(PthRemap { top_level_key: None, rules: make_plksr_rules(layer_norm) })
    } else if str_eq(arch, "span") {
        Ok(PthRemap { top_level_key: None, rules: make_span_rules() })
    } else if str_eq(arch, "safmn") {
        Ok(PthRemap { top_level_key: None, rules: safmn_remap_patterns() })
    } else {
        Err(unsupported_arch_message(arch))
    }
}

/// The error of an unsupported architecture.
pub fn unsupported_arch_message(arch: &str) -> (r: String)
    ensures
        r@ == unsupported_arch(arch@),
{
    let mut m = String::from_str("unsupported arch: ");
    m.append(arch);
    m
}

// ---------------------------------------------------------------------------
// What the rules do to checkpoint keys
// ---------------------------------------------------------------------------

/// A character with a meaning of its own in a regex.
pub open spec fn is_regex_meta(ch: char) -> bool {
    ch == '\\' || ch == '.' || ch == '^' || ch == '$' || ch == '*' || ch == '+' || ch == '?' || ch == '('
        || ch == ')' || ch == '[' || ch == ']' || ch == '{' || ch == '}' || ch == '|'
}

/// A character that repeats what stands before it in a regex.
pub open spec fn is_quantifier(ch: char) -> bool {
    ch == '*' || ch == '+' || ch == '?' || ch == '{'
}

/// Whether `s` holds the character `ch`.
pub open spec fn holds_char(s: Seq<char>, ch: char) -> bool
    decreases s.len(),
{
    s.len() > 0 && (s[0] == ch || holds_char(s.drop_first(), ch))
}

/// The literal text a regex must match first, as far as it consists of plain
/// characters and escaped dots that no quantifier follows; and whether that
/// literal is the whole regex.
pub open spec fn literal_head(p: Seq<char>) -> (Seq<char>, bool)
    decreases p.len(),
{
    if p.len() == 0 {
        (seq![], true)
    } else if p.len() >= 2 && p[0] == '\\' && p[1] == '.' && !(p.len() >= 3 && is_quantifier(p[2])) {
        let (l, whole) = literal_head(p.skip(2));
        (seq!['.'] + l, whole)
    } else if !is_regex_meta(p[0]) && !(p.len() >= 2 && is_quantifier(p[1])) {
        let (l, whole) = literal_head(p.skip(1));
        (seq![p[0]] + l, whole)
    } else {
        (seq![], false)
    }
}

/// What one (regex, replacement) rule does to a key, as far as it follows
/// from the regex's literal head: a regex anchored with `^` and free of
/// alternatives leaves a key that does not start with its literal head
/// unchanged; a regex that is `^` and a literal replaces that literal at the
/// start of the key with the replacement (which names no capture group).
/// `None` where neither applies.
pub open spec fn rule_step(rule: (Seq<char>, Seq<char>), key: Seq<char>) -> Option<Seq<char>> {
    let p = rule.0;
    if p.len() == 0 || p[0] != '^' || holds_char(p, '|') {
        None
    } else {
        let (lit, whole) = literal_head(p.drop_first());
        if !has_prefix(key, lit) {
            Some(key)
        } else if whole && !holds_char(rule.1, '$') {
            Some(rule.1 + key.skip(lit.len() as int))
        } else {
            None
        }
    }
}

/// A key after every rule has been applied to it in turn; `None` where the
/// effect of some rule does not follow from `rule_step`.
pub open spec fn remap_key(rules: Seq<(Seq<char>, Seq<char>)>, key: Seq<char>) -> Option<Seq<char>>
    decreases rules.len(),
{
    if rules.len() == 0 {
        Some(key)
    } else {
        match rule_step(rules[0], key) {
            Some(k) => remap_key(rules.drop_first(), k),
            None => None,
        }
    }
}

/// A rule whose regex is `^` and the literal `lit`, and whose replacement
/// names no capture group.
pub open spec fn literal_rule(rule: (Seq<char>, Seq<char>), lit: Seq<char>) -> bool {
    &&& rule.0.len() > 0
    &&& rule.0[0] == '^'
    &&& !holds_char(rule.0, '|')
    &&& literal_head(rule.0.drop_first()) == (lit, true)
    &&& !holds_char(rule.1, '$')
}

/// A rule whose regex is anchored, free of alternatives, and must first
/// match the character `ch`.
pub open spec fn anchored_head_starts_with(rule: (Seq<char>, Seq<char>), ch: char) -> bool {
    &&& rule.0.len() > 0
    &&& rule.0[0] == '^'
    &&& !holds_char(rule.0, '|')
    &&& literal_head(rule.0.drop_first()).0.len() >= 1
    &&& literal_head(rule.0.drop_first()).0[0] == ch
}

proof fn lemma_realesrgan_rule_0()
    ensures
        anchored_head_starts_with(realesrgan_rules()[0], 'R'),
{
    let r = realesrgan_rules()[0];
    reveal_strlit("^RRDB_trunk\\.(\\d+)\\.RDB(\\d+)\\.conv(\\d+)\\.");
    assert(r.0 =~= seq!['^', 'R', 'R', 'D', 'B', '_', 't', 'r', 'u', 'n', 'k', '\\', '.', '(', '\\', 'd', '+', ')', '\\', '.', 'R', 'D', 'B', '(', '\\', 'd', '+', ')', '\\', '.', 'c', 'o', 'n', 'v', '(', '\\', 'd', '+', ')', '\\', '.']);
    assert(r.0.drop_first() =~= seq!['R', 'R', 'D', 'B', '_', 't', 'r', 'u', 'n', 'k', '\\', '.', '(', '\\', 'd', '+', ')', '\\', '.', 'R', 'D', 'B', '(', '\\', 'd', '+', ')', '\\', '.', 'c', 'o', 'n', 'v', '(', '\\', 'd', '+', ')', '\\', '.']);
    assert(!holds_char(r.0, '|')) by {
        reveal_with_fuel(holds_char, 42);
    }
    assert(literal_head(r.0.drop_first()).0[0] == 'R') by {
        reveal_with_fuel(literal_head, 2);
    }
}

proof fn lemma_realesrgan_rule_1()
    ensures
        literal_rule(realesrgan_rules()[1], "params_ema."@),
{
    let r = realesrgan_rules()[1];
    reveal_strlit("^params_ema\\.");
    assert(r.0 =~= seq!['^', 'p', 'a', 'r', 'a', 'm', 's', '_', 'e', 'm', 'a', '\\', '.']);
    assert(r.0.drop_first() =~= seq!['p', 'a', 'r', 'a', 'm', 's', '_', 'e', 'm', 'a', '\\', '.']);
    assert(!holds_char(r.0, '|')) by {
        reveal_with_fuel(holds_char, 14);
    }
    reveal_strlit("");
    assert(r.1.len() == 0);
    reveal_strlit("params_ema.");
    assert("params_ema."@ =~= seq!['p', 'a', 'r', 'a', 'm', 's', '_', 'e', 'm', 'a', '.']);
    assert(literal_head(r.0.drop_first()) == ("params_ema."@, true)) by {
        reveal_with_fuel(literal_head, 13);
    }
    assert(!holds_char(r.1, '$')) by {
        reveal_with_fuel(holds_char, 1);
    }
}

proof fn lemma_realesrgan_rule_2()
    ensures
        literal_rule(realesrgan_rules()[2], "params."@),
{
    let r = realesrgan_rules()[2];
    reveal_strlit("^params\\.");
    assert(r.0 =~= seq!['^', 'p', 'a', 'r', 'a', 'm', 's', '\\', '.']);
    assert(r.0.drop_first() =~= seq!['p', 'a', 'r', 'a', 'm', 's', '\\', '.']);
    assert(!holds_char(r.0, '|')) by {
        reveal_with_fuel(holds_char, 10);
    }
    reveal_strlit("");
    assert(r.1.len() == 0);
    reveal_strlit("params.");
    assert("params."@ =~= seq!['p', 'a', 'r', 'a', 'm', 's', '.']);
    assert(literal_head(r.0.drop_first()) == ("params."@, true)) by {
        reveal_with_fuel(literal_head, 9);
    }
    assert(!holds_char(r.1, '$')) by {
        reveal_with_fuel(holds_char, 1);
    }
}

proof fn lemma_realesrgan_rule_3()
    ensures
        literal_rule(realesrgan_rules()[3], "trunk_conv."@),
{
    let r = realesrgan_rules()[3];
    reveal_strlit("^trunk_conv\\.");
    assert(r.0 =~= seq!['^', 't', 'r', 'u', 'n', 'k', '_', 'c', 'o', 'n', 'v', '\\', '.']);
    assert(r.0.drop_first() =~= seq!['t', 'r', 'u', 'n', 'k', '_', 'c', 'o', 'n', 'v', '\\', '.']);
    assert(!holds_char(r.0, '|')) by {
        reveal_with_fuel(holds_char, 14);
    }
    reveal_strlit("conv_body.");
    assert(r.1 =~= seq!['c', 'o', 'n', 'v', '_', 'b', 'o', 'd', 'y', '.']);
    reveal_strlit("trunk_conv.");
    assert("trunk_conv."@ =~= seq!['t', 'r', 'u', 'n', 'k', '_', 'c', 'o', 'n', 'v', '.']);
    assert(literal_head(r.0.drop_first()) == ("trunk_conv."@, true)) by {
        reveal_with_fuel(literal_head, 13);
    }
    assert(!holds_char(r.1, '$')) by {
        reveal_with_fuel(holds_char, 11);
    }
}

proof fn lemma_realesrgan_rule_4()
    ensures
        literal_rule(realesrgan_rules()[4], "upconv1."@),
{
    let r = realesrgan_rules()[4];
    reveal_strlit("^upconv1\\.");
    assert(r.0 =~= seq!['^', 'u', 'p', 'c', 'o', 'n', 'v', '1', '\\', '.']);
    assert(r.0.drop_first() =~= seq!['u', 'p', 'c', 'o', 'n', 'v', '1', '\\', '.']);
    assert(!holds_char(r.0, '|')) by {
        reveal_with_fuel(holds_char, 11);
    }
    reveal_strlit("conv_up1.");
    assert(r.1 =~= seq!['c', 'o', 'n', 'v', '_', 'u', 'p', '1', '.']);
    reveal_strlit("upconv1.");
    assert("upconv1."@ =~= seq!['u', 'p', 'c', 'o', 'n', 'v', '1', '.']);
    assert(literal_head(r.0.drop_first()) == ("upconv1."@, true)) by {
        reveal_with_fuel(literal_head, 10);
    }
    assert(!holds_char(r.1, '$')) by {
        reveal_with_fuel(holds_char, 10);
    }
}

proof fn lemma_realesrgan_rule_5()
    ensures
        literal_rule(realesrgan_rules()[5], "upconv2."@),
{
    let r = realesrgan_rules()[5];
    reveal_strlit("^upconv2\\.");
    assert(r.0 =~= seq!['^', 'u', 'p', 'c', 'o', 'n', 'v', '2', '\\', '.']);
    assert(r.0.drop_first() =~= seq!['u', 'p', 'c', 'o', 'n', 'v', '2', '\\', '.']);
    assert(!holds_char(r.0, '|')) by {
        reveal_with_fuel(holds_char, 11);
    }
    reveal_strlit("conv_up2.");
    assert(r.1 =~= seq!['c', 'o', 'n', 'v', '_', 'u', 'p', '2', '.']);
    reveal_strlit("upconv2.");
    assert("upconv2."@ =~= seq!['u', 'p', 'c', 'o', 'n', 'v', '2', '.']);
    assert(literal_head(r.0.drop_first()) == ("upconv2."@, true)) by {
        reveal_with_fuel(literal_head, 10);
    }
    assert(!holds_char(r.1, '$')) by {
        reveal_with_fuel(holds_char, 10);
    }
}

proof fn lemma_realesrgan_rule_6()
    ensures
        literal_rule(realesrgan_rules()[6], "HRconv."@),
{
    let r = realesrgan_rules()[6];
    reveal_strlit("^HRconv\\.");
    assert(r.0 =~= seq!['^', 'H', 'R', 'c', 'o', 'n', 'v', '\\', '.']);
    assert(r.0.drop_first() =~= seq!['H', 'R', 'c', 'o', 'n', 'v', '\\', '.']);
    assert(!holds_char(r.0, '|')) by {
        reveal_with_fuel(holds_char, 10);
    }
    reveal_strlit("conv_hr.");
    assert(r.1 =~= seq!['c', 'o', 'n', 'v', '_', 'h', 'r', '.']);
    reveal_strlit("HRconv.");
    assert("HRconv."@ =~= seq!['H', 'R', 'c', 'o', 'n', 'v', '.']);
    assert(literal_head(r.0.drop_first()) == ("HRconv."@, true)) by {
        reveal_with_fuel(literal_head, 9);
    }
    assert(!holds_char(r.1, '$')) by {
        reveal_with_fuel(holds_char, 9);
    }
}

/// What a literal rule does to a key.
proof fn lemma_literal_rule_step(rule: (Seq<char>, Seq<char>), lit: Seq<char>, key: Seq<char>)
    requires
        literal_rule(rule, lit),
    ensures
        rule_step(rule, key) == if has_prefix(key, lit) {
            Some(rule.1 + key.skip(lit.len() as int))
        } else {
            Some(key)
        },
{
}

/// A key whose `i`-th character differs from the literal's does not start
/// with it.
proof fn lemma_no_prefix(key: Seq<char>, lit: Seq<char>, i: int)
    requires
        0 <= i < lit.len(),
        i < key.len() ==> key[i] != lit[i],
    ensures
        !has_prefix(key, lit),
{
    if has_prefix(key, lit) {
        assert(key.subrange(0, lit.len() as int)[i] == key[i]);
    }
}

/// A rule step that leaves the key alone.
proof fn lemma_remap_skip_to(rules: Seq<(Seq<char>, Seq<char>)>, i: int, key: Seq<char>, next: Seq<char>)
    requires
        0 <= i < rules.len(),
        rule_step(rules[i], key) == Some(next),
    ensures
        remap_key(rules.subrange(i, rules.len() as int), key) == remap_key(
            rules.subrange(i + 1, rules.len() as int),
            next,
        ),
{
    assert(rules.subrange(i, rules.len() as int).drop_first() =~= rules.subrange(i + 1, rules.len() as int));
}

/// An anchored rule leaves alone a key that starts with another character.
proof fn lemma_anchored_rule_skips(rule: (Seq<char>, Seq<char>), ch: char, key: Seq<char>)
    requires
        anchored_head_starts_with(rule, ch),
        key.len() > 0,
        key[0] != ch,
    ensures
        rule_step(rule, key) == Some(key),
{
    lemma_no_prefix(key, literal_head(rule.0.drop_first()).0, 0);
}

proof fn lemma_realesrgan_key_upconv1(rest: Seq<char>)
    ensures
        remap_key(realesrgan_rules(), "upconv1."@ + rest) == Some("conv_up1."@ + rest),
{
    let key = "upconv1."@ + rest;
    let out = "conv_up1."@ + rest;
    reveal_strlit("upconv1.");
    reveal_strlit("conv_up1.");
    assert("upconv1."@ =~= seq!['u', 'p', 'c', 'o', 'n', 'v', '1', '.']);
    assert("conv_up1."@ =~= seq!['c', 'o', 'n', 'v', '_', 'u', 'p', '1', '.']);
    let rules = realesrgan_rules();
    assert(rules.subrange(0, 7) =~= rules);
    assert(rules.subrange(7, 7).len() == 0);
    assert(key[0] == 'u' && out[0] == 'c');
    lemma_realesrgan_rule_0();
    lemma_anchored_rule_skips(rules[0], 'R', key);
    lemma_remap_skip_to(rules, 0, key, key);
    lemma_realesrgan_rule_1();
    lemma_literal_rule_step(rules[1], "params_ema."@, key);
    reveal_strlit("params_ema.");
    assert("params_ema."@ =~= seq!['p', 'a', 'r', 'a', 'm', 's', '_', 'e', 'm', 'a', '.']);
    assert(key[0] == 'u');
    lemma_no_prefix(key, "params_ema."@, 0);
    lemma_remap_skip_to(rules, 1, key, key);
    lemma_realesrgan_rule_2();
    lemma_literal_rule_step(rules[2], "params."@, key);
    reveal_strlit("params.");
    assert("params."@ =~= seq!['p', 'a', 'r', 'a', 'm', 's', '.']);
    assert(key[0] == 'u');
    lemma_no_prefix(key, "params."@, 0);
    lemma_remap_skip_to(rules, 2, key, key);
    lemma_realesrgan_rule_3();
    lemma_literal_rule_step(rules[3], "trunk_conv."@, key);
    reveal_strlit("trunk_conv.");
    assert("trunk_conv."@ =~= seq!['t', 'r', 'u', 'n', 'k', '_', 'c', 'o', 'n', 'v', '.']);
    assert(key[0] == 'u');
    lemma_no_prefix(key, "trunk_conv."@, 0);
    lemma_remap_skip_to(rules, 3, key, key);
    lemma_realesrgan_rule_4();
    lemma_literal_rule_step(rules[4], "upconv1."@, key);
    reveal_strlit("upconv1.");
    assert("upconv1."@ =~= seq!['u', 'p', 'c', 'o', 'n', 'v', '1', '.']);
    assert(key.subrange(0, 8) =~= "upconv1."@);
    assert(rules[4].1 + key.skip(8) =~= out);
    lemma_remap_skip_to(rules, 4, key, out);
    lemma_realesrgan_rule_5();
    lemma_literal_rule_step(rules[5], "upconv2."@, out);
    reveal_strlit("upconv2.");
    assert("upconv2."@ =~= seq!['u', 'p', 'c', 'o', 'n', 'v', '2', '.']);
    assert(out[0] == 'c');
    lemma_no_prefix(out, "upconv2."@, 0);
    lemma_remap_skip_to(rules, 5, out, out);
    lemma_realesrgan_rule_6();
    lemma_literal_rule_step(rules[6], "HRconv."@, out);
    reveal_strlit("HRconv.");
    assert("HRconv."@ =~= seq!['H', 'R', 'c', 'o', 'n', 'v', '.']);
    assert(out[0] == 'c');
    lemma_no_prefix(out, "HRconv."@, 0);
    lemma_remap_skip_to(rules, 6, out, out);
}

proof fn lemma_realesrgan_key_upconv2(rest: Seq<char>)
    ensures
        remap_key(realesrgan_rules(), "upconv2."@ + rest) == Some("conv_up2."@ + rest),
{
    let key = "upconv2."@ + rest;
    let out = "conv_up2."@ + rest;
    reveal_strlit("upconv2.");
    reveal_strlit("conv_up2.");
    assert("upconv2."@ =~= seq!['u', 'p', 'c', 'o', 'n', 'v', '2', '.']);
    assert("conv_up2."@ =~= seq!['c', 'o', 'n', 'v', '_', 'u', 'p', '2', '.']);
    let rules = realesrgan_rules();
    assert(rules.subrange(0, 7) =~= rules);
    assert(rules.subrange(7, 7).len() == 0);
    assert(key[0] == 'u' && out[0] == 'c');
    lemma_realesrgan_rule_0();
    lemma_anchored_rule_skips(rules[0], 'R', key);
    lemma_remap_skip_to(rules, 0, key, key);
    lemma_realesrgan_rule_1();
    lemma_literal_rule_step(rules[1], "params_ema."@, key);
    reveal_strlit("params_ema.");
    assert("params_ema."@ =~= seq!['p', 'a', 'r', 'a', 'm', 's', '_', 'e', 'm', 'a', '.']);
    assert(key[0] == 'u');
    lemma_no_prefix(key, "params_ema."@, 0);
    lemma_remap_skip_to(rules, 1, key, key);
    lemma_realesrgan_rule_2();
    lemma_literal_rule_step(rules[2], "params."@, key);
    reveal_strlit("params.");
    assert("params."@ =~= seq!['p', 'a', 'r', 'a', 'm', 's', '.']);
    assert(key[0] == 'u');
    lemma_no_prefix(key, "params."@, 0);
    lemma_remap_skip_to(rules, 2, key, key);
    lemma_realesrgan_rule_3();
    lemma_literal_rule_step(rules[3], "trunk_conv."@, key);
    reveal_strlit("trunk_conv.");
    assert("trunk_conv."@ =~= seq!['t', 'r', 'u', 'n', 'k', '_', 'c', 'o', 'n', 'v', '.']);
    assert(key[0] == 'u');
    lemma_no_prefix(key, "trunk_conv."@, 0);
    lemma_remap_skip_to(rules, 3, key, key);
    lemma_realesrgan_rule_4();
    lemma_literal_rule_step(rules[4], "upconv1."@, key);
    reveal_strlit("upconv1.");
    assert("upconv1."@ =~= seq!['u', 'p', 'c', 'o', 'n', 'v', '1', '.']);
    assert(key[6] == '2');
    lemma_no_prefix(key, "upconv1."@, 6);
    lemma_remap_skip_to(rules, 4, key, key);
    lemma_realesrgan_rule_5();
    lemma_literal_rule_step(rules[5], "upconv2."@, key);
    reveal_strlit("upconv2.");
    assert("upconv2."@ =~= seq!['u', 'p', 'c', 'o', 'n', 'v', '2', '.']);
    assert(key.subrange(0, 8) =~= "upconv2."@);
    assert(rules[5].1 + key.skip(8) =~= out);
    lemma_remap_skip_to(rules, 5, key, out);
    lemma_realesrgan_rule_6();
    lemma_literal_rule_step(rules[6], "HRconv."@, out);
    reveal_strlit("HRconv.");
    assert("HRconv."@ =~= seq!['H', 'R', 'c', 'o', 'n', 'v', '.']);
    assert(out[0] == 'c');
    lemma_no_prefix(out, "HRconv."@, 0);
    lemma_remap_skip_to(rules, 6, out, out);
}

proof fn lemma_realesrgan_key_trunk_conv(rest: Seq<char>)
    ensures
        remap_key(realesrgan_rules(), "trunk_conv."@ + rest) == Some("conv_body."@ + rest),
{
    let key = "trunk_conv."@ + rest;
    let out = "conv_body."@ + rest;
    reveal_strlit("trunk_conv.");
    reveal_strlit("conv_body.");
    assert("trunk_conv."@ =~= seq!['t', 'r', 'u', 'n', 'k', '_', 'c', 'o', 'n', 'v', '.']);
    assert("conv_body."@ =~= seq!['c', 'o', 'n', 'v', '_', 'b', 'o', 'd', 'y', '.']);
    let rules = realesrgan_rules();
    assert(rules.subrange(0, 7) =~= rules);
    assert(rules.subrange(7, 7).len() == 0);
    assert(key[0] == 't' && out[0] == 'c');
    lemma_realesrgan_rule_0();
    lemma_anchored_rule_skips(rules[0], 'R', key);
    lemma_remap_skip_to(rules, 0, key, key);
    lemma_realesrgan_rule_1();
    lemma_literal_rule_step(rules[1], "params_ema."@, key);
    reveal_strlit("params_ema.");
    assert("params_ema."@ =~= seq!['p', 'a', 'r', 'a', 'm', 's', '_', 'e', 'm', 'a', '.']);
    assert(key[0] == 't');
    lemma_no_prefix(key, "params_ema."@, 0);
    lemma_remap_skip_to(rules, 1, key, key);
    lemma_realesrgan_rule_2();
    lemma_literal_rule_step(rules[2], "params."@, key);
    reveal_strlit("params.");
    assert("params."@ =~= seq!['p', 'a', 'r', 'a', 'm', 's', '.']);
    assert(key[0] == 't');
    lemma_no_prefix(key, "params."@, 0);
    lemma_remap_skip_to(rules, 2, key, key);
    lemma_realesrgan_rule_3();
    lemma_literal_rule_step(rules[3], "trunk_conv."@, key);
    reveal_strlit("trunk_conv.");
    assert("trunk_conv."@ =~= seq!['t', 'r', 'u', 'n', 'k', '_', 'c', 'o', 'n', 'v', '.']);
    assert(key.subrange(0, 11) =~= "trunk_conv."@);
    assert(rules[3].1 + key.skip(11) =~= out);
    lemma_remap_skip_to(rules, 3, key, out);
    lemma_realesrgan_rule_4();
    lemma_literal_rule_step(rules[4], "upconv1."@, out);
    reveal_strlit("upconv1.");
    assert("upconv1."@ =~= seq!['u', 'p', 'c', 'o', 'n', 'v', '1', '.']);
    assert(out[0] == 'c');
    lemma_no_prefix(out, "upconv1."@, 0);
    lemma_remap_skip_to(rules, 4, out, out);
    lemma_realesrgan_rule_5();
    lemma_literal_rule_step(rules[5], "upconv2."@, out);
    reveal_strlit("upconv2.");
    assert("upconv2."@ =~= seq!['u', 'p', 'c', 'o', 'n', 'v', '2', '.']);
    assert(out[0] == 'c');
    lemma_no_prefix(out, "upconv2."@, 0);
    lemma_remap_skip_to(rules, 5, out, out);
    lemma_realesrgan_rule_6();
    lemma_literal_rule_step(rules[6], "HRconv."@, out);
    reveal_strlit("HRconv.");
    assert("HRconv."@ =~= seq!['H', 'R', 'c', 'o', 'n', 'v', '.']);
    assert(out[0] == 'c');
    lemma_no_prefix(out, "HRconv."@, 0);
    lemma_remap_skip_to(rules, 6, out, out);
}

proof fn lemma_realesrgan_key_hrconv(rest: Seq<char>)
    ensures
        remap_key(realesrgan_rules(), "HRconv."@ + rest) == Some("conv_hr."@ + rest),
{
    let key = "HRconv."@ + rest;
    let out = "conv_hr."@ + rest;
    reveal_strlit("HRconv.");
    reveal_strlit("conv_hr.");
    assert("HRconv."@ =~= seq!['H', 'R', 'c', 'o', 'n', 'v', '.']);
    assert("conv_hr."@ =~= seq!['c', 'o', 'n', 'v', '_', 'h', 'r', '.']);
    let rules = realesrgan_rules();
    assert(rules.subrange(0, 7) =~= rules);
    assert(rules.subrange(7, 7).len() == 0);
    assert(key[0] == 'H' && out[0] == 'c');
    lemma_realesrgan_rule_0();
    lemma_anchored_rule_skips(rules[0], 'R', key);
    lemma_remap_skip_to(rules, 0, key, key);
    lemma_realesrgan_rule_1();
    lemma_literal_rule_step(rules[1], "params_ema."@, key);
    reveal_strlit("params_ema.");
    assert("params_ema."@ =~= seq!['p', 'a', 'r', 'a', 'm', 's', '_', 'e', 'm', 'a', '.']);
    assert(key[0] == 'H');
    lemma_no_prefix(key, "params_ema."@, 0);
    lemma_remap_skip_to(rules, 1, key, key);
    lemma_realesrgan_rule_2();
    lemma_literal_rule_step(rules[2], "params."@, key);
    reveal_strlit("params.");
    assert("params."@ =~= seq!['p', 'a', 'r', 'a', 'm', 's', '.']);
    assert(key[0] == 'H');
    lemma_no_prefix(key, "params."@, 0);
    lemma_remap_skip_to(rules, 2, key, key);
    lemma_realesrgan_rule_3();
    lemma_literal_rule_step(rules[3], "trunk_conv."@, key);
    reveal_strlit("trunk_conv.");
    assert("trunk_conv."@ =~= seq!['t', 'r', 'u', 'n', 'k', '_', 'c', 'o', 'n', 'v', '.']);
    assert(key[0] == 'H');
    lemma_no_prefix(key, "trunk_conv."@, 0);
    lemma_remap_skip_to(rules, 3, key, key);
    lemma_realesrgan_rule_4();
    lemma_literal_rule_step(rules[4], "upconv1."@, key);
    reveal_strlit("upconv1.");
    assert("upconv1."@ =~= seq!['u', 'p', 'c', 'o', 'n', 'v', '1', '.']);
    assert(key[0] == 'H');
    lemma_no_prefix(key, "upconv1."@, 0);
    lemma_remap_skip_to(rules, 4, key, key);
    lemma_realesrgan_rule_5();
    lemma_literal_rule_step(rules[5], "upconv2."@, key);
    reveal_strlit("upconv2.");
    assert("upconv2."@ =~= seq!['u', 'p', 'c', 'o', 'n', 'v', '2', '.']);
    assert(key[0] == 'H');
    lemma_no_prefix(key, "upconv2."@, 0);
    lemma_remap_skip_to(rules, 5, key, key);
    lemma_realesrgan_rule_6();
    lemma_literal_rule_step(rules[6], "HRconv."@, key);
    reveal_strlit("HRconv.");
    assert("HRconv."@ =~= seq!['H', 'R', 'c', 'o', 'n', 'v', '.']);
    assert(key.subrange(0, 7) =~= "HRconv."@);
    assert(rules[6].1 + key.skip(7) =~= out);
    lemma_remap_skip_to(rules, 6, key, out);
}

/// Law: under the Real-ESRGAN plan each renamed layer's checkpoint keys land
/// on the module field of the same role, whatever follows the layer's name:
/// `upconv1.…` → `conv_up1.…`, `upconv2.…` → `conv_up2.…`,
/// `trunk_conv.…` → `conv_body.…`, `HRconv.…` → `conv_hr.…`.
pub proof fn lemma_realesrgan_layer_keys(layer_norm: bool, num_block: nat, rest: Seq<char>)
    ensures
        pth_remap_spec("realesrgan"@, layer_norm, num_block) == Some((None::<Seq<char>>, realesrgan_rules())),
        remap_key(realesrgan_rules(), "upconv1."@ + rest) == Some("conv_up1."@ + rest),
        remap_key(realesrgan_rules(), "upconv2."@ + rest) == Some("conv_up2."@ + rest),
        remap_key(realesrgan_rules(), "trunk_conv."@ + rest) == Some("conv_body."@ + rest),
        remap_key(realesrgan_rules(), "HRconv."@ + rest) == Some("conv_hr."@ + rest),
{
    reveal_strlit("realesrgan");
    reveal_strlit("upcunet2x");
    reveal_strlit("upcunet2x-fast");
    reveal_strlit("fallin-cugan");
    reveal_strlit("srvgg");
    assert("realesrgan"@.len() == 10 && "upcunet2x"@.len() == 9 && "upcunet2x-fast"@.len() == 14);
    assert("fallin-cugan"@.len() == 12 && "srvgg"@.len() == 5);
    lemma_realesrgan_key_upconv1(rest);
    lemma_realesrgan_key_upconv2(rest);
    lemma_realesrgan_key_trunk_conv(rest);
    lemma_realesrgan_key_hrconv(rest);
}

} // verus!
