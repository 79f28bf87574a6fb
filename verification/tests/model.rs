use senmei::convert::{dis_remap_patterns, pth_remap, safmn_remap_patterns, srvgg_remap_patterns, ConvertOptions};
use senmei::model::{arch_kind, default_true, join_path, ArchKind, ModelKind, ModelMetadata, Registry};
use senmei::onnx::{element_layout, OnnxTensor};
use senmei::swin::{relative_index, sw_cross_patterns, NP};

fn meta(id: &str, kind: ModelKind, scale: u32, arch: &str) -> ModelMetadata {
    ModelMetadata {
        id: id.to_string(),
        kind,
        scale,
        arch: arch.to_string(),
        weights: None,
        license: None,
        source_url: None,
        download_url: None,
        sha256: None,
        loadable: default_true(),
        num_block: None,
    }
}

#[test]
fn registry_resolves_model_ref() {
    let mut m = meta("span", ModelKind::Upscale, 4, "realesrgan");
    m.weights = Some(vec!["span.pth".to_string()]);
    m.num_block = Some(6);
    let mut registry = Registry::new();
    registry.add(m);
    let mref = registry.resolve("span", "/models").unwrap();
    assert_eq!(mref.id, "span");
    assert_eq!(mref.arch, "realesrgan");
    assert_eq!(mref.scale, 4);
    assert_eq!(mref.num_block, 6);
    assert_eq!(mref.path, "/models/span.pth");
    assert!(registry.resolve("missing", "/models").is_none());
}

#[test]
fn registry_defaults_and_first_match() {
    let mut registry = Registry::new();
    let mut a = meta("rife-v4", ModelKind::Interpolate, 1, "rife425");
    a.weights = Some(vec!["a.bpk".to_string(), "b.bpk".to_string()]);
    let mut b = meta("rife-v4", ModelKind::Interpolate, 2, "other");
    b.weights = Some(vec!["c.bpk".to_string()]);
    registry.add(a);
    registry.add(b);
    registry.add(meta("no-weights", ModelKind::Denoise, 1, "drunet"));
    assert_eq!(registry.models().len(), 3);
    assert!(registry.models()[0].loadable);
    assert!(matches!(registry.models()[2].kind, ModelKind::Denoise));
    let r = registry.resolve("rife-v4", "models/").unwrap();
    assert_eq!((r.arch.as_str(), r.num_block, r.path.as_str()), ("rife425", 4, "models/a.bpk"));
    assert!(registry.resolve("no-weights", "/m").is_none());
}

#[test]
fn join_path_rules() {
    assert_eq!(join_path("/models", "x.bpk"), "/models/x.bpk");
    assert_eq!(join_path("/models/", "x.bpk"), "/models/x.bpk");
    assert_eq!(join_path("", "x.bpk"), "x.bpk");
    assert_eq!(join_path("/models", "/abs/x.bpk"), "/abs/x.bpk");
}

#[test]
fn srvgg_remap_rules() {
    let p = srvgg_remap_patterns(2);
    assert_eq!(p.len(), 8);
    assert_eq!(p[0], ("^params\\.".to_string(), String::new()));
    assert_eq!(p[1], ("^body\\.1\\.weight$".to_string(), "prelu.0.weight".to_string()));
    assert_eq!(p[3], ("^body\\.5\\.weight$".to_string(), "prelu.2.weight".to_string()));
    assert_eq!(p[4], ("body\\.0\\.(weight|bias)".to_string(), "body.0.$1".to_string()));
    assert_eq!(p[7], ("body\\.6\\.(weight|bias)".to_string(), "body.3.$1".to_string()));
    assert_eq!(srvgg_remap_patterns(16).len(), 36);
}

#[test]
fn safmn_and_dis_remap_rules() {
    let s = safmn_remap_patterns();
    assert_eq!(s.len(), 6);
    assert_eq!(s[2], ("^feats\\.(\\d+)\\.".to_string(), "blocks.$1.".to_string()));
    assert_eq!(s[5], ("^to_img\\.0\\.".to_string(), "to_img_conv.".to_string()));
    let d = dis_remap_patterns();
    assert_eq!(d, vec![("^upsampler\\.(conv|act)\\.".to_string(), "upsampler.0.$1.".to_string())]);
}

#[test]
fn convert_options_carry_knobs() {
    let o = ConvertOptions {
        arch: "srvgg",
        pth_path: "in.pth",
        bpk_path: "out.bpk",
        scale: 2,
        num_block: 16,
        layer_norm: false,
        dysample: false,
        shuffle: 1,
    };
    let copy = o;
    assert_eq!((copy.arch, o.num_block), ("srvgg", 16));
}

#[test]
fn relative_index_table() {
    let idx = relative_index();
    assert_eq!(idx.len(), NP * NP);
    // p = q → centre of the 15×15 table.
    assert_eq!(idx[0], 7 * 15 + 7);
    // p = (0, 0), q = (7, 7) → (0 - 7 + 7) * 15 + (0 - 7 + 7) = 0.
    assert_eq!(idx[63], 0);
    // p = (7, 7), q = (0, 0) → 14 * 15 + 14 = 224.
    assert_eq!(idx[63 * 64], 224);
    assert!(idx.iter().all(|&v| (0..225).contains(&v)));
}

#[test]
fn shifted_window_masks() {
    let (row, col) = sw_cross_patterns();
    assert_eq!(row.len(), 4096);
    // p = (0, 0), q = (4, 0): rows straddle, columns do not.
    let k = 0 * 64 + 32;
    assert!(row[k] && !col[k]);
    // p = (0, 0), q = (0, 4): columns straddle.
    let k = 4;
    assert!(!row[k] && col[k]);
    assert!(!row[0] && !col[0]);
}

#[test]
fn pth_remap_plans_per_arch() {
    let cugan = pth_remap("fallin-cugan", false, 0).unwrap();
    assert_eq!(cugan.top_level_key, None);
    assert_eq!(cugan.rules[1], ("\\.conv\\.0\\.".to_string(), ".conv.".to_string()));
    let naf = pth_remap("nafnet", false, 0).unwrap();
    assert_eq!(naf.top_level_key, Some("params"));
    assert_eq!(naf.rules.len(), 5);
    let plk = pth_remap("real-plksr", false, 0).unwrap();
    assert_eq!(plk.rules.len(), 7 + 28);
    assert_eq!(plk.rules[7], ("^feats\\.1\\.".to_string(), "blocks.0.".to_string()));
    assert_eq!(plk.rules[34], ("^feats\\.28\\.".to_string(), "blocks.27.".to_string()));
    let plk_ln = pth_remap("real-plksr", true, 0).unwrap();
    assert_eq!(plk_ln.rules[7], ("\\.norm\\.".to_string(), ".layer_norm.".to_string()));
    assert_eq!(pth_remap("srvgg", false, 16).unwrap().rules.len(), 36);
    assert_eq!(pth_remap("dncnn", false, 0).unwrap().rules, vec![("^model\\.(\\d+)\\.".to_string(), "c$1.".to_string())]);
    assert_eq!(pth_remap("scunet", false, 0).unwrap().rules[3].1, "m_down${1}_down.");
    assert_eq!(pth_remap("dis", false, 0).err().unwrap(), "unsupported arch: dis");
}

#[test]
fn arch_names_map_to_networks() {
    assert_eq!(arch_kind("fallin-cugan"), Some(ArchKind::UpCunet2xFast));
    assert_eq!(arch_kind("upcunet2x"), Some(ArchKind::UpCunet2x));
    assert_eq!(arch_kind("paragonsr"), Some(ArchKind::ParagonSrNet));
    assert_eq!(arch_kind("rife46"), None);
    assert!(!ArchKind::Drunet.single_input_rgb());
    assert!(ArchKind::Span.single_input_rgb());
}

#[test]
fn onnx_element_layout_checks_dtype_and_length() {
    let t = OnnxTensor { name: "w".to_string(), dims: vec![2, 3], dtype: 10, data: vec![0; 12] };
    assert_eq!(element_layout(&t), Ok((2, 6)));
    let short = OnnxTensor { name: "w".to_string(), dims: vec![2, 3], dtype: 1, data: vec![0; 12] };
    assert_eq!(element_layout(&short), Err("data length mismatch for w".to_string()));
    let odd = OnnxTensor { name: "q".to_string(), dims: vec![1], dtype: -3, data: vec![] };
    assert_eq!(element_layout(&odd), Err("unsupported ONNX dtype -3 for q".to_string()));
    let int8 = OnnxTensor { name: "q".to_string(), dims: vec![1], dtype: 3, data: vec![0] };
    assert_eq!(element_layout(&int8), Err("unsupported ONNX dtype 3 for q".to_string()));
}
