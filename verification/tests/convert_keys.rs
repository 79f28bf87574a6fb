use regex::Regex;
use senmei::convert::{dis_remap_patterns, safmn_remap_patterns, srvgg_remap_patterns};

/// Apply remapping rules to checkpoint keys in order, every matching rule
/// rewriting all its matches, then sort and dedup the resulting keys.
fn remap_keys(patterns: Vec<(String, String)>, source: &[String]) -> Vec<String> {
    let rules: Vec<(Regex, String)> =
        patterns.into_iter().map(|(p, r)| (Regex::new(&p).unwrap(), r)).collect();
    let mut paths: Vec<String> = source
        .iter()
        .map(|key| {
            let mut path = key.clone();
            for (re, rep) in &rules {
                if re.is_match(&path) {
                    path = re.replace_all(&path, rep.as_str()).into_owned();
                }
            }
            path
        })
        .collect();
    paths.sort();
    paths.dedup();
    paths
}

#[test]
fn safmn_conversion_key_contract() {
    let mut source: Vec<String> = Vec::with_capacity(292);
    source.push("params_ema.to_feat.weight".into());
    source.push("params_ema.to_feat.bias".into());
    for i in 0..16u32 {
        source.push(format!("params_ema.feats.{i}.norm1.weight"));
        source.push(format!("params_ema.feats.{i}.norm1.bias"));
        source.push(format!("params_ema.feats.{i}.norm2.weight"));
        source.push(format!("params_ema.feats.{i}.norm2.bias"));
        for j in 0..4u32 {
            source.push(format!("params_ema.feats.{i}.safm.mfr.{j}.weight"));
            source.push(format!("params_ema.feats.{i}.safm.mfr.{j}.bias"));
        }
        source.push(format!("params_ema.feats.{i}.safm.aggr.weight"));
        source.push(format!("params_ema.feats.{i}.safm.aggr.bias"));
        source.push(format!("params_ema.feats.{i}.ccm.ccm.0.weight"));
        source.push(format!("params_ema.feats.{i}.ccm.ccm.0.bias"));
        source.push(format!("params_ema.feats.{i}.ccm.ccm.2.weight"));
        source.push(format!("params_ema.feats.{i}.ccm.ccm.2.bias"));
    }
    source.push("params_ema.to_img.0.weight".into());
    source.push("params_ema.to_img.0.bias".into());
    assert_eq!(source.len(), 292);

    let paths = remap_keys(safmn_remap_patterns(), &source);

    let mut expected: Vec<String> = Vec::with_capacity(292);
    expected.push("to_feat.weight".into());
    expected.push("to_feat.bias".into());
    for i in 0..16u32 {
        expected.push(format!("blocks.{i}.norm1.weight"));
        expected.push(format!("blocks.{i}.norm1.bias"));
        expected.push(format!("blocks.{i}.norm2.weight"));
        expected.push(format!("blocks.{i}.norm2.bias"));
        for j in 0..4u32 {
            expected.push(format!("blocks.{i}.safm.mfr.{j}.weight"));
            expected.push(format!("blocks.{i}.safm.mfr.{j}.bias"));
        }
        expected.push(format!("blocks.{i}.safm.aggr.weight"));
        expected.push(format!("blocks.{i}.safm.aggr.bias"));
        expected.push(format!("blocks.{i}.ccm.conv1.weight"));
        expected.push(format!("blocks.{i}.ccm.conv1.bias"));
        expected.push(format!("blocks.{i}.ccm.conv2.weight"));
        expected.push(format!("blocks.{i}.ccm.conv2.bias"));
    }
    expected.push("to_img_conv.weight".into());
    expected.push("to_img_conv.bias".into());
    expected.sort();

    assert_eq!(paths, expected);
}

#[test]
fn srvgg_conversion_key_contract() {
    let num_conv = 16usize;
    let mut source: Vec<String> = Vec::with_capacity(2 * (num_conv + 2) + num_conv + 1);
    for i in 0..num_conv + 2 {
        source.push(format!("params.body.{}.weight", i * 2));
        source.push(format!("params.body.{}.bias", i * 2));
    }
    for k in 0..=num_conv {
        source.push(format!("params.body.{}.weight", k * 2 + 1));
    }

    let paths = remap_keys(srvgg_remap_patterns(num_conv), &source);

    let mut expected: Vec<String> = Vec::with_capacity(paths.len());
    for i in 0..num_conv + 2 {
        expected.push(format!("body.{}.weight", i));
        expected.push(format!("body.{}.bias", i));
    }
    for k in 0..=num_conv {
        expected.push(format!("prelu.{k}.weight"));
    }
    expected.sort();

    assert_eq!(paths, expected);
}

#[test]
fn dis_conversion_key_contract() {
    let num_blocks = 8usize;
    let mut source: Vec<String> = Vec::new();
    source.push("head.weight".into());
    source.push("head.bias".into());
    source.push("head_act.weight".into());
    for i in 0..num_blocks {
        source.push(format!("body.{i}.conv1.weight"));
        source.push(format!("body.{i}.conv2.weight"));
        source.push(format!("body.{i}.act.weight"));
    }
    source.push("fusion.weight".into());
    source.push("fusion.bias".into());
    source.push("upsampler.conv.weight".into());
    source.push("upsampler.conv.bias".into());
    source.push("upsampler.act.weight".into());
    source.push("tail.weight".into());
    source.push("tail.bias".into());

    let paths = remap_keys(dis_remap_patterns(), &source);

    let mut expected: Vec<String> = Vec::new();
    expected.push("head.weight".into());
    expected.push("head.bias".into());
    expected.push("head_act.weight".into());
    for i in 0..num_blocks {
        expected.push(format!("body.{i}.conv1.weight"));
        expected.push(format!("body.{i}.conv2.weight"));
        expected.push(format!("body.{i}.act.weight"));
    }
    expected.push("fusion.weight".into());
    expected.push("fusion.bias".into());
    expected.push("upsampler.0.conv.weight".into());
    expected.push("upsampler.0.conv.bias".into());
    expected.push("upsampler.0.act.weight".into());
    expected.push("tail.weight".into());
    expected.push("tail.bias".into());
    expected.sort();

    assert_eq!(paths, expected);
}
