use senmei::onnx::{read_dims, read_initializers, read_model, varint, OnnxError};

fn encode_varint(mut v: u64) -> Vec<u8> {
    let mut out = Vec::new();
    loop {
        let mut byte = (v & 0x7f) as u8;
        v >>= 7;
        if v != 0 {
            byte |= 0x80;
        }
        out.push(byte);
        if v == 0 {
            break;
        }
    }
    out
}

fn varint_field(num: u64, wire: u64, value: u64) -> Vec<u8> {
    let tag = (num << 3) | wire;
    let mut out = encode_varint(tag);
    out.extend_from_slice(&encode_varint(value));
    out
}

fn len_field(num: u64, payload: &[u8]) -> Vec<u8> {
    let mut out = encode_varint((num << 3) | 2);
    out.extend_from_slice(&encode_varint(payload.len() as u64));
    out.extend_from_slice(payload);
    out
}

fn packed_dims(dims: &[i64]) -> Vec<u8> {
    let mut payload = Vec::new();
    for d in dims {
        payload.extend_from_slice(&encode_varint(*d as u64));
    }
    len_field(1, &payload)
}

fn name_field(name: &str) -> Vec<u8> {
    len_field(8, name.as_bytes())
}

fn raw_field(data: &[u8]) -> Vec<u8> {
    len_field(9, data)
}

fn constant_node(out_name: &str, tensor: &[u8]) -> Vec<u8> {
    let mut attr = len_field(1, b"value");
    attr.extend_from_slice(&varint_field(20, 0, 4));
    attr.extend_from_slice(&len_field(5, tensor));
    let mut node = len_field(4, b"Constant");
    node.extend_from_slice(&len_field(2, out_name.as_bytes()));
    node.extend_from_slice(&len_field(5, &attr));
    node
}

#[test]
fn parses_fp16_initializer() {
    let mut tensor = packed_dims(&[2, 3]);
    tensor.extend_from_slice(&varint_field(2, 0, 10));
    tensor.extend_from_slice(&name_field("w.bias"));
    tensor.extend_from_slice(&raw_field(&[0, 0x3c, 0, 0x3c]));
    let graph = len_field(5, &tensor);
    let model = len_field(7, &graph);

    let tensors = read_initializers(&model).unwrap();
    assert_eq!(tensors.len(), 1);
    let t = &tensors[0];
    assert_eq!(t.name, "w.bias");
    assert_eq!(t.dims, vec![2, 3]);
    assert_eq!(t.dtype, 10);
    assert_eq!(t.data, vec![0, 0x3c, 0, 0x3c]);
}

#[test]
fn skips_unrelated_fields() {
    let mut t = packed_dims(&[1]);
    t.extend_from_slice(&varint_field(2, 0, 10));
    t.extend_from_slice(&name_field("x.weight"));
    t.extend_from_slice(&varint_field(99, 0, 7));
    t.extend_from_slice(&raw_field(&[0x00, 0x3c]));
    let mut g = len_field(2, b"graph");
    g.extend_from_slice(&len_field(5, &t));
    let mut m = varint_field(1, 0, 8);
    m.extend_from_slice(&len_field(7, &g));

    let tensors = read_initializers(&m).unwrap();
    assert_eq!(tensors.len(), 1);
    assert_eq!(tensors[0].name, "x.weight");
}

#[test]
fn reads_constant_node_tensors_keyed_by_output() {
    let mut t = packed_dims(&[2, 2]);
    t.extend_from_slice(&varint_field(2, 0, 10));
    t.extend_from_slice(&name_field("value"));
    t.extend_from_slice(&raw_field(&[0, 0x3c, 0, 0x3c, 0, 0x3c, 0, 0x3c]));
    let node = constant_node("unet.conv.weight", &t);
    let graph = len_field(1, &node);
    let model = len_field(7, &graph);

    let tensors = read_initializers(&model).unwrap();
    assert_eq!(tensors.len(), 1);
    assert_eq!(tensors[0].name, "unet.conv.weight");
    assert_eq!(tensors[0].dims, vec![2, 2]);
    assert_eq!(tensors[0].data.len(), 8);
}

#[test]
fn merges_initializers_and_constants() {
    let mut init = packed_dims(&[1]);
    init.extend_from_slice(&varint_field(2, 0, 10));
    init.extend_from_slice(&name_field("w1"));
    init.extend_from_slice(&raw_field(&[0, 0x3c]));
    let mut t = packed_dims(&[1]);
    t.extend_from_slice(&varint_field(2, 0, 10));
    t.extend_from_slice(&name_field("value"));
    t.extend_from_slice(&raw_field(&[0, 0x3c]));
    let node = constant_node("w2", &t);
    let mut g = len_field(5, &init);
    g.extend_from_slice(&len_field(1, &node));
    let model = len_field(7, &g);

    let tensors = read_initializers(&model).unwrap();
    assert_eq!(tensors.len(), 2);
    assert_eq!(tensors[0].name, "w1");
    assert_eq!(tensors[1].name, "w2");
}

#[test]
fn rejects_external_data() {
    let mut t = packed_dims(&[1]);
    t.extend_from_slice(&varint_field(2, 0, 10));
    t.extend_from_slice(&name_field("w"));
    t.extend_from_slice(&varint_field(14, 0, 1));
    let graph = len_field(5, &t);
    let model = len_field(7, &graph);

    let err = read_initializers(&model).unwrap_err();
    assert!(err.contains("external"), "unexpected: {err}");
}

#[test]
fn errors_when_no_weights_found() {
    let node = len_field(4, b"Conv");
    let graph = len_field(1, &node);
    let model = len_field(7, &graph);

    let err = read_initializers(&model).unwrap_err();
    assert!(err.contains("no weight tensors"), "unexpected: {err}");
}

#[test]
fn errors_on_truncated_length_delimited_field() {
    let mut bad = encode_varint((5 << 3) | 2);
    bad.extend_from_slice(&encode_varint(100));
    bad.extend_from_slice(&[0u8; 2]);
    let model = len_field(7, &bad);

    let err = read_initializers(&model).unwrap_err();
    assert!(err.contains("exceeds buffer"), "unexpected: {err}");
}

#[test]
fn errors_on_truncated_varint() {
    let mut bad = encode_varint((5 << 3) | 2);
    bad.push(0x80);
    let model = len_field(7, &bad);

    let err = read_initializers(&model).unwrap_err();
    assert!(err.contains("malformed"), "unexpected: {err}");
}

#[test]
fn missing_graph_is_reported() {
    let m = varint_field(1, 0, 8);
    assert!(matches!(read_model(&m), Err(OnnxError::NoGraph)));
    assert_eq!(read_initializers(&m).unwrap_err(), "ModelProto has no graph field");
}

#[test]
fn tensor_without_data_type_is_rejected() {
    let mut t = packed_dims(&[1]);
    t.extend_from_slice(&name_field("w"));
    t.extend_from_slice(&raw_field(&[0, 0x3c]));
    let model = len_field(7, &len_field(5, &t));
    assert!(matches!(read_model(&model), Err(OnnxError::MissingDataType)));
}

#[test]
fn unpacked_dims_are_read() {
    let mut t = varint_field(1, 0, 4);
    t.extend_from_slice(&varint_field(1, 0, 5));
    t.extend_from_slice(&varint_field(2, 0, 1));
    t.extend_from_slice(&name_field("w"));
    t.extend_from_slice(&raw_field(&[1, 2, 3, 4]));
    let model = len_field(7, &len_field(5, &t));
    let ts = read_initializers(&model).unwrap();
    assert_eq!(ts[0].dims, vec![4, 5]);
    assert_eq!(ts[0].dtype, 1);
}

#[test]
fn int32_data_field_is_packed_little_endian() {
    let mut t = packed_dims(&[2]);
    t.extend_from_slice(&varint_field(2, 0, 6));
    t.extend_from_slice(&name_field("i"));
    let mut payload = encode_varint(1);
    payload.extend_from_slice(&encode_varint(258));
    t.extend_from_slice(&len_field(5, &payload));
    let model = len_field(7, &len_field(5, &t));
    let ts = read_initializers(&model).unwrap();
    assert_eq!(ts[0].data, vec![1, 0, 0, 0, 2, 1, 0, 0]);
}

#[test]
fn error_messages_match_variants() {
    assert_eq!(OnnxError::ExceedsBuffer.message(), "length-delimited field exceeds buffer");
    assert_eq!(OnnxError::MalformedVarint.message(), "malformed varint");
    assert_eq!(
        OnnxError::NoWeights.message(),
        "no weight tensors found (no initializers or Constant nodes)"
    );
}

#[test]
fn malformed_fields_are_told_apart() {
    // A tag whose varint runs off the end.
    assert!(matches!(read_model(&[0x80]), Err(OnnxError::MalformedTag)));
    // The graph's length varint runs off the end.
    assert!(matches!(read_model(&[0x3a, 0x80]), Err(OnnxError::MalformedLength)));
    // A graph length that overflows the address space.
    let mut huge = vec![0x3a];
    huge.extend_from_slice(&encode_varint(u64::MAX));
    assert!(matches!(read_model(&huge), Err(OnnxError::LengthOverflow)));
    // A varint field whose value runs off the end.
    assert!(matches!(read_model(&[0x08, 0x80]), Err(OnnxError::MalformedField)));
    // external-data marker (field 14) whose value runs off the end.
    let model = len_field(7, &len_field(5, &[0x70, 0x80]));
    assert!(matches!(read_model(&model), Err(OnnxError::MalformedVarint)));
}

#[test]
fn packed_payload_errors() {
    // A packed dim whose varint runs off the end of the tensor.
    let mut t = varint_field(2, 0, 10);
    t.extend_from_slice(&name_field("w"));
    t.extend_from_slice(&[0x0a, 0x01, 0x80]);
    let model = len_field(7, &len_field(5, &t));
    assert!(matches!(read_model(&model), Err(OnnxError::MalformedDim)));
    // Packed int32 data with a varint that runs off the payload.
    let mut t = packed_dims(&[1]);
    t.extend_from_slice(&varint_field(2, 0, 6));
    t.extend_from_slice(&name_field("i"));
    t.extend_from_slice(&len_field(5, &[0x80]));
    let model = len_field(7, &len_field(5, &t));
    assert!(matches!(read_model(&model), Err(OnnxError::MalformedPackedInts)));
}

#[test]
fn dims_field_errors() {
    use_dims_errors();
}

fn use_dims_errors() {
    assert!(matches!(read_dims(&[0x80]), Err(OnnxError::MalformedDimsField)));
    assert!(matches!(read_dims(&[0x0a, 0x80]), Err(OnnxError::MalformedPackedDims)));
    let mut over = vec![0x0a];
    over.extend_from_slice(&encode_varint(u64::MAX));
    assert!(matches!(read_dims(&over), Err(OnnxError::PackedDimsOverflow)));
    assert!(matches!(read_dims(&[0x0a, 0x05, 0x01]), Err(OnnxError::PackedDimsExceedsBuffer)));
    assert_eq!(read_dims(&[0x0a, 0x02, 0x03, 0x04, 0x08, 0x07]).unwrap(), vec![3, 4, 7]);
}

#[test]
fn unnamed_initializers_are_skipped() {
    let mut unnamed = packed_dims(&[1]);
    unnamed.extend_from_slice(&varint_field(2, 0, 10));
    unnamed.extend_from_slice(&raw_field(&[0, 0x3c]));
    let mut named = packed_dims(&[1]);
    named.extend_from_slice(&varint_field(2, 0, 10));
    named.extend_from_slice(&name_field("b"));
    named.extend_from_slice(&raw_field(&[0, 0x3c]));
    let mut g = len_field(5, &unnamed);
    g.extend_from_slice(&len_field(5, &named));
    let ts = read_initializers(&len_field(7, &g)).unwrap();
    assert_eq!(ts.len(), 1);
    assert_eq!(ts[0].name, "b");
}

#[test]
fn varint_decodes_its_encoding_anywhere_in_a_buffer() {
    let prefix = vec![0xffu8, 0x08, 0x80];
    let rest = vec![0x85u8, 0x01, 0x00];
    for v in [0u64, 1, 127, 128, 300, 1 << 35, u64::MAX, (-2i64) as u64] {
        let enc = encode_varint(v);
        let mut b = prefix.clone();
        b.extend_from_slice(&enc);
        b.extend_from_slice(&rest);
        assert_eq!(varint(&b, prefix.len()), Some((v, prefix.len() + enc.len())));
        for j in 0..enc.len() {
            let mut cut = prefix.clone();
            cut.extend_from_slice(&enc[..j]);
            assert_eq!(varint(&cut, prefix.len()), None);
        }
    }
    assert_eq!(encode_varint(u64::MAX).len(), 10);
    assert_eq!(varint(&[0x05], 1), None);
    assert_eq!(varint(&[0xff; 11], 0), None);
}

#[test]
fn packed_and_repeated_dims_read_the_same() {
    let dims = [1i64, 3, 256, -1, 0];
    let mut tail = varint_field(2, 0, 10);
    tail.extend_from_slice(&name_field("w"));
    tail.extend_from_slice(&packed_dims(&[7]));
    let mut packed = packed_dims(&dims);
    packed.extend_from_slice(&tail);
    let mut repeated = Vec::new();
    for d in dims {
        repeated.extend_from_slice(&varint_field(1, 0, d as u64));
    }
    repeated.extend_from_slice(&tail);
    let expected = vec![1i64, 3, 256, -1, 0, 7];
    assert_eq!(read_dims(&packed), Ok(expected.clone()));
    assert_eq!(read_dims(&repeated), Ok(expected));
    assert_eq!(read_dims(&packed_dims(&[])), Ok(Vec::new()));
}
