use larql::gguf::{
    classify_attention_tensor, normalize_gguf_key, AttentionInventoryScope, FloatBits, GgufError, GgufFile,
    GgufScalar, GgufValue, GGUF_MAGIC, GGUF_TYPE_UINT32,
};
use larql::gguf_write::{
    encode_header, format_to_ggml_type, padding_len, value_type_id, write_string, write_value,
    writer_metadata, GgufMetadataValue, GgufQuantConfig, GgufQuantFormat, TensorEntry,
    GGML_TYPE_Q4_0, GGML_TYPE_Q8_0,
};

#[test]
fn test_normalize_gguf_key() {
    assert_eq!(normalize_gguf_key("blk.0.attn_q.weight"), "layers.0.self_attn.q_proj.weight");
    assert_eq!(normalize_gguf_key("blk.0.attn_q_norm.weight"), "layers.0.self_attn.q_norm.weight");
    assert_eq!(normalize_gguf_key("blk.0.attn_k_norm.weight"), "layers.0.self_attn.k_norm.weight");
    assert_eq!(normalize_gguf_key("blk.0.attn_out.weight"), "layers.0.self_attn.o_proj.weight");
    assert_eq!(
        normalize_gguf_key("blk.0.post_attention_norm.weight"),
        "layers.0.post_attention_layernorm.weight"
    );
    assert_eq!(normalize_gguf_key("blk.15.ffn_gate.weight"), "layers.15.mlp.gate_proj.weight");
    assert_eq!(normalize_gguf_key("token_embd.weight"), "embed_tokens.weight");
    assert_eq!(normalize_gguf_key("output.weight"), "lm_head.weight");
}

#[test]
fn test_gguf_format_parsing() {
    assert_eq!("Q4_K_M".parse::<GgufQuantFormat>().unwrap(), GgufQuantFormat::Q4Km);
    assert_eq!("q4_0".parse::<GgufQuantFormat>().unwrap(), GgufQuantFormat::Q4_0);
    assert_eq!("Q8_0".parse::<GgufQuantFormat>().unwrap(), GgufQuantFormat::Q8_0);
    assert!("INVALID".parse::<GgufQuantFormat>().is_err());
}

#[test]
fn format_parsing_names_the_rejected_format() {
    assert_eq!(
        GgufQuantFormat::parse_name("q5").unwrap_err(),
        "Unsupported GGUF quant format 'q5'. Expected Q4_K_M, Q4_0, or Q8_0"
    );
    assert_eq!(GgufQuantFormat::Q4Km.name(), "Q4_K_M");
    assert_eq!(GgufQuantFormat::parse_name(GgufQuantFormat::Q8_0.name()).unwrap(), GgufQuantFormat::Q8_0);
    let config = GgufQuantConfig::default();
    assert_eq!(config.format, GgufQuantFormat::Q4Km);
    assert_eq!(config.block_size, 64);
    assert_eq!(format_to_ggml_type(GgufQuantFormat::Q4Km), GGML_TYPE_Q4_0);
    assert_eq!(format_to_ggml_type(GgufQuantFormat::Q8_0), GGML_TYPE_Q8_0);
}

#[test]
fn padding_reaches_the_next_multiple() {
    assert_eq!(padding_len(0, 32), 0);
    assert_eq!(padding_len(1, 32), 31);
    assert_eq!(padding_len(64, 32), 0);
    assert_eq!(padding_len(70, 64), 58);
}

#[test]
fn values_are_written_tag_first_little_endian() {
    let mut out = Vec::new();
    write_string(&mut out, "hé");
    assert_eq!(out, vec![3, 0, 0, 0, 0, 0, 0, 0, b'h', 0xC3, 0xA9]);
    let mut out = Vec::new();
    write_value(&mut out, &GgufMetadataValue::U32(0x01020304));
    assert_eq!(out, vec![4, 0, 0, 0, 4, 3, 2, 1]);
    let mut out = Vec::new();
    write_value(&mut out, &GgufMetadataValue::I8(-1));
    assert_eq!(out, vec![1, 0, 0, 0, 0xFF]);
    let mut out = Vec::new();
    write_value(
        &mut out,
        &GgufMetadataValue::Array(vec![GgufMetadataValue::Bool(true), GgufMetadataValue::U8(7)]),
    );
    assert_eq!(
        out,
        vec![9, 0, 0, 0, 7, 0, 0, 0, 2, 0, 0, 0, 0, 0, 0, 0, 7, 0, 0, 0, 1, 0, 0, 0, 0, 7]
    );
    assert_eq!(value_type_id(&GgufMetadataValue::F64(0)), 12);
    assert_eq!(value_type_id(&GgufMetadataValue::Array(vec![])), 9);
}

#[test]
fn written_header_reads_back() {
    let metadata = writer_metadata();
    assert_eq!(metadata.len(), 3);
    assert_eq!(metadata[0].0, "general.architecture");
    let tensors = vec![
        TensorEntry { name: "a".to_string(), n_elements: 64, data_len: 36 },
        TensorEntry { name: "blk.0.attn_q.weight".to_string(), n_elements: 32, data_len: 18 },
    ];
    let header = encode_header(&metadata, &tensors, GGML_TYPE_Q4_0);
    assert_eq!(header.len() % 32, 0);
    let file = GgufFile::parse(&header).unwrap();
    assert_eq!(file.data_offset as usize, header.len());
    assert_eq!(file.alignment(), 32);
    assert_eq!(file.metadata.len(), 3);
    match file.get("general.architecture") {
        Some(GgufValue::Scalar(GgufScalar::String(s))) => assert_eq!(s, "llama"),
        other => panic!("unexpected {:?}", other),
    }
    assert_eq!(file.get("llama.quantization_version").and_then(|v| v.as_u32()), Some(2));
    assert_eq!(file.tensor_infos.len(), 2);
    assert_eq!(file.tensor_infos[1].name, "blk.0.attn_q.weight");
    assert_eq!(file.tensor_infos[1].dims, vec![32]);
    assert_eq!(file.tensor_infos[1].offset, 36);
    assert_eq!(file.tensor_infos[1].tensor_type, GGML_TYPE_Q4_0);
}

fn header_with_alignment(alignment: u32) -> Vec<u8> {
    let mut file = Vec::new();
    file.extend_from_slice(&GGUF_MAGIC.to_le_bytes());
    file.extend_from_slice(&3u32.to_le_bytes());
    file.extend_from_slice(&0u64.to_le_bytes());
    file.extend_from_slice(&1u64.to_le_bytes());
    let key = b"general.alignment";
    file.extend_from_slice(&(key.len() as u64).to_le_bytes());
    file.extend_from_slice(key);
    file.extend_from_slice(&GGUF_TYPE_UINT32.to_le_bytes());
    file.extend_from_slice(&alignment.to_le_bytes());
    file
}

#[test]
fn parse_honors_general_alignment_metadata() {
    let bytes = header_with_alignment(64);
    let pos = bytes.len() as u64;
    let gguf = GgufFile::parse(&bytes).unwrap();
    assert_eq!(gguf.alignment(), 64);
    assert_eq!(gguf.data_offset, pos.div_ceil(64) * 64);
    let zero = GgufFile::parse(&header_with_alignment(0)).unwrap();
    assert_eq!(zero.alignment(), 32);
}

#[test]
fn repeated_metadata_keys_keep_one_entry_with_the_last_value() {
    let mut file = Vec::new();
    file.extend_from_slice(&GGUF_MAGIC.to_le_bytes());
    file.extend_from_slice(&3u32.to_le_bytes());
    file.extend_from_slice(&0u64.to_le_bytes());
    file.extend_from_slice(&3u64.to_le_bytes());
    for (key, value) in [("general.alignment", 64u32), ("other.key", 7u32), ("general.alignment", 16u32)] {
        file.extend_from_slice(&(key.len() as u64).to_le_bytes());
        file.extend_from_slice(key.as_bytes());
        file.extend_from_slice(&GGUF_TYPE_UINT32.to_le_bytes());
        file.extend_from_slice(&value.to_le_bytes());
    }
    let pos = file.len() as u64;
    let gguf = GgufFile::parse(&file).unwrap();
    assert_eq!(gguf.metadata.len(), 2);
    assert_eq!(gguf.metadata[0].0, "general.alignment");
    assert_eq!(gguf.metadata[1].0, "other.key");
    assert_eq!(gguf.metadata[0].1.as_u32(), Some(16));
    assert_eq!(gguf.alignment(), 16);
    assert_eq!(gguf.data_offset, pos.div_ceil(16) * 16);
}

#[test]
fn parse_reports_bad_magic_version_and_truncation() {
    let mut bytes = header_with_alignment(64);
    bytes[0] = b'X';
    match GgufFile::parse(&bytes) {
        Err(GgufError::Parse(m)) => assert_eq!(
            m,
            format!(
                "not a GGUF file (magic: 0x{:08X}, expected 0x{:08X})",
                u32::from_le_bytes([b'X', b'G', b'U', b'F']),
                GGUF_MAGIC
            )
        ),
        other => panic!("unexpected {:?}", other.map(|f| f.data_offset)),
    }
    let mut bytes = header_with_alignment(64);
    bytes[4] = 9;
    match GgufFile::parse(&bytes) {
        Err(GgufError::Parse(m)) => assert_eq!(m, "unsupported GGUF version: 9"),
        other => panic!("unexpected {:?}", other.map(|f| f.data_offset)),
    }
    let bytes = header_with_alignment(64);
    assert!(matches!(GgufFile::parse(&bytes[..bytes.len() - 1]), Err(GgufError::UnexpectedEof)));
    assert!(matches!(GgufFile::parse(&[]), Err(GgufError::UnexpectedEof)));
}

#[test]
fn attention_tensors_are_classified_by_scope() {
    let (scope, layer, comp, param) = classify_attention_tensor("blk.0.attn_q.weight").unwrap();
    assert_eq!((scope, layer, comp.as_str(), param.as_str()), ("decoder", Some(0), "attn_q", "weight"));
    let (scope, layer, _, _) = classify_attention_tensor("mtp.layers.3.attn_output.weight").unwrap();
    assert_eq!((scope, layer), ("mtp", Some(3)));
    let (scope, _, _, param) = classify_attention_tensor("v.blk.1.attn_k.bias").unwrap();
    assert_eq!((scope, param.as_str()), ("vision", "bias"));
    assert!(classify_attention_tensor("blk.0.ffn_gate.weight").is_none());
    assert!(AttentionInventoryScope::All.includes("vision"));
    assert!(!AttentionInventoryScope::Decoder.includes("mtp"));
    assert!(AttentionInventoryScope::DecoderMtp.includes("mtp"));
    assert_eq!(AttentionInventoryScope::DecoderMtp.as_str(), "decoder-mtp");
}

fn meta_file(entries: Vec<(&str, GgufValue)>) -> GgufFile {
    GgufFile {
        metadata: entries.into_iter().map(|(k, v)| (k.to_string(), v)).collect(),
        tensor_infos: Vec::new(),
        data_offset: 0,
    }
}

#[test]
fn config_json_reads_architecture_sizes() {
    let f = meta_file(vec![
        ("general.architecture", GgufValue::Scalar(GgufScalar::String("qwen".to_string()))),
        ("qwen.embedding_length", GgufValue::Scalar(GgufScalar::U32(2048))),
        ("qwen.block_count", GgufValue::Scalar(GgufScalar::U64(24))),
        (
            "qwen.feed_forward_length",
            GgufValue::Array(vec![GgufScalar::U32(5632), GgufScalar::U32(8192), GgufScalar::String("x".to_string())]),
        ),
        ("qwen.attention.head_count", GgufValue::Scalar(GgufScalar::I32(16))),
        ("qwen.attention.key_length", GgufValue::Scalar(GgufScalar::U32(128))),
        ("qwen.rope.freq_base", GgufValue::Scalar(GgufScalar::F32(1_000_000.0f32.to_bits()))),
    ]);
    let c = f.to_config_json();
    assert_eq!(c.model_type, "qwen2");
    assert_eq!(c.hidden_size, 2048);
    assert_eq!(c.num_hidden_layers, 24);
    assert_eq!(c.intermediate_size, 8192);
    assert_eq!(c.num_attention_heads, 16);
    assert_eq!(c.num_key_value_heads, 0);
    assert_eq!(c.head_dim, 128);
    assert_eq!(c.vocab_size, 0);
    assert_eq!(c.rope_theta, Some(FloatBits::F32(1_000_000.0f32.to_bits())));
}

#[test]
fn config_json_gemma4_head_dim() {
    let f = meta_file(vec![
        ("general.architecture", GgufValue::Scalar(GgufScalar::String("gemma4".to_string()))),
        ("gemma4.attention.head_count", GgufValue::Scalar(GgufScalar::U32(8))),
        ("gemma4.attention.key_length", GgufValue::Scalar(GgufScalar::U32(512))),
    ]);
    let c = f.to_config_json();
    assert_eq!(c.model_type, "gemma4");
    assert_eq!(c.head_dim, 256);
    assert_eq!(c.rope_theta, None);
    let none = meta_file(vec![]).to_config_json();
    assert_eq!(none.model_type, "");
    assert_eq!(none.head_dim, 0);
}

fn tensor(name: &str, ty: u32, offset: u64) -> larql::gguf::GgufTensorInfo {
    larql::gguf::GgufTensorInfo { name: name.to_string(), n_dims: 2, dims: vec![4, 8], tensor_type: ty, offset }
}

#[test]
fn attention_inventory_sorts_and_describes() {
    let file = larql::gguf::GgufFile {
        metadata: Vec::new(),
        tensor_infos: vec![
            tensor("blk.10.attn_q.weight", 0, 100),
            tensor("blk.2.attn_output.weight", 1, 200),
            tensor("blk.2.attn_k.weight", 0, 300),
            tensor("token_embd.weight", 0, 0),
            tensor("mtp.layers.0.attn_q.weight", 0, 400),
            tensor("v.blk.1.attn_q.weight", 0, 500),
        ],
        data_offset: 1024,
    };
    let sizes: Vec<Option<u64>> = vec![Some(128), Some(64), Some(128), None, Some(128), Some(128)];
    let names: Vec<String> = ["F32", "F16", "F32", "F32", "F32", "F32"].iter().map(|s| s.to_string()).collect();
    let rows = file
        .attention_inventory(larql::gguf::AttentionInventoryScope::DecoderMtp, &sizes, &names)
        .ok()
        .unwrap();
    let order: Vec<&str> = rows.iter().map(|r| r.name.as_str()).collect();
    assert_eq!(
        order,
        vec!["blk.2.attn_k.weight", "blk.2.attn_output.weight", "blk.10.attn_q.weight", "mtp.layers.0.attn_q.weight"]
    );
    let k = &rows[0];
    assert_eq!(k.scope, "decoder");
    assert_eq!(k.component, "attn_k");
    assert_eq!(k.param, "weight");
    assert_eq!(k.layer, Some(2));
    assert_eq!(k.relative_offset, 300);
    assert_eq!(k.absolute_offset, 1324);
    assert_eq!(k.byte_size, 128);
    assert_eq!(k.ggml_type, "F32");
    assert!(k.included_in_runtime_vindex);
    assert!(!rows[3].included_in_runtime_vindex);
    assert_eq!(rows[1].ggml_type, "F16");

    let mut unsized_sizes = sizes.clone();
    unsized_sizes[2] = None;
    match file.attention_inventory(larql::gguf::AttentionInventoryScope::Decoder, &unsized_sizes, &names) {
        Err(i) => assert_eq!(i, 2),
        Ok(_) => panic!("expected the unsized tensor"),
    }
}
