use larql::safetensors::{header_range, Dtype, SafeTensorsFile, TensorInfo};

fn usizes(v: &serde_json::Value) -> Result<Vec<usize>, String> {
    v.as_array()
        .ok_or("expected a sequence")?
        .iter()
        .map(|x| x.as_u64().map(|n| n as usize).ok_or_else(|| "expected usize".to_string()))
        .collect()
}

fn parse_header(bytes: &[u8]) -> Result<Vec<(String, TensorInfo)>, String> {
    let v: serde_json::Value = serde_json::from_slice(bytes).map_err(|e| e.to_string())?;
    let obj = v.as_object().ok_or("expected a map")?;
    let mut out = Vec::new();
    for (name, info) in obj {
        let dtype = info.get("dtype").and_then(|d| d.as_str()).ok_or("missing field `dtype`")?;
        let shape = usizes(info.get("shape").ok_or("missing field `shape`")?)?;
        let offsets = usizes(info.get("data_offsets").ok_or("missing field `data_offsets`")?)?;
        out.push((name.clone(), TensorInfo { dtype: dtype.to_string(), shape, data_offsets: offsets }));
    }
    Ok(out)
}

fn deserialize(bytes: &[u8]) -> Result<SafeTensorsFile<'_>, String> {
    let parsed = match header_range(bytes) {
        Ok((start, end)) => parse_header(&bytes[start..end]),
        Err(e) => Err(e),
    };
    SafeTensorsFile::deserialize(bytes, parsed)
}

fn file_with(header_json: &str, data: &[u8]) -> Vec<u8> {
    let mut bytes = Vec::new();
    bytes.extend_from_slice(&(header_json.len() as u64).to_le_bytes());
    bytes.extend_from_slice(header_json.as_bytes());
    bytes.extend_from_slice(data);
    bytes
}

#[test]
fn test_dtype_from_str() {
    assert_eq!(Dtype::from_str("F32"), Some(Dtype::F32));
    assert_eq!(Dtype::from_str("F16"), Some(Dtype::F16));
    assert_eq!(Dtype::from_str("BF16"), Some(Dtype::BF16));
    assert_eq!(Dtype::from_str("U8"), Some(Dtype::U8));
    assert_eq!(Dtype::from_str("I32"), Some(Dtype::I32));
    assert_eq!(Dtype::from_str("I64"), Some(Dtype::I64));
    assert_eq!(Dtype::from_str("F64"), Some(Dtype::F64));
    assert_eq!(Dtype::from_str("UNKNOWN"), None);
}

#[test]
fn test_dtype_size_bytes() {
    assert_eq!(Dtype::F32.size_bytes(), 4);
    assert_eq!(Dtype::F16.size_bytes(), 2);
    assert_eq!(Dtype::BF16.size_bytes(), 2);
    assert_eq!(Dtype::U8.size_bytes(), 1);
    assert_eq!(Dtype::I32.size_bytes(), 4);
    assert_eq!(Dtype::I64.size_bytes(), 8);
    assert_eq!(Dtype::F64.size_bytes(), 8);
}

#[test]
fn test_deserialize_minimal() {
    let header_json = r#"{"tensor1": {"dtype": "F32", "shape": [2, 3], "data_offsets": [0, 24]}}"#;
    let bytes = file_with(header_json, &[0u8; 24]);

    let st = deserialize(&bytes).unwrap();
    assert_eq!(st.names(), vec!["tensor1"]);

    let tensor = st.tensor("tensor1").unwrap();
    assert_eq!(tensor.dtype(), Dtype::F32);
    assert_eq!(tensor.shape(), &[2, 3]);
    assert_eq!(tensor.data().len(), 24);
    assert_eq!(tensor.num_elements(), 6);
    assert_eq!(tensor.byte_len(), 24);
}

#[test]
fn test_deserialize_too_small() {
    let bytes = [0u8; 4];
    assert!(deserialize(&bytes).is_err());
    match deserialize(&bytes) {
        Err(m) => assert_eq!(m, "File too small for header length"),
        Ok(_) => panic!("a four-byte file has no header length"),
    }
}

#[test]
fn deserialize_reports_truncated_header_and_bad_json() {
    let mut bytes = file_with("{}", &[]);
    bytes[0] = 200;
    match deserialize(&bytes) {
        Err(m) => assert_eq!(m, "File truncated: header extends beyond file"),
        Ok(_) => panic!("header runs past the end"),
    }
    let bad = file_with("{nope", &[]);
    match deserialize(&bad) {
        Err(m) => assert!(m.starts_with("Failed to parse header JSON: "), "{m}"),
        Ok(_) => panic!("not JSON"),
    }
    assert_eq!(header_range(&file_with("{}", &[1, 2])).unwrap(), (8, 10));
}

#[test]
fn tensor_lookup_refuses_unknown_types_short_offsets_and_ranges_outside_the_file() {
    let header_json = r#"{"a": {"dtype": "F16", "shape": [2], "data_offsets": [0, 4]},
        "b": {"dtype": "Q4", "shape": [2], "data_offsets": [0, 4]},
        "c": {"dtype": "U8", "shape": [], "data_offsets": [0]},
        "d": {"dtype": "U8", "shape": [9], "data_offsets": [0, 9]},
        "e": {"dtype": "U8", "shape": [0], "data_offsets": [4, 4]}}"#;
    let bytes = file_with(header_json, &[1, 2, 3, 4]);
    let st = deserialize(&bytes).unwrap();
    let a = st.tensor("a").unwrap();
    assert_eq!(a.data(), &[1, 2, 3, 4]);
    assert_eq!(a.byte_len(), 4);
    assert!(st.tensor("b").is_none());
    assert!(st.tensor("c").is_none());
    assert!(st.tensor("d").is_none());
    assert!(st.tensor("e").is_none());
    assert!(st.tensor("zzz").is_none());
    let all = st.tensors();
    assert_eq!(all.len(), 1);
    assert_eq!(all[0].0, "a");
}

#[test]
fn scalar_tensor_has_one_element() {
    let header_json = r#"{"s": {"dtype": "I64", "shape": [], "data_offsets": [0, 8]}}"#;
    let bytes = file_with(header_json, &[0u8; 8]);
    let st = deserialize(&bytes).unwrap();
    let s = st.tensor("s").unwrap();
    assert_eq!(s.num_elements(), 1);
    assert_eq!(s.byte_len(), 8);
}

#[test]
fn tensor_lookup_ignores_a_bad_entry_of_another_name() {
    let header_json = r#"{"good": {"dtype": "U8", "shape": [2], "data_offsets": [0, 2]},
        "bad": {"dtype": "U8", "shape": [1], "data_offsets": [3, 1]}}"#;
    let bytes = file_with(header_json, &[5, 6, 7, 8]);
    let st = deserialize(&bytes).unwrap();
    assert!(st.tensor_cuttable("good"));
    assert!(st.tensor_cuttable("missing"));
    assert!(!st.tensor_cuttable("bad"));
    assert_eq!(st.tensor("good").unwrap().data(), &[5, 6]);
    assert!(st.tensor("missing").is_none());
}
