use function_host::FunctionTrigger;
use function_host::Metadata;
use function_host::Method;
use function_host::codec::FramingError;
use function_host::metadata::MetadataError;
use function_host::metadata::Section;
use function_host::metadata::metadata_from_sections;
use function_host::encode::encode_functions;
use function_host::encode::encode_functions_payload;
use function_host::encode::encode_vars;

fn frame(payload: &[u8]) -> Vec<u8> {
    let len = payload.len() as u32;
    let mut out = len.to_le_bytes().to_vec();
    out.extend_from_slice(payload);
    out
}

fn functions_section(payloads: &[&str]) -> Section {
    let mut data = Vec::new();
    for p in payloads {
        data.extend_from_slice(&frame(p.as_bytes()));
    }
    Section {
        name: "__functions".to_string(),
        data,
    }
}

fn vars_section(payloads: &[&str]) -> Section {
    let mut data = Vec::new();
    for p in payloads {
        data.extend_from_slice(&frame(p.as_bytes()));
    }
    Section {
        name: "__vars".to_string(),
        data,
    }
}

const HELLO: &str = "[{\"name\":\"hello\",\"trigger\":{\"type\":\"http\",\"path\":\"/hello/:name\",\"methods\":[\"GET\"]},\"inputs\":[],\"outputs\":[{\"type\":\"http\"}]}]";

fn push_leb(mut n: usize, out: &mut Vec<u8>) {
    loop {
        let byte = (n & 0x7f) as u8;
        n >>= 7;
        if n > 0 {
            out.push(byte | 0x80);
        } else {
            out.push(byte);
            break;
        }
    }
}

/// A minimal module: magic, version, and the given custom sections.
fn module_bytes(sections: &[Section]) -> Vec<u8> {
    let mut out = b"\0asm".to_vec();
    out.extend_from_slice(&1u32.to_le_bytes());
    for s in sections {
        let name = s.name.as_bytes();
        let mut body = Vec::new();
        push_leb(name.len(), &mut body);
        body.extend_from_slice(name);
        body.extend_from_slice(&s.data);
        out.push(0); // custom section id
        push_leb(body.len(), &mut out);
        out.extend_from_slice(&body);
    }
    out
}

#[test]
fn single_function_decodes() {
    let m = metadata_from_sections(&vec![functions_section(&[HELLO])]).unwrap();
    assert_eq!(m.functions.len(), 1);
    assert_eq!(m.functions[0].name, "hello");
    let FunctionTrigger::Http { ref path, ref methods } = m.functions[0].trigger;
    assert_eq!(path, "/hello/:name");
    assert_eq!(methods, &vec![Method::Get]);
    assert!(m.functions[0].inputs.is_empty());
    assert_eq!(m.functions[0].outputs.len(), 1);
    assert!(m.vars.is_empty());
}

#[test]
fn functions_accumulate_across_records_and_sections() {
    let a = "[{\"name\":\"a\",\"trigger\":{\"type\":\"http\",\"path\":\"/a\",\"methods\":[]},\"inputs\":[],\"outputs\":[]}]";
    let b = "[{\"name\":\"b\",\"trigger\":{\"type\":\"http\",\"path\":\"/b\",\"methods\":[]},\"inputs\":[],\"outputs\":[]}]";
    let m = metadata_from_sections(&vec![
        functions_section(&[a]),
        functions_section(&[b]),
    ])
    .unwrap();
    assert_eq!(m.functions.len(), 2);
    assert_eq!(m.functions[0].name, "a");
    assert_eq!(m.functions[1].name, "b");
}

#[test]
fn duplicate_function_name_is_refused_naming_it() {
    let m = metadata_from_sections(&vec![functions_section(&[HELLO, HELLO])]);
    match m {
        Err(MetadataError::DuplicateFunction(n)) => assert_eq!(n, "hello"),
        other => panic!("expected a duplicate-function error, got {:?}", other),
    }
}

#[test]
fn duplicate_variable_name_is_refused_naming_it() {
    let m = metadata_from_sections(&vec![vars_section(&["[\"KEY\",\"KEY\"]"])]);
    match m {
        Err(MetadataError::DuplicateVariable(n)) => assert_eq!(n, "KEY"),
        other => panic!("expected a duplicate-variable error, got {:?}", other),
    }
}

#[test]
fn vars_decode_in_order() {
    let m = metadata_from_sections(&vec![vars_section(&["[\"A\",\"B\"]", "[\"C\"]"])]).unwrap();
    assert_eq!(m.vars, vec!["A", "B", "C"]);
}

#[test]
fn unrelated_sections_are_ignored() {
    let other = Section {
        name: "name".to_string(),
        data: vec![1, 2, 3],
    };
    let m = metadata_from_sections(&vec![other]).unwrap();
    assert!(m.functions.is_empty());
    assert!(m.vars.is_empty());
}

#[test]
fn empty_metadata_is_not_the_extractors_error() {
    let m = metadata_from_sections(&vec![]).unwrap();
    assert!(m.functions.is_empty());
}

#[test]
fn truncated_record_is_a_framing_error() {
    // Declares 100 bytes but only 10 follow.
    let mut data = 100u32.to_le_bytes().to_vec();
    data.extend_from_slice(&[b'x'; 10]);
    let s = Section {
        name: "__functions".to_string(),
        data,
    };
    match metadata_from_sections(&vec![s]) {
        Err(MetadataError::Framing(FramingError::LengthOverflow)) => {}
        other => panic!("expected a framing error, got {:?}", other),
    }
}

#[test]
fn unknown_trigger_tag_fails_closed() {
    let bad = "[{\"name\":\"f\",\"trigger\":{\"type\":\"timer\",\"path\":\"/x\",\"methods\":[]},\"inputs\":[],\"outputs\":[]}]";
    match metadata_from_sections(&vec![functions_section(&[bad])]) {
        Err(MetadataError::InvalidDescriptor) => {}
        other => panic!("expected a descriptor error, got {:?}", other),
    }
}

#[test]
fn unknown_method_name_fails_closed() {
    let bad = "[{\"name\":\"f\",\"trigger\":{\"type\":\"http\",\"path\":\"/x\",\"methods\":[\"YEET\"]},\"inputs\":[],\"outputs\":[]}]";
    assert!(metadata_from_sections(&vec![functions_section(&[bad])]).is_err());
}

#[test]
fn trigger_fields_may_come_in_any_order() {
    let reordered = "[{\"outputs\":[],\"inputs\":[],\"trigger\":{\"methods\":[\"POST\",\"PUT\"],\"path\":\"/x\",\"type\":\"http\"},\"name\":\"f\"}]";
    let m = metadata_from_sections(&vec![functions_section(&[reordered])]).unwrap();
    let FunctionTrigger::Http { ref path, ref methods } = m.functions[0].trigger;
    assert_eq!(path, "/x");
    assert_eq!(methods, &vec![Method::Post, Method::Put]);
}

#[test]
fn whitespace_and_escapes_decode() {
    let spaced =
        " [ { \"name\" : \"h\\u0065llo\\n\" , \"trigger\" : { \"type\" : \"http\" , \"path\" : \"/a b\" , \"methods\" : [ ] } , \"inputs\" : [ ] , \"outputs\" : [ ] } ] ";
    let m = metadata_from_sections(&vec![functions_section(&[spaced])]).unwrap();
    assert_eq!(m.functions[0].name, "hello\n");
}

#[test]
fn descriptor_records_agree_with_a_json_parser_on_validity() {
    // What the descriptor grammar accepts is JSON; what it refuses as
    // text (not as schema) is refused by a JSON parser too.
    let good = HELLO;
    assert!(serde_json::from_slice::<serde_json::Value>(good.as_bytes()).is_ok());
    let unterminated = "[{\"name\":\"x\"";
    assert!(serde_json::from_slice::<serde_json::Value>(unterminated.as_bytes()).is_err());
    assert!(metadata_from_sections(&vec![functions_section(&[unterminated])]).is_err());
}

#[test]
fn from_module_bytes_reads_a_real_module() {
    let bytes = module_bytes(&[functions_section(&[HELLO]), vars_section(&["[\"KEY\"]"])]);
    let m = Metadata::from_module_bytes(&bytes).unwrap();
    assert_eq!(m.functions.len(), 1);
    assert_eq!(m.functions[0].name, "hello");
    assert_eq!(m.vars, vec!["KEY"]);
}

#[test]
fn from_module_bytes_rejects_garbage() {
    assert!(matches!(
        Metadata::from_module_bytes(b"not a module"),
        Err(MetadataError::InvalidModule)
    ));
}

#[test]
fn from_module_bytes_surfaces_a_truncated_record() {
    let mut data = 100u32.to_le_bytes().to_vec();
    data.extend_from_slice(&[b'x'; 10]);
    let s = Section {
        name: "__functions".to_string(),
        data,
    };
    let bytes = module_bytes(&[s]);
    match Metadata::from_module_bytes(&bytes) {
        Err(MetadataError::Framing(FramingError::LengthOverflow)) => {}
        other => panic!("expected a framing error, got {:?}", other),
    }
}

#[test]
fn canonical_encoding_decodes_back_to_the_same_descriptors() {
    let m = metadata_from_sections(&vec![functions_section(&[HELLO])]).unwrap();
    let record = encode_functions(&m.functions).unwrap();
    let rt = metadata_from_sections(&vec![Section {
        name: "__functions".to_string(),
        data: record,
    }])
    .unwrap();
    assert_eq!(rt.functions.len(), 1);
    assert_eq!(rt.functions[0].name, "hello");
    let FunctionTrigger::Http { ref path, ref methods } = rt.functions[0].trigger;
    assert_eq!(path, "/hello/:name");
    assert_eq!(methods, &vec![Method::Get]);

    let vars = vec!["A".to_string(), "quo\"te\n".to_string()];
    let record = encode_vars(&vars).unwrap();
    let rt = metadata_from_sections(&vec![Section {
        name: "__vars".to_string(),
        data: record,
    }])
    .unwrap();
    assert_eq!(rt.vars, vars);
}

#[test]
fn canonical_encoding_matches_the_reference_byte_form() {
    let m = metadata_from_sections(&vec![functions_section(&[HELLO])]).unwrap();
    let payload = encode_functions_payload(&m.functions);
    assert_eq!(payload, HELLO.as_bytes().to_vec());
    // And an independent JSON parser agrees the bytes are one array.
    let v: serde_json::Value = serde_json::from_slice(&payload).unwrap();
    assert!(v.is_array());
}
