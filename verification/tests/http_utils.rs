use std::collections::HashMap;

use rust_remover::http_utils::{capitalize, encode_pairs, get_md5, params_to_www_form_url_encoded, string_at_index};

fn check_pairs_encoding() {
    // Empty Test
    let v = HashMap::new();
    assert_eq!(params_to_www_form_url_encoded(&v), "");
    // Create DummyArray
    let v: HashMap<&str, &str> = [("param", "data"), ("qubit_dfu", "meta")].iter().cloned().collect();

    // Create & split testing vectors
    let lf = params_to_www_form_url_encoded(&v);
    let rf = String::from("param=data&qubit_dfu=meta");
    let left: Vec<&str> = lf.split('&').collect();
    let right: Vec<&str> = rf.split('&').collect();

    // Compare Vectors
    for t in right {
        if !left.contains(&t) {
            assert!(false, "{}", format!("Missing {}", t))
        }
    }
}

#[test]
fn string_at_index_test() {
    let xvc = vec![String::from("A"), String::from("B"), String::from("C"), String::from("D")];
    assert_eq!(string_at_index(&xvc, 0), Some(String::from("A")));
    assert_eq!(string_at_index(&xvc, 2), Some(String::from("C")));
    assert_eq!(string_at_index(&xvc, 3), Some(String::from("D")));
    assert_eq!(string_at_index(&xvc, 4), None);
}

#[test]
fn lib_params_to_www_form_url_encoded_test() {
    check_pairs_encoding();
}

#[test]
fn cleverbot_params_to_www_form_url_encoded_test() {
    check_pairs_encoding();
}

#[test]
fn http_utils_params_to_www_form_url_encoded_test() {
    check_pairs_encoding();
}

#[test]
fn get_md5_test() {
    assert_eq!(get_md5("Hello"), String::from("8b1a9953c4611296a827abf8c47804d7"));
    assert_eq!(get_md5("Meta Charset UTF8"), String::from("6b1b7bab02ef1a5e6370d3950a0f296f"))
}

#[test]
fn md5_of_empty_text() {
    let h = get_md5("");
    assert_eq!(h, "d41d8cd98f00b204e9800998ecf8427e");
    assert_eq!(h.len(), 32);
}

#[test]
fn string_at_index_on_empty_list() {
    let empty: Vec<String> = Vec::new();
    assert_eq!(string_at_index(&empty, 0), None);
}

#[test]
fn capitalize_upper_cases_first_character_only() {
    assert_eq!(capitalize("hello world"), "Hello world");
    assert_eq!(capitalize("Hello"), "Hello");
    assert_eq!(capitalize("1abc"), "1abc");
    assert_eq!(capitalize(""), "");
    assert_eq!(capitalize("élan"), "Élan");
    assert_eq!(capitalize("ßa"), "SSa");
}

#[test]
fn form_encoding_escapes_reserved_bytes() {
    let mut v: HashMap<&str, &str> = HashMap::new();
    v.insert("a b", "c&d=e");
    assert_eq!(params_to_www_form_url_encoded(&v), "a+b=c%26d%3De");
    let mut w: HashMap<&str, &str> = HashMap::new();
    w.insert("ü", "*-._~");
    assert_eq!(params_to_www_form_url_encoded(&w), "%C3%BC=*-._%7E");
}

#[test]
fn form_encoding_lists_every_pair_once() {
    let v: HashMap<&str, &str> = [("a", "1"), ("b", "2"), ("c", "3")].iter().cloned().collect();
    let out = params_to_www_form_url_encoded(&v);
    let mut parts: Vec<&str> = out.split('&').collect();
    parts.sort();
    assert_eq!(parts, vec!["a=1", "b=2", "c=3"]);
}

#[test]
fn encode_pairs_keeps_the_given_order() {
    assert_eq!(encode_pairs(&[]), "");
    assert_eq!(encode_pairs(&[("", "")]), "=");
    assert_eq!(
        encode_pairs(&[("qubit_dfu", "meta"), ("param", "data"), ("a b", "x&y=z")]),
        "qubit_dfu=meta&param=data&a+b=x%26y%3Dz"
    );
    assert_eq!(encode_pairs(&[("saison", "Été+hiver")]), "saison=%C3%89t%C3%A9%2Bhiver");
}
