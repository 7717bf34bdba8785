use cosmwasm_std::{Binary, CosmosMsg, WasmMsg};
use hydration::contract::{hydrate_text, try_hydrate};
use hydration::error::ContractError;

fn b64(text: &str) -> String {
    Binary(text.as_bytes().to_vec()).to_base64()
}

fn out_string(r: Result<Vec<u8>, ContractError>) -> String {
    String::from_utf8(r.unwrap()).unwrap()
}

#[test]
fn plain_template_round_trip() {
    // No encoded field: hydration only strips spaces.
    let template = String::from("{\"x\": \"y\", \"z\": [1, 2]}");
    let out = out_string(hydrate_text(template, String::from("[]")));
    assert_eq!(out, "{\"x\":\"y\",\"z\":[1,2]}");
}

#[test]
fn plain_template_empty_bindings_no_op() {
    let template = String::from("{\"a\":\"$v\"}");
    let out = out_string(hydrate_text(template, String::from("[]")));
    assert_eq!(out, "{\"a\":\"$v\"}");
}

#[test]
fn single_level_nesting_substitutes_inner() {
    let template = format!(
        "{{\"wasm\": {{\"execute\": {{\"contract_addr\": \"$warp.var.addr\",\"msg\":\"{}\",\"funds\": []}}}}}}",
        b64("{\"a\":\"$v\"}")
    );
    let vars = String::from("[\"$warp.var.addr\": \"terra1xyz\",\"$v\": \"7\"]");
    let msg = match try_hydrate(template, vars).unwrap() {
        CosmosMsg::Wasm(WasmMsg::Execute { contract_addr, msg, funds }) => {
            assert_eq!(contract_addr, "terra1xyz");
            assert!(funds.is_empty());
            msg
        },
        other => panic!("unexpected message: {:?}", other),
    };
    assert_eq!(msg.as_slice(), "{\"a\":\"7\"}".as_bytes());
}

#[test]
fn multi_level_nesting_substitutes_both_levels() {
    let inner = "{\"b\":\"$w\"}";
    let middle = format!("{{\"amount\":\"$v\",\"msg\":\"{}\",\"z\":\"end\"}}", b64(inner));
    let template = format!(
        "{{\"wasm\":{{\"execute\":{{\"contract_addr\":\"$a\",\"msg\":\"{}\",\"funds\":[]}}}}}}",
        b64(&middle)
    );
    let vars = String::from("[\"$a\": \"terra1abc\",\"$v\": \"55\",\"$w\": \"88\"]");
    let msg = match try_hydrate(template, vars).unwrap() {
        CosmosMsg::Wasm(WasmMsg::Execute { contract_addr, msg, .. }) => {
            assert_eq!(contract_addr, "terra1abc");
            msg
        },
        other => panic!("unexpected message: {:?}", other),
    };
    let middle_out = String::from_utf8(msg.as_slice().to_vec()).unwrap();
    assert!(middle_out.starts_with("{\"amount\":\"55\",\"msg\":\""));
    assert!(middle_out.ends_with("\",\"z\":\"end\"}"));
    let b64_part = middle_out
        .strip_prefix("{\"amount\":\"55\",\"msg\":\"")
        .unwrap()
        .strip_suffix("\",\"z\":\"end\"}")
        .unwrap();
    let inner_out = Binary::from_base64(b64_part).unwrap();
    assert_eq!(inner_out.as_slice(), "{\"b\":\"88\"}".as_bytes());
}

#[test]
fn unknown_variable_is_no_op() {
    let template = "{\"a\":\"$v\"}";
    let with_unused = hydrate_text(
        String::from(template),
        String::from("[\"$nowhere\": \"zzz\",\"$v\": \"7\"]"),
    );
    let without_unused = hydrate_text(String::from(template), String::from("[\"$v\": \"7\"]"));
    assert_eq!(with_unused.unwrap(), without_unused.unwrap());
}

#[test]
fn substitution_composes_left_to_right() {
    // An earlier pair's value is rewritten by a later pair...
    let out = out_string(hydrate_text(
        String::from("{\"x\":\"$a\"}"),
        String::from("[\"$a\": \"$b\",\"$b\": \"7\"]"),
    ));
    assert_eq!(out, "{\"x\":\"7\"}");
    // ...but a later pair's value is left as literal text: one sweep only.
    let out = out_string(hydrate_text(
        String::from("{\"x\":\"$a\"}"),
        String::from("[\"$b\": \"7\",\"$a\": \"$b\"]"),
    ));
    assert_eq!(out, "{\"x\":\"$b\"}");
}

#[test]
fn every_occurrence_of_a_name_is_replaced() {
    let out = out_string(hydrate_text(
        String::from("{\"a\":\"$v\",\"b\":\"$v\",\"c\":\"$w\"}"),
        String::from("[\"$v\": \"1\",\"$w\": \"2\"]"),
    ));
    assert_eq!(out, "{\"a\":\"1\",\"b\":\"1\",\"c\":\"2\"}");
}

#[test]
fn malformed_bindings_fall_back_to_empty_table() {
    let template = "{\"a\":\"$v\"}";
    let out = out_string(hydrate_text(
        String::from(template),
        String::from("[\"$v\" \"7\""),
    ));
    assert_eq!(out, template);
}

#[test]
fn odd_length_bindings_fall_back_to_empty_table() {
    let template = "{\"a\":\"$v\"}";
    let out = out_string(hydrate_text(String::from(template), String::from("[\"$v\"]")));
    assert_eq!(out, template);
}

#[test]
fn unterminated_field_is_fatal() {
    let r = hydrate_text(String::from("{\"msg\":\"abc\"}"), String::from("[]"));
    match r {
        Err(ContractError::CustomError { val }) => assert_eq!(val, "unable to deserialize"),
        other => panic!("expected the unterminated-field error, got {:?}", other),
    }
}

#[test]
fn unquoted_payload_is_fatal() {
    let r = hydrate_text(String::from("{\"msg\":abc,\"t\":1}"), String::from("[]"));
    match r {
        Err(ContractError::CustomError { val }) => assert_eq!(val, "DeserializationError"),
        other => panic!("expected a deserialization error, got {:?}", other),
    }
}

#[test]
fn invalid_base64_payload_is_fatal() {
    let r = hydrate_text(String::from("{\"msg\":\"!!!\",\"t\":1}"), String::from("[]"));
    match r {
        Err(ContractError::CustomError { val }) => assert_eq!(val, "DeserializationError"),
        other => panic!("expected a deserialization error, got {:?}", other),
    }
}

#[test]
fn final_text_must_parse_as_dispatch_message() {
    // hydrate_text succeeds on this template, but it is no dispatch message.
    let template = String::from("{\"a\":\"b\"}");
    assert!(hydrate_text(template.clone(), String::from("[]")).is_ok());
    match try_hydrate(template, String::from("[]")) {
        Err(ContractError::CustomError { val }) => assert_eq!(val, "DeserializationError"),
        other => panic!("expected a deserialization error, got {:?}", other),
    }
}

#[test]
fn bindings_blob_tolerates_spaces_and_trailing_comma() {
    let out = out_string(hydrate_text(
        String::from("{\"a\":\"$v\"}"),
        String::from("[\"$v\": \"7\",]"),
    ));
    assert_eq!(out, "{\"a\":\"7\"}");
}

#[test]
fn base64_round_trip_through_engine() {
    // If re-encoding handed its argument back unchanged instead of base64,
    // this decode would not return the substituted inner text.
    let template = format!("{{\"k\":\"v\",\"msg\":\"{}\",\"funds\":[]}}", b64("{\"c\":\"$v\"}"));
    let out = out_string(hydrate_text(template, String::from("[\"$v\": \"9\"]")));
    assert!(out.starts_with("{\"k\":\"v\",\"msg\":\""));
    let b64_part = out
        .strip_prefix("{\"k\":\"v\",\"msg\":\"")
        .unwrap()
        .strip_suffix("\",\"funds\":[]}")
        .unwrap();
    assert_eq!(
        Binary::from_base64(b64_part).unwrap().as_slice(),
        "{\"c\":\"9\"}".as_bytes()
    );
}
