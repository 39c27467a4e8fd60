use std::sync::Arc;
use sui_replay::error::LocalExecError;
use sui_replay::event::{
    extract_epoch_and_version, find_epoch_start, is_searchable, SuiEvent,
};
use sui_replay::struct_tag::{expect_struct, parse_struct_tag, TypeTag};
use sui_replay::text::number_in;
use sui_replay::types::{StructTag, TransactionDigest};

fn tx(n: u128) -> TransactionDigest {
    TransactionDigest { hi: 0, lo: n }
}

fn event(n: u128, members: Vec<(&str, serde_json::Value)>) -> SuiEvent {
    let mut object = serde_json::Map::new();
    for (key, value) in members {
        object.insert(key.to_string(), value);
    }
    SuiEvent { tx_digest: tx(n), parsed_json: Arc::new(serde_json::Value::Object(object)) }
}

fn start(n: u128, epoch: u64, version: u64) -> SuiEvent {
    event(
        n,
        vec![
            ("epoch", serde_json::Value::from(epoch.to_string())),
            ("protocol_version", serde_json::Value::from(version)),
        ],
    )
}

fn shapeless(n: u128) -> SuiEvent {
    SuiEvent { tx_digest: tx(n), parsed_json: Arc::new(serde_json::Value::Null) }
}

#[test]
fn numbers_are_read_with_and_without_quotes() {
    assert_eq!(number_in("742"), Some(742));
    assert_eq!(number_in("\"742\""), Some(742));
    assert_eq!(number_in("7\"4\"2"), Some(742));
    assert_eq!(number_in("+5"), Some(5));
    assert_eq!(number_in("007"), Some(7));
    assert_eq!(number_in("18446744073709551615"), Some(u64::MAX));
}

#[test]
fn other_texts_are_no_numbers() {
    for text in ["", "\"\"", "+", "-1", "1.0", " 1", "1e3", "18446744073709551616", "++1", "0x1"] {
        assert_eq!(number_in(text), None, "{}", text);
        assert_eq!(text.replace('"', "").parse::<u64>().ok(), None, "{}", text);
    }
}

#[test]
fn an_event_names_its_epoch_and_version() {
    assert_eq!(extract_epoch_and_version(start(1, 742, 2)), Ok((742, 2)));
    let numbers = event(
        1,
        vec![
            ("epoch", serde_json::Value::from(3)),
            ("protocol_version", serde_json::Value::from("4")),
        ],
    );
    assert_eq!(extract_epoch_and_version(numbers), Ok((3, 4)));
}

#[test]
fn an_event_that_is_no_object_has_an_unexpected_format() {
    assert_eq!(
        extract_epoch_and_version(shapeless(1)),
        Err(LocalExecError::UnexpectedEventFormat { event: shapeless(1) })
    );
}

#[test]
fn events_are_readable_if_both_members_are_numbers() {
    assert!(start(1, 2, 3).is_readable());
    assert!(shapeless(1).is_readable());
    assert!(!event(1, vec![("epoch", serde_json::Value::from(3))]).is_readable());
    let bad = event(
        1,
        vec![
            ("epoch", serde_json::Value::from("x")),
            ("protocol_version", serde_json::Value::from(1)),
        ],
    );
    assert!(!bad.is_readable());
    assert_eq!(bad.number_of("protocol_version"), Some(1));
    assert_eq!(bad.number_of("epoch"), None);
    assert_eq!(bad.number_of("nothing"), None);
}

#[test]
fn the_first_event_of_an_epoch_is_found() {
    let events = vec![shapeless(1), start(2, 5, 1), start(3, 6, 1), start(4, 6, 2)];
    assert!(is_searchable(&events, 6));
    assert_eq!(find_epoch_start(&events, 6), Some(2));
    assert_eq!(find_epoch_start(&events, 5), Some(1));
    assert_eq!(find_epoch_start(&events, 7), None);
}

#[test]
fn an_unreadable_event_matters_only_before_the_one_searched_for() {
    let unreadable = event(9, vec![("epoch", serde_json::Value::from(9))]);
    let events = vec![start(1, 5, 1), unreadable, start(3, 6, 1)];
    assert!(is_searchable(&events, 5));
    assert_eq!(find_epoch_start(&events, 5), Some(0));
    assert!(!is_searchable(&events, 6));
}

#[test]
fn a_struct_type_is_parsed() {
    assert_eq!(
        parse_struct_tag("0x3::sui_system_state_inner::SystemEpochInfoEvent"),
        Ok(StructTag {
            address: (0, 3),
            module: "sui_system_state_inner".to_string(),
            name: "SystemEpochInfoEvent".to_string(),
            type_params: vec![],
        })
    );
    let coin = parse_struct_tag("0x2::coin::Coin<u64>").unwrap();
    assert_eq!(coin.name, "Coin");
    assert_eq!(coin.type_params.len(), 1);
}

#[test]
fn other_texts_are_no_struct_types() {
    for text in ["u64", "", "0x2::coin", "vector<u8>", "::"] {
        assert!(
            matches!(parse_struct_tag(text), Err(LocalExecError::InvalidStructTag { .. })),
            "{}",
            text
        );
    }
}

#[test]
fn only_a_struct_type_is_taken() {
    assert_eq!(
        expect_struct(Ok(TypeTag::Other("u64".to_string()))),
        Err(LocalExecError::InvalidStructTag { err: "u64".to_string() })
    );
    assert_eq!(
        expect_struct(Err("no type".to_string())),
        Err(LocalExecError::InvalidStructTag { err: "no type".to_string() })
    );
}

#[test]
fn struct_types_are_compared_by_all_their_parts() {
    let tag = |address: u128, module: &str, name: &str, params: Vec<&str>| StructTag {
        address: (0, address),
        module: module.to_string(),
        name: name.to_string(),
        type_params: params.iter().map(|p| p.to_string()).collect(),
    };
    let coin = tag(2, "coin", "Coin", vec!["u8"]);
    assert!(coin.same_as(&tag(2, "coin", "Coin", vec!["u8"])));
    assert!(!coin.same_as(&tag(3, "coin", "Coin", vec!["u8"])));
    assert!(!coin.same_as(&tag(2, "coins", "Coin", vec!["u8"])));
    assert!(!coin.same_as(&tag(2, "coin", "Coins", vec!["u8"])));
    assert!(!coin.same_as(&tag(2, "coin", "Coin", vec!["u16"])));
    assert!(!coin.same_as(&tag(2, "coin", "Coin", vec![])));
}
