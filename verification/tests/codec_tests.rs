use radio_conductor::codec::{deserialize, serialize, DecodeError};
use radio_conductor::color::Color;
use radio_conductor::model::{Button, Clip, Model, Tab};

fn sample_model() -> Model {
    let clip = Clip {
        name: "chime.wav".to_string(),
        path: "/sounds/chime.wav".to_string(),
        envelope: vec![0.5f32.to_bits(), 0.25f32.to_bits(), 1.0f32.to_bits(), 0],
        duration_bits: 10.0f32.to_bits(),
    };
    let full = Button {
        label: "chime.wav".to_string(),
        pos_x_bits: 1.5f32.to_bits(),
        pos_y_bits: (-2.25f32).to_bits(),
        color: Color { r: 10, g: 20, b: 30, a: 40 },
        clip: Some(clip),
    };
    let empty = Button {
        label: String::new(),
        pos_x_bits: 0,
        pos_y_bits: 0,
        color: Color { r: 100, g: 100, b: 255, a: 255 },
        clip: None,
    };
    let tab1 = Tab { name: "Tab 1".to_string(), buttons: vec![empty, full] };
    let tab2 = Tab { name: "Tschüß ⚡ tab".to_string(), buttons: vec![] };
    Model { tabs: vec![tab1, tab2], active_tab: 1 }
}

#[test]
fn roundtrip_reproduces_model() {
    let m = sample_model();
    let bytes = serialize(&m);
    let back = deserialize(&bytes).expect("encoded model must deserialize");
    assert_eq!(back, m);
}

#[test]
fn roundtrip_minimal_model() {
    let m = Model {
        tabs: vec![Tab { name: String::new(), buttons: vec![] }],
        active_tab: 0,
    };
    let bytes = serialize(&m);
    let back = deserialize(&bytes).expect("encoded model must deserialize");
    assert_eq!(back, m);
}

#[test]
fn truncated_bytes_fail() {
    let m = sample_model();
    let mut bytes = serialize(&m);
    bytes.pop();
    assert_eq!(deserialize(&bytes), Err(DecodeError));
}

#[test]
fn trailing_bytes_fail() {
    let m = sample_model();
    let mut bytes = serialize(&m);
    bytes.push(0);
    assert_eq!(deserialize(&bytes), Err(DecodeError));
}

#[test]
fn empty_bytes_fail() {
    let bytes: Vec<u8> = vec![];
    assert_eq!(deserialize(&bytes), Err(DecodeError));
}

#[test]
fn zero_tabs_fail() {
    // A well-formed model has at least one tab.
    let bytes: Vec<u8> = vec![0, 0, 0, 0, 0, 0, 0, 0];
    assert_eq!(deserialize(&bytes), Err(DecodeError));
}

#[test]
fn active_tab_out_of_range_fails() {
    // One tab with an empty name and no buttons, then active index 5.
    let mut bytes: Vec<u8> = vec![];
    bytes.extend_from_slice(&1u64.to_le_bytes());
    bytes.extend_from_slice(&0u64.to_le_bytes());
    bytes.extend_from_slice(&0u64.to_le_bytes());
    bytes.extend_from_slice(&5u64.to_le_bytes());
    assert_eq!(deserialize(&bytes), Err(DecodeError));
}

#[test]
fn invalid_utf8_fails() {
    // One tab whose 2-byte name is not valid UTF-8.
    let mut bytes: Vec<u8> = vec![];
    bytes.extend_from_slice(&1u64.to_le_bytes());
    bytes.extend_from_slice(&2u64.to_le_bytes());
    bytes.push(0xFF);
    bytes.push(0xFE);
    bytes.extend_from_slice(&0u64.to_le_bytes());
    bytes.extend_from_slice(&0u64.to_le_bytes());
    assert_eq!(deserialize(&bytes), Err(DecodeError));
}

#[test]
fn load_from_bytes_is_all_or_nothing() {
    let mut live = sample_model();
    let reference = sample_model();
    let mut bad = serialize(&reference);
    bad.truncate(bad.len() / 2);
    assert!(live.load_from_bytes(&bad).is_err());
    assert_eq!(live, reference);

    let other = Model {
        tabs: vec![Tab { name: "Tab 1".to_string(), buttons: vec![] }],
        active_tab: 0,
    };
    let good = serialize(&other);
    assert!(live.load_from_bytes(&good).is_ok());
    assert_eq!(live, other);
}

#[test]
fn scalar_layout_is_little_endian() {
    // One tab named "A", no buttons, active 0: the exact byte layout.
    let m = Model {
        tabs: vec![Tab { name: "A".to_string(), buttons: vec![] }],
        active_tab: 0,
    };
    let bytes = serialize(&m);
    let expected: Vec<u8> = vec![
        1, 0, 0, 0, 0, 0, 0, 0, // tab count
        1, 0, 0, 0, 0, 0, 0, 0, // name byte count
        b'A', // name
        0, 0, 0, 0, 0, 0, 0, 0, // button count
        0, 0, 0, 0, 0, 0, 0, 0, // active tab
    ];
    assert_eq!(bytes, expected);
}
