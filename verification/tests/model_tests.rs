use radio_conductor::engine::Engine;
use radio_conductor::envelope::envelope;
use radio_conductor::model::{Model, SlotRequest};

#[test]
fn new_model_has_one_empty_tab() {
    let m = Model::new();
    assert_eq!(m.tabs.len(), 1);
    assert_eq!(m.tabs[0].name, "Tab 1");
    assert!(m.tabs[0].buttons.is_empty());
    assert_eq!(m.active_tab, 0);
}

#[test]
fn place_clip_grows_row_with_empty_slots() {
    let mut m = Model::new();
    m.place_clip(
        3,
        "clip.wav".to_string(),
        "/a/clip.wav".to_string(),
        vec![1, 2, 3],
        5.0f32.to_bits(),
    );
    let buttons = &m.tabs[0].buttons;
    assert_eq!(buttons.len(), 4);
    for b in &buttons[..3] {
        assert!(b.label.is_empty());
        assert!(b.clip.is_none());
    }
    let b = &buttons[3];
    assert_eq!(b.label, "clip.wav");
    let c = b.clip.as_ref().unwrap();
    assert_eq!(c.name, "clip.wav");
    assert_eq!(c.path, "/a/clip.wav");
    assert_eq!(c.envelope, vec![1, 2, 3]);
    assert_eq!(f32::from_bits(c.duration_bits), 5.0);
}

#[test]
fn place_clip_overwrites_existing_slot() {
    let mut m = Model::new();
    m.place_clip(0, "one".to_string(), "/one".to_string(), vec![7], 0);
    m.place_clip(0, "two".to_string(), "/two".to_string(), vec![9], 0);
    assert_eq!(m.tabs[0].buttons.len(), 1);
    assert_eq!(m.tabs[0].buttons[0].label, "two");
    assert_eq!(m.tabs[0].buttons[0].clip.as_ref().unwrap().envelope, vec![9]);
}

#[test]
fn replace_clip_keeps_color_and_position() {
    let mut m = Model::new();
    m.place_clip(0, "one".to_string(), "/one".to_string(), vec![7], 0);
    m.tabs[0].buttons[0].color.r = 9;
    m.tabs[0].buttons[0].pos_x_bits = 1.0f32.to_bits();
    let before = m.tabs[0].buttons[0].clone();
    let ok = m.replace_clip(0, "two".to_string(), "/two".to_string(), vec![8], 1);
    assert!(ok);
    let b = &m.tabs[0].buttons[0];
    assert_eq!(b.label, "two");
    assert_eq!(b.color, before.color);
    assert_eq!(b.pos_x_bits, before.pos_x_bits);
    assert_eq!(b.clip.as_ref().unwrap().path, "/two");
}

#[test]
fn replace_clip_out_of_range_changes_nothing() {
    let mut m = Model::new();
    let before = m.clone();
    let ok = m.replace_clip(2, "x".to_string(), "/x".to_string(), vec![], 0);
    assert!(!ok);
    assert_eq!(m, before);
}

#[test]
fn apply_import_dispatches_requests() {
    let mut m = Model::new();
    let before = m.clone();
    assert!(!m.apply_import(SlotRequest::NoRequest, "x".to_string(), "/x".to_string(), vec![], 0));
    assert_eq!(m, before);
    assert!(m.apply_import(SlotRequest::AddToSlot(1), "x".to_string(), "/x".to_string(), vec![4], 0));
    assert_eq!(m.tabs[0].buttons.len(), 2);
    assert!(m.apply_import(SlotRequest::ReplaceClipOf(1), "y".to_string(), "/y".to_string(), vec![5], 0));
    assert_eq!(m.tabs[0].buttons[1].label, "y");
    assert!(!m.apply_import(SlotRequest::ReplaceClipOf(9), "z".to_string(), "/z".to_string(), vec![], 0));
}

#[test]
fn add_tab_names_and_selects_it() {
    let mut m = Model::new();
    m.add_tab();
    assert_eq!(m.tabs.len(), 2);
    assert_eq!(m.tabs[1].name, "Tab 2");
    assert_eq!(m.active_tab, 1);
    m.add_tab();
    assert_eq!(m.tabs[2].name, "Tab 3");
    assert_eq!(m.active_tab, 2);
}

#[test]
fn select_tab_checks_range() {
    let mut m = Model::new();
    m.add_tab();
    assert!(m.select_tab(0));
    assert_eq!(m.active_tab, 0);
    assert!(!m.select_tab(5));
    assert_eq!(m.active_tab, 0);
}

#[test]
fn import_ten_second_wav_scenario() {
    // A 10-second mono file at 44.1 kHz, imported into slot 3 of "Tab 1":
    // the button appears at index 3 with a non-empty envelope and a duration
    // of exactly the probed 10 seconds; playing it and waiting two seconds
    // reads back a position of exactly two seconds.
    let sample_rate = 44100usize;
    let samples: Vec<u32> = vec![0.25f32.to_bits(); 10 * sample_rate];
    let env = envelope(&samples);
    assert!(!env.is_empty());
    let duration_bits = 10.0f32.to_bits();

    let mut m = Model::new();
    assert_eq!(m.tabs[0].name, "Tab 1");
    m.place_clip(3, "ten.wav".to_string(), "/ten.wav".to_string(), env, duration_bits);
    let b = &m.tabs[0].buttons[3];
    assert!(!b.clip.as_ref().unwrap().envelope.is_empty());
    assert_eq!(f32::from_bits(b.clip.as_ref().unwrap().duration_bits), 10.0);

    let mut e = Engine::new();
    e.play(0, 3, 5_000, duration_bits);
    let elapsed_ms = e.elapsed(7_000);
    assert_eq!(elapsed_ms, 2_000);
    assert_eq!(elapsed_ms as f64 / 1000.0, 2.0);
}
