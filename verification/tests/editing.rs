use egui_reflect::editor::{
    edit_at, fresh_edit_state_i64, fresh_edit_state_u64, numeric_text_step_bounded_i64,
    numeric_text_step_bounded_u64, numeric_text_step_i64, numeric_text_step_u64, slider_step_i64,
    slider_step_u64, toggle_step, EditEvent, EditState,
};
use egui_reflect::store::EditStore;
use egui_reflect::{FieldOptions, FieldValue, ReflectField};

#[test]
fn fresh_state_shows_canonical_text() {
    let st = fresh_edit_state_i64(-5);
    assert_eq!(st.text.as_str(), "-5");
    assert!(!st.failed);
    let st = fresh_edit_state_u64(7);
    assert_eq!(st.text.as_str(), "7");
    assert!(!st.failed);
}

#[test]
fn typed_numeral_is_committed() {
    let mut v: i64 = 5;
    let mut st = fresh_edit_state_i64(v);
    numeric_text_step_i64(&mut v, &mut st, "12".to_string());
    assert_eq!(v, 12);
    assert!(!st.failed);
    assert_eq!(st.text.as_str(), "12");
}

#[test]
fn unparseable_text_is_kept_and_flagged() {
    let mut v: i64 = 5;
    let mut st = fresh_edit_state_i64(v);
    numeric_text_step_i64(&mut v, &mut st, "12x".to_string());
    assert_eq!(v, 5);
    assert!(st.failed);
    assert_eq!(st.text.as_str(), "12x");
}

#[test]
fn committing_again_clears_the_flag() {
    let mut v: i64 = 5;
    let mut st = fresh_edit_state_i64(v);
    numeric_text_step_i64(&mut v, &mut st, "oops".to_string());
    assert!(st.failed);
    numeric_text_step_i64(&mut v, &mut st, "-3".to_string());
    assert_eq!(v, -3);
    assert!(!st.failed);
}

#[test]
fn canonical_text_leaves_state_alone() {
    // Text equal to the value's canonical numeral is not re-parsed, so a
    // standing failure flag stays set.
    let mut v: i64 = 5;
    let mut st = EditState { text: "bad".to_string(), failed: true };
    numeric_text_step_i64(&mut v, &mut st, "5".to_string());
    assert_eq!(v, 5);
    assert!(st.failed);
    assert_eq!(st.text.as_str(), "5");
}

#[test]
fn out_of_range_numeral_is_flagged() {
    let mut v: u64 = 1;
    let mut st = fresh_edit_state_u64(v);
    numeric_text_step_u64(&mut v, &mut st, "18446744073709551616".to_string());
    assert_eq!(v, 1);
    assert!(st.failed);
    let mut w: u64 = 1;
    let mut st = fresh_edit_state_u64(w);
    numeric_text_step_u64(&mut w, &mut st, "-2".to_string());
    assert_eq!(w, 1);
    assert!(st.failed);
}

#[test]
fn slider_clamps_into_bounds() {
    let mut v: i64 = 50;
    slider_step_i64(&mut v, 1, 100, 500);
    assert_eq!(v, 100);
    slider_step_i64(&mut v, 1, 100, -3);
    assert_eq!(v, 1);
    slider_step_i64(&mut v, 1, 100, 42);
    assert_eq!(v, 42);
}

#[test]
fn slider_with_reversed_bounds_does_nothing() {
    let mut v: i64 = 50;
    slider_step_i64(&mut v, 100, 1, 7);
    assert_eq!(v, 50);
}

#[test]
fn unsigned_slider_reads_bounds_as_wrapped() {
    // A negative annotation bound wraps around, as casting it to the
    // unsigned field type does.
    let mut v: u64 = 3;
    slider_step_u64(&mut v, -1, -1, 5);
    assert_eq!(v, u64::MAX);
    let mut w: u64 = 3;
    slider_step_u64(&mut w, 0, 10, 99);
    assert_eq!(w, 10);
}

#[test]
fn checkbox_tracks_the_value() {
    let mut b = true;
    let shown = toggle_step(&mut b);
    assert!(!b);
    assert_eq!(shown, b);
    let shown = toggle_step(&mut b);
    assert!(b);
    assert_eq!(shown, b);
}

fn nested_record() -> FieldValue {
    FieldValue::Record(vec![
        ReflectField {
            name: "Health".to_string(),
            opts: FieldOptions { range: None },
            value: FieldValue::SInt(1),
        },
        ReflectField {
            name: "Stats".to_string(),
            opts: FieldOptions { range: None },
            value: FieldValue::Record(vec![
                ReflectField {
                    name: "Strength".to_string(),
                    opts: FieldOptions { range: None },
                    value: FieldValue::SInt(2),
                },
                ReflectField {
                    name: "Alive".to_string(),
                    opts: FieldOptions { range: None },
                    value: FieldValue::Boolean(false),
                },
            ]),
        },
    ])
}

#[test]
fn nested_edit_reaches_only_the_leaf() {
    let mut v = nested_record();
    let mut st = fresh_edit_state_i64(2);
    let ev = EditEvent::InField(1, Box::new(EditEvent::InField(0, Box::new(
        EditEvent::SetText("9".to_string()),
    ))));
    edit_at(&mut v, &FieldOptions { range: None }, &mut st, ev);
    let FieldValue::Record(fields) = v else { panic!() };
    assert!(matches!(fields[0].value, FieldValue::SInt(1)));
    assert_eq!(fields[1].name.as_str(), "Stats");
    let FieldValue::Record(inner) = &fields[1].value else { panic!() };
    assert!(matches!(inner[0].value, FieldValue::SInt(9)));
    assert!(matches!(inner[1].value, FieldValue::Boolean(false)));
    assert!(!st.failed);
}

#[test]
fn edit_addressed_past_the_record_does_nothing() {
    let mut v = nested_record();
    let mut st = fresh_edit_state_i64(2);
    let ev = EditEvent::InField(5, Box::new(EditEvent::Toggle));
    edit_at(&mut v, &FieldOptions { range: None }, &mut st, ev);
    let FieldValue::Record(fields) = v else { panic!() };
    assert!(matches!(fields[0].value, FieldValue::SInt(1)));
}

#[test]
fn text_event_on_ranged_field_does_nothing() {
    let mut v = FieldValue::SInt(5);
    let mut st = fresh_edit_state_i64(5);
    edit_at(
        &mut v,
        &FieldOptions { range: Some((0, 10)) },
        &mut st,
        EditEvent::SetText("9".to_string()),
    );
    assert!(matches!(v, FieldValue::SInt(5)));
}

#[test]
fn slider_event_drives_ranged_field() {
    let mut v = FieldValue::SInt(5);
    let mut st = fresh_edit_state_i64(5);
    edit_at(
        &mut v,
        &FieldOptions { range: Some((0, 10)) },
        &mut st,
        EditEvent::SetSlider(50),
    );
    assert!(matches!(v, FieldValue::SInt(10)));
}

#[test]
fn text_field_takes_the_typed_text() {
    let mut v = FieldValue::Text("old".to_string());
    let mut st = EditState { text: String::new(), failed: false };
    edit_at(
        &mut v,
        &FieldOptions { range: None },
        &mut st,
        EditEvent::SetText("new".to_string()),
    );
    assert!(matches!(&v, FieldValue::Text(t) if t == "new"));
}

#[test]
fn store_round_trips_states() {
    let mut store = EditStore::new();
    assert!(store.fetch("Player", "health").is_none());
    store.put("Player", "health", EditState { text: "10".to_string(), failed: false });
    let got = store.fetch("Player", "health").unwrap();
    assert_eq!(got.text.as_str(), "10");
    assert!(!got.failed);
    // A different field of the same container is its own entry.
    assert!(store.fetch("Player", "mana").is_none());
    store.put("Player", "mana", EditState { text: "bad".to_string(), failed: true });
    let got = store.fetch("Player", "mana").unwrap();
    assert!(got.failed);
    // Storing again under the same identity replaces the state.
    store.put("Player", "health", EditState { text: "11".to_string(), failed: false });
    let got = store.fetch("Player", "health").unwrap();
    assert_eq!(got.text.as_str(), "11");
}

#[test]
fn bounded_step_commits_only_in_range_numerals() {
    // A field of a narrow signed type, carried widened.
    let mut v: i64 = 5;
    let mut st = fresh_edit_state_i64(v);
    numeric_text_step_bounded_i64(&mut v, i8::MIN as i64, i8::MAX as i64, &mut st, "127".to_string());
    assert_eq!(v, 127);
    assert!(!st.failed);
    numeric_text_step_bounded_i64(&mut v, i8::MIN as i64, i8::MAX as i64, &mut st, "128".to_string());
    assert_eq!(v, 127);
    assert!(st.failed);
    numeric_text_step_bounded_i64(&mut v, i8::MIN as i64, i8::MAX as i64, &mut st, "-128".to_string());
    assert_eq!(v, -128);
    assert!(!st.failed);
    // A field of a narrow unsigned type.
    let mut w: u64 = 0;
    let mut st = fresh_edit_state_u64(w);
    numeric_text_step_bounded_u64(&mut w, u8::MAX as u64, &mut st, "255".to_string());
    assert_eq!(w, 255);
    assert!(!st.failed);
    numeric_text_step_bounded_u64(&mut w, u8::MAX as u64, &mut st, "256".to_string());
    assert_eq!(w, 255);
    assert!(st.failed);
}
