use smart_clipboard::paste::{paste_route, usable_target, PasteRoute};
use smart_clipboard::entry::ClipEntry;
use smart_clipboard::history::History;
use smart_clipboard::paste::{
    ctrl_v_keys, focus_wait_step, needs_input_attach, no_activate_style, paste_delivery,
    FocusWait, KeyStroke, PasteDelivery,
};
use smart_clipboard::storage::{default_true, load_store, loaded_or_default, make_store, Store, DATA_FILE_NAME};
use smart_clipboard::watch::SeqWatch;

fn entry(text: &str, time: i64) -> ClipEntry {
    ClipEntry { text: text.to_string(), html: None, rtf: None, time }
}

fn texts(h: &History) -> Vec<(String, i64)> {
    h.entries().iter().map(|e| (e.text.clone(), e.time)).collect()
}

#[test]
fn new_entries_go_on_top() {
    let mut h = History::new(Vec::new());
    h.add_entry(entry("a", 1));
    h.add_entry(entry("b", 2));
    assert_eq!(texts(&h), vec![("b".to_string(), 2), ("a".to_string(), 1)]);
}

#[test]
fn repeated_content_moves_to_top_with_new_time() {
    let mut h = History::new(vec![entry("c", 3), entry("b", 2), entry("a", 1)]);
    h.add_entry(entry("a", 9));
    assert_eq!(
        texts(&h),
        vec![("a".to_string(), 9), ("c".to_string(), 3), ("b".to_string(), 2)]
    );
    assert_eq!(h.len(), 3);
}

#[test]
fn content_includes_html_and_rtf() {
    let mut h = History::new(vec![entry("a", 1)]);
    let mut with_html = entry("a", 2);
    with_html.html = Some("<b>a</b>".to_string());
    h.add_entry(with_html);
    assert_eq!(h.len(), 2);
}

#[test]
fn adding_twice_is_adding_once() {
    let mut h = History::new(vec![entry("x", 1)]);
    h.add_entry(entry("y", 2));
    let once = texts(&h);
    h.add_entry(entry("y", 2));
    assert_eq!(texts(&h), once);
}

#[test]
fn record_skips_nothing_and_blank() {
    let mut h = History::new(vec![entry("x", 1)]);
    assert!(!h.record(None));
    assert!(!h.record(Some(entry(" \n", 2))));
    assert!(!h.take_needs_save());
    assert!(h.record(Some(entry("z", 3))));
    assert_eq!(texts(&h)[0], ("z".to_string(), 3));
    assert!(h.take_needs_save());
    assert!(!h.take_needs_save());
}

#[test]
fn remove_and_clear() {
    let mut h = History::new(vec![entry("c", 3), entry("b", 2), entry("a", 1)]);
    h.remove(1);
    assert_eq!(texts(&h), vec![("c".to_string(), 3), ("a".to_string(), 1)]);
    assert!(h.take_needs_save());
    h.clear();
    assert_eq!(h.len(), 0);
    assert!(h.take_needs_save());
    assert!(h.get(0).is_none());
}

#[test]
fn get_returns_row() {
    let h = History::new(vec![entry("c", 3), entry("b", 2)]);
    assert_eq!(h.get(1).unwrap().text, "b");
    assert!(h.get(2).is_none());
}

#[test]
fn load_keeps_first_of_each_content_and_defaults() {
    let store = Store {
        format_on: None,
        dark_mode: None,
        trim_on: None,
        entries: vec![entry("a", 3), entry("b", 2), entry("a", 1), entry("c", 0), entry("b", 7)],
    };
    let (entries, format_on, dark_mode, trim_on) = load_store(store);
    let got: Vec<(String, i64)> = entries.iter().map(|e| (e.text.clone(), e.time)).collect();
    assert_eq!(
        got,
        vec![("a".to_string(), 3), ("b".to_string(), 2), ("c".to_string(), 0)]
    );
    assert!(!format_on);
    assert!(dark_mode);
    assert!(!trim_on);
}

#[test]
fn load_uses_stored_settings() {
    let store = Store { format_on: Some(true), dark_mode: Some(false), trim_on: Some(true), entries: Vec::new() };
    let (entries, f, d, t) = load_store(store);
    assert!(entries.is_empty());
    assert_eq!((f, d, t), (true, false, true));
}

#[test]
fn save_then_load_round_trips() {
    let entries = vec![entry("b", 2), entry("a", 1)];
    let store = make_store(&entries, true, false, true);
    assert_eq!((store.format_on, store.dark_mode, store.trim_on), (Some(true), Some(false), Some(true)));
    let (back, f, d, t) = load_store(store);
    let got: Vec<(String, i64)> = back.iter().map(|e| (e.text.clone(), e.time)).collect();
    assert_eq!(got, vec![("b".to_string(), 2), ("a".to_string(), 1)]);
    assert_eq!((f, d, t), (true, false, true));
}

#[test]
fn defaults_when_nothing_loaded() {
    let (entries, f, d, t) = loaded_or_default(None);
    assert!(entries.is_empty());
    assert_eq!((f, d, t), (true, true, false));
    assert!(default_true());
    assert_eq!(DATA_FILE_NAME, "smart_clipboard_data.json");
    let (e2, f2, d2, t2) = loaded_or_default(Some((vec![entry("q", 1)], false, false, true)));
    assert_eq!(e2.len(), 1);
    assert_eq!((f2, d2, t2), (false, false, true));
}

#[test]
fn watch_reads_each_change_once_and_skips_own_paste() {
    let mut w = SeqWatch::new();
    assert!(!w.observe(0));
    assert!(w.observe(5));
    assert!(!w.observe(5));
    w.suppress(6);
    assert!(!w.observe(6));
    assert!(w.observe(7));
}

#[test]
fn ctrl_v_key_sequence() {
    let keys = ctrl_v_keys();
    assert_eq!(
        keys,
        vec![
            KeyStroke { vk: 0x11, scan: 0x1D, up: false },
            KeyStroke { vk: 0x56, scan: 0x2F, up: false },
            KeyStroke { vk: 0x56, scan: 0x2F, up: true },
            KeyStroke { vk: 0x11, scan: 0x1D, up: true },
        ]
    );
}

#[test]
fn focus_wait_steps() {
    assert_eq!(focus_wait_step(true, 0, false), FocusWait::Focused);
    assert_eq!(focus_wait_step(false, 100, false), FocusWait::Retry { set_again: true });
    assert_eq!(focus_wait_step(false, 100, true), FocusWait::Retry { set_again: false });
    assert_eq!(focus_wait_step(false, 1500, true), FocusWait::TimedOut);
}

#[test]
fn paste_delivery_choices() {
    assert_eq!(paste_delivery(true, 7, 9), PasteDelivery::Keys);
    assert_eq!(paste_delivery(false, 7, 9), PasteDelivery::Message(7));
    assert_eq!(paste_delivery(false, 0, 9), PasteDelivery::Message(9));
    assert!(needs_input_attach(1, 2));
    assert!(!needs_input_attach(3, 3));
}

#[test]
fn no_activate_bit() {
    assert_eq!(no_activate_style(0x100, 0x0800_0000), Some(0x0800_0100));
    assert_eq!(no_activate_style(0x0800_0100, 0x0800_0000), None);
}

#[test]
fn paste_target_and_route() {
    assert_eq!(usable_target(None), None);
    assert_eq!(usable_target(Some(0)), None);
    assert_eq!(usable_target(Some(42)), Some(42));
    assert_eq!(paste_route(42, 42), PasteRoute::Direct);
    assert_eq!(paste_route(42, 7), PasteRoute::Refocus);
}

#[test]
fn settings_change_marks_history_for_saving() {
    let mut h = History::new(vec![entry("a", 1)]);
    assert!(h.is_clean());
    h.mark_dirty();
    assert!(!h.is_clean());
    assert_eq!(h.len(), 1);
    assert!(h.take_needs_save());
    assert!(h.is_clean());
}

#[test]
fn frame_saves_once_after_changes() {
    let mut h = History::new(Vec::new());
    h.add_entry(entry("a", 1));
    h.add_entry(entry("b", 2));
    h.remove(0);
    assert!(h.take_needs_save());
    assert!(!h.take_needs_save());
    assert!(h.is_clean());
}
