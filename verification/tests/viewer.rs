use std::collections::HashMap;
use tricore_rs::model::{Image, Segment};
use tricore_rs::viewer::{parse_count, AppState, Effect, Msg, Tab};

fn image(base: u32, bytes: Vec<u8>) -> Image {
    Image { segments: vec![Segment { name: "s".into(), base, bytes, perms: "r-x", kind: "raw" }] }
}

fn words(ws: &[u32]) -> Vec<u8> {
    ws.iter().flat_map(|w| w.to_le_bytes()).collect()
}

fn last_log(st: &AppState) -> &str {
    st.logs.last().map(|s| s.as_str()).unwrap_or("")
}

#[test]
fn viewer_starts_on_the_code_pane() {
    let st = AppState::new();
    assert_eq!(st.base, "0x0");
    assert_eq!(st.tab, Tab::Code);
    assert_eq!(st.font_size, 16);
    assert_eq!(st.labels_path, "labels.json");
    assert!(st.show_ft && st.show_br && st.show_cbr && st.show_call);
    assert!(st.image.is_none() && st.logs.is_empty());
}

#[test]
fn typing_a_path_is_logged() {
    let mut st = AppState::new();
    let e = st.update(Msg::PathChanged("a.bin".into()));
    assert!(matches!(e, Effect::Nothing));
    assert_eq!(st.path, "a.bin");
    assert_eq!(last_log(&st), "PathChanged: a.bin");
    st.update(Msg::ToggleBytes(true));
    assert!(st.show_bytes);
    assert_eq!(last_log(&st), "ToggleBytes: true");
}

#[test]
fn load_without_a_path_asks_for_one() {
    let mut st = AppState::new();
    st.path = "   ".into();
    let e = st.update(Msg::Load { exists: false });
    assert!(matches!(e, Effect::Nothing));
    assert_eq!(st.status, "Please enter a file path (e.g., examples/out/00-basic.bin)");
    assert_eq!(last_log(&st), st.status);
}

#[test]
fn load_of_a_missing_file_says_so() {
    let mut st = AppState::new();
    st.path = "x.bin".into();
    let e = st.update(Msg::Load { exists: false });
    assert!(matches!(e, Effect::Nothing));
    assert_eq!(st.status, "File not found: x.bin");
}

#[test]
fn load_reads_base_and_skip() {
    let mut st = AppState::new();
    st.path = "a.bin".into();
    st.base = " 0x1000 ".into();
    st.skip = " 12 ".into();
    match st.update(Msg::Load { exists: true }) {
        Effect::LoadFile { path, base, skip } => {
            assert_eq!(path, "a.bin");
            assert_eq!(base, 0x1000);
            assert_eq!(skip, 12);
        }
        other => panic!("unexpected {:?}", other),
    }
    assert_eq!(st.status, "Loading a.bin base=0x1000 skip=12…");
    st.base = "zz".into();
    st.skip = "-3".into();
    match st.update(Msg::Load { exists: true }) {
        Effect::LoadFile { base, skip, .. } => {
            assert_eq!(base, 0);
            assert_eq!(skip, 0);
        }
        other => panic!("unexpected {:?}", other),
    }
    assert_eq!(st.status, "Loading a.bin base=0x0 skip=0…");
}

#[test]
fn open_example_sets_the_example_path() {
    let mut st = AppState::new();
    let e = st.update(Msg::OpenExample { exists: false });
    assert!(matches!(e, Effect::Nothing));
    assert_eq!(st.path, "examples/out/00-basic.bin");
    assert_eq!(st.status, "examples/out/00-basic.bin not found; run scripts/run_examples.sh first");
    match st.update(Msg::OpenExample { exists: true }) {
        Effect::LoadFile { path, base, skip } => {
            assert_eq!(path, "examples/out/00-basic.bin");
            assert_eq!((base, skip), (0, 0));
        }
        other => panic!("unexpected {:?}", other),
    }
}

#[test]
fn a_loaded_image_is_analysed_from_its_base() {
    let mut st = AppState::new();
    match st.update(Msg::LoadedOk(image(0x8000_0000, vec![0; 4]))) {
        Effect::Analyze { seeds } => assert_eq!(seeds, vec![0x8000_0000]),
        other => panic!("unexpected {:?}", other),
    }
    assert_eq!(st.status, "Loaded. Analyzing… seeds=[2147483648]");
    match st.update(Msg::Analyze) {
        Effect::Analyze { seeds } => assert_eq!(seeds, vec![0x8000_0000]),
        other => panic!("unexpected {:?}", other),
    }
    assert_eq!(st.status, "Analyzing… seeds=[2147483648]");
    st.update(Msg::LoadedErr("bad".into()));
    assert!(st.image.is_none());
    assert_eq!(st.status, "Load error: bad");
    assert!(matches!(st.update(Msg::Analyze), Effect::Nothing));
}

#[test]
fn analysis_results_are_sorted() {
    let mut st = AppState::new();
    st.update(Msg::AnalyzedOk(vec![8, 2, 4, 2], vec![], Some("3ms".into())));
    assert_eq!(st.visited, vec![2, 2, 4, 8]);
    assert_eq!(st.status, "Analysis done in 3ms (visited=4, edges=0)");
    st.update(Msg::AnalyzedOk(vec![5], vec![], None));
    assert_eq!(st.status, "Analysis done (visited=1, edges=0)");
    st.update(Msg::AnalyzedErr("oops".into()));
    assert!(st.visited.is_empty());
    assert_eq!(st.status, "Analyze error: oops");
}

#[test]
fn two_hex_digits_write_a_byte_and_reanalyse() {
    let mut st = AppState::new();
    st.image = Some(image(0x1000, vec![0; 4]));
    match st.update(Msg::HexEditChanged(0x1002, "zz4g1".into())) {
        Effect::Analyze { seeds } => assert_eq!(seeds, vec![0x1000]),
        other => panic!("unexpected {:?}", other),
    }
    assert_eq!(st.image.as_ref().unwrap().segments[0].bytes, vec![0, 0, 0x41, 0]);
    assert_eq!(st.selected_addr, Some(0x1002));
    assert!(st.hex_edits.is_empty());
    assert_eq!(st.status, "Analyzing after hex edit…");
    assert!(st.logs.iter().any(|l| l == "Wrote 0x41 @ 0x00001002"));
}

#[test]
fn one_hex_digit_waits_for_commit() {
    let mut st = AppState::new();
    st.image = Some(image(0x1000, vec![0; 4]));
    assert!(matches!(st.update(Msg::HexEditChanged(0x1001, "a".into())), Effect::Nothing));
    assert_eq!(st.hex_edits.get(&0x1001).map(|s| s.as_str()), Some("a"));
    match st.update(Msg::HexEditCommit(0x1001)) {
        Effect::Analyze { seeds } => assert_eq!(seeds, vec![0x1000]),
        other => panic!("unexpected {:?}", other),
    }
    assert_eq!(st.image.as_ref().unwrap().segments[0].bytes, vec![0, 0x0a, 0, 0]);
    assert!(st.hex_edits.is_empty());
    // Outside every segment nothing is written, but the analysis runs again.
    assert!(matches!(st.update(Msg::HexEditCommit(0x2000)), Effect::Analyze { .. }));
    assert_eq!(st.image.as_ref().unwrap().segments[0].bytes, vec![0, 0x0a, 0, 0]);
}

#[test]
fn copy_and_paste_go_through_the_status_line() {
    let mut st = AppState::new();
    st.image = Some(image(0x1000, vec![0, 0, 0x41, 0]));
    st.tab = Tab::Hex;
    st.update(Msg::SelectAddr(0x1002));
    st.update(Msg::CopySelection);
    assert_eq!(st.status, "Copied: 0x00001002: 0x41");
    st.update(Msg::PasteToSearch);
    assert_eq!(st.search, "0x00001002: 0x41");
}

#[test]
fn copy_on_the_code_pane_takes_the_instruction() {
    let movu = (1u32 << 28) | (0x42 << 12) | 0xBB;
    let mut st = AppState::new();
    st.image = Some(image(0x1000, words(&[movu, 1])));
    st.update(Msg::SelectPc(0x1000));
    st.update(Msg::CopySelection);
    assert_eq!(st.status, "Copied: 0x00001000: mov d1, #0x42");
    st.update(Msg::SelectPc(0x1004));
    st.update(Msg::CopySelection);
    assert_eq!(st.status, "Copied: 0x00001004");
}

#[test]
fn go_finds_addresses_and_labels() {
    let mut st = AppState::new();
    st.labels.insert(0x2000, "main".into());
    st.update(Msg::SearchChanged("  main ".into()));
    st.update(Msg::SearchGo);
    assert_eq!(st.selection, Some(0x2000));
    assert_eq!(last_log(&st), "Navigate to 0x00002000");
    st.update(Msg::SearchChanged("0x40".into()));
    st.update(Msg::SearchGo);
    assert_eq!(st.selection, Some(0x40));
    st.update(Msg::SearchChanged("nothing here".into()));
    st.update(Msg::SearchGo);
    assert_eq!(st.status, "No match for 'nothing here'");
}

#[test]
fn a_saved_label_comes_back_on_select() {
    let mut st = AppState::new();
    st.update(Msg::SelectPc(0x10));
    st.update(Msg::LabelEditChanged("  start ".into()));
    st.update(Msg::SaveLabel);
    assert_eq!(st.labels.get(&0x10).map(|s| s.as_str()), Some("start"));
    assert_eq!(last_log(&st), "Saved label 'start' @ 0x00000010");
    st.update(Msg::LabelEditChanged("   ".into()));
    st.update(Msg::SaveLabel);
    assert_eq!(st.labels.get(&0x10).map(|s| s.as_str()), Some("start"));
    st.update(Msg::SelectPc(0x10));
    assert_eq!(st.label_edit, "start");
    st.update(Msg::SelectPc(0x14));
    assert_eq!(st.label_edit, "");
}

#[test]
fn the_log_keeps_its_last_thousand_lines() {
    let mut st = AppState::new();
    for i in 0..1005 {
        st.push_log(format!("line {}", i));
    }
    assert_eq!(st.logs.len(), 1000);
    assert_eq!(st.logs[0], "line 5");
    assert_eq!(st.logs[999], "line 1004");
}

#[test]
fn save_disasm_lists_decoded_visited_addresses() {
    let movu = (1u32 << 28) | (0x42 << 12) | 0xBB;
    let mut st = AppState::new();
    assert!(matches!(st.update(Msg::SaveDisasm), Effect::Nothing));
    st.image = Some(image(0, words(&[movu, 1, movu])));
    st.visited = vec![0, 4, 8, 0x100];
    match st.update(Msg::SaveDisasm) {
        Effect::WriteDisasm { text } => {
            assert_eq!(text, "0x00000000: mov d1, #0x42\n0x00000008: mov d1, #0x42")
        }
        other => panic!("unexpected {:?}", other),
    }
    st.update(Msg::DisasmSaved(Ok(())));
    assert_eq!(st.status, "Saved disasm.txt");
    st.update(Msg::DisasmSaved(Err("disk".into())));
    assert_eq!(st.status, "Save failed: disk");
}

#[test]
fn save_bin_takes_the_first_segment() {
    let mut st = AppState::new();
    st.image = Some(image(0, vec![1, 2, 3]));
    match st.update(Msg::SaveImageBin) {
        Effect::WriteImage { bytes } => assert_eq!(bytes, vec![1, 2, 3]),
        other => panic!("unexpected {:?}", other),
    }
    st.update(Msg::ImageSaved(Ok(())));
    assert_eq!(st.status, "Saved image.bin");
}

#[test]
fn labels_are_saved_and_loaded_through_jobs() {
    let mut st = AppState::new();
    st.labels.insert(1, "a".into());
    match st.update(Msg::SaveLabels) {
        Effect::SaveLabels { path, labels } => {
            assert_eq!(path, "labels.json");
            assert_eq!(labels.get(&1).map(|s| s.as_str()), Some("a"));
        }
        other => panic!("unexpected {:?}", other),
    }
    st.update(Msg::LabelsSaved(Ok(())));
    assert_eq!(st.status, "Labels saved to labels.json");
    match st.update(Msg::LoadLabels) {
        Effect::LoadLabels { path } => assert_eq!(path, "labels.json"),
        other => panic!("unexpected {:?}", other),
    }
    let mut m = HashMap::new();
    m.insert(7u32, "seven".to_string());
    st.update(Msg::LabelsLoaded(Ok(m)));
    assert_eq!(st.labels.len(), 1);
    assert_eq!(st.status, "Labels loaded from labels.json");
    st.update(Msg::LabelsLoaded(Err("gone".into())));
    assert_eq!(st.status, "Load error: gone");
    assert_eq!(st.labels.len(), 1);
}

#[test]
fn counts_parse_like_usize() {
    assert_eq!(parse_count(" +42 "), Some(42));
    assert_eq!(parse_count(""), None);
    assert_eq!(parse_count("+"), None);
    assert_eq!(parse_count("1x"), None);
    assert_eq!(parse_count("99999999999999999999999"), None);
}
