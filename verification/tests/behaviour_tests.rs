use clipboard_tts::clipboard::{hash_str, WatchState};
use clipboard_tts::sanitizer::{sanitize, sanitize_option, TextFilter};
use clipboard_tts::tts::{cap_text, plan_synthesis, preview, save_path, FILE_EXTENSION};

fn no_filter() -> TextFilter {
    TextFilter::new(&[], &[]).unwrap()
}

// ── sanitize: laws on concrete values ──────────────────────────────────

#[test]
fn sanitize_twice_equals_sanitize_once() {
    for raw in ["Hello, World!", "  a--b  c ", "don't stop", "x\t\ty", "!!!", "café au lait"] {
        let once = sanitize(raw);
        assert_eq!(sanitize(&once), once);
    }
}

#[test]
fn apostrophes_survive() {
    assert_eq!(sanitize("don't stop"), "don't stop");
    assert_eq!(sanitize("'quoted'"), "'quoted'");
}

#[test]
fn sanitized_output_is_clean_ascii() {
    let out = sanitize("¡Hola! ¿Qué tal?  — fine, thanks…");
    assert!(out.is_ascii());
    assert!(!out.starts_with(' ') && !out.ends_with(' '));
    assert!(!out.contains("  "));
    assert_eq!(out, "Hola Qu tal fine thanks");
}

#[test]
fn sanitize_option_result_passes_again_unchanged() {
    let first = sanitize_option("Meeting at 10:30, room B!").unwrap();
    assert_eq!(first, "Meeting at 10 30 room B");
    assert_eq!(sanitize_option(&first), Some(first.clone()));
}

// ── sanitize_option: code, path and URL detection ──────────────────────

#[test]
fn option_returns_none_for_tab_indented_line() {
    assert_eq!(sanitize_option("first line\n\tsecond line"), None);
    assert_eq!(sanitize_option("\tleading tab"), None);
}

#[test]
fn option_returns_none_for_four_space_indent_alone() {
    assert_eq!(sanitize_option("    indented text"), None);
    assert_eq!(sanitize_option("intro\n    indented"), None);
}

#[test]
fn option_keeps_three_space_indent_and_inner_spaces() {
    assert_eq!(
        sanitize_option("   three spaces"),
        Some("three spaces".to_string())
    );
    assert_eq!(sanitize_option("a    b"), Some("a b".to_string()));
}

#[test]
fn option_returns_none_for_lone_closing_brace() {
    assert_eq!(sanitize_option("end }"), None);
}

#[test]
fn option_keeps_single_slash_in_prose() {
    assert_eq!(sanitize_option("and/or"), Some("and or".to_string()));
}

// ── TextFilter ─────────────────────────────────────────────────────────

#[test]
fn filter_error_names_first_invalid_include() {
    let err = TextFilter::new(
        &["ok".to_string(), "(open".to_string(), "[bad".to_string()],
        &["[worse".to_string()],
    )
    .err()
    .unwrap();
    assert_eq!(err.pattern, "(open");
}

#[test]
fn filter_error_names_first_invalid_exclude_when_includes_compile() {
    let err = TextFilter::new(&["ok".to_string()], &["fine".to_string(), "[bad".to_string()])
        .err()
        .unwrap();
    assert_eq!(err.pattern, "[bad");
}

#[test]
fn exclude_wins_over_every_include() {
    let f = TextFilter::new(&["a".to_string(), "b".to_string()], &["secret".to_string()]).unwrap();
    assert!(!f.should_speak("a b secret"));
    assert!(f.should_speak("a b public"));
}

#[test]
fn regex_syntax_is_honoured() {
    let f = TextFilter::new(&[r"api.?key".to_string()], &[]).unwrap();
    assert!(f.should_speak("my apikey"));
    assert!(f.should_speak("my api_key"));
    assert!(!f.should_speak("my api__key"));
}

// ── WatchState ─────────────────────────────────────────────────────────

#[test]
fn watch_state_emits_sanitized_text_once() {
    let filter = no_filter();
    let mut w = WatchState::new();
    let first = w.observe("Hello, World!", &filter).unwrap();
    assert_eq!(first.text, "Hello World");
    assert!(w.observe("Hello, World!", &filter).is_none());
    // A different raw text with the same sanitized form is a repeat too.
    assert!(w.observe("Hello World", &filter).is_none());
}

#[test]
fn watch_state_skips_code_and_keeps_last_hash() {
    let filter = no_filter();
    let mut w = WatchState::new();
    assert_eq!(w.observe("A", &filter).unwrap().text, "A");
    assert!(w.observe("fn main() {}", &filter).is_none());
    assert!(w.observe("!@#$", &filter).is_none());
    // Skipped content did not reset the memory: "A" is still a repeat.
    assert!(w.observe("A", &filter).is_none());
    assert_eq!(w.observe("B", &filter).unwrap().text, "B");
    assert_eq!(w.observe("A", &filter).unwrap().text, "A");
}

#[test]
fn watch_state_applies_filter_to_sanitized_text() {
    let filter = TextFilter::new(&["note".to_string()], &["secret".to_string()]).unwrap();
    let mut w = WatchState::new();
    assert!(w.observe("shopping list", &filter).is_none());
    assert!(w.observe("note: secret plan", &filter).is_none());
    assert_eq!(
        w.observe("note: buy milk!", &filter).unwrap().text,
        "note buy milk"
    );
}

#[test]
fn hash_str_follows_content() {
    assert_eq!(hash_str("abc"), hash_str(&String::from("abc")));
    assert_ne!(hash_str("abc"), hash_str("abd"));
}

// ── tts helpers ────────────────────────────────────────────────────────

#[test]
fn file_extension_is_mp3() {
    assert_eq!(FILE_EXTENSION, ".mp3");
}

#[test]
fn preview_cuts_at_byte_limit_between_characters() {
    // 250 ASCII bytes followed by a 1-byte char: cut at 251 bytes.
    let text = format!("{}bc", "a".repeat(250));
    assert_eq!(preview(&text), format!("{}b", "a".repeat(250)));
    // 249 ASCII bytes and a 2-byte char end exactly at byte 251.
    let text = format!("{}éz", "a".repeat(249));
    assert_eq!(preview(&text), format!("{}é", "a".repeat(249)));
}

#[test]
fn cap_text_zero_keeps_nothing() {
    assert_eq!(cap_text("hello", 0), "");
    assert_eq!(cap_text("", 10), "");
}

#[test]
fn save_path_with_empty_dir() {
    assert_eq!(save_path("", "x"), "/x.mp3");
}

#[test]
fn plan_synthesis_caps_request_and_names_file_by_preview() {
    let text = "a".repeat(300);
    let job = plan_synthesis(&text, 10, "/tmp/out");
    assert_eq!(job.request_text, "a".repeat(10));
    assert_eq!(job.audio_path, format!("/tmp/out/{}.mp3", "a".repeat(251)));
    let short = plan_synthesis("hello world", 5000, ".");
    assert_eq!(short.request_text, "hello world");
    assert_eq!(short.audio_path, "./hello world.mp3");
}

#[test]
fn saved_file_name_fits_name_max_with_slashes_in_text() {
    let text = "ab/".repeat(120);
    let path = save_path("/tmp/some/dir", preview(&text));
    let name = path.rsplit('/').next().unwrap();
    assert!(name.len() <= 255);
    assert_eq!(name, "ab.mp3");
}

#[test]
fn filter_matches_with_the_users_pattern() {
    let f = TextFilter::new(&["zzz".to_string()], &[]).unwrap();
    assert!(!f.should_speak("hello"));
    let g = TextFilter::new(&["hel+o".to_string()], &[]).unwrap();
    assert!(g.should_speak("hello"));
}

#[test]
fn consecutive_events_of_a_run_differ() {
    let filter = no_filter();
    let mut w = WatchState::new();
    let mut events: Vec<String> = Vec::new();
    for raw in ["A", "A", "!", "/usr/bin", "A", "B", "B", "b", "A", "A"] {
        if let Some(e) = w.observe(raw, &filter) {
            events.push(e.text);
        }
    }
    assert_eq!(events, vec!["A", "B", "b", "A"]);
    for pair in events.windows(2) {
        assert_ne!(hash_str(&pair[0]), hash_str(&pair[1]));
    }
}
