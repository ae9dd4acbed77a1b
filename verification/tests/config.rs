use embeddings_rs::config::{
    cpu_arena, intra_threads, max_batch_tokens, model_dir, model_path, pool_size, port,
    tokenizer_path,
};

fn set(value: &str) -> Option<String> {
    Some(value.to_string())
}

#[test]
fn port_defaults_unless_it_is_a_port() {
    assert_eq!(port(None), 8402);
    assert_eq!(port(set("9000")), 9000);
    assert_eq!(port(set("+0080")), 80);
    assert_eq!(port(set("65535")), 65535);
    for other in ["65536", "", "+", "-1", " 9000", "9000 ", "9_000", "http"] {
        assert_eq!(port(set(other)), 8402, "{other:?}");
    }
}

#[test]
fn pool_size_is_at_least_one() {
    assert_eq!(pool_size(None), 2);
    assert_eq!(pool_size(set("5")), 5);
    assert_eq!(pool_size(set("1")), 1);
    assert_eq!(pool_size(set("0")), 2);
    assert_eq!(pool_size(set("many")), 2);
    assert_eq!(pool_size(set("99999999999999999999999")), 2);
}

#[test]
fn threads_are_split_between_lanes() {
    assert_eq!(intra_threads(8, 2), 4);
    assert_eq!(intra_threads(7, 2), 3);
    assert_eq!(intra_threads(2, 3), 1);
    assert_eq!(intra_threads(0, 1), 1);
}

#[test]
fn batch_tokens_are_floored_at_one_full_text() {
    assert_eq!(max_batch_tokens(None), 16384);
    assert_eq!(max_batch_tokens(set("1")), 8192);
    assert_eq!(max_batch_tokens(set("8193")), 8193);
    assert_eq!(max_batch_tokens(set("lots")), 16384);
}

#[test]
fn arena_is_on_unless_turned_off() {
    assert!(cpu_arena(None));
    for on in ["", "1", "true", "OFF", "offf", "yes"] {
        assert!(cpu_arena(set(on)), "{on:?}");
    }
    for off in ["0", "false", "no", "off", "  off\n", "\u{3000}no\u{a0}"] {
        assert!(!cpu_arena(set(off)), "{off:?}");
    }
}

#[test]
fn white_space_is_what_trim_takes() {
    // Each of these is white space at either end of the word.
    for c in [
        '\u{9}', '\u{a}', '\u{b}', '\u{c}', '\u{d}', ' ', '\u{85}', '\u{a0}', '\u{1680}',
        '\u{2000}', '\u{200a}', '\u{2028}', '\u{2029}', '\u{202f}', '\u{205f}', '\u{3000}',
    ] {
        assert!(!cpu_arena(Some(format!("{c}off{c}"))), "{c:?}");
    }
    // These only look like it.
    for c in ['\u{200b}', '\u{feff}', '\u{180e}', '\u{8}', '\u{e}'] {
        assert!(cpu_arena(Some(format!("{c}off"))), "{c:?}");
    }
}

#[test]
fn model_files_lie_in_the_model_directory() {
    assert_eq!(model_dir(None), "models");
    assert_eq!(model_dir(set("/srv/m")), "/srv/m");
    assert_eq!(tokenizer_path("models"), "models/tokenizer.json");
    assert_eq!(model_path("/srv/m"), "/srv/m/model.onnx");
}
