use autoclicker::config::{parse_config, save_config, Config};

fn parse(s: &str) -> Config {
    parse_config(s.as_bytes())
}

#[test]
fn defaults_from_empty_input() {
    let c = parse("");
    assert_eq!(c.hotkey, b"Insert".to_vec());
    assert!(c.fast_mode);
    assert_eq!(c.target_cps_milli, 10_000);
    assert!(c.left_click);
    assert!(!c.middle_click);
    assert!(!c.right_click);
    assert!(!c.play_sound);
}

#[test]
fn full_file_parses() {
    let c = parse(
        "hotkey=F3\nfast_mode=false\ntarget_cps=20\nleft_click=false\nmiddle_click=true\nright_click=true\nplay_sound=true\n",
    );
    assert_eq!(c.hotkey, b"F3".to_vec());
    assert!(!c.fast_mode);
    assert_eq!(c.target_cps_milli, 20_000);
    assert!(!c.left_click);
    assert!(c.middle_click);
    assert!(c.right_click);
    assert!(c.play_sound);
}

#[test]
fn invalid_value_falls_back_to_default_for_that_field_only() {
    let c = parse("fast_mode=maybe\nleft_click=false\n");
    assert!(c.fast_mode);
    assert!(!c.left_click);
    assert_eq!(c.target_cps_milli, 10_000);
}

#[test]
fn invalid_rate_falls_back() {
    assert_eq!(parse("target_cps=abc\n").target_cps_milli, 10_000);
    assert_eq!(parse("target_cps=0\n").target_cps_milli, 10_000);
    assert_eq!(parse("target_cps=-5\n").target_cps_milli, 10_000);
    assert_eq!(parse("target_cps=\n").target_cps_milli, 10_000);
    assert_eq!(parse("target_cps=.\n").target_cps_milli, 10_000);
}

#[test]
fn fractional_rates() {
    assert_eq!(parse("target_cps=2.5\n").target_cps_milli, 2_500);
    assert_eq!(parse("target_cps=0.25\n").target_cps_milli, 250);
    assert_eq!(parse("target_cps=.5\n").target_cps_milli, 500);
    assert_eq!(parse("target_cps=5.\n").target_cps_milli, 5_000);
    assert_eq!(parse("target_cps=1.2340\n").target_cps_milli, 1_234);
    // finer precision than a thousandth cannot be held: default
    assert_eq!(parse("target_cps=1.2345\n").target_cps_milli, 10_000);
}

#[test]
fn unknown_keys_and_bad_lines_are_ignored() {
    let c = parse("volume=11\nnonsense\n\nplay_sound=true\n");
    assert!(c.play_sound);
    assert!(c.fast_mode);
    assert_eq!(c.hotkey, b"Insert".to_vec());
}

#[test]
fn last_line_wins() {
    let c = parse("target_cps=20\ntarget_cps=30\n");
    assert_eq!(c.target_cps_milli, 30_000);
}

#[test]
fn keys_and_values_are_trimmed() {
    let c = parse("  hotkey  =  Q  \n");
    assert_eq!(c.hotkey, b"Q".to_vec());
}

#[test]
fn carriage_returns_are_stripped() {
    let c = parse("play_sound=true\r\nfast_mode=false\r\n");
    assert!(c.play_sound);
    assert!(!c.fast_mode);
}

#[test]
fn hotkey_value_may_contain_equals() {
    let c = parse("hotkey=a=b\n");
    assert_eq!(c.hotkey, b"a=b".to_vec());
}

#[test]
fn save_writes_the_documented_format() {
    let out = save_config(&Config::default());
    assert_eq!(
        out,
        b"hotkey=Insert\nfast_mode=true\ntarget_cps=10\nleft_click=true\nmiddle_click=false\nright_click=false\nplay_sound=false\n"
            .to_vec()
    );
}

#[test]
fn save_writes_fractional_rates_without_trailing_zeros() {
    let mut c = Config::default();
    c.target_cps_milli = 2_500;
    let out = save_config(&c);
    assert!(String::from_utf8(out).unwrap().contains("target_cps=2.5\n"));
    c.target_cps_milli = 10;
    let out = save_config(&c);
    assert!(String::from_utf8(out).unwrap().contains("target_cps=0.01\n"));
}

#[test]
fn save_load_is_idempotent() {
    let inputs: [&str; 4] = [
        "",
        "hotkey=NoSuchKey\ntarget_cps=33.25\nfast_mode=bogus\n",
        "  hotkey = spaced out  \nmiddle_click=true\njunk line\n",
        "hotkey=a=b\r\ntarget_cps=0.125\n",
    ];
    for s in inputs {
        let first = save_config(&parse_config(s.as_bytes()));
        let second = save_config(&parse_config(&first));
        assert_eq!(first, second);
    }
}

#[test]
fn unparsed_hotkey_text_is_preserved_by_save() {
    let out = save_config(&parse("hotkey=NoSuchKey\n"));
    assert!(String::from_utf8(out).unwrap().starts_with("hotkey=NoSuchKey\n"));
}
