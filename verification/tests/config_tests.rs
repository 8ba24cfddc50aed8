use fromfix::config::{get_bool, get_i32, parse_bool, parse_i32, parse_ini, Config};

const INI: &str = "; FromFix settings\n\
[Borderless Windowed]\n\
Enabled = true ; trailing comment\n\
\n\
[ Gameplay FOV ]\n\
Multiplier=1.5\r\n\
[Fix HUD]\n\
Enabled=0\n\
Enabled = Yes\n\
[[DS3 Resolution]]\n\
Width = 3440\n\
Height=1440\n\
not a setting\n\
=orphan\n";

#[test]
fn ini_sections_keys_and_comments() {
    let ini = parse_ini(INI);
    assert_eq!(ini.get("Borderless Windowed", "Enabled"), Some("true".to_string()));
    assert_eq!(ini.get("Gameplay FOV", "Multiplier"), Some("1.5".to_string()));
    assert_eq!(ini.get("DS3 Resolution", "Width"), Some("3440".to_string()));
    assert_eq!(ini.get("DS3 Resolution", "", ), Some("orphan".to_string()));
    assert_eq!(ini.get("Fix HUD", "Missing"), None);
    assert_eq!(ini.get("Gameplay FOV", "Enabled"), None);
}

#[test]
fn ini_later_assignment_wins() {
    let ini = parse_ini(INI);
    assert_eq!(ini.get("Fix HUD", "Enabled"), Some("Yes".to_string()));
}

#[test]
fn ini_keys_before_any_section() {
    let ini = parse_ini("a = 1\n[s]\na = 2");
    assert_eq!(ini.get("", "a"), Some("1".to_string()));
    assert_eq!(ini.get("s", "a"), Some("2".to_string()));
}

#[test]
fn ini_value_keeps_inner_equals() {
    let ini = parse_ini("[s]\nk = a=b \n");
    assert_eq!(ini.get("s", "k"), Some("a=b".to_string()));
}

#[test]
fn bool_words() {
    for w in ["true", "TRUE", "1", "yes", "Yes", "on", "ON"] {
        assert!(parse_bool(w), "{}", w);
    }
    for w in ["false", "0", "no", "off", "", "2", "truee", " true"] {
        assert!(!parse_bool(w), "{}", w);
    }
}

#[test]
fn i32_parsing() {
    assert_eq!(parse_i32("3440"), Some(3440));
    assert_eq!(parse_i32("-5"), Some(-5));
    assert_eq!(parse_i32("+7"), Some(7));
    assert_eq!(parse_i32("007"), Some(7));
    assert_eq!(parse_i32("2147483647"), Some(i32::MAX));
    assert_eq!(parse_i32("2147483648"), None);
    assert_eq!(parse_i32("-2147483648"), Some(i32::MIN));
    assert_eq!(parse_i32("-2147483649"), None);
    assert_eq!(parse_i32(""), None);
    assert_eq!(parse_i32("-"), None);
    assert_eq!(parse_i32("+"), None);
    assert_eq!(parse_i32("12a"), None);
    assert_eq!(parse_i32(" 1"), None);
    assert_eq!(parse_i32("99999999999999999999"), None);
}

#[test]
fn getters_fall_back_to_defaults() {
    let ini = parse_ini("[A]\nflag = maybe\nn = x\n");
    assert!(!get_bool(&ini, "A", "flag", true));
    assert!(get_bool(&ini, "A", "absent", true));
    assert_eq!(get_i32(&ini, "A", "n", 60), 60);
    assert_eq!(get_i32(&ini, "A", "absent", -1), -1);
}

#[test]
fn config_defaults_from_empty_ini() {
    let cfg = Config::from_ini(&parse_ini(""));
    assert_eq!(
        cfg,
        Config {
            borderless: false,
            unlock_fps: true,
            unlock_res: true,
            fix_aspect: true,
            fix_hud: true,
            ds3_skip_intro: true,
            ds3_unlock_fps: false,
            ds3_borderless: false,
            ds3_res_width: 0,
            ds3_res_height: 0,
        }
    );
}

#[test]
fn config_from_full_ini() {
    let text = "[Borderless Windowed]\nEnabled = true\n[Unlock Framerate]\nEnabled = false\n\
[Unlock Resolutions]\nEnabled = off\n[Fix Aspect Ratio]\nEnabled = no\n[Fix HUD]\nEnabled = 0\n\
[DS3 Skip Intro]\nEnabled = false\n[DS3 Unlock Framerate]\nEnabled = true\nTargetFPS = 120\n\
[DS3 Borderless]\nEnabled = on\n[DS3 Resolution]\nWidth = 2560\nHeight = 1080\n";
    let cfg = Config::from_ini(&parse_ini(text));
    assert_eq!(
        cfg,
        Config {
            borderless: true,
            unlock_fps: false,
            unlock_res: false,
            fix_aspect: false,
            fix_hud: false,
            ds3_skip_intro: false,
            ds3_unlock_fps: true,
            ds3_borderless: true,
            ds3_res_width: 2560,
            ds3_res_height: 1080,
        }
    );
}
