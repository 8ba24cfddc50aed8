use fromfix::config::{parse_ini, Config};
use fromfix::ds3::{
    borderless_start, borderless_step, decode_utf16le, default_resolution_to_monitor,
    encode_utf16le, framerate, patch_resolution, resolution_entry, set_xml_tag, skip_intro,
    window_needs_reset, windowed_config, windowed_target, BorderlessAction, BorderlessEvent,
    BorderlessPhase, Flipper, WindowRect, BORDER_STYLE_MASK, READY_SIG,
};
use fromfix::plan::{Action, Fix};

fn defaults() -> Config {
    Config::from_ini(&parse_ini(""))
}

fn sig_bytes(sig: &str, fill: u8) -> Vec<u8> {
    sig.split_whitespace()
        .map(|t| if t.contains('?') { fill } else { u8::from_str_radix(t, 16).unwrap() })
        .collect()
}

#[test]
fn skip_intro_patches_the_ready_signature() {
    let mut img = vec![0u8; 64];
    let b = sig_bytes(READY_SIG, 0x33);
    img[5..5 + b.len()].copy_from_slice(&b);
    assert_eq!(
        skip_intro(&img, &defaults()),
        vec![Action::Patch { fix: Fix::SkipIntro, found: 5, offset: 5 }]
    );
    assert_eq!(skip_intro(&[0u8; 64], &defaults()), vec![Action::NotFound { fix: Fix::SkipIntro }]);
    let mut cfg = defaults();
    cfg.ds3_skip_intro = false;
    assert!(skip_intro(&img, &cfg).is_empty());
    assert_eq!(
        Fix::SkipIntro.patch_bytes(),
        vec![
            0x48, 0x31, 0xC0, 0x48, 0x89, 0x02, 0x49, 0x89, 0x04, 0x24, 0x90, 0x90, 0x90, 0x90,
            0x90, 0x90, 0x90, 0x90, 0x90, 0x90
        ]
    );
}

#[test]
fn framerate_reads_the_flipper_pointer() {
    let mut cfg = defaults();
    assert_eq!(framerate(&[0u8; 32], &cfg), Flipper::Off);
    cfg.ds3_unlock_fps = true;
    assert_eq!(framerate(&[0u8; 32], &cfg), Flipper::NotFound);
    let mut img = vec![0u8; 8];
    img.extend_from_slice(&[0x50, 0x60, 0x12, 0x34, 0xF3, 0x7F, 0, 0, 0, 0, 0, 0, 0, 0, 0, 0]);
    assert_eq!(framerate(&img, &cfg), Flipper::At { address: 0x0000_7FF3_3412_6050 });
    // The first signature wins over the second.
    img.extend_from_slice(&[0x50, 0x60, 0xAB, 0xCD, 0xF4, 0x7F, 0, 0, 0, 0, 0, 0, 0, 0, 0, 0]);
    assert_eq!(framerate(&img, &cfg), Flipper::At { address: 0x0000_7FF4_CDAB_6050 });
}

#[test]
fn resolution_entry_bytes() {
    assert_eq!(resolution_entry(1920, 1080), vec![0x80, 0x07, 0x00, 0x00, 0x38, 0x04]);
    assert_eq!(resolution_entry(3440, 1440), vec![0x70, 0x0D, 0x00, 0x00, 0xA0, 0x05]);
    // Width as u32, height truncated to u16, as the casts do.
    assert_eq!(resolution_entry(-1, 70000), vec![0xFF, 0xFF, 0xFF, 0xFF, 0x70, 0x11]);
}

#[test]
fn patch_resolution_replaces_every_1920x1080_entry() {
    let entry = [0x80u8, 0x07, 0x00, 0x00, 0x38, 0x04];
    let mut img = vec![0u8; 4];
    img.extend_from_slice(&entry);
    img.extend_from_slice(&[9, 9]);
    img.extend_from_slice(&entry);
    let mut cfg = defaults();
    assert!(patch_resolution(&img, &cfg).is_none());
    cfg.ds3_res_width = 3440;
    assert!(patch_resolution(&img, &cfg).is_none());
    cfg.ds3_res_height = 1440;
    let p = patch_resolution(&img, &cfg).unwrap();
    assert_eq!(p.bytes, vec![0x70, 0x0D, 0x00, 0x00, 0xA0, 0x05]);
    assert_eq!(p.offsets, vec![4, 12]);
    let p = patch_resolution(&[0u8; 10], &cfg).unwrap();
    assert!(p.offsets.is_empty());
}

#[test]
fn monitor_resolution_fills_in_when_borderless() {
    let mut cfg = defaults();
    assert!(!default_resolution_to_monitor(&mut cfg, 2560, 1440));
    assert_eq!(cfg.ds3_res_width, 0);
    cfg.ds3_borderless = true;
    assert!(!default_resolution_to_monitor(&mut cfg, 0, 1440));
    assert!(default_resolution_to_monitor(&mut cfg, 2560, 1440));
    assert_eq!((cfg.ds3_res_width, cfg.ds3_res_height), (2560, 1440));
    // A configured width is kept.
    assert!(!default_resolution_to_monitor(&mut cfg, 3840, 2160));
    assert_eq!((cfg.ds3_res_width, cfg.ds3_res_height), (2560, 1440));
}

#[test]
fn utf16le_decoding() {
    let raw = [0xFF, 0xFE, 0x41, 0x00, 0x3D, 0xD8, 0x00, 0xDE, 0xE9, 0x00];
    assert_eq!(decode_utf16le(&raw), "A\u{1F600}\u{E9}");
    // Without a byte-order mark; an odd last byte is dropped.
    assert_eq!(decode_utf16le(&[0x41, 0x00, 0x42, 0x00, 0x43]), "AB");
    // Unpaired surrogates become U+FFFD.
    assert_eq!(decode_utf16le(&[0x00, 0xD8, 0x41, 0x00, 0x00, 0xDC]), "\u{FFFD}A\u{FFFD}");
    assert_eq!(decode_utf16le(&[]), "");
}

#[test]
fn utf16le_encoding() {
    assert_eq!(
        encode_utf16le("A\u{1F600}"),
        vec![0xFF, 0xFE, 0x41, 0x00, 0x3D, 0xD8, 0x00, 0xDE]
    );
    assert_eq!(encode_utf16le(""), vec![0xFF, 0xFE]);
}

#[test]
fn utf16le_roundtrip() {
    for s in ["", "plain", "<ScreenMode>WINDOW</ScreenMode>", "\u{10FFFF}\u{E000}\u{D7FF}x"] {
        assert_eq!(decode_utf16le(&encode_utf16le(s)), s);
    }
}

#[test]
fn set_xml_tag_replaces_first_element_text() {
    assert_eq!(
        set_xml_tag("<a><ScreenMode>FULLSCREEN</ScreenMode></a>", "ScreenMode", "WINDOW"),
        "<a><ScreenMode>WINDOW</ScreenMode></a>"
    );
    assert_eq!(set_xml_tag("<T></T><T>x</T>", "T", "v"), "<T>v</T><T>x</T>");
    assert_eq!(set_xml_tag("<a>1</a>", "b", "2"), "<a>1</a>");
    assert_eq!(set_xml_tag("</T><T>", "T", "v"), "</T><T>");
    // The closing tag is the first one after the opening tag.
    assert_eq!(set_xml_tag("</w><w>1</w>", "w", "2"), "</w><w>2</w>");
    assert_eq!(set_xml_tag("<w>", "w", "2"), "<w>");
    assert_eq!(set_xml_tag("<T>old", "T", "v"), "<T>old");
}

#[test]
fn set_xml_tag_twice_is_once() {
    let xml = "<x><W>1280</W><W>0</W></x>";
    let once = set_xml_tag(xml, "W", "3440");
    assert_eq!(once, "<x><W>3440</W><W>0</W></x>");
    assert_eq!(set_xml_tag(&once, "W", "3440"), once);
}

const CONFIG: &str = "<?xml version=\"1.0\" encoding=\"UTF-16\"?>\r\n<config>\
<ScreenMode>FULLSCREEN</ScreenMode>\
<Resolution-WindowScreenWidth>1280</Resolution-WindowScreenWidth>\
<Resolution-WindowScreenHeight>720</Resolution-WindowScreenHeight>\
</config>";

#[test]
fn windowed_config_rewrites_then_stays() {
    let raw = encode_utf16le(CONFIG);
    let out = windowed_config(&raw, 3440, 1440).unwrap();
    let text = decode_utf16le(&out);
    assert_eq!(
        text,
        "<?xml version=\"1.0\" encoding=\"UTF-16\"?>\r\n<config>\
<ScreenMode>WINDOW</ScreenMode>\
<Resolution-WindowScreenWidth>3440</Resolution-WindowScreenWidth>\
<Resolution-WindowScreenHeight>1440</Resolution-WindowScreenHeight>\
</config>"
    );
    assert_eq!(&out[..2], &[0xFF, 0xFE]);
    assert_eq!(windowed_config(&out, 3440, 1440), None);
    // A file without the elements is left alone.
    assert_eq!(windowed_config(&encode_utf16le("<config/>"), 3440, 1440), None);
    // Negative numbers are written as Rust formats them.
    let neg = decode_utf16le(&windowed_config(&raw, -5, 720).unwrap());
    assert!(neg.contains("<Resolution-WindowScreenWidth>-5</Resolution-WindowScreenWidth>"));
}

#[test]
fn windowed_target_needs_borderless_and_a_resolution() {
    let mut cfg = defaults();
    cfg.ds3_res_width = 2560;
    cfg.ds3_res_height = 1080;
    assert_eq!(windowed_target(&cfg), None);
    cfg.ds3_borderless = true;
    assert_eq!(windowed_target(&cfg), Some((2560, 1080)));
    cfg.ds3_res_height = 0;
    assert_eq!(windowed_target(&cfg), None);
}

#[test]
fn borderless_window_check() {
    const BORDER: i32 = 0x00C0_0000 | 0x0004_0000;
    let full = Some(WindowRect { left: 0, top: 0, right: 2560, bottom: 1440 });
    assert!(!window_needs_reset(0x1000_0000, BORDER, full, 2560, 1440));
    assert!(window_needs_reset(0x00C0_0000, BORDER, full, 2560, 1440));
    assert!(window_needs_reset(0x1000_0000, BORDER, None, 2560, 1440));
    let off = Some(WindowRect { left: 8, top: 0, right: 2560, bottom: 1440 });
    assert!(window_needs_reset(0x1000_0000, BORDER, off, 2560, 1440));
    assert!(window_needs_reset(0x1000_0000, BORDER, full, 3440, 1440));
}

#[test]
fn windowed_config_with_a_stray_close_tag_is_stable() {
    let xml = "<Resolution-WindowScreenHeight></ScreenMode></Resolution-WindowScreenHeight>\
<ScreenMode>FULL</ScreenMode>\
<Resolution-WindowScreenWidth>1</Resolution-WindowScreenWidth>";
    let first = windowed_config(&encode_utf16le(xml), 800, 600).unwrap();
    assert_eq!(
        decode_utf16le(&first),
        "<Resolution-WindowScreenHeight>600</Resolution-WindowScreenHeight>\
<ScreenMode>WINDOW</ScreenMode>\
<Resolution-WindowScreenWidth>800</Resolution-WindowScreenWidth>"
    );
    assert_eq!(windowed_config(&first, 800, 600), None);
}

#[test]
fn windowed_config_only_screen_mode_is_stable() {
    let first = windowed_config(&encode_utf16le("<ScreenMode>FULL</ScreenMode>"), 800, 600).unwrap();
    assert_eq!(decode_utf16le(&first), "<ScreenMode>WINDOW</ScreenMode>");
    assert_eq!(windowed_config(&first, 800, 600), None);
}

#[test]
fn windowed_config_with_nested_elements_changes_twice() {
    // A ScreenMode element inside the height element is rewritten, then
    // removed with the height's text; the next run finds the second one.
    let xml = "<Resolution-WindowScreenHeight><ScreenMode>A</ScreenMode></Resolution-WindowScreenHeight>\
<ScreenMode>B</ScreenMode>";
    let first = windowed_config(&encode_utf16le(xml), 800, 600).unwrap();
    assert_eq!(
        decode_utf16le(&first),
        "<Resolution-WindowScreenHeight>600</Resolution-WindowScreenHeight><ScreenMode>B</ScreenMode>"
    );
    let second = windowed_config(&first, 800, 600).unwrap();
    assert_eq!(
        decode_utf16le(&second),
        "<Resolution-WindowScreenHeight>600</Resolution-WindowScreenHeight><ScreenMode>WINDOW</ScreenMode>"
    );
}

#[test]
fn borderless_off_does_nothing() {
    assert_eq!(borderless_start(false), BorderlessPhase::Done);
    assert_eq!(borderless_start(true), BorderlessPhase::Finding { tries_left: 200 });
}

#[test]
fn borderless_gives_up_after_200_searches() {
    let miss = BorderlessEvent::Search { found: false, dw: 0, dh: 0 };
    let mut phase = borderless_start(true);
    let mut searches = 0;
    loop {
        searches += 1;
        let (next, action) = borderless_step(phase, miss);
        phase = next;
        match action {
            BorderlessAction::SleepThenSearch { ms } => assert_eq!(ms, 100),
            BorderlessAction::NotFound { ms } => {
                assert_eq!(ms, 100);
                break;
            }
            other => panic!("{:?}", other),
        }
    }
    assert_eq!(searches, 200);
    assert_eq!(phase, BorderlessPhase::Done);
}

#[test]
fn borderless_enforces_only_while_focused() {
    let phase = BorderlessPhase::Finding { tries_left: 5 };
    let (phase, action) =
        borderless_step(phase, BorderlessEvent::Search { found: true, dw: 2560, dh: 1440 });
    assert_eq!(action, BorderlessAction::Enforce { dw: 2560, dh: 1440 });
    assert_eq!(phase, BorderlessPhase::Enforcing { dw: 2560, dh: 1440 });
    let bordered = 0x00C0_0000;
    let full = Some(WindowRect { left: 0, top: 0, right: 2560, bottom: 1440 });
    let pass = |alive, focused, style, rect| BorderlessEvent::Pass { alive, focused, style, rect };
    assert_eq!(
        borderless_step(phase, pass(true, true, bordered, full)),
        (phase, BorderlessAction::Reset { dw: 2560, dh: 1440, ms: 300 })
    );
    assert_eq!(
        borderless_step(phase, pass(true, false, bordered, full)),
        (phase, BorderlessAction::SleepThenPass { ms: 300 })
    );
    assert_eq!(
        borderless_step(phase, pass(true, true, 0x1000_0000, full)),
        (phase, BorderlessAction::SleepThenPass { ms: 300 })
    );
    assert_eq!(
        borderless_step(phase, pass(true, true, 0x1000_0000, None)),
        (phase, BorderlessAction::Reset { dw: 2560, dh: 1440, ms: 300 })
    );
    assert_eq!(
        borderless_step(phase, pass(false, true, bordered, full)),
        (BorderlessPhase::Done, BorderlessAction::Stop)
    );
    assert_eq!(BORDER_STYLE_MASK, 0x00C0_0000 | 0x0004_0000);
}

#[test]
fn windowed_config_with_width_inside_screen_mode_is_stable() {
    let xml = "<ScreenMode><Resolution-WindowScreenWidth>1</Resolution-WindowScreenWidth></ScreenMode>";
    let first = windowed_config(&encode_utf16le(xml), 800, 600).unwrap();
    assert_eq!(decode_utf16le(&first), "<ScreenMode>WINDOW</ScreenMode>");
    assert_eq!(windowed_config(&first, 800, 600), None);
}
