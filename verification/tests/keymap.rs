use focuswm::keymap::{build_keymap, maximum_span, parse_maximum, symbols_block_close};
use focuswm::textinput::{base_fits, primed_chars, TextInput};

/// A trimmed keymap shaped like xkbcommon's text output, enough to exercise
/// the keycodes/symbols splicing.
const BASE: &str = "xkb_keymap {\n\
    xkb_keycodes \"(unnamed)\" {\n\
    \tminimum = 8;\n\
    \tmaximum = 708;\n\
    \t<ESC> = 9;\n\
    };\n\
    xkb_types \"(unnamed)\" {\n\
    };\n\
    xkb_compat \"(unnamed)\" {\n\
    };\n\
    xkb_symbols \"(unnamed)\" {\n\
    \tkey <ESC> { [ Escape ] };\n\
    };\n\
    };\n";

#[test]
fn maximum_parsed_tolerating_spacing() {
    assert_eq!(parse_maximum(BASE), Some(708));
    assert_eq!(parse_maximum("\tmaximum=42;\n"), Some(42));
    assert_eq!(parse_maximum("  maximum   =   7 ;"), Some(7));
    assert_eq!(parse_maximum("no maximum here"), None);
}

#[test]
fn symbols_block_close_skips_nested_braces() {
    let close = symbols_block_close(BASE).expect("symbols block close");
    // The brace it finds must close xkb_symbols: everything after is just the
    // outer keymap close.
    assert_eq!(BASE[close..].trim_start_matches('}').trim(), "};");
    // And the inner `key { … }` braces must not have tripped it up.
    assert!(BASE[..close].contains("key <ESC>"));
}

#[test]
fn build_keymap_appends_valid_looking_slots() {
    let km = build_keymap(BASE, &['a', 'é'], 720);
    // Maximum was raised to cover the two slots (720, 721).
    assert_eq!(parse_maximum(&km), Some(722));
    // Slot keycodes declared in the keycodes block (before xkb_types).
    let kc_a = km.find("<Z000> = 720;").expect("slot a keycode");
    let kc_e = km.find("<Z001> = 721;").expect("slot é keycode");
    assert!(kc_a < km.find("xkb_types").unwrap());
    assert!(kc_e < km.find("xkb_types").unwrap());
    // Symbols map the slots to the right Unicode keysyms, inside xkb_symbols.
    let sym_a = km.find("key <Z000> { [ U0061 ] };").expect("slot a symbol");
    let sym_e = km.find("key <Z001> { [ U00E9 ] };").expect("slot é symbol");
    let sym_block = km.find("xkb_symbols").unwrap();
    assert!(sym_a > sym_block && sym_e > sym_block);
}

#[test]
fn build_keymap_noop_without_chars() {
    assert_eq!(build_keymap(BASE, &[], 720), BASE);
}

#[test]
fn maximum_span_covers_the_number() {
    let (start, end, value) = maximum_span(BASE).unwrap();
    assert_eq!(&BASE[start..end], "708");
    assert_eq!(value, 708);
    // Numbers that do not fit are no maximum.
    assert_eq!(parse_maximum("maximum = 4294967296;"), None);
    assert_eq!(parse_maximum("maximum = 4294967295;"), Some(4294967295));
    // The first declaration counts.
    assert_eq!(parse_maximum("maximum = 3;\nmaximum = 4;"), Some(3));
}

#[test]
fn offsets_count_bytes() {
    let text = "é maximum = 12;\n";
    let (start, end, _) = maximum_span(text).unwrap();
    assert_eq!(&text[start..end], "12");
}

#[test]
fn symbols_block_needs_its_braces() {
    assert_eq!(symbols_block_close("no symbols"), None);
    assert_eq!(symbols_block_close("xkb_symbols {"), None);
    assert_eq!(symbols_block_close("xkb_symbols { }"), Some(15));
    assert_eq!(symbols_block_close("xkb_symbols { { } };x"), Some(20));
}

#[test]
fn many_slots_are_numbered_in_hexadecimal() {
    let chars: Vec<char> = (0..20u8).map(|i| (b'a' + i) as char).collect();
    let km = build_keymap(BASE, &chars, 720);
    assert!(km.contains("<Z00A> = 730;") && km.contains("<Z013> = 739;"));
    assert_eq!(parse_maximum(&km), Some(740));
    // The mappings stand inside the block.
    assert!(km.find("key <Z013>").unwrap() < symbols_block_close(&km).unwrap());
}

#[test]
fn typed_characters_keep_their_keycodes() {
    let mut input = TextInput::default();
    // Nothing can be typed before there is a base keymap.
    assert_eq!(input.type_step(None, 'a'), None);
    assert!(!input.ensure_base(None));
    assert!(input.ensure_base(Some(BASE.to_string())));
    let (upload, code) = input.type_step(None, 'a').unwrap();
    assert_eq!(code, 720);
    assert_eq!(upload, Some(build_keymap(BASE, &['a'], 720)));
    let (upload, code) = input.type_step(None, 'é').unwrap();
    assert_eq!(code, 721);
    assert_eq!(upload, Some(build_keymap(BASE, &['a', 'é'], 720)));
    // Known characters need no new keymap and keep their keycode.
    assert_eq!(input.type_step(None, 'a'), Some((None, 720)));
    assert_eq!(input.type_step(None, 'é'), Some((None, 721)));
    assert_eq!(input.take_keymap(), None);
}

#[test]
fn priming_covers_common_text() {
    let chars = primed_chars();
    assert!(chars.contains(&' ') && chars.contains(&'~'));
    assert!(chars.contains(&'é') && chars.contains(&'ő') && chars.contains(&'€'));
    let mut input = TextInput::default();
    assert_eq!(input.prime(None), None);
    let keymap = input.prime(Some(BASE.to_string())).unwrap();
    assert_eq!(keymap, build_keymap(BASE, &chars, 720));
    for c in chars {
        assert_eq!(input.type_step(None, c).unwrap().0, None);
    }
    assert!(input.type_step(None, '漢').unwrap().0.is_some());
}

#[test]
fn slots_need_room_above_the_maximum() {
    assert!(base_fits(BASE));
    assert!(base_fits("no number at all"));
    assert!(!base_fits("maximum = 4294967295;"));
}

#[test]
fn every_slot_is_declared_and_mapped() {
    let chars = primed_chars();
    let km = build_keymap(BASE, &chars, 720);
    for (i, c) in chars.iter().enumerate() {
        assert!(km.contains(&format!("\t<Z{i:03X}> = {};\n", 720 + i)));
        assert!(km.contains(&format!("\tkey <Z{i:03X}> {{ [ U{:04X} ] }};\n", *c as u32)));
    }
}

#[test]
fn a_base_that_comes_late_is_taken() {
    // Nothing can be typed while the base keymap cannot be compiled.
    let mut input = TextInput::default();
    assert!(!input.has_base());
    assert_eq!(input.keycode_for(None, 'a'), None);
    assert_eq!(input.type_step(None, 'a'), None);
    // Once it can, the character that needs it gets the first slot.
    let (upload, code) = input.type_step(Some(BASE.into()), 'a').unwrap();
    assert_eq!(code, 720);
    assert_eq!(upload, Some(build_keymap(BASE, &['a'], 720)));
    assert!(input.has_base());
    assert_eq!(input.keycode_for(Some("maximum = 9;".into()), 'b'), Some(721));
    assert_eq!(input.keycode_for(None, 'a'), Some(720));
}
