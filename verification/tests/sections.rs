use polaris_vbios::render::sections::{parse_section_list, Section};

#[test]
fn every_key_reads_back_to_its_section() {
    for s in Section::ALL {
        assert_eq!(Section::from_key(s.key()), Some(s));
    }
    assert_eq!(Section::ALL.len(), 23);
}

#[test]
fn keys_and_labels() {
    assert_eq!(Section::Multimedia.key(), "mm");
    assert_eq!(Section::PcirChain.key(), "pcir");
    assert_eq!(Section::I2c.label(), "I2C bus wiring (GPIO_I2C_Info)");
    assert_eq!(Section::Straps.label(), "Memory straps");
    assert_eq!(Section::from_key("  vram "), Some(Section::Vram));
    assert_eq!(Section::from_key("VRAM"), None);
    assert_eq!(Section::from_key(""), None);
}

#[test]
fn section_list_keeps_order_and_skips_empty_parts() {
    assert_eq!(
        parse_section_list("firmware,straps, vram"),
        Ok(vec![Section::Firmware, Section::Straps, Section::Vram])
    );
    assert_eq!(
        parse_section_list("straps,,straps,"),
        Ok(vec![Section::Straps, Section::Straps])
    );
    assert_eq!(parse_section_list(""), Ok(vec![]));
}

#[test]
fn section_list_all_selects_everything() {
    assert_eq!(parse_section_list("all"), Ok(Section::ALL.to_vec()));
    assert_eq!(parse_section_list("  ALL "), Ok(Section::ALL.to_vec()));
    assert_eq!(parse_section_list("aLl"), Ok(Section::ALL.to_vec()));
}

#[test]
fn section_list_names_the_unknown_part() {
    assert_eq!(
        parse_section_list("header, bogus ,fan"),
        Err("unknown section: 'bogus'. Use --list-sections to see available options.".to_string())
    );
    assert_eq!(
        parse_section_list("all,fan"),
        Err("unknown section: 'all'. Use --list-sections to see available options.".to_string())
    );
}

#[test]
fn joined_keys_read_back() {
    let all: Vec<Section> = Section::ALL.to_vec();
    let joined = all.iter().map(|s| s.key()).collect::<Vec<_>>().join(",");
    assert_eq!(parse_section_list(&joined), Ok(all.clone()));
    for start in 0..all.len() {
        for step in 1..5 {
            let pick: Vec<Section> = all.iter().copied().skip(start).step_by(step).collect();
            let joined = pick.iter().map(|s| s.key()).collect::<Vec<_>>().join(",");
            assert_eq!(parse_section_list(&joined), Ok(pick));
        }
    }
}
