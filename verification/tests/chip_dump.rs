use polaris_vbios::compare_chip::AsicInfo;
use polaris_vbios::render::chip::{render_asic, render_gpio, render_power, GpioPin, PowerSource};
use polaris_vbios::render::color::Palette;

#[test]
fn gfx_dump_lists_the_layout_and_cu_product() {
    let off = Palette::new(false);
    let a = AsicInfo {
        gfx_ip_maj_ver: 8,
        gfx_ip_min_ver: 0,
        max_shader_engines: 4,
        max_sh_per_se: 1,
        max_cu_per_sh: 9,
        max_backends_per_se: 2,
        max_tile_pipes: 8,
        max_texture_channel_caches: 8,
        hi_lo_leakage_threshold: Some(0x1F4),
    };
    let out = render_asic(Some(&a), &off);
    assert_eq!(
        out,
        "── ASIC layout (GFX_Info) \n\n  GFX IP version GFX IP 8.0\n  Shader engines (SE) 4\n  Shader arrays per SE 1\n  Compute units per SH 9\n  Total CUs (max) 36\n  Render backends per SE 2\n  Tile pipes 8\n  Texture channel caches 8\n  Hi/Lo leakage threshold 0x1F4\n"
    );
    assert_eq!(
        render_asic(None, &off),
        "── ASIC layout (GFX_Info) \n\n  ⚠ table not present in this ROM."
    );
}

#[test]
fn gpio_dump_lists_each_pin_role() {
    let off = Palette::new(false);
    let pins = vec![
        GpioPin { gpio_id: 0x0A, gpio_id_name: Some("VDDC regulator".to_string()), gpio_pin_a_index: 0x1E, pin_bit_shift: 3 },
        GpioPin { gpio_id: 200, gpio_id_name: None, gpio_pin_a_index: 7, pin_bit_shift: 0 },
    ];
    let out = render_gpio(Some(&pins), &off);
    assert_eq!(
        out,
        "── GPIO pin roles (GPIO_Pin_LUT) \n\n  ▸ pin id 10 (0x0A) · GPIO index 30 bit shift 3 · VDDC regulator\n  ▸ pin id 200 (0xC8) · GPIO index 7 bit shift 0 · reserved/unused"
    );
    assert_eq!(
        render_gpio(Some(&vec![]), &off),
        "── GPIO pin roles (GPIO_Pin_LUT) \n\n  (no GPIO pin assignments)"
    );
}

#[test]
fn power_dump_shows_each_source_and_its_sensor() {
    let off = Palette::new(false);
    let src = |name: &str, w: u16, raw: u8| PowerSource {
        source_name: name.to_string(),
        sensed_power_w: w,
        sensor_type_name: if raw == 2 { "I2C".to_string() } else { "GPIO".to_string() },
        sensor_type_raw: raw,
        sensor_id: 3,
        sensor_slave_addr: 0x40,
        sensor_reg_index: 0x0A,
        sensor_reg_bit_mask: 0xFF,
        sensor_active_state: 1,
    };
    let out = render_power(Some(&vec![src("PCIe slot", 75, 2), src("ATX 8-pin", 0, 1)]), &off);
    assert_eq!(
        out,
        "── Power sources (connectors / sensors) \n\n  ▸ PCIe slot - sensed 75 W\n      detection: I2C\n      i2c id 3 · slave addr 0x40 · reg index 0x0A · bitmask 0xFF · active state 1\n\n  ▸ ATX 8-pin\n      detection: GPIO\n      gpio id 3 · active state 1\n"
    );
    assert_eq!(render_power(Some(&vec![]), &off), "── Power sources (connectors / sensors) \n\n  (no power source objects)");
}
