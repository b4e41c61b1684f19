use ferrum_graph::decimal::u64_to_decimal;
use ferrum_graph::support::{
    check_support_layers, find_memorytype_index, read_shader_from_bytes,
    select_supported_api_version, total_vram, HeapInfo, ShaderError, API_VERSION_1_0,
};

#[test]
fn baseline_version_matches_graphics_api() {
    assert_eq!(API_VERSION_1_0, ash::vk::API_VERSION_1_0);
}

#[test]
fn test_select_supported_api_version() {
    let requested = ash::vk::API_VERSION_1_2;
    let available = ash::vk::API_VERSION_1_0;
    let result = select_supported_api_version(requested, Some(available));
    assert_eq!(result, ash::vk::API_VERSION_1_0);

    let requested2 = ash::vk::API_VERSION_1_0;
    let available2 = ash::vk::API_VERSION_1_2;
    let result2 = select_supported_api_version(requested2, Some(available2));
    assert_eq!(result2, ash::vk::API_VERSION_1_0);
}

#[test]
fn no_version_report_assumes_baseline() {
    assert_eq!(select_supported_api_version(ash::vk::API_VERSION_1_3, None), API_VERSION_1_0);
}

#[test]
fn test_check_support_layers() {
    let available = vec!["VK_LAYER_KHRONOS_validation".to_string()];

    let required = vec!["VK_LAYER_KHRONOS_validation".to_string()];
    assert!(check_support_layers(&required, &available).is_ok());

    let required2 = vec!["VK_LAYER_MINECRAFT_validation".to_string()];
    let err = check_support_layers(&required2, &available);
    assert_eq!(err, Err("VK_LAYER_MINECRAFT_validation".to_string()));
}

#[test]
fn memory_type_selection_picks_first_match() {
    // Types 0 and 2 are allowed by the requirement mask; only type 2 has
    // both wanted property bits.
    let type_flags = vec![0b01u32, 0b11u32, 0b11u32];
    assert_eq!(find_memorytype_index(0b101, &type_flags, 0b11), Some(2));
    assert_eq!(find_memorytype_index(0b111, &type_flags, 0b11), Some(1));
    assert_eq!(find_memorytype_index(0b001, &type_flags, 0b10), None);
    assert_eq!(find_memorytype_index(0b101, &type_flags, 0b01), Some(0));
}

#[test]
fn vram_sums_device_local_heaps() {
    let heaps = vec![
        HeapInfo { size: 1024, device_local: true },
        HeapInfo { size: 512, device_local: false },
        HeapInfo { size: 2048, device_local: true },
    ];
    assert_eq!(total_vram(&heaps), 3072);
    assert_eq!(total_vram(&Vec::new()), 0);
}

#[test]
fn spirv_words_little_endian() {
    // Magic, then the word 0x01020304, both little-endian.
    let bytes = vec![0x03u8, 0x02, 0x23, 0x07, 0x04, 0x03, 0x02, 0x01];
    let words = read_shader_from_bytes(&bytes).unwrap();
    assert_eq!(words, vec![0x0723_0203u32, 0x0102_0304u32]);
}

#[test]
fn spirv_words_big_endian() {
    let bytes = vec![0x07u8, 0x23, 0x02, 0x03, 0x01, 0x02, 0x03, 0x04];
    let words = read_shader_from_bytes(&bytes).unwrap();
    assert_eq!(words, vec![0x0723_0203u32, 0x0102_0304u32]);
}

#[test]
fn spirv_rejects_misaligned_input() {
    let bytes = vec![0x03u8, 0x02, 0x23];
    assert_eq!(read_shader_from_bytes(&bytes), Err(ShaderError::Misaligned));
}

#[test]
fn spirv_rejects_missing_magic() {
    let bytes = vec![0u8, 0, 0, 0];
    assert_eq!(read_shader_from_bytes(&bytes), Err(ShaderError::MissingMagic));
    let empty: Vec<u8> = Vec::new();
    assert_eq!(read_shader_from_bytes(&empty), Err(ShaderError::MissingMagic));
}

#[test]
fn decimal_rendering() {
    assert_eq!(u64_to_decimal(0), "0");
    assert_eq!(u64_to_decimal(7), "7");
    assert_eq!(u64_to_decimal(12345), "12345");
    assert_eq!(u64_to_decimal(u64::MAX), "18446744073709551615");
}
