use audiobook_pipeline::config::Config;
use audiobook_pipeline::meta::metadata_json_string;
use audiobook_pipeline::naming::{chapter_dir_name, chunk_file_name, sanitize_filename, zero_pad3};

#[test]
fn invalid_filename_chars_become_underscores() {
    assert_eq!(sanitize_filename("a<b>c:d\"e/f\\g|h?i*j"), "a_b_c_d_e_f_g_h_i_j");
    assert_eq!(sanitize_filename("Plain Title 7"), "Plain Title 7");
}

#[test]
fn numeric_prefixes_are_zero_padded() {
    assert_eq!(String::from_iter(zero_pad3(0)), "000");
    assert_eq!(String::from_iter(zero_pad3(7)), "007");
    assert_eq!(String::from_iter(zero_pad3(42)), "042");
    assert_eq!(String::from_iter(zero_pad3(999)), "999");
    assert_eq!(String::from_iter(zero_pad3(1234)), "1234");
}

#[test]
fn padded_prefixes_sort_lexically_as_numbers() {
    let nums: Vec<u64> = vec![10, 2, 0, 999, 100];
    let mut names: Vec<String> = nums.iter().map(|n| String::from_iter(zero_pad3(*n))).collect();
    names.sort();
    assert_eq!(names, vec!["000", "002", "010", "100", "999"]);
}

#[test]
fn chapter_directory_name() {
    assert_eq!(chapter_dir_name(3, "My: Title"), "003_My_ Title");
    assert_eq!(chapter_dir_name(0, "Intro"), "000_Intro");
}

#[test]
fn chunk_file_name_layout() {
    assert_eq!(chunk_file_name(7, "Intro", "ogg"), "007_Intro.ogg");
    assert_eq!(chunk_file_name(0, "A/B", "wav"), "000_A_B.wav");
}

#[test]
fn metadata_record_is_exact() {
    let cfg = Config { chunk_size: 4, ..Config::default() };
    let json = metadata_json_string("T", 1, 3, 2, &cfg);
    let expected = "{\"title\":\"T\",\"order\":1,\"word_count\":3,\"chunks\":2,\"config\":{\"sample_rate\":22050,\"voice_speed_centi\":100,\"voice_pitch_centi\":100,\"output_format\":\"vorbis\",\"quality_centi\":70,\"chunk_size\":4,\"max_workers\":1,\"cache_enabled\":true,\"preprocessing_aggressive\":true}}";
    assert_eq!(json, expected);
}

#[test]
fn metadata_title_is_escaped() {
    let cfg = Config::default();
    let json = metadata_json_string("a\"b\\c\nd", 0, 0, 0, &cfg);
    assert!(json.starts_with("{\"title\":\"a\\\"b\\\\c\\nd\",\"order\":0,"));
    let json = metadata_json_string("x\u{1}y", 0, 0, 0, &cfg);
    assert!(json.starts_with("{\"title\":\"x\\u0001y\","));
}
