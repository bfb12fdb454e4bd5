use prompt_fuzz::config::{
    GenerationModeP, LibConfig, SYSTEM_API_TEMPLATE, SYSTEM_GEN_TEMPLATE, get_sys_gen_template,
    get_user_chat_template, get_user_gen_template,
};
use prompt_fuzz::strutil::{
    find_sub, parse_usize_prefix, replace_all_exec, skip_spaces, str_eq, u64_to_dec,
    u64_to_dec_padded,
};

#[test]
fn decimal_rendering_and_padding() {
    assert_eq!(u64_to_dec(0), "0");
    assert_eq!(u64_to_dec(42), "42");
    assert_eq!(u64_to_dec(10_000), "10000");
    assert_eq!(u64_to_dec_padded(7, 6), "000007");
    assert_eq!(u64_to_dec_padded(123_456, 6), "123456");
    assert_eq!(u64_to_dec_padded(1_234_567, 6), "1234567");
    assert_eq!(u64_to_dec_padded(3, 1), "3");
    assert_eq!(u64_to_dec_padded(3, 0), "3");
}

#[test]
fn string_equality_is_by_characters() {
    assert!(str_eq("abc", "abc"));
    assert!(!str_eq("abc", "abd"));
    assert!(!str_eq("abc", "ab"));
    assert!(str_eq("", ""));
}

#[test]
fn replace_all_scans_left_to_right_without_overlap() {
    assert_eq!(replace_all_exec("aaa", "aa", "b"), "ba");
    assert_eq!(replace_all_exec("hello world", "o", "0"), "hell0 w0rld");
    assert_eq!(replace_all_exec("nothing here", "xyz", "q"), "nothing here");
    assert_eq!(replace_all_exec("", "x", "y"), "");
    assert_eq!(replace_all_exec("abab", "ab", "abab"), "abababab");
}

#[test]
fn find_sub_reports_the_first_occurrence() {
    assert_eq!(find_sub("abcabc", "bc"), Some(1));
    assert_eq!(find_sub("abcabc", "zz"), None);
    assert_eq!(find_sub("abc", "abcd"), None);
    assert_eq!(find_sub("xyz", "xyz"), Some(0));
}

#[test]
fn number_parsing_reads_the_maximal_digit_run() {
    assert_eq!(parse_usize_prefix("123abc", 0), Some(123));
    assert_eq!(parse_usize_prefix("123abc", 1), Some(23));
    assert_eq!(parse_usize_prefix("123abc", 3), None);
    assert_eq!(parse_usize_prefix("007", 0), Some(7));
    assert_eq!(parse_usize_prefix("", 0), None);
    assert_eq!(skip_spaces("   x", 0), 3);
    assert_eq!(skip_spaces("x", 0), 0);
}

#[test]
fn system_templates_follow_the_mode() {
    assert_eq!(get_sys_gen_template(&GenerationModeP::FuzzDriver), SYSTEM_GEN_TEMPLATE);
    assert_eq!(get_sys_gen_template(&GenerationModeP::ApiCombination), SYSTEM_API_TEMPLATE);
}

#[test]
fn user_template_substitutes_the_project() {
    let out = get_user_gen_template("use {project} now; {project} again", "zlib");
    assert_eq!(out, "use zlib now; zlib again");
}

#[test]
fn chat_template_is_assembled_from_the_parts() {
    let base = "Write a driver. Use fmemopen((void *)data, size, \"rb\") for input.";
    let plain = get_user_chat_template(base, None, None, false);
    assert_eq!(plain, base);
    let with_landmark = get_user_chat_template(base, Some("xyz"), None, false);
    assert_eq!(
        with_landmark,
        format!("The input data is: xyz\n\n\n.{base}")
    );
    let with_init = get_user_chat_template(base, None, Some("init();"), false);
    assert_eq!(
        with_init,
        format!("{base}\nThe begining of the fuzz driver is: \ninit();")
    );
    let no_fmemopen = get_user_chat_template(base, None, None, true);
    assert_eq!(
        no_fmemopen,
        "Write a driver. Use fopen(\"input_file\", \"rb\") for input."
    );
}

#[test]
fn null_termination_defaults_to_off() {
    let mut config = LibConfig::default();
    assert!(!config.should_terminate_with_null());
    config.null_term = Some(true);
    assert!(config.should_terminate_with_null());
    config.null_term = Some(false);
    assert!(!config.should_terminate_with_null());
}

#[test]
fn session_settings_expose_their_fields() {
    let config = prompt_fuzz::config::Config::init_test("cjson");
    assert_eq!(config.get_library_name(), "cjson");
    assert_eq!(config.get_sample_num(), 10);
    assert!(matches!(
        config.get_handler_type(),
        prompt_fuzz::config::HandlerType::Openai
    ));
    assert_eq!(config.temperature_milli, 600);
}
