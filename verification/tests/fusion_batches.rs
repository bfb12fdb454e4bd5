use prompt_fuzz::fusion::{CNTGProgram, FusedCore, get_core_path};

fn batcher(n: usize, batch: usize) -> CNTGProgram {
    let programs: Vec<String> = (0..n).map(|i| format!("seed_{i}.cc")).collect();
    CNTGProgram::new(programs, batch, "zlib".to_string(), "#include <iostream>".to_string())
}

#[test]
fn transform_names_members_with_padded_ordinals() {
    let b = batcher(3, 2);
    let names = b.transform();
    assert_eq!(names, vec!["id_000000.cc", "id_000001.cc", "id_000002.cc"]);
}

#[test]
fn seven_programs_batch_three_gives_sizes_3_3_1() {
    let b = batcher(7, 3);
    let cores: Vec<FusedCore> = b.synthesis();
    assert_eq!(cores.len(), 3);
    assert_eq!(cores[0].member_ids, vec![0, 1, 2]);
    assert_eq!(cores[1].member_ids, vec![3, 4, 5]);
    assert_eq!(cores[2].member_ids, vec![6]);
    // each core.cc references only its own batch's ordinals, and the
    // suffixes within one core are unique.
    assert!(cores[0].core_content.contains("test_zlib_api_sequence_2();"));
    assert!(!cores[0].core_content.contains("test_zlib_api_sequence_3"));
    assert!(cores[1].core_content.contains("test_zlib_api_sequence_3();"));
    assert!(!cores[1].core_content.contains("test_zlib_api_sequence_6"));
    assert!(cores[2].core_content.contains("test_zlib_api_sequence_6();"));
    for core in &cores {
        for (i, a) in core.member_ids.iter().enumerate() {
            for b2 in core.member_ids.iter().skip(i + 1) {
                assert_ne!(a, b2);
            }
        }
    }
}

#[test]
fn five_programs_batch_two_end_to_end() {
    let b = CNTGProgram::new(
        (0..5).map(|i| format!("p{i}.cc")).collect(),
        2,
        "zlib".to_string(),
        "#include <iostream>".to_string(),
    );
    let cores = b.synthesis();
    assert_eq!(cores.len(), 3);
    assert_eq!(cores[0].member_ids, vec![0, 1]);
    assert_eq!(cores[1].member_ids, vec![2, 3]);
    assert_eq!(cores[2].member_ids, vec![4]);
    assert_eq!(cores[0].dir_name, "Core_000");
    assert_eq!(cores[1].dir_name, "Core_001");
    assert_eq!(cores[2].dir_name, "Core_002");
    let expected = "#include <iostream>\n\n\
                    int test_zlib_api_sequence_0();\n\
                    int test_zlib_api_sequence_1();\n\n\n\
                    int main(int argc, char* argv[])\n{\n\
                    \tstd::cout << \"Running program 0...\" << std::endl;\n\
                    \ttest_zlib_api_sequence_0();\n\
                    \tstd::cout << \"Running program 1...\" << std::endl;\n\
                    \ttest_zlib_api_sequence_1();\n\
                    \treturn 0;\n}\n";
    assert_eq!(cores[0].core_content, expected);
    // entry_0 is called before entry_1 in main.
    let main_pos = cores[0].core_content.find("int main").unwrap();
    let call0 = cores[0].core_content[main_pos..].find("test_zlib_api_sequence_0();").unwrap();
    let call1 = cores[0].core_content[main_pos..].find("test_zlib_api_sequence_1();").unwrap();
    assert!(call0 < call1);
}

#[test]
fn core_dir_and_core_path() {
    let b = batcher(1, 1);
    assert_eq!(b.get_core_dir(0), "Core_000");
    assert_eq!(b.get_core_dir(12), "Core_012");
    assert_eq!(b.get_core_dir(1234), "Core_1234");
    assert_eq!(get_core_path("out/Core_000"), "out/Core_000/core");
}

#[test]
fn synthesis_batch_of_empty_batch() {
    let b = batcher(0, 3);
    let cores = b.synthesis();
    assert_eq!(cores.len(), 0);
    let text = b.synthesis_batch(&vec![]);
    assert_eq!(
        text,
        "#include <iostream>\n\n\n\nint main(int argc, char* argv[])\n{\n\treturn 0;\n}\n"
    );
}

#[test]
fn change_driver_id_renames_every_occurrence() {
    let b = batcher(1, 1);
    let src = "int test_zlib_api_sequence();\nint main() { test_zlib_api_sequence(); return 0; }\n";
    let renamed = b.change_driver_id(src, 7);
    assert_eq!(
        renamed,
        "int test_zlib_api_sequence_7();\nint main() { test_zlib_api_sequence_7(); return 0; }\n"
    );
}

#[test]
fn renaming_then_stripping_recovers_the_original() {
    // The rename and the reverse suffix strip are mutually inverse on a
    // driver that does not already contain the suffixed name.
    let b = batcher(1, 1);
    let src = "void test_zlib_api_sequence() {\n  deflateInit();\n  test_zlib_api_sequence_helper();\n}\n";
    let renamed = b.change_driver_id(src, 3);
    assert!(renamed.contains("test_zlib_api_sequence_3()"));
    let stripped = renamed.replace("test_zlib_api_sequence_3", "test_zlib_api_sequence");
    assert_eq!(stripped, src);
}
