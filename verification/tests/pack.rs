use xybrid::pack::{bundle_file_name, plan_bundle_files};

fn strings(names: &[&str]) -> Vec<String> {
    names.iter().map(|s| s.to_string()).collect()
}

#[test]
fn plan_adds_first_of_each_name() {
    let names = strings(&["a.bin", "b.onnx", "a.bin", "", "c", "b.onnx", "a.bin"]);
    let plan = plan_bundle_files(&names);
    assert_eq!(plan.files_to_add, vec![0, 1, 4]);
    assert_eq!(plan.duplicates, strings(&["a.bin", "b.onnx"]));
}

#[test]
fn plan_of_no_files_is_empty() {
    let plan = plan_bundle_files(&Vec::new());
    assert!(plan.files_to_add.is_empty());
    assert!(plan.duplicates.is_empty());
}

#[test]
fn plan_skips_empty_names() {
    let plan = plan_bundle_files(&strings(&["", "", "x"]));
    assert_eq!(plan.files_to_add, vec![2]);
    assert!(plan.duplicates.is_empty());
}

#[test]
fn duplicates_sorted_as_strings_sort() {
    let names = strings(&["z", "é", "Z", "a", "z", "a", "é", "Z", "ab", "ab", "z"]);
    let plan = plan_bundle_files(&names);
    let mut expected = strings(&["z", "é", "Z", "a", "ab", "z"]);
    expected.sort();
    expected.dedup();
    assert_eq!(plan.duplicates, expected);
    assert_eq!(plan.duplicates, strings(&["Z", "a", "ab", "z", "é"]));
    assert_eq!(plan.files_to_add, vec![0, 1, 2, 3, 8]);
}

#[test]
fn bundle_file_name_joins_parts() {
    assert_eq!(bundle_file_name("kokoro-82m", "1.0", "universal"), "kokoro-82m-1.0-universal.xyb");
    assert_eq!(bundle_file_name("", "", ""), "--.xyb");
}

#[test]
fn plan_depends_only_on_the_names_offered() {
    let a = plan_bundle_files(&strings(&["x", "y", "x", "", "z", "y"]));
    let b = plan_bundle_files(&strings(&["y", "", "z", "x", "y", "x"]));
    assert_eq!(a.files_to_add.len(), b.files_to_add.len());
    assert_eq!(a.duplicates, b.duplicates);
    assert_eq!(a.duplicates, strings(&["x", "y"]));
}
