use kvjson::aggregate::convert_single;
use kvjson::aggregate::convert_text;
use kvjson::aggregate::process_folder;
use kvjson::aggregate::process_sub_folders;
use kvjson::aggregate::ConvError;
use kvjson::aggregate::InputFile;
use kvjson::aggregate::SubFolder;
use kvjson::value::to_json;

fn file(name: &str, content: &str) -> InputFile {
    InputFile {
        name: name.as_bytes().to_vec(),
        content: content.as_bytes().to_vec(),
    }
}

fn single(text: &str) -> String {
    let out = convert_single(text.as_bytes(), false).expect("conversion should succeed");
    String::from_utf8(out).expect("output should be UTF-8")
}

fn folder(name: &str, files: Vec<InputFile>, keep_empty: bool) -> Result<String, ConvError> {
    process_folder(name.as_bytes(), &files, keep_empty)
        .map(|out| String::from_utf8(out).expect("output should be UTF-8"))
}

#[test]
fn single_topic_header_becomes_key() {
    let text = "\"K\" \"V\"\n//------------\n// Heroes\n//------------\n\"astro\" \"Astro\"\n";
    assert_eq!(single(text), "{\"K\":\"V\",\"Heroes\":{\"astro\":\"Astro\"}}");
}

#[test]
fn topic_block_with_descriptive_line() {
    let text = "\"K\" \"V\"\n//----\n// Items\n// all purchasable items\n//----\n\"it\" \"Sword\"\n";
    assert_eq!(single(text), "{\"K\":\"V\",\"Items\":{\"it\":\"Sword\"}}");
}

#[test]
fn two_topics_are_siblings() {
    let text = "\"K\" \"V\"\n//--\n// A\n//--\n\"x\" \"1\"\n//--\n// B\n//--\n\"y\" \"2\"\n";
    assert_eq!(single(text), "{\"K\":\"V\",\"A\":{\"x\":\"1\"},\"B\":{\"y\":\"2\"}}");
}

#[test]
fn first_topic_line_is_root_label() {
    // The very first non-ignored line, when topic-like, is consumed as the
    // root's descriptive label and yields no key.
    let text = "lang\n\"AAA\" \"bbb\"\n";
    assert_eq!(single(text), "{\"AAA\":\"bbb\"}");
}

#[test]
fn key_value_without_topic_no_key_injected() {
    let text = "\"AAA\" \"bbb\"";
    assert_eq!(single(text), "{\"AAA\":\"bbb\"}");
}

#[test]
fn nested_sections_with_braces() {
    let text = "\"lang\"\n{\n\"Language\" \"English\"\n\"Tokens\"\n{\n\"a\" \"1\"\n}\n}\n";
    assert_eq!(
        single(text),
        "{\"lang\":{\"Language\":\"English\",\"Tokens\":{\"a\":\"1\"}}}"
    );
}

#[test]
fn topic_inside_braced_section_closed_by_brace() {
    let text = "\"lang\"\n{\n\"Tokens\"\n{\n//--\n// Heroes\n//--\n\"h\" \"1\"\n}\n\"after\" \"2\"\n}\n";
    assert_eq!(
        single(text),
        "{\"lang\":{\"Tokens\":{\"Heroes\":{\"h\":\"1\"}},\"after\":\"2\"}}"
    );
}

#[test]
fn comments_are_dropped() {
    let text = "// a stray comment\n\"a\" \"1\"\n/ also a comment\n\"b\" \"2\"\n";
    assert_eq!(single(text), "{\"a\":\"1\",\"b\":\"2\"}");
}

#[test]
fn wrapped_value_line_is_joined() {
    // A value whose opening quote ends the line continues on the next line.
    let text = "\"KEY\" \"\nrest of value\"\n";
    assert_eq!(single(text), "{\"KEY\":\"rest of value\"}");
}

#[test]
fn skip_conversion_passes_preprocessed_text_through() {
    let text = "\"a\" \"1\"\n//--\n// Topic\n//--\n\"b\" \"2\"";
    let out = convert_single(text.as_bytes(), true).expect("skip mode never fails structurally");
    assert_eq!(
        String::from_utf8(out).expect("output should be UTF-8"),
        "\"a\" \"1\"\nTopic\n\"b\" \"2\""
    );
}

#[test]
fn unbalanced_open_frame_is_reported() {
    let text = "\"lang\"\n{\n\"a\" \"1\"\n";
    assert!(matches!(
        convert_text(text.as_bytes(), true),
        Err(ConvError::UnbalancedNesting)
    ));
}

#[test]
fn unbalanced_extra_close_is_reported() {
    let text = "\"a\" \"1\"\n}\n";
    assert!(matches!(
        convert_text(text.as_bytes(), true),
        Err(ConvError::UnbalancedNesting)
    ));
}

#[test]
fn folder_aggregation_preserves_file_order() {
    let fs = vec![
        file("a.txt", "\"k\" \"v\"\n//--\n// TA\n//--\n\"x\" \"1\"\n"),
        file("b.txt", "\"k\" \"v\"\n//--\n// TB\n//--\n\"x\" \"2\"\n"),
        file("c.txt", "\"k\" \"v\"\n//--\n// TC\n//--\n\"x\" \"3\"\n"),
    ];
    let out = folder("loc", fs, false).expect("folder should aggregate");
    assert_eq!(
        out,
        "{\"category\":\"loc\",\"languages\":[\
         {\"k\":\"v\",\"TA\":{\"x\":\"1\"}},\
         {\"k\":\"v\",\"TB\":{\"x\":\"2\"}},\
         {\"k\":\"v\",\"TC\":{\"x\":\"3\"}}]}"
    );
}

#[test]
fn empty_file_dropped_when_not_keeping() {
    let fs = vec![file("only.txt", "\"AAA\" \"bbb\"")];
    let out = folder("loc", fs, false).expect("folder should aggregate");
    assert_eq!(out, "{\"category\":\"loc\",\"languages\":[]}");
}

#[test]
fn empty_file_kept_when_keeping() {
    let fs = vec![file("only.txt", "\"AAA\" \"bbb\"")];
    let out = folder("loc", fs, true).expect("folder should aggregate");
    assert_eq!(out, "{\"category\":\"loc\",\"languages\":[{\"AAA\":\"bbb\"}]}");
}

#[test]
fn content_free_file_kept_as_empty_object() {
    let fs = vec![file("empty.txt", "")];
    let out = folder("loc", fs, true).expect("folder should aggregate");
    assert_eq!(out, "{\"category\":\"loc\",\"languages\":[{}]}");
}

#[test]
fn citadel_mods_repair_synthesizes_missing_section() {
    let fs = vec![file(
        "citadel_mods_english.txt",
        "\"Tokens\"\n{\n\"AmmoPerSoul\" \"5\"\n}",
    )];
    let out = folder("citadel_mods", fs, true).expect("folder should aggregate");
    assert_eq!(
        out,
        "{\"category\":\"citadel_mods\",\"languages\":[\
         {\"Tokens\":{\"Upgrades: Weapon\":{\"AmmoPerSoul\":\"5\"}}}]}"
    );
}

#[test]
fn repair_leaves_present_section_alone() {
    // The expected section arrives as a topic header inside the parent;
    // with it present, the indicator child stays where it is.
    let text =
        "\"Tokens\"\n{\n\"AmmoPerSoul\" \"5\"\n//--\n// Upgrades: Weapon\n//--\n\"Spirit\" \"3\"\n}";
    assert_eq!(
        single(text),
        "{\"Tokens\":{\"AmmoPerSoul\":\"5\",\"Upgrades: Weapon\":{\"Spirit\":\"3\"}}}"
    );
}

#[test]
fn repair_modifier_rule_uses_its_own_section() {
    let text = "\"Tokens\"\n{\n\"MODIFIER_X\" \"state\"\n}";
    // The indicator is the exact key, not a prefix: no repair fires here.
    assert_eq!(single(text), "{\"Tokens\":{\"MODIFIER_X\":\"state\"}}");
    let text2 = "\"Tokens\"\n{\n\"MODIFIER\" \"state\"\n}";
    assert_eq!(
        single(text2),
        "{\"Tokens\":{\"Unit states (that we want to show)\":{\"MODIFIER\":\"state\"}}}"
    );
}

#[test]
fn wrong_extension_fails_whole_folder() {
    let fs = vec![
        file("good.txt", "\"a\" \"1\"\n"),
        file("bad.json", "{}"),
        file("late.txt", "\"b\" \"2\"\n"),
    ];
    assert_eq!(folder("loc", fs, true), Err(ConvError::UnexpectedFileType));
}

#[test]
fn sub_folders_require_localization_root() {
    let subs = vec![SubFolder {
        name: b"citadel_gc".to_vec(),
        files: vec![file("a.txt", "\"a\" \"1\"\n")],
    }];
    assert_eq!(
        process_sub_folders(b"not_localization", &subs, true),
        Err(ConvError::InvalidSubFolderRoot)
    );
}

#[test]
fn sub_folders_aggregate_in_given_order() {
    let subs = vec![
        SubFolder {
            name: b"one".to_vec(),
            files: vec![file("a.txt", "\"a\" \"1\"\n")],
        },
        SubFolder {
            name: b"two".to_vec(),
            files: vec![file("b.txt", "\"b\" \"2\"\n")],
        },
    ];
    let out = process_sub_folders(b"localization", &subs, true).expect("should aggregate");
    assert_eq!(
        String::from_utf8(out).expect("output should be UTF-8"),
        "{\"folders\":[\"one\",\"two\"],\
         \"one\":{\"category\":\"one\",\"languages\":[{\"a\":\"1\"}]},\
         \"two\":{\"category\":\"two\",\"languages\":[{\"b\":\"2\"}]}}"
    );
}

#[test]
fn sub_folder_error_propagates() {
    let subs = vec![SubFolder {
        name: b"one".to_vec(),
        files: vec![file("bad.cfg", "\"a\" \"1\"\n")],
    }];
    assert_eq!(
        process_sub_folders(b"localization", &subs, true),
        Err(ConvError::UnexpectedFileType)
    );
}

#[test]
fn serializer_emits_scalars() {
    let v = kvjson::value::Value::Arr(vec![
        kvjson::value::Value::Bool(true),
        kvjson::value::Value::Bool(false),
        kvjson::value::Value::Null,
    ]);
    assert_eq!(to_json(&v), b"[true,false,null]".to_vec());
}

#[test]
fn output_is_valid_json_for_nested_input() {
    let text = "\"lang\"\n{\n\"Tokens\"\n{\n//--\n// Heroes\n//--\n\"h\" \"A/B\"\n}\n}\n";
    let out = single(text);
    let parsed: serde_json::Value = serde_json::from_str(&out).expect("output must parse as JSON");
    assert_eq!(parsed["lang"]["Tokens"]["Heroes"]["h"], "A/B");
}

#[test]
fn bracketed_array_holds_object_elements() {
    let text = "\"K\"\n[\n{\n\"a\" \"1\"\n}\n{\n\"b\" \"2\"\n}\n]\n";
    assert_eq!(single(text), "{\"K\":[{\"a\":\"1\"},{\"b\":\"2\"}]}");
}

#[test]
fn duplicate_keys_are_both_emitted_in_order() {
    let text = "\"a\" \"1\"\n\"a\" \"2\"\n";
    assert_eq!(single(text), "{\"a\":\"1\",\"a\":\"2\"}");
}
