use xybrid::catalog::{
    gender_mark, group_by_key, is_tts_task, language_flag, language_or_unknown, model_matches,
    search_models, ModelSummary,
};

fn model(id: &str, family: &str, task: &str, description: &str) -> ModelSummary {
    ModelSummary {
        id: id.to_string(),
        family: family.to_string(),
        task: task.to_string(),
        description: description.to_string(),
    }
}

fn registry() -> Vec<ModelSummary> {
    vec![
        model("kokoro-82m", "Kokoro", "text-to-speech", "Multi-voice TTS"),
        model("whisper-tiny", "Whisper", "speech-recognition", "Small ASR model"),
        model("llama-3-1b", "Llama", "text-generation", "Compact LLM"),
        model("kitten-tts", "Kitten", "tts", "Tiny voice model"),
    ]
}

#[test]
fn search_ignores_case() {
    let models = registry();
    assert_eq!(search_models(&models, "LLAMA"), vec![2]);
    assert_eq!(search_models(&models, "tts"), vec![0, 3]);
    assert_eq!(search_models(&models, "speech"), vec![0, 1]);
    assert_eq!(search_models(&models, "nothing-like-this"), Vec::<usize>::new());
    assert_eq!(search_models(&models, ""), vec![0, 1, 2, 3]);
}

#[test]
fn model_matches_any_field() {
    let m = model("ID-One", "Fam", "Task", "Describes Things");
    assert!(model_matches(&m, "id-one"));
    assert!(model_matches(&m, "FAM"));
    assert!(model_matches(&m, "task"));
    assert!(model_matches(&m, "things"));
    assert!(!model_matches(&m, "other"));
}

#[test]
fn tts_tasks_recognised() {
    assert!(is_tts_task("TTS"));
    assert!(is_tts_task("Text-To-Speech"));
    assert!(is_tts_task("multilingual-tts"));
    assert!(!is_tts_task("speech-recognition"));
    assert!(!is_tts_task(""));
}

#[test]
fn groups_follow_key_order() {
    let keys: Vec<String> =
        ["tts", "asr", "tts", "llm", "asr"].iter().map(|s| s.to_string()).collect();
    let groups = group_by_key(&keys);
    let shown: Vec<(String, Vec<usize>)> =
        groups.into_iter().map(|g| (g.key, g.members)).collect();
    assert_eq!(
        shown,
        vec![
            ("asr".to_string(), vec![1, 4]),
            ("llm".to_string(), vec![3]),
            ("tts".to_string(), vec![0, 2]),
        ]
    );
    assert!(group_by_key(&Vec::new()).is_empty());
}

#[test]
fn voices_without_language_are_unknown() {
    assert_eq!(language_or_unknown(&None), "unknown");
    assert_eq!(language_or_unknown(&Some("en-US".to_string())), "en-US");
}

#[test]
fn flags_by_language() {
    assert_eq!(language_flag("en-US"), "🇺🇸");
    assert_eq!(language_flag("en-GB"), "🇬🇧");
    assert_eq!(language_flag("ja-JP"), "🇯🇵");
    assert_eq!(language_flag("zh-CN"), "🇨🇳");
    assert_eq!(language_flag("de-DE"), "🇩🇪");
    assert_eq!(language_flag("fr-FR"), "🇫🇷");
    assert_eq!(language_flag("es-ES"), "🇪🇸");
    assert_eq!(language_flag("unknown"), "🌐");
    assert_eq!(language_flag("en-us"), "🌐");
}

#[test]
fn gender_marks() {
    assert_eq!(gender_mark(Some("female")), "♀");
    assert_eq!(gender_mark(Some("male")), "♂");
    assert_eq!(gender_mark(Some("other")), " ");
    assert_eq!(gender_mark(None), " ");
}
