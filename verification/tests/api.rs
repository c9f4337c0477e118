use voca::api::{
    choice_content, groq_api_key, is_success, ocr_request, other_error, picture_request, read_answer,
    transcription_request, translation_request, Service, SpeechModel,
};

#[test]
fn model_names_are_read() {
    assert_eq!(SpeechModel::parse("groq"), Ok(SpeechModel::GroqWhisper));
    assert_eq!(SpeechModel::parse(" Groq-Whisper\n"), Ok(SpeechModel::GroqWhisper));
    assert_eq!(SpeechModel::parse("GROQ WHISPER"), Ok(SpeechModel::GroqWhisper));
    assert_eq!(SpeechModel::parse("groq_whisper"), Ok(SpeechModel::GroqWhisper));
    assert_eq!(SpeechModel::parse("\t gRoQ_wHiSpEr \u{3000}"), SpeechModel::parse("groq-whisper"));
    assert_eq!(SpeechModel::parse(" A-b "), SpeechModel::parse("a_B"));
}

#[test]
fn other_model_names_are_refused() {
    assert_eq!(
        SpeechModel::parse(" Deep-Speech "),
        Err("Unsupported speech model `deep_speech`".to_string())
    );
    assert_eq!(SpeechModel::parse(""), Err("Unsupported speech model ``".to_string()));
    assert!(SpeechModel::parse("whisper-large-v3").is_err());
}

#[test]
fn model_properties() {
    let m = SpeechModel::default();
    assert_eq!(m, SpeechModel::GroqWhisper);
    assert_eq!(m.api_name(), "whisper-large-v3");
    assert_eq!(m.display_name(), "Groq Whisper");
    assert_eq!(m.settings_choice(), m);
    assert_eq!(m.preferred_sample_rate_hz(), 16_000);
    assert_eq!(SpeechModel::parse(m.display_name()), Ok(m));
}

#[test]
fn key_is_trimmed_and_must_not_be_blank() {
    assert_eq!(groq_api_key(Some("  gsk-1\r\n")).unwrap(), "gsk-1");
    let missing = "Groq API Key not found. Please set it in the Settings menu.";
    assert_eq!(groq_api_key(Some(" \n\t")).unwrap_err().message, missing);
    assert_eq!(groq_api_key(None).unwrap_err().message, missing);
}

#[test]
fn other_error_keeps_its_message() {
    assert_eq!(other_error("x".to_string()).message, "x");
}

fn pair(a: &str, b: &str) -> (String, String) {
    (a.to_string(), b.to_string())
}

#[test]
fn transcription_requests_tell_the_language() {
    let q = transcription_request("k", vec![1, 2, 3], "en").unwrap();
    assert_eq!(q.url, "https://api.groq.com/openai/v1/audio/transcriptions");
    assert_eq!(q.api_key, "k");
    assert_eq!(q.file_field, "file");
    assert_eq!(q.file_name, "audio.wav");
    assert_eq!(q.mime, "audio/wav");
    assert_eq!(q.file, vec![1, 2, 3]);
    assert_eq!(
        q.fields,
        vec![
            pair("model", "whisper-large-v3"),
            pair("response_format", "json"),
            pair("language", "en"),
            pair("prompt", "This audio is in English script."),
        ]
    );
    let q = transcription_request("k", vec![1, 2, 3], "hi").unwrap();
    assert_eq!(q.fields[2], pair("language", "hi"));
    assert_eq!(q.fields[3], pair("prompt", "यह ऑडियो हिंदी में है।"));
    let q = transcription_request("k", vec![1, 2, 3], "fr").unwrap();
    assert_eq!(q.fields.len(), 2);
}

#[test]
fn translation_requests_have_no_language() {
    let q = translation_request("k", vec![4, 5]).unwrap();
    assert_eq!(q.url, "https://api.groq.com/openai/v1/audio/translations");
    assert_eq!(q.file, vec![4, 5]);
    assert_eq!(
        q.fields,
        vec![pair("model", "whisper-large-v3"), pair("response_format", "json")]
    );
}

#[test]
fn requests_need_a_key() {
    assert_eq!(transcription_request("", vec![1, 2, 3], "hi").unwrap_err().message, "Groq API Key is empty");
    assert_eq!(translation_request("", vec![4, 5]).unwrap_err().message, "Groq API Key is empty");
    assert_eq!(ocr_request("", &vec![1]).unwrap_err().message, "Groq API Key is empty");
}

#[test]
fn picture_requests_hold_the_picture_as_base64() {
    let q = ocr_request("k", &vec![0, 1, 2, 255]).unwrap();
    assert_eq!(q.url, "https://api.groq.com/openai/v1/chat/completions");
    assert_eq!(q.model, "meta-llama/llama-4-scout-17b-16e-instruct");
    assert_eq!(q.role, "user");
    assert!(q.prompt.starts_with("Read all the text present in the image"));
    assert_eq!(q.image_url, "data:image/png;base64,AAEC/w==");
    assert_eq!(ocr_request("k", &vec![]).unwrap().image_url, "data:image/png;base64,");
    assert_eq!(picture_request("k", "QQ==").unwrap().image_url, "data:image/png;base64,QQ==");
}

#[test]
fn success_codes() {
    assert!(!is_success(199));
    assert!(is_success(200));
    assert!(is_success(299));
    assert!(!is_success(300));
    assert!(!is_success(401));
}

#[test]
fn status_errors_name_the_service() {
    assert_eq!(
        Service::Transcription.status_error("401 Unauthorized", "no").message,
        "Groq API Error 401 Unauthorized: no"
    );
    assert_eq!(
        Service::Translation.status_error("500 Internal Server Error", "").message,
        "Groq Translation API Error 500 Internal Server Error: "
    );
    assert_eq!(
        Service::Ocr.status_error("429 Too Many Requests", "{}").message,
        "Groq OCR API Error 429 Too Many Requests: {}"
    );
}

#[test]
fn transcripts_are_taken_from_replies() {
    let s = Service::Transcription;
    assert_eq!(s.reply_text(br#"{"text":"  hello there \n"}"#).unwrap(), "hello there");
    assert_eq!(s.reply_text(br#"{"text":7}"#).unwrap(), "");
    assert_eq!(s.reply_text(br#"{"words":"x"}"#).unwrap(), "");
    assert_eq!(s.reply_text(br#"["text"]"#).unwrap(), "");
    assert_eq!(Service::Translation.reply_text(br#"{"text":"hi"}"#).unwrap(), "hi");
}

#[test]
fn picture_texts_are_taken_from_replies() {
    let s = Service::Ocr;
    let body = br#"{"choices":[{"message":{"content":" a b "}},{"message":{"content":"c"}}]}"#;
    assert_eq!(s.reply_text(body).unwrap(), "a b");
    assert_eq!(s.reply_text(br#"{"choices":[]}"#).unwrap(), "");
    assert_eq!(s.reply_text(br#"{"choices":[{"message":{}}]}"#).unwrap(), "");
    assert_eq!(s.reply_text(br#"{"text":"hi"}"#).unwrap(), "");
    let object = br#"{"choices":{"0":{"message":{"content":"x"}}}}"#;
    assert_eq!(s.reply_text(object).unwrap(), "");
}

#[test]
fn bodies_that_are_no_json_are_errors() {
    for s in [Service::Transcription, Service::Translation, Service::Ocr] {
        let e = s.reply_text(b"<html>").unwrap_err().message;
        assert_eq!(e, "error decoding response body: expected value at line 1 column 1");
    }
}

#[test]
fn answers_are_trimmed() {
    assert_eq!(read_answer(Ok(Some(" a ".to_string()))).unwrap(), "a");
    assert_eq!(read_answer(Ok(None)).unwrap(), "");
    assert_eq!(
        read_answer(Err("bad".to_string())).unwrap_err().message,
        "error decoding response body: bad"
    );
}

#[test]
fn choices_must_be_a_list() {
    let found = || Ok(Some("a".to_string()));
    assert_eq!(choice_content(found(), true), found());
    assert_eq!(choice_content(found(), false), Ok(None));
    assert_eq!(choice_content(Err("e".to_string()), false), Err("e".to_string()));
}
