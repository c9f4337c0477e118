//! Requests to the Groq service and the reading of its replies.
use crate::text::{
    all_white, ascii_lower, is_white, only_capital_letters_are_lowered,
    outer_white_space_is_trimmed, replace_char, same_text, swapped, to_lower, trim, trimmed,
    trimmed_end, trimmed_start, trimming_takes_only_outer_white_space,
};
use base64::Engine;
use vstd::prelude::*;

verus! {

/// The speech models that the service can use.
#[derive(Debug, Clone, Copy, PartialEq, Eq, Structural)]
pub enum SpeechModel {
    GroqWhisper,
}

impl Default for SpeechModel {
    fn default() -> (r: Self)
        ensures
            r == SpeechModel::GroqWhisper,
    {
        SpeechModel::GroqWhisper
    }
}

/// A model name as it is compared: trimmed, in lower case, with `_` for `-`.
pub open spec fn normalized(value: Seq<char>) -> Seq<char> {
    trimmed(value).map_values(|c: char| ascii_lower(c)).map_values(|c: char| swapped(c, '-', '_'))
}

/// The model that a name stands for, if it stands for one.
pub open spec fn model_named(value: Seq<char>) -> Option<SpeechModel> {
    let n = normalized(value);
    if n == "groq"@ || n == "groq_whisper"@ || n == "groq whisper"@ {
        Some(SpeechModel::GroqWhisper)
    } else {
        None
    }
}

impl SpeechModel {
    /// The name under which a model is shown.
    pub open spec fn shown_name(self) -> Seq<char> {
        "Groq Whisper"@
    }

    /// The sample rate at which a model wants its audio.
    pub open spec fn wanted_rate(self) -> u32 {
        16_000
    }

    /// Reads a model name.
    pub fn parse(value: &str) -> (r: Result<Self, String>)
        ensures
            r matches Ok(m) ==> model_named(value@) == Some(m),
            r is Ok <==> model_named(value@) is Some,
            r matches Err(e) ==> e@ == "Unsupported speech model `"@ + normalized(value@) + "`"@,
    {
        let name: String = replace_char(to_lower(trim(value).as_str()).as_str(), '-', '_');
        if same_text(name.as_str(), "groq") || same_text(name.as_str(), "groq_whisper")
            || same_text(name.as_str(), "groq whisper") {
            Ok(SpeechModel::GroqWhisper)
        } else {
            let mut e: String = "Unsupported speech model `".to_owned();
            e.append(name.as_str());
            e.append("`");
            Err(e)
        }
    }

    /// The name of the model in the Groq interface.
    pub fn api_name(self) -> (r: &'static str)
        ensures
            r@ == "whisper-large-v3"@,
    {
        match self {
            SpeechModel::GroqWhisper => "whisper-large-v3",
        }
    }

    /// The name under which the model is shown.
    pub fn display_name(self) -> (r: &'static str)
        ensures
            r@ == self.shown_name(),
    {
        match self {
            SpeechModel::GroqWhisper => "Groq Whisper",
        }
    }

    /// The choice that the settings offer for this model.
    pub fn settings_choice(self) -> (r: Self)
        ensures
            r == self,
    {
        self
    }

    /// The sample rate at which the model wants its audio.
    pub fn preferred_sample_rate_hz(self) -> (r: u32)
        ensures
            r == self.wanted_rate(),
    {
        match self {
            SpeechModel::GroqWhisper => 16_000,
        }
    }
}

/// The name under which a model is shown is a name that is read as that model.
pub proof fn shown_name_is_read_back(m: SpeechModel)
    ensures
        model_named(m.shown_name()) == Some(m),
{
    reveal_strlit("Groq Whisper");
    reveal_strlit("groq whisper");
    let s = "Groq Whisper"@;
    assert(trimmed(s) == s);
    assert(normalized(s) =~= "groq whisper"@);
}

/// A character as it is compared in a model name.
pub open spec fn compared(c: char) -> char {
    swapped(ascii_lower(c), '-', '_')
}

/// A text with each character as it is compared.
pub open spec fn folded(s: Seq<char>) -> Seq<char> {
    s.map_values(|c: char| compared(c))
}

proof fn lemma_folded_start(s: Seq<char>)
    ensures
        folded(trimmed_start(s)) == trimmed_start(folded(s)),
    decreases s.len(),
{
    if s.len() > 0 {
        assert(is_white(folded(s)[0]) == is_white(s[0]));
        if is_white(s[0]) {
            lemma_folded_start(s.drop_first());
            assert(folded(s).drop_first() =~= folded(s.drop_first()));
        }
    }
}

proof fn lemma_folded_end(s: Seq<char>)
    ensures
        folded(trimmed_end(s)) == trimmed_end(folded(s)),
    decreases s.len(),
{
    if s.len() > 0 {
        assert(folded(s).last() == compared(s.last()));
        assert(is_white(folded(s).last()) == is_white(s.last()));
        if is_white(s.last()) {
            lemma_folded_end(s.drop_last());
            assert(folded(s).drop_last() =~= folded(s.drop_last()));
        }
    }
}

/// A model name is read alike whatever the case of its letters, its hyphens or underscores, and
/// the white space around it.
pub proof fn model_names_are_read_alike(
    before: Seq<char>,
    name: Seq<char>,
    after: Seq<char>,
    other: Seq<char>,
)
    requires
        all_white(before),
        all_white(after),
        folded(name) == folded(other),
    ensures
        normalized(before + name + after) == normalized(other),
        model_named(before + name + after) == model_named(other),
{
    outer_white_space_is_trimmed(before, name, after);
    lemma_folded_start(name);
    lemma_folded_end(trimmed_start(name));
    lemma_folded_start(other);
    lemma_folded_end(trimmed_start(other));
    assert(normalized(before + name + after) =~= folded(trimmed(name)));
    assert(normalized(other) =~= folded(trimmed(other)));
}

/// A text spells a name that is written in small letters: each character is that of the name, or
/// the capital letter of it, or a hyphen for its underscore.
pub open spec fn spells(text: Seq<char>, name: Seq<char>) -> bool {
    &&& text.len() == name.len()
    &&& forall|i: int|
        0 <= i < text.len() ==> {
            ||| #[trigger] text[i] == name[i]
            ||| 97 <= name[i] as u32 <= 122 && text[i] as u32 + 32 == name[i] as u32
            ||| text[i] == '-' && name[i] == '_'
        }
}

/// A character of a text as it is compared, by numbers: a capital letter is the small one 32 places
/// after it, and a hyphen, 45, is an underscore, 95.
proof fn lemma_compared(c: char)
    ensures
        65 <= c as u32 <= 90 ==> compared(c) as u32 == c as u32 + 32,
        c as u32 == 45 ==> compared(c) as u32 == 95,
        !(65 <= c as u32 <= 90) && c as u32 != 45 ==> compared(c) == c,
{
    only_capital_letters_are_lowered(c);
    assert('-' as u32 == 45 && '_' as u32 == 95);
}

proof fn lemma_spells(text: Seq<char>, name: Seq<char>)
    requires
        forall|i: int|
            0 <= i < name.len() ==> !(65 <= #[trigger] name[i] as u32 <= 90) && name[i] as u32
                != 45,
    ensures
        folded(text) == name <==> spells(text, name),
{
    assert('-' as u32 == 45 && '_' as u32 == 95);
    if folded(text) == name {
        assert forall|i: int| 0 <= i < text.len() implies {
            ||| #[trigger] text[i] == name[i]
            ||| 97 <= name[i] as u32 <= 122 && text[i] as u32 + 32 == name[i] as u32
            ||| text[i] == '-' && name[i] == '_'
        } by {
            lemma_compared(text[i]);
            assert(folded(text)[i] == compared(text[i]));
        }
    }
    if spells(text, name) {
        assert forall|i: int| 0 <= i < text.len() implies folded(text)[i] == name[i] by {
            lemma_compared(text[i]);
            assert(text[i] == name[i] || 97 <= name[i] as u32 <= 122 && text[i] as u32 + 32
                == name[i] as u32 || text[i] == '-' && name[i] == '_');
            let d = compared(text[i]);
            assert(d as u32 == name[i] as u32);
            lemma_same_character(d, name[i]);
        }
        assert(folded(text) =~= name);
    }
}

proof fn lemma_same_character(c: char, d: char)
    requires
        c as u32 == d as u32,
    ensures
        c == d,
{
}

/// A name stands for the model exactly if, but for white space around it, it spells one of the
/// three names of the model; any other name is refused.
pub proof fn three_names_are_read(value: Seq<char>)
    ensures
        model_named(value) is Some <==> spells(trimmed(value), "groq"@) || spells(
            trimmed(value),
            "groq_whisper"@,
        ) || spells(trimmed(value), "groq whisper"@),
        model_named(value) is Some ==> model_named(value) == Some(SpeechModel::GroqWhisper),
        normalized(value).len() == trimmed(value).len(),
        forall|i: int|
            0 <= i < trimmed(value).len() ==> {
                let c = trimmed(value)[i];
                let d = #[trigger] normalized(value)[i];
                &&& 65 <= c as u32 <= 90 ==> d as u32 == c as u32 + 32
                &&& c as u32 == 45 ==> d as u32 == 95
                &&& !(65 <= c as u32 <= 90) && c as u32 != 45 ==> d == c
            },
{
    let t = trimmed(value);
    assert(normalized(value) =~= folded(t));
    reveal_strlit("groq");
    reveal_strlit("groq_whisper");
    reveal_strlit("groq whisper");
    lemma_spells(t, "groq"@);
    lemma_spells(t, "groq_whisper"@);
    lemma_spells(t, "groq whisper"@);
    assert forall|i: int| 0 <= i < t.len() implies {
        let c = t[i];
        let d = #[trigger] normalized(value)[i];
        &&& 65 <= c as u32 <= 90 ==> d as u32 == c as u32 + 32
        &&& c as u32 == 45 ==> d as u32 == 95
        &&& !(65 <= c as u32 <= 90) && c as u32 != 45 ==> d == c
    } by {
        lemma_compared(t[i]);
    }
}

/// Every model wants 16000 samples a second.
pub proof fn models_want_16_khz(m: SpeechModel)
    ensures
        m.wanted_rate() == 16_000,
        m.shown_name() == "Groq Whisper"@,
{
}

/// Why a request to the service failed.
#[derive(Debug)]
pub struct ApiError {
    pub message: String,
}

/// An error with a message of our own.
pub fn other_error(message: String) -> (r: ApiError)
    ensures
        r.message == message,
{
    ApiError { message }
}

/// The key that its file holds, if the file could be read and is not blank.
pub open spec fn key_in(file: Option<Seq<char>>) -> Option<Seq<char>> {
    if file is Some && trimmed(file->0).len() > 0 {
        Some(trimmed(file->0))
    } else {
        None
    }
}

/// There is a key exactly if its file could be read and holds anything but white space; the key is
/// what the file holds but for the white space around it.
pub proof fn keys_are_what_the_file_holds(text: Seq<char>)
    ensures
        key_in(None) is None,
        key_in(Some(text)) is Some <==> !all_white(text),
        !all_white(text) ==> key_in(Some(text)) == Some(trimmed(text)),
{
    trimming_takes_only_outer_white_space(text);
    let t = trimmed(text);
    let (i, j) = choose|i: int, j: int|
        {
            &&& 0 <= i <= j <= text.len()
            &&& t == #[trigger] text.subrange(i, j)
            &&& forall|k: int| 0 <= k < i || j <= k < text.len() ==> is_white(#[trigger] text[k])
        };
    if t.len() == 0 {
        assert(i == j);
        assert(all_white(text));
    } else {
        assert(t[0] == text[i]);
    }
}

/// Takes the key from what its file holds, if the file could be read.
pub fn groq_api_key(file: Option<&str>) -> (r: Result<String, ApiError>)
    ensures
        match (key_in(match file {
            Some(text) => Some(text@),
            None => None,
        }), r) {
            (Some(k), Ok(key)) => key@ == k,
            (None, Err(e)) => e.message@
                == "Groq API Key not found. Please set it in the Settings menu."@,
            _ => false,
        },
{
    if let Some(text) = file {
        let key: String = trim(text);
        if !key.as_str().is_empty() {
            return Ok(key);
        }
    }
    Err(
        other_error("Groq API Key not found. Please set it in the Settings menu.".to_owned()),
    )
}

/// A request with an audio file and text fields.
#[derive(Debug)]
pub struct FormRequest {
    pub url: String,
    pub api_key: String,
    pub file_field: String,
    pub file_name: String,
    pub mime: String,
    pub file: Vec<u8>,
    pub fields: Vec<(String, String)>,
}

/// The names and values of text fields.
pub open spec fn field_texts(fields: Seq<(String, String)>) -> Seq<(Seq<char>, Seq<char>)> {
    Seq::new(fields.len(), |i: int| (fields[i].0@, fields[i].1@))
}

impl FormRequest {
    /// A request for `url` with this audio file under its usual name, and these fields.
    pub open spec fn is_for(
        self,
        url: Seq<char>,
        api_key: Seq<char>,
        file: Seq<u8>,
        fields: Seq<(Seq<char>, Seq<char>)>,
    ) -> bool {
        &&& self.url@ == url
        &&& self.api_key@ == api_key
        &&& self.file_field@ == "file"@
        &&& self.file_name@ == "audio.wav"@
        &&& self.mime@ == "audio/wav"@
        &&& self.file@ == file
        &&& field_texts(self.fields@) == fields
    }
}

/// The fields of every audio request.
pub open spec fn common_fields() -> Seq<(Seq<char>, Seq<char>)> {
    seq![("model"@, "whisper-large-v3"@), ("response_format"@, "json"@)]
}

/// The fields that tell the language, for the languages that the service is told of.
pub open spec fn language_fields(lang: Seq<char>) -> Seq<(Seq<char>, Seq<char>)> {
    if lang == "hi"@ {
        seq![("language"@, "hi"@), ("prompt"@, "यह ऑडियो हिंदी में है।"@)]
    } else if lang == "en"@ {
        seq![("language"@, "en"@), ("prompt"@, "This audio is in English script."@)]
    } else {
        Seq::empty()
    }
}

/// Every audio request names the model and asks for JSON, in this order. Hindi and English are told
/// by their names and a prompt in their own script; no other language is told.
pub proof fn audio_requests_tell_hindi_and_english(lang: Seq<char>)
    ensures
        ({
            let all = common_fields() + language_fields(lang);
            &&& all.len() == 2 || all.len() == 4
            &&& all[0] == ("model"@, "whisper-large-v3"@)
            &&& all[1] == ("response_format"@, "json"@)
            &&& all.len() == 4 <==> lang == "hi"@ || lang == "en"@
            &&& all.len() == 4 ==> all[2] == ("language"@, lang) && all[3].0 == "prompt"@
            &&& lang == "hi"@ ==> all[3].1 == "यह ऑडियो हिंदी में है।"@
            &&& lang == "en"@ ==> all[3].1 == "This audio is in English script."@
            &&& common_fields().len() == 2
        }),
{
    reveal_strlit("hi");
    reveal_strlit("en");
    assert("hi"@[0] != "en"@[0]);
}

/// An audio request sends the given file, under the given key, with the given fields in order.
pub proof fn audio_requests_send_what_is_given(
    q: FormRequest,
    url: Seq<char>,
    api_key: Seq<char>,
    file: Seq<u8>,
    fields: Seq<(Seq<char>, Seq<char>)>,
)
    requires
        q.is_for(url, api_key, file, fields),
    ensures
        q.url@ == url,
        q.api_key@ == api_key,
        q.file@ == file,
        q.file_field@ == "file"@,
        q.file_name@ == "audio.wav"@,
        q.mime@ == "audio/wav"@,
        q.fields@.len() == fields.len(),
        forall|i: int|
            0 <= i < fields.len() ==> (#[trigger] q.fields@[i]).0@ == fields[i].0
                && q.fields@[i].1@ == fields[i].1,
{
    assert forall|i: int| 0 <= i < fields.len() implies (#[trigger] q.fields@[i]).0@
        == fields[i].0 && q.fields@[i].1@ == fields[i].1 by {
        assert(field_texts(q.fields@)[i] == fields[i]);
    }
}

/// A request for `url` with an audio file and the fields of every audio request.
fn audio_request(url: &str, api_key: &str, audio_bytes: Vec<u8>) -> (r: FormRequest)
    ensures
        r.is_for(url@, api_key@, audio_bytes@, common_fields()),
{
    let mut fields: Vec<(String, String)> = Vec::new();
    fields.push(("model".to_owned(), "whisper-large-v3".to_owned()));
    fields.push(("response_format".to_owned(), "json".to_owned()));
    assert(field_texts(fields@) =~= common_fields());
    FormRequest {
        url: url.to_owned(),
        api_key: api_key.to_owned(),
        file_field: "file".to_owned(),
        file_name: "audio.wav".to_owned(),
        mime: "audio/wav".to_owned(),
        file: audio_bytes,
        fields,
    }
}

/// The request to transcribe audio in a language.
pub fn transcription_request(api_key: &str, audio_bytes: Vec<u8>, lang: &str) -> (r: Result<
    FormRequest,
    ApiError,
>)
    ensures
        match r {
            Ok(q) => api_key@.len() > 0 && q.is_for(
                "https://api.groq.com/openai/v1/audio/transcriptions"@,
                api_key@,
                audio_bytes@,
                common_fields() + language_fields(lang@),
            ),
            Err(e) => api_key@.len() == 0 && e.message@ == "Groq API Key is empty"@,
        },
{
    if api_key.is_empty() {
        return Err(other_error("Groq API Key is empty".to_owned()));
    }
    let mut q: FormRequest = audio_request(
        "https://api.groq.com/openai/v1/audio/transcriptions",
        api_key,
        audio_bytes,
    );
    if same_text(lang, "hi") {
        q.fields.push(("language".to_owned(), "hi".to_owned()));
        q.fields.push(("prompt".to_owned(), "यह ऑडियो हिंदी में है।".to_owned()));
    } else if same_text(lang, "en") {
        q.fields.push(("language".to_owned(), "en".to_owned()));
        q.fields.push(("prompt".to_owned(), "This audio is in English script.".to_owned()));
    }
    assert(field_texts(q.fields@) =~= common_fields() + language_fields(lang@));
    Ok(q)
}

/// The request to translate audio.
pub fn translation_request(api_key: &str, audio_bytes: Vec<u8>) -> (r: Result<
    FormRequest,
    ApiError,
>)
    ensures
        match r {
            Ok(q) => api_key@.len() > 0 && q.is_for(
                "https://api.groq.com/openai/v1/audio/translations"@,
                api_key@,
                audio_bytes@,
                common_fields(),
            ),
            Err(e) => api_key@.len() == 0 && e.message@ == "Groq API Key is empty"@,
        },
{
    if api_key.is_empty() {
        return Err(other_error("Groq API Key is empty".to_owned()));
    }
    Ok(
        audio_request(
            "https://api.groq.com/openai/v1/audio/translations",
            api_key,
            audio_bytes,
        ),
    )
}

/// The digit for a number below 64: capital letters, small letters, figures, `+` and `/`.
pub open spec fn base64_digit(n: int) -> char {
    if n < 26 {
        (n + 65) as char
    } else if n < 52 {
        (n - 26 + 97) as char
    } else if n < 62 {
        (n - 52 + 48) as char
    } else if n == 62 {
        '+'
    } else {
        '/'
    }
}

/// The number that three bytes from `at` on make, the first byte the highest; zeros follow the
/// last byte.
pub open spec fn three_bytes(bytes: Seq<u8>, at: int) -> int {
    let byte = |i: int|
        if i < bytes.len() {
            bytes[i] as int
        } else {
            0
        };
    byte(at) * 0x10000 + byte(at + 1) * 0x100 + byte(at + 2)
}

/// The Base64 form of bytes: four digits for each three bytes, the highest first, with `=` for
/// those digits that stand for no byte.
pub open spec fn base64_text(bytes: Seq<u8>) -> Seq<char> {
    Seq::new(
        (bytes.len() + 2) / 3 * 4,
        |i: int|
            {
                let at = i / 4 * 3;
                let n = three_bytes(bytes, at);
                if i % 4 == 0 {
                    base64_digit(n / 0x40000)
                } else if i % 4 == 1 {
                    base64_digit(n / 0x1000 % 64)
                } else if at + i % 4 - 1 >= bytes.len() {
                    '='
                } else if i % 4 == 2 {
                    base64_digit(n / 64 % 64)
                } else {
                    base64_digit(n % 64)
                }
            },
    )
}

/// The Base64 form of this many bytes is a string that fits in memory.
pub open spec fn fits_base64(len: nat) -> bool {
    (len + 2) / 3 * 4 <= isize::MAX
}

/// Encodes bytes with `base64::engine::general_purpose::STANDARD`: the standard alphabet, four
/// characters for each three bytes or part of them, with padding. The encoder panics where so long
/// a string cannot be had.
#[verifier::external_body]
fn encode_base64(bytes: &Vec<u8>) -> (r: String)
    requires
        fits_base64(bytes@.len()),
    ensures
        r@ == base64_text(bytes@),
{
    base64::engine::general_purpose::STANDARD.encode(bytes)
}

/// A request to read the text in a picture: one user message of a text and a picture.
#[derive(Debug)]
pub struct PictureRequest {
    pub url: String,
    pub api_key: String,
    pub model: String,
    pub role: String,
    pub prompt: String,
    pub image_url: String,
}

impl PictureRequest {
    /// The request that shows the picture at `image_url`.
    pub open spec fn is_for(self, api_key: Seq<char>, image_url: Seq<char>) -> bool {
        &&& self.url@ == "https://api.groq.com/openai/v1/chat/completions"@
        &&& self.api_key@ == api_key
        &&& self.model@ == "meta-llama/llama-4-scout-17b-16e-instruct"@
        &&& self.role@ == "user"@
        &&& self.prompt@
            == "Read all the text present in the image and transcribe it accurately. Output ONLY the transcribed text, maintaining its layout if possible. Do NOT include any explanations, greetings, warnings, or markdown code-block wrapping. Just output the raw transcribed characters."@
        &&& self.image_url@ == image_url
    }
}

/// A picture request sends the given picture under the given key, and asks one model for the text
/// in it and nothing else.
pub proof fn picture_requests_ask_for_the_text(
    q: PictureRequest,
    api_key: Seq<char>,
    image_url: Seq<char>,
)
    requires
        q.is_for(api_key, image_url),
    ensures
        q.api_key@ == api_key,
        q.image_url@ == image_url,
        q.url@ == "https://api.groq.com/openai/v1/chat/completions"@,
        q.model@ == "meta-llama/llama-4-scout-17b-16e-instruct"@,
        q.role@ == "user"@,
        q.prompt@
            == "Read all the text present in the image and transcribe it accurately. Output ONLY the transcribed text, maintaining its layout if possible. Do NOT include any explanations, greetings, warnings, or markdown code-block wrapping. Just output the raw transcribed characters."@,
{
}

/// The request to read the text in the picture with this Base64 form.
pub fn picture_request(api_key: &str, base64_image: &str) -> (r: Result<PictureRequest, ApiError>)
    ensures
        match r {
            Ok(q) => api_key@.len() > 0 && q.is_for(
                api_key@,
                "data:image/png;base64,"@ + base64_image@,
            ),
            Err(e) => api_key@.len() == 0 && e.message@ == "Groq API Key is empty"@,
        },
{
    if api_key.is_empty() {
        return Err(other_error("Groq API Key is empty".to_owned()));
    }
    let mut image_url: String = "data:image/png;base64,".to_owned();
    image_url.append(base64_image);
    Ok(
        PictureRequest {
            url: "https://api.groq.com/openai/v1/chat/completions".to_owned(),
            api_key: api_key.to_owned(),
            model: "meta-llama/llama-4-scout-17b-16e-instruct".to_owned(),
            role: "user".to_owned(),
            prompt: "Read all the text present in the image and transcribe it accurately. Output ONLY the transcribed text, maintaining its layout if possible. Do NOT include any explanations, greetings, warnings, or markdown code-block wrapping. Just output the raw transcribed characters.".to_owned(),
            image_url,
        },
    )
}

/// The request to read the text in a PNG picture.
pub fn ocr_request(api_key: &str, image_png_bytes: &Vec<u8>) -> (r: Result<
    PictureRequest,
    ApiError,
>)
    requires
        fits_base64(image_png_bytes@.len()),
    ensures
        match r {
            Ok(q) => api_key@.len() > 0 && q.is_for(
                api_key@,
                "data:image/png;base64,"@ + base64_text(image_png_bytes@),
            ),
            Err(e) => api_key@.len() == 0 && e.message@ == "Groq API Key is empty"@,
        },
{
    picture_request(api_key, encode_base64(image_png_bytes).as_str())
}

/// The services that requests go to.
#[derive(Debug, Clone, Copy, PartialEq, Eq, Structural)]
pub enum Service {
    Transcription,
    Translation,
    Ocr,
}

/// Tells whether a status code is one of success.
pub fn is_success(code: u16) -> (r: bool)
    ensures
        r == (200 <= code < 300),
{
    200 <= code && code < 300
}

impl Service {
    /// What errors of the service are called.
    pub open spec fn error_name(self) -> Seq<char> {
        match self {
            Service::Transcription => "Groq API Error "@,
            Service::Translation => "Groq Translation API Error "@,
            Service::Ocr => "Groq OCR API Error "@,
        }
    }

    /// The error for a reply whose status is not one of success.
    pub fn status_error(self, status: &str, body: &str) -> (r: ApiError)
        ensures
            r.message@ == self.error_name() + status@ + ": "@ + body@,
    {
        let mut message: String = match self {
            Service::Transcription => "Groq API Error ".to_owned(),
            Service::Translation => "Groq Translation API Error ".to_owned(),
            Service::Ocr => "Groq OCR API Error ".to_owned(),
        };
        message.append(status);
        message.append(": ");
        message.append(body);
        other_error(message)
    }

    /// The text in the body of a successful reply.
    pub fn reply_text(self, body: &[u8]) -> (r: Result<String, ApiError>)
        ensures
            match (self.answer(body@), r) {
                (Ok(found), Ok(text)) => text@ == answer_text(found),
                (Err(e), Err(error)) => error.message@ == "error decoding response body: "@ + e,
                _ => false,
            },
    {
        let found: Result<Option<String>, String> = match self {
            Service::Ocr => {
                let content: Result<Option<String>, String> = json_string(
                    body,
                    "/choices/0/message/content",
                );
                choice_content(content, json_is_array(body, "/choices"))
            },
            _ => json_string(body, "/text"),
        };
        read_answer(found)
    }

    /// What the service answers: the text of the reply, if it holds one, or why it is no JSON.
    pub open spec fn answer(self, body: Seq<u8>) -> Result<Option<Seq<char>>, Seq<char>> {
        if self == Service::Ocr {
            let content = json_string_at(body, "/choices/0/message/content"@);
            if content is Ok && !json_array_at(body, "/choices"@) {
                Ok(None)
            } else {
                content
            }
        } else {
            json_string_at(body, "/text"@)
        }
    }
}

/// Errors are named after the service, and no two services name them alike.
pub proof fn errors_name_their_service(a: Service, b: Service)
    ensures
        Service::Transcription.error_name() == "Groq API Error "@,
        Service::Translation.error_name() == "Groq Translation API Error "@,
        Service::Ocr.error_name() == "Groq OCR API Error "@,
        a.error_name() == b.error_name() ==> a == b,
{
    reveal_strlit("Groq API Error ");
    reveal_strlit("Groq Translation API Error ");
    reveal_strlit("Groq OCR API Error ");
    assert("Groq API Error "@.len() == 15);
    assert("Groq Translation API Error "@.len() == 27);
    assert("Groq OCR API Error "@.len() == 19);
}

/// The speech services answer with the text member of the reply. The reading of pictures answers
/// with the content of the message of the first choice, but only of a list of choices. A body that
/// is no JSON is an error of every service.
pub proof fn answers_stand_in_their_place(body: Seq<u8>)
    ensures
        Service::Transcription.answer(body) == json_string_at(body, "/text"@),
        Service::Translation.answer(body) == json_string_at(body, "/text"@),
        json_array_at(body, "/choices"@) ==> Service::Ocr.answer(body) == json_string_at(
            body,
            "/choices/0/message/content"@,
        ),
        !json_array_at(body, "/choices"@) && json_string_at(body, "/choices/0/message/content"@)
            is Ok ==> Service::Ocr.answer(body) == Ok::<Option<Seq<char>>, Seq<char>>(None),
        json_string_at(body, "/choices/0/message/content"@) is Err ==> Service::Ocr.answer(body)
            == json_string_at(body, "/choices/0/message/content"@),
{
}

/// What is answered is what was found but for the white space around it, and nothing where nothing
/// was found.
pub proof fn answers_lose_only_outer_white_space(a: Seq<char>, text: Seq<char>, b: Seq<char>)
    requires
        all_white(a),
        all_white(b),
        text.len() > 0 ==> !is_white(text[0]) && !is_white(text[text.len() - 1]),
    ensures
        answer_text(Some(a + text + b)) == text,
        answer_text(None).len() == 0,
{
    outer_white_space_is_trimmed(a, text, b);
    assert(trimmed(text) == text);
}

/// Turns what was found where the content of the first choice stands into that content: there are
/// no choices unless they are a list.
pub fn choice_content(content: Result<Option<String>, String>, listed: bool) -> (r: Result<
    Option<String>,
    String,
>)
    ensures
        r == (if content is Ok && !listed {
            Ok(None)
        } else {
            content
        }),
{
    match content {
        Ok(found) => if listed {
            Ok(found)
        } else {
            Ok(None)
        },
        Err(e) => Err(e),
    }
}

/// The answer without white space at its ends; nothing if there is none.
pub open spec fn answer_text(found: Option<Seq<char>>) -> Seq<char> {
    match found {
        Some(text) => trimmed(text),
        None => Seq::empty(),
    }
}

/// Turns what was found in a reply into the answer: its text without white space at its ends,
/// nothing if no text was found, or the error of a body that is no JSON.
pub fn read_answer(found: Result<Option<String>, String>) -> (r: Result<String, ApiError>)
    ensures
        match (found, r) {
            (Ok(Some(text)), Ok(answer)) => answer@ == trimmed(text@),
            (Ok(None), Ok(answer)) => answer@.len() == 0,
            (Err(e), Err(error)) => error.message@ == "error decoding response body: "@ + e@,
            _ => false,
        },
{
    match found {
        Ok(Some(text)) => Ok(trim(text.as_str())),
        Ok(None) => Ok(String::new()),
        Err(e) => {
            let mut message: String = "error decoding response body: ".to_owned();
            message.append(e.as_str());
            Err(other_error(message))
        },
    }
}

/// The string at a JSON pointer in a JSON text, if there is one; or why the bytes are no JSON.
pub uninterp spec fn json_string_at(body: Seq<u8>, pointer: Seq<char>) -> Result<
    Option<Seq<char>>,
    Seq<char>,
>;

/// There is an array at a JSON pointer in a JSON text.
pub uninterp spec fn json_array_at(body: Seq<u8>, pointer: Seq<char>) -> bool;

/// Parses JSON with `serde_json::from_slice` and looks up a string with `Value::pointer`, which
/// follows member names and array places.
#[verifier::external_body]
fn json_string(body: &[u8], pointer: &str) -> (r: Result<Option<String>, String>)
    ensures
        r is Ok <==> json_string_at(body@, pointer@) is Ok,
        r is Err ==> json_string_at(body@, pointer@)->Err_0 == r->Err_0@,
        r is Ok ==> (r->Ok_0 is Some <==> json_string_at(body@, pointer@)->Ok_0 is Some),
        r is Ok && r->Ok_0 is Some ==> json_string_at(body@, pointer@)->Ok_0->0 == r->Ok_0->0@,
{
    let value: serde_json::Value = serde_json::from_slice(body).map_err(|e| e.to_string())?;
    Ok(value.pointer(pointer).and_then(|v| v.as_str()).map(|s| s.to_string()))
}

/// Parses JSON with `serde_json::from_slice` and tells whether `Value::pointer` leads to an array.
#[verifier::external_body]
fn json_is_array(body: &[u8], pointer: &str) -> (r: bool)
    ensures
        r == json_array_at(body@, pointer@),
{
    let value: serde_json::Value = serde_json::from_slice(body).unwrap_or_default();
    value.pointer(pointer).map(|v| v.is_array()).unwrap_or(false)
}

} // verus!
