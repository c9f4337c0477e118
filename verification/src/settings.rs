//! The settings that are kept in files: the language and the key of the service.
use crate::api::key_in;
use crate::text::{
    ascii_lower, only_capital_letters_are_lowered, same_text, to_lower, trim, trimmed,
    trimming_is_idempotent,
};
use vstd::prelude::*;

verus! {

/// The language in which the file of the selected language says to dictate: English if it says
/// so, else Hindi.
pub open spec fn language_in(file: Option<Seq<char>>) -> Seq<char> {
    if file is Some && trimmed(file->0).map_values(|c: char| ascii_lower(c)) == "en"@ {
        "en"@
    } else {
        "hi"@
    }
}

/// The language is English exactly if the file could be read and holds, but for white space around
/// them, the two letters of it in either case; else it is Hindi.
pub proof fn english_must_be_spelled_out(text: Seq<char>)
    ensures
        language_in(None) == "hi"@,
        ({
            let t = trimmed(text);
            if t.len() == 2 && (t[0] == 'e' || t[0] == 'E') && (t[1] == 'n' || t[1] == 'N') {
                language_in(Some(text)) == "en"@
            } else {
                language_in(Some(text)) == "hi"@
            }
        }),
{
    reveal_strlit("en");
    let t = trimmed(text);
    let lower = t.map_values(|c: char| ascii_lower(c));
    let english = t.len() == 2 && (t[0] == 'e' || t[0] == 'E') && (t[1] == 'n' || t[1] == 'N');
    if english {
        assert(lower =~= "en"@);
    } else if lower == "en"@ {
        assert("en"@.len() == 2);
        assert(lower.len() == 2);
        assert(t.len() == lower.len());
        assert(lower[0] == 'e' && lower[1] == 'n');
        only_capital_letters_are_lowered(t[0]);
        only_capital_letters_are_lowered(t[1]);
        assert(lower[0] == ascii_lower(t[0]) && lower[1] == ascii_lower(t[1]));
        assert('e' as u32 == 101 && 'n' as u32 == 110 && 'E' as u32 == 69 && 'N' as u32 == 78);
        assert(t[0] as u32 == 101 || t[0] as u32 == 69);
        assert(t[1] as u32 == 110 || t[1] as u32 == 78);
    }
}

/// Takes the language from what its file holds, if the file could be read.
pub fn selected_language(file: Option<&str>) -> (r: String)
    ensures
        r@ == language_in(match file {
            Some(text) => Some(text@),
            None => None,
        }),
{
    if let Some(text) = file {
        let lang: String = to_lower(trim(text).as_str());
        if same_text(lang.as_str(), "en") {
            return "en".to_owned();
        }
    }
    "hi".to_owned()
}

/// What the file of the selected language holds for a language.
pub fn language_file(lang: &str) -> (r: String)
    ensures
        r@ == lang@ + "\n"@,
{
    let mut r: String = lang.to_owned();
    r.append("\n");
    r
}

/// The language that a double press switches to.
pub open spec fn toggled(lang: Seq<char>) -> Seq<char> {
    if lang == "hi"@ {
        "en"@
    } else {
        "hi"@
    }
}

/// Switches between Hindi and English.
pub fn toggle_language(lang: &str) -> (r: String)
    ensures
        r@ == toggled(lang@),
{
    if same_text(lang, "hi") {
        "en".to_owned()
    } else {
        "hi".to_owned()
    }
}

/// The name of a language as it is shown.
pub fn language_label(lang: &str) -> (r: &'static str)
    ensures
        r@ == (if lang@ == "hi"@ {
            "Hindi"@
        } else {
            "English"@
        }),
{
    if same_text(lang, "hi") {
        "Hindi"
    } else {
        "English"
    }
}

/// Which of the menu entries for Hindi and English are checked.
pub fn language_checks(lang: &str) -> (r: (bool, bool))
    ensures
        r.0 == (lang@ == "hi"@),
        r.1 == (lang@ == "en"@),
{
    (same_text(lang, "hi"), same_text(lang, "en"))
}

/// What the file of the key holds for a key that was typed in.
pub fn key_file(input: &str) -> (r: String)
    ensures
        r@ == trimmed(input@),
{
    trim(input)
}

/// A selected language is read back from its file.
pub proof fn language_is_read_back(lang: Seq<char>)
    requires
        lang == "hi"@ || lang == "en"@,
    ensures
        language_in(Some(lang + "\n"@)) == lang,
{
    reveal_strlit("hi");
    reveal_strlit("en");
    reveal_strlit("\n");
    let s = lang + "\n"@;
    assert(crate::text::trimmed_start(s) == s);
    assert(s.drop_last() =~= lang);
    assert(crate::text::trimmed_end(lang) == lang);
    assert(trimmed(s) == lang);
    assert(lang.map_values(|c: char| ascii_lower(c)) =~= lang);
    assert("hi"@[0] != "en"@[0]);
}

/// Toggling always gives one of the two languages, and twice gives the language back.
pub proof fn toggling_twice_restores(lang: Seq<char>)
    ensures
        toggled(lang) == "hi"@ || toggled(lang) == "en"@,
        lang == "hi"@ || lang == "en"@ ==> toggled(toggled(lang)) == lang,
        toggled(lang) != lang,
        lang != "hi"@ ==> toggled(lang) == "hi"@,
{
    reveal_strlit("hi");
    reveal_strlit("en");
    assert("hi"@[0] != "en"@[0]);
}

/// A key that was saved is read back, unless it was blank.
pub proof fn saved_key_is_read_back(input: Seq<char>)
    ensures
        key_in(Some(trimmed(input))) == (if trimmed(input).len() > 0 {
            Some(trimmed(input))
        } else {
            None
        }),
{
    trimming_is_idempotent(input);
}

} // verus!
