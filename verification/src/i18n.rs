//! NativeTerm's language: the system's, or the one chosen in Settings.

use vstd::prelude::*;

use crate::text;

verus! {

/// The setting: a language id, or absent for the system's.
pub const SETTING: &'static str = "language";

/// The language is written in Chinese, Japanese or Korean characters, which
/// the toolkit's own fonts do not have.
pub open spec fn is_cjk(language: Seq<char>) -> bool {
    language == "zh"@ || language == "ja"@ || language == "ko"@
}

/// Whether the language asked for can be shown. `languages` are those in
/// use, the first one first; `has_font` is whether the system has a font
/// for Chinese, Japanese and Korean.
pub fn readable(languages: &[String], has_font: bool) -> (r: bool)
    ensures
        r == (has_font || languages@.len() == 0 || !is_cjk(languages@[0]@)),
{
    if has_font || languages.len() == 0 {
        return true;
    }
    let first = &languages[0];
    !(text::same(first, "zh") || text::same(first, "ja") || text::same(first, "ko"))
}

/// The language that is used for a choice: the choice, or the fallback where
/// it cannot be shown (it would be boxes).
pub fn used(choice: Option<String>, readable: bool, fallback: &str) -> (r: Option<String>)
    ensures
        text::optional(r) == (if readable {
            text::optional(choice)
        } else {
            Some(fallback@)
        }),
{
    if readable {
        choice
    } else {
        Some(text::owned(fallback))
    }
}

/// Chinese, Japanese and Korean need fonts of their own, and no other
/// language does.
pub proof fn law_languages_with_fonts_of_their_own(language: Seq<char>)
    ensures
        is_cjk("zh"@) && is_cjk("ja"@) && is_cjk("ko"@),
        language != "zh"@ && language != "ja"@ && language != "ko"@ ==> !is_cjk(language),
{
}

} // verus!
