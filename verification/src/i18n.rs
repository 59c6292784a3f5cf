//! Locale selection for user-facing text. Supported languages: Korean
//! (`ko`), English (`en`) and Chinese (`zh`); English is the fallback.
use vstd::prelude::*;
use crate::text::{chars_of, lowercase, to_lowercase, starts_with, eq_literal, is_ascii_text};

verus! {

broadcast use vstd::slice::group_slice_axioms;

/// The supported locale a locale name stands for: `ko-KR`, `ko_KR` and
/// `korean` are `ko`; `zh-CN` and `chinese` are `zh`; anything else is `en`.
pub open spec fn spec_normalize_locale(locale: Seq<char>) -> Seq<char> {
    let lower = lowercase(locale);
    if starts_with(lower, "ko"@) || lower == "korean"@ {
        "ko"@
    } else if starts_with(lower, "zh"@) || lower == "chinese"@ {
        "zh"@
    } else {
        "en"@
    }
}

fn starts_with_two(s: &[char], a: char, b: char) -> (r: bool)
    ensures
        r == (s@.len() >= 2 && s@[0] == a && s@[1] == b),
{
    s.len() >= 2 && s[0] == a && s[1] == b
}

/// Normalize a locale code to a supported one.
pub fn normalize_locale(locale: &str) -> (r: String)
    ensures
        r@ == spec_normalize_locale(locale@),
{
    let lower = to_lowercase(locale);
    let l = chars_of(lower.as_str());
    proof {
        reveal_strlit("ko");
        reveal_strlit("zh");
    }
    if starts_with_two(l.as_slice(), 'k', 'o') || eq_literal(l.as_slice(), "korean") {
        proof {
            if l@.len() >= 2 && l@[0] == 'k' && l@[1] == 'o' {
                assert(l@.subrange(0, 2) =~= "ko"@);
            }
        }
        "ko".to_owned()
    } else if starts_with_two(l.as_slice(), 'z', 'h') || eq_literal(l.as_slice(), "chinese") {
        proof {
            if l@.len() >= 2 && l@[0] == 'z' && l@[1] == 'h' {
                assert(l@.subrange(0, 2) =~= "zh"@);
            }
            assert(!(l@.len() >= 2 && l@.subrange(0, 2) == "ko"@)) by {
                if l@.len() >= 2 && l@.subrange(0, 2) == "ko"@ {
                    assert(l@[0] == l@.subrange(0, 2)[0]);
                    assert(l@[1] == l@.subrange(0, 2)[1]);
                }
            }
        }
        "zh".to_owned()
    } else {
        proof {
            assert(!(l@.len() >= 2 && l@.subrange(0, 2) == "ko"@)) by {
                if l@.len() >= 2 && l@.subrange(0, 2) == "ko"@ {
                    assert(l@[0] == l@.subrange(0, 2)[0]);
                    assert(l@[1] == l@.subrange(0, 2)[1]);
                }
            }
            assert(!(l@.len() >= 2 && l@.subrange(0, 2) == "zh"@)) by {
                if l@.len() >= 2 && l@.subrange(0, 2) == "zh"@ {
                    assert(l@[0] == l@.subrange(0, 2)[0]);
                    assert(l@[1] == l@.subrange(0, 2)[1]);
                }
            }
        }
        "en".to_owned()
    }
}

/// The locale in use: the last one set, English until one is.
#[derive(Debug)]
pub struct LocaleSetting {
    current: Option<String>,
}

impl LocaleSetting {
    pub closed spec fn spec_current(&self) -> Seq<char> {
        match self.current {
            Some(s) => s@,
            None => "en"@,
        }
    }

    /// No locale set yet.
    pub fn new() -> (r: Self)
        ensures
            r.spec_current() == "en"@,
    {
        LocaleSetting { current: None }
    }

    /// Set the current locale; the name is normalized first. Returns the
    /// locale now in use.
    pub fn set_locale(&mut self, locale: &str) -> (r: String)
        ensures
            final(self).spec_current() == spec_normalize_locale(locale@),
            r@ == spec_normalize_locale(locale@),
    {
        let normalized = normalize_locale(locale);
        self.current = Some(normalized.clone());
        normalized
    }

    /// Get the current locale.
    pub fn current_locale(&self) -> (r: &str)
        ensures
            r@ == self.spec_current(),
    {
        match &self.current {
            Some(s) => s.as_str(),
            None => "en",
        }
    }
}

/// Normalizing a normalized locale keeps it: the supported codes `ko`,
/// `zh` and `en` normalize to themselves.
pub proof fn normalize_locale_is_idempotent(locale: Seq<char>)
    ensures
        spec_normalize_locale(spec_normalize_locale(locale)) == spec_normalize_locale(locale),
{
    reveal_strlit("ko");
    reveal_strlit("zh");
    reveal_strlit("en");
    reveal_strlit("korean");
    reveal_strlit("chinese");
    let n = spec_normalize_locale(locale);
    assert(is_ascii_text(n));
    assert(lowercase(n) =~= n);
    assert(n.subrange(0, 2) =~= n);
}

} // verus!
