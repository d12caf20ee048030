//! Detection of the languages that a game supports.
use vstd::prelude::*;
use crate::text::{
    ascii_lower, chars_eq_str, chars_of, is_ascii_text, is_white_space, law_trim_idempotent,
    lemma_leading_spaces, lemma_replace_concat, lemma_replace_head, lemma_split_concat,
    lemma_split_prefix, lemma_squeeze_run, lemma_trim_after_spaces, lemma_trim_shape,
    lemma_trimmed_fixed, replace_all, replace_chars, spaces, split_chars, split_on, str_views,
    string_of, string_views, sub_chars, trim, trim_chars, trim_str,
};

verus! {

/// Whether a match of `<[^>]+>` starts at index 0 of `s` and ends at index
/// `j`: an opening `<`, one or more characters other than `>`, and the first
/// `>` after them.
pub open spec fn tag_ends_at(s: Seq<char>, j: int) -> bool {
    &&& 2 <= j < s.len()
    &&& s[0] == '<'
    &&& s[j] == '>'
    &&& forall|k: int| 1 <= k < j ==> s[k] != '>'
}

/// `s` with every match of the regular expression `<[^>]+>` removed, the
/// matches found from the left without overlap.
pub open spec fn without_tags(s: Seq<char>) -> Seq<char>
    decreases s.len(),
{
    if s.len() == 0 {
        s
    } else if exists|j: int| tag_ends_at(s, j) {
        let j = choose|j: int| tag_ends_at(s, j);
        without_tags(s.skip(j + 1))
    } else {
        seq![s[0]] + without_tags(s.drop_first())
    }
}

/// The pattern of an HTML tag.
pub open spec fn tag_pattern() -> Seq<char> {
    "<[^>]+>"@
}

/// `regex::Regex::replace_all` with an empty replacement, for the tag pattern.
///
/// Trusted: the regex crate's leftmost-first search removes each match of
/// `<[^>]+>` in turn, which `without_tags` writes out; the pattern is a valid
/// regular expression, so compiling it does not fail.
#[verifier::external_body]
fn remove_matches(pattern: &str, haystack: &str) -> (r: String)
    requires
        pattern@ == tag_pattern(),
    ensures
        r@ == without_tags(haystack@),
{
    regex::Regex::new(pattern).unwrap().replace_all(haystack, "").into_owned()
}

/// What `str::to_lowercase` gives for `s` (its Unicode lower-case mapping).
pub uninterp spec fn lowercase(s: Seq<char>) -> Seq<char>;

/// `str::to_lowercase`.
///
/// Trusted: the result is the Unicode lower case of `s`, which depends on
/// `s` alone; for ASCII text it is the ASCII lower case (`A`-`Z` become
/// `a`-`z`, every other character stays). What it does to other characters
/// is not stated.
#[verifier::external_body]
fn to_lowercase(s: &str) -> (r: String)
    ensures
        r@ == lowercase(s@),
        is_ascii_text(s@) ==> r@ == ascii_lower(s@),
{
    s.to_lowercase()
}

/// The emulator's code of a language, from its lower-case name on the Steam store.
pub open spec fn language_code(name: Seq<char>) -> Option<Seq<char>> {
    if name == "english"@ {
        Some("english"@)
    } else if name == "french"@ {
        Some("french"@)
    } else if name == "italian"@ {
        Some("italian"@)
    } else if name == "german"@ {
        Some("german"@)
    } else if name == "spanish - spain"@ {
        Some("spanish"@)
    } else if name == "spanish"@ {
        Some("spanish"@)
    } else if name == "spanish - latin america"@ {
        Some("latam"@)
    } else if name == "czech"@ {
        Some("czech"@)
    } else if name == "danish"@ {
        Some("danish"@)
    } else if name == "dutch"@ {
        Some("dutch"@)
    } else if name == "finnish"@ {
        Some("finnish"@)
    } else if name == "greek"@ {
        Some("greek"@)
    } else if name == "hungarian"@ {
        Some("hungarian"@)
    } else if name == "indonesian"@ {
        Some("indonesian"@)
    } else if name == "japanese"@ {
        Some("japanese"@)
    } else if name == "korean"@ {
        Some("koreana"@)
    } else if name == "norwegian"@ {
        Some("norwegian"@)
    } else if name == "polish"@ {
        Some("polish"@)
    } else if name == "portuguese - portugal"@ {
        Some("portuguese"@)
    } else if name == "portuguese"@ {
        Some("portuguese"@)
    } else if name == "portuguese - brazil"@ {
        Some("brazilian"@)
    } else if name == "romanian"@ {
        Some("romanian"@)
    } else if name == "russian"@ {
        Some("russian"@)
    } else if name == "simplified chinese"@ {
        Some("schinese"@)
    } else if name == "traditional chinese"@ {
        Some("tchinese"@)
    } else if name == "swedish"@ {
        Some("swedish"@)
    } else if name == "thai"@ {
        Some("thai"@)
    } else if name == "turkish"@ {
        Some("turkish"@)
    } else if name == "ukrainian"@ {
        Some("ukrainian"@)
    } else if name == "vietnamese"@ {
        Some("vietnamese"@)
    } else if name == "arabic"@ {
        Some("arabic"@)
    } else if name == "bulgarian"@ {
        Some("bulgarian"@)
    } else {
        None
    }
}

/// The emulator's code of the language named `name` (already trimmed and in
/// lower case), or `None` when the language is not one the emulator knows.
pub fn language_code_for(name: &str) -> (r: Option<&'static str>)
    ensures
        match r {
            Some(c) => language_code(name@) == Some(c@),
            None => language_code(name@) is None,
        },
{
    let cs = chars_of(name);
    if chars_eq_str(&cs, "english") {
        Some("english")
    } else if chars_eq_str(&cs, "french") {
        Some("french")
    } else if chars_eq_str(&cs, "italian") {
        Some("italian")
    } else if chars_eq_str(&cs, "german") {
        Some("german")
    } else if chars_eq_str(&cs, "spanish - spain") {
        Some("spanish")
    } else if chars_eq_str(&cs, "spanish") {
        Some("spanish")
    } else if chars_eq_str(&cs, "spanish - latin america") {
        Some("latam")
    } else if chars_eq_str(&cs, "czech") {
        Some("czech")
    } else if chars_eq_str(&cs, "danish") {
        Some("danish")
    } else if chars_eq_str(&cs, "dutch") {
        Some("dutch")
    } else if chars_eq_str(&cs, "finnish") {
        Some("finnish")
    } else if chars_eq_str(&cs, "greek") {
        Some("greek")
    } else if chars_eq_str(&cs, "hungarian") {
        Some("hungarian")
    } else if chars_eq_str(&cs, "indonesian") {
        Some("indonesian")
    } else if chars_eq_str(&cs, "japanese") {
        Some("japanese")
    } else if chars_eq_str(&cs, "korean") {
        Some("koreana")
    } else if chars_eq_str(&cs, "norwegian") {
        Some("norwegian")
    } else if chars_eq_str(&cs, "polish") {
        Some("polish")
    } else if chars_eq_str(&cs, "portuguese - portugal") {
        Some("portuguese")
    } else if chars_eq_str(&cs, "portuguese") {
        Some("portuguese")
    } else if chars_eq_str(&cs, "portuguese - brazil") {
        Some("brazilian")
    } else if chars_eq_str(&cs, "romanian") {
        Some("romanian")
    } else if chars_eq_str(&cs, "russian") {
        Some("russian")
    } else if chars_eq_str(&cs, "simplified chinese") {
        Some("schinese")
    } else if chars_eq_str(&cs, "traditional chinese") {
        Some("tchinese")
    } else if chars_eq_str(&cs, "swedish") {
        Some("swedish")
    } else if chars_eq_str(&cs, "thai") {
        Some("thai")
    } else if chars_eq_str(&cs, "turkish") {
        Some("turkish")
    } else if chars_eq_str(&cs, "ukrainian") {
        Some("ukrainian")
    } else if chars_eq_str(&cs, "vietnamese") {
        Some("vietnamese")
    } else if chars_eq_str(&cs, "arabic") {
        Some("arabic")
    } else if chars_eq_str(&cs, "bulgarian") {
        Some("bulgarian")
    } else {
        None
    }
}

/// The emulator's code of a language as the store names it: surrounding
/// white space is ignored, and so is case.
pub fn map_language(raw: &str) -> (r: Option<&'static str>)
    ensures
        match r {
            Some(c) => language_code(lowercase(trim(raw@))) == Some(c@),
            None => language_code(lowercase(trim(raw@))) is None,
        },
        is_ascii_text(raw@) ==> match r {
            Some(c) => language_code(ascii_lower(trim(raw@))) == Some(c@),
            None => language_code(ascii_lower(trim(raw@))) is None,
        },
{
    let t = trim_str(raw);
    proof {
        lemma_trim_ascii(raw@);
    }
    let ts = string_of(&t);
    let lower = to_lowercase(ts.as_str());
    language_code_for(lower.as_str())
}

/// The languages of the Steam store that the emulator knows: `name` is the
/// store's name of one (trimmed, in lower case) and `code` the emulator's code
/// for it. Regional variants share a code where the emulator has only one
/// ("spanish - spain" and "spanish"; "portuguese - portugal" and
/// "portuguese"); Latin American Spanish and Brazilian Portuguese have their own.
pub open spec fn store_language(name: Seq<char>, code: Seq<char>) -> bool {
    ||| name == "arabic"@ && code == "arabic"@
    ||| name == "portuguese - brazil"@ && code == "brazilian"@
    ||| name == "bulgarian"@ && code == "bulgarian"@
    ||| name == "czech"@ && code == "czech"@
    ||| name == "danish"@ && code == "danish"@
    ||| name == "dutch"@ && code == "dutch"@
    ||| name == "english"@ && code == "english"@
    ||| name == "finnish"@ && code == "finnish"@
    ||| name == "french"@ && code == "french"@
    ||| name == "german"@ && code == "german"@
    ||| name == "greek"@ && code == "greek"@
    ||| name == "hungarian"@ && code == "hungarian"@
    ||| name == "indonesian"@ && code == "indonesian"@
    ||| name == "italian"@ && code == "italian"@
    ||| name == "japanese"@ && code == "japanese"@
    ||| name == "korean"@ && code == "koreana"@
    ||| name == "spanish - latin america"@ && code == "latam"@
    ||| name == "norwegian"@ && code == "norwegian"@
    ||| name == "polish"@ && code == "polish"@
    ||| name == "portuguese"@ && code == "portuguese"@
    ||| name == "portuguese - portugal"@ && code == "portuguese"@
    ||| name == "romanian"@ && code == "romanian"@
    ||| name == "russian"@ && code == "russian"@
    ||| name == "simplified chinese"@ && code == "schinese"@
    ||| name == "spanish"@ && code == "spanish"@
    ||| name == "spanish - spain"@ && code == "spanish"@
    ||| name == "swedish"@ && code == "swedish"@
    ||| name == "traditional chinese"@ && code == "tchinese"@
    ||| name == "thai"@ && code == "thai"@
    ||| name == "turkish"@ && code == "turkish"@
    ||| name == "ukrainian"@ && code == "ukrainian"@
    ||| name == "vietnamese"@ && code == "vietnamese"@
}

/// Each name of the table of store languages has the code listed beside it.
proof fn lemma_listed_codes()
    ensures
        language_code("english"@) == Some("english"@),
        language_code("french"@) == Some("french"@),
        language_code("italian"@) == Some("italian"@),
        language_code("german"@) == Some("german"@),
        language_code("spanish - spain"@) == Some("spanish"@),
        language_code("spanish"@) == Some("spanish"@),
        language_code("spanish - latin america"@) == Some("latam"@),
        language_code("czech"@) == Some("czech"@),
        language_code("danish"@) == Some("danish"@),
        language_code("dutch"@) == Some("dutch"@),
        language_code("finnish"@) == Some("finnish"@),
        language_code("greek"@) == Some("greek"@),
        language_code("hungarian"@) == Some("hungarian"@),
        language_code("indonesian"@) == Some("indonesian"@),
        language_code("japanese"@) == Some("japanese"@),
        language_code("korean"@) == Some("koreana"@),
        language_code("norwegian"@) == Some("norwegian"@),
        language_code("polish"@) == Some("polish"@),
        language_code("portuguese - portugal"@) == Some("portuguese"@),
        language_code("portuguese"@) == Some("portuguese"@),
        language_code("portuguese - brazil"@) == Some("brazilian"@),
        language_code("romanian"@) == Some("romanian"@),
        language_code("russian"@) == Some("russian"@),
        language_code("simplified chinese"@) == Some("schinese"@),
        language_code("traditional chinese"@) == Some("tchinese"@),
        language_code("swedish"@) == Some("swedish"@),
        language_code("thai"@) == Some("thai"@),
        language_code("turkish"@) == Some("turkish"@),
        language_code("ukrainian"@) == Some("ukrainian"@),
        language_code("vietnamese"@) == Some("vietnamese"@),
        language_code("arabic"@) == Some("arabic"@),
        language_code("bulgarian"@) == Some("bulgarian"@),
{
    reveal_strlit("english");
    assert("english"@[0] == 'e' && "english"@[1] == 'n');
    reveal_strlit("french");
    assert("french"@[0] == 'f' && "french"@[1] == 'r');
    reveal_strlit("italian");
    assert("italian"@[0] == 'i' && "italian"@[1] == 't');
    reveal_strlit("german");
    assert("german"@[0] == 'g' && "german"@[1] == 'e');
    reveal_strlit("spanish - spain");
    assert("spanish - spain"@[0] == 's' && "spanish - spain"@[1] == 'p');
    assert("spanish - spain"@.len() == 15);
    reveal_strlit("spanish");
    assert("spanish"@[0] == 's' && "spanish"@[1] == 'p');
    assert("spanish"@.len() == 7);
    reveal_strlit("spanish - latin america");
    assert("spanish - latin america"@[0] == 's' && "spanish - latin america"@[1] == 'p');
    assert("spanish - latin america"@.len() == 23);
    reveal_strlit("czech");
    assert("czech"@[0] == 'c' && "czech"@[1] == 'z');
    reveal_strlit("danish");
    assert("danish"@[0] == 'd' && "danish"@[1] == 'a');
    reveal_strlit("dutch");
    assert("dutch"@[0] == 'd' && "dutch"@[1] == 'u');
    reveal_strlit("finnish");
    assert("finnish"@[0] == 'f' && "finnish"@[1] == 'i');
    reveal_strlit("greek");
    assert("greek"@[0] == 'g' && "greek"@[1] == 'r');
    reveal_strlit("hungarian");
    assert("hungarian"@[0] == 'h' && "hungarian"@[1] == 'u');
    reveal_strlit("indonesian");
    assert("indonesian"@[0] == 'i' && "indonesian"@[1] == 'n');
    reveal_strlit("japanese");
    assert("japanese"@[0] == 'j' && "japanese"@[1] == 'a');
    reveal_strlit("korean");
    assert("korean"@[0] == 'k' && "korean"@[1] == 'o');
    reveal_strlit("norwegian");
    assert("norwegian"@[0] == 'n' && "norwegian"@[1] == 'o');
    reveal_strlit("polish");
    assert("polish"@[0] == 'p' && "polish"@[1] == 'o');
    reveal_strlit("portuguese - portugal");
    assert("portuguese - portugal"@[0] == 'p' && "portuguese - portugal"@[1] == 'o');
    assert("portuguese - portugal"@.len() == 21);
    reveal_strlit("portuguese");
    assert("portuguese"@[0] == 'p' && "portuguese"@[1] == 'o');
    assert("portuguese"@.len() == 10);
    reveal_strlit("portuguese - brazil");
    assert("portuguese - brazil"@[0] == 'p' && "portuguese - brazil"@[1] == 'o');
    assert("portuguese - brazil"@.len() == 19);
    reveal_strlit("romanian");
    assert("romanian"@[0] == 'r' && "romanian"@[1] == 'o');
    reveal_strlit("russian");
    assert("russian"@[0] == 'r' && "russian"@[1] == 'u');
    reveal_strlit("simplified chinese");
    assert("simplified chinese"@[0] == 's' && "simplified chinese"@[1] == 'i');
    reveal_strlit("traditional chinese");
    assert("traditional chinese"@[0] == 't' && "traditional chinese"@[1] == 'r');
    reveal_strlit("swedish");
    assert("swedish"@[0] == 's' && "swedish"@[1] == 'w');
    reveal_strlit("thai");
    assert("thai"@[0] == 't' && "thai"@[1] == 'h');
    reveal_strlit("turkish");
    assert("turkish"@[0] == 't' && "turkish"@[1] == 'u');
    reveal_strlit("ukrainian");
    assert("ukrainian"@[0] == 'u' && "ukrainian"@[1] == 'k');
    reveal_strlit("vietnamese");
    assert("vietnamese"@[0] == 'v' && "vietnamese"@[1] == 'i');
    reveal_strlit("arabic");
    assert("arabic"@[0] == 'a' && "arabic"@[1] == 'r');
    reveal_strlit("bulgarian");
    assert("bulgarian"@[0] == 'b' && "bulgarian"@[1] == 'u');
}

/// The code of a store language name is the one the table of store languages
/// lists for it, and a name that the table does not list has none.
pub proof fn law_language_code_table(name: Seq<char>, code: Seq<char>)
    ensures
        language_code(name) == Some(code) <==> store_language(name, code),
        (forall|c: Seq<char>| !store_language(name, c)) ==> language_code(name) is None,
{
    lemma_listed_codes();
    if let Some(c) = language_code(name) {
        assert(store_language(name, c));
    }
}

proof fn lemma_trim_ascii(s: Seq<char>)
    ensures
        is_ascii_text(s) ==> is_ascii_text(trim(s)),
{
    lemma_trim_shape(s);
    let (a, b) = choose|a: int, b: int| 0 <= a <= b <= s.len() && trim(s) == s.subrange(a, b);
    assert forall|i: int| 0 <= i < trim(s).len() implies trim(s)[i] == s[a + i] by {}
}

/// Surrounding white space never changes the code of a language name.
pub proof fn law_language_ignores_surrounding_space(raw: Seq<char>)
    ensures
        language_code(lowercase(trim(trim(raw)))) == language_code(lowercase(trim(raw))),
{
    law_trim_idempotent(raw);
}

/// For a name in ASCII, neither case nor surrounding white space changes its
/// code: the trimmed lower-case name is in ASCII and has the same code.
pub proof fn law_language_ignores_case_and_space(raw: Seq<char>)
    requires
        is_ascii_text(raw),
    ensures
        is_ascii_text(ascii_lower(trim(raw))),
        language_code(ascii_lower(trim(ascii_lower(trim(raw))))) == language_code(
            ascii_lower(trim(raw)),
        ),
{
    lemma_trim_ascii(raw);
    let t = trim(raw);
    let l = ascii_lower(t);
    lemma_trim_shape(raw);
    assert forall|i: int| 0 <= i < l.len() implies (#[trigger] l[i] as u32) < 128 by {
        assert((t[i] as u32) < 128);
    }
    assert forall|i: int| 0 <= i < t.len() implies is_white_space(#[trigger] l[i]) == is_white_space(t[i]) by {
        assert((t[i] as u32) < 128);
    }
    if t.len() > 0 {
        assert(is_white_space(l[0]) == is_white_space(t[0]));
        assert(is_white_space(l[l.len() - 1]) == is_white_space(t[t.len() - 1]));
    }
    lemma_trimmed_fixed(l);
    assert(ascii_lower(l) =~= l);
}

// ─── The list of supported languages ──────────────────────────────────────────

/// A trimmed piece of the list without the `*` that marks a language with
/// full audio support (what is left of `<strong>*</strong>` once the tags
/// are removed), when the piece ends with one.
pub open spec fn without_mark(t: Seq<char>) -> Seq<char> {
    if t.len() > 0 && t.last() == '*' {
        t.drop_last()
    } else {
        t
    }
}

/// The note that explains the audio mark.
pub open spec fn audio_note() -> Seq<char> {
    "languages with full audio support"@
}

/// The language list of the store with HTML tags and the note on audio
/// support removed, and double spaces made single.
pub open spec fn cleaned_languages(raw: Seq<char>) -> Seq<char> {
    replace_all(replace_all(without_tags(raw), audio_note(), ""@), "  "@, " "@)
}

/// A comma-separated piece of the list, trimmed, without its audio mark, and
/// in lower case.
pub open spec fn normalized_name(piece: Seq<char>) -> Seq<char> {
    lowercase(trim(without_mark(trim(piece))))
}

/// The normalized language names of a store language list, one per comma-separated piece.
pub open spec fn language_names(raw: Seq<char>) -> Seq<Seq<char>> {
    split_on(cleaned_languages(raw), ',').map_values(|p: Seq<char>| normalized_name(p))
}

/// The codes of the names that are known languages, in order.
pub open spec fn known_codes(names: Seq<Seq<char>>) -> Seq<Seq<char>>
    decreases names.len(),
{
    if names.len() == 0 {
        seq![]
    } else {
        let prev = known_codes(names.drop_last());
        match language_code(names.last()) {
            Some(c) => prev.push(c),
            None => prev,
        }
    }
}

/// `acc` followed by the items not already there, each once, in order.
pub open spec fn add_new(acc: Seq<Seq<char>>, items: Seq<Seq<char>>) -> Seq<Seq<char>>
    decreases items.len(),
{
    if items.len() == 0 {
        acc
    } else {
        let prev = add_new(acc, items.drop_last());
        if prev.contains(items.last()) {
            prev
        } else {
            prev.push(items.last())
        }
    }
}

/// `items` with every repetition dropped: each item once, at its first appearance.
pub open spec fn keep_first(items: Seq<Seq<char>>) -> Seq<Seq<char>> {
    add_new(seq![], items)
}

/// The codes of the known languages among `names`, each once, in order of
/// first appearance.
pub open spec fn codes_once(names: Seq<Seq<char>>) -> Seq<Seq<char>> {
    keep_first(known_codes(names))
}

/// The codes of the languages that a store language list names.
pub open spec fn languages_of(raw: Seq<char>) -> Seq<Seq<char>> {
    codes_once(language_names(raw))
}

/// Whether `c` is the code of some language.
pub open spec fn is_language_code(c: Seq<char>) -> bool {
    exists|name: Seq<char>| language_code(name) == Some(c)
}

proof fn lemma_add_new_distinct(acc: Seq<Seq<char>>, items: Seq<Seq<char>>)
    requires
        acc.no_duplicates(),
    ensures
        add_new(acc, items).no_duplicates(),
    decreases items.len(),
{
    if items.len() > 0 {
        lemma_add_new_distinct(acc, items.drop_last());
    }
}

/// The known codes of a list of names are codes of languages.
proof fn lemma_known_codes_known(names: Seq<Seq<char>>)
    ensures
        forall|i: int| 0 <= i < known_codes(names).len() ==> is_language_code(#[trigger] known_codes(names)[i]),
    decreases names.len(),
{
    if names.len() > 0 {
        lemma_known_codes_known(names.drop_last());
        let prev = known_codes(names.drop_last());
        if let Some(c) = language_code(names.last()) {
            assert(language_code(names.last()) == Some(c));
            assert forall|i: int| 0 <= i < known_codes(names).len() implies is_language_code(
                #[trigger] known_codes(names)[i],
            ) by {
                if i < prev.len() {
                    assert(known_codes(names)[i] == prev[i]);
                }
            }
        }
    }
}

/// A language list never names a language twice, and every code in it is the
/// code of a language the emulator knows.
pub proof fn law_languages_once_and_known(names: Seq<Seq<char>>)
    ensures
        codes_once(names).no_duplicates(),
        forall|i: int| 0 <= i < codes_once(names).len() ==> is_language_code(#[trigger] codes_once(names)[i]),
{
    let k = known_codes(names);
    assert(Seq::<Seq<char>>::empty().no_duplicates());
    lemma_add_new_distinct(seq![], k);
    lemma_add_new_contains(seq![], k);
    lemma_known_codes_known(names);
    assert forall|i: int| 0 <= i < codes_once(names).len() implies is_language_code(#[trigger] codes_once(names)[i]) by {
        assert(codes_once(names).contains(codes_once(names)[i]));
        assert(k.contains(codes_once(names)[i]));
        let j = choose|j: int| 0 <= j < k.len() && k[j] == codes_once(names)[i];
        assert(is_language_code(k[j]));
    }
}

/// Whether `langs` holds a code spelled `c`.
fn holds_code(langs: &Vec<&'static str>, c: &str) -> (r: bool)
    ensures
        r == str_views(langs@).contains(c@),
{
    let cc = chars_of(c);
    let n = langs.len();
    for i in 0..n
        invariant
            n == langs@.len(),
            cc@ == c@,
            forall|k: int| 0 <= k < i ==> langs@[k]@ != c@,
    {
        if chars_eq_str(&cc, langs[i]) {
            proof {
                assert(str_views(langs@)[i as int] == c@);
            }
            return true;
        }
    }
    proof {
        if str_views(langs@).contains(c@) {
            let k = choose|k: int| 0 <= k < str_views(langs@).len() && str_views(langs@)[k] == c@;
            assert(langs@[k]@ == c@);
        }
    }
    false
}

/// The codes of the known languages among `names` (trimmed, lower-case
/// language names), each once, in order of first appearance.
pub fn languages_from_names(names: &Vec<String>) -> (r: Vec<&'static str>)
    ensures
        str_views(r@) == codes_once(string_views(names@)),
        str_views(r@).no_duplicates(),
        forall|i: int| 0 <= i < r@.len() ==> is_language_code(#[trigger] r@[i]@),
{
    let ghost all = string_views(names@);
    let mut langs: Vec<&'static str> = Vec::new();
    let n = names.len();
    for i in 0..n
        invariant
            n == names@.len(),
            all == string_views(names@),
            str_views(langs@) == codes_once(all.take(i as int)),
    {
        proof {
            assert(all.take(i + 1).drop_last() =~= all.take(i as int));
            assert(all.take(i + 1).last() == names@[i as int]@);
        }
        let ghost k0 = known_codes(all.take(i as int));
        if let Some(m) = language_code_for(names[i].as_str()) {
            proof {
                assert(known_codes(all.take(i + 1)) == k0.push(m@));
                assert(k0.push(m@).drop_last() =~= k0);
                assert(codes_once(all.take(i + 1)) == add_new(seq![], k0.push(m@)));
            }
            if !holds_code(&langs, m) {
                let ghost before = langs@;
                langs.push(m);
                proof {
                    assert(str_views(langs@) =~= str_views(before).push(m@));
                }
            }
        }
    }
    proof {
        assert(all.take(n as int) =~= all);
        law_languages_once_and_known(all);
        assert forall|i: int| 0 <= i < langs@.len() implies is_language_code(#[trigger] langs@[i]@) by {
            assert(str_views(langs@)[i] == langs@[i]@);
        }
    }
    langs
}

/// The emulator's codes of the languages in the store's list of supported
/// languages: HTML tags and the note on audio support are dropped, the list
/// is split at commas, the `*` that ends the name of a language with full
/// audio support is dropped, and each known language is kept once, in the
/// order of first appearance.
pub fn parse_languages(raw: &str) -> (r: Vec<&'static str>)
    ensures
        str_views(r@) == languages_of(raw@),
        str_views(r@).no_duplicates(),
        forall|i: int| 0 <= i < r@.len() ==> is_language_code(#[trigger] r@[i]@),
{
    let stripped = remove_matches("<[^>]+>", raw);
    let sc = chars_of(stripped.as_str());
    let note = chars_of("languages with full audio support");
    let nothing = chars_of("");
    let double = chars_of("  ");
    let single = chars_of(" ");
    proof {
        reveal_strlit("languages with full audio support");
        reveal_strlit("  ");
    }
    let without_note = replace_chars(&sc, &note, &nothing);
    let clean = replace_chars(&without_note, &double, &single);
    let pieces = split_chars(&clean, ',');
    let ghost all = split_on(clean@, ',');
    let mut names: Vec<String> = Vec::new();
    let n = pieces.len();
    for i in 0..n
        invariant
            n == pieces@.len(),
            n == all.len(),
            forall|k: int| 0 <= k < n ==> #[trigger] pieces@[k]@ == all[k],
            string_views(names@) == all.take(i as int).map_values(|p: Seq<char>| normalized_name(p)),
    {
        let piece = trim_chars(&pieces[i]);
        let unmarked = if piece.len() > 0 && piece[piece.len() - 1] == '*' {
            sub_chars(&piece, 0, piece.len() - 1)
        } else {
            sub_chars(&piece, 0, piece.len())
        };
        proof {
            assert(piece@.subrange(0, piece@.len() as int) =~= piece@);
            assert(piece@.len() > 0 ==> piece@.subrange(0, piece@.len() - 1) =~= piece@.drop_last());
        }
        let twice = trim_chars(&unmarked);
        let ps = string_of(&twice);
        let name = to_lowercase(ps.as_str());
        let ghost before = names@;
        names.push(name);
        proof {
            assert(string_views(names@) =~= string_views(before).push(name@));
            assert(all.take(i + 1).map_values(|p: Seq<char>| normalized_name(p)) =~= all.take(
                i as int,
            ).map_values(|p: Seq<char>| normalized_name(p)).push(normalized_name(all[i as int])));
        }
    }
    proof {
        assert(all.take(n as int) =~= all);
    }
    languages_from_names(&names)
}

// ─── The language list of two lists joined by a comma ─────────────────────────

proof fn lemma_no_tags(s: Seq<char>)
    requires
        !s.contains('<'),
    ensures
        without_tags(s) == s,
    decreases s.len(),
{
    if s.len() > 0 {
        assert(s[0] != '<');
        assert(!(exists|j: int| tag_ends_at(s, j)));
        assert(!s.drop_first().contains('<')) by {
            if s.drop_first().contains('<') {
                let k = choose|k: int| 0 <= k < s.drop_first().len() && s.drop_first()[k] == '<';
                assert(s[k + 1] == '<');
            }
        }
        lemma_no_tags(s.drop_first());
        assert(seq![s[0]] + s.drop_first() =~= s);
    }
}

proof fn lemma_known_codes_concat(x: Seq<Seq<char>>, y: Seq<Seq<char>>)
    ensures
        known_codes(x + y) == known_codes(x) + known_codes(y),
    decreases y.len(),
{
    if y.len() == 0 {
        assert(x + y =~= x);
        assert(known_codes(x) + Seq::<Seq<char>>::empty() =~= known_codes(x));
    } else {
        assert((x + y).drop_last() =~= x + y.drop_last());
        assert((x + y).last() == y.last());
        lemma_known_codes_concat(x, y.drop_last());
        if let Some(c) = language_code(y.last()) {
            assert((known_codes(x) + known_codes(y.drop_last())).push(c) =~= known_codes(x)
                + known_codes(y.drop_last()).push(c));
        }
    }
}

proof fn lemma_add_new_concat(acc: Seq<Seq<char>>, x: Seq<Seq<char>>, y: Seq<Seq<char>>)
    ensures
        add_new(acc, x + y) == add_new(add_new(acc, x), y),
    decreases y.len(),
{
    if y.len() == 0 {
        assert(x + y =~= x);
    } else {
        assert((x + y).drop_last() =~= x + y.drop_last());
        assert((x + y).last() == y.last());
        lemma_add_new_concat(acc, x, y.drop_last());
    }
}

proof fn lemma_add_new_contains(acc: Seq<Seq<char>>, items: Seq<Seq<char>>)
    ensures
        forall|x: Seq<char>| #[trigger] add_new(acc, items).contains(x) <==> acc.contains(x) || items.contains(x),
    decreases items.len(),
{
    if items.len() > 0 {
        lemma_add_new_contains(acc, items.drop_last());
        let prev = add_new(acc, items.drop_last());
        let y = items.last();
        assert forall|x: Seq<char>| #[trigger] add_new(acc, items).contains(x) <==> acc.contains(x) || items.contains(x) by {
            if items.contains(x) && !items.drop_last().contains(x) {
                let k = choose|k: int| 0 <= k < items.len() && items[k] == x;
                if k < items.len() - 1 {
                    assert(items.drop_last()[k] == x);
                }
                if !prev.contains(y) {
                    assert(prev.push(y)[prev.len() as int] == y);
                }
            }
            if items.drop_last().contains(x) {
                let k = choose|k: int| 0 <= k < items.drop_last().len() && items.drop_last()[k] == x;
                assert(items[k] == x);
            }
            if !prev.contains(y) && prev.push(y).contains(x) {
                let k = choose|k: int| 0 <= k < prev.push(y).len() && prev.push(y)[k] == x;
                if k < prev.len() {
                    assert(prev[k] == x);
                }
            }
            if prev.contains(x) && !prev.contains(y) {
                let k = choose|k: int| 0 <= k < prev.len() && prev[k] == x;
                assert(prev.push(y)[k] == x);
            }
        }
    }
}

/// Adding the items of a list, or the items of that list with repetitions
/// dropped, gives the same.
proof fn lemma_add_new_keep_first(acc: Seq<Seq<char>>, items: Seq<Seq<char>>)
    ensures
        add_new(acc, items) == add_new(acc, keep_first(items)),
    decreases items.len(),
{
    if items.len() > 0 {
        let rest = items.drop_last();
        let y = items.last();
        lemma_add_new_keep_first(acc, rest);
        let kf = keep_first(rest);
        lemma_add_new_contains(seq![], rest);
        lemma_add_new_contains(acc, rest);
        lemma_add_new_contains(acc, kf);
        if kf.contains(y) {
            assert(rest.contains(y));
            assert(add_new(acc, rest).contains(y));
        } else {
            assert(kf.push(y).drop_last() =~= kf);
        }
    }
}

/// The normalized names of the pieces of a text do not change when spaces
/// are put before it.
proof fn lemma_names_after_spaces(u: nat, w: Seq<char>)
    ensures
        split_on(spaces(u) + w, ',').map_values(|p: Seq<char>| normalized_name(p)) == split_on(
            w,
            ',',
        ).map_values(|p: Seq<char>| normalized_name(p)),
{
    assert(!spaces(u).contains(',')) by {
        if spaces(u).contains(',') {
            let k = choose|k: int| 0 <= k < spaces(u).len() && spaces(u)[k] == ',';
        }
    }
    lemma_split_prefix(spaces(u), ',', w);
    let a = split_on(spaces(u) + w, ',');
    let b = split_on(w, ',');
    assert forall|i: int| 0 <= i < a.len() implies #[trigger] normalized_name(a[i]) == normalized_name(b[i]) by {
        if i == 0 {
            lemma_trim_after_spaces(u, b[0]);
        }
    }
    assert(a.map_values(|p: Seq<char>| normalized_name(p)) =~= b.map_values(
        |p: Seq<char>| normalized_name(p),
    ));
}

/// The language list of two lists joined by a comma holds the languages of
/// the first list and then those of the second that the first does not name,
/// each once (for lists without HTML tags).
pub proof fn law_languages_of_joined_lists(a: Seq<char>, b: Seq<char>)
    requires
        !a.contains('<'),
        !b.contains('<'),
    ensures
        languages_of(a + seq![',', ' '] + b) == keep_first(languages_of(a) + languages_of(b)),
{
    reveal_strlit("languages with full audio support");
    reveal_strlit("  ");
    reveal_strlit(" ");
    reveal_strlit("");
    let s = a + seq![',', ' '] + b;
    assert(!s.contains('<')) by {
        if s.contains('<') {
            let k = choose|k: int| 0 <= k < s.len() && s[k] == '<';
            if k < a.len() {
                assert(a[k] == '<');
            } else if k >= a.len() + 2 {
                assert(b[k - a.len() - 2] == '<');
            }
        }
    }
    lemma_no_tags(s);
    lemma_no_tags(a);
    lemma_no_tags(b);
    let note = audio_note();
    let dbl = "  "@;
    let nothing = ""@;
    assert(!note.contains(',')) by {
        if note.contains(',') {
            let k = choose|k: int| 0 <= k < note.len() && note[k] == ',';
        }
    }
    assert(!dbl.contains(',')) by {
        if dbl.contains(',') {
            let k = choose|k: int| 0 <= k < dbl.len() && dbl[k] == ',';
        }
    }
    // The note removal.
    let tail = seq![',', ' '] + b;
    assert(s =~= a + tail);
    lemma_replace_concat(a, tail, note, nothing);
    lemma_replace_head(tail, note, nothing);
    assert(tail.drop_first() =~= seq![' '] + b);
    lemma_replace_head(seq![' '] + b, note, nothing);
    assert((seq![' '] + b).drop_first() =~= b);
    let r1a = replace_all(a, note, nothing);
    let r1b = replace_all(b, note, nothing);
    assert(replace_all(s, note, nothing) =~= r1a + (seq![',', ' '] + r1b));
    let x = r1a;
    let y = r1b;
    // The squeezing of double spaces.
    let tail2 = seq![','] + (seq![' '] + y);
    assert(x + (seq![',', ' '] + y) =~= x + tail2);
    lemma_replace_concat(x, tail2, dbl, " "@);
    lemma_replace_head(tail2, dbl, " "@);
    assert(tail2.drop_first() =~= seq![' '] + y);
    let sx = replace_all(x, dbl, " "@);
    lemma_leading_spaces(y);
    let k = choose|k: nat|
        k <= y.len() && #[trigger] spaces(k) + y.skip(k as int) == y && (y.skip(k as int).len() == 0
            || y.skip(k as int)[0] != ' ');
    let c = y.skip(k as int);
    assert(seq![' '] + y =~= spaces(k + 1) + c);
    lemma_squeeze_run(k + 1, c);
    lemma_squeeze_run(k, c);
    let w = replace_all(c, dbl, " "@);
    assert(cleaned_languages(s) =~= sx + seq![','] + (spaces(((k + 2) / 2) as nat) + w));
    assert(cleaned_languages(a) == sx);
    assert(cleaned_languages(b) == spaces(((k + 1) / 2) as nat) + w);
    // The pieces and their names.
    lemma_split_concat(sx, ',', spaces(((k + 2) / 2) as nat) + w);
    lemma_names_after_spaces(((k + 2) / 2) as nat, w);
    lemma_names_after_spaces(((k + 1) / 2) as nat, w);
    let na = language_names(a);
    let nb = language_names(b);
    assert(language_names(s) =~= na + nb);
    // The codes.
    lemma_known_codes_concat(na, nb);
    lemma_add_new_concat(seq![], known_codes(na), known_codes(nb));
    lemma_add_new_keep_first(codes_once(na), known_codes(nb));
    lemma_add_new_concat(seq![], codes_once(na), codes_once(nb));
    lemma_add_new_keep_first(seq![], known_codes(na));
}

} // verus!
