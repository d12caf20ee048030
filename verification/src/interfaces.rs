//! The interface versions named inside a game's `steam_api` library.
use vstd::prelude::*;
use vstd::utf8::{decode_utf8, valid_utf8};
use crate::depots::lemma_push_to_set;
use crate::text::{chars_of, string_of, string_views};

verus! {

/// The regular expression of an interface version: one of the interface
/// names the emulator knows, followed by three digits.
pub const INTERFACE_PATTERN: &'static str = r"(?:SteamClient|SteamGameServerStats|SteamGameServer|SteamMatchMakingServers|SteamMatchMaking|SteamUser|SteamFriends|SteamUtils|SteamNetworking|STEAMUSERSTATS_INTERFACE_VERSION|STEAMAPPS_INTERFACE_VERSION|STEAMREMOTESTORAGE_INTERFACE_VERSION|STEAMSCREENSHOTS_INTERFACE_VERSION|STEAMHTTP_INTERFACE_VERSION|STEAMUNIFIEDMESSAGES_INTERFACE_VERSION|STEAMCONTROLLER_INTERFACE_VERSION|SteamController|STEAMUGC_INTERFACE_VERSION|STEAMAPPLIST_INTERFACE_VERSION|STEAMMUSIC_INTERFACE_VERSION|STEAMMUSICREMOTE_INTERFACE_VERSION|STEAMHTMLSURFACE_INTERFACE_VERSION_|STEAMINVENTORY_INTERFACE_V|STEAMVIDEO_INTERFACE_V|SteamMasterServerUpdater)\d{3}";

/// What `String::from_utf8_lossy` gives for `bytes`.
pub uninterp spec fn lossy_text(bytes: Seq<u8>) -> Seq<char>;

/// `String::from_utf8_lossy`.
///
/// Trusted: the result depends on the bytes alone, and is their decoding
/// when they are valid UTF-8; how invalid sequences are replaced is not stated.
#[verifier::external_body]
fn decode_lossy(bytes: &[u8]) -> (r: String)
    ensures
        r@ == lossy_text(bytes@),
        valid_utf8(bytes@) ==> r@ == decode_utf8(bytes@),
{
    String::from_utf8_lossy(bytes).into_owned()
}

/// The interface names of `INTERFACE_PATTERN`, in the order of its alternatives.
pub open spec fn interface_names() -> Seq<Seq<char>> {
    seq![
        "SteamClient"@,
        "SteamGameServerStats"@,
        "SteamGameServer"@,
        "SteamMatchMakingServers"@,
        "SteamMatchMaking"@,
        "SteamUser"@,
        "SteamFriends"@,
        "SteamUtils"@,
        "SteamNetworking"@,
        "STEAMUSERSTATS_INTERFACE_VERSION"@,
        "STEAMAPPS_INTERFACE_VERSION"@,
        "STEAMREMOTESTORAGE_INTERFACE_VERSION"@,
        "STEAMSCREENSHOTS_INTERFACE_VERSION"@,
        "STEAMHTTP_INTERFACE_VERSION"@,
        "STEAMUNIFIEDMESSAGES_INTERFACE_VERSION"@,
        "STEAMCONTROLLER_INTERFACE_VERSION"@,
        "SteamController"@,
        "STEAMUGC_INTERFACE_VERSION"@,
        "STEAMAPPLIST_INTERFACE_VERSION"@,
        "STEAMMUSIC_INTERFACE_VERSION"@,
        "STEAMMUSICREMOTE_INTERFACE_VERSION"@,
        "STEAMHTMLSURFACE_INTERFACE_VERSION_"@,
        "STEAMINVENTORY_INTERFACE_V"@,
        "STEAMVIDEO_INTERFACE_V"@,
        "SteamMasterServerUpdater"@,
    ]
}

/// The ranges of code points of the Unicode decimal digits (general category
/// `Nd`, Unicode 16.0), which `\d` matches in the regex crate's default
/// Unicode mode, as listed in its `regex-syntax` tables.
pub open spec fn decimal_digit_ranges() -> Seq<(u32, u32)> {
    seq![
        (0x30, 0x39),
        (0x660, 0x669),
        (0x6f0, 0x6f9),
        (0x7c0, 0x7c9),
        (0x966, 0x96f),
        (0x9e6, 0x9ef),
        (0xa66, 0xa6f),
        (0xae6, 0xaef),
        (0xb66, 0xb6f),
        (0xbe6, 0xbef),
        (0xc66, 0xc6f),
        (0xce6, 0xcef),
        (0xd66, 0xd6f),
        (0xde6, 0xdef),
        (0xe50, 0xe59),
        (0xed0, 0xed9),
        (0xf20, 0xf29),
        (0x1040, 0x1049),
        (0x1090, 0x1099),
        (0x17e0, 0x17e9),
        (0x1810, 0x1819),
        (0x1946, 0x194f),
        (0x19d0, 0x19d9),
        (0x1a80, 0x1a89),
        (0x1a90, 0x1a99),
        (0x1b50, 0x1b59),
        (0x1bb0, 0x1bb9),
        (0x1c40, 0x1c49),
        (0x1c50, 0x1c59),
        (0xa620, 0xa629),
        (0xa8d0, 0xa8d9),
        (0xa900, 0xa909),
        (0xa9d0, 0xa9d9),
        (0xa9f0, 0xa9f9),
        (0xaa50, 0xaa59),
        (0xabf0, 0xabf9),
        (0xff10, 0xff19),
        (0x104a0, 0x104a9),
        (0x10d30, 0x10d39),
        (0x10d40, 0x10d49),
        (0x11066, 0x1106f),
        (0x110f0, 0x110f9),
        (0x11136, 0x1113f),
        (0x111d0, 0x111d9),
        (0x112f0, 0x112f9),
        (0x11450, 0x11459),
        (0x114d0, 0x114d9),
        (0x11650, 0x11659),
        (0x116c0, 0x116c9),
        (0x116d0, 0x116e3),
        (0x11730, 0x11739),
        (0x118e0, 0x118e9),
        (0x11950, 0x11959),
        (0x11bf0, 0x11bf9),
        (0x11c50, 0x11c59),
        (0x11d50, 0x11d59),
        (0x11da0, 0x11da9),
        (0x11f50, 0x11f59),
        (0x16130, 0x16139),
        (0x16a60, 0x16a69),
        (0x16ac0, 0x16ac9),
        (0x16b50, 0x16b59),
        (0x16d70, 0x16d79),
        (0x1ccf0, 0x1ccf9),
        (0x1d7ce, 0x1d7ff),
        (0x1e140, 0x1e149),
        (0x1e2f0, 0x1e2f9),
        (0x1e4f0, 0x1e4f9),
        (0x1e5f1, 0x1e5fa),
        (0x1e950, 0x1e959),
        (0x1fbf0, 0x1fbf9),
    ]
}

/// Whether `c` is a Unicode decimal digit.
pub open spec fn is_decimal_digit(c: char) -> bool {
    exists|i: int|
        0 <= i < decimal_digit_ranges().len() && #[trigger] decimal_digit_ranges()[i].0 <= c as u32
            <= decimal_digit_ranges()[i].1
}

/// Whether `m` is an interface name followed by exactly three decimal digits
/// (the version).
pub open spec fn has_interface_shape(m: Seq<char>) -> bool {
    &&& exists|k: int|
        0 <= k < interface_names().len() && m.len() == interface_names()[k].len() + 3 && #[trigger] m.take(
            interface_names()[k].len() as int,
        ) == interface_names()[k]
    &&& forall|j: int| m.len() - 3 <= j < m.len() ==> is_decimal_digit(#[trigger] m[j])
}

/// The texts of the successive non-overlapping matches of `INTERFACE_PATTERN`
/// in `text`, as `regex::Regex::find_iter` finds them.
pub uninterp spec fn interface_matches(text: Seq<char>) -> Seq<Seq<char>>;

/// `regex::Regex::find_iter` for the interface pattern.
///
/// Trusted: the matches depend on the text alone; each is a match of the
/// pattern, so one of its interface names followed by three characters that
/// `\d` matches (Unicode decimal digits). Which parts of the text match is left to the regex crate and
/// not stated. The pattern is a valid regular expression, so compiling it
/// does not fail.
#[verifier::external_body]
fn find_matches(pattern: &str, haystack: &str) -> (r: Vec<String>)
    requires
        pattern@ == INTERFACE_PATTERN@,
    ensures
        r@.len() == interface_matches(haystack@).len(),
        forall|i: int| 0 <= i < r@.len() ==> #[trigger] r@[i]@ == interface_matches(haystack@)[i],
        forall|i: int| 0 <= i < r@.len() ==> has_interface_shape(#[trigger] r@[i]@),
{
    let re = regex::Regex::new(pattern).unwrap();
    re.find_iter(haystack).map(|m| m.as_str().to_string()).collect()
}

// ─── Ordering of texts ────────────────────────────────────────────────────────

/// Whether `a` comes before `b` in the lexicographic order of code points (the
/// order of `String`, whose bytes are UTF-8).
pub open spec fn lex_less(a: Seq<char>, b: Seq<char>) -> bool
    decreases a.len(),
{
    if a.len() == 0 {
        b.len() > 0
    } else if b.len() == 0 {
        false
    } else if a[0] != b[0] {
        (a[0] as u32) < (b[0] as u32)
    } else {
        lex_less(a.drop_first(), b.drop_first())
    }
}

proof fn lemma_lex_irreflexive(a: Seq<char>)
    ensures
        !lex_less(a, a),
    decreases a.len(),
{
    if a.len() > 0 {
        lemma_lex_irreflexive(a.drop_first());
    }
}

proof fn lemma_lex_total(a: Seq<char>, b: Seq<char>)
    ensures
        a == b || lex_less(a, b) || lex_less(b, a),
    decreases a.len(),
{
    if a.len() > 0 && b.len() > 0 {
        if a[0] == b[0] {
            lemma_lex_total(a.drop_first(), b.drop_first());
            if a.drop_first() == b.drop_first() {
                assert(a =~= seq![a[0]] + a.drop_first());
                assert(b =~= seq![b[0]] + b.drop_first());
            }
        } else {
            vstd::utf8::char_u32_cast(a[0], a[0] as u32);
            vstd::utf8::char_u32_cast(b[0], b[0] as u32);
        }
    } else if a.len() == 0 && b.len() == 0 {
        assert(a =~= b);
    }
}

proof fn lemma_lex_transitive(a: Seq<char>, b: Seq<char>, c: Seq<char>)
    requires
        lex_less(a, b),
        lex_less(b, c),
    ensures
        lex_less(a, c),
    decreases a.len(),
{
    if a.len() > 0 && b.len() > 0 && c.len() > 0 {
        if a[0] == b[0] && b[0] == c[0] {
            lemma_lex_transitive(a.drop_first(), b.drop_first(), c.drop_first());
        } else {
            vstd::utf8::char_u32_cast(a[0], a[0] as u32);
            vstd::utf8::char_u32_cast(b[0], b[0] as u32);
            vstd::utf8::char_u32_cast(c[0], c[0] as u32);
        }
    }
}

/// Whether `a` comes before `b`.
fn chars_less(a: &Vec<char>, b: &Vec<char>) -> (r: bool)
    ensures
        r == lex_less(a@, b@),
{
    let mut i: usize = 0;
    proof {
        assert(a@.skip(0) =~= a@);
        assert(b@.skip(0) =~= b@);
    }
    while i < a.len() && i < b.len() && a[i] == b[i]
        invariant
            i <= a@.len(),
            i <= b@.len(),
            lex_less(a@, b@) == lex_less(a@.skip(i as int), b@.skip(i as int)),
        decreases a@.len() - i,
    {
        proof {
            assert(a@.skip(i as int).drop_first() =~= a@.skip(i + 1));
            assert(b@.skip(i as int).drop_first() =~= b@.skip(i + 1));
        }
        i += 1;
    }
    if i == a.len() {
        i < b.len()
    } else if i == b.len() {
        false
    } else {
        (a[i] as u32) < (b[i] as u32)
    }
}

/// The views of a list of character vectors.
pub open spec fn char_views(v: Seq<Vec<char>>) -> Seq<Seq<char>> {
    v.map_values(|x: Vec<char>| x@)
}

/// Whether every text of `s` comes before the next.
pub open spec fn strictly_ascending(s: Seq<Seq<char>>) -> bool {
    forall|i: int, j: int| 0 <= i < j < s.len() ==> lex_less(#[trigger] s[i], #[trigger] s[j])
}

/// Adds `x` to a strictly ascending list of texts, keeping it so.
fn insert_text(v: &mut Vec<Vec<char>>, x: Vec<char>)
    requires
        strictly_ascending(char_views(old(v)@)),
    ensures
        strictly_ascending(char_views(final(v)@)),
        char_views(final(v)@).to_set() == char_views(old(v)@).to_set().insert(x@),
{
    let ghost old_s = char_views(v@);
    let n = v.len();
    let mut p: usize = 0;
    while p < n && chars_less(&v[p], &x)
        invariant
            n == v@.len(),
            p <= n,
            old_s == char_views(v@),
            forall|t: int| 0 <= t < p ==> lex_less(old_s[t], x@),
        decreases n - p,
    {
        p += 1;
    }
    if p < n && crate::text::same_chars(&v[p], &x) {
        proof {
            assert(old_s[p as int] == x@);
            assert(old_s.to_set().insert(x@) =~= old_s.to_set());
        }
        return;
    }
    let ghost xv = x@;
    proof {
        if p < n {
            lemma_lex_total(old_s[p as int], xv);
        }
    }
    v.insert(p, x);
    proof {
        let s = char_views(v@);
        assert(s =~= old_s.insert(p as int, xv));
        assert forall|i: int, j: int| 0 <= i < j < s.len() implies lex_less(#[trigger] s[i], #[trigger] s[j]) by {
            if j < p {
                assert(s[i] == old_s[i] && s[j] == old_s[j]);
            } else if j == p {
                assert(s[i] == old_s[i]);
            } else if i < p {
                assert(s[i] == old_s[i] && s[j] == old_s[j - 1]);
                if j - 1 > p {
                    lemma_lex_transitive(xv, old_s[p as int], old_s[j - 1]);
                }
                lemma_lex_transitive(old_s[i], xv, old_s[j - 1]);
            } else if i == p {
                assert(s[j] == old_s[j - 1]);
                if j - 1 > p {
                    lemma_lex_transitive(xv, old_s[p as int], old_s[j - 1]);
                }
            } else {
                assert(s[i] == old_s[i - 1] && s[j] == old_s[j - 1]);
            }
        }
        assert forall|y: Seq<char>| s.contains(y) <==> old_s.to_set().insert(xv).contains(y) by {
            if s.contains(y) {
                let i = choose|i: int| 0 <= i < s.len() && s[i] == y;
                if i < p {
                    assert(old_s[i] == y);
                } else if i > p {
                    assert(old_s[i - 1] == y);
                }
            }
            if old_s.contains(y) {
                let i = choose|i: int| 0 <= i < old_s.len() && old_s[i] == y;
                if i < p {
                    assert(s[i] == y);
                } else {
                    assert(s[i + 1] == y);
                }
            }
            if y == xv {
                assert(s[p as int] == xv);
            }
        }
        assert(s.to_set() =~= old_s.to_set().insert(xv));
    }
}

/// The texts of `found`, each once, in ascending order (the order of a
/// `BTreeSet<String>`, kept here in a sorted vector because vstd states the
/// behaviour of a `BTreeSet` only for keys whose ordering it knows, which
/// `String` is not).
pub fn sorted_unique_texts(found: &Vec<String>) -> (r: Vec<String>)
    ensures
        strictly_ascending(string_views(r@)),
        string_views(r@).to_set() == string_views(found@).to_set(),
{
    let ghost all = string_views(found@);
    let mut sorted: Vec<Vec<char>> = Vec::new();
    let n = found.len();
    proof {
        assert(char_views(sorted@).to_set() =~= all.take(0).to_set());
    }
    for i in 0..n
        invariant
            n == found@.len(),
            all == string_views(found@),
            strictly_ascending(char_views(sorted@)),
            char_views(sorted@).to_set() == all.take(i as int).to_set(),
    {
        let cs = chars_of(found[i].as_str());
        insert_text(&mut sorted, cs);
        proof {
            assert(all.take(i + 1) =~= all.take(i as int).push(all[i as int]));
            lemma_push_to_set(all.take(i as int), all[i as int]);
        }
    }
    proof {
        assert(all.take(n as int) =~= all);
    }
    let mut r: Vec<String> = Vec::new();
    let m = sorted.len();
    for k in 0..m
        invariant
            m == sorted@.len(),
            string_views(r@) == char_views(sorted@).take(k as int),
    {
        let t = string_of(&sorted[k]);
        let ghost before = r@;
        r.push(t);
        proof {
            assert(string_views(r@) =~= string_views(before).push(t@));
            assert(char_views(sorted@).take(k + 1) =~= char_views(sorted@).take(k as int).push(
                sorted@[k as int]@,
            ));
        }
    }
    proof {
        assert(char_views(sorted@).take(m as int) =~= char_views(sorted@));
    }
    r
}

/// The interface versions named in a `steam_api` library file: every match
/// of `INTERFACE_PATTERN` in its text (invalid UTF-8 replaced), once each, in
/// ascending order; each is an interface name followed by three decimal digits.
pub fn extract_interfaces(bytes: &[u8]) -> (r: Vec<String>)
    ensures
        strictly_ascending(string_views(r@)),
        string_views(r@).to_set() == interface_matches(lossy_text(bytes@)).to_set(),
        forall|i: int| 0 <= i < r@.len() ==> has_interface_shape(#[trigger] r@[i]@),
{
    let text = decode_lossy(bytes);
    let found = find_matches(INTERFACE_PATTERN, text.as_str());
    proof {
        assert(string_views(found@) =~= interface_matches(text@));
    }
    let r = sorted_unique_texts(&found);
    proof {
        assert forall|i: int| 0 <= i < r@.len() implies has_interface_shape(#[trigger] r@[i]@) by {
            assert(string_views(r@).to_set().contains(string_views(r@)[i]));
            assert(string_views(found@).to_set().contains(r@[i]@));
            let k = choose|k: int| 0 <= k < found@.len() && string_views(found@)[k] == r@[i]@;
            assert(has_interface_shape(found@[k]@));
        }
    }
    r
}

} // verus!
