//! The text of the generated settings files.
use vstd::prelude::*;
use crate::number::{decimal, to_decimal};
use crate::text::{chars_of, owned, push_char, push_str, str_views, string_views};

verus! {

/// Whether `c` cannot stand in a directory name.
pub open spec fn is_reserved_in_names(c: char) -> bool {
    c == '/' || c == '\\' || c == ':' || c == '*' || c == '?' || c == '"' || c == '<' || c == '>'
        || c == '|'
}

/// `c`, or `_` in place of a character that cannot stand in a directory name.
pub open spec fn name_char(c: char) -> char {
    if is_reserved_in_names(c) {
        '_'
    } else {
        c
    }
}

/// The characters that cannot stand in a directory name are exactly those of
/// the list `/ \ : * ? " < > |`.
pub proof fn law_reserved_characters(c: char)
    ensures
        is_reserved_in_names(c) <==> "/\\:*?\"<>|"@.contains(c),
{
    reveal_strlit("/\\:*?\"<>|");
    let l = "/\\:*?\"<>|"@;
    assert(l.len() == 9);
    assert(l[0] == '/' && l[1] == '\\' && l[2] == ':' && l[3] == '*' && l[4] == '?');
    assert(l[5] == '"' && l[6] == '<' && l[7] == '>' && l[8] == '|');
    if is_reserved_in_names(c) {
        if c == '/' {
            assert(l[0] == c);
        } else if c == '\\' {
            assert(l[1] == c);
        } else if c == ':' {
            assert(l[2] == c);
        } else if c == '*' {
            assert(l[3] == c);
        } else if c == '?' {
            assert(l[4] == c);
        } else if c == '"' {
            assert(l[5] == c);
        } else if c == '<' {
            assert(l[6] == c);
        } else if c == '>' {
            assert(l[7] == c);
        } else {
            assert(l[8] == c);
        }
    }
}

/// A game name made usable as a directory name: every character that cannot
/// stand in one is replaced by `_`.
pub fn safe_name(name: &str) -> (r: String)
    ensures
        r@.len() == name@.len(),
        forall|i: int| 0 <= i < name@.len() ==> #[trigger] r@[i] == name_char(name@[i]),
        forall|i: int| 0 <= i < r@.len() ==> !is_reserved_in_names(#[trigger] r@[i]),
{
    let cs = chars_of(name);
    let mut r = String::new();
    let n = cs.len();
    for i in 0..n
        invariant
            n == cs@.len(),
            cs@ == name@,
            r@.len() == i,
            forall|k: int| 0 <= k < i ==> #[trigger] r@[k] == name_char(name@[k]),
    {
        let c = cs[i];
        let out = if c == '/' || c == '\\' || c == ':' || c == '*' || c == '?' || c == '"' || c
            == '<' || c == '>' || c == '|' {
            '_'
        } else {
            c
        };
        push_char(&mut r, out);
    }
    r
}

/// The default output directory of a game: its safe name and its id in parentheses.
pub fn output_dir_name(safe_name: &str, app_id: u64) -> (r: String)
    ensures
        r@ == safe_name@ + " ("@ + decimal(app_id as nat) + ")"@,
{
    let mut r = owned(safe_name);
    push_str(&mut r, " (");
    let d = to_decimal(app_id);
    push_str(&mut r, d.as_str());
    push_str(&mut r, ")");
    r
}

/// The text of `steam_appid.txt`: the id and a line break.
pub fn steam_appid_text(app_id: u64) -> (r: String)
    ensures
        r@ == decimal(app_id as nat) + "\n"@,
{
    let mut r = to_decimal(app_id);
    push_str(&mut r, "\n");
    r
}

/// The lines `lines` joined by line breaks.
pub open spec fn joined(lines: Seq<Seq<char>>) -> Seq<char>
    decreases lines.len(),
{
    if lines.len() == 0 {
        seq![]
    } else if lines.len() == 1 {
        lines[0]
    } else {
        joined(lines.drop_last()) + "\n"@ + lines.last()
    }
}

/// The text of a file of lines: the lines joined by line breaks, and a final
/// line break (a file of no lines is a single line break).
pub open spec fn lines_text_spec(lines: Seq<Seq<char>>) -> Seq<char> {
    joined(lines) + "\n"@
}

/// A file of lines with one more line ends with that line and a line break,
/// after the text of the lines before it, unchanged.
pub proof fn law_lines_text_push(lines: Seq<Seq<char>>, line: Seq<char>)
    requires
        lines.len() > 0,
    ensures
        lines_text_spec(lines.push(line)) == lines_text_spec(lines) + line + "\n"@,
{
    assert(lines.push(line).drop_last() =~= lines);
    assert(lines.push(line).last() == line);
    assert(joined(lines) + "\n"@ + line + "\n"@ =~= lines_text_spec(lines) + line + "\n"@);
}

/// The text of a file with one entry per line.
pub fn lines_text(lines: &Vec<String>) -> (r: String)
    ensures
        r@ == lines_text_spec(string_views(lines@)),
{
    let ghost all = string_views(lines@);
    let mut r = String::new();
    let n = lines.len();
    for i in 0..n
        invariant
            n == lines@.len(),
            all == string_views(lines@),
            r@ == joined(all.take(i as int)),
    {
        proof {
            assert(all.take(i + 1).drop_last() =~= all.take(i as int));
        }
        if i > 0 {
            push_str(&mut r, "\n");
        }
        push_str(&mut r, lines[i].as_str());
        proof {
            if i == 0 {
                assert(r@ =~= all.take(1)[0]);
            }
        }
    }
    proof {
        assert(all.take(n as int) =~= all);
    }
    push_str(&mut r, "\n");
    r
}

/// The text of `supported_languages.txt`: one language code per line.
pub fn languages_text(langs: &Vec<&'static str>) -> (r: String)
    ensures
        r@ == lines_text_spec(str_views(langs@)),
{
    let mut lines: Vec<String> = Vec::new();
    let n = langs.len();
    for i in 0..n
        invariant
            n == langs@.len(),
            string_views(lines@) == str_views(langs@).take(i as int),
    {
        let ghost before = lines@;
        lines.push(owned(langs[i]));
        proof {
            assert(string_views(lines@) =~= string_views(before).push(langs@[i as int]@));
            assert(str_views(langs@).take(i + 1) =~= str_views(langs@).take(i as int).push(
                langs@[i as int]@,
            ));
        }
    }
    proof {
        assert(str_views(langs@).take(n as int) =~= str_views(langs@));
    }
    lines_text(&lines)
}

/// The decimal notations of `ids`.
pub open spec fn decimals(ids: Seq<u64>) -> Seq<Seq<char>> {
    ids.map_values(|x: u64| decimal(x as nat))
}

/// The text of `depots.txt`: one depot id per line.
pub fn depots_text(depots: &Vec<u64>) -> (r: String)
    ensures
        r@ == lines_text_spec(decimals(depots@)),
{
    let mut lines: Vec<String> = Vec::new();
    let n = depots.len();
    for i in 0..n
        invariant
            n == depots@.len(),
            string_views(lines@) == decimals(depots@).take(i as int),
    {
        let ghost before = lines@;
        lines.push(to_decimal(depots[i]));
        proof {
            assert(string_views(lines@) =~= string_views(before).push(decimal(depots@[i as int] as nat)));
            assert(decimals(depots@).take(i + 1) =~= decimals(depots@).take(i as int).push(
                decimal(depots@[i as int] as nat),
            ));
        }
    }
    proof {
        assert(decimals(depots@).take(n as int) =~= decimals(depots@));
    }
    lines_text(&lines)
}

/// The lines of the DLC section, one `id=name` per DLC.
pub open spec fn dlc_lines(dlcs: Seq<(u64, String)>) -> Seq<char>
    decreases dlcs.len(),
{
    if dlcs.len() == 0 {
        seq![]
    } else {
        dlc_lines(dlcs.drop_last()) + decimal(dlcs.last().0 as nat) + "="@ + dlcs.last().1@
            + "\n"@
    }
}

/// The DLC lines of two lists one after the other are those of the first list
/// followed by those of the second: every DLC has its line, in order.
pub proof fn law_dlc_lines_concat(a: Seq<(u64, String)>, b: Seq<(u64, String)>)
    ensures
        dlc_lines(a + b) == dlc_lines(a) + dlc_lines(b),
    decreases b.len(),
{
    if b.len() == 0 {
        assert(a + b =~= a);
        assert(dlc_lines(a) + Seq::<char>::empty() =~= dlc_lines(a));
    } else {
        assert((a + b).drop_last() =~= a + b.drop_last());
        assert((a + b).last() == b.last());
        law_dlc_lines_concat(a, b.drop_last());
        let x = decimal(b.last().0 as nat) + "="@ + b.last().1@ + "\n"@;
        assert(dlc_lines(a + b) == dlc_lines(a + b.drop_last()) + decimal(b.last().0 as nat) + "="@
            + b.last().1@ + "\n"@);
        assert(dlc_lines(a + b.drop_last()) + decimal(b.last().0 as nat) + "="@ + b.last().1@
            + "\n"@ =~= dlc_lines(a + b.drop_last()) + x);
        assert(dlc_lines(b) =~= dlc_lines(b.drop_last()) + x);
        assert(dlc_lines(a) + dlc_lines(b.drop_last()) + x =~= dlc_lines(a) + (dlc_lines(
            b.drop_last(),
        ) + x));
    }
}

/// The text of `configs.app.ini`: the DLC section, whether every DLC is
/// unlocked, and one `id=name` line per DLC, in order.
pub fn app_ini(unlock_all: bool, dlcs: &Vec<(u64, String)>) -> (r: String)
    ensures
        r@ == "[app::dlcs]\nunlock_all="@ + (if unlock_all {
            "1"@
        } else {
            "0"@
        }) + "\n"@ + dlc_lines(dlcs@),
{
    let mut r = owned("[app::dlcs]\nunlock_all=");
    push_str(&mut r, if unlock_all { "1" } else { "0" });
    push_str(&mut r, "\n");
    let ghost head = r@;
    let n = dlcs.len();
    for i in 0..n
        invariant
            n == dlcs@.len(),
            r@ == head + dlc_lines(dlcs@.take(i as int)),
    {
        proof {
            assert(dlcs@.take(i + 1).drop_last() =~= dlcs@.take(i as int));
        }
        let d = to_decimal(dlcs[i].0);
        push_str(&mut r, d.as_str());
        push_str(&mut r, "=");
        push_str(&mut r, dlcs[i].1.as_str());
        push_str(&mut r, "\n");
    }
    proof {
        assert(dlcs@.take(n as int) =~= dlcs@);
    }
    r
}

/// The language of the player: the first supported language, `english` when
/// none is known.
pub fn default_language(langs: &Vec<&'static str>) -> (r: &'static str)
    ensures
        r@ == if langs@.len() > 0 {
            langs@[0]@
        } else {
            "english"@
        },
{
    if langs.len() > 0 {
        langs[0]
    } else {
        "english"
    }
}

/// The text of `configs.user.ini`: the account name, the SteamID64 and the language.
pub fn user_ini(username: &str, steamid: &str, language: &str) -> (r: String)
    ensures
        r@ == "[user::general]\naccount_name="@ + username@ + "\naccount_steamid="@ + steamid@
            + "\nlanguage="@ + language@ + "\n"@,
{
    let mut r = owned("[user::general]\naccount_name=");
    push_str(&mut r, username);
    push_str(&mut r, "\naccount_steamid=");
    push_str(&mut r, steamid);
    push_str(&mut r, "\nlanguage=");
    push_str(&mut r, language);
    push_str(&mut r, "\n");
    r
}

/// The text of `configs.main.ini`: networking left enabled.
pub const MAIN_INI: &'static str = "[connectivity]\nlan_only=0\noffline=0\ndisable_networking=0\n\n[main]\n";

/// The text of `configs.overlay.ini`: the experimental overlay enabled, with
/// notifications at the bottom right.
pub const OVERLAY_INI: &'static str = "[overlay::general]\nenable_experimental_overlay=1\n\n[overlay::appearance]\nNotification_Rounding=10.0\nNotification_Margin_x=5.0\nNotification_Margin_y=5.0\nNotification_Animation=0.35\nPosAchievement=bot_right\n";

} // verus!
