//! Achievement definitions, as Steam gives them and as the emulator reads them.
use vstd::prelude::*;
use crate::text::{chars_of, owned, push_str, string_of, sub_chars};

verus! {

/// An achievement as the game schema service describes it.
pub struct Achievement {
    pub name: String,
    pub display_name: String,
    pub description: Option<String>,
    pub hidden: Option<u8>,
    pub icon: Option<String>,
    pub icongray: Option<String>,
}

/// An achievement as the emulator reads it from `achievements.json`.
pub struct GbeAchievement {
    pub description: String,
    pub display_name: String,
    pub hidden: u8,
    pub icon: String,
    pub icongray: String,
    pub name: String,
}

/// The part of `s` after its last `/` (all of `s` when it has none): the
/// first piece that `rsplit('/')` yields.
pub open spec fn last_segment(s: Seq<char>) -> Seq<char>
    decreases s.len(),
{
    if s.len() == 0 {
        s
    } else if s.last() == '/' {
        seq![]
    } else {
        last_segment(s.drop_last()).push(s.last())
    }
}

/// The last segment of an address holds no `/`, and the address is made of
/// what comes before it, either nothing or text ending in `/`, followed by it.
pub proof fn law_last_segment(s: Seq<char>)
    ensures
        !last_segment(s).contains('/'),
        last_segment(s).len() <= s.len(),
        s =~= s.take(s.len() - last_segment(s).len()) + last_segment(s),
        last_segment(s).len() == s.len() || s[s.len() - last_segment(s).len() - 1] == '/',
    decreases s.len(),
{
    if s.len() > 0 && s.last() != '/' {
        let p = s.drop_last();
        law_last_segment(p);
        let lp = last_segment(p);
        let l = last_segment(s);
        assert(l == lp.push(s.last()));
        assert forall|i: int| 0 <= i < l.len() implies l[i] != '/' by {
            if i < lp.len() {
                assert(lp[i] == l[i]);
                assert(!lp.contains('/'));
                if lp[i] == '/' {
                    assert(lp.contains('/'));
                }
            }
        }
        assert(s.take(s.len() - l.len()) =~= p.take(p.len() - lp.len()));
        if lp.len() < p.len() {
            assert(s[s.len() - l.len() - 1] == p[p.len() - lp.len() - 1]);
        }
        assert(s =~= p.push(s.last()));
        assert(p.take(p.len() - lp.len()) + lp.push(s.last()) =~= (p.take(p.len() - lp.len())
            + lp).push(s.last()));
    } else {
        assert(last_segment(s).len() == 0);
        assert(s.take(s.len() as int) =~= s);
    }
}

/// The file name of an icon: the last segment of its address, or `fallback`
/// when there is no address.
pub open spec fn icon_file_spec(url: Option<String>, fallback: Seq<char>) -> Seq<char> {
    match url {
        Some(u) => last_segment(u@),
        None => fallback,
    }
}

/// The file name under which an icon is stored.
pub fn icon_file(url: &Option<String>, fallback: &str) -> (r: String)
    ensures
        r@ == icon_file_spec(*url, fallback@),
{
    match url {
        Some(u) => {
            let cs = chars_of(u.as_str());
            let n = cs.len();
            let mut j: usize = n;
            proof {
                assert(cs@.subrange(0, n as int) =~= cs@);
            }
            while j > 0 && cs[j - 1] != '/'
                invariant
                    n == cs@.len(),
                    j <= n,
                    last_segment(cs@) == last_segment(cs@.subrange(0, j as int)) + cs@.subrange(
                        j as int,
                        n as int,
                    ),
                decreases j,
            {
                proof {
                    let pre = cs@.subrange(0, j as int);
                    assert(pre.drop_last() =~= cs@.subrange(0, j - 1));
                    assert(cs@.subrange(j - 1, n as int) =~= seq![pre.last()] + cs@.subrange(
                        j as int,
                        n as int,
                    ));
                    assert(last_segment(pre) == last_segment(pre.drop_last()).push(pre.last()));
                    assert(last_segment(pre.drop_last()).push(pre.last()) + cs@.subrange(
                        j as int,
                        n as int,
                    ) =~= last_segment(pre.drop_last()) + (seq![pre.last()] + cs@.subrange(
                        j as int,
                        n as int,
                    )));
                }
                j -= 1;
            }
            proof {
                assert(last_segment(cs@.subrange(0, j as int)) =~= Seq::<char>::empty());
                assert(last_segment(cs@) =~= cs@.subrange(j as int, n as int));
            }
            let tail = sub_chars(&cs, j, n);
            string_of(&tail)
        },
        None => owned(fallback),
    }
}

/// The text of an optional string, empty when absent.
pub open spec fn text_or_empty(s: Option<String>) -> Seq<char> {
    match s {
        Some(t) => t@,
        None => seq![],
    }
}

/// Whether `g` is what the emulator is told of the achievement `a`.
pub open spec fn describes_achievement(g: GbeAchievement, a: Achievement) -> bool {
    &&& g.description@ == text_or_empty(a.description)
    &&& g.display_name@ == a.display_name@
    &&& g.hidden == match a.hidden {
        Some(h) => h,
        None => 0u8,
    }
    &&& g.icon@ == "achievement_images/"@ + icon_file_spec(a.icon, "unknown.jpg"@)
    &&& g.icongray@ == "achievement_images/"@ + icon_file_spec(a.icongray, "unknown_gray.jpg"@)
    &&& g.name@ == a.name@
}

/// Each icon that the emulator is told of comes from its own address in the
/// schema, whatever the other one is: the colour icon is the last segment of
/// `icon` and the gray icon that of `icongray`, both under
/// `achievement_images/`, with `unknown.jpg` and `unknown_gray.jpg` for an
/// address that the schema does not give.
pub proof fn law_icons_from_own_address(g: GbeAchievement, a: Achievement)
    requires
        describes_achievement(g, a),
    ensures
        forall|u: String|
            a.icon == Some(u) ==> g.icon@ == "achievement_images/"@ + last_segment(#[trigger] u@),
        a.icon is None ==> g.icon@ == "achievement_images/"@ + "unknown.jpg"@,
        forall|u: String|
            a.icongray == Some(u) ==> g.icongray@ == "achievement_images/"@ + last_segment(
                #[trigger] u@,
            ),
        a.icongray is None ==> g.icongray@ == "achievement_images/"@ + "unknown_gray.jpg"@,
{
}

/// What the emulator is told of an achievement: a missing description is
/// empty, a missing hidden flag is 0, and the icons are the files stored
/// under `achievement_images/` (`unknown.jpg` and `unknown_gray.jpg` when
/// the schema gives no icon).
pub fn gbe_achievement(a: &Achievement) -> (r: GbeAchievement)
    ensures
        describes_achievement(r, *a),
{
    let description = match &a.description {
        Some(d) => owned(d.as_str()),
        None => String::new(),
    };
    let hidden = match a.hidden {
        Some(h) => h,
        None => 0,
    };
    let mut icon = owned("achievement_images/");
    let f = icon_file(&a.icon, "unknown.jpg");
    push_str(&mut icon, f.as_str());
    let mut icongray = owned("achievement_images/");
    let g = icon_file(&a.icongray, "unknown_gray.jpg");
    push_str(&mut icongray, g.as_str());
    GbeAchievement {
        description,
        display_name: owned(a.display_name.as_str()),
        hidden,
        icon,
        icongray,
        name: owned(a.name.as_str()),
    }
}

/// What the emulator is told of each achievement, in order.
pub fn gbe_achievements(list: &Vec<Achievement>) -> (r: Vec<GbeAchievement>)
    ensures
        r@.len() == list@.len(),
        forall|i: int| 0 <= i < list@.len() ==> describes_achievement(#[trigger] r@[i], list@[i]),
{
    let mut r: Vec<GbeAchievement> = Vec::new();
    let n = list.len();
    for i in 0..n
        invariant
            n == list@.len(),
            r@.len() == i,
            forall|k: int| 0 <= k < i ==> describes_achievement(#[trigger] r@[k], list@[k]),
    {
        r.push(gbe_achievement(&list[i]));
    }
    r
}

/// The first 40 characters of a name, shown while its icons are fetched.
pub fn progress_label(name: &str) -> (r: String)
    ensures
        r@ == if name@.len() <= 40 {
            name@
        } else {
            name@.take(40)
        },
{
    let cs = chars_of(name);
    let end = if cs.len() <= 40 {
        cs.len()
    } else {
        40
    };
    let t = sub_chars(&cs, 0, end);
    proof {
        assert(cs@.subrange(0, cs@.len() as int) =~= cs@);
    }
    string_of(&t)
}

} // verus!
