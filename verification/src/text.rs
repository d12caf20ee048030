//! Character-level text utilities with exact specifications.
use vstd::prelude::*;

verus! {

/// Appends one character to a `String` (`String::push`).
#[verifier::external_body]
pub(crate) fn push_char(s: &mut String, c: char)
    ensures
        final(s)@ == old(s)@.push(c),
{
    s.push(c);
}

/// The characters of a string slice, in order.
pub fn chars_of(s: &str) -> (r: Vec<char>)
    ensures
        r@ == s@,
{
    let mut r: Vec<char> = Vec::new();
    for c in it: s.chars()
        invariant
            r@ == it.seq().take(it.index()),
            it.seq() == s@,
    {
        r.push(c);
    }
    proof {
        assert(r@ =~= s@);
    }
    r
}

/// The string made of the given characters.
pub fn string_of(cs: &Vec<char>) -> (r: String)
    ensures
        r@ == cs@,
{
    let mut r = String::new();
    let n = cs.len();
    for i in 0..n
        invariant
            n == cs@.len(),
            r@ == cs@.take(i as int),
    {
        push_char(&mut r, cs[i]);
        proof {
            assert(cs@.take(i + 1) =~= cs@.take(i as int).push(cs@[i as int]));
        }
    }
    proof {
        assert(cs@.take(n as int) =~= cs@);
    }
    r
}

} // verus!

verus! {

/// Whether two character sequences are equal.
pub fn same_chars(a: &Vec<char>, b: &Vec<char>) -> (r: bool)
    ensures
        r == (a@ == b@),
{
    if a.len() != b.len() {
        return false;
    }
    let n = a.len();
    for i in 0..n
        invariant
            n == a@.len(),
            n == b@.len(),
            a@.take(i as int) == b@.take(i as int),
    {
        if a[i] != b[i] {
            return false;
        }
        proof {
            assert(a@.take(i + 1) =~= a@.take(i as int).push(a@[i as int]));
            assert(b@.take(i + 1) =~= b@.take(i as int).push(b@[i as int]));
        }
    }
    proof {
        assert(a@.take(n as int) =~= a@);
        assert(b@.take(n as int) =~= b@);
    }
    true
}

/// Whether the characters of `a` spell exactly the string slice `b`.
pub fn chars_eq_str(a: &Vec<char>, b: &str) -> (r: bool)
    ensures
        r == (a@ == b@),
{
    let bc = chars_of(b);
    same_chars(a, &bc)
}

/// The characters of `s` from index `from` up to (not including) `to`.
pub fn sub_chars(s: &Vec<char>, from: usize, to: usize) -> (r: Vec<char>)
    requires
        from <= to <= s@.len(),
    ensures
        r@ == s@.subrange(from as int, to as int),
{
    let mut r: Vec<char> = Vec::new();
    let mut i = from;
    while i < to
        invariant
            from <= i <= to <= s@.len(),
            r@ == s@.subrange(from as int, i as int),
        decreases to - i,
    {
        r.push(s[i]);
        proof {
            assert(s@.subrange(from as int, i + 1) =~= s@.subrange(from as int, i as int).push(
                s@[i as int],
            ));
        }
        i += 1;
    }
    r
}

/// Appends every character of `cs` to `s`.
pub fn push_chars(s: &mut String, cs: &Vec<char>)
    ensures
        final(s)@ == old(s)@ + cs@,
{
    let n = cs.len();
    for i in 0..n
        invariant
            n == cs@.len(),
            s@ == old(s)@ + cs@.take(i as int),
    {
        push_char(s, cs[i]);
        proof {
            assert(cs@.take(i + 1) =~= cs@.take(i as int).push(cs@[i as int]));
        }
    }
    proof {
        assert(cs@.take(n as int) =~= cs@);
    }
}

/// Appends every character of `t` to `s`.
pub fn push_str(s: &mut String, t: &str)
    ensures
        final(s)@ == old(s)@ + t@,
{
    let cs = chars_of(t);
    push_chars(s, &cs);
}

// ─── White space and trimming ─────────────────────────────────────────────────

/// Unicode `White_Space`: the characters that `str::trim` removes.
pub open spec fn is_white_space(c: char) -> bool {
    let u = c as u32;
    ||| 0x9 <= u <= 0xd
    ||| u == 0x20
    ||| u == 0x85
    ||| u == 0xa0
    ||| u == 0x1680
    ||| 0x2000 <= u <= 0x200a
    ||| u == 0x2028
    ||| u == 0x2029
    ||| u == 0x202f
    ||| u == 0x205f
    ||| u == 0x3000
}

/// `s` without its leading white space.
pub open spec fn trim_start(s: Seq<char>) -> Seq<char>
    decreases s.len(),
{
    if s.len() > 0 && is_white_space(s[0]) {
        trim_start(s.drop_first())
    } else {
        s
    }
}

/// `s` without its trailing white space.
pub open spec fn trim_end(s: Seq<char>) -> Seq<char>
    decreases s.len(),
{
    if s.len() > 0 && is_white_space(s.last()) {
        trim_end(s.drop_last())
    } else {
        s
    }
}

/// `s` without leading and trailing white space (what `str::trim` returns).
pub open spec fn trim(s: Seq<char>) -> Seq<char> {
    trim_end(trim_start(s))
}

/// Whether `c` is Unicode white space.
pub fn white_space(c: char) -> (r: bool)
    ensures
        r == is_white_space(c),
{
    let u = c as u32;
    (0x9 <= u && u <= 0xd) || u == 0x20 || u == 0x85 || u == 0xa0 || u == 0x1680 || (0x2000 <= u
        && u <= 0x200a) || u == 0x2028 || u == 0x2029 || u == 0x202f || u == 0x205f || u == 0x3000
}

/// The characters of `cs` without leading and trailing white space.
pub fn trim_chars(cs: &Vec<char>) -> (r: Vec<char>)
    ensures
        r@ == trim(cs@),
{
    let n = cs.len();
    let mut i: usize = 0;
    proof {
        assert(cs@.skip(0) =~= cs@);
    }
    while i < n && white_space(cs[i])
        invariant
            n == cs@.len(),
            i <= n,
            trim_start(cs@) == trim_start(cs@.skip(i as int)),
        decreases n - i,
    {
        proof {
            assert(cs@.skip(i as int).drop_first() =~= cs@.skip(i + 1));
        }
        i += 1;
    }
    let mut j: usize = n;
    proof {
        assert(cs@.subrange(i as int, n as int) =~= cs@.skip(i as int));
    }
    while j > i && white_space(cs[j - 1])
        invariant
            n == cs@.len(),
            i <= j <= n,
            trim_start(cs@) == cs@.skip(i as int),
            trim(cs@) == trim_end(cs@.subrange(i as int, j as int)),
        decreases j - i,
    {
        proof {
            assert(cs@.subrange(i as int, j as int).drop_last() =~= cs@.subrange(
                i as int,
                j - 1,
            ));
        }
        j -= 1;
    }
    sub_chars(cs, i, j)
}

/// `s` without leading and trailing white space.
pub fn trim_str(s: &str) -> (r: Vec<char>)
    ensures
        r@ == trim(s@),
{
    let cs = chars_of(s);
    trim_chars(&cs)
}

} // verus!

verus! {

// ─── Splitting and replacing ──────────────────────────────────────────────────

/// The pieces of `s` already closed by a separator, and the piece still open,
/// after reading `s` from left to right.
pub open spec fn split_progress(s: Seq<char>, sep: char) -> (Seq<Seq<char>>, Seq<char>)
    decreases s.len(),
{
    if s.len() == 0 {
        (seq![], seq![])
    } else {
        let (done, open) = split_progress(s.drop_last(), sep);
        if s.last() == sep {
            (done.push(open), seq![])
        } else {
            (done, open.push(s.last()))
        }
    }
}

/// The pieces of `s` between occurrences of `sep` (what `str::split` yields
/// for a character pattern): one more piece than there are separators.
pub open spec fn split_on(s: Seq<char>, sep: char) -> Seq<Seq<char>> {
    let (done, open) = split_progress(s, sep);
    done.push(open)
}

/// Splits `cs` at every occurrence of `sep`.
pub fn split_chars(cs: &Vec<char>, sep: char) -> (r: Vec<Vec<char>>)
    ensures
        r@.len() == split_on(cs@, sep).len(),
        forall|i: int| 0 <= i < r@.len() ==> #[trigger] r@[i]@ == split_on(cs@, sep)[i],
{
    let mut done: Vec<Vec<char>> = Vec::new();
    let mut open: Vec<char> = Vec::new();
    let n = cs.len();
    for i in 0..n
        invariant
            n == cs@.len(),
            done@.len() == split_progress(cs@.take(i as int), sep).0.len(),
            forall|k: int|
                0 <= k < done@.len() ==> #[trigger] done@[k]@ == split_progress(
                    cs@.take(i as int),
                    sep,
                ).0[k],
            open@ == split_progress(cs@.take(i as int), sep).1,
    {
        proof {
            assert(cs@.take(i + 1).drop_last() =~= cs@.take(i as int));
        }
        let c = cs[i];
        if c == sep {
            let piece = open;
            open = Vec::new();
            done.push(piece);
        } else {
            open.push(c);
        }
    }
    proof {
        assert(cs@.take(n as int) =~= cs@);
    }
    done.push(open);
    done
}

/// `s` with every non-overlapping occurrence of `from`, taken from the left,
/// replaced by `to` (what `str::replace` returns for a non-empty pattern).
pub open spec fn replace_all(s: Seq<char>, from: Seq<char>, to: Seq<char>) -> Seq<char>
    recommends
        from.len() > 0,
    decreases s.len(),
{
    if s.len() == 0 || from.len() == 0 {
        s
    } else if from.len() <= s.len() && s.take(from.len() as int) == from {
        to + replace_all(s.skip(from.len() as int), from, to)
    } else {
        seq![s[0]] + replace_all(s.drop_first(), from, to)
    }
}

/// Appends every character of `t` to `r`.
pub fn extend_chars(r: &mut Vec<char>, t: &Vec<char>)
    ensures
        final(r)@ == old(r)@ + t@,
{
    let n = t.len();
    for k in 0..n
        invariant
            n == t@.len(),
            r@ == old(r)@ + t@.take(k as int),
    {
        r.push(t[k]);
        proof {
            assert(t@.take(k + 1) =~= t@.take(k as int).push(t@[k as int]));
        }
    }
    proof {
        assert(t@.take(n as int) =~= t@);
    }
}

/// Whether `from` occurs in `s` at index `i`.
fn occurs_at(s: &Vec<char>, i: usize, from: &Vec<char>) -> (r: bool)
    requires
        i <= s@.len(),
    ensures
        r == (i + from@.len() <= s@.len() && s@.subrange(i as int, i + from@.len()) == from@),
{
    let m = from.len();
    if m > s.len() - i {
        return false;
    }
    for k in 0..m
        invariant
            m == from@.len(),
            i + m <= s.len(),
            forall|t: int| 0 <= t < k ==> s@[i + t] == from@[t],
    {
        if s[i + k] != from[k] {
            proof {
                assert(s@.subrange(i as int, i + m)[k as int] != from@[k as int]);
            }
            return false;
        }
    }
    proof {
        assert(s@.subrange(i as int, i + m) =~= from@);
    }
    true
}

/// Replaces every non-overlapping occurrence of `from` in `s`, from the left, by `to`.
pub fn replace_chars(s: &Vec<char>, from: &Vec<char>, to: &Vec<char>) -> (r: Vec<char>)
    requires
        from@.len() > 0,
    ensures
        r@ == replace_all(s@, from@, to@),
{
    let mut r: Vec<char> = Vec::new();
    let n = s.len();
    let m = from.len();
    let mut i: usize = 0;
    proof {
        assert(s@.skip(0) =~= s@);
    }
    while i < n
        invariant
            n == s@.len(),
            m == from@.len(),
            m > 0,
            i <= n,
            replace_all(s@, from@, to@) == r@ + replace_all(s@.skip(i as int), from@, to@),
        decreases n - i,
    {
        let ghost rest = s@.skip(i as int);
        if occurs_at(s, i, from) {
            proof {
                assert(rest.take(m as int) =~= s@.subrange(i as int, i + m));
                assert(rest.skip(m as int) =~= s@.skip(i + m));
                assert(r@ + (to@ + replace_all(s@.skip(i + m), from@, to@)) =~= (r@ + to@)
                    + replace_all(s@.skip(i + m), from@, to@));
            }
            extend_chars(&mut r, to);
            i += m;
        } else {
            proof {
                if m <= rest.len() {
                    assert(rest.take(m as int) =~= s@.subrange(i as int, i + m));
                }
                assert(rest.drop_first() =~= s@.skip(i + 1));
                assert(r@ + (seq![s@[i as int]] + replace_all(s@.skip(i + 1), from@, to@))
                    =~= r@.push(s@[i as int]) + replace_all(s@.skip(i + 1), from@, to@));
            }
            r.push(s[i]);
            i += 1;
        }
    }
    proof {
        assert(r@ + replace_all(s@.skip(n as int), from@, to@) =~= r@);
    }
    r
}

} // verus!

verus! {

/// An owned copy of `s`.
pub fn owned(s: &str) -> (r: String)
    ensures
        r@ == s@,
{
    let cs = chars_of(s);
    string_of(&cs)
}

} // verus!

verus! {

// ─── Views of lists of strings ────────────────────────────────────────────────

/// The texts of a list of strings.
pub open spec fn string_views(v: Seq<String>) -> Seq<Seq<char>> {
    v.map_values(|x: String| x@)
}

/// The texts of a list of string slices.
pub open spec fn str_views(v: Seq<&str>) -> Seq<Seq<char>> {
    v.map_values(|x: &str| x@)
}

// ─── ASCII case ───────────────────────────────────────────────────────────────

/// Whether every character of `s` is ASCII.
pub open spec fn is_ascii_text(s: Seq<char>) -> bool {
    forall|i: int| 0 <= i < s.len() ==> (#[trigger] s[i] as u32) < 128
}

/// `c` in lower case, when it is an ASCII capital letter; `c` otherwise.
pub open spec fn ascii_lower_char(c: char) -> char {
    if 65 <= c as u32 <= 90 {
        ((c as u32) + 32) as char
    } else {
        c
    }
}

/// `s` with its ASCII capital letters in lower case.
pub open spec fn ascii_lower(s: Seq<char>) -> Seq<char> {
    s.map_values(|c: char| ascii_lower_char(c))
}

// ─── Facts about trimming ─────────────────────────────────────────────────────

proof fn lemma_trim_start_shape(s: Seq<char>)
    ensures
        trim_start(s).len() == 0 || !is_white_space(trim_start(s)[0]),
        exists|k: int| 0 <= k <= s.len() && trim_start(s) == s.skip(k),
    decreases s.len(),
{
    if s.len() > 0 && is_white_space(s[0]) {
        lemma_trim_start_shape(s.drop_first());
        let k = choose|k: int|
            0 <= k <= s.drop_first().len() && trim_start(s.drop_first()) == s.drop_first().skip(k);
        assert(s.drop_first().skip(k) =~= s.skip(k + 1));
    } else {
        assert(s.skip(0) =~= s);
    }
}

proof fn lemma_trim_end_shape(s: Seq<char>)
    ensures
        trim_end(s).len() == 0 || !is_white_space(trim_end(s).last()),
        exists|k: int| 0 <= k <= s.len() && trim_end(s) == s.take(k),
    decreases s.len(),
{
    if s.len() > 0 && is_white_space(s.last()) {
        lemma_trim_end_shape(s.drop_last());
        let k = choose|k: int|
            0 <= k <= s.drop_last().len() && trim_end(s.drop_last()) == s.drop_last().take(k);
        assert(s.drop_last().take(k) =~= s.take(k));
    } else {
        assert(s.take(s.len() as int) =~= s);
    }
}

/// Whether `t` neither starts nor ends with white space.
pub open spec fn is_trimmed(t: Seq<char>) -> bool {
    t.len() == 0 || (!is_white_space(t[0]) && !is_white_space(t.last()))
}

/// Trimming gives a text that neither starts nor ends with white space, made
/// of characters of the original.
pub proof fn lemma_trim_shape(s: Seq<char>)
    ensures
        is_trimmed(trim(s)),
        exists|a: int, b: int| 0 <= a <= b <= s.len() && trim(s) == s.subrange(a, b),
{
    lemma_trim_start_shape(s);
    let t = trim_start(s);
    lemma_trim_end_shape(t);
    let a = choose|a: int| 0 <= a <= s.len() && t == s.skip(a);
    let k = choose|k: int| 0 <= k <= t.len() && trim_end(t) == t.take(k);
    assert(trim(s) =~= s.subrange(a, a + k));
    if trim(s).len() > 0 {
        assert(trim(s)[0] == t[0]);
    }
}

/// A text that neither starts nor ends with white space is its own trim.
pub proof fn lemma_trimmed_fixed(t: Seq<char>)
    requires
        is_trimmed(t),
    ensures
        trim(t) == t,
{
}

/// Trimming twice is trimming once.
pub proof fn law_trim_idempotent(s: Seq<char>)
    ensures
        trim(trim(s)) == trim(s),
{
    lemma_trim_shape(s);
    lemma_trimmed_fixed(trim(s));
}

} // verus!

verus! {

// ─── Facts about replacing and splitting ──────────────────────────────────────

/// Replacing in `x` followed by `y` replaces in each part, when no occurrence
/// of `from` can reach from `x` into `y` (the first character of `y` is not in `from`).
pub proof fn lemma_replace_concat(x: Seq<char>, y: Seq<char>, from: Seq<char>, to: Seq<char>)
    requires
        from.len() > 0,
        y.len() > 0,
        !from.contains(y[0]),
    ensures
        replace_all(x + y, from, to) == replace_all(x, from, to) + replace_all(y, from, to),
    decreases x.len(),
{
    let s = x + y;
    let m = from.len() as int;
    if x.len() == 0 {
        assert(s =~= y);
        assert(replace_all(x, from, to) =~= Seq::<char>::empty());
        assert(Seq::<char>::empty() + replace_all(y, from, to) =~= replace_all(y, from, to));
    } else if m <= s.len() && s.take(m) == from {
        if m <= x.len() {
            assert(x.take(m) =~= s.take(m));
            assert(s.skip(m) =~= x.skip(m) + y);
            lemma_replace_concat(x.skip(m), y, from, to);
            assert(to + (replace_all(x.skip(m), from, to) + replace_all(y, from, to)) =~= (to
                + replace_all(x.skip(m), from, to)) + replace_all(y, from, to));
        } else {
            assert(from[x.len() as int] == s[x.len() as int]);
            assert(s[x.len() as int] == y[0]);
            assert(from.contains(y[0]));
        }
    } else {
        if m <= x.len() {
            assert(x.take(m) =~= s.take(m));
        }
        assert(s.drop_first() =~= x.drop_first() + y);
        assert(s[0] == x[0]);
        lemma_replace_concat(x.drop_first(), y, from, to);
        assert(seq![x[0]] + (replace_all(x.drop_first(), from, to) + replace_all(y, from, to))
            =~= (seq![x[0]] + replace_all(x.drop_first(), from, to)) + replace_all(y, from, to));
    }
}

/// A text whose first character does not begin `from` keeps that character.
pub proof fn lemma_replace_head(y: Seq<char>, from: Seq<char>, to: Seq<char>)
    requires
        y.len() > 0,
        from.len() > 0,
        y[0] != from[0],
    ensures
        replace_all(y, from, to) == seq![y[0]] + replace_all(y.drop_first(), from, to),
{
    if from.len() <= y.len() {
        assert(y.take(from.len() as int)[0] == y[0]);
    }
}

/// `n` spaces.
pub open spec fn spaces(n: nat) -> Seq<char> {
    Seq::new(n, |i: int| ' ')
}

/// Squeezing double spaces in a run of spaces before a text that does not
/// start with a space leaves about half of the run.
pub proof fn lemma_squeeze_run(j: nat, c: Seq<char>)
    requires
        c.len() == 0 || c[0] != ' ',
    ensures
        replace_all(spaces(j) + c, "  "@, " "@) == spaces((j + 1) / 2) + replace_all(c, "  "@, " "@),
    decreases j,
{
    reveal_strlit("  ");
    reveal_strlit(" ");
    let s = spaces(j) + c;
    if j == 0 {
        assert(s =~= c);
        assert(spaces(0) + replace_all(c, "  "@, " "@) =~= replace_all(c, "  "@, " "@));
    } else if j == 1 {
        if s.len() >= 2 {
            assert(s.take(2)[1] == s[1]);
        }
        assert(s.drop_first() =~= c);
        assert(seq![s[0]] + replace_all(c, "  "@, " "@) =~= spaces(1) + replace_all(c, "  "@, " "@));
    } else {
        assert(s.take(2) =~= "  "@);
        assert(s.skip(2) =~= spaces((j - 2) as nat) + c);
        lemma_squeeze_run((j - 2) as nat, c);
        assert(" "@ + (spaces(((j - 2 + 1) / 2) as nat) + replace_all(c, "  "@, " "@)) =~= spaces(
            (j + 1) / 2,
        ) + replace_all(c, "  "@, " "@));
    }
}

/// Every text is a run of spaces followed by a text that does not start with one.
pub proof fn lemma_leading_spaces(y: Seq<char>)
    ensures
        exists|k: nat|
            k <= y.len() && #[trigger] spaces(k) + y.skip(k as int) == y && (y.skip(k as int).len() == 0
                || y.skip(k as int)[0] != ' '),
    decreases y.len(),
{
    if y.len() > 0 && y[0] == ' ' {
        lemma_leading_spaces(y.drop_first());
        let k = choose|k: nat|
            k <= y.drop_first().len() && #[trigger] spaces(k) + y.drop_first().skip(k as int)
                == y.drop_first() && (y.drop_first().skip(k as int).len() == 0
                || y.drop_first().skip(k as int)[0] != ' ');
        assert(y.drop_first().skip(k as int) =~= y.skip(k + 1 as int));
        assert(spaces(k + 1) =~= seq![' '] + spaces(k));
        assert(y =~= seq![' '] + y.drop_first());
        assert(spaces(k + 1) + y.skip(k + 1 as int) =~= seq![' '] + (spaces(k) + y.drop_first().skip(
            k as int,
        )));
        assert(spaces(k + 1) + y.skip(k + 1 as int) =~= y);
    } else {
        assert(spaces(0) + y.skip(0) =~= y);
    }
}

/// Leading spaces never change a trimmed text.
pub proof fn lemma_trim_after_spaces(u: nat, w: Seq<char>)
    ensures
        trim(spaces(u) + w) == trim(w),
    decreases u,
{
    if u > 0 {
        let s = spaces(u) + w;
        assert(s[0] == ' ');
        assert(s.drop_first() =~= spaces((u - 1) as nat) + w);
        lemma_trim_after_spaces((u - 1) as nat, w);
        assert(trim_start(s) == trim_start(s.drop_first()));
    } else {
        assert(spaces(0) + w =~= w);
    }
}

/// Splitting `p`, a separator and `q` gives the pieces of `p` and then those of `q`.
pub proof fn lemma_split_concat(p: Seq<char>, sep: char, q: Seq<char>)
    ensures
        split_on(p + seq![sep] + q, sep) == split_on(p, sep) + split_on(q, sep),
{
    lemma_split_progress_concat(p, sep, q);
    let (dp, op) = split_progress(p, sep);
    let (dq, oq) = split_progress(q, sep);
    assert(dp.push(op) + dq.push(oq) =~= (dp.push(op) + dq).push(oq));
}

proof fn lemma_split_progress_concat(p: Seq<char>, sep: char, q: Seq<char>)
    ensures
        split_progress(p + seq![sep] + q, sep) == (
            split_progress(p, sep).0.push(split_progress(p, sep).1) + split_progress(q, sep).0,
            split_progress(q, sep).1,
        ),
    decreases q.len(),
{
    let s = p + seq![sep] + q;
    if q.len() == 0 {
        assert(s =~= p.push(sep));
        assert(s.drop_last() =~= p);
        let (dp, op) = split_progress(p, sep);
        assert(dp.push(op) + Seq::<Seq<char>>::empty() =~= dp.push(op));
    } else {
        assert(s.drop_last() =~= p + seq![sep] + q.drop_last());
        lemma_split_progress_concat(p, sep, q.drop_last());
        let (dp, op) = split_progress(p, sep);
        let (dq, oq) = split_progress(q.drop_last(), sep);
        assert(s.last() == q.last());
        if q.last() == sep {
            assert((dp.push(op) + dq).push(oq) =~= dp.push(op) + dq.push(oq));
        }
    }
}

/// A piece without separators put before a text joins the first piece of the text.
pub proof fn lemma_split_prefix(pre: Seq<char>, sep: char, w: Seq<char>)
    requires
        !pre.contains(sep),
    ensures
        split_on(pre + w, sep).len() == split_on(w, sep).len(),
        split_on(pre + w, sep)[0] == pre + split_on(w, sep)[0],
        forall|i: int| 1 <= i < split_on(w, sep).len() ==> #[trigger] split_on(pre + w, sep)[i] == split_on(w, sep)[i],
{
    lemma_split_progress_prefix(pre, sep, w);
}

proof fn lemma_split_progress_prefix(pre: Seq<char>, sep: char, w: Seq<char>)
    requires
        !pre.contains(sep),
    ensures
        ({
            let (dw, ow) = split_progress(w, sep);
            let (d, o) = split_progress(pre + w, sep);
            if dw.len() == 0 {
                d.len() == 0 && o == pre + ow
            } else {
                d == dw.update(0, pre + dw[0]) && o == ow
            }
        }),
    decreases w.len(),
{
    if w.len() == 0 {
        assert(pre + w =~= pre);
        lemma_split_progress_no_sep(pre, sep);
        assert(pre + Seq::<char>::empty() =~= pre);
    } else {
        assert((pre + w).drop_last() =~= pre + w.drop_last());
        assert((pre + w).last() == w.last());
        lemma_split_progress_prefix(pre, sep, w.drop_last());
        let (dw0, ow0) = split_progress(w.drop_last(), sep);
        if dw0.len() == 0 {
            assert((pre + ow0).push(w.last()) =~= pre + ow0.push(w.last()));
            assert(seq![pre + ow0] =~= dw0.push(ow0).update(0, pre + dw0.push(ow0)[0]));
        } else {
            assert(dw0.update(0, pre + dw0[0]).push(ow0) =~= dw0.push(ow0).update(
                0,
                pre + dw0.push(ow0)[0],
            ));
        }
    }
}

proof fn lemma_split_progress_no_sep(p: Seq<char>, sep: char)
    requires
        !p.contains(sep),
    ensures
        split_progress(p, sep) == (Seq::<Seq<char>>::empty(), p),
    decreases p.len(),
{
    if p.len() > 0 {
        assert(!p.drop_last().contains(sep)) by {
            if p.drop_last().contains(sep) {
                let k = choose|k: int| 0 <= k < p.drop_last().len() && p.drop_last()[k] == sep;
                assert(p[k] == sep);
            }
        }
        lemma_split_progress_no_sep(p.drop_last(), sep);
        assert(p[p.len() - 1] != sep);
        assert(p.drop_last().push(p.last()) =~= p);
    }
}

} // verus!
