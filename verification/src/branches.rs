//! The branches of a game, from the answer of the branch service.
use vstd::prelude::*;
use crate::json::{at, items_at, present, text_at, u64_at, Json, JsonMember, JsonNumber};
use crate::number::{decimal, to_decimal};
use crate::text::owned;

verus! {

// ─── Branches ─────────────────────────────────────────────────────────────────

/// What is kept of one branch: its build id, the time of its last update, and
/// whether a password is required, each when the answer gives it.
pub type BranchInfo = (Option<u64>, Option<u64>, Option<u64>);

/// The information on branch `b` of an answer.
pub open spec fn branch_info(b: Json) -> BranchInfo {
    (
        u64_at(b.member("buildid"@)),
        u64_at(b.member("timeupdated"@)),
        u64_at(b.member("pwdrequired"@)),
    )
}

/// `table` with the entry named `name` set to `info`: replaced in place when
/// the name is already there, appended otherwise.
pub open spec fn upsert(
    table: Seq<(Seq<char>, BranchInfo)>,
    name: Seq<char>,
    info: BranchInfo,
) -> Seq<(Seq<char>, BranchInfo)> {
    if exists|i: int| 0 <= i < table.len() && #[trigger] table[i].0 == name {
        let i = choose|i: int| 0 <= i < table.len() && #[trigger] table[i].0 == name;
        table.update(i, (name, info))
    } else {
        table.push((name, info))
    }
}

/// The branches of a list, by name, in the order in which each name first
/// appears; a later branch of the same name replaces an earlier one, and a
/// branch without a name is skipped.
pub open spec fn branch_table(branches: Seq<Json>) -> Seq<(Seq<char>, BranchInfo)>
    decreases branches.len(),
{
    if branches.len() == 0 {
        seq![]
    } else {
        let prev = branch_table(branches.drop_last());
        match text_at(branches.last().member("name"@)) {
            Some(name) => upsert(prev, name, branch_info(branches.last())),
            None => prev,
        }
    }
}

/// The branch table of an answer of the branch service (`None`: the request
/// failed); without a list of branches, the single branch `public` with build
/// id 0 updated at time 0.
pub open spec fn branches_spec(resp: Option<&Json>) -> Seq<(Seq<char>, BranchInfo)> {
    match items_at(at(present(resp), "branches"@)) {
        Some(branches) => branch_table(branches),
        None => seq![("public"@, (Some(0u64), Some(0u64), None::<u64>))],
    }
}

/// The members that describe a branch: `BuildID` and `TimeUpdated` as
/// decimal text, `PasswordRequired` as a number, each only when known.
/// Each member is its key and either a text or a number.
pub open spec fn branch_members(info: BranchInfo) -> Seq<(Seq<char>, Option<Seq<char>>, Option<u64>)> {
    let build = match info.0 {
        Some(b) => seq![("BuildID"@, Some(decimal(b as nat)), None::<u64>)],
        None => seq![],
    };
    let time = match info.1 {
        Some(t) => seq![("TimeUpdated"@, Some(decimal(t as nat)), None::<u64>)],
        None => seq![],
    };
    let password = match info.2 {
        Some(p) => seq![("PasswordRequired"@, None::<Seq<char>>, Some(p))],
        None => seq![],
    };
    build + time + password
}

/// Whether the member `m` is the key `e.0` with the text `e.1` or the number `e.2`.
pub open spec fn member_is(m: JsonMember, e: (Seq<char>, Option<Seq<char>>, Option<u64>)) -> bool {
    &&& m.key@ == e.0
    &&& match e.1 {
        Some(t) => m.value.str_value() == Some(t),
        None => true,
    }
    &&& match e.2 {
        Some(n) => m.value.u64_value() == Some(n),
        None => true,
    }
}

/// Whether `j` is an object whose members are, in order, those of `expected`.
pub open spec fn object_of(j: Json, expected: Seq<(Seq<char>, Option<Seq<char>>, Option<u64>)>) -> bool {
    match j {
        Json::Object(ms) => ms@.len() == expected.len() && forall|i: int|
            0 <= i < expected.len() ==> member_is(#[trigger] ms@[i], expected[i]),
        _ => false,
    }
}

/// Whether the members `ms` describe the branches of `table`, in order.
pub open spec fn describes_branches(ms: Seq<JsonMember>, table: Seq<(Seq<char>, BranchInfo)>) -> bool {
    &&& ms.len() == table.len()
    &&& forall|i: int| 0 <= i < ms.len() ==> branch_member(#[trigger] ms[i], table[i])
}

/// Whether the member `m` describes the branch `e` of a branch table.
pub open spec fn branch_member(m: JsonMember, e: (Seq<char>, BranchInfo)) -> bool {
    m.key@ == e.0 && object_of(m.value, branch_members(e.1))
}

/// Whether no two entries of `table` have the same name.
pub open spec fn distinct_names(table: Seq<(Seq<char>, BranchInfo)>) -> bool {
    forall|i: int, j: int|
        0 <= i < table.len() && 0 <= j < table.len() && i != j ==> #[trigger] table[i].0
            != #[trigger] table[j].0
}

proof fn lemma_upsert_distinct(table: Seq<(Seq<char>, BranchInfo)>, name: Seq<char>, info: BranchInfo)
    requires
        distinct_names(table),
    ensures
        distinct_names(upsert(table, name, info)),
{
}

/// A branch table never names a branch twice.
pub proof fn law_branch_names_distinct(branches: Seq<Json>)
    ensures
        distinct_names(branch_table(branches)),
    decreases branches.len(),
{
    if branches.len() > 0 {
        law_branch_names_distinct(branches.drop_last());
        let prev = branch_table(branches.drop_last());
        if let Some(name) = text_at(branches.last().member("name"@)) {
            lemma_upsert_distinct(prev, name, branch_info(branches.last()));
        }
    }
}

/// Setting an entry puts it in the table and leaves every entry of another
/// name where it was.
proof fn lemma_upsert_entries(table: Seq<(Seq<char>, BranchInfo)>, name: Seq<char>, info: BranchInfo)
    requires
        distinct_names(table),
    ensures
        upsert(table, name, info).contains((name, info)),
        table.len() <= upsert(table, name, info).len(),
        forall|k: int|
            0 <= k < table.len() && table[k].0 != name ==> #[trigger] upsert(table, name, info)[k]
                == table[k],
{
    if exists|i: int| 0 <= i < table.len() && #[trigger] table[i].0 == name {
        let i = choose|i: int| 0 <= i < table.len() && #[trigger] table[i].0 == name;
        assert(upsert(table, name, info) == table.update(i, (name, info)));
        assert(upsert(table, name, info)[i] == (name, info));
    } else {
        assert(upsert(table, name, info)[table.len() as int] == (name, info));
    }
}

/// The name of branch `b` of an answer, when it has one.
pub open spec fn branch_name(b: Json) -> Option<Seq<char>> {
    text_at(b.member("name"@))
}

/// Every named branch of a list is in its table with its own information
/// when no later branch has the same name: a later branch replaces an
/// earlier one of the same name, and nothing else replaces it.
pub proof fn law_last_branch_of_a_name_kept(branches: Seq<Json>, i: int)
    requires
        0 <= i < branches.len(),
        branch_name(branches[i]) is Some,
        forall|j: int| i < j < branches.len() ==> #[trigger] branch_name(branches[j]) != branch_name(
            branches[i],
        ),
    ensures
        branch_table(branches).contains(
            (branch_name(branches[i])->0, branch_info(branches[i])),
        ),
    decreases branches.len(),
{
    let n = branch_name(branches[i])->0;
    let e = (n, branch_info(branches[i]));
    let last = branches.len() - 1;
    let prev = branches.drop_last();
    let pt = branch_table(prev);
    let t = branch_table(branches);
    law_branch_names_distinct(prev);
    if i == last {
        assert(branches.last() == branches[i]);
        lemma_upsert_entries(pt, n, e.1);
    } else {
        assert forall|j: int| i < j < prev.len() implies #[trigger] branch_name(prev[j]) != branch_name(
            prev[i],
        ) by {
            assert(prev[j] == branches[j]);
        }
        assert(prev[i] == branches[i]);
        law_last_branch_of_a_name_kept(prev, i);
        let k = choose|k: int| 0 <= k < pt.len() && pt[k] == e;
        assert(branch_name(branches[last]) != Some(n));
        if let Some(m) = branch_name(branches[last]) {
            lemma_upsert_entries(pt, m, branch_info(branches[last]));
            assert(t[k] == e);
        } else {
            assert(t == pt);
        }
    }
}

/// What describes a branch comes from the branch's own members: `BuildID` is
/// the decimal text of its `buildid`, `TimeUpdated` that of its `timeupdated`,
/// and `PasswordRequired` the number `pwdrequired`, each present exactly when
/// the branch gives that member as a non-negative integer.
pub proof fn law_branch_members_from_answer(b: Json)
    ensures
        ({
            let es = branch_members(branch_info(b));
            &&& forall|x: u64|
                u64_at(b.member("buildid"@)) == Some(x) ==> es.contains(
                    ("BuildID"@, Some(decimal(x as nat)), None::<u64>),
                )
            &&& forall|t: u64|
                u64_at(b.member("timeupdated"@)) == Some(t) ==> es.contains(
                    ("TimeUpdated"@, Some(decimal(t as nat)), None::<u64>),
                )
            &&& forall|p: u64|
                u64_at(b.member("pwdrequired"@)) == Some(p) ==> es.contains(
                    ("PasswordRequired"@, None::<Seq<char>>, Some(p)),
                )
            &&& u64_at(b.member("buildid"@)) is None ==> forall|i: int|
                0 <= i < es.len() ==> es[i].0 != "BuildID"@
            &&& u64_at(b.member("timeupdated"@)) is None ==> forall|i: int|
                0 <= i < es.len() ==> es[i].0 != "TimeUpdated"@
            &&& u64_at(b.member("pwdrequired"@)) is None ==> forall|i: int|
                0 <= i < es.len() ==> es[i].0 != "PasswordRequired"@
        }),
{
    reveal_strlit("BuildID");
    reveal_strlit("TimeUpdated");
    reveal_strlit("PasswordRequired");
    let info = branch_info(b);
    let es = branch_members(info);
    let nb: int = if info.0 is Some { 1 } else { 0 };
    let nt: int = if info.1 is Some { 1 } else { 0 };
    if let Some(x) = info.0 {
        assert(es[0] == ("BuildID"@, Some(decimal(x as nat)), None::<u64>));
    }
    if let Some(t) = info.1 {
        assert(es[nb] == ("TimeUpdated"@, Some(decimal(t as nat)), None::<u64>));
    }
    if let Some(p) = info.2 {
        assert(es[nb + nt] == ("PasswordRequired"@, None::<Seq<char>>, Some(p)));
    }
    assert("BuildID"@.len() == 7);
    assert("TimeUpdated"@.len() == 11);
    assert("PasswordRequired"@.len() == 16);
}

/// The index of the first member of `ms` named `name`.
fn find_member(ms: &Vec<JsonMember>, name: &Vec<char>) -> (r: Option<usize>)
    ensures
        match r {
            Some(k) => k < ms@.len() && ms@[k as int].key@ == name@,
            None => forall|t: int| 0 <= t < ms@.len() ==> #[trigger] ms@[t].key@ != name@,
        },
{
    let m = ms.len();
    for k in 0..m
        invariant
            m == ms@.len(),
            forall|t: int| 0 <= t < k ==> #[trigger] ms@[t].key@ != name@,
    {
        let kc = crate::text::chars_of(ms[k].key.as_str());
        if crate::text::same_chars(&kc, name) {
            return Some(k);
        }
    }
    None
}

fn member_text(key: &str, value: String) -> (m: JsonMember)
    ensures
        m.key@ == key@,
        m.value.str_value() == Some(value@),
{
    JsonMember { key: owned(key), value: Json::Str(value) }
}

/// The object that describes one branch.
fn branch_entry(b: &Json) -> (r: Json)
    ensures
        object_of(r, branch_members(branch_info(*b))),
{
    let mut ms: Vec<JsonMember> = Vec::new();
    let build = match b.get("buildid") {
        Some(v) => v.as_u64(),
        None => None,
    };
    let time = match b.get("timeupdated") {
        Some(v) => v.as_u64(),
        None => None,
    };
    let password = match b.get("pwdrequired") {
        Some(v) => v.as_u64(),
        None => None,
    };
    let ghost info = branch_info(*b);
    let ghost e = branch_members(info);
    if let Some(x) = build {
        ms.push(member_text("BuildID", to_decimal(x)));
    }
    if let Some(t) = time {
        ms.push(member_text("TimeUpdated", to_decimal(t)));
    }
    if let Some(p) = password {
        ms.push(
            JsonMember { key: owned("PasswordRequired"), value: Json::Number(JsonNumber::NonNegative(p)) },
        );
    }
    proof {
        assert(ms@.len() == e.len());
        assert forall|i: int| 0 <= i < e.len() implies member_is(#[trigger] ms@[i], e[i]) by {
        }
    }
    Json::Object(ms)
}

/// The branches of a game as written to `branches.json`, from the answer of
/// the branch service (`None`: the request failed).
///
/// The result is an object with one member per branch name, in the order in
/// which each name first appears; a later branch of the same name replaces the
/// description of an earlier one.
pub fn branches(resp: Option<&Json>) -> (r: Json)
    ensures
        r matches Json::Object(ms) && describes_branches(ms@, branches_spec(resp)),
        distinct_names(branches_spec(resp)),
{
    let list = match resp {
        Some(j) => match j.get("branches") {
            Some(v) => v.as_array(),
            None => None,
        },
        None => None,
    };
    let list = match list {
        Some(l) => l,
        None => {
            let mut ms: Vec<JsonMember> = Vec::new();
            ms.push(member_text("BuildID", to_decimal(0)));
            ms.push(member_text("TimeUpdated", to_decimal(0)));
            let entry = Json::Object(ms);
            let mut top: Vec<JsonMember> = Vec::new();
            top.push(JsonMember { key: owned("public"), value: entry });
            proof {
                let e = branch_members((Some(0u64), Some(0u64), None::<u64>));
                assert(e.len() == 2);
                assert(member_is(ms@[0], e[0]));
                assert(member_is(ms@[1], e[1]));
            }
            return Json::Object(top);
        },
    };
    let mut ms: Vec<JsonMember> = Vec::new();
    let n = list.len();
    for i in 0..n
        invariant
            n == list@.len(),
            describes_branches(ms@, branch_table(list@.take(i as int))),
            distinct_names(branch_table(list@.take(i as int))),
    {
        proof {
            assert(list@.take(i + 1).drop_last() =~= list@.take(i as int));
            assert(list@.take(i + 1).last() == list@[i as int]);
            law_branch_names_distinct(list@.take(i + 1));
        }
        let b = &list[i];
        let name = match b.get("name") {
            Some(v) => v.as_str(),
            None => None,
        };
        if let Some(name) = name {
            let ghost table = branch_table(list@.take(i as int));
            let entry = branch_entry(b);
            let nc = crate::text::chars_of(name);
            let ghost info = branch_info(list@[i as int]);
            proof {
                assert(text_at(list@[i as int].member("name"@)) == Some(name@));
            }
            match find_member(&ms, &nc) {
                Some(k) => {
                    proof {
                        assert(table[k as int].0 == name@);
                        let c = choose|t: int| 0 <= t < table.len() && #[trigger] table[t].0 == name@;
                        assert(c == k);
                    }
                    let ghost old_ms = ms@;
                    ms[k] = JsonMember { key: owned(name), value: entry };
                    proof {
                        let nt = table.update(k as int, (name@, info));
                        assert(branch_table(list@.take(i + 1)) == nt);
                        assert forall|t: int| 0 <= t < ms@.len() implies branch_member(#[trigger] ms@[t], nt[t]) by {
                            if t != k {
                                assert(ms@[t] == old_ms[t]);
                            }
                        }
                        assert(describes_branches(ms@, nt));
                    }
                },
                None => {
                    proof {
                        assert forall|t: int| 0 <= t < table.len() implies #[trigger] table[t].0 != name@ by {
                            assert(ms@[t].key@ != name@);
                            assert(ms@[t].key@ == table[t].0);
                        }
                    }
                    let ghost old_ms = ms@;
                    ms.push(JsonMember { key: owned(name), value: entry });
                    proof {
                        let nt = table.push((name@, info));
                        assert(branch_table(list@.take(i + 1)) == nt);
                        assert forall|t: int| 0 <= t < ms@.len() implies branch_member(#[trigger] ms@[t], nt[t]) by {
                            if t < old_ms.len() {
                                assert(ms@[t] == old_ms[t]);
                            } else {
                                assert(t == old_ms.len());
                                assert(ms@[t].key@ == name@);
                                assert(nt[t] == (name@, info));
                                assert(object_of(ms@[t].value, branch_members(info)));
                            }
                        }
                        assert(ms@.len() == nt.len());
                        assert(describes_branches(ms@, nt));
                    }
                },
            }
        } else {
            proof {
                assert(text_at(list@[i as int].member("name"@)) is None);
                assert(branch_table(list@.take(i + 1)) == branch_table(list@.take(i as int)));
            }
        }
    }
    proof {
        assert(list@.take(n as int) =~= list@);
    }
    Json::Object(ms)
}

} // verus!

