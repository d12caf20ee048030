//! Interpretation of the answers of the Steam store and Web API.
use vstd::prelude::*;
use crate::json::{at, items_at, present, text_at, u64_at, u64_items, u64_items_at, Json};
use crate::number::{decimal, to_decimal};
use crate::text::{owned, push_str};

verus! {

/// Why an answer of Steam cannot be used.
pub enum SteamError {
    /// A store search answered without a list of items.
    NoSearchItems,
    /// A store search found nothing for the query.
    NoGamesFound { query: String },
    /// The application details do not mention the application asked for.
    AppMissing,
    /// Steam reports that it could not give the details of the application.
    NotSuccessful { app_id: u64 },
    /// The application details hold no data.
    NoData,
}

/// The message that describes `e`.
pub open spec fn error_message(e: SteamError) -> Seq<char> {
    match e {
        SteamError::NoSearchItems => "No items in search result"@,
        SteamError::NoGamesFound { query } => "No games found for \""@ + query@ + "\""@,
        SteamError::AppMissing => "App ID missing from response"@,
        SteamError::NotSuccessful { app_id } => "Steam returned success=false for App ID "@
            + decimal(app_id as nat),
        SteamError::NoData => "No 'data' in response"@,
    }
}

impl SteamError {
    /// The message that describes this error.
    pub fn message(&self) -> (r: String)
        ensures
            r@ == error_message(*self),
    {
        match self {
            SteamError::NoSearchItems => owned("No items in search result"),
            SteamError::NoGamesFound { query } => {
                let mut r = owned("No games found for \"");
                push_str(&mut r, query.as_str());
                push_str(&mut r, "\"");
                r
            },
            SteamError::AppMissing => owned("App ID missing from response"),
            SteamError::NotSuccessful { app_id } => {
                let mut r = owned("Steam returned success=false for App ID ");
                let d = to_decimal(*app_id);
                push_str(&mut r, d.as_str());
                r
            },
            SteamError::NoData => owned("No 'data' in response"),
        }
    }
}

// ─── Store search ─────────────────────────────────────────────────────────────

/// The id and name of one search hit, when it has both.
pub open spec fn search_entry(item: Json) -> Option<(u64, Seq<char>)> {
    match (u64_at(item.member("id"@)), text_at(item.member("name"@))) {
        (Some(id), Some(name)) => Some((id, name)),
        _ => None,
    }
}

/// The id and name of every search hit that has both, in order.
pub open spec fn search_entries(items: Seq<Json>) -> Seq<(u64, Seq<char>)>
    decreases items.len(),
{
    if items.len() == 0 {
        seq![]
    } else {
        let prev = search_entries(items.drop_last());
        match search_entry(items.last()) {
            Some(e) => prev.push(e),
            None => prev,
        }
    }
}

/// A search answer with one more item lists one more game exactly when that
/// item has an id and a name; the games before it are listed as they were.
pub proof fn law_search_entries_push(items: Seq<Json>, item: Json)
    ensures
        search_entries(items.push(item)) == match search_entry(item) {
            Some(e) => search_entries(items).push(e),
            None => search_entries(items),
        },
{
    assert(items.push(item).drop_last() =~= items);
    assert(items.push(item).last() == item);
}

/// Whether `found` lists exactly the entries `expected`.
pub open spec fn lists_entries(found: Seq<(u64, String)>, expected: Seq<(u64, Seq<char>)>) -> bool {
    &&& found.len() == expected.len()
    &&& forall|i: int|
        0 <= i < found.len() ==> #[trigger] found[i].0 == expected[i].0 && found[i].1@
            == expected[i].1
}

/// The games of a store search answer: the id and name of each item that has
/// both, in the order of the answer.
pub fn search_results(resp: &Json) -> (r: Result<Vec<(u64, String)>, SteamError>)
    ensures
        match items_at(resp.member("items"@)) {
            None => r matches Err(SteamError::NoSearchItems),
            Some(items) => r matches Ok(found) && lists_entries(found@, search_entries(items)),
        },
{
    let items = match resp.get("items") {
        Some(v) => match v.as_array() {
            Some(a) => a,
            None => return Err(SteamError::NoSearchItems),
        },
        None => return Err(SteamError::NoSearchItems),
    };
    let mut found: Vec<(u64, String)> = Vec::new();
    let n = items.len();
    for i in 0..n
        invariant
            n == items@.len(),
            lists_entries(found@, search_entries(items@.take(i as int))),
    {
        proof {
            assert(items@.take(i + 1).drop_last() =~= items@.take(i as int));
        }
        let item = &items[i];
        let id = match item.get("id") {
            Some(v) => v.as_u64(),
            None => None,
        };
        let name = match item.get("name") {
            Some(v) => v.as_str(),
            None => None,
        };
        match (id, name) {
            (Some(id), Some(name)) => {
                found.push((id, owned(name)));
            },
            _ => {},
        }
    }
    proof {
        assert(items@.take(n as int) =~= items@);
    }
    Ok(found)
}

/// The game that a search picks: the first hit.
pub fn top_result(found: Vec<(u64, String)>, query: &str) -> (r: Result<(u64, String), SteamError>)
    ensures
        found@.len() == 0 ==> (r matches Err(SteamError::NoGamesFound { query: q }) && q@ == query@),
        found@.len() > 0 ==> r == Ok::<(u64, String), SteamError>(found@[0]),
{
    if found.len() == 0 {
        Err(SteamError::NoGamesFound { query: owned(query) })
    } else {
        let mut found = found;
        Ok(found.remove(0))
    }
}

// ─── Application details ──────────────────────────────────────────────────────

/// The details of application `app_id` in an answer of the store, when Steam
/// reports success.
pub fn app_details(resp: &Json, app_id: u64) -> (r: Result<&Json, SteamError>)
    ensures
        ({
            let entry = resp.member(decimal(app_id as nat));
            match entry {
                None => r matches Err(SteamError::AppMissing),
                Some(e) => if e.member("success"@) matches Some(s) && s.bool_value() == Some(
                    true,
                ) {
                    match e.member("data"@) {
                        Some(d) => r matches Ok(v) && *v == d,
                        None => r matches Err(SteamError::NoData),
                    }
                } else {
                    r matches Err(SteamError::NotSuccessful { app_id: id }) && id == app_id
                },
            }
        }),
{
    let key = to_decimal(app_id);
    let entry = match resp.get(key.as_str()) {
        Some(e) => e,
        None => return Err(SteamError::AppMissing),
    };
    let success = match entry.get("success") {
        Some(s) => match s.as_bool() {
            Some(b) => b,
            None => false,
        },
        None => false,
    };
    if !success {
        return Err(SteamError::NotSuccessful { app_id });
    }
    match entry.get("data") {
        Some(d) => Ok(d),
        None => Err(SteamError::NoData),
    }
}

/// The name of a game in its details, `Unknown` when there is none.
pub fn game_name(data: &Json) -> (r: String)
    ensures
        r@ == match text_at(data.member("name"@)) {
            Some(name) => name,
            None => "Unknown"@,
        },
{
    match data.get("name") {
        Some(v) => match v.as_str() {
            Some(s) => owned(s),
            None => owned("Unknown"),
        },
        None => owned("Unknown"),
    }
}

/// The `supported_languages` text of an application's details, empty when absent.
pub fn supported_languages_text(data: &Json) -> (r: &str)
    ensures
        r@ == match text_at(data.member("supported_languages"@)) {
            Some(t) => t,
            None => ""@,
        },
{
    match data.get("supported_languages") {
        Some(v) => match v.as_str() {
            Some(s) => s,
            None => "",
        },
        None => "",
    }
}

/// The ids of the DLCs listed in an application's details.
pub fn dlc_ids(data: &Json) -> (r: Vec<u64>)
    ensures
        r@ == match items_at(data.member("dlc"@)) {
            Some(items) => u64_items(items),
            None => seq![],
        },
{
    u64_items_at(data, "dlc")
}

/// At most this many packages of an application are examined for depots.
pub const MAX_PACKAGES: usize = 5;

/// The ids of the packages whose depots are looked up: the first
/// `MAX_PACKAGES` listed in an application's details.
pub fn package_ids(data: &Json) -> (r: Vec<u64>)
    ensures
        ({
            let all = match items_at(data.member("packages"@)) {
                Some(items) => u64_items(items),
                None => seq![],
            };
            r@ == if all.len() <= MAX_PACKAGES {
                all
            } else {
                all.take(MAX_PACKAGES as int)
            }
        }),
{
    let all = u64_items_at(data, "packages");
    if all.len() <= MAX_PACKAGES {
        return all;
    }
    let mut r: Vec<u64> = Vec::new();
    for i in 0..MAX_PACKAGES
        invariant
            all@.len() > MAX_PACKAGES,
            r@ == all@.take(i as int),
    {
        r.push(all[i]);
        proof {
            assert(all@.take(i + 1) =~= all@.take(i as int).push(all@[i as int]));
        }
    }
    r
}

/// The name of a DLC in the answer about it: `DLC <id>` when the request
/// failed (`None`) or the answer names nothing.
pub fn dlc_name(resp: Option<&Json>, dlc_id: u64) -> (r: String)
    ensures
        r@ == match text_at(at(at(at(present(resp), decimal(dlc_id as nat)), "data"@), "name"@)) {
            Some(name) => name,
            None => "DLC "@ + decimal(dlc_id as nat),
        },
{
    let key = to_decimal(dlc_id);
    let name = match resp {
        Some(j) => match j.get(key.as_str()) {
            Some(e) => match e.get("data") {
                Some(d) => match d.get("name") {
                    Some(n) => n.as_str(),
                    None => None,
                },
                None => None,
            },
            None => None,
        },
        None => None,
    };
    match name {
        Some(s) => owned(s),
        None => {
            let mut r = owned("DLC ");
            push_str(&mut r, key.as_str());
            r
        },
    }
}

/// The achievement definitions in an answer of the game schema service, when it lists any.
pub fn achievement_values(resp: &Json) -> (r: Option<&Vec<Json>>)
    ensures
        match r {
            Some(a) => items_at(at(at(resp.member("game"@), "availableGameStats"@), "achievements"@))
                == Some(a@),
            None => items_at(
                at(at(resp.member("game"@), "availableGameStats"@), "achievements"@),
            ) is None,
        },
{
    match resp.get("game") {
        Some(g) => match g.get("availableGameStats") {
            Some(s) => match s.get("achievements") {
                Some(a) => a.as_array(),
                None => None,
            },
            None => None,
        },
        None => None,
    }
}

} // verus!

