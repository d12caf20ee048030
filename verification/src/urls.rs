//! The addresses of the Steam services that the generator asks.
use vstd::prelude::*;
use crate::number::{decimal, to_decimal};
use crate::text::{owned, push_str};
use vstd::utf8::encode_utf8;

verus! {

/// Whether `b` is left as it is by percent-encoding: an ASCII letter or
/// digit, `-`, `.`, `_` or `~`.
pub open spec fn is_unreserved(b: u8) -> bool {
    ||| 48 <= b <= 57
    ||| 65 <= b <= 90
    ||| 97 <= b <= 122
    ||| b == 45
    ||| b == 46
    ||| b == 95
    ||| b == 126
}

/// The upper-case hexadecimal digit for `d` (`d < 16`).
pub open spec fn hex_digit(d: u8) -> char {
    if d < 10 {
        (48 + d) as char
    } else {
        (55 + d) as char
    }
}

/// The hexadecimal digit of each value below 16 is the one at that place in
/// `0123456789ABCDEF`.
pub proof fn law_hex_digits(d: u8)
    requires
        d < 16,
    ensures
        hex_digit(d) == "0123456789ABCDEF"@[d as int],
{
    reveal_strlit("0123456789ABCDEF");
}

/// The percent-encoding of `bytes`: each unreserved byte as its character,
/// every other byte as `%` and two upper-case hexadecimal digits.
pub open spec fn percent_encoded(bytes: Seq<u8>) -> Seq<char>
    decreases bytes.len(),
{
    if bytes.len() == 0 {
        seq![]
    } else {
        let b = bytes[0];
        let head = if is_unreserved(b) {
            seq![b as char]
        } else {
            seq!['%', hex_digit(b / 16), hex_digit(b % 16)]
        };
        head + percent_encoded(bytes.drop_first())
    }
}

/// `urlencoding::encode`.
///
/// Trusted: as the crate documents and its source shows, every byte of the
/// UTF-8 encoding of `s` except ASCII letters, digits, `-`, `_`, `.` and `~`
/// is written as `%` followed by two upper-case hexadecimal digits.
#[verifier::external_body]
fn url_encode(s: &str) -> (r: String)
    ensures
        r@ == percent_encoded(encode_utf8(s@)),
{
    urlencoding::encode(s).into_owned()
}

/// `a` and then `b`.
fn concat2(a: &str, b: &str) -> (r: String)
    ensures
        r@ == a@ + b@,
{
    let mut r = owned(a);
    push_str(&mut r, b);
    r
}

/// `a`, `b` and `c` one after another.
fn concat3(a: &str, b: &str, c: &str) -> (r: String)
    ensures
        r@ == a@ + b@ + c@,
{
    let mut r = owned(a);
    push_str(&mut r, b);
    push_str(&mut r, c);
    r
}

/// The store search for `query`.
pub fn search_url(query: &str) -> (r: String)
    ensures
        r@ == "https://store.steampowered.com/api/storesearch/?term="@ + percent_encoded(
            encode_utf8(query@),
        ) + "&cc=us&l=english"@,
{
    let q = url_encode(query);
    concat3("https://store.steampowered.com/api/storesearch/?term=", q.as_str(), "&cc=us&l=english")
}

/// The full store details of an application.
pub fn app_details_url(app_id: u64) -> (r: String)
    ensures
        r@ == "https://store.steampowered.com/api/appdetails/?appids="@ + decimal(app_id as nat),
{
    let d = to_decimal(app_id);
    concat2("https://store.steampowered.com/api/appdetails/?appids=", d.as_str())
}

/// The basic store details of a DLC.
pub fn dlc_details_url(dlc_id: u64) -> (r: String)
    ensures
        r@ == "https://store.steampowered.com/api/appdetails/?appids="@ + decimal(dlc_id as nat)
            + "&filters=basic"@,
{
    let d = to_decimal(dlc_id);
    concat3("https://store.steampowered.com/api/appdetails/?appids=", d.as_str(), "&filters=basic")
}

/// The achievement schema of a game, asked with a Web API key.
pub fn schema_url(app_id: u64, api_key: &str) -> (r: String)
    ensures
        r@ == "https://api.steampowered.com/ISteamUserStats/GetSchemaForGame/v2/?key="@ + api_key@
            + "&appid="@ + decimal(app_id as nat) + "&l=english"@,
{
    let mut r = concat3(
        "https://api.steampowered.com/ISteamUserStats/GetSchemaForGame/v2/?key=",
        api_key,
        "&appid=",
    );
    let d = to_decimal(app_id);
    push_str(&mut r, d.as_str());
    push_str(&mut r, "&l=english");
    r
}

/// The branches of a game.
pub fn branches_url(app_id: u64) -> (r: String)
    ensures
        r@ == "https://api.steampowered.com/ISteamApps/GetAppBranches/v1/?appid="@ + decimal(
            app_id as nat,
        ),
{
    let d = to_decimal(app_id);
    concat2("https://api.steampowered.com/ISteamApps/GetAppBranches/v1/?appid=", d.as_str())
}

/// The store details of a package.
pub fn package_url(package_id: u64) -> (r: String)
    ensures
        r@ == "https://store.steampowered.com/api/packagedetails/?packageids="@ + decimal(
            package_id as nat,
        ),
{
    let d = to_decimal(package_id);
    concat2("https://store.steampowered.com/api/packagedetails/?packageids=", d.as_str())
}

} // verus!
