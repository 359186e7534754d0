//! The address a download is requested from: the server's base address, the
//! download path, and one query pair for each file that is asked for.
//!
//! Parsing and encoding are the `url` crate's, reached through `reqwest`.

use vstd::prelude::*;

verus! {

/// The path that downloads are served under.
pub open spec fn download_path() -> Seq<char> {
    "/download"@
}

/// The key of the query pairs that name the files.
pub open spec fn files_key() -> Seq<char> {
    "files"@
}

/// The largest weight of a request that is turned into an address. Encoding
/// makes at most 12 bytes of a character, and an address of 4 GiB or more
/// cannot be held.
pub const QUERY_LIMIT: usize = 0x0fff_ffff;

/// The texts of `files`.
pub open spec fn texts(files: Seq<String>) -> Seq<Seq<char>> {
    files.map_values(|file: String| file@)
}

/// The number of characters that go into an address: those of `base`, and
/// for each value those of the key, those of the value, and two that join
/// them.
pub open spec fn query_weight(base: Seq<char>, key: Seq<char>, values: Seq<Seq<char>>) -> nat
    decreases values.len(),
{
    if values.len() == 0 {
        base.len()
    } else {
        query_weight(base, key, values.drop_last()) + key.len() + values.last().len() + 2
    }
}

/// The address that `reqwest::Url::parse_with_params` makes of `base` and
/// the pairs of `key` with each of `values`, written out; `None` where
/// `base` is no absolute URL.
pub uninterp spec fn query_url(base: Seq<char>, key: Seq<char>, values: Seq<Seq<char>>) -> Option<
    Seq<char>,
>;

/// `reqwest::Url::parse_with_params` on `base` and one pair of `key` with
/// each of `values`, in order. The result is the address as text, or `None`
/// where the crate reports a parse error; it depends on the arguments alone.
/// The bound keeps the address under the length at which the crate gives up.
#[verifier::external_body]
fn url_with_params(base: &str, key: &str, values: &Vec<String>) -> (url: Option<String>)
    requires
        query_weight(base@, key@, texts(values@)) <= QUERY_LIMIT,
    ensures
        match url {
            Some(text) => query_url(base@, key@, texts(values@)) == Some(text@),
            None => query_url(base@, key@, texts(values@)) is None,
        },
{
    let pairs = values.iter().map(|value| (key, value.as_str()));
    reqwest::Url::parse_with_params(base, pairs).ok().map(String::from)
}

/// The address to request the archive of `files` from the server at
/// `server_url`, where the request is light enough to make one.
pub open spec fn request_url_of(server_url: Seq<char>, files: Seq<Seq<char>>) -> Option<Seq<char>> {
    let base = server_url + download_path();
    if query_weight(base, files_key(), files) <= QUERY_LIMIT {
        query_url(base, files_key(), files)
    } else {
        None
    }
}

/// More values never weigh less.
pub proof fn lemma_weight_grows(base: Seq<char>, key: Seq<char>, values: Seq<Seq<char>>, k: int)
    requires
        0 <= k <= values.len(),
    ensures
        query_weight(base, key, values.take(k)) <= query_weight(base, key, values),
    decreases values.len() - k,
{
    if k == values.len() {
        assert(values.take(k) =~= values);
    } else {
        lemma_weight_grows(base, key, values, k + 1);
        assert(values.take(k + 1).drop_last() =~= values.take(k));
    }
}

/// Whether a request for `values` under `key` from `base` weighs no more
/// than the limit.
fn is_light(base: &str, key: &str, values: &Vec<String>) -> (ok: bool)
    ensures
        ok == (query_weight(base@, key@, texts(values@)) <= QUERY_LIMIT),
{
    let key_len: usize = key.unicode_len();
    let mut weight: usize = base.unicode_len();
    if weight > QUERY_LIMIT {
        proof {
            lemma_weight_grows(base@, key@, texts(values@), 0);
            assert(texts(values@).take(0) =~= Seq::<Seq<char>>::empty());
        }
        return false;
    }
    let mut i: usize = 0;
    assert(texts(values@).take(0) =~= Seq::<Seq<char>>::empty());
    while i < values.len()
        invariant
            i <= values@.len(),
            key_len == key@.len(),
            weight <= QUERY_LIMIT,
            weight == query_weight(base@, key@, texts(values@).take(i as int)),
        decreases values@.len() - i,
    {
        let len: usize = values[i].as_str().unicode_len();
        proof {
            let upto = texts(values@).take(i + 1);
            assert(upto.drop_last() =~= texts(values@).take(i as int));
            assert(upto.last() == values@[i as int]@);
            lemma_weight_grows(base@, key@, texts(values@), i + 1);
        }
        if key_len > QUERY_LIMIT || len > QUERY_LIMIT || key_len + len + 2 > QUERY_LIMIT - weight {
            return false;
        }
        weight = weight + key_len + len + 2;
        i = i + 1;
    }
    assert(texts(values@).take(i as int) =~= texts(values@));
    true
}

/// The address to request the archive of `files` from the server at
/// `server_url`: the download path under that server, with one `files` pair
/// for each file. `None` where the server's address is no absolute URL, and
/// where the request is too heavy to make an address of.
pub fn request_url(server_url: &str, files: &Vec<String>) -> (url: Option<String>)
    ensures
        match url {
            Some(text) => request_url_of(server_url@, texts(files@)) == Some(text@),
            None => request_url_of(server_url@, texts(files@)) is None,
        },
{
    let mut base = server_url.to_owned();
    base.append("/download");
    if is_light(base.as_str(), "files", files) {
        url_with_params(base.as_str(), "files", files)
    } else {
        None
    }
}

} // verus!
