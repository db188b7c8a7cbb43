use vstd::prelude::*;
use crate::model::{AccountId, Blob};
use crate::store::{Store, same_blob};

verus! {

/// The content type of a blob that names none.
pub open spec fn content_type_of(mime_type: Option<String>) -> Seq<char> {
    match mime_type {
        Some(m) => m@,
        None => "application/octet-stream"@,
    }
}

/// The headers of a blob response, in order: its content type; open access
/// from any origin, with credentials; caching for a year as immutable; a file
/// name to save under, when the blob has one; and no images, when asked.
pub open spec fn blob_headers_spec(blob: Blob, block_images: bool) -> Seq<(Seq<char>, Seq<char>)> {
    let base = seq![
        ("content-type"@, content_type_of(blob.mime_type)),
        ("access-control-allow-origin"@, "*"@),
        ("access-control-allow-credentials"@, "true"@),
        ("cache-control"@, "public, max-age=31536000, immutable"@),
        ("content-length"@, decimal(blob.data@.len())),
    ];
    let named = match blob.name {
        Some(n) => base.push(("content-disposition"@, "attachment; filename=\""@ + n@ + "\""@)),
        None => base,
    };
    if block_images {
        named.push(("content-security-policy"@, "img-src 'none';"@))
    } else {
        named
    }
}

/// The character of a decimal digit.
pub open spec fn digit_char(d: nat) -> char {
    if d == 0 {
        '0'
    } else if d == 1 {
        '1'
    } else if d == 2 {
        '2'
    } else if d == 3 {
        '3'
    } else if d == 4 {
        '4'
    } else if d == 5 {
        '5'
    } else if d == 6 {
        '6'
    } else if d == 7 {
        '7'
    } else if d == 8 {
        '8'
    } else {
        '9'
    }
}

/// A number in decimal, without leading zeros.
pub open spec fn decimal(n: nat) -> Seq<char>
    decreases n,
{
    if n < 10 {
        seq![digit_char(n)]
    } else {
        decimal(n / 10).push(digit_char(n % 10))
    }
}

fn digit_str(d: usize) -> (r: &'static str)
    requires
        d < 10,
    ensures
        r@ == seq![digit_char(d as nat)],
{
    proof {
        reveal_strlit("0");
        reveal_strlit("1");
        reveal_strlit("2");
        reveal_strlit("3");
        reveal_strlit("4");
        reveal_strlit("5");
        reveal_strlit("6");
        reveal_strlit("7");
        reveal_strlit("8");
        reveal_strlit("9");
    }
    if d == 0 {
        "0"
    } else if d == 1 {
        "1"
    } else if d == 2 {
        "2"
    } else if d == 3 {
        "3"
    } else if d == 4 {
        "4"
    } else if d == 5 {
        "5"
    } else if d == 6 {
        "6"
    } else if d == 7 {
        "7"
    } else if d == 8 {
        "8"
    } else {
        "9"
    }
}

/// Appends a number in decimal.
pub fn write_decimal(out: &mut String, n: usize)
    ensures
        final(out)@ == old(out)@ + decimal(n as nat),
    decreases n,
{
    if n >= 10 {
        write_decimal(out, n / 10);
    }
    out.append(digit_str(n % 10));
    proof {
        if n >= 10 {
            assert(decimal(n as nat) == decimal((n / 10) as nat).push(digit_char((n % 10) as nat)));
        }
        assert(final(out)@ =~= old(out)@ + decimal(n as nat));
    }
}

pub open spec fn header_views(h: Seq<(String, String)>) -> Seq<(Seq<char>, Seq<char>)> {
    h.map_values(|p: (String, String)| (p.0@, p.1@))
}

fn header(name: &str, value: String) -> (r: (String, String))
    ensures
        r.0@ == name@,
        r.1@ == value@,
{
    (String::from_str(name), value)
}

/// The response headers for a blob.
pub fn blob_headers(blob: &Blob, block_images: bool) -> (r: Vec<(String, String)>)
    ensures
        header_views(r@) == blob_headers_spec(*blob, block_images),
{
    let mut out: Vec<(String, String)> = Vec::new();
    let ctype = match &blob.mime_type {
        Some(m) => m.clone(),
        None => String::from_str("application/octet-stream"),
    };
    out.push(header("content-type", ctype));
    out.push(header("access-control-allow-origin", String::from_str("*")));
    out.push(header("access-control-allow-credentials", String::from_str("true")));
    out.push(
        header("cache-control", String::from_str("public, max-age=31536000, immutable")),
    );
    let mut len = String::new();
    write_decimal(&mut len, blob.data.len());
    assert(len@ =~= decimal(blob.data@.len()));
    out.push(header("content-length", len));
    if let Some(n) = &blob.name {
        let mut v = String::from_str("attachment; filename=\"");
        v.append(n.as_str());
        v.append("\"");
        out.push(header("content-disposition", v));
    }
    if block_images {
        out.push(header("content-security-policy", String::from_str("img-src 'none';")));
    }
    assert(header_views(out@) =~= blob_headers_spec(*blob, block_images));
    out
}

/// What a client says of a blob it asks for.
#[derive(Clone, Debug)]
pub struct Params {
    pub name: Option<String>,
    pub mime_type: Option<String>,
    /// Forbid the images of an HTML blob.
    pub block_images: bool,
}

/// A client's upload of a blob.
#[derive(Clone, Debug)]
pub struct UploadParams {
    pub mime_type: Option<String>,
}

/// The identifier that the server gave an uploaded blob.
#[derive(Clone, Debug)]
pub struct UploadResponse {
    pub blob_id: String,
}

/// Where a blob comes from.
#[derive(Clone, Debug)]
pub enum BlobSource {
    /// The store holds it.
    Cached(Blob),
    /// It must be downloaded, then cached.
    Download,
}

/// Looks a blob up in the store first.
pub fn lookup_blob(store: &mut Store, account_id: AccountId, blob_id: &String, now: i64) -> (r: BlobSource)
    requires
        old(store).wf(),
    ensures
        final(store).wf(),
        r is Download <==> !old(store).blobs.contains(account_id, blob_id@),
        r matches BlobSource::Cached(b) ==> (old(store).blobs.get(account_id, blob_id@) matches Some(o)
            && same_blob(b, o.blob) && (final(store).blobs.get(account_id, blob_id@) matches Some(n)
            && same_blob(n.blob, o.blob) && n.last_accessed == now)),
        r is Download ==> *final(store) == *old(store),
        final(store).blobs.same_except(&old(store).blobs, account_id, blob_id@),
        final(store).accounts == old(store).accounts,
        final(store).next_account_id == old(store).next_account_id,
        final(store).mailboxes == old(store).mailboxes,
        final(store).emails == old(store).emails,
        final(store).links == old(store).links,
        final(store).drafts == old(store).drafts,
        final(store).external_cache == old(store).external_cache,
{
    match store.get_blob(account_id, blob_id, now) {
        Some(b) => BlobSource::Cached(b),
        None => BlobSource::Download,
    }
}

/// Caches a downloaded blob under the name and type that the client gave.
pub fn cache_downloaded_blob(
    store: &mut Store,
    account_id: AccountId,
    blob_id: &String,
    params: &Params,
    data: Vec<u8>,
    now: i64,
) -> (r: Blob)
    requires
        old(store).wf(),
    ensures
        final(store).wf(),
        r.name == params.name && r.mime_type == params.mime_type && r.data@ == data@,
        final(store).blobs.get(account_id, blob_id@) matches Some(n) && n.last_accessed == now
            && same_blob(n.blob, match old(store).blobs.get(account_id, blob_id@) {
                Some(o) => o.blob,
                None => r,
            }),
        final(store).blobs.same_except(&old(store).blobs, account_id, blob_id@),
{
    let blob = Blob {
        name: crate::store::copy_opt_string(&params.name),
        mime_type: crate::store::copy_opt_string(&params.mime_type),
        data,
    };
    store.save_blob(account_id, blob_id, &blob, now);
    blob
}

} // verus!
