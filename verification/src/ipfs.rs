//! IPFS gateway routing for downloads and the Pinata pinning request for
//! uploads.

use vstd::prelude::*;
use vstd::string::StringExecFns;
use vstd::utf8::encode_utf8;
use crate::encoding::string_from_chars;
use crate::primitives::{str_lowercase, to_lowercase, json_string_items, json_string_array,
    opt_string_views, json_top_string_field, json_string_field};
use crate::text::{spec_starts_with, spec_ends_with, spec_contains, str_chars, chars_start_with,
    chars_end_with, contains_chars, push_str_chars, push_chars};

verus! {

// ─── Gateway routing ─────────────────────────────────────────────

/// Where a download is fetched from.
pub enum IpfsRoute {
    /// A complete download URL.
    Url(String),
    /// A gateway tag (lowercased): the live public gateway list must be
    /// fetched and searched for it, see [`resolve_ipfs_tag`].
    Tag(String),
}

/// The gateway used when none is given.
pub open spec fn default_gateway() -> Seq<char> {
    "https://ipfs.io/ipfs/"@
}

/// An override that is a URL rather than a tag.
pub open spec fn is_http_url(s: Seq<char>) -> bool {
    spec_starts_with(s, "http://"@) || spec_starts_with(s, "https://"@)
}

/// `s` with a trailing '/' added when it has none.
pub open spec fn with_slash(s: Seq<char>) -> Seq<char> {
    if spec_ends_with(s, "/"@) {
        s
    } else {
        s.push('/')
    }
}

/// The download prefix for a gateway URL: a trailing '/' added when
/// missing, then "ipfs/" unless it already ends so.
pub open spec fn gateway_prefix(gw: Seq<char>) -> Seq<char> {
    if spec_ends_with(with_slash(gw), "ipfs/"@) {
        with_slash(gw)
    } else {
        with_slash(gw) + "ipfs/"@
    }
}

/// A gateway download URL: for any gateway URL `g` and content id `cid`,
/// the URL starts with `g`, ends with "ipfs/" and the CID, adds at most
/// "/ipfs/" between them, and adds nothing but the CID when `g` already
/// ends with "ipfs/".
pub proof fn lemma_gateway_route(g: Seq<char>, cid: Seq<char>)
    ensures
        ({
            let u = gateway_prefix(g) + cid;
            &&& u.len() >= g.len() + cid.len()
            &&& u.take(g.len() as int) == g
            &&& u.len() >= 5 + cid.len()
            &&& u.subrange(u.len() - cid.len() - 5, u.len() as int) == seq!['i', 'p', 'f', 's', '/'] + cid
            &&& u.len() <= g.len() + 6 + cid.len()
            &&& (g.len() >= 5 && g.skip(g.len() - 5) == seq!['i', 'p', 'f', 's', '/'] ==> u == g + cid)
            &&& ({
                let mid = u.subrange(g.len() as int, u.len() - cid.len());
                &&& u == g + mid + cid
                &&& (mid == Seq::<char>::empty() || mid == seq!['/'] || mid == seq!['i', 'p', 'f', 's', '/']
                    || mid == seq!['/', 'i', 'p', 'f', 's', '/'])
                &&& (g.len() > 0 && g.last() == '/' ==> mid.len() == 0 || mid[0] != '/')
                &&& (g.len() == 0 || g.last() != '/' ==> mid.len() > 0 && mid[0] == '/')
                &&& (g.len() >= 4 && g.skip(g.len() - 4) == seq!['i', 'p', 'f', 's'] ==> mid == seq!['/'])
            })
        }),
{
    reveal_strlit("ipfs/");
    reveal_strlit("/");
    let w = with_slash(g);
    let ip = seq!['i', 'p', 'f', 's', '/'];
    assert("ipfs/"@ =~= ip);
    assert("/"@ =~= seq!['/']);
    assert(w.take(g.len() as int) =~= g);
    assert(w.len() <= g.len() + 1);
    let pre = gateway_prefix(g);
    let u = pre + cid;
    if spec_ends_with(w, "ipfs/"@) {
        assert(pre == w);
        assert(u.subrange(u.len() - cid.len() - 5, u.len() as int) =~= w.skip(w.len() - 5) + cid);
    } else {
        assert(pre == w + ip);
        assert(u.subrange(u.len() - cid.len() - 5, u.len() as int) =~= ip + cid);
    }
    assert(u.take(g.len() as int) =~= g);
    let mid = u.subrange(g.len() as int, u.len() - cid.len());
    assert(u =~= g + mid + cid);
    assert(spec_ends_with(g, "/"@) == (g.len() > 0 && g.last() == '/')) by {
        if g.len() > 0 {
            assert(g.skip(g.len() - 1)[0] == g.last());
            if g.last() == '/' {
                assert(g.skip(g.len() - 1) =~= seq!['/']);
            }
        }
    }
    if spec_ends_with(g, "/"@) {
        assert(w == g);
        if spec_ends_with(w, "ipfs/"@) {
            assert(mid =~= Seq::<char>::empty());
        } else {
            assert(mid =~= ip);
        }
    } else {
        assert(w == g.push('/'));
        if spec_ends_with(w, "ipfs/"@) {
            assert(mid =~= seq!['/']);
        } else {
            assert(mid =~= seq!['/'] + ip);
        }
    }
    if g.len() > 0 && g.last() == '/' {
        assert(g.skip(g.len() - 1) =~= seq!['/']);
    }
    if g.len() >= 4 && g.skip(g.len() - 4) == seq!['i', 'p', 'f', 's'] {
        assert(g.last() == g.skip(g.len() - 4)[3]);
        assert(g.last() == 's');
        assert(w == g.push('/'));
        assert(w.skip(w.len() - 5) =~= ip) by {
            assert forall|t: int| 0 <= t < 4 implies w.skip(w.len() - 5)[t] == ip[t] by {
                assert(w.skip(w.len() - 5)[t] == g.skip(g.len() - 4)[t]);
            }
        }
    }
    if g.len() >= 5 && g.skip(g.len() - 5) == ip {
        assert(g.skip(g.len() - 1) =~= seq!['/']) by {
            assert(g.skip(g.len() - 1)[0] == g.skip(g.len() - 5)[4]);
        }
        assert(w == g);
        assert(spec_ends_with(w, "ipfs/"@));
    }
}

fn slash_terminated(s: &mut Vec<char>)
    ensures
        final(s)@ == with_slash(old(s)@),
{
    let slash = str_chars("/");
    proof {
        reveal_strlit("/");
    }
    if !chars_end_with(s.as_slice(), slash.as_slice()) {
        s.push('/');
    }
}

/// Routes a download of `cid`: the default gateway when no override is
/// given; the override itself, as a gateway URL, when it starts with
/// "http://" or "https://"; otherwise the override is a tag to look up.
pub fn resolve_ipfs(cid: &str, gateway_override: Option<&str>) -> (r: IpfsRoute)
    ensures
        match gateway_override {
            None => r matches IpfsRoute::Url(u) && u@ == default_gateway() + cid@,
            Some(g) => if is_http_url(g@) {
                r matches IpfsRoute::Url(u) && u@ == gateway_prefix(g@) + cid@
            } else {
                r matches IpfsRoute::Tag(t) && t@ == str_lowercase(g@)
            },
        },
{
    match gateway_override {
        None => {
            let mut out: Vec<char> = Vec::new();
            push_str_chars(&mut out, "https://ipfs.io/ipfs/");
            push_str_chars(&mut out, cid);
            IpfsRoute::Url(string_from_chars(out.as_slice()))
        },
        Some(g) => {
            let gc = str_chars(g);
            let http = str_chars("http://");
            let https = str_chars("https://");
            if chars_start_with(gc.as_slice(), http.as_slice()) || chars_start_with(
                gc.as_slice(),
                https.as_slice(),
            ) {
                let mut base = gc;
                slash_terminated(&mut base);
                let suffix = str_chars("ipfs/");
                if !chars_end_with(base.as_slice(), suffix.as_slice()) {
                    push_str_chars(&mut base, "ipfs/");
                }
                push_str_chars(&mut base, cid);
                IpfsRoute::Url(string_from_chars(base.as_slice()))
            } else {
                IpfsRoute::Tag(to_lowercase(g))
            }
        },
    }
}

/// The download URL built from the first item, from index `i` on, that
/// matches `tag`: the gateway with a trailing '/', then "ipfs/", then the CID.
pub open spec fn gateway_from(items: Seq<Option<Seq<char>>>, tag: Seq<char>, cid: Seq<char>, i: int) -> Option<Seq<char>>
    decreases items.len() - i,
{
    if 0 <= i < items.len() {
        match items[i] {
            Some(u) => if spec_contains(str_lowercase(u), tag) {
                Some(with_slash(u) + "ipfs/"@ + cid)
            } else {
                gateway_from(items, tag, cid, i + 1)
            },
            None => gateway_from(items, tag, cid, i + 1),
        }
    } else {
        None
    }
}

/// The error shown when the gateway list is not JSON.
pub open spec fn gateway_list_error() -> Seq<char> {
    "Error parsing live IPFS gateway JSON."@
}

/// The error shown when no gateway matches the tag.
pub open spec fn no_gateway_error(tag: Seq<char>) -> Seq<char> {
    "Error: Could not find any active public gateway matching the tag:"@ + " '"@ + tag + "'"@
}

fn no_gateway_message(tag: &str) -> (r: String)
    ensures
        r@ == no_gateway_error(tag@),
{
    let mut out: Vec<char> = Vec::new();
    push_str_chars(&mut out, "Error: Could not find any active public gateway matching the tag:");
    push_str_chars(&mut out, " '");
    push_str_chars(&mut out, tag);
    push_str_chars(&mut out, "'");
    string_from_chars(out.as_slice())
}

/// Finds the download URL for `cid` on the first gateway of the live list
/// (a JSON array of gateway URLs) whose lowercase URL contains `tag`.
pub fn resolve_ipfs_tag(cid: &str, tag: &str, gateway_list: &str) -> (r: Result<String, String>)
    ensures
        match json_string_items(gateway_list@) {
            None => r matches Err(e) && e@ == gateway_list_error(),
            Some(None) => r matches Err(e) && e@ == no_gateway_error(tag@),
            Some(Some(items)) => match gateway_from(items, tag@, cid@, 0) {
                Some(u) => r matches Ok(v) && v@ == u,
                None => r matches Err(e) && e@ == no_gateway_error(tag@),
            },
        },
{
    let parsed = json_string_array(gateway_list);
    let items = match parsed {
        None => {
            return Err(String::from_str("Error parsing live IPFS gateway JSON."));
        },
        Some(None) => {
            return Err(no_gateway_message(tag));
        },
        Some(Some(items)) => items,
    };
    let ghost views = opt_string_views(items@);
    let tc = str_chars(tag);
    let n = items.len();
    let mut i: usize = 0;
    while i < n
        invariant
            n == items@.len(),
            i <= n,
            views == opt_string_views(items@),
            json_string_items(gateway_list@) == Some(Some(views)),
            tc@ == tag@,
            gateway_from(views, tag@, cid@, 0) == gateway_from(views, tag@, cid@, i as int),
        decreases n - i,
    {
        match &items[i] {
            Some(u) => {
                assert(views[i as int] == Some(u@));
                let lower = to_lowercase(u.as_str());
                let lc = str_chars(lower.as_str());
                if contains_chars(lc.as_slice(), tc.as_slice()) {
                    let mut out = str_chars(u.as_str());
                    slash_terminated(&mut out);
                    push_str_chars(&mut out, "ipfs/");
                    push_str_chars(&mut out, cid);
                    return Ok(string_from_chars(out.as_slice()));
                }
            },
            None => {
                assert(views[i as int] is None);
            },
        }
        i = i + 1;
    }
    Err(no_gateway_message(tag))
}

// ─── Pinata uploads ──────────────────────────────────────────────

/// An HTTP request that pins a file on IPFS through Pinata.
pub struct PinataUpload {
    /// The endpoint the request is posted to.
    pub url: String,
    /// The `Authorization` header.
    pub authorization: String,
    /// The `Content-Type` header.
    pub content_type: String,
    /// The multipart body.
    pub body: Vec<u8>,
}

/// The multipart boundary of upload requests.
pub open spec fn pinata_boundary() -> Seq<char> {
    "------------------------Boundary123456789"@
}

/// The multipart text before the file's bytes.
pub open spec fn multipart_header() -> Seq<char> {
    "--"@ + pinata_boundary()
        + "\r\nContent-Disposition: form-data; name=\"file\"; filename=\"payload\"\r\nContent-Type: application/octet-stream\r\n\r\n"@
}

/// The multipart text after the file's bytes.
pub open spec fn multipart_footer() -> Seq<char> {
    "\r\n--"@ + pinata_boundary() + "--\r\n"@
}

/// The multipart text that precedes the uploaded bytes.
pub fn pinata_multipart_header() -> (r: String)
    ensures
        r@ == multipart_header(),
{
    let mut out: Vec<char> = Vec::new();
    push_str_chars(&mut out, "--");
    push_str_chars(&mut out, "------------------------Boundary123456789");
    push_str_chars(
        &mut out,
        "\r\nContent-Disposition: form-data; name=\"file\"; filename=\"payload\"\r\nContent-Type: application/octet-stream\r\n\r\n",
    );
    string_from_chars(out.as_slice())
}

/// The multipart text that follows the uploaded bytes.
pub fn pinata_multipart_footer() -> (r: String)
    ensures
        r@ == multipart_footer(),
{
    let mut out: Vec<char> = Vec::new();
    push_str_chars(&mut out, "\r\n--");
    push_str_chars(&mut out, "------------------------Boundary123456789");
    push_str_chars(&mut out, "--\r\n");
    string_from_chars(out.as_slice())
}

/// The request that pins `data` with the Pinata API token `api_token`: a
/// multipart POST to the pinning endpoint, authorised as a bearer.
pub fn upload_to_ipfs(data: &[u8], api_token: &str) -> (r: PinataUpload)
    ensures
        r.url@ == "https://api.pinata.cloud/pinning/pinFileToIPFS"@,
        r.authorization@ == "Bearer "@ + api_token@,
        r.content_type@ == "multipart/form-data; boundary="@ + pinata_boundary(),
        r.body@ == encode_utf8(multipart_header()) + data@ + encode_utf8(multipart_footer()),
{
    let mut auth: Vec<char> = Vec::new();
    push_str_chars(&mut auth, "Bearer ");
    push_str_chars(&mut auth, api_token);
    let mut ctype: Vec<char> = Vec::new();
    push_str_chars(&mut ctype, "multipart/form-data; boundary=");
    push_str_chars(&mut ctype, "------------------------Boundary123456789");
    let header = pinata_multipart_header();
    let footer = pinata_multipart_footer();
    let mut body: Vec<u8> = Vec::new();
    body.extend_from_slice(header.as_str().as_bytes());
    body.extend_from_slice(data);
    body.extend_from_slice(footer.as_str().as_bytes());
    PinataUpload {
        url: String::from_str("https://api.pinata.cloud/pinning/pinFileToIPFS"),
        authorization: string_from_chars(auth.as_slice()),
        content_type: string_from_chars(ctype.as_slice()),
        body,
    }
}

/// The CID in a Pinata pinning response: its top-level "IpfsHash" string.
pub fn pinata_cid(response: &str) -> (r: Result<String, String>)
    ensures
        match json_top_string_field(response@, "IpfsHash"@) {
            None => r matches Err(e) && e@ == "Failed to parse JSON"@,
            Some(None) => r matches Err(e) && e@ == "Response missing IpfsHash"@,
            Some(Some(h)) => r matches Ok(c) && c@ == h,
        },
{
    match json_string_field(response, "IpfsHash") {
        None => Err(String::from_str("Failed to parse JSON")),
        Some(None) => Err(String::from_str("Response missing IpfsHash")),
        Some(Some(h)) => Ok(h),
    }
}

} // verus!
