use vstd::prelude::*;
use vstd::string::StringExecFns;

verus! {

/// The media type that the extension of `path` stands for;
/// "application/octet-stream" when it stands for none.
pub uninterp spec fn mime_for_path(path: Seq<char>) -> Seq<char>;

/// `mime_guess::from_path(path).first_or_octet_stream()`, as text: named
/// `mime_for_path`.
#[verifier::external_body]
fn guess_mime(path: &str) -> (r: String)
    ensures
        r@ == mime_for_path(path@),
{
    mime_guess::from_path(path).first_or_octet_stream().as_ref().to_string()
}

/// How long a browser may keep an asset: not at all while developing, a year
/// otherwise (the assets are built into the binary).
pub open spec fn cache_control_spec(development: bool) -> Seq<char> {
    if development {
        "no-cache"@
    } else {
        "public, max-age=31536000, immutable"@
    }
}

/// The headers of an asset's response.
pub struct AssetHeaders {
    pub content_type: String,
    pub cache_control: String,
}

/// How an asset is answered: 404 when there is no such asset, else its media
/// type (guessed from its path) and how long it may be cached.
pub fn serve_asset(path: &str, found: bool, development: bool) -> (r: Result<AssetHeaders, u16>)
    ensures
        !found ==> r == Err::<AssetHeaders, u16>(404),
        found ==> (r matches Ok(h) && h.content_type@ == mime_for_path(path@) && h.cache_control@
            == cache_control_spec(development)),
{
    if !found {
        return Err(404);
    }
    let content_type = guess_mime(path);
    let cache_control = if development {
        String::from_str("no-cache")
    } else {
        String::from_str("public, max-age=31536000, immutable")
    };
    Ok(AssetHeaders { content_type, cache_control })
}

} // verus!
