//! The site client's decisions: the URLs it requests, how it reads each
//! response, and how fetched images are converted to the configured format.
//! Sending requests and reading bodies is the caller's part.
use vstd::prelude::*;

use crate::scrape::{
    concat_str, favorite_comics_match, favorite_of, search_comics_match, search_result_of,
    shelf_matches, shelves_match, user_profile_of, ParseError,
};
use crate::text::{int_string, int_text};
use crate::types::{DownloadFormat, GetFavoriteResult, SearchResult, UserProfile};

verus! {

/// Why a request to the site failed.
#[derive(Debug, Clone, PartialEq)]
pub enum SiteError {
    /// The transport failed.
    Network,
    /// An unexpected HTTP status, with the response body.
    Protocol { status: u16, body: String },
    /// A response could not be read.
    Parse(ParseError),
    /// The credentials or the cookie were refused.
    Unauthenticated,
    /// The image server answered 429.
    RateLimited,
}

pub const HTTP_OK: u16 = 200;

pub const HTTP_TOO_MANY_REQUESTS: u16 = 429;

/// `https://<domain>`, the origin of every request.
pub open spec fn origin() -> Seq<char> {
    "https://www.wnacg01.cc"@
}

/// The `referer` header sent with every request.
pub fn referer() -> (r: String)
    ensures
        r@ == origin() + "/"@,
{
    concat_str("https://www.wnacg01.cc", "/")
}

pub fn login_url() -> (r: String)
    ensures
        r@ == origin() + "/users-check_login.html"@,
{
    concat_str("https://www.wnacg01.cc", "/users-check_login.html")
}

pub fn user_profile_url() -> (r: String)
    ensures
        r@ == origin() + "/users.html"@,
{
    concat_str("https://www.wnacg01.cc", "/users.html")
}

pub fn keyword_search_url() -> (r: String)
    ensures
        r@ == origin() + "/search/index.php"@,
{
    concat_str("https://www.wnacg01.cc", "/search/index.php")
}

/// The query of a keyword search: `q`, `syn=yes`, `f=_all`,
/// `s=create_time_DESC`, `p`, in this order.
pub fn keyword_search_query(keyword: &str, page: i64) -> (r: Vec<(String, String)>)
    ensures
        r@.len() == 5,
        r@[0].0@ == "q"@ && r@[0].1@ == keyword@,
        r@[1].0@ == "syn"@ && r@[1].1@ == "yes"@,
        r@[2].0@ == "f"@ && r@[2].1@ == "_all"@,
        r@[3].0@ == "s"@ && r@[3].1@ == "create_time_DESC"@,
        r@[4].0@ == "p"@ && r@[4].1@ == int_text(page as int),
{
    let mut q: Vec<(String, String)> = Vec::new();
    q.push(("q".to_string(), keyword.to_string()));
    q.push(("syn".to_string(), "yes".to_string()));
    q.push(("f".to_string(), "_all".to_string()));
    q.push(("s".to_string(), "create_time_DESC".to_string()));
    q.push(("p".to_string(), int_string(page)));
    q
}

fn join3(a: &str, b: &str, c: &str) -> (r: String)
    ensures
        r@ == a@ + b@ + c@,
{
    let ab = concat_str(a, b);
    concat_str(ab.as_str(), c)
}

/// `https://<domain>/albums-index-page-<page>-tag-<tag>.html`
pub fn tag_search_url(tag: &str, page: i64) -> (r: String)
    ensures
        r@ == origin() + "/albums-index-page-"@ + int_text(page as int) + "-tag-"@ + tag@
            + ".html"@,
{
    let p = int_string(page);
    let a = join3("https://www.wnacg01.cc", "/albums-index-page-", p.as_str());
    let b = join3(a.as_str(), "-tag-", tag);
    concat_str(b.as_str(), ".html")
}

/// `https://<domain>/photos-index-aid-<id>.html`
pub fn comic_url(id: i64) -> (r: String)
    ensures
        r@ == origin() + "/photos-index-aid-"@ + int_text(id as int) + ".html"@,
{
    let i = int_string(id);
    let a = join3("https://www.wnacg01.cc", "/photos-index-aid-", i.as_str());
    concat_str(a.as_str(), ".html")
}

/// `https://<domain>/photos-gallery-aid-<id>.html`
pub fn gallery_url(id: i64) -> (r: String)
    ensures
        r@ == origin() + "/photos-gallery-aid-"@ + int_text(id as int) + ".html"@,
{
    let i = int_string(id);
    let a = join3("https://www.wnacg01.cc", "/photos-gallery-aid-", i.as_str());
    concat_str(a.as_str(), ".html")
}

/// `https://<domain>/users-users_fav-page-<page>-c-<shelf_id>.html`
pub fn favorite_url(shelf_id: i64, page: i64) -> (r: String)
    ensures
        r@ == origin() + "/users-users_fav-page-"@ + int_text(page as int) + "-c-"@ + int_text(
            shelf_id as int,
        ) + ".html"@,
{
    let p = int_string(page);
    let s = int_string(shelf_id);
    let a = join3("https://www.wnacg01.cc", "/users-users_fav-page-", p.as_str());
    let b = join3(a.as_str(), "-c-", s.as_str());
    concat_str(b.as_str(), ".html")
}

/// The body of a page response: `Protocol` unless the status is 200.
pub fn check_status(status: u16, body: String) -> (r: Result<String, SiteError>)
    ensures
        status == HTTP_OK ==> r == Ok::<String, SiteError>(body),
        status != HTTP_OK ==> r == Err::<String, SiteError>(SiteError::Protocol { status, body }),
{
    if status == HTTP_OK {
        Ok(body)
    } else {
        Err(SiteError::Protocol { status, body })
    }
}

/// The cookie a login response grants. `ret` is the `ret` field of the JSON
/// body, `None` when the body is not a login response; `set_cookie` is the
/// `set-cookie` header as text.
pub fn login_cookie(status: u16, body: String, ret: Option<bool>, set_cookie: Option<String>) -> (r:
    Result<String, SiteError>)
    ensures
        status != HTTP_OK ==> r == Err::<String, SiteError>(SiteError::Protocol { status, body }),
        status == HTTP_OK && ret is None ==> r == Err::<String, SiteError>(
            SiteError::Parse(ParseError::Undecodable),
        ),
        status == HTTP_OK && ret == Some(false) ==> r == Err::<String, SiteError>(
            SiteError::Unauthenticated,
        ),
        status == HTTP_OK && ret == Some(true) && set_cookie is None ==> r == Err::<
            String,
            SiteError,
        >(SiteError::Protocol { status, body }),
        status == HTTP_OK && ret == Some(true) && set_cookie is Some ==> r == Ok::<
            String,
            SiteError,
        >(set_cookie->0),
{
    if status != HTTP_OK {
        return Err(SiteError::Protocol { status, body });
    }
    match ret {
        None => Err(SiteError::Parse(ParseError::Undecodable)),
        Some(false) => Err(SiteError::Unauthenticated),
        Some(true) => match set_cookie {
            None => Err(SiteError::Protocol { status, body }),
            Some(c) => Ok(c),
        },
    }
}

/// A scraper failure as a site error: the logged-out page means the cookie
/// was refused.
pub open spec fn site_error_of(e: ParseError) -> SiteError {
    if e == ParseError::NotLoggedIn {
        SiteError::Unauthenticated
    } else {
        SiteError::Parse(e)
    }
}

pub fn to_site_error(e: ParseError) -> (r: SiteError)
    ensures
        r == site_error_of(e),
{
    if e == ParseError::NotLoggedIn {
        SiteError::Unauthenticated
    } else {
        SiteError::Parse(e)
    }
}

/// Reads a profile response.
pub fn user_profile_response(status: u16, body: String) -> (r: Result<UserProfile, SiteError>)
    ensures
        status != HTTP_OK ==> r == Err::<UserProfile, SiteError>(
            SiteError::Protocol { status, body },
        ),
        status == HTTP_OK ==> match (r, user_profile_of(body@)) {
            (Ok(p), Ok(v)) => p.username@ == v.username && p.avatar@ == v.avatar,
            (Err(e), Err(f)) => e == site_error_of(f),
            _ => false,
        },
{
    let ghost b = body@;
    let page = match check_status(status, body) {
        Err(e) => {
            return Err(e);
        },
        Ok(p) => p,
    };
    match UserProfile::from_html(page.as_str()) {
        Ok(p) => Ok(p),
        Err(e) => Err(to_site_error(e)),
    }
}

/// Reads a search response.
pub fn search_response(status: u16, body: String, by_tag: bool) -> (r: Result<
    SearchResult,
    SiteError,
>)
    ensures
        status != HTTP_OK ==> r == Err::<SearchResult, SiteError>(
            SiteError::Protocol { status, body },
        ),
        status == HTTP_OK ==> (r is Ok <==> search_result_of(body@, by_tag) is Ok),
        status == HTTP_OK && r is Ok ==> {
            let v = search_result_of(body@, by_tag)->Ok_0;
            &&& search_comics_match(r->Ok_0.comics@, v.comics)
            &&& r->Ok_0.current_page == v.current_page
            &&& r->Ok_0.total_page == v.total_page
            &&& r->Ok_0.is_search_by_tag == by_tag
        },
        status == HTTP_OK && r is Err ==> r->Err_0 == site_error_of(
            search_result_of(body@, by_tag)->Err_0,
        ),
{
    let page = match check_status(status, body) {
        Err(e) => {
            return Err(e);
        },
        Ok(p) => p,
    };
    match SearchResult::from_html(page.as_str(), by_tag) {
        Ok(s) => Ok(s),
        Err(e) => Err(to_site_error(e)),
    }
}

/// Reads a favorites response.
pub fn favorite_response(status: u16, body: String) -> (r: Result<GetFavoriteResult, SiteError>)
    ensures
        status != HTTP_OK ==> r == Err::<GetFavoriteResult, SiteError>(
            SiteError::Protocol { status, body },
        ),
        status == HTTP_OK ==> (r is Ok <==> favorite_of(body@) is Ok),
        status == HTTP_OK && r is Ok ==> {
            let v = favorite_of(body@)->Ok_0;
            &&& favorite_comics_match(r->Ok_0.comics@, v.comics)
            &&& r->Ok_0.current_page == v.current_page
            &&& r->Ok_0.total_page == v.total_page
            &&& shelf_matches(r->Ok_0.shelf, v.shelf)
            &&& shelves_match(r->Ok_0.shelves@, v.shelves)
        },
        status == HTTP_OK && r is Err ==> r->Err_0 == site_error_of(favorite_of(body@)->Err_0),
{
    let page = match check_status(status, body) {
        Err(e) => {
            return Err(e);
        },
        Ok(p) => p,
    };
    match GetFavoriteResult::from_html(page.as_str()) {
        Ok(g) => Ok(g),
        Err(e) => Err(to_site_error(e)),
    }
}

/// The image formats the site serves.
#[derive(Debug, Clone, Copy, PartialEq, Eq, Structural)]
pub enum ImageKind {
    Jpeg,
    Png,
    Webp,
}

/// The format a `content-type` announces, if the site serves it.
pub open spec fn kind_of_content_type(ct: Seq<char>) -> Option<ImageKind> {
    if ct == "image/jpeg"@ {
        Some(ImageKind::Jpeg)
    } else if ct == "image/png"@ {
        Some(ImageKind::Png)
    } else if ct == "image/webp"@ {
        Some(ImageKind::Webp)
    } else {
        None
    }
}

fn same_text(a: &str, b: &str) -> (r: bool)
    ensures
        r == (a@ == b@),
{
    let x = crate::text::chars_of(a);
    let y = crate::text::chars_of(b);
    if x.len() != y.len() {
        return false;
    }
    let r = crate::text::starts_with(&x, &y);
    proof {
        if r {
            assert(x@ =~= y@);
        }
    }
    r
}

pub fn image_kind_of_content_type(ct: &str) -> (r: Option<ImageKind>)
    ensures
        r == kind_of_content_type(ct@),
{
    if same_text(ct, "image/jpeg") {
        Some(ImageKind::Jpeg)
    } else if same_text(ct, "image/png") {
        Some(ImageKind::Png)
    } else if same_text(ct, "image/webp") {
        Some(ImageKind::Webp)
    } else {
        None
    }
}

/// The format an image is saved in: the configured one, or the source
/// format under `Original`.
pub open spec fn target_kind_spec(format: DownloadFormat, source: ImageKind) -> ImageKind {
    match format {
        DownloadFormat::Jpeg => ImageKind::Jpeg,
        DownloadFormat::Png => ImageKind::Png,
        DownloadFormat::Webp => ImageKind::Webp,
        DownloadFormat::Original => source,
    }
}

pub fn target_kind(format: DownloadFormat, source: ImageKind) -> (r: ImageKind)
    ensures
        r == target_kind_spec(format, source),
{
    match format {
        DownloadFormat::Jpeg => ImageKind::Jpeg,
        DownloadFormat::Png => ImageKind::Png,
        DownloadFormat::Webp => ImageKind::Webp,
        DownloadFormat::Original => source,
    }
}

/// The file extension of a saved image.
pub fn kind_extension(kind: ImageKind) -> (r: &'static str)
    ensures
        kind == ImageKind::Jpeg ==> r@ == "jpg"@,
        kind == ImageKind::Png ==> r@ == "png"@,
        kind == ImageKind::Webp ==> r@ == "webp"@,
{
    match kind {
        ImageKind::Jpeg => "jpg",
        ImageKind::Png => "png",
        ImageKind::Webp => "webp",
    }
}

/// The JPEG encoding (8-bit RGB) of the image that `data` holds, if it decodes.
pub uninterp spec fn jpeg_of(data: Seq<u8>) -> Option<Seq<u8>>;

/// The PNG encoding (8-bit RGBA) of the image that `data` holds, if it decodes.
pub uninterp spec fn png_of(data: Seq<u8>) -> Option<Seq<u8>>;

/// The WebP encoding (8-bit RGBA) of the image that `data` holds, if it decodes.
pub uninterp spec fn webp_of(data: Seq<u8>) -> Option<Seq<u8>>;

/// Relies on image's `load_from_memory`, `DynamicImage::to_rgb8` and
/// `ImageBuffer::write_to` with `ImageFormat::Jpeg`.
#[verifier::external_body]
fn encode_jpeg(data: &[u8]) -> (r: Option<Vec<u8>>)
    ensures
        match r {
            Some(v) => jpeg_of(data@) == Some(v@),
            None => jpeg_of(data@) is None,
        },
{
    let img = image::load_from_memory(data).ok()?;
    let mut out: Vec<u8> = Vec::new();
    img.to_rgb8().write_to(&mut std::io::Cursor::new(&mut out), image::ImageFormat::Jpeg).ok()?;
    Some(out)
}

/// Relies on image's `load_from_memory`, `DynamicImage::to_rgba8` and
/// `ImageBuffer::write_to` with `ImageFormat::Png`.
#[verifier::external_body]
fn encode_png(data: &[u8]) -> (r: Option<Vec<u8>>)
    ensures
        match r {
            Some(v) => png_of(data@) == Some(v@),
            None => png_of(data@) is None,
        },
{
    let img = image::load_from_memory(data).ok()?;
    let mut out: Vec<u8> = Vec::new();
    img.to_rgba8().write_to(&mut std::io::Cursor::new(&mut out), image::ImageFormat::Png).ok()?;
    Some(out)
}

/// Relies on image's `load_from_memory`, `DynamicImage::to_rgba8` and
/// `ImageBuffer::write_to` with `ImageFormat::WebP`.
#[verifier::external_body]
fn encode_webp(data: &[u8]) -> (r: Option<Vec<u8>>)
    ensures
        match r {
            Some(v) => webp_of(data@) == Some(v@),
            None => webp_of(data@) is None,
        },
{
    let img = image::load_from_memory(data).ok()?;
    let mut out: Vec<u8> = Vec::new();
    img.to_rgba8().write_to(&mut std::io::Cursor::new(&mut out), image::ImageFormat::WebP).ok()?;
    Some(out)
}

/// The encoding of `data` in `target`.
pub open spec fn encoded_as(data: Seq<u8>, target: ImageKind) -> Option<Seq<u8>> {
    match target {
        ImageKind::Jpeg => jpeg_of(data),
        ImageKind::Png => png_of(data),
        ImageKind::Webp => webp_of(data),
    }
}

/// `data`, an image in `source` format, converted to `target`; unchanged when
/// the two are the same.
pub fn transcode(data: Vec<u8>, source: ImageKind, target: ImageKind) -> (r: Result<
    Vec<u8>,
    SiteError,
>)
    ensures
        source == target ==> r == Ok::<Vec<u8>, SiteError>(data),
        source != target ==> match encoded_as(data@, target) {
            Some(out) => r is Ok && r->Ok_0@ == out,
            None => r == Err::<Vec<u8>, SiteError>(SiteError::Parse(ParseError::Undecodable)),
        },
{
    if source == target {
        return Ok(data);
    }
    let out = match target {
        ImageKind::Jpeg => encode_jpeg(data.as_slice()),
        ImageKind::Png => encode_png(data.as_slice()),
        ImageKind::Webp => encode_webp(data.as_slice()),
    };
    match out {
        Some(v) => Ok(v),
        None => Err(SiteError::Parse(ParseError::Undecodable)),
    }
}

/// The status check of an image response: 429 means rate-limited, any other
/// status but 200 is `Protocol` with the body text.
pub fn check_img_status(status: u16, body: String) -> (r: Result<(), SiteError>)
    ensures
        status == HTTP_OK ==> r is Ok,
        status == HTTP_TOO_MANY_REQUESTS ==> r == Err::<(), SiteError>(SiteError::RateLimited),
        status != HTTP_OK && status != HTTP_TOO_MANY_REQUESTS ==> r == Err::<(), SiteError>(
            SiteError::Protocol { status, body },
        ),
{
    if status == HTTP_TOO_MANY_REQUESTS {
        Err(SiteError::RateLimited)
    } else if status != HTTP_OK {
        Err(SiteError::Protocol { status, body })
    } else {
        Ok(())
    }
}

/// The bytes to save for a fetched image and their format: the source format
/// comes from `content_type`, which must be JPEG, PNG or WebP; the image is
/// converted when the configured format differs.
pub fn img_data_and_format(content_type: Option<String>, data: Vec<u8>, format: DownloadFormat) -> (r:
    Result<(Vec<u8>, ImageKind), SiteError>)
    ensures
        content_type is None ==> r == Err::<(Vec<u8>, ImageKind), SiteError>(
            SiteError::Parse(ParseError::Missing),
        ),
        content_type is Some && kind_of_content_type(content_type->0@) is None ==> r == Err::<
            (Vec<u8>, ImageKind),
            SiteError,
        >(SiteError::Parse(ParseError::UnexpectedText)),
        content_type is Some && kind_of_content_type(content_type->0@) is Some ==> {
            let source = kind_of_content_type(content_type->0@)->0;
            let target = target_kind_spec(format, source);
            if source == target {
                r == Ok::<(Vec<u8>, ImageKind), SiteError>((data, source))
            } else {
                match encoded_as(data@, target) {
                    Some(out) => r is Ok && r->Ok_0.0@ == out && r->Ok_0.1 == target,
                    None => r == Err::<(Vec<u8>, ImageKind), SiteError>(
                        SiteError::Parse(ParseError::Undecodable),
                    ),
                }
            }
        },
{
    let ct = match content_type {
        None => {
            return Err(SiteError::Parse(ParseError::Missing));
        },
        Some(c) => c,
    };
    let source = match image_kind_of_content_type(ct.as_str()) {
        None => {
            return Err(SiteError::Parse(ParseError::UnexpectedText));
        },
        Some(k) => k,
    };
    let target = target_kind(format, source);
    match transcode(data, source, target) {
        Ok(out) => Ok((out, target)),
        Err(e) => Err(e),
    }
}

} // verus!
