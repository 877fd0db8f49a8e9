//! Page scrapers: each turns the HTML of one site page into a typed record,
//! or names what it could not find.
use vstd::prelude::*;

use crate::dom::{
    select_attr, select_count, select_first_text, select_html, select_text, selected_attr,
    selected_count, selected_first_text, selected_html, selected_text,
};
use crate::text::{
    chars_of, filename_filter, filename_filter_spec, i64_of, parse_i64, remove_char, string_of,
    strip_prefix, strip_prefix_str, strip_suffix, strip_suffix_str, trim, trim_start_by,
    trim_start_matching, trim_str, without_char,
};
use crate::types::{
    Comic, ComicInFavorite, ComicInSearch, GetFavoriteResult, ImgList, SearchResult, Shelf, Tag,
    UserProfile,
};

verus! {

/// Why a page could not be read.
#[derive(Debug, Clone, Copy, PartialEq, Eq, Structural)]
pub enum ParseError {
    /// The page is the logged-out variant.
    NotLoggedIn,
    /// An element, attribute or text the page should have is absent.
    Missing,
    /// A text lacks the prefix or suffix it should have.
    UnexpectedText,
    /// A text that should be an integer is not one.
    NotAnInteger,
    /// A body could not be decoded (JSON text, image bytes).
    Undecodable,
}

/// Concatenation of two strings.
pub fn concat_str(a: &str, b: &str) -> (r: String)
    ensures
        r@ == a@ + b@,
{
    let mut x = chars_of(a);
    let ghost av = x@;
    let mut y = chars_of(b);
    let ghost bv = y@;
    x.append(&mut y);
    proof {
        assert(x@ =~= av + bv);
    }
    string_of(x.as_slice())
}

/// The integer spelled by `t`.
pub open spec fn int_field(t: Seq<char>) -> Result<i64, ParseError> {
    match i64_of(t) {
        Some(v) => Ok(v),
        None => Err(ParseError::NotAnInteger),
    }
}

pub fn parse_int_field(t: &str) -> (r: Result<i64, ParseError>)
    ensures
        r == int_field(t@),
{
    match parse_i64(t) {
        Some(v) => Ok(v),
        None => Err(ParseError::NotAnInteger),
    }
}

/// The id in a link `<prefix><id>.html`.
pub open spec fn id_from_href(href: Seq<char>, prefix: Seq<char>) -> Result<i64, ParseError> {
    match strip_prefix(href, prefix) {
        None => Err(ParseError::UnexpectedText),
        Some(a) => match strip_suffix(a, ".html"@) {
            None => Err(ParseError::UnexpectedText),
            Some(b) => int_field(b),
        },
    }
}

pub fn parse_id_from_href(href: &str, prefix: &str) -> (r: Result<i64, ParseError>)
    ensures
        r == id_from_href(href@, prefix@),
{
    match strip_prefix_str(href, prefix) {
        None => Err(ParseError::UnexpectedText),
        Some(a) => match strip_suffix_str(a.as_str(), ".html") {
            None => Err(ParseError::UnexpectedText),
            Some(b) => parse_int_field(b.as_str()),
        },
    }
}

/// The shelf id in a link `/users-users_fav-c-<id>.html`; a link of another
/// shape stands for shelf 0.
pub open spec fn shelf_id_from_href(href: Seq<char>) -> Result<i64, ParseError> {
    match strip_prefix(href, "/users-users_fav-c-"@) {
        Some(a) => match strip_suffix(a, ".html"@) {
            Some(b) => int_field(b),
            None => Ok(0),
        },
        None => Ok(0),
    }
}

pub fn parse_shelf_id(href: &str) -> (r: Result<i64, ParseError>)
    ensures
        r == shelf_id_from_href(href@),
{
    match strip_prefix_str(href, "/users-users_fav-c-") {
        Some(a) => match strip_suffix_str(a.as_str(), ".html") {
            Some(b) => parse_int_field(b.as_str()),
            None => Ok(0),
        },
        None => Ok(0),
    }
}

/// The current page of a listing: the number in `.thispage`, 1 when there is
/// none, and never below 1.
pub open spec fn current_page_of(html: Seq<char>) -> Result<i64, ParseError> {
    if selected_count(html, ".thispage"@) == 0 {
        Ok(1)
    } else {
        match selected_first_text(html, ".thispage"@, 0) {
            None => Err(ParseError::Missing),
            Some(t) => match int_field(t) {
                Err(e) => Err(e),
                Ok(v) => Ok(if v < 1 {
                    1
                } else {
                    v
                }),
            },
        }
    }
}

pub fn current_page(html: &str) -> (r: Result<i64, ParseError>)
    ensures
        r == current_page_of(html@),
{
    if select_count(html, ".thispage") == 0 {
        Ok(1)
    } else {
        match select_first_text(html, ".thispage", 0) {
            None => Err(ParseError::Missing),
            Some(t) => match parse_int_field(t.as_str()) {
                Err(e) => Err(e),
                Ok(v) => Ok(
                    if v < 1 {
                        1
                    } else {
                        v
                    },
                ),
            },
        }
    }
}

/// The page count of a listing with a paginator: the number in its last
/// anchor (1 when it has none), and never below the current page.
pub open spec fn last_anchor_pages_of(html: Seq<char>, current: i64) -> Result<i64, ParseError> {
    let n = selected_count(html, ".f_left.paginator > a"@);
    let raw = if n == 0 {
        Ok(1i64)
    } else {
        match selected_first_text(html, ".f_left.paginator > a"@, n - 1) {
            None => Err(ParseError::Missing),
            Some(t) => int_field(t),
        }
    };
    match raw {
        Err(e) => Err(e),
        Ok(v) => Ok(if v < current {
            current
        } else {
            v
        }),
    }
}

pub fn last_anchor_pages(html: &str, current: i64) -> (r: Result<i64, ParseError>)
    ensures
        r == last_anchor_pages_of(html@, current),
{
    let n = select_count(html, ".f_left.paginator > a");
    let raw = if n == 0 {
        Ok(1i64)
    } else {
        match select_first_text(html, ".f_left.paginator > a", n - 1) {
            None => Err(ParseError::Missing),
            Some(t) => parse_int_field(t.as_str()),
        }
    };
    match raw {
        Err(e) => Err(e),
        Ok(v) => Ok(
            if v < current {
                current
            } else {
                v
            },
        ),
    }
}

/// The logged-in user as the profile page shows it.
pub struct UserProfileView {
    pub username: Seq<char>,
    pub avatar: Seq<char>,
}

pub open spec fn avatar_of(src: Option<Seq<char>>) -> Seq<char> {
    match src {
        Some(s) => "https://www.wn01.uk/"@ + s,
        None => "https://www.wn01.uk/userpic/nopic.png"@,
    }
}

/// What the profile page `html` says: logged out when it shows the
/// `.title.title_c` sentinel; otherwise the user's name and avatar read from
/// the first `.top_utab.ui > a`.
pub open spec fn user_profile_of(html: Seq<char>) -> Result<UserProfileView, ParseError> {
    if selected_count(html, ".title.title_c"@) > 0 {
        Err(ParseError::NotLoggedIn)
    } else {
        match selected_html(html, ".top_utab.ui > a"@, 0) {
            None => Err(ParseError::Missing),
            Some(a) => if selected_count(a, "img"@) == 0 {
                Err(ParseError::Missing)
            } else {
                match selected_first_text(html, ".top_utab.ui > a"@, 0) {
                    None => Err(ParseError::Missing),
                    Some(t) => Ok(
                        UserProfileView {
                            username: trim(t),
                            avatar: avatar_of(selected_attr(a, "img"@, 0, "src"@)),
                        },
                    ),
                }
            },
        }
    }
}

impl UserProfile {
    /// Reads the profile page.
    pub fn from_html(html: &str) -> (r: Result<UserProfile, ParseError>)
        ensures
            match (r, user_profile_of(html@)) {
                (Ok(p), Ok(v)) => p.username@ == v.username && p.avatar@ == v.avatar,
                (Err(e), Err(f)) => e == f,
                _ => false,
            },
    {
        if select_count(html, ".title.title_c") > 0 {
            return Err(ParseError::NotLoggedIn);
        }
        let a = match select_html(html, ".top_utab.ui > a", 0) {
            None => {
                return Err(ParseError::Missing);
            },
            Some(a) => a,
        };
        if select_count(a.as_str(), "img") == 0 {
            return Err(ParseError::Missing);
        }
        let avatar = match select_attr(a.as_str(), "img", 0, "src") {
            Some(src) => concat_str("https://www.wn01.uk/", src.as_str()),
            None => "https://www.wn01.uk/userpic/nopic.png".to_string(),
        };
        let username = match select_first_text(html, ".top_utab.ui > a", 0) {
            None => {
                return Err(ParseError::Missing);
            },
            Some(t) => trim_str(t.as_str()),
        };
        Ok(UserProfile { username, avatar })
    }
}

/// A tag as a page shows it.
pub struct TagView {
    pub name: Seq<char>,
    pub url: Seq<char>,
}

pub open spec fn tags_match(ts: Seq<Tag>, vs: Seq<TagView>) -> bool {
    &&& ts.len() == vs.len()
    &&& forall|i: int|
        0 <= i < ts.len() ==> (#[trigger] ts[i]).name@ == vs[i].name && ts[i].url@ == vs[i].url
}

/// The tags among the first `n` `.tagshow` links of a comic page: a link
/// without text is skipped; one without `href` makes the page unreadable.
pub open spec fn tags_of(html: Seq<char>, n: nat) -> Result<Seq<TagView>, ParseError>
    decreases n,
{
    if n == 0 {
        Ok(Seq::empty())
    } else {
        match tags_of(html, (n - 1) as nat) {
            Err(e) => Err(e),
            Ok(prev) => match selected_first_text(html, ".tagshow"@, n - 1) {
                None => Ok(prev),
                Some(t) => match selected_attr(html, ".tagshow"@, n - 1, "href"@) {
                    None => Err(ParseError::Missing),
                    Some(h) => Ok(prev.push(TagView { name: trim(t), url: "https://www.wn01.uk"@ + h })),
                },
            },
        }
    }
}

proof fn lemma_tags_error_stays(html: Seq<char>, k: nat, n: nat)
    requires
        k <= n,
        tags_of(html, k) is Err,
    ensures
        tags_of(html, n) == tags_of(html, k),
    decreases n - k,
{
    if k < n {
        lemma_tags_error_stays(html, k, (n - 1) as nat);
    }
}

/// A comic as its index page describes it.
pub struct ComicView {
    pub id: i64,
    pub title: Seq<char>,
    pub cover: Seq<char>,
    pub category: Seq<char>,
    pub image_count: i64,
    pub tags: Seq<TagView>,
    pub intro: Seq<char>,
}

pub open spec fn image_count_of(label: Seq<char>) -> Result<i64, ParseError> {
    match strip_prefix(label, "頁數："@) {
        None => Err(ParseError::UnexpectedText),
        Some(a) => match strip_suffix(a, "P"@) {
            None => Err(ParseError::UnexpectedText),
            Some(b) => int_field(b),
        },
    }
}

/// What a comic's index page `html` says, field by field in this order: the
/// id from `head > link`, the title from `#bodywrap > h2`, the cover from
/// `.asTBcell.uwthumb > img`, category and page count from the first two
/// `.asTBcell.uwconn > label`, the tags, the introduction `.asTBcell.uwconn > p`.
pub open spec fn comic_of(html: Seq<char>) -> Result<ComicView, ParseError> {
    match selected_attr(html, "head > link"@, 0, "href"@) {
        None => Err(ParseError::Missing),
        Some(href) => match id_from_href(href, "/feed-index-aid-"@) {
            Err(e) => Err(e),
            Ok(id) => match selected_first_text(html, "#bodywrap > h2"@, 0) {
                None => Err(ParseError::Missing),
                Some(title) => match selected_attr(html, ".asTBcell.uwthumb > img"@, 0, "src"@) {
                    None => Err(ParseError::Missing),
                    Some(src) => match selected_first_text(html, ".asTBcell.uwconn > label"@, 0) {
                        None => Err(ParseError::Missing),
                        Some(cat) => match strip_prefix(cat, "分類："@) {
                            None => Err(ParseError::UnexpectedText),
                            Some(category) => match selected_first_text(
                                html,
                                ".asTBcell.uwconn > label"@,
                                1,
                            ) {
                                None => Err(ParseError::Missing),
                                Some(label) => match image_count_of(label) {
                                    Err(e) => Err(e),
                                    Ok(image_count) => match tags_of(
                                        html,
                                        selected_count(html, ".tagshow"@),
                                    ) {
                                        Err(e) => Err(e),
                                        Ok(tags) => match selected_html(
                                            html,
                                            ".asTBcell.uwconn > p"@,
                                            0,
                                        ) {
                                            None => Err(ParseError::Missing),
                                            Some(intro) => Ok(
                                                ComicView {
                                                    id,
                                                    title: filename_filter_spec(title),
                                                    cover: "https://"@ + trim_start_by(
                                                        src,
                                                        |c: char| c == '/',
                                                    ),
                                                    category,
                                                    image_count,
                                                    tags,
                                                    intro,
                                                },
                                            ),
                                        },
                                    },
                                },
                            },
                        },
                    },
                },
            },
        },
    }
}

pub open spec fn comic_matches(c: Comic, v: ComicView) -> bool {
    &&& c.id == v.id
    &&& c.title@ == v.title
    &&& c.cover@ == v.cover
    &&& c.category@ == v.category
    &&& c.image_count == v.image_count
    &&& tags_match(c.tags@, v.tags)
    &&& c.intro@ == v.intro
}

fn tags_from_html(html: &str) -> (r: Result<Vec<Tag>, ParseError>)
    ensures
        match (r, tags_of(html@, selected_count(html@, ".tagshow"@))) {
            (Ok(ts), Ok(vs)) => tags_match(ts@, vs),
            (Err(e), Err(f)) => e == f,
            _ => false,
        },
{
    let n = select_count(html, ".tagshow");
    let mut tags: Vec<Tag> = Vec::new();
    let mut k: usize = 0;
    while k < n
        invariant
            k <= n,
            n as nat == selected_count(html@, ".tagshow"@),
            tags_of(html@, k as nat) is Ok,
            tags_match(tags@, tags_of(html@, k as nat)->Ok_0),
        decreases n - k,
    {
        match select_first_text(html, ".tagshow", k) {
            None => {},
            Some(t) => {
                match select_attr(html, ".tagshow", k, "href") {
                    None => {
                        proof {
                            assert(tags_of(html@, (k + 1) as nat) is Err);
                            lemma_tags_error_stays(html@, (k + 1) as nat, n as nat);
                        }
                        return Err(ParseError::Missing);
                    },
                    Some(h) => {
                        let name = trim_str(t.as_str());
                        let url = concat_str("https://www.wn01.uk", h.as_str());
                        tags.push(Tag { name, url });
                    },
                }
            },
        }
        k = k + 1;
    }
    Ok(tags)
}

impl Comic {
    /// Reads a comic's index page; `img_list` is the gallery's image list,
    /// read separately. Whether the comic was downloaded is left unknown.
    pub fn from_html(html: &str, img_list: ImgList) -> (r: Result<Comic, ParseError>)
        ensures
            match (r, comic_of(html@)) {
                (Ok(c), Ok(v)) => comic_matches(c, v) && c.is_downloaded is None && c.img_list
                    == img_list,
                (Err(e), Err(f)) => e == f,
                _ => false,
            },
    {
        let href = match select_attr(html, "head > link", 0, "href") {
            None => {
                return Err(ParseError::Missing);
            },
            Some(h) => h,
        };
        let id = match parse_id_from_href(href.as_str(), "/feed-index-aid-") {
            Err(e) => {
                return Err(e);
            },
            Ok(id) => id,
        };
        let title = match select_first_text(html, "#bodywrap > h2", 0) {
            None => {
                return Err(ParseError::Missing);
            },
            Some(t) => filename_filter(t.as_str()),
        };
        let cover = match select_attr(html, ".asTBcell.uwthumb > img", 0, "src") {
            None => {
                return Err(ParseError::Missing);
            },
            Some(src) => {
                let trimmed = trim_start_matching(src.as_str(), '/');
                concat_str("https://", trimmed.as_str())
            },
        };
        let category = match select_first_text(html, ".asTBcell.uwconn > label", 0) {
            None => {
                return Err(ParseError::Missing);
            },
            Some(cat) => match strip_prefix_str(cat.as_str(), "分類：") {
                None => {
                    return Err(ParseError::UnexpectedText);
                },
                Some(c) => c,
            },
        };
        let label = match select_first_text(html, ".asTBcell.uwconn > label", 1) {
            None => {
                return Err(ParseError::Missing);
            },
            Some(l) => l,
        };
        let image_count = match strip_prefix_str(label.as_str(), "頁數：") {
            None => {
                return Err(ParseError::UnexpectedText);
            },
            Some(a) => match strip_suffix_str(a.as_str(), "P") {
                None => {
                    return Err(ParseError::UnexpectedText);
                },
                Some(b) => match parse_int_field(b.as_str()) {
                    Err(e) => {
                        return Err(e);
                    },
                    Ok(v) => v,
                },
            },
        };
        let tags = match tags_from_html(html) {
            Err(e) => {
                return Err(e);
            },
            Ok(t) => t,
        };
        let intro = match select_html(html, ".asTBcell.uwconn > p", 0) {
            None => {
                return Err(ParseError::Missing);
            },
            Some(p) => p,
        };
        Ok(
            Comic {
                id,
                title,
                cover,
                category,
                image_count,
                tags,
                intro,
                is_downloaded: None,
                img_list,
            },
        )
    }
}

/// A comic as a search page lists it.
pub struct ComicInSearchView {
    pub id: i64,
    pub title_html: Seq<char>,
    pub title: Seq<char>,
    pub cover: Seq<char>,
    pub additional_info: Seq<char>,
}

/// What one search entry `li` says: id and highlighted title from
/// `.title > a`, its plain text as the title, the cover from the first `img`,
/// the details from `.info_col`.
pub open spec fn comic_in_search_of(li: Seq<char>) -> Result<ComicInSearchView, ParseError> {
    match selected_attr(li, ".title > a"@, 0, "href"@) {
        None => Err(ParseError::Missing),
        Some(href) => match id_from_href(href, "/photos-index-aid-"@) {
            Err(e) => Err(e),
            Ok(id) => match selected_attr(li, ".title > a"@, 0, "title"@) {
                None => Err(ParseError::Missing),
                Some(title_html) => match selected_text(li, ".title > a"@, 0) {
                    None => Err(ParseError::Missing),
                    Some(title) => match selected_attr(li, "img"@, 0, "src"@) {
                        None => Err(ParseError::Missing),
                        Some(src) => match selected_first_text(li, ".info_col"@, 0) {
                            None => Err(ParseError::Missing),
                            Some(info) => Ok(
                                ComicInSearchView {
                                    id,
                                    title_html: trim(title_html),
                                    title: filename_filter_spec(title),
                                    cover: "https:"@ + src,
                                    additional_info: trim(info),
                                },
                            ),
                        },
                    },
                },
            },
        },
    }
}

pub open spec fn comic_in_search_matches(c: ComicInSearch, v: ComicInSearchView) -> bool {
    &&& c.id == v.id
    &&& c.title_html@ == v.title_html
    &&& c.title@ == v.title
    &&& c.cover@ == v.cover
    &&& c.additional_info@ == v.additional_info
}

impl ComicInSearch {
    /// Reads one search entry, given the HTML of its `<li>`. Whether the comic
    /// was downloaded is left false.
    pub fn from_li(li: &str) -> (r: Result<ComicInSearch, ParseError>)
        ensures
            match (r, comic_in_search_of(li@)) {
                (Ok(c), Ok(v)) => comic_in_search_matches(c, v) && !c.is_downloaded,
                (Err(e), Err(f)) => e == f,
                _ => false,
            },
    {
        let href = match select_attr(li, ".title > a", 0, "href") {
            None => {
                return Err(ParseError::Missing);
            },
            Some(h) => h,
        };
        let id = match parse_id_from_href(href.as_str(), "/photos-index-aid-") {
            Err(e) => {
                return Err(e);
            },
            Ok(id) => id,
        };
        let title_html = match select_attr(li, ".title > a", 0, "title") {
            None => {
                return Err(ParseError::Missing);
            },
            Some(t) => trim_str(t.as_str()),
        };
        let title = match select_text(li, ".title > a", 0) {
            None => {
                return Err(ParseError::Missing);
            },
            Some(t) => filename_filter(t.as_str()),
        };
        let cover = match select_attr(li, "img", 0, "src") {
            None => {
                return Err(ParseError::Missing);
            },
            Some(src) => concat_str("https:", src.as_str()),
        };
        let additional_info = match select_first_text(li, ".info_col", 0) {
            None => {
                return Err(ParseError::Missing);
            },
            Some(t) => trim_str(t.as_str()),
        };
        Ok(ComicInSearch { id, title_html, title, cover, additional_info, is_downloaded: false })
    }
}

/// The entries among the first `n` `.li.gallary_item` of a search page; any
/// unreadable entry makes the page unreadable.
pub open spec fn search_comics_of(html: Seq<char>, n: nat) -> Result<
    Seq<ComicInSearchView>,
    ParseError,
>
    decreases n,
{
    if n == 0 {
        Ok(Seq::empty())
    } else {
        match search_comics_of(html, (n - 1) as nat) {
            Err(e) => Err(e),
            Ok(prev) => match selected_html(html, ".li.gallary_item"@, n - 1) {
                None => Err(ParseError::Missing),
                Some(li) => match comic_in_search_of(li) {
                    Err(e) => Err(e),
                    Ok(c) => Ok(prev.push(c)),
                },
            },
        }
    }
}

proof fn lemma_search_error_stays(html: Seq<char>, k: nat, n: nat)
    requires
        k <= n,
        search_comics_of(html, k) is Err,
    ensures
        search_comics_of(html, n) == search_comics_of(html, k),
    decreases n - k,
{
    if k < n {
        lemma_search_error_stays(html, k, (n - 1) as nat);
    }
}

/// ⌈total / 24⌉ result pages for `total` results (none when `total` ≤ 0).
pub open spec fn pages_for(total: i64) -> i64 {
    if total <= 0 {
        0
    } else {
        ((total + 23) / 24) as i64
    }
}

pub fn pages_for_total(total: i64) -> (r: i64)
    ensures
        r == pages_for(total),
{
    if total <= 0 {
        0
    } else {
        total / 24 + if total % 24 == 0 {
            0
        } else {
            1
        }
    }
}

/// The page count of a keyword search: the advertised result count in
/// `#bodywrap .result > b`, commas removed, over 24 results a page; never
/// below the current page.
pub open spec fn keyword_pages_of(html: Seq<char>, current: i64) -> Result<i64, ParseError> {
    match selected_first_text(html, "#bodywrap .result > b"@, 0) {
        None => Err(ParseError::Missing),
        Some(t) => match int_field(without_char(t, ',')) {
            Err(e) => Err(e),
            Ok(total) => Ok(if pages_for(total) < current {
                current
            } else {
                pages_for(total)
            }),
        },
    }
}

/// One page of search results.
pub struct SearchResultView {
    pub comics: Seq<ComicInSearchView>,
    pub current_page: i64,
    pub total_page: i64,
}

/// What a search page says: its entries, its current page, and its page
/// count, from the paginator for a tag search and from the result count for a
/// keyword search.
pub open spec fn search_result_of(html: Seq<char>, by_tag: bool) -> Result<
    SearchResultView,
    ParseError,
> {
    match search_comics_of(html, selected_count(html, ".li.gallary_item"@)) {
        Err(e) => Err(e),
        Ok(comics) => match current_page_of(html) {
            Err(e) => Err(e),
            Ok(current) => match if by_tag {
                last_anchor_pages_of(html, current)
            } else {
                keyword_pages_of(html, current)
            } {
                Err(e) => Err(e),
                Ok(total) => Ok(SearchResultView { comics, current_page: current, total_page: total }),
            },
        },
    }
}

pub open spec fn search_comics_match(cs: Seq<ComicInSearch>, vs: Seq<ComicInSearchView>) -> bool {
    &&& cs.len() == vs.len()
    &&& forall|i: int|
        0 <= i < cs.len() ==> comic_in_search_matches(#[trigger] cs[i], vs[i]) && !cs[i].is_downloaded
}

fn search_comics(html: &str) -> (r: Result<Vec<ComicInSearch>, ParseError>)
    ensures
        match (r, search_comics_of(html@, selected_count(html@, ".li.gallary_item"@))) {
            (Ok(cs), Ok(vs)) => search_comics_match(cs@, vs),
            (Err(e), Err(f)) => e == f,
            _ => false,
        },
{
    let n = select_count(html, ".li.gallary_item");
    let mut comics: Vec<ComicInSearch> = Vec::new();
    let mut k: usize = 0;
    while k < n
        invariant
            k <= n,
            n as nat == selected_count(html@, ".li.gallary_item"@),
            search_comics_of(html@, k as nat) is Ok,
            search_comics_match(comics@, search_comics_of(html@, k as nat)->Ok_0),
        decreases n - k,
    {
        let li = match select_html(html, ".li.gallary_item", k) {
            None => {
                proof {
                    lemma_search_error_stays(html@, (k + 1) as nat, n as nat);
                }
                return Err(ParseError::Missing);
            },
            Some(li) => li,
        };
        match ComicInSearch::from_li(li.as_str()) {
            Err(e) => {
                proof {
                    lemma_search_error_stays(html@, (k + 1) as nat, n as nat);
                }
                return Err(e);
            },
            Ok(c) => {
                comics.push(c);
            },
        }
        k = k + 1;
    }
    Ok(comics)
}

fn keyword_pages(html: &str, current: i64) -> (r: Result<i64, ParseError>)
    ensures
        r == keyword_pages_of(html@, current),
{
    match select_first_text(html, "#bodywrap .result > b", 0) {
        None => Err(ParseError::Missing),
        Some(t) => {
            let digits = remove_char(t.as_str(), ',');
            match parse_int_field(digits.as_str()) {
                Err(e) => Err(e),
                Ok(total) => {
                    let pages = pages_for_total(total);
                    Ok(
                        if pages < current {
                            current
                        } else {
                            pages
                        },
                    )
                },
            }
        },
    }
}

impl SearchResult {
    /// Reads a search page; `is_search_by_tag` picks how its page count is read.
    pub fn from_html(html: &str, is_search_by_tag: bool) -> (r: Result<SearchResult, ParseError>)
        ensures
            match (r, search_result_of(html@, is_search_by_tag)) {
                (Ok(s), Ok(v)) => search_comics_match(s.comics@, v.comics) && s.current_page
                    == v.current_page && s.total_page == v.total_page && s.is_search_by_tag
                    == is_search_by_tag,
                (Err(e), Err(f)) => e == f,
                _ => false,
            },
    {
        let comics = match search_comics(html) {
            Err(e) => {
                return Err(e);
            },
            Ok(c) => c,
        };
        let current_page = match current_page(html) {
            Err(e) => {
                return Err(e);
            },
            Ok(p) => p,
        };
        let total = if is_search_by_tag {
            last_anchor_pages(html, current_page)
        } else {
            keyword_pages(html, current_page)
        };
        let total_page = match total {
            Err(e) => {
                return Err(e);
            },
            Ok(t) => t,
        };
        Ok(SearchResult { comics, current_page, total_page, is_search_by_tag })
    }
}

/// A favorites shelf as a page shows it.
pub struct ShelfView {
    pub id: i64,
    pub name: Seq<char>,
}

pub open spec fn shelf_matches(s: Shelf, v: ShelfView) -> bool {
    s.id == v.id && s.name@ == v.name
}

/// A comic as a favorites page lists it.
pub struct ComicInFavoriteView {
    pub id: i64,
    pub title: Seq<char>,
    pub cover: Seq<char>,
    pub favorite_time: Seq<char>,
    pub shelf: ShelfView,
}

/// What one favorites entry `div` says: id and title from `.l_title > a`,
/// the cover from `.asTBcell.thumb img`, the time it was added from
/// `.l_catg > span`, its shelf from `.l_catg > a` (a shelf without a name has
/// an empty one).
pub open spec fn comic_in_favorite_of(div: Seq<char>) -> Result<ComicInFavoriteView, ParseError> {
    match selected_attr(div, ".l_title > a"@, 0, "href"@) {
        None => Err(ParseError::Missing),
        Some(href) => match id_from_href(href, "/photos-index-aid-"@) {
            Err(e) => Err(e),
            Ok(id) => match selected_first_text(div, ".l_title > a"@, 0) {
                None => Err(ParseError::Missing),
                Some(title) => match selected_attr(div, ".asTBcell.thumb img"@, 0, "src"@) {
                    None => Err(ParseError::Missing),
                    Some(src) => match selected_first_text(div, ".l_catg > span"@, 0) {
                        None => Err(ParseError::Missing),
                        Some(time) => match strip_prefix(time, "創建時間："@) {
                            None => Err(ParseError::UnexpectedText),
                            Some(time) => match selected_attr(div, ".l_catg > a"@, 0, "href"@) {
                                None => Err(ParseError::Missing),
                                Some(shelf_href) => match shelf_id_from_href(shelf_href) {
                                    Err(e) => Err(e),
                                    Ok(shelf_id) => Ok(
                                        ComicInFavoriteView {
                                            id,
                                            title: filename_filter_spec(trim(title)),
                                            cover: "https:"@ + src,
                                            favorite_time: trim(time),
                                            shelf: ShelfView {
                                                id: shelf_id,
                                                name: match selected_first_text(
                                                    div,
                                                    ".l_catg > a"@,
                                                    0,
                                                ) {
                                                    Some(n) => trim(n),
                                                    None => Seq::empty(),
                                                },
                                            },
                                        },
                                    ),
                                },
                            },
                        },
                    },
                },
            },
        },
    }
}

pub open spec fn comic_in_favorite_matches(c: ComicInFavorite, v: ComicInFavoriteView) -> bool {
    &&& c.id == v.id
    &&& c.title@ == v.title
    &&& c.cover@ == v.cover
    &&& c.favorite_time@ == v.favorite_time
    &&& shelf_matches(c.shelf, v.shelf)
    &&& !c.is_downloaded
}

impl ComicInFavorite {
    /// Reads one favorites entry, given the HTML of its `.asTB` block.
    /// Whether the comic was downloaded is left false.
    pub fn from_div(div: &str) -> (r: Result<ComicInFavorite, ParseError>)
        ensures
            match (r, comic_in_favorite_of(div@)) {
                (Ok(c), Ok(v)) => comic_in_favorite_matches(c, v),
                (Err(e), Err(f)) => e == f,
                _ => false,
            },
    {
        let (id, title) = match Self::get_id_and_title(div) {
            Err(e) => {
                return Err(e);
            },
            Ok(p) => p,
        };
        let cover = match select_attr(div, ".asTBcell.thumb img", 0, "src") {
            None => {
                return Err(ParseError::Missing);
            },
            Some(src) => concat_str("https:", src.as_str()),
        };
        let favorite_time = match select_first_text(div, ".l_catg > span", 0) {
            None => {
                return Err(ParseError::Missing);
            },
            Some(t) => match strip_prefix_str(t.as_str(), "創建時間：") {
                None => {
                    return Err(ParseError::UnexpectedText);
                },
                Some(rest) => trim_str(rest.as_str()),
            },
        };
        let shelf = match Self::get_shelf(div) {
            Err(e) => {
                return Err(e);
            },
            Ok(s) => s,
        };
        Ok(ComicInFavorite { id, title, cover, favorite_time, shelf, is_downloaded: false })
    }

    fn get_id_and_title(div: &str) -> (r: Result<(i64, String), ParseError>)
        ensures
            match selected_attr(div@, ".l_title > a"@, 0, "href"@) {
                None => r == Err::<(i64, String), ParseError>(ParseError::Missing),
                Some(href) => match id_from_href(href, "/photos-index-aid-"@) {
                    Err(e) => r == Err::<(i64, String), ParseError>(e),
                    Ok(id) => match selected_first_text(div@, ".l_title > a"@, 0) {
                        None => r == Err::<(i64, String), ParseError>(ParseError::Missing),
                        Some(t) => r is Ok && r->Ok_0.0 == id && r->Ok_0.1@ == filename_filter_spec(
                            trim(t),
                        ),
                    },
                },
            },
    {
        let href = match select_attr(div, ".l_title > a", 0, "href") {
            None => {
                return Err(ParseError::Missing);
            },
            Some(h) => h,
        };
        let id = match parse_id_from_href(href.as_str(), "/photos-index-aid-") {
            Err(e) => {
                return Err(e);
            },
            Ok(id) => id,
        };
        let title = match select_first_text(div, ".l_title > a", 0) {
            None => {
                return Err(ParseError::Missing);
            },
            Some(t) => {
                let trimmed = trim_str(t.as_str());
                filename_filter(trimmed.as_str())
            },
        };
        Ok((id, title))
    }

    fn get_shelf(div: &str) -> (r: Result<Shelf, ParseError>)
        ensures
            match selected_attr(div@, ".l_catg > a"@, 0, "href"@) {
                None => r == Err::<Shelf, ParseError>(ParseError::Missing),
                Some(href) => match shelf_id_from_href(href) {
                    Err(e) => r == Err::<Shelf, ParseError>(e),
                    Ok(id) => r is Ok && r->Ok_0.id == id && r->Ok_0.name@ == match selected_first_text(
                        div@,
                        ".l_catg > a"@,
                        0,
                    ) {
                        Some(n) => trim(n),
                        None => Seq::empty(),
                    },
                },
            },
    {
        let href = match select_attr(div, ".l_catg > a", 0, "href") {
            None => {
                return Err(ParseError::Missing);
            },
            Some(h) => h,
        };
        let id = match parse_shelf_id(href.as_str()) {
            Err(e) => {
                return Err(e);
            },
            Ok(id) => id,
        };
        let name = match select_first_text(div, ".l_catg > a", 0) {
            Some(n) => trim_str(n.as_str()),
            None => String::new(),
        };
        Ok(Shelf { id, name })
    }
}

/// The readable entries among the first `n` `.asTB` blocks of a favorites
/// page; unreadable ones are skipped.
pub open spec fn favorite_comics_of(html: Seq<char>, n: nat) -> Seq<ComicInFavoriteView>
    decreases n,
{
    if n == 0 {
        Seq::empty()
    } else {
        let prev = favorite_comics_of(html, (n - 1) as nat);
        match selected_html(html, ".asTB"@, n - 1) {
            None => prev,
            Some(div) => match comic_in_favorite_of(div) {
                Err(_) => prev,
                Ok(c) => prev.push(c),
            },
        }
    }
}

/// The shelf link `index` of `selector`: its id from the trimmed `href`, its
/// trimmed text as name.
pub open spec fn shelf_of(html: Seq<char>, selector: Seq<char>, index: int) -> Result<
    ShelfView,
    ParseError,
> {
    match selected_attr(html, selector, index, "href"@) {
        None => Err(ParseError::Missing),
        Some(href) => match shelf_id_from_href(trim(href)) {
            Err(e) => Err(e),
            Ok(id) => match selected_first_text(html, selector, index) {
                None => Err(ParseError::Missing),
                Some(name) => Ok(ShelfView { id, name: trim(name) }),
            },
        },
    }
}

/// The shelves among the first `n` `.nav_list > a` links.
pub open spec fn shelves_of(html: Seq<char>, n: nat) -> Result<Seq<ShelfView>, ParseError>
    decreases n,
{
    if n == 0 {
        Ok(Seq::empty())
    } else {
        match shelves_of(html, (n - 1) as nat) {
            Err(e) => Err(e),
            Ok(prev) => match shelf_of(html, ".nav_list > a"@, n - 1) {
                Err(e) => Err(e),
                Ok(s) => Ok(prev.push(s)),
            },
        }
    }
}

proof fn lemma_shelves_error_stays(html: Seq<char>, k: nat, n: nat)
    requires
        k <= n,
        shelves_of(html, k) is Err,
    ensures
        shelves_of(html, n) == shelves_of(html, k),
    decreases n - k,
{
    if k < n {
        lemma_shelves_error_stays(html, k, (n - 1) as nat);
    }
}

/// One page of a favorites shelf.
pub struct FavoriteView {
    pub comics: Seq<ComicInFavoriteView>,
    pub current_page: i64,
    pub total_page: i64,
    pub shelf: ShelfView,
    pub shelves: Seq<ShelfView>,
}

/// What a favorites page says: its readable entries, its current page and
/// page count, the shelf shown (`.cur`) and every shelf (`.nav_list > a`).
pub open spec fn favorite_of(html: Seq<char>) -> Result<FavoriteView, ParseError> {
    let comics = favorite_comics_of(html, selected_count(html, ".asTB"@));
    match current_page_of(html) {
        Err(e) => Err(e),
        Ok(current) => match last_anchor_pages_of(html, current) {
            Err(e) => Err(e),
            Ok(total) => match shelf_of(html, ".cur"@, 0) {
                Err(e) => Err(e),
                Ok(shelf) => match shelves_of(html, selected_count(html, ".nav_list > a"@)) {
                    Err(e) => Err(e),
                    Ok(shelves) => Ok(
                        FavoriteView { comics, current_page: current, total_page: total, shelf, shelves },
                    ),
                },
            },
        },
    }
}

pub open spec fn favorite_comics_match(cs: Seq<ComicInFavorite>, vs: Seq<ComicInFavoriteView>) -> bool {
    &&& cs.len() == vs.len()
    &&& forall|i: int| 0 <= i < cs.len() ==> comic_in_favorite_matches(#[trigger] cs[i], vs[i])
}

pub open spec fn shelves_match(ss: Seq<Shelf>, vs: Seq<ShelfView>) -> bool {
    &&& ss.len() == vs.len()
    &&& forall|i: int| 0 <= i < ss.len() ==> shelf_matches(#[trigger] ss[i], vs[i])
}

fn shelf_at(html: &str, selector: &str, index: usize) -> (r: Result<Shelf, ParseError>)
    ensures
        match (r, shelf_of(html@, selector@, index as int)) {
            (Ok(s), Ok(v)) => shelf_matches(s, v),
            (Err(e), Err(f)) => e == f,
            _ => false,
        },
{
    let href = match select_attr(html, selector, index, "href") {
        None => {
            return Err(ParseError::Missing);
        },
        Some(h) => h,
    };
    let trimmed = trim_str(href.as_str());
    let id = match parse_shelf_id(trimmed.as_str()) {
        Err(e) => {
            return Err(e);
        },
        Ok(id) => id,
    };
    let name = match select_first_text(html, selector, index) {
        None => {
            return Err(ParseError::Missing);
        },
        Some(n) => trim_str(n.as_str()),
    };
    Ok(Shelf { id, name })
}

impl GetFavoriteResult {
    /// Reads a favorites page.
    pub fn from_html(html: &str) -> (r: Result<GetFavoriteResult, ParseError>)
        ensures
            match (r, favorite_of(html@)) {
                (Ok(g), Ok(v)) => favorite_comics_match(g.comics@, v.comics) && g.current_page
                    == v.current_page && g.total_page == v.total_page && shelf_matches(
                    g.shelf,
                    v.shelf,
                ) && shelves_match(g.shelves@, v.shelves),
                (Err(e), Err(f)) => e == f,
                _ => false,
            },
    {
        let n = select_count(html, ".asTB");
        let mut comics: Vec<ComicInFavorite> = Vec::new();
        let mut k: usize = 0;
        while k < n
            invariant
                k <= n,
                n as nat == selected_count(html@, ".asTB"@),
                favorite_comics_match(comics@, favorite_comics_of(html@, k as nat)),
            decreases n - k,
        {
            if let Some(div) = select_html(html, ".asTB", k) {
                if let Ok(c) = ComicInFavorite::from_div(div.as_str()) {
                    comics.push(c);
                }
            }
            k = k + 1;
        }
        let current_page = match current_page(html) {
            Err(e) => {
                return Err(e);
            },
            Ok(p) => p,
        };
        let total_page = match last_anchor_pages(html, current_page) {
            Err(e) => {
                return Err(e);
            },
            Ok(t) => t,
        };
        let shelf = match Self::get_shelf(html) {
            Err(e) => {
                return Err(e);
            },
            Ok(s) => s,
        };
        let shelves = match Self::get_shelves(html) {
            Err(e) => {
                return Err(e);
            },
            Ok(s) => s,
        };
        Ok(GetFavoriteResult { comics, current_page, total_page, shelf, shelves })
    }

    fn get_shelf(html: &str) -> (r: Result<Shelf, ParseError>)
        ensures
            match (r, shelf_of(html@, ".cur"@, 0)) {
                (Ok(s), Ok(v)) => shelf_matches(s, v),
                (Err(e), Err(f)) => e == f,
                _ => false,
            },
    {
        shelf_at(html, ".cur", 0)
    }

    fn get_shelves(html: &str) -> (r: Result<Vec<Shelf>, ParseError>)
        ensures
            match (r, shelves_of(html@, selected_count(html@, ".nav_list > a"@))) {
                (Ok(ss), Ok(vs)) => shelves_match(ss@, vs),
                (Err(e), Err(f)) => e == f,
                _ => false,
            },
    {
        let n = select_count(html, ".nav_list > a");
        let mut shelves: Vec<Shelf> = Vec::new();
        let mut k: usize = 0;
        while k < n
            invariant
                k <= n,
                n as nat == selected_count(html@, ".nav_list > a"@),
                shelves_of(html@, k as nat) is Ok,
                shelves_match(shelves@, shelves_of(html@, k as nat)->Ok_0),
            decreases n - k,
        {
            match shelf_at(html, ".nav_list > a", k) {
                Err(e) => {
                    proof {
                        lemma_shelves_error_stays(html@, (k + 1) as nat, n as nat);
                    }
                    return Err(e);
                },
                Ok(s) => {
                    shelves.push(s);
                },
            }
            k = k + 1;
        }
        Ok(shelves)
    }
}

} // verus!
