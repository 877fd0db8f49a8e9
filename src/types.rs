//! The records that the scrapers produce and the engine carries.
use vstd::prelude::*;

verus! {

/// A tag of a comic: its name and the link to its listing.
#[derive(Debug, Clone, PartialEq, Default)]
pub struct Tag {
    pub name: String,
    pub url: String,
}

/// One entry of a gallery's image list; `url` lacks the `https:` scheme.
#[derive(Debug, Clone, PartialEq, Default)]
pub struct ImgInImgList {
    pub caption: String,
    pub url: String,
}

/// The ordered image list of a gallery. Its last entry is the `shoucang.jpg` sentinel.
#[derive(Debug, Clone, PartialEq, Default)]
pub struct ImgList(pub Vec<ImgInImgList>);

/// A comic as the gallery page describes it.
#[derive(Debug, Clone, PartialEq, Default)]
pub struct Comic {
    pub id: i64,
    /// Filesystem-safe title.
    pub title: String,
    pub cover: String,
    pub category: String,
    /// Page count the gallery declares.
    pub image_count: i64,
    pub tags: Vec<Tag>,
    /// Introduction, as HTML.
    pub intro: String,
    /// Whether `<download_dir>/<title>` exists; `None` in the manifest.
    pub is_downloaded: Option<bool>,
    pub img_list: ImgList,
}

/// The record a manifest stores for `c`: `is_downloaded` left out.
pub open spec fn manifest_of(c: Comic) -> Comic {
    Comic { is_downloaded: None, ..c }
}

/// A comic read back from a manifest, `is_downloaded` set from the disk.
pub open spec fn reread(c: Comic, dir_exists: bool) -> Comic {
    Comic { is_downloaded: Some(dir_exists), ..c }
}

impl Comic {
    /// The record that the manifest stores: the comic with `is_downloaded` left out.
    pub fn manifest_record(self) -> (r: Comic)
        ensures
            r == manifest_of(self),
    {
        Comic { is_downloaded: None, ..self }
    }

    /// A comic read back from its manifest, with `is_downloaded` set from
    /// whether its final directory exists.
    pub fn from_metadata(comic: Comic, dir_exists: bool) -> (r: Comic)
        ensures
            r == reread(comic, dir_exists),
    {
        Comic { is_downloaded: Some(dir_exists), ..comic }
    }
}

/// Storing a comic in its manifest and reading it back gives the comic again,
/// with `is_downloaded` equal to whether its final directory exists.
pub proof fn lemma_manifest_round_trip(c: Comic, dir_exists: bool)
    ensures
        reread(manifest_of(c), dir_exists) == (Comic { is_downloaded: Some(dir_exists), ..c }),
        manifest_of(c).is_downloaded is None,
{
}

impl Tag {
    /// A copy of this tag.
    pub fn copy(&self) -> (r: Tag)
        ensures
            r == *self,
    {
        Tag { name: self.name.clone(), url: self.url.clone() }
    }
}

impl ImgInImgList {
    /// A copy of this entry.
    pub fn copy(&self) -> (r: ImgInImgList)
        ensures
            r == *self,
    {
        ImgInImgList { caption: self.caption.clone(), url: self.url.clone() }
    }
}

/// `a` and `b` hold the same comic: equal fields, equal lists.
pub open spec fn same_comic(a: Comic, b: Comic) -> bool {
    &&& a.id == b.id
    &&& a.title == b.title
    &&& a.cover == b.cover
    &&& a.category == b.category
    &&& a.image_count == b.image_count
    &&& a.tags@ == b.tags@
    &&& a.intro == b.intro
    &&& a.is_downloaded == b.is_downloaded
    &&& a.img_list.0@ == b.img_list.0@
}

impl Comic {
    /// A copy of this comic, field for field.
    pub fn copy(&self) -> (r: Comic)
        ensures
            same_comic(r, *self),
    {
        let mut tags: Vec<Tag> = Vec::new();
        let mut k: usize = 0;
        while k < self.tags.len()
            invariant
                k <= self.tags@.len(),
                tags@ == self.tags@.subrange(0, k as int),
            decreases self.tags@.len() - k,
        {
            tags.push(self.tags[k].copy());
            proof {
                assert(self.tags@.subrange(0, k + 1) =~= self.tags@.subrange(0, k as int).push(
                    self.tags@[k as int],
                ));
            }
            k = k + 1;
        }
        let mut imgs: Vec<ImgInImgList> = Vec::new();
        let mut j: usize = 0;
        while j < self.img_list.0.len()
            invariant
                j <= self.img_list.0@.len(),
                imgs@ == self.img_list.0@.subrange(0, j as int),
            decreases self.img_list.0@.len() - j,
        {
            imgs.push(self.img_list.0[j].copy());
            proof {
                assert(self.img_list.0@.subrange(0, j + 1) =~= self.img_list.0@.subrange(
                    0,
                    j as int,
                ).push(self.img_list.0@[j as int]));
            }
            j = j + 1;
        }
        proof {
            assert(tags@ =~= self.tags@);
            assert(imgs@ =~= self.img_list.0@);
        }
        let r = Comic {
            id: self.id,
            title: self.title.clone(),
            cover: self.cover.clone(),
            category: self.category.clone(),
            image_count: self.image_count,
            tags,
            intro: self.intro.clone(),
            is_downloaded: self.is_downloaded,
            img_list: ImgList(imgs),
        };
        r
    }
}

/// The greeting the shell shows.
pub fn greet(name: &str) -> (r: String)
    ensures
        r@ == "Hello, "@ + name@ + "! You've been greeted from Rust!"@,
{
    let a = crate::scrape::concat_str("Hello, ", name);
    crate::scrape::concat_str(a.as_str(), "! You've been greeted from Rust!")
}

/// A favorites shelf.
#[derive(Debug, Clone, PartialEq, Default)]
pub struct Shelf {
    pub id: i64,
    pub name: String,
}

/// A comic as a favorites page lists it.
#[derive(Debug, Clone, PartialEq, Default)]
pub struct ComicInFavorite {
    pub id: i64,
    pub title: String,
    pub cover: String,
    /// When it was added, e.g. `2025-01-04 16:04:34`.
    pub favorite_time: String,
    pub shelf: Shelf,
    pub is_downloaded: bool,
}

/// One page of a favorites shelf.
#[derive(Debug, Clone, PartialEq, Default)]
pub struct GetFavoriteResult {
    pub comics: Vec<ComicInFavorite>,
    pub current_page: i64,
    pub total_page: i64,
    pub shelf: Shelf,
    pub shelves: Vec<Shelf>,
}

/// A comic as a search page lists it.
#[derive(Debug, Clone, PartialEq, Default)]
pub struct ComicInSearch {
    pub id: i64,
    /// Title with the markup that highlights the matched keyword.
    pub title_html: String,
    pub title: String,
    pub cover: String,
    /// E.g. `209張圖片， 創建於2025-01-05 18:33:19`.
    pub additional_info: String,
    pub is_downloaded: bool,
}

/// One page of search results.
#[derive(Debug, Clone, PartialEq, Default)]
pub struct SearchResult {
    pub comics: Vec<ComicInSearch>,
    pub current_page: i64,
    pub total_page: i64,
    pub is_search_by_tag: bool,
}

/// The logged-in user.
#[derive(Debug, Clone, PartialEq, Default)]
pub struct UserProfile {
    pub username: String,
    pub avatar: String,
}

/// The body of a login response.
#[derive(Debug, Clone, PartialEq, Default)]
pub struct LoginResp {
    pub ret: bool,
    pub html: String,
}

/// The format images are saved in.
#[derive(Debug, Clone, Copy, PartialEq, Eq, Structural, Default)]
pub enum DownloadFormat {
    #[default]
    Jpeg,
    Png,
    Webp,
    Original,
}

/// The extension of files saved in `f`; `None` when the source format is kept.
pub open spec fn format_extension(f: DownloadFormat) -> Option<Seq<char>> {
    match f {
        DownloadFormat::Jpeg => Some(seq!['j', 'p', 'g']),
        DownloadFormat::Png => Some(seq!['p', 'n', 'g']),
        DownloadFormat::Webp => Some(seq!['w', 'e', 'b', 'p']),
        DownloadFormat::Original => None,
    }
}

impl DownloadFormat {
    pub fn extension(self) -> (r: Option<&'static str>)
        ensures
            match r {
                Some(e) => format_extension(self) == Some(e@),
                None => format_extension(self) is None,
            },
    {
        proof {
            reveal_strlit("jpg");
            reveal_strlit("png");
            reveal_strlit("webp");
        }
        match self {
            DownloadFormat::Jpeg => Some("jpg"),
            DownloadFormat::Png => Some("png"),
            DownloadFormat::Webp => Some("webp"),
            DownloadFormat::Original => None,
        }
    }
}

/// Which archive an export produces.
#[derive(Debug, Clone, Copy, PartialEq, Eq, Structural)]
pub enum Archive {
    Cbz,
    Pdf,
}

impl Archive {
    pub fn extension(self) -> (r: &'static str)
        ensures
            self == Archive::Cbz ==> r@ == seq!['c', 'b', 'z'],
            self == Archive::Pdf ==> r@ == seq!['p', 'd', 'f'],
    {
        proof {
            reveal_strlit("cbz");
            reveal_strlit("pdf");
        }
        match self {
            Archive::Cbz => "cbz",
            Archive::Pdf => "pdf",
        }
    }
}

/// A speed report: `<x.xx> MB/s`.
#[derive(Debug, Clone, PartialEq)]
pub struct DownloadSpeedEvent {
    pub speed: String,
}

/// A countdown while a comic waits before retrying.
#[derive(Debug, Clone, PartialEq)]
pub struct DownloadSleepingEvent {
    pub comic_id: i64,
    pub remaining_sec: u64,
}

/// Progress of a PDF export.
#[derive(Debug, Clone, PartialEq)]
pub enum ExportPdfEvent {
    Start { uuid: String, title: String },
    End { uuid: String },
}

/// Progress of a CBZ export.
#[derive(Debug, Clone, PartialEq)]
pub enum ExportCbzEvent {
    Start { uuid: String, title: String },
    End { uuid: String },
}

} // verus!
