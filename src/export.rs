//! What an export writes besides the images: the `ComicInfo.xml` record of a
//! CBZ archive, and which files of a comic directory are pages.
use vstd::prelude::*;

use crate::scrape::concat_str;
use crate::text::chars_of;
use crate::types::{Comic, Tag};

verus! {

/// Comic metadata in the layout of `ComicInfo.xml`.
#[derive(Debug, Clone, PartialEq, Default)]
pub struct ComicInfo {
    pub manga: String,
    /// The comic's title.
    pub series: String,
    pub publisher: String,
    /// The comic's tags.
    pub genre: String,
    pub summary: String,
    /// Chapter number.
    pub number: Option<String>,
    /// Volume number.
    pub volume: Option<String>,
    /// `Special` marks a one-shot.
    pub format: Option<String>,
    pub page_count: i64,
    /// Number of chapters: 1, the comic is a single one.
    pub count: i64,
}

/// The names of `tags`, separated by `, `.
pub open spec fn joined_names(tags: Seq<Tag>) -> Seq<char>
    decreases tags.len(),
{
    if tags.len() == 0 {
        Seq::empty()
    } else if tags.len() == 1 {
        tags[0].name@
    } else {
        joined_names(tags.drop_last()) + ", "@ + tags.last().name@
    }
}

pub fn join_tag_names(tags: &Vec<Tag>) -> (r: String)
    ensures
        r@ == joined_names(tags@),
{
    let mut out = String::new();
    let mut k: usize = 0;
    while k < tags.len()
        invariant
            k <= tags@.len(),
            out@ == joined_names(tags@.subrange(0, k as int)),
        decreases tags@.len() - k,
    {
        proof {
            let pre = tags@.subrange(0, k + 1);
            assert(pre.drop_last() =~= tags@.subrange(0, k as int));
            assert(pre.last() == tags@[k as int]);
            if k == 0 {
                assert(pre[0] == tags@[0]);
                assert(tags@.subrange(0, 0) =~= Seq::<Tag>::empty());
            }
        }
        if k == 0 {
            out = tags[k].name.clone();
        } else {
            let with_sep = concat_str(out.as_str(), ", ");
            out = concat_str(with_sep.as_str(), tags[k].name.as_str());
        }
        k = k + 1;
    }
    proof {
        assert(tags@.subrange(0, tags@.len() as int) =~= tags@);
    }
    out
}

impl ComicInfo {
    /// The metadata record of `comic`.
    pub fn from_comic(comic: Comic) -> (r: ComicInfo)
        ensures
            r.manga@ == "Yes"@,
            r.series@ == comic.title@,
            r.publisher@ == "绅士漫画"@,
            r.genre@ == joined_names(comic.tags@),
            r.summary@ == comic.intro@,
            r.number is Some && r.number->0@ == "1"@,
            r.volume is None,
            r.format is Some && r.format->0@ == "Special"@,
            r.page_count == comic.image_count,
            r.count == 1,
    {
        let genre = join_tag_names(&comic.tags);
        ComicInfo {
            manga: "Yes".to_string(),
            series: comic.title,
            publisher: "绅士漫画".to_string(),
            genre,
            summary: comic.intro,
            number: Some("1".to_string()),
            volume: None,
            format: Some("Special".to_string()),
            page_count: comic.image_count,
            count: 1,
        }
    }
}

/// Whether a file of a comic directory is a page: anything but the JSON manifest.
pub fn is_page_file(extension: Option<&str>) -> (r: bool)
    ensures
        r == match extension {
            Some(e) => e@ != "json"@,
            None => true,
        },
{
    match extension {
        None => true,
        Some(e) => {
            let a = chars_of(e);
            let b = chars_of("json");
            if a.len() != b.len() {
                return true;
            }
            let same = crate::text::starts_with(&a, &b);
            proof {
                if same {
                    assert(a@ =~= b@);
                }
            }
            !same
        },
    }
}

} // verus!
