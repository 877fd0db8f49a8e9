use wnacg_downloader::client::{
    check_img_status, check_status, comic_url, favorite_url, gallery_url, image_kind_of_content_type,
    img_data_and_format, keyword_search_query, kind_extension, login_cookie, login_url, referer,
    search_response, tag_search_url, target_kind, transcode, user_profile_response, ImageKind,
    SiteError,
};
use wnacg_downloader::scrape::ParseError;
use wnacg_downloader::types::{
    Comic, ComicInFavorite, ComicInSearch, DownloadFormat, GetFavoriteResult, ImgList,
    SearchResult, UserProfile,
};

const PROFILE: &str = r#"<html><body><div class="top_utab ui"><a href="/users.html"><img src="userpic/1.png">  alice  </a></div></body></html>"#;

const COMIC: &str = r#"<html><head><link href="/feed-index-aid-123.html" rel="alternate"></head><body>
<div id="bodywrap"><h2>My: Comic</h2>
<div class="asTBcell uwthumb"><img src="//t.example/c.jpg"></div>
<div class="asTBcell uwconn"><label>分類：同人誌</label><label>頁數：25P</label><p>intro text</p></div>
<a class="tagshow" href="/albums-index-tag-a.html">tagA</a><a class="tagshow" href="/x.html"></a><a class="tagshow" href="/albums-index-tag-b.html"> tagB </a>
</div></body></html>"#;

const KEYWORD: &str = r#"<html><body><div id="bodywrap"><div class="result">共 <b>1,234</b> 條結果</div>
<ul><li class="li gallary_item"><div class="pic_box"><img src="//t.example/1.jpg"></div><div class="info"><div class="title"><a href="/photos-index-aid-77.html" title=" <em>key</em> word ">key <em>word</em></a></div><div class="info_col"> 20張圖片 </div></div></li></ul>
<span class="thispage">2</span></div></body></html>"#;

const TAG: &str = r#"<html><body><div id="bodywrap"><span class="thispage">3</span>
<div class="f_left paginator"><a href="/p1">1</a><a href="/p7">7</a></div></div></body></html>"#;

const FAVORITES: &str = r#"<html><body>
<div class="nav_list"><a href="/users-users_fav-c-0.html">全部</a><a href="/users-users_fav-c-5.html"> 收藏A </a></div>
<a class="cur" href=" /users-users_fav-c-5.html ">收藏A</a>
<div class="asTB"><div class="asTBcell thumb"><div><img src="//t.example/f.jpg"></div></div><div class="asTBcell"><p class="l_title"><a href="/photos-index-aid-9.html"> Fav/One </a></p><p class="l_catg"><span>創建時間：2025-01-04 16:04:34 </span><a href="/users-users_fav-c-5.html">收藏A</a></p></div></div>
<div class="asTB"><p class="l_title"><a href="/bad.html">x</a></p></div>
</body></html>"#;

#[test]
fn reads_the_profile_page() {
    let p = UserProfile::from_html(PROFILE).unwrap();
    assert_eq!(p.username, "alice");
    assert_eq!(p.avatar, "https://www.wn01.uk/userpic/1.png");
    let out = r#"<html><body><div class="title title_c">登錄</div></body></html>"#;
    assert_eq!(UserProfile::from_html(out), Err(ParseError::NotLoggedIn));
    assert_eq!(user_profile_response(200, out.to_string()), Err(SiteError::Unauthenticated));
    assert_eq!(UserProfile::from_html("<html></html>"), Err(ParseError::Missing));
}

#[test]
fn reads_the_comic_page() {
    let c = Comic::from_html(COMIC, ImgList::default()).unwrap();
    assert_eq!(c.id, 123);
    assert_eq!(c.title, "My： Comic");
    assert_eq!(c.cover, "https://t.example/c.jpg");
    assert_eq!(c.category, "同人誌");
    assert_eq!(c.image_count, 25);
    assert_eq!(c.tags.len(), 2);
    assert_eq!(c.tags[0].name, "tagA");
    assert_eq!(c.tags[0].url, "https://www.wn01.uk/albums-index-tag-a.html");
    assert_eq!(c.tags[1].name, "tagB");
    assert_eq!(c.intro, "<p>intro text</p>");
    assert_eq!(c.is_downloaded, None);
    let bad = COMIC.replace("/feed-index-aid-123.html", "/feed-index-aid-abc.html");
    assert_eq!(Comic::from_html(&bad, ImgList::default()), Err(ParseError::NotAnInteger));
    let bad = COMIC.replace("頁數：25P", "25");
    assert_eq!(Comic::from_html(&bad, ImgList::default()), Err(ParseError::UnexpectedText));
}

#[test]
fn reads_a_keyword_search_page() {
    let r = SearchResult::from_html(KEYWORD, false).unwrap();
    assert_eq!(r.current_page, 2);
    assert_eq!(r.total_page, 52);
    assert!(!r.is_search_by_tag);
    assert_eq!(r.comics.len(), 1);
    let c: &ComicInSearch = &r.comics[0];
    assert_eq!(c.id, 77);
    assert_eq!(c.title_html, "<em>key</em> word");
    assert_eq!(c.title, "key word");
    assert_eq!(c.cover, "https://t.example/1.jpg");
    assert_eq!(c.additional_info, "20張圖片");
    let s = search_response(200, KEYWORD.to_string(), false).unwrap();
    assert_eq!(s.total_page, 52);
}

#[test]
fn reads_a_tag_search_page() {
    let r = SearchResult::from_html(TAG, true).unwrap();
    assert_eq!(r.current_page, 3);
    assert_eq!(r.total_page, 7);
    assert!(r.comics.is_empty());
    let none = SearchResult::from_html("<html><span class=\"thispage\">4</span></html>", true).unwrap();
    assert_eq!(none.current_page, 4);
    assert_eq!(none.total_page, 4);
}

#[test]
fn reads_a_favorites_page() {
    let r = GetFavoriteResult::from_html(FAVORITES).unwrap();
    assert_eq!(r.current_page, 1);
    assert_eq!(r.total_page, 1);
    assert_eq!(r.shelf.id, 5);
    assert_eq!(r.shelf.name, "收藏A");
    assert_eq!(r.shelves.len(), 2);
    assert_eq!(r.shelves[0].id, 0);
    assert_eq!(r.shelves[0].name, "全部");
    assert_eq!(r.shelves[1].name, "收藏A");
    assert_eq!(r.comics.len(), 1);
    let c: &ComicInFavorite = &r.comics[0];
    assert_eq!(c.id, 9);
    assert_eq!(c.title, "Fav One");
    assert_eq!(c.cover, "https://t.example/f.jpg");
    assert_eq!(c.favorite_time, "2025-01-04 16:04:34");
    assert_eq!(c.shelf.id, 5);
    assert_eq!(c.shelf.name, "收藏A");
}

#[test]
fn builds_urls() {
    assert_eq!(referer(), "https://www.wnacg01.cc/");
    assert_eq!(login_url(), "https://www.wnacg01.cc/users-check_login.html");
    assert_eq!(comic_url(5), "https://www.wnacg01.cc/photos-index-aid-5.html");
    assert_eq!(gallery_url(5), "https://www.wnacg01.cc/photos-gallery-aid-5.html");
    assert_eq!(tag_search_url("abc", 2), "https://www.wnacg01.cc/albums-index-page-2-tag-abc.html");
    assert_eq!(favorite_url(3, 1), "https://www.wnacg01.cc/users-users_fav-page-1-c-3.html");
    let q = keyword_search_query("k", 3);
    assert_eq!(q[0], ("q".to_string(), "k".to_string()));
    assert_eq!(q[4], ("p".to_string(), "3".to_string()));
}

#[test]
fn reads_responses() {
    assert_eq!(check_status(200, "b".into()), Ok("b".to_string()));
    assert_eq!(
        check_status(302, "moved".into()),
        Err(SiteError::Protocol { status: 302, body: "moved".into() })
    );
    assert_eq!(login_cookie(200, "{}".into(), Some(true), Some("c=1".into())), Ok("c=1".to_string()));
    assert_eq!(login_cookie(200, "{}".into(), Some(false), Some("c=1".into())), Err(SiteError::Unauthenticated));
    assert_eq!(
        login_cookie(200, "x".into(), None, None),
        Err(SiteError::Parse(ParseError::Undecodable))
    );
    assert_eq!(
        login_cookie(200, "{}".into(), Some(true), None),
        Err(SiteError::Protocol { status: 200, body: "{}".into() })
    );
    assert_eq!(check_img_status(429, String::new()), Err(SiteError::RateLimited));
    assert_eq!(check_img_status(200, String::new()), Ok(()));
    assert_eq!(
        check_img_status(500, "e".into()),
        Err(SiteError::Protocol { status: 500, body: "e".into() })
    );
}

#[test]
fn picks_image_formats() {
    assert_eq!(image_kind_of_content_type("image/jpeg"), Some(ImageKind::Jpeg));
    assert_eq!(image_kind_of_content_type("image/webp"), Some(ImageKind::Webp));
    assert_eq!(image_kind_of_content_type("image/gif"), None);
    assert_eq!(target_kind(DownloadFormat::Original, ImageKind::Png), ImageKind::Png);
    assert_eq!(target_kind(DownloadFormat::Jpeg, ImageKind::Png), ImageKind::Jpeg);
    assert_eq!(kind_extension(ImageKind::Webp), "webp");
    assert_eq!(
        img_data_and_format(None, vec![1], DownloadFormat::Jpeg),
        Err(SiteError::Parse(ParseError::Missing))
    );
    assert_eq!(
        img_data_and_format(Some("text/html".into()), vec![1], DownloadFormat::Jpeg),
        Err(SiteError::Parse(ParseError::UnexpectedText))
    );
    assert_eq!(
        img_data_and_format(Some("image/png".into()), vec![1, 2], DownloadFormat::Original),
        Ok((vec![1, 2], ImageKind::Png))
    );
}

fn tiny_png() -> Vec<u8> {
    let img = image::RgbaImage::from_pixel(2, 2, image::Rgba([200, 10, 10, 255]));
    let mut out = Vec::new();
    img.write_to(&mut std::io::Cursor::new(&mut out), image::ImageFormat::Png).unwrap();
    out
}

#[test]
fn transcodes_images() {
    let png = tiny_png();
    let jpeg = transcode(png.clone(), ImageKind::Png, ImageKind::Jpeg).unwrap();
    assert_ne!(jpeg, png);
    assert_eq!(&jpeg[..2], &[0xFF, 0xD8]);
    let webp = transcode(png.clone(), ImageKind::Png, ImageKind::Webp).unwrap();
    assert_eq!(&webp[..4], b"RIFF");
    let back = transcode(jpeg.clone(), ImageKind::Jpeg, ImageKind::Png).unwrap();
    assert_eq!(&back[..4], &[0x89, b'P', b'N', b'G']);
    assert_eq!(transcode(png.clone(), ImageKind::Png, ImageKind::Png), Ok(png.clone()));
    assert_eq!(
        transcode(vec![1, 2, 3], ImageKind::Png, ImageKind::Jpeg),
        Err(SiteError::Parse(ParseError::Undecodable))
    );
    let (data, kind) = img_data_and_format(Some("image/png".into()), png, DownloadFormat::Jpeg).unwrap();
    assert_eq!(kind, ImageKind::Jpeg);
    assert_eq!(&data[..2], &[0xFF, 0xD8]);
}

#[test]
fn greets_and_builds_remaining_urls() {
    assert_eq!(
        wnacg_downloader::types::greet("Ann"),
        "Hello, Ann! You've been greeted from Rust!"
    );
    assert_eq!(
        wnacg_downloader::client::user_profile_url(),
        "https://www.wnacg01.cc/users.html"
    );
    assert_eq!(
        wnacg_downloader::client::keyword_search_url(),
        "https://www.wnacg01.cc/search/index.php"
    );
    let q = keyword_search_query("漫画", -1);
    assert_eq!(q[1], ("syn".to_string(), "yes".to_string()));
    assert_eq!(q[2], ("f".to_string(), "_all".to_string()));
    assert_eq!(q[3], ("s".to_string(), "create_time_DESC".to_string()));
    assert_eq!(q[4].1, "-1");
    assert_eq!(
        wnacg_downloader::client::favorite_response(404, "nf".into()),
        Err(SiteError::Protocol { status: 404, body: "nf".into() })
    );
}
