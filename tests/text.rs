use wnacg_downloader::export::{is_page_file, ComicInfo};
use wnacg_downloader::imglist::imglist_json;
use wnacg_downloader::layout::{is_finished_dir_name, newest_first, METADATA_FILE_NAME};
use wnacg_downloader::text::{
    filename_filter, int_string, parse_i64, remove_char, strip_prefix_str, strip_suffix_str,
    trim_start_matching, trim_str, zero_padded,
};
use wnacg_downloader::types::{Archive, Comic, DownloadFormat, Tag};

#[test]
fn parses_integers_like_std() {
    assert_eq!(parse_i64("123"), Some(123));
    assert_eq!(parse_i64("+7"), Some(7));
    assert_eq!(parse_i64("-42"), Some(-42));
    assert_eq!(parse_i64("9223372036854775807"), Some(i64::MAX));
    assert_eq!(parse_i64("-9223372036854775808"), Some(i64::MIN));
    assert_eq!(parse_i64("9223372036854775808"), None);
    assert_eq!(parse_i64(""), None);
    assert_eq!(parse_i64("-"), None);
    assert_eq!(parse_i64("12a"), None);
    assert_eq!(parse_i64(" 1"), None);
    for s in ["0", "-0", "00017", "99999999999999999999"] {
        assert_eq!(parse_i64(s), s.parse::<i64>().ok());
    }
}

#[test]
fn writes_integers() {
    assert_eq!(int_string(0), "0");
    assert_eq!(int_string(-15), "-15");
    assert_eq!(int_string(i64::MIN), i64::MIN.to_string());
    assert_eq!(zero_padded(1, 4), "0001");
    assert_eq!(zero_padded(123, 4), "0123");
    assert_eq!(zero_padded(12345, 4), "12345");
}

#[test]
fn trims_and_strips() {
    assert_eq!(trim_str("  a b \n"), "a b");
    assert_eq!(trim_str("\u{3000}全角\u{a0}"), "全角");
    assert_eq!(trim_str("   "), "");
    assert_eq!(strip_prefix_str("頁數：25P", "頁數："), Some("25P".to_string()));
    assert_eq!(strip_prefix_str("x", "頁數："), None);
    assert_eq!(strip_suffix_str("25P", "P"), Some("25".to_string()));
    assert_eq!(strip_suffix_str("25", "P"), None);
    assert_eq!(trim_start_matching("//a/b", '/'), "a/b");
    assert_eq!(remove_char("1,234,567", ','), "1234567");
}

#[test]
fn filters_file_names() {
    assert_eq!(filename_filter("a/b\\c"), "a b c");
    assert_eq!(filename_filter("Q: why?"), "Q： why？");
    assert_eq!(filename_filter("<x|y>*\"z\""), "《x丨y》⭐'z'");
    assert_eq!(filename_filter("  title... "), "title");
    assert_eq!(filename_filter("ok"), "ok");
}

#[test]
fn extracts_the_image_list() {
    let page = "<html>\n<script>\nvar other = [1];\nvar imglist = [{url: fast_img_host+\\\"//img.x/1.jpg\\\", caption: \\\"[01]\\\"},{url: fast_img_host+\\\"/themes/weitu/images/bg/shoucang.jpg\\\", caption: \\\"\\\"}];\n</script>\n</html>";
    let json = imglist_json(page).unwrap();
    assert_eq!(
        String::from_utf8(json).unwrap(),
        "[{\"url\": \"//img.x/1.jpg\", \"caption\": \"[01]\"},{\"url\": \"/themes/weitu/images/bg/shoucang.jpg\", \"caption\": \"\"}]"
    );
    assert_eq!(imglist_json("no list here"), None);
    assert_eq!(imglist_json("var imglist = ];["), None);
    assert_eq!(imglist_json("var imglist = nothing\n[1]"), None);
}

#[test]
fn comic_info_from_comic() {
    let c = Comic {
        id: 1,
        title: "T".into(),
        intro: "<p>i</p>".into(),
        image_count: 25,
        tags: vec![
            Tag { name: "a".into(), url: "u".into() },
            Tag { name: "b".into(), url: "v".into() },
        ],
        ..Comic::default()
    };
    let info = ComicInfo::from_comic(c);
    assert_eq!(info.manga, "Yes");
    assert_eq!(info.series, "T");
    assert_eq!(info.publisher, "绅士漫画");
    assert_eq!(info.genre, "a, b");
    assert_eq!(info.summary, "<p>i</p>");
    assert_eq!(info.number.as_deref(), Some("1"));
    assert_eq!(info.volume, None);
    assert_eq!(info.format.as_deref(), Some("Special"));
    assert_eq!(info.page_count, 25);
    assert_eq!(info.count, 1);
}

#[test]
fn names_on_disk() {
    assert!(is_finished_dir_name("Title"));
    assert!(!is_finished_dir_name(".下载中-Title"));
    assert_eq!(METADATA_FILE_NAME, "元数据.json");
    assert!(!is_page_file(Some("json")));
    assert!(is_page_file(Some("jpg")));
    assert!(is_page_file(None));
    assert_eq!(Archive::Cbz.extension(), "cbz");
    assert_eq!(Archive::Pdf.extension(), "pdf");
    assert_eq!(DownloadFormat::Jpeg.extension(), Some("jpg"));
    assert_eq!(DownloadFormat::Webp.extension(), Some("webp"));
    assert_eq!(DownloadFormat::Original.extension(), None);
}

#[test]
fn manifest_record_round_trip() {
    let c = Comic { id: 2, title: "M".into(), is_downloaded: Some(true), ..Comic::default() };
    let stored = c.clone().manifest_record();
    assert_eq!(stored.is_downloaded, None);
    let back = Comic::from_metadata(stored, false);
    assert_eq!(back, Comic { is_downloaded: Some(false), ..c });
}

#[test]
fn orders_newest_first() {
    assert_eq!(newest_first(&vec![5, 9, 1, 9]), vec![1, 3, 0, 2]);
    assert_eq!(newest_first(&vec![]), Vec::<usize>::new());
    assert_eq!(newest_first(&vec![3]), vec![0]);
}
