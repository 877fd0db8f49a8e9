use wnacg_downloader::download_manager::{
    format_speed, plan_image_urls, ComicStep, DownloadError, DownloadManager, DownloadTaskState,
    FinishStep, ImgStep,
};
use wnacg_downloader::layout::{img_file_name, should_keep_file, temp_download_dir_name};
use wnacg_downloader::types::{Comic, DownloadFormat, ImgInImgList, ImgList};

fn comic(id: i64, title: &str, urls: &[&str]) -> Comic {
    Comic {
        id,
        title: title.to_string(),
        img_list: ImgList(
            urls.iter()
                .map(|u| ImgInImgList { caption: String::new(), url: u.to_string() })
                .collect(),
        ),
        ..Comic::default()
    }
}

fn numbered(n: usize) -> Vec<String> {
    let mut v: Vec<String> = (1..=n).map(|i| format!("//h/{i}.jpg")).collect();
    v.push("//h/shoucang.jpg".to_string());
    v
}

fn run_to_end(m: &mut DownloadManager, id: i64) -> FinishStep {
    let serial = m.serial_of(id).unwrap();
    assert_eq!(m.comic_step(id, serial), ComicStep::Run);
    let urls = m.start_pipeline(id, serial).unwrap();
    for k in 0..urls.len() {
        loop {
            match m.img_step(id, serial, k) {
                ImgStep::Fetch => {
                    assert!(m.img_finished(id, serial, k, true, 10));
                    break;
                }
                ImgStep::Wait => panic!("image {k} waits with free permits"),
                ImgStep::Exit => break,
            }
        }
    }
    m.finish_images(id, serial)
}

#[test]
fn happy_path_three_images() {
    let mut m = DownloadManager::new(2, 4);
    let c = comic(1, "T", &["//h/a.jpg", "//h/b.jpg", "//h/shoucang.jpg"]);
    assert!(m.create_download_task(c));
    let serial = m.serial_of(1).unwrap();
    assert_eq!(m.state_of(1), Some(DownloadTaskState::Pending));
    assert_eq!(m.comic_step(1, serial), ComicStep::Run);
    assert_eq!(m.state_of(1), Some(DownloadTaskState::Downloading));
    let urls = m.start_pipeline(1, serial).unwrap();
    assert_eq!(urls, vec!["https://h/a.jpg".to_string(), "https://h/b.jpg".to_string()]);
    let ev = m.task_event(1).unwrap();
    assert_eq!(ev.total_img_count, 2);
    assert_eq!(img_file_name(0, "jpg"), "0001.jpg");
    assert_eq!(img_file_name(1, "jpg"), "0002.jpg");
    for k in 0..2 {
        assert_eq!(m.img_step(1, serial, k), ImgStep::Fetch);
        assert!(m.img_finished(1, serial, k, true, 100));
    }
    assert_eq!(m.finish_images(1, serial), FinishStep::Publish);
    assert!(m.publish_result(1, serial, true));
    let ev = m.task_event(1).unwrap();
    assert_eq!(ev.state, DownloadTaskState::Completed);
    assert_eq!(ev.downloaded_img_count, 2);
    assert_eq!(ev.total_img_count, 2);
    assert_eq!(temp_download_dir_name("T"), ".下载中-T");
    assert_eq!(m.comic_step(1, serial), ComicStep::Exit);
}

#[test]
fn pause_and_resume_ten_images() {
    let mut m = DownloadManager::new(1, 2);
    let urls = numbered(10);
    let refs: Vec<&str> = urls.iter().map(|s| s.as_str()).collect();
    m.create_download_task(comic(5, "P", &refs));
    let serial = m.serial_of(5).unwrap();
    assert_eq!(m.comic_step(5, serial), ComicStep::Run);
    assert_eq!(m.start_pipeline(5, serial).unwrap().len(), 10);
    assert_eq!(m.img_step(5, serial, 0), ImgStep::Fetch);
    assert_eq!(m.img_step(5, serial, 1), ImgStep::Fetch);
    assert_eq!(m.img_step(5, serial, 2), ImgStep::Wait);
    assert!(m.img_finished(5, serial, 0, true, 1));
    assert_eq!(m.pause_download_task(5), Ok(()));
    assert_eq!(m.state_of(5), Some(DownloadTaskState::Paused));
    assert_eq!(m.img_step(5, serial, 1), ImgStep::Wait);
    assert_eq!(m.img_step(5, serial, 2), ImgStep::Wait);
    assert_eq!(m.comic_step(5, serial), ComicStep::Wait);
    assert_eq!(m.task_event(5).unwrap().downloaded_img_count, 1);
    assert_eq!(m.finish_images(5, serial), FinishStep::NotNow);
    assert_eq!(m.resume_download_task(5), Ok(()));
    assert_eq!(m.state_of(5), Some(DownloadTaskState::Pending));
    assert_eq!(m.serial_of(5), Some(serial));
    assert_eq!(m.comic_step(5, serial), ComicStep::Run);
    for k in 1..10 {
        assert_eq!(m.img_step(5, serial, k), ImgStep::Fetch);
        assert!(m.img_finished(5, serial, k, true, 1));
    }
    assert_eq!(m.finish_images(5, serial), FinishStep::Publish);
    assert!(m.publish_result(5, serial, true));
    assert_eq!(m.task_event(5).unwrap().downloaded_img_count, 10);
    assert_eq!(m.state_of(5), Some(DownloadTaskState::Completed));
}

#[test]
fn cancel_mid_flight() {
    let mut m = DownloadManager::new(1, 4);
    m.create_download_task(comic(7, "C", &["//h/a.jpg", "//h/b.jpg", "//h/c.jpg"]));
    let serial = m.serial_of(7).unwrap();
    m.comic_step(7, serial);
    m.start_pipeline(7, serial).unwrap();
    assert_eq!(m.img_step(7, serial, 0), ImgStep::Fetch);
    assert!(m.img_finished(7, serial, 0, true, 1));
    assert_eq!(m.img_step(7, serial, 1), ImgStep::Fetch);
    assert_eq!(m.cancel_download_task(7), Ok(()));
    assert_eq!(m.state_of(7), Some(DownloadTaskState::Cancelled));
    assert_eq!(m.img_step(7, serial, 1), ImgStep::Exit);
    assert_eq!(m.img_step(7, serial, 2), ImgStep::Exit);
    assert_eq!(m.comic_step(7, serial), ComicStep::Exit);
    assert_eq!(m.finish_images(7, serial), FinishStep::Abandon);
    assert!(!m.publish_result(7, serial, true));
    assert_eq!(m.state_of(7), Some(DownloadTaskState::Cancelled));
}

#[test]
fn rate_limited_image_fails_the_comic() {
    let mut m = DownloadManager::new(1, 8);
    let urls = numbered(5);
    let refs: Vec<&str> = urls.iter().map(|s| s.as_str()).collect();
    m.create_download_task(comic(8, "R", &refs));
    let serial = m.serial_of(8).unwrap();
    m.comic_step(8, serial);
    m.start_pipeline(8, serial).unwrap();
    for k in 0..5 {
        assert_eq!(m.img_step(8, serial, k), ImgStep::Fetch);
        assert!(m.img_finished(8, serial, k, k != 3, 1));
    }
    assert_eq!(m.finish_images(8, serial), FinishStep::Failed);
    let ev = m.task_event(8).unwrap();
    assert_eq!(ev.state, DownloadTaskState::Failed);
    assert_eq!(ev.downloaded_img_count, 4);
    assert_eq!(ev.total_img_count, 5);
}

#[test]
fn format_change_then_retry() {
    assert!(should_keep_file(Some("jpg"), DownloadFormat::Jpeg));
    assert!(!should_keep_file(Some("jpg"), DownloadFormat::Png));
    assert!(!should_keep_file(Some("json"), DownloadFormat::Png));
    assert!(!should_keep_file(None, DownloadFormat::Png));
    assert!(should_keep_file(Some("jpg"), DownloadFormat::Original));
    let mut m = DownloadManager::new(1, 8);
    let urls = numbered(10);
    let refs: Vec<&str> = urls.iter().map(|s| s.as_str()).collect();
    m.create_download_task(comic(9, "F", &refs));
    let first = m.serial_of(9).unwrap();
    m.comic_step(9, first);
    m.start_pipeline(9, first).unwrap();
    for k in 0..5 {
        m.img_step(9, first, k);
        m.img_finished(9, first, k, true, 1);
    }
    m.cancel_download_task(9).unwrap();
    m.resume_download_task(9).unwrap();
    let second = m.serial_of(9).unwrap();
    assert_ne!(first, second);
    assert_eq!(m.state_of(9), Some(DownloadTaskState::Pending));
    assert!(!m.img_finished(9, first, 5, true, 1));
    assert_eq!(run_to_end(&mut m, 9), FinishStep::Publish);
    assert_eq!(m.task_event(9).unwrap().downloaded_img_count, 10);
    assert_eq!(img_file_name(9, "png"), "0010.png");
}

#[test]
fn resume_after_completion_starts_a_fresh_run() {
    let mut m = DownloadManager::new(1, 1);
    m.create_download_task(comic(3, "D", &["//h/a.jpg", "//h/shoucang.jpg"]));
    assert_eq!(run_to_end(&mut m, 3), FinishStep::Publish);
    let serial = m.serial_of(3).unwrap();
    m.publish_result(3, serial, true);
    assert_eq!(m.resume_download_task(3), Ok(()));
    let again = m.serial_of(3).unwrap();
    assert_ne!(serial, again);
    let ev = m.task_event(3).unwrap();
    assert_eq!(ev.state, DownloadTaskState::Pending);
    assert_eq!(ev.downloaded_img_count, 0);
    assert_eq!(run_to_end(&mut m, 3), FinishStep::Publish);
    assert!(m.publish_result(3, again, true));
    assert_eq!(m.state_of(3), Some(DownloadTaskState::Completed));
    assert_eq!(m.byte_per_sec(), 20);
}

#[test]
fn submit_is_idempotent_while_live() {
    let mut m = DownloadManager::new(1, 1);
    assert!(m.create_download_task(comic(4, "I", &["//h/a.jpg"])));
    let serial = m.serial_of(4).unwrap();
    assert!(!m.create_download_task(comic(4, "I", &["//h/a.jpg"])));
    assert_eq!(m.task_count(), 1);
    assert_eq!(m.serial_of(4), Some(serial));
}

#[test]
fn comic_permits_are_bounded_and_fifo() {
    let mut m = DownloadManager::new(1, 4);
    m.create_download_task(comic(1, "A", &["//h/a.jpg"]));
    m.create_download_task(comic(2, "B", &["//h/a.jpg"]));
    m.create_download_task(comic(3, "C", &["//h/a.jpg"]));
    let s2 = m.serial_of(2).unwrap();
    let s3 = m.serial_of(3).unwrap();
    assert_eq!(run_to_end(&mut m, 1), FinishStep::Publish);
    assert_eq!(m.comic_step(3, s3), ComicStep::Wait);
    assert_eq!(m.comic_step(2, s2), ComicStep::Wait);
    let s1 = m.serial_of(1).unwrap();
    assert!(m.publish_result(1, s1, true));
    assert_eq!(m.comic_step(3, s3), ComicStep::Wait);
    assert_eq!(m.comic_step(2, s2), ComicStep::Run);
    assert_eq!(m.comic_step(3, s3), ComicStep::Wait);
}

#[test]
fn unknown_ids_are_not_found() {
    let mut m = DownloadManager::new(1, 1);
    assert_eq!(m.pause_download_task(42), Err(DownloadError::NotFound));
    assert_eq!(m.resume_download_task(42), Err(DownloadError::NotFound));
    assert_eq!(m.cancel_download_task(42), Err(DownloadError::NotFound));
    assert!(m.task_event(42).is_none());
}

#[test]
fn failed_rename_fails_the_comic() {
    let mut m = DownloadManager::new(1, 1);
    m.create_download_task(comic(6, "X", &["//h/a.jpg"]));
    assert_eq!(run_to_end(&mut m, 6), FinishStep::Publish);
    let s = m.serial_of(6).unwrap();
    assert!(m.publish_result(6, s, false));
    assert_eq!(m.state_of(6), Some(DownloadTaskState::Failed));
}

#[test]
fn too_many_images_are_refused() {
    let mut m = DownloadManager::new(1, 1);
    let urls: Vec<String> = (0..10000).map(|i| format!("//h/{i}.jpg")).collect();
    let refs: Vec<&str> = urls.iter().map(|s| s.as_str()).collect();
    m.create_download_task(comic(11, "Big", &refs));
    let s = m.serial_of(11).unwrap();
    m.comic_step(11, s);
    assert!(m.start_pipeline(11, s).is_none());
    assert_eq!(m.state_of(11), Some(DownloadTaskState::Failed));
}

#[test]
fn speed_reports() {
    assert_eq!(format_speed(0), "0.00 MB/s");
    assert_eq!(format_speed(1048576), "1.00 MB/s");
    assert_eq!(format_speed(1572864), "1.50 MB/s");
    assert_eq!(format_speed(131072), "0.12 MB/s");
    assert_eq!(format_speed(10 * 1048576 + 5242), "10.00 MB/s");
    let mut m = DownloadManager::new(1, 1);
    m.create_download_task(comic(1, "S", &["//h/a.jpg"]));
    let s = m.serial_of(1).unwrap();
    m.comic_step(1, s);
    m.start_pipeline(1, s);
    m.img_step(1, s, 0);
    m.img_finished(1, s, 0, true, 3 * 1048576);
    assert_eq!(m.take_speed(), "3.00 MB/s");
    assert_eq!(m.take_speed(), "0.00 MB/s");
}

#[test]
fn sentinel_is_left_out_of_the_plan() {
    let list = vec![
        ImgInImgList { caption: "[01]".into(), url: "//img/1.jpg".into() },
        ImgInImgList { caption: String::new(), url: "/themes/weitu/images/bg/shoucang.jpg".into() },
    ];
    assert_eq!(plan_image_urls(&list), vec!["https://img/1.jpg".to_string()]);
}

#[test]
fn setup_failure_fails_the_run() {
    let mut m = DownloadManager::new(1, 1);
    m.create_download_task(comic(12, "S", &["//h/a.jpg"]));
    let s = m.serial_of(12).unwrap();
    assert!(!m.setup_failed(12, s));
    m.comic_step(12, s);
    m.start_pipeline(12, s).unwrap();
    assert!(m.setup_failed(12, s));
    assert_eq!(m.state_of(12), Some(DownloadTaskState::Failed));
    assert!(!m.setup_failed(12, s));
    assert!(m.create_download_task(comic(13, "T", &["//h/a.jpg"])));
    let t = m.serial_of(13).unwrap();
    assert_eq!(m.comic_step(13, t), ComicStep::Run);
}

#[test]
fn speed_reports_add_up_over_ticks() {
    let mut m = DownloadManager::new(1, 3);
    m.create_download_task(comic(1, "S", &["//h/a.jpg", "//h/b.jpg", "//h/c.jpg"]));
    let s = m.serial_of(1).unwrap();
    m.comic_step(1, s);
    m.start_pipeline(1, s);
    let sizes = [524288u64, 2097152, 1048576];
    let mut reported = Vec::new();
    for (k, b) in sizes.iter().enumerate() {
        m.img_step(1, s, k);
        m.img_finished(1, s, k, true, *b);
        reported.push(m.take_speed());
    }
    assert_eq!(reported, vec!["0.50 MB/s", "2.00 MB/s", "1.00 MB/s"]);
    assert_eq!(m.byte_per_sec(), 0);
}

#[test]
fn pause_freezes_in_flight_images_and_frees_their_permits() {
    let mut m = DownloadManager::new(2, 2);
    m.create_download_task(comic(20, "A", &["//h/1.jpg", "//h/2.jpg", "//h/3.jpg"]));
    m.create_download_task(comic(21, "B", &["//h/1.jpg"]));
    let a = m.serial_of(20).unwrap();
    let b = m.serial_of(21).unwrap();
    assert_eq!(m.comic_step(20, a), ComicStep::Run);
    assert_eq!(m.comic_step(21, b), ComicStep::Run);
    m.start_pipeline(20, a).unwrap();
    m.start_pipeline(21, b).unwrap();
    assert_eq!(m.img_step(20, a, 0), ImgStep::Fetch);
    assert_eq!(m.img_step(20, a, 1), ImgStep::Fetch);
    assert_eq!(m.img_step(21, b, 0), ImgStep::Wait);
    assert!(m.img_finished(20, a, 0, true, 1));
    assert_eq!(m.pause_download_task(20), Ok(()));
    // The in-flight image 1 lost its permit: its outcome no longer counts.
    assert!(!m.img_finished(20, a, 1, true, 1));
    assert_eq!(m.task_event(20).unwrap().downloaded_img_count, 1);
    assert_eq!(m.byte_per_sec(), 1);
    // Its permits went to the other comic.
    assert_eq!(m.img_step(21, b, 0), ImgStep::Fetch);
    assert!(m.img_finished(21, b, 0, true, 1));
    // After resume the image is fetched again and then counts.
    m.resume_download_task(20).unwrap();
    assert_eq!(m.img_step(20, a, 1), ImgStep::Wait);
    assert_eq!(m.comic_step(20, a), ComicStep::Run);
    assert_eq!(m.img_step(20, a, 1), ImgStep::Fetch);
    assert!(m.img_finished(20, a, 1, true, 1));
    assert_eq!(m.task_event(20).unwrap().downloaded_img_count, 2);
}

#[test]
fn cancel_frees_image_permits() {
    let mut m = DownloadManager::new(2, 1);
    m.create_download_task(comic(30, "A", &["//h/1.jpg"]));
    m.create_download_task(comic(31, "B", &["//h/1.jpg"]));
    let a = m.serial_of(30).unwrap();
    let b = m.serial_of(31).unwrap();
    m.comic_step(30, a);
    m.comic_step(31, b);
    m.start_pipeline(30, a).unwrap();
    m.start_pipeline(31, b).unwrap();
    assert_eq!(m.img_step(30, a, 0), ImgStep::Fetch);
    assert_eq!(m.img_step(31, b, 0), ImgStep::Wait);
    m.cancel_download_task(30).unwrap();
    assert!(!m.img_finished(30, a, 0, true, 1));
    assert_eq!(m.img_step(31, b, 0), ImgStep::Fetch);
}
