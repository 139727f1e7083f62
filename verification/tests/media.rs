use qwen2api_rs::json_text::{json_to_string, parse_json};
use qwen2api_rs::media::generate::{media_request, Completion, Generation};
use qwen2api_rs::media::task::{
    backup_entry, backup_urls, dispatch_free, dispatch_taken, list_limit, params_text,
    params_to_count, params_to_image_options, plan_task, settle_task, task_list, Dispatch, TaskEnd,
    TaskRow, TaskRun,
};
use qwen2api_rs::media::urls::guess_ext;
use qwen2api_rs::media::{scrape_urls, GenOutcome, MediaKind, MediaQueue, MediaStore, MediaTask};
use qwen2api_rs::text_set::TextSet;
use qwen2api_rs::upstream::payload::ImageOptions;

fn completion(error: Option<&str>, content: &str, email: Option<&str>) -> Completion {
    Completion {
        error: error.map(|s| s.into()),
        content: content.into(),
        email: email.map(|s| s.into()),
    }
}

#[test]
fn media_kind_names() {
    assert_eq!(MediaKind::Image.as_str(), "image");
    assert_eq!(MediaKind::parse("VIDEO"), MediaKind::Video);
    assert_eq!(MediaKind::parse("t2v"), MediaKind::Video);
    assert_eq!(MediaKind::parse("T2V"), MediaKind::Image);
    for kind in [MediaKind::Image, MediaKind::Video] {
        assert_eq!(MediaKind::parse(kind.as_str()), kind);
    }
    assert_eq!((MediaKind::Video.chat_type(), MediaKind::Image.chat_type()), ("t2v", "t2i"));
    assert_eq!((MediaKind::Video.surface(), MediaKind::Image.surface()), ("videos", "images"));
}

#[test]
fn links_are_scraped_once_and_without_the_sentence() {
    let text = "![x](https://cdn.qwenlm.ai/a). see https://h/x.PNG, https://h/x.PNG http://h/y.txt";
    assert_eq!(scrape_urls(text, MediaKind::Image), ["https://cdn.qwenlm.ai/a", "https://h/x.PNG"]);
    assert_eq!(scrape_urls(text, MediaKind::Video), ["https://cdn.qwenlm.ai/a"]);
    assert_eq!(scrape_urls("https://h/t2v/z", MediaKind::Video), ["https://h/t2v/z"]);
    assert!(scrape_urls("nothing", MediaKind::Video).is_empty());
}

#[test]
fn endings_are_guessed() {
    assert_eq!(guess_ext("https://h/a.JPEG?x=.png", MediaKind::Image), "jpeg");
    assert_eq!(guess_ext("https://h/a", MediaKind::Image), "png");
    assert_eq!(guess_ext("https://h/a.bin", MediaKind::Video), "mp4");
    assert_eq!(guess_ext("a.webm", MediaKind::Video), "webm");
}

#[test]
fn making_ends_with_the_first_links() {
    let mut g = Generation::new(MediaKind::Image, 0, TextSet::new());
    assert!(g.before_attempt(0));
    assert!(!g.after_attempt(&completion(None, "https://h/a.png", None)));
    let out = g.outcome();
    assert_eq!(out.urls, ["https://h/a.png"]);
    assert_eq!((out.attempts, out.error, out.newly_marked_no_t2v), (1, None, 0));
}

#[test]
fn making_passes_over_accounts_that_cannot() {
    let mut skip = TextSet::new();
    skip.insert("old");
    let mut g = Generation::new(MediaKind::Video, 3, skip);
    assert!(g.before_attempt(5));
    assert!(g.after_attempt(&completion(None, "no link", Some("new"))));
    assert!(g.excluded().contains("new") && g.excluded().contains("old"));
    assert!(g.before_attempt(5));
    assert!(g.after_attempt(&completion(Some("oops"), "", Some("third"))));
    assert_eq!(g.marked().len(), 1);
    assert!(!g.before_attempt(2));
    let out = g.outcome();
    assert!(out.urls.is_empty());
    assert_eq!((out.attempts, out.newly_marked_no_t2v), (3, 1));
    assert_eq!(
        out.error.unwrap(),
        "video generation failed: no URL after 3 attempts (newly skipped 1 accounts without t2v access; previously skipped 1). Upstream returned an empty result, which usually means the account does not have t2v access. Last error: no remaining accounts with t2v access to try"
    );
}

#[test]
fn making_ends_when_nobody_is_available() {
    let mut g = Generation::new(MediaKind::Image, 9, TextSet::new());
    assert!(g.before_attempt(0));
    assert!(!g.after_attempt(&completion(Some("no available Qwen accounts now"), "", None)));
    let out = g.outcome();
    assert_eq!((out.attempts, out.error.as_deref()), (9, Some("no available Qwen accounts now")));
}

#[test]
fn making_is_tried_as_often_as_allowed() {
    let mut g = Generation::new(MediaKind::Image, 2, TextSet::new());
    assert!(g.before_attempt(1));
    assert!(g.after_attempt(&completion(None, "", Some("a"))));
    assert_eq!(g.excluded().len(), 0);
    assert!(g.before_attempt(1));
    assert!(!g.after_attempt(&completion(None, "", Some("a"))));
    assert_eq!(g.outcome().error.as_deref(), Some("upstream did not return a image URL"));
}

#[test]
fn request_of_a_making() {
    let mut exclude = TextSet::new();
    exclude.insert("e");
    exclude.insert("e");
    assert_eq!((exclude.len(), exclude.get(0), exclude.get(1)), (1, Some("e"), None));
    let r = media_request("p", MediaKind::Video, "m", ImageOptions::default(), None, exclude);
    assert_eq!((r.response_model.as_str(), r.chat_type.as_str()), ("qwen-video", "t2v"));
    assert_eq!((r.surface.as_str(), r.client_profile.as_str()), ("videos", "generic"));
    assert_eq!(r.thinking_enabled, Some(false));
    assert!(r.exclude_accounts.contains("e"));
}

#[test]
fn queue_works_on_one_at_least() {
    let q = MediaQueue::new(MediaStore::new("d", "m"), 0, 0);
    assert_eq!((q.concurrency(), q.attempts()), (1, 1));
    assert_eq!(q.store.media_dir, "m");
    assert_eq!(MediaQueue::new(MediaStore::new("d", "m"), 3, 10).attempts(), 10);
    assert_eq!(dispatch_free(0), Dispatch::WaitForSlot(300));
    assert_eq!(dispatch_free(2), Dispatch::Take(2));
    assert_eq!(dispatch_taken(0), Dispatch::WaitForWork(3000));
    assert_eq!(dispatch_taken(1), Dispatch::Work);
}

#[test]
fn tasks_are_planned() {
    let task = |kind: &str, params: &str| MediaTask {
        id: 1,
        kind: kind.into(),
        prompt: "p".into(),
        params: params.into(),
        status: "running".into(),
        caller: None,
    };
    let p = plan_task(&task("image", r#"{"n":9,"size":"s","aspect_ratio":"4:3","width":1}"#));
    assert_eq!((p.kind, p.count), (MediaKind::Image, 4));
    assert_eq!(p.options.ratio.as_deref(), Some("4:3"));
    assert_eq!((p.options.size.as_deref(), p.options.width, p.options.height), (Some("s"), Some(1), None));
    let p = plan_task(&task("video", "broken"));
    assert_eq!((p.kind, p.count, p.options.ratio.as_deref()), (MediaKind::Video, 1, Some("16:9")));
    let prm = parse_json(r#"{"n":0,"ratio":1}"#).unwrap();
    assert_eq!(params_to_count(&prm, MediaKind::Image), 1);
    assert_eq!(params_to_count(&prm, MediaKind::Video), 1);
    assert_eq!(params_to_image_options(&prm, MediaKind::Image).ratio.as_deref(), Some("1:1"));
    assert_eq!(params_text(&prm), r#"{"n":0,"ratio":1}"#);
}

fn run(urls: &[&str], attempts: u32, error: Option<&str>, names: &[Option<&str>]) -> TaskRun {
    TaskRun {
        outcome: GenOutcome {
            urls: urls.iter().map(|s| s.to_string()).collect(),
            attempts,
            error: error.map(|s| s.into()),
            newly_marked_no_t2v: 0,
        },
        filenames: names.iter().map(|n| n.map(|s| s.to_string())).collect(),
    }
}

#[test]
fn tasks_end_with_what_was_made() {
    let runs = vec![
        run(&["u1", "u2"], 2, None, &[Some("f"), None]),
        run(&[], 3, Some("e"), &[]),
    ];
    match settle_task(&runs) {
        TaskEnd::Done { results, attempts } => {
            assert_eq!(attempts, 5);
            assert_eq!(
                json_to_string(&results),
                r#"[{"cdn_url":"u1","filename":"f","local_url":"/media/f"},{"cdn_url":"u2","filename":null,"local_url":null}]"#
            );
        }
        TaskEnd::Failed { .. } => panic!("something was made"),
    }
    assert_eq!(
        json_to_string(&backup_urls(&vec!["u".into()], &vec![None])),
        format!("[{}]", json_to_string(&backup_entry("u", None)))
    );
}

#[test]
fn tasks_that_made_nothing_tell_the_last_reason() {
    match settle_task(&vec![run(&[], 1, Some("a"), &[]), run(&[], 1, Some("b"), &[])]) {
        TaskEnd::Failed { error, attempts } => assert_eq!((error.as_str(), attempts), ("b", 2)),
        TaskEnd::Done { .. } => panic!("nothing was made"),
    }
    match settle_task(&vec![run(&[], 1, None, &[])]) {
        TaskEnd::Failed { error, .. } => assert_eq!(error, "generation failed"),
        TaskEnd::Done { .. } => panic!("nothing was made"),
    }
}

#[test]
fn tasks_are_listed() {
    let rows = vec![TaskRow {
        id: 1,
        ts_created: 2,
        ts_done: None,
        kind: "image".into(),
        prompt: "p".into(),
        params: Some("{\"n\":2}".into()),
        status: "queued".into(),
        attempts: 0,
        error: None,
        results: Some("broken".into()),
        caller: Some("k".into()),
    }];
    assert_eq!(
        json_to_string(&task_list(&rows)),
        r#"{"tasks":[{"attempts":0,"caller":"k","error":null,"id":1,"kind":"image","params":{"n":2},"prompt":"p","results":[],"status":"queued","ts_created":2,"ts_done":null}]}"#
    );
    assert_eq!((list_limit(0), list_limit(7), list_limit(501)), (1, 7, 500));
}
