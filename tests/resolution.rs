use comic_dl::{
    batches, cache_file_name, categories_for, category_kind, comic_from_picks, decide_ingress,
    dl_type_tag, groups_to_resolve, image_path, is_allowed_origin, is_listing_done,
    merge_leaf_results, parse_author_page, parse_chapter_page, parse_comic_page, parse_dl_type,
    plan_ingress, resolve_step, sort_groups, task_for_category, task_for_chapter, Batch, Category,
    CurrentElement, DataWrapper, DlType, HandleHtmlRes, Img, IngressDecision, ResolveStep,
    Scheduler, StatusCode, PartialDownloadTask, TaskStatus,
};

const CHAPTER: &str = r#"<html><body>
<ul class="uk-breadcrumb pl0"><li><a href="./">Home</a></li><li><a href="./c">My Comic</a></li><li><span>x</span></li><li><span>第2话</span></li></ul>
<span class="uk-badge ml8">3P</span>
<div class="uk-zjimg"><img data-src="https://img.example/1.jpg"><img data-src="https://img.example/2.jpg"><img data-src="https://img.example/3.jpg"></div>
</body></html>"#;

const COMIC: &str = r#"<html><body>
<h2 class="uk-heading-line mt10 m10 mbn">My Comic</h2>
<div class="uk-container">
<h3 class="uk-alert-warning">单行本</h3>
<h3 class="uk-alert-warning">单话</h3>
<ul class="uk-switcher uk-margin"><li><a class="zj-container" href="./v?zjid=2">第2卷</a><a class="zj-container" href="./v?zjid=1">第1卷</a></li></ul>
<ul class="uk-switcher uk-margin"><li><a class="zj-container" href="./h?zjid=10">第10话</a><a class="zj-container" href="./h?zjid=9">第9话</a><a class="zj-container" href="./h?zjid=0">序章</a></li></ul>
</div></body></html>"#;

const AUTHOR: &str = r##"<html><body>
<div class="uk-card uk-text-center"><div class="uk-card-media-top uk-inline"><a href="./plugin.php?kuid=1">img</a></div><p class="mt5 mb5 uk-text-truncate"><a href="#">First</a></p></div>
<div class="uk-card uk-text-center"><div class="uk-card-media-top uk-inline"><a href="./plugin.php?kuid=2">img</a></div><p class="mt5 mb5 uk-text-truncate"><a href="#">Second</a></p></div>
</body></html>"##;

fn group(name: &str, done: bool) -> CurrentElement {
    CurrentElement { name: name.to_string(), href: format!("https://www.antbyw.com/{}", name), imgs: Vec::new(), count: 0, done }
}

#[test]
fn chapter_page_resolves() {
    let r = parse_chapter_page(CHAPTER);
    assert_eq!(r.code, StatusCode::Success);
    assert_eq!(r.comic_name, "My Comic");
    assert_eq!(r.current_name, "第2话");
    assert_eq!(r.current_count, 3);
    assert!(r.done);
    match r.data {
        DataWrapper::VecData(v) => {
            assert_eq!(v.len(), 3);
            assert_eq!(v[1].href, "https://img.example/2.jpg");
            assert!(!v[1].done);
        }
        _ => panic!("expected images"),
    }
}

#[test]
fn chapter_with_missing_images_is_not_done() {
    let html = CHAPTER.replace("3P", "4P");
    let r = parse_chapter_page(&html);
    assert_eq!(r.code, StatusCode::Success);
    assert_eq!(r.current_count, 4);
    assert!(!r.done);
    let broken = parse_chapter_page("<html><body><p>gone</p></body></html>");
    assert_eq!(broken.code, StatusCode::Failed);
    assert!(!broken.done);
}

#[test]
fn comic_page_groups_are_numbered_in_order() {
    let c = parse_comic_page(COMIC).unwrap();
    assert_eq!(c.comic_name, "My Comic");
    assert_eq!(c.categories.len(), 2);
    assert_eq!(c.categories[0].title, "单行本");
    let names: Vec<&str> = c.categories[1].groups.iter().map(|g| g.name.as_str()).collect();
    assert_eq!(names, vec!["序章", "第9话", "第10话"]);
    assert_eq!(c.categories[0].groups[0].href, "https://www.antbyw.com/v?zjid=1");
    assert!(c.categories[0].groups.iter().all(|g| !g.done && g.imgs.is_empty()));
}

#[test]
fn comic_picks_without_title_fail() {
    let r = comic_from_picks(&Some(vec![]), &Some(vec![]), &Some(vec![]));
    assert!(r.is_none());
    let r = comic_from_picks(
        &Some(vec![("T".to_string(), None)]),
        &Some(vec![("单话".to_string(), None)]),
        &Some(vec![vec![("第1话".to_string(), Some(String::new()))]]),
    );
    assert!(r.is_none());
}

#[test]
fn author_page_lists_comics() {
    let v = parse_author_page(AUTHOR).unwrap();
    assert_eq!(v.len(), 2);
    assert_eq!(v[0].url, "https://www.antbyw.com/plugin.php?kuid=1");
    assert_eq!(v[1].comic_name, "Second");
    assert!(!v[0].done);
}

#[test]
fn sort_is_by_leading_number() {
    let sorted = sort_groups(vec![group("第3话", false), group("extra", false), group("第1话", false)]);
    let names: Vec<&str> = sorted.iter().map(|g| g.name.as_str()).collect();
    assert_eq!(names, vec!["extra", "第1话", "第3话"]);
}

#[test]
fn resume_steps() {
    assert_eq!(resolve_step(Some(true), false), ResolveStep::UseCached);
    assert_eq!(resolve_step(Some(false), true), ResolveStep::ParseCachedPage);
    assert_eq!(resolve_step(None, true), ResolveStep::ParseCachedPage);
    assert_eq!(resolve_step(None, false), ResolveStep::FetchPage);
}

#[test]
fn merge_keeps_resolved_groups() {
    let mut kept = group("第1话", true);
    kept.imgs = vec![Img { href: "k".to_string(), done: false }];
    kept.count = 1;
    let groups = vec![kept, group("第2话", false), group("第3话", false)];
    assert_eq!(groups_to_resolve(&groups), vec![1, 2]);
    let leaf = parse_chapter_page(CHAPTER);
    let mut partial = parse_chapter_page(&CHAPTER.replace("3P", "5P"));
    partial.done = false;
    let merged = merge_leaf_results(groups, &vec![None, Some(leaf), Some(partial)]);
    assert_eq!(merged[0].imgs.len(), 1);
    assert!(merged[0].done);
    assert!(merged[1].done);
    assert_eq!(merged[1].count, 3);
    assert_eq!(merged[1].imgs.len(), 3);
    assert!(!merged[2].done);
    assert!(merged[2].imgs.is_empty());
    let cats = vec![Category { title: "单话".to_string(), groups: merged }];
    assert!(!is_listing_done(&cats));
}

#[test]
fn batches_of_five() {
    let b = batches(12, 5);
    assert_eq!(b, vec![Batch { start: 0, end: 5 }, Batch { start: 5, end: 10 }, Batch { start: 10, end: 12 }]);
    assert!(batches(0, 5).is_empty());
    assert_eq!(batches(5, 5), vec![Batch { start: 0, end: 5 }]);
}

#[test]
fn ingress_decisions() {
    assert!(is_allowed_origin("https://www.antbyw.com/plugin.php"));
    assert!(is_allowed_origin("https://mangadex.org/title/a/b"));
    assert!(!is_allowed_origin("http://www.antbyw.com/"));
    assert!(!is_allowed_origin(""));
    assert_eq!(parse_dl_type("juan_hua_fanwai"), Some(DlType::JuanHuaFanwai));
    assert_eq!(parse_dl_type("volume"), None);
    assert_eq!(dl_type_tag(DlType::Fanwai), "fanwai");
    let url = "https://www.antbyw.com/plugin.php?kuid=5";
    let site = Some("antbyw".to_string());
    assert_eq!(decide_ingress("ftp://x", "hua", &site, false), IngressDecision::InvalidUrl);
    assert_eq!(decide_ingress(url, "hua", &site, false), IngressDecision::Resolve(DlType::Hua));
    assert_eq!(decide_ingress(url, "hua", &site, true), IngressDecision::AlreadyExists);
    assert_eq!(decide_ingress(url, "nope", &site, false), IngressDecision::UnknownKind);
    assert_eq!(decide_ingress("https://mangadex.org/t/a/b", "hua", &Some("mangadex".to_string()), false), IngressDecision::SecondSource);
    assert_eq!(decide_ingress(url, "hua", &None, false), IngressDecision::UnknownSite);
}

#[test]
fn ingress_twice_resolves_once() {
    let mut s = Scheduler::new(1);
    let url = "https://www.antbyw.com/plugin.php?kuid=5".to_string();
    assert_eq!(plan_ingress(&s, &url, "hua"), IngressDecision::Resolve(DlType::Hua));
    s.add_task(PartialDownloadTask {
        id: 1,
        dl_type: DlType::Hua,
        status: TaskStatus::Stopped,
        local_path: String::new(),
        url: url.clone(),
        author: String::new(),
        comic_name: "c".to_string(),
        progress: "0.00".to_string(),
        count: 3,
        now_count: 0,
        error_vec: String::new(),
        done: false,
    });
    assert_eq!(plan_ingress(&s, &url, "hua"), IngressDecision::AlreadyExists);
    assert_eq!(plan_ingress(&s, &url, "juan"), IngressDecision::Resolve(DlType::Juan));
}

#[test]
fn tasks_from_resolutions() {
    let url = "https://www.antbyw.com/plugin.php?kuid=1&zjid=2".to_string();
    let leaf = parse_chapter_page(CHAPTER);
    let t = task_for_chapter(&url, &leaf).unwrap();
    assert_eq!(t.dl_type, DlType::Current);
    assert_eq!(t.comic_name, "My Comic_第2话");
    assert_eq!(t.count, 3);
    assert_eq!(t.groups.len(), 1);
    assert!(task_for_chapter(&url, &HandleHtmlRes::new()).is_none());

    let c = parse_comic_page(COMIC).unwrap();
    assert_eq!(categories_for(DlType::JuanHuaFanwai, &c.categories), vec![0, 1]);
    assert_eq!(categories_for(DlType::Hua, &c.categories), vec![1]);
    assert_eq!(categories_for(DlType::Fanwai, &c.categories), Vec::<usize>::new());
    let mut res = HandleHtmlRes::new();
    res.comic_name = "My Comic".to_string();
    let mut cat = Category { title: c.categories[1].title.clone(), groups: c.categories[1].groups.clone() };
    cat.groups[0].imgs = vec![Img { href: "a".to_string(), done: false }, Img { href: "b".to_string(), done: false }];
    cat.groups[0].done = true;
    assert!(task_for_category(&url, &res, &cat).is_none());
    res.code = StatusCode::Success;
    assert!(task_for_category(&url, &res, &cat).is_none());
    res.done = true;
    let t = task_for_category(&url, &res, &cat).unwrap();
    assert_eq!(t.dl_type, DlType::Hua);
    assert_eq!(t.count, 2);
    assert!(!t.groups[0].done);
    assert_eq!(category_kind("番外篇"), Some(DlType::Fanwai));
    assert_eq!(category_kind("other"), None);
}

#[test]
fn paths_and_cache_names() {
    assert_eq!(image_path(DlType::Hua, "", "My Comic", "第2话", 7), "My Comic_单话/第2话/7.jpg");
    assert_eq!(image_path(DlType::Juan, "someone", "C", "第1卷", 12), "someone/C_单行本/第1卷/12.jpg");
    assert_eq!(image_path(DlType::Current, "someone", "C_第1话", "x", 0), "C_第1话/0.jpg");
    assert_eq!(cache_file_name("comic", "169197", true), "antbyw_comic_169197.htmlcache");
    assert_eq!(cache_file_name("current", "1218556", false), "antbyw_current_1218556.json");
}

#[test]
fn equal_numbers_keep_page_order() {
    let sorted = sort_groups(vec![
        group("第2话 b", false),
        group("extra a", false),
        group("第1话", false),
        group("第2话 a", false),
        group("extra b", false),
    ]);
    let names: Vec<&str> = sorted.iter().map(|g| g.name.as_str()).collect();
    assert_eq!(names, vec!["extra a", "extra b", "第1话", "第2话 b", "第2话 a"]);
}

#[test]
fn repeated_category_title_keeps_last_block() {
    let link = |n: &str, h: &str| (n.to_string(), Some(h.to_string()));
    let c = comic_from_picks(
        &Some(vec![("T".to_string(), None)]),
        &Some(vec![("单话".to_string(), None), ("单行本".to_string(), None), ("单话".to_string(), None)]),
        &Some(vec![
            vec![link("第1话", "./a")],
            vec![link("第1卷", "./b")],
            vec![link("第9话", "./c"), link("第8话", "./d")],
        ]),
    )
    .unwrap();
    let titles: Vec<&str> = c.categories.iter().map(|k| k.title.as_str()).collect();
    assert_eq!(titles, vec!["单行本", "单话"]);
    assert_eq!(c.categories[1].groups.len(), 2);
    assert_eq!(c.categories[1].groups[0].name, "第8话");
}

#[test]
fn author_results_fold_in() {
    let entry = |u: &str, done: bool| comic_dl::AuthorElement {
        url: u.to_string(),
        comic_name: u.to_string(),
        local: String::new(),
        done,
    };
    let mut resolved = HandleHtmlRes::new();
    resolved.code = StatusCode::Success;
    resolved.done = true;
    resolved.local = "/cache/c2.json".to_string();
    let unfinished = HandleHtmlRes::new();
    let (v, all) = comic_dl::fold_author_results(
        vec![entry("c1", true), entry("c2", false), entry("c3", false)],
        &vec![None, Some(resolved.clone()), Some(unfinished)],
    );
    assert!(v[0].done && v[1].done && !v[2].done);
    assert_eq!(v[1].local, "/cache/c2.json");
    assert!(!all);
    let (_, all) = comic_dl::fold_author_results(vec![entry("c1", true), entry("c2", false)], &vec![None, Some(resolved)]);
    assert!(all);
}
