use comic_dl::{DataWrapper, DlType, DownloadTask, HandleHtmlRes, Img, StatusCode, TaskStatus};

#[test]
fn empty_result_and_payload_copy() {
    let r = HandleHtmlRes::new();
    assert_eq!(r.code(), StatusCode::Failed);
    assert!(!r.done);
    assert!(matches!(r.data(), DataWrapper::CategoryData(v) if v.is_empty()));
    let mut r = HandleHtmlRes::new();
    r.data = DataWrapper::VecData(vec![Img { href: "u".to_string(), done: true }]);
    match r.data() {
        DataWrapper::VecData(v) => {
            assert_eq!(v.len(), 1);
            assert_eq!(v[0].href, "u");
            assert!(v[0].done);
        }
        _ => panic!("payload kind changed"),
    }
}

#[test]
fn status_tags_round_trip() {
    for st in [TaskStatus::Downloading, TaskStatus::Waiting, TaskStatus::Stopped, TaskStatus::Failed, TaskStatus::Finished] {
        assert_eq!(TaskStatus::from_tag(st.tag()), Some(st));
    }
    assert_eq!(TaskStatus::from_tag("paused"), None);
    assert_eq!(TaskStatus::Downloading.rank(), 0);
    assert_eq!(TaskStatus::Finished.rank(), 4);
}

#[test]
fn projection_drops_descriptor() {
    let t = DownloadTask {
        id: 4,
        dl_type: DlType::Current,
        status: TaskStatus::Failed,
        local_path: "l".to_string(),
        cache_json: "[]".to_string(),
        url: "u".to_string(),
        author: "a".to_string(),
        comic_name: "c".to_string(),
        progress: "25.00".to_string(),
        count: 8,
        now_count: 2,
        error_vec: "[\"x\"]".to_string(),
        done: false,
    };
    let p = t.partial();
    assert_eq!(p.id, 4);
    assert_eq!(p.status, TaskStatus::Failed);
    assert_eq!(p.progress, "25.00");
    assert_eq!(p.error_vec, "[\"x\"]");
    assert_eq!(p.now_count, 2);
}
