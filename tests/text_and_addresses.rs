use comic_dl::{
    decimal_string, extract_number_manual, get_second_level_domain, get_url_query, join_strings,
    lookup_query, parse_count, second_level_of_host, split_string, ErrorMsg, Setting,
};

#[test]
fn leading_numbers() {
    assert_eq!(extract_number_manual("第12话"), Some(12));
    assert_eq!(extract_number_manual("第3卷 12"), Some(3));
    assert_eq!(extract_number_manual("番外篇"), Some(0));
    assert_eq!(extract_number_manual(""), Some(0));
    assert_eq!(extract_number_manual("x4294967295"), Some(4294967295));
    assert_eq!(extract_number_manual("x4294967296"), Some(0));
}

#[test]
fn splitting_like_std() {
    assert_eq!(split_string("www.antbyw.com", "."), vec!["www", "antbyw", "com"]);
    assert_eq!(split_string("a--b----c", "--"), vec!["a", "b", "", "c"]);
    assert_eq!(split_string("", "."), vec![""]);
    assert_eq!(split_string("ab", ""), vec!["", "a", "b", ""]);
    assert_eq!(split_string(".a.", "."), vec!["", "a", ""]);
}

#[test]
fn joining() {
    assert_eq!(join_strings(vec!["www", "antbyw", "com"], "."), "www.antbyw.com");
    assert_eq!(join_strings(vec![], "."), "");
    assert_eq!(join_strings(vec!["one"], ", "), "one");
}

#[test]
fn query_values() {
    let url = "https://www.antbyw.com/plugin.php?id=jameson_manhua&a=read&kuid=169197&zjid=1218556";
    assert_eq!(get_url_query(url, "zjid"), "1218556");
    assert_eq!(get_url_query(url, "kuid"), "169197");
    assert_eq!(get_url_query(url, "page"), "");
    assert_eq!(get_url_query("not a url", "kuid"), "");
    let pairs = vec![("a".to_string(), "1".to_string()), ("a".to_string(), "2".to_string())];
    assert_eq!(lookup_query(&pairs, "a"), Some("1".to_string()));
    assert_eq!(lookup_query(&pairs, "b"), None);
}

#[test]
fn second_level_domains() {
    assert_eq!(get_second_level_domain("https://www.antbyw.com/plugin.php?kuid=1"), Some("antbyw".to_string()));
    assert_eq!(get_second_level_domain("https://mangadex.org/title/x/y"), Some("mangadex".to_string()));
    assert_eq!(get_second_level_domain("https://localhost/"), None);
    assert_eq!(get_second_level_domain("nonsense"), None);
    assert_eq!(second_level_of_host("a.b.c"), Some("b".to_string()));
    assert_eq!(second_level_of_host("c"), None);
}

#[test]
fn counts_and_settings() {
    assert_eq!(parse_count("10"), Some(10));
    assert_eq!(parse_count("+3"), Some(3));
    assert_eq!(parse_count(""), None);
    assert_eq!(parse_count("+"), None);
    assert_eq!(parse_count("1x"), None);
    assert_eq!(parse_count("18446744073709551615"), Some(u64::MAX));
    assert_eq!(parse_count("18446744073709551616"), None);
    let d = Setting::defaults("/tmp/dl/".to_string());
    assert_eq!(d.task_limit(), 1);
    assert_eq!(d.image_limit(), 10);
    assert_eq!(d.timeout_secs(), 5);
    assert_eq!(d.retry_count(), 3);
    let odd = Setting { concurrent_task: "two".to_string(), concurrent_img: "4".to_string(), ..d };
    assert_eq!(odd.task_limit(), 1);
    assert_eq!(odd.image_limit(), 4);
}

#[test]
fn decimal_and_messages() {
    assert_eq!(decimal_string(0), "0");
    assert_eq!(decimal_string(1207), "1207");
    assert_eq!(ErrorMsg::new("get home directory failed!").to_string(), "get home directory failed!");
}
