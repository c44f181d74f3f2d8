use ragger_api::youdao::{YoudaoConfig, YoudaoResponse, YoudaoSearcher, YoudaoValues};

fn config() -> YoudaoConfig {
    YoudaoConfig { appkey: "appkey".to_string(), appsecret: "secret".to_string() }
}

fn strings(items: &[&str]) -> Vec<String> {
    items.iter().map(|s| s.to_string()).collect()
}

#[test]
fn build_sign_hashes_the_concatenation() {
    let sign = YoudaoSearcher::build_sign("salt-1", "hello", "appkey", "1700000000", "secret");
    assert_eq!(sign, "75f64d686f65e49a26f1e9c661bd3340cf1f0488ef71e793fff9fd2933077560");
}

#[test]
fn build_sign_hashes_utf8_bytes() {
    let sign = YoudaoSearcher::build_sign("s", "你好", "k", "1", "x");
    assert_eq!(sign, "0bd1147c266262eef80570142b16e2435a4cd9687704c727b84b4893efe352f7");
}

#[test]
fn build_sign_of_empty_input() {
    let sign = YoudaoSearcher::build_sign("", "", "", "", "");
    assert_eq!(sign, "e3b0c44298fc1c149afbf4c8996fb92427ae41e4649b934ca495991b7852b855");
}

#[test]
fn build_params_with_lists_the_form_fields() {
    let searcher = YoudaoSearcher::new(config());
    let params = searcher.build_params_with("hello".to_string(), "salt-1".to_string(), 1700000000);
    let expected: Vec<(String, String)> = vec![
        ("sign", "75f64d686f65e49a26f1e9c661bd3340cf1f0488ef71e793fff9fd2933077560"),
        ("q", "hello"),
        ("from", "zh-CHS"),
        ("to", "en"),
        ("appKey", "2f3a48a702316da0"),
        ("salt", "salt-1"),
        ("signType", "v3"),
        ("curtime", "1700000000"),
    ]
    .into_iter()
    .map(|(k, v)| (k.to_string(), v.to_string()))
    .collect();
    assert_eq!(params, expected);
}

#[test]
fn build_params_by_word_signs_its_own_salt_and_time() {
    let searcher = YoudaoSearcher::new(config());
    let params = searcher.build_params_by_word("hello".to_string());
    assert_eq!(params.len(), 8);
    let salt = params[5].1.clone();
    let time = params[7].1.clone();
    assert_eq!(params[5].0, "salt");
    assert_eq!(params[7].0, "curtime");
    assert_eq!(salt.len(), 36);
    for (i, c) in salt.chars().enumerate() {
        if [8, 13, 18, 23].contains(&i) {
            assert_eq!(c, '-');
        } else {
            assert!(c.is_ascii_digit() || ('a'..='f').contains(&c));
        }
    }
    assert_eq!(salt.chars().nth(14), Some('4'));
    assert!(['8', '9', 'a', 'b'].contains(&salt.chars().nth(19).unwrap()));
    let t: i64 = time.parse().unwrap();
    assert!(t > 1_600_000_000);
    let sign = YoudaoSearcher::build_sign(&salt, "hello", "appkey", &time, "secret");
    assert_eq!(params[0], ("sign".to_string(), sign));
    assert_eq!(params[1], ("q".to_string(), "hello".to_string()));
}

#[test]
fn build_params_by_word_uses_a_new_salt_each_time() {
    let searcher = YoudaoSearcher::new(config());
    let a = searcher.build_params_by_word("hello".to_string());
    let b = searcher.build_params_by_word("hello".to_string());
    assert_ne!(a[5].1, b[5].1);
}

fn response() -> YoudaoResponse {
    YoudaoResponse {
        web: vec![
            YoudaoValues { value: strings(&["你好", "喂"]), key: "Hello".to_string() },
            YoudaoValues { value: strings(&["地狱"]), key: "Hell".to_string() },
            YoudaoValues { value: strings(&["另一个"]), key: "hello".to_string() },
        ],
    }
}

#[test]
fn find_translation_compares_the_lowercase_phrase() {
    let found = YoudaoSearcher::find_translation(&response(), &"hello".to_string());
    assert_eq!(found, Ok(strings(&["你好", "喂"])));
    let found = YoudaoSearcher::find_translation(&response(), &"hell".to_string());
    assert_eq!(found, Ok(strings(&["地狱"])));
}

#[test]
fn find_translation_fails_without_a_match() {
    assert_eq!(YoudaoSearcher::find_translation(&response(), &"Hello".to_string()), Err(()));
    assert_eq!(YoudaoSearcher::find_translation(&response(), &"world".to_string()), Err(()));
    let empty = YoudaoResponse { web: Vec::new() };
    assert_eq!(YoudaoSearcher::find_translation(&empty, &"hello".to_string()), Err(()));
}

#[test]
fn find_translation_lowercases_non_ascii_phrases() {
    let r = YoudaoResponse {
        web: vec![YoudaoValues { value: strings(&["街道"]), key: "STRASSE".to_string() }],
    };
    assert_eq!(YoudaoSearcher::find_translation(&r, &"strasse".to_string()), Ok(strings(&["街道"])));
    let r = YoudaoResponse {
        web: vec![YoudaoValues { value: strings(&["城市"]), key: "ÉTÉ".to_string() }],
    };
    assert_eq!(YoudaoSearcher::find_translation(&r, &"été".to_string()), Ok(strings(&["城市"])));
}
