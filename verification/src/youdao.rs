use vstd::prelude::*;
use vstd::utf8::encode_utf8;

use crypto::digest::Digest;
use crypto::sha2::Sha256;

use crate::explanations::strings_view;
use crate::text::{decimal, decimal_string, hex_lower, lowercase, to_lowercase};

verus! {

/// The application key and secret with which queries to the Youdao
/// dictionary are signed.
pub struct YoudaoConfig {
    pub appkey: String,
    pub appsecret: String,
}

/// Looks words up in the Youdao dictionary.
pub struct YoudaoSearcher {
    config: YoudaoConfig,
}

/// One entry of the `web` part of a Youdao answer: a phrase and its
/// translations.
pub struct YoudaoValues {
    pub value: Vec<String>,
    pub key: String,
}

/// The part of a Youdao answer that a lookup reads.
pub struct YoudaoResponse {
    pub web: Vec<YoudaoValues>,
}

/// The SHA-256 digest of `data`.
pub uninterp spec fn sha256_digest(data: Seq<u8>) -> Seq<u8>;

/// The signature of `text`: the SHA-256 digest of its UTF-8 bytes, in
/// lowercase hexadecimal.
pub open spec fn sign_of(text: Seq<char>) -> Seq<char> {
    hex_lower(sha256_digest(encode_utf8(text)))
}

/// What is signed: the application key, the word, the salt, the time and the
/// application secret, one after the other.
pub open spec fn sign_input(
    app_key: Seq<char>,
    word: Seq<char>,
    salt: Seq<char>,
    cur_time: Seq<char>,
    app_sec: Seq<char>,
) -> Seq<char> {
    app_key + word + salt + cur_time + app_sec
}

/// The name and value of a form field.
pub open spec fn pair_view(p: (String, String)) -> (Seq<char>, Seq<char>) {
    (p.0@, p.1@)
}

/// The form fields of the query for `word`, signed with `config` over
/// `salt` and `cur_time`.
pub open spec fn query_params(
    config: YoudaoConfig,
    word: Seq<char>,
    salt: Seq<char>,
    cur_time: Seq<char>,
) -> Seq<(Seq<char>, Seq<char>)> {
    seq![
        ("sign"@, sign_of(sign_input(config.appkey@, word, salt, cur_time, config.appsecret@))),
        ("q"@, word),
        ("from"@, "zh-CHS"@),
        ("to"@, "en"@),
        ("appKey"@, "2f3a48a702316da0"@),
        ("salt"@, salt),
        ("signType"@, "v3"@),
        ("curtime"@, cur_time),
    ]
}

/// The translations of the first entry of `web`, from position `i` on,
/// whose phrase in lowercase is `word`.
pub open spec fn translation_from(word: Seq<char>, web: Seq<YoudaoValues>, i: int) -> Option<
    Seq<Seq<char>>,
>
    decreases web.len() - i,
{
    if i < 0 || i >= web.len() {
        None
    } else if lowercase(web[i].key@) == word {
        Some(strings_view(web[i].value@))
    } else {
        translation_from(word, web, i + 1)
    }
}

/// A lowercase hexadecimal digit.
pub open spec fn is_lower_hex_digit(c: char) -> bool {
    ('0' <= c && c <= '9') || ('a' <= c && c <= 'f')
}

/// The hyphenated lowercase text of a random (version 4, RFC 4122 variant)
/// UUID: 36 characters, hyphens at positions 8, 13, 18 and 23, lowercase
/// hexadecimal digits elsewhere, the version digit `4` at position 14 and
/// one of `8`, `9`, `a`, `b` at position 19.
pub open spec fn is_v4_uuid_text(s: Seq<char>) -> bool {
    &&& s.len() == 36
    &&& forall|i: int|
        0 <= i < 36 ==> if i == 8 || i == 13 || i == 18 || i == 23 {
            #[trigger] s[i] == '-'
        } else {
            is_lower_hex_digit(s[i])
        }
    &&& s[14] == '4'
    &&& (s[19] == '8' || s[19] == '9' || s[19] == 'a' || s[19] == 'b')
}


/// The text that is signed is the five parts exactly as given, one after the
/// other: each part can be read back unchanged at its place.
pub proof fn lemma_sign_input_parts(
    app_key: Seq<char>,
    word: Seq<char>,
    salt: Seq<char>,
    cur_time: Seq<char>,
    app_sec: Seq<char>,
)
    ensures
        ({
            let t = sign_input(app_key, word, salt, cur_time, app_sec);
            let a = app_key.len() as int;
            let b = a + word.len();
            let c = b + salt.len();
            let d = c + cur_time.len();
            &&& t.len() == d + app_sec.len()
            &&& t.subrange(0, a) == app_key
            &&& t.subrange(a, b) == word
            &&& t.subrange(b, c) == salt
            &&& t.subrange(c, d) == cur_time
            &&& t.subrange(d, t.len() as int) == app_sec
            &&& t == app_key + word + salt + cur_time + app_sec
        }),
{
    let t = sign_input(app_key, word, salt, cur_time, app_sec);
    let a = app_key.len() as int;
    let b = a + word.len();
    let c = b + salt.len();
    let d = c + cur_time.len();
    assert(t.subrange(0, a) =~= app_key);
    assert(t.subrange(a, b) =~= word);
    assert(t.subrange(b, c) =~= salt);
    assert(t.subrange(c, d) =~= cur_time);
    assert(t.subrange(d, t.len() as int) =~= app_sec);
}

/// The query's form fields, in order: the signature over the configured key,
/// the word, the salt, the time and the configured secret, each exactly as
/// given; then the word, the two languages, the fixed application key, the
/// salt, the signature type and the time.
pub proof fn lemma_query_params_fields(
    config: YoudaoConfig,
    word: Seq<char>,
    salt: Seq<char>,
    cur_time: Seq<char>,
)
    ensures
        ({
            let q = query_params(config, word, salt, cur_time);
            &&& q.len() == 8
            &&& q[0] == ("sign"@, sign_of(config.appkey@ + word + salt + cur_time + config.appsecret@))
            &&& q[1] == ("q"@, word)
            &&& q[2] == ("from"@, "zh-CHS"@)
            &&& q[3] == ("to"@, "en"@)
            &&& q[4] == ("appKey"@, "2f3a48a702316da0"@)
            &&& q[5] == ("salt"@, salt)
            &&& q[6] == ("signType"@, "v3"@)
            &&& q[7] == ("curtime"@, cur_time)
        }),
{
    lemma_sign_input_parts(config.appkey@, word, salt, cur_time, config.appsecret@);
}

/// Looking up `word` from position `i` gives the translations of the first
/// entry from `i` on whose lowercased phrase is exactly `word`, and nothing
/// exactly when no entry from `i` on has that phrase.
pub proof fn lemma_translation_from_first_match(word: Seq<char>, web: Seq<YoudaoValues>, i: int)
    requires
        0 <= i <= web.len(),
    ensures
        translation_from(word, web, i) is None <==> forall|j: int|
            i <= j < web.len() ==> lowercase(#[trigger] web[j].key@) != word,
        translation_from(word, web, i) matches Some(v) ==> exists|k: int|
            i <= k < web.len() && lowercase(#[trigger] web[k].key@) == word && v == strings_view(
                web[k].value@,
            ) && forall|j: int| i <= j < k ==> lowercase(#[trigger] web[j].key@) != word,
    decreases web.len() - i,
{
    if i < web.len() {
        lemma_translation_from_first_match(word, web, i + 1);
        if lowercase(web[i].key@) != word {
            if let Some(v) = translation_from(word, web, i) {
                let k = choose|k: int|
                    i + 1 <= k < web.len() && lowercase(#[trigger] web[k].key@) == word && v
                        == strings_view(web[k].value@) && forall|j: int|
                        i + 1 <= j < k ==> lowercase(#[trigger] web[j].key@) != word;
                assert forall|j: int| i <= j < k implies lowercase(#[trigger] web[j].key@) != word by {
                    if j > i {
                    }
                }
            }
        }
    }
}

/// A lookup gives the translations of the first `web` entry whose phrase,
/// lowercased, is exactly the word, and nothing exactly when no entry's is.
pub proof fn lemma_translation_is_first_exact_match(word: Seq<char>, web: Seq<YoudaoValues>)
    ensures
        translation_from(word, web, 0) is None <==> forall|j: int|
            0 <= j < web.len() ==> lowercase(#[trigger] web[j].key@) != word,
        translation_from(word, web, 0) matches Some(v) ==> exists|k: int|
            0 <= k < web.len() && lowercase(#[trigger] web[k].key@) == word && v == strings_view(
                web[k].value@,
            ) && forall|j: int| 0 <= j < k ==> lowercase(#[trigger] web[j].key@) != word,
{
    lemma_translation_from_first_match(word, web, 0);
}

/// `Sha256::new`, `input_str` and `result_str` of rust-crypto: the SHA-256
/// digest of the UTF-8 bytes of `text`, written as 64 lowercase hexadecimal
/// digits. The digest itself is named, not spelled out.
#[verifier::external_body]
fn sha256_hex(text: &str) -> (res: String)
    ensures
        res@ == hex_lower(sha256_digest(encode_utf8(text@))),
        res@.len() == 64,
{
    let mut sha = Sha256::new();
    sha.input_str(text);
    sha.result_str()
}

/// `uuid::Uuid::new_v4().to_string()`: a random version 4 UUID in its
/// hyphenated lowercase form. Which one comes out is chance, and not stated.
#[verifier::external_body]
fn new_salt() -> (res: String)
    ensures
        is_v4_uuid_text(res@),
{
    uuid::Uuid::new_v4().to_string()
}

/// `chrono::Utc::now().timestamp()`: the current time in seconds since the
/// Unix epoch. It depends on the clock, so nothing is stated of it.
#[verifier::external_body]
fn current_timestamp() -> (res: i64) {
    chrono::Utc::now().timestamp()
}

impl YoudaoSearcher {
    /// The configuration the searcher signs with.
    pub closed spec fn config(&self) -> YoudaoConfig {
        self.config
    }

    pub fn new(config: YoudaoConfig) -> (s: YoudaoSearcher)
        ensures
            s.config() == config,
    {
        YoudaoSearcher { config }
    }

    /// Signs a query: the SHA-256 digest, in lowercase hexadecimal, of
    /// `app_key`, `word`, `salt`, `cur_time` and `app_sec` put one after the
    /// other.
    pub fn build_sign(salt: &str, word: &str, app_key: &str, cur_time: &str, app_sec: &str) -> (res:
        String)
        ensures
            res@ == sign_of(sign_input(app_key@, word@, salt@, cur_time@, app_sec@)),
            res@ == sign_of(app_key@ + word@ + salt@ + cur_time@ + app_sec@),
            res@.len() == 64,
    {
        let mut base_str = String::from_str(app_key);
        base_str.append(word);
        base_str.append(salt);
        base_str.append(cur_time);
        base_str.append(app_sec);
        assert(base_str@ =~= sign_input(app_key@, word@, salt@, cur_time@, app_sec@));
        sha256_hex(base_str.as_str())
    }

    /// The form fields of the query for `word`, salted with `salt` and timed
    /// at `cur_time` seconds since the Unix epoch.
    pub fn build_params_with(&self, word: String, salt: String, cur_time: i64) -> (res: Vec<
        (String, String),
    >)
        ensures
            res@.map_values(|p: (String, String)| pair_view(p)) == query_params(
                self.config(),
                word@,
                salt@,
                decimal(cur_time as int),
            ),
            res@.len() == 8,
            res@[0].0@ == "sign"@,
            res@[0].1@ == sign_of(
                self.config().appkey@ + word@ + salt@ + decimal(cur_time as int)
                    + self.config().appsecret@,
            ),
            res@[1].0@ == "q"@ && res@[1].1@ == word@,
            res@[5].0@ == "salt"@ && res@[5].1@ == salt@,
            res@[7].0@ == "curtime"@ && res@[7].1@ == decimal(cur_time as int),
    {
        proof {
            reveal_strlit("sign");
            reveal_strlit("q");
            reveal_strlit("from");
            reveal_strlit("zh-CHS");
            reveal_strlit("to");
            reveal_strlit("en");
            reveal_strlit("appKey");
            reveal_strlit("2f3a48a702316da0");
            reveal_strlit("salt");
            reveal_strlit("signType");
            reveal_strlit("v3");
            reveal_strlit("curtime");
        }
        let time_text = decimal_string(cur_time);
        let sign = YoudaoSearcher::build_sign(
            salt.as_str(),
            word.as_str(),
            self.config.appkey.as_str(),
            time_text.as_str(),
            self.config.appsecret.as_str(),
        );
        let mut map: Vec<(String, String)> = Vec::new();
        map.push((String::from_str("sign"), sign));
        map.push((String::from_str("q"), word));
        map.push((String::from_str("from"), String::from_str("zh-CHS")));
        map.push((String::from_str("to"), String::from_str("en")));
        map.push((String::from_str("appKey"), String::from_str("2f3a48a702316da0")));
        map.push((String::from_str("salt"), salt));
        map.push((String::from_str("signType"), String::from_str("v3")));
        map.push((String::from_str("curtime"), time_text));
        proof {
            lemma_query_params_fields(self.config(), word@, salt@, decimal(cur_time as int));
        }
        assert(map@.map_values(|p: (String, String)| pair_view(p)) =~= query_params(
            self.config(),
            word@,
            salt@,
            decimal(cur_time as int),
        ));
        map
    }

    /// The form fields of the query for `word`, salted with a fresh random
    /// version 4 UUID in hyphenated lowercase text and timed at the current
    /// time.
    pub fn build_params_by_word(&self, word: String) -> (res: Vec<(String, String)>)
        ensures
            exists|salt: Seq<char>, cur_time: i64|
                is_v4_uuid_text(salt) && res@.map_values(|p: (String, String)| pair_view(p))
                    == query_params(self.config(), word@, salt, decimal(cur_time as int)),
    {
        let salt = new_salt();
        let cur_time = current_timestamp();
        let ghost salt_view = salt@;
        let res = self.build_params_with(word, salt, cur_time);
        assert(is_v4_uuid_text(salt_view) && res@.map_values(|p: (String, String)| pair_view(p))
            == query_params(self.config(), word@, salt_view, decimal(cur_time as int)));
        res
    }

    /// The translations that `response` gives for `word`: those of its first
    /// `web` entry whose phrase, in lowercase, is `word`; an error where no
    /// entry has it.
    pub fn find_translation(response: &YoudaoResponse, word: &String) -> (r: Result<Vec<String>, ()>)
        ensures
            match translation_from(word@, response.web@, 0) {
                Some(v) => r matches Ok(values) && strings_view(values@) == v,
                None => r is Err,
            },
            r is Err <==> forall|j: int|
                0 <= j < response.web@.len() ==> lowercase(#[trigger] response.web@[j].key@) != word@,
            r matches Ok(values) ==> exists|i: int|
                0 <= i < response.web@.len() && lowercase(#[trigger] response.web@[i].key@) == word@
                    && strings_view(values@) == strings_view(response.web@[i].value@) && forall|j: int|
                    0 <= j < i ==> lowercase(#[trigger] response.web@[j].key@) != word@,
    {
        proof {
            lemma_translation_is_first_exact_match(word@, response.web@);
        }
        let n = response.web.len();
        for i in 0..n
            invariant
                n == response.web@.len(),
                translation_from(word@, response.web@, 0) == translation_from(
                    word@,
                    response.web@,
                    i as int,
                ),
        {
            let entry = &response.web[i];
            let key = to_lowercase(entry.key.as_str());
            if *word == key {
                let values = entry.value.clone();
                assert(strings_view(values@) =~= strings_view(entry.value@)) by {
                    assert forall|k: int| 0 <= k < values@.len() implies values@[k] == entry.value@[k] by {
                        assert(cloned::<String>(entry.value[k], values[k]));
                    }
                }
                proof {
                    lemma_translation_is_first_exact_match(word@, response.web@);
                    let v = strings_view(entry.value@);
                    assert(translation_from(word@, response.web@, i as int) == Some(v));
                    let k = choose|k: int|
                        0 <= k < response.web@.len() && lowercase(#[trigger] response.web@[k].key@)
                            == word@ && v == strings_view(response.web@[k].value@) && forall|j: int|
                            0 <= j < k ==> lowercase(#[trigger] response.web@[j].key@) != word@;
                    assert(strings_view(values@) == strings_view(response.web@[k].value@));
                }
                return Ok(values);
            }
        }
        Err(())
    }
}

} // verus!
