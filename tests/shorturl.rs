use shorturl::app::{CollisionPolicy, Config};
use shorturl::database::Database;
use shorturl::error::{ConfigError, CONFLICT, INTERNAL_SERVER_ERROR};
use shorturl::shorturl::{ShortPath, ShortUrl, ShortUrlLength, DEFAULT_SHORTENED_LENGTH};
use shorturl::weburl::WebUrl;

fn url(text: &str) -> WebUrl {
    WebUrl::parse(text).unwrap()
}

fn length(n: u8) -> ShortUrlLength {
    ShortUrlLength::new(n).unwrap()
}

#[test]
fn short_url_length_default() {
    assert_eq!(ShortUrlLength::default().value(), DEFAULT_SHORTENED_LENGTH);
}

#[test]
fn short_url_length_zero_is_refused() {
    assert_eq!(ShortUrlLength::new(0), Err(ConfigError::ZeroLength));
    assert_eq!(ShortUrlLength::new(1).unwrap().value(), 1);
    assert_eq!(ShortUrlLength::new(255).unwrap().value(), 255);
}

#[test]
fn config_with_zero_length_is_refused() {
    let r = Config::new(url("http://localhost:7777"), 7777, 0, Database::default());
    assert!(matches!(r, Err(ConfigError::ZeroLength)));
}

#[test]
fn config_with_zero_port_is_refused() {
    let r = Config::new(url("http://localhost:7777"), 0, 5, Database::default());
    assert!(matches!(r, Err(ConfigError::ZeroPort)));
    let r = Config::new(url("http://localhost:7777"), 0, 0, Database::default());
    assert!(matches!(r, Err(ConfigError::ZeroPort)));
}

#[test]
fn config_new_keeps_its_parts() {
    let c = Config::new(url("http://s.io"), 8080, 7, Database::default()).unwrap();
    assert_eq!(c.base_url.as_str(), "http://s.io/");
    assert_eq!(c.port, 8080);
    assert_eq!(c.short_url_length.value(), 7);
}

#[test]
fn config_default_values() {
    let c = Config::default();
    assert_eq!(c.base_url.as_str(), "http://localhost:7777/");
    assert_eq!(c.base_url.as_str(), url("http://localhost:7777").as_str());
    assert_eq!(c.port, 7777);
    assert_eq!(c.short_url_length.value(), 5);
    assert_eq!(c.database.file(), None);
}

#[test]
fn parse_gives_the_serialization() {
    assert_eq!(url("https://a.com").as_str(), "https://a.com/");
    assert_eq!(url("HTTPS://Example.COM/x").as_str(), "https://example.com/x");
    assert!(WebUrl::parse("not a url").is_none());
    assert!(WebUrl::parse("/relative/path").is_none());
}

#[test]
fn join_resolves_against_the_base() {
    let base = url("http://localhost:7777");
    assert_eq!(base.join("abcde").unwrap().as_str(), "http://localhost:7777/abcde");
    let base = url("http://h.io/x/y");
    assert_eq!(base.join("z").unwrap().as_str(), "http://h.io/x/z");
    assert!(url("mailto:a@b.com").join("abcde").is_err());
}

#[test]
fn generate_known_code() {
    let code = ShortUrl::generate(&url("https://example.com"), Some(length(5)));
    assert_eq!(code.as_str(), "3QCsi");
}

#[test]
fn generate_twice_gives_the_same_code() {
    let u = url("https://example.com");
    let a = ShortUrl::generate(&u, Some(length(5)));
    let b = ShortUrl::generate(&u, Some(length(5)));
    assert_eq!(a, b);
    assert_eq!(a.as_str().len(), 5);
}

#[test]
fn generate_respects_the_length() {
    let u = url("https://www.example.com/");
    let full = "daoh4TTMbE6bhN0drruoSkDIJGSNbF7t3";
    for n in 1..=20u8 {
        let code = ShortUrl::generate(&u, Some(length(n)));
        assert_eq!(code.as_str().len(), n as usize);
        assert_eq!(code.as_str(), &full[..n as usize]);
    }
}

#[test]
fn generate_default_length_is_five() {
    let code = ShortUrl::generate(&url("https://example.com"), None);
    assert_eq!(code.as_str(), "3QCsi");
}

#[test]
fn generate_short_encoding_is_kept_whole() {
    let u = url("a:b");
    assert_eq!(u.as_str(), "a:b");
    let code = ShortUrl::generate(&u, Some(length(200)));
    assert_eq!(code.as_str(), "S98Z1");
}

#[test]
fn generate_uses_base62_digits() {
    let code = ShortUrl::generate(&url("https://www.example.com/?q=a b&c=d"), Some(length(40)));
    assert!(code.as_str().chars().all(|c| c.is_ascii_alphanumeric()));
}

#[test]
fn set_then_get_round_trips() {
    let mut db = Database::default();
    let code = ShortPath::new("abc12");
    assert_eq!(db.set(code.clone(), url("https://a.com")), None);
    assert_eq!(db.get(&code).unwrap().as_str(), "https://a.com/");
}

#[test]
fn set_overwrites_and_returns_previous() {
    let mut db = Database::default();
    let code = ShortPath::new("abc12");
    assert_eq!(db.set(code.clone(), url("https://one.com")), None);
    let previous = db.set(code.clone(), url("https://two.com"));
    assert_eq!(previous.unwrap().as_str(), "https://one.com/");
    assert_eq!(db.get(&code).unwrap().as_str(), "https://two.com/");
}

#[test]
fn get_of_unknown_code_is_none() {
    let mut db = Database::default();
    db.set(ShortPath::new("abc12"), url("https://a.com"));
    assert!(db.get(&ShortPath::new("abc1")).is_none());
    assert!(Database::default().get(&ShortPath::new("")).is_none());
}

#[test]
fn shorten_then_resolve() {
    let mut c = Config::default();
    let resp = c.shorten(url("https://a.com")).ok().unwrap();
    assert_eq!(resp.url.as_str(), "https://a.com/");
    assert_eq!(resp.short_url.as_str(), "http://localhost:7777/N8OD1");
    assert!(resp.replaced.is_none());
    let code = ShortPath::new("N8OD1");
    assert_eq!(c.resolve(&code).unwrap().as_str(), "https://a.com/");
}

#[test]
fn resolve_unknown_code_is_none() {
    let c = Config::default();
    assert!(c.resolve(&ShortPath::new("doesNotExist")).is_none());
}

#[test]
fn shorten_same_url_twice_is_no_collision() {
    let mut c = Config::default();
    c.shorten(url("https://a.com")).ok().unwrap();
    let resp = c.shorten(url("https://a.com")).ok().unwrap();
    assert!(resp.replaced.is_none());
}

#[test]
fn colliding_urls_share_a_code_and_the_second_wins() {
    let first = url("https://example.com/twkxvtkk");
    let second = url("https://example.com/tgrlfwmk");
    let a = ShortUrl::generate(&first, None);
    let b = ShortUrl::generate(&second, None);
    assert_eq!(a.as_str(), "Z6ZZi");
    assert_eq!(a, b);
    let mut c = Config::default();
    let r1 = c.shorten(first).ok().unwrap();
    let r2 = c.shorten(second).ok().unwrap();
    assert_eq!(r1.short_url.as_str(), r2.short_url.as_str());
    assert_eq!(r2.replaced.unwrap().as_str(), "https://example.com/twkxvtkk");
    assert_eq!(c.resolve(&a).unwrap().as_str(), "https://example.com/tgrlfwmk");
}

#[test]
fn shorten_with_bad_base_fails_and_changes_nothing() {
    let mut c = Config::new(url("mailto:a@b.com"), 7777, 5, Database::default()).unwrap();
    let r = c.shorten(url("https://a.com"));
    match r {
        Err(e) => assert_eq!(e.error_code, INTERNAL_SERVER_ERROR),
        Ok(_) => panic!("join should fail"),
    }
    assert!(c.resolve(&ShortPath::new("N8OD1")).is_none());
}

#[test]
fn memory_store_writes_no_document() {
    let mut db = Database::default();
    db.set(ShortPath::new("abc12"), url("https://a.com"));
    assert!(matches!(db.to_document(), Ok(None)));
}

#[test]
fn document_lists_the_mapping() {
    let mut db = Database::new(Some("store.toml".to_string()));
    db.set(ShortPath::new("3QCsi"), url("https://example.com"));
    let text = db.to_document().ok().unwrap().unwrap();
    assert!(text.contains("3QCsi = \"https://example.com/\""));
}

#[test]
fn save_then_load_gives_the_same_mapping() {
    let mut db = Database::new(Some("store.toml".to_string()));
    db.set(ShortPath::new("abc12"), url("https://a.com"));
    db.set(ShortPath::new("zz"), url("https://example.com/x?y=1"));
    db.set(ShortPath::new("abc12"), url("https://b.com"));
    let text = db.to_document().ok().unwrap().unwrap();
    let loaded = Database::from_document("store.toml".to_string(), &text);
    assert_eq!(loaded.file(), Some("store.toml"));
    assert_eq!(loaded.get(&ShortPath::new("abc12")).unwrap().as_str(), "https://b.com/");
    assert_eq!(loaded.get(&ShortPath::new("zz")).unwrap().as_str(), "https://example.com/x?y=1");
    assert_eq!(loaded.pairs().len(), 2);
}

#[test]
fn corrupt_document_gives_empty_store() {
    let db = Database::from_document("f".to_string(), "this is = = not toml [");
    assert_eq!(db.pairs().len(), 0);
    assert_eq!(db.file(), Some("f"));
}

#[test]
fn document_with_a_bad_url_gives_empty_store() {
    let db = Database::from_document("f".to_string(), "a = \"https://a.com\"\nb = \"not a url\"\n");
    assert_eq!(db.pairs().len(), 0);
    assert!(db.get(&ShortPath::new("a")).is_none());
}

#[test]
fn document_values_are_read_as_urls() {
    let db = Database::from_document("f".to_string(), "a = \"HTTPS://A.COM\"\n");
    assert_eq!(db.get(&ShortPath::new("a")).unwrap().as_str(), "https://a.com/");
}

#[test]
fn empty_document_gives_empty_store() {
    let db = Database::from_document("f".to_string(), "");
    assert_eq!(db.pairs().len(), 0);
}

#[test]
fn internal_error_has_status_500() {
    let e = shorturl::error::AppError::internal_error("boom".to_string());
    assert_eq!(e.error_code, 500);
    assert_eq!(e.message, "boom");
}

#[test]
fn reject_policy_refuses_a_collision() {
    let mut c = Config::default();
    assert_eq!(c.collision_policy, CollisionPolicy::Overwrite);
    c.collision_policy = CollisionPolicy::Reject;
    c.shorten(url("https://example.com/twkxvtkk")).ok().unwrap();
    match c.shorten(url("https://example.com/tgrlfwmk")) {
        Err(e) => assert_eq!(e.error_code, CONFLICT),
        Ok(_) => panic!("collision should be refused"),
    }
    let code = ShortPath::new("Z6ZZi");
    assert_eq!(c.resolve(&code).unwrap().as_str(), "https://example.com/twkxvtkk");
}

#[test]
fn reject_policy_accepts_the_same_url_again() {
    let mut c = Config::default();
    c.collision_policy = CollisionPolicy::Reject;
    c.shorten(url("https://a.com")).ok().unwrap();
    let resp = c.shorten(url("https://a.com")).ok().unwrap();
    assert_eq!(resp.short_url.as_str(), "http://localhost:7777/N8OD1");
    assert!(resp.replaced.is_none());
}
