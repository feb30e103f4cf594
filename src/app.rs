use vstd::prelude::*;

use crate::database::Database;
use crate::error::{AppError, ConfigError, CONFLICT, INTERNAL_SERVER_ERROR};
use crate::shorturl::{code_of, ShortPath, ShortUrl, ShortUrlLength};
use crate::weburl::{url_joined, WebUrl};

verus! {

/// The port the service listens on when none is configured.
pub const DEFAULT_PORT: u16 = 7777;

/// What `shorten` does when a URL's code already stands for another URL.
#[derive(PartialEq, Eq, Structural, Debug, Clone, Copy)]
pub enum CollisionPolicy {
    /// The code then stands for the new URL; the old one is handed back.
    Overwrite,
    /// The request fails and the store keeps the old URL.
    Reject,
}

/// The service's state: where short URLs point, the port, the length of the
/// codes, and the store of codes.
#[derive(Debug)]
pub struct Config {
    pub base_url: WebUrl,
    pub port: u16,
    pub short_url_length: ShortUrlLength,
    pub database: Database,
    pub collision_policy: CollisionPolicy,
}

/// What `shorten` hands back: the long URL, its short URL, and the URL that
/// the code pointed to before, where it pointed elsewhere.
#[derive(Debug)]
pub struct Shortened {
    pub url: WebUrl,
    pub short_url: ShortUrl,
    pub replaced: Option<WebUrl>,
}

impl Default for Config {
    fn default() -> (r: Config)
        ensures
            r.base_url@ == "http://localhost:7777/"@,
            r.port == DEFAULT_PORT,
            r.short_url_length@ == 5,
            r.database.wf(),
            r.database@ == Map::<Seq<char>, Seq<char>>::empty(),
            r.database.file_path() is None,
            r.collision_policy == CollisionPolicy::Overwrite,
    {
        Config {
            base_url: WebUrl::from_serialization("http://localhost:7777/"),
            port: DEFAULT_PORT,
            short_url_length: ShortUrlLength::default(),
            database: Database::new(None),
            collision_policy: CollisionPolicy::Overwrite,
        }
    }
}

impl Config {
    /// A configuration from its parts, which overwrites on collisions; a
    /// zero port or a zero code length is refused, the port checked first.
    pub fn new(base_url: WebUrl, port: u16, short_url_length: u8, database: Database) -> (r: Result<
        Config,
        ConfigError,
    >)
        ensures
            port == 0 ==> r == Err::<Config, ConfigError>(ConfigError::ZeroPort),
            port != 0 && short_url_length == 0 ==> r == Err::<Config, ConfigError>(
                ConfigError::ZeroLength,
            ),
            port != 0 && short_url_length != 0 ==> (r matches Ok(c) && c.base_url@ == base_url@
                && c.port == port && c.short_url_length@ == short_url_length as nat && c.database
                == database && c.collision_policy == CollisionPolicy::Overwrite),
    {
        if port == 0 {
            return Err(ConfigError::ZeroPort);
        }
        match ShortUrlLength::new(short_url_length) {
            Ok(length) => Ok(
                Config {
                    base_url,
                    port,
                    short_url_length: length,
                    database,
                    collision_policy: CollisionPolicy::Overwrite,
                },
            ),
            Err(e) => Err(e),
        }
    }

    /// Shortens `url`: its code is generated with the configured length, the
    /// short URL is the base URL joined with the code, and the store then
    /// keeps `url` under the code, in place of what it held there. Where the
    /// join fails, nothing changes and an internal error is returned. Where
    /// the code stands for another URL and the policy is to reject, nothing
    /// changes and a conflict is returned.
    pub fn shorten(&mut self, url: WebUrl) -> (r: Result<Shortened, AppError>)
        requires
            old(self).database.wf(),
        ensures
            final(self).database.wf(),
            ({
                let code = code_of(url@, old(self).short_url_length@);
                let held = old(self).database@;
                match url_joined(old(self).base_url@, code) {
                    None => {
                        &&& r matches Err(e) && e.error_code == INTERNAL_SERVER_ERROR
                        &&& *final(self) == *old(self)
                    },
                    Some(s) => if old(self).collision_policy == CollisionPolicy::Reject
                        && held.contains_key(code) && held[code] != url@ {
                        &&& r matches Err(e) && e.error_code == CONFLICT
                        &&& *final(self) == *old(self)
                    } else {
                        &&& r matches Ok(resp)
                        &&& resp.url@ == url@
                        &&& resp.short_url@ == s
                        &&& match resp.replaced {
                            Some(p) => held.contains_key(code) && held[code] == p@ && p@ != url@,
                            None => !held.contains_key(code) || held[code] == url@,
                        }
                        &&& final(self).database@ == held.insert(code, url@)
                        &&& final(self).database.file_path() == old(self).database.file_path()
                        &&& final(self).base_url == old(self).base_url
                        &&& final(self).port == old(self).port
                        &&& final(self).short_url_length == old(self).short_url_length
                        &&& final(self).collision_policy == old(self).collision_policy
                    },
                }
            }),
    {
        let code = ShortUrl::generate(&url, Some(self.short_url_length));
        let short_url = match self.base_url.join(code.as_str()) {
            Ok(u) => u,
            Err(message) => return Err(AppError::internal_error(message)),
        };
        if self.collision_policy == CollisionPolicy::Reject {
            match self.database.get(&code) {
                Some(held) => if *held != url {
                    return Err(
                        AppError {
                            error_code: CONFLICT,
                            message: "short code already stands for another URL".to_owned(),
                        },
                    );
                },
                None => {},
            }
        }
        let previous = self.database.set(code, url.clone());
        let replaced = match previous {
            Some(p) => if p == url {
                None
            } else {
                Some(p)
            },
            None => None,
        };
        Ok(Shortened { url, short_url: ShortUrl::from(short_url), replaced })
    }

    /// The long URL that `code` stands for, if the store holds it.
    pub fn resolve(&self, code: &ShortPath) -> (r: Option<WebUrl>)
        requires
            self.database.wf(),
        ensures
            match r {
                Some(u) => self.database@.contains_key(code@) && self.database@[code@] == u@,
                None => !self.database@.contains_key(code@),
            },
    {
        match self.database.get(code) {
            Some(u) => Some(u.clone()),
            None => None,
        }
    }
}

} // verus!
