use vstd::prelude::*;

use crate::error::ConfigError;
use crate::weburl::WebUrl;

verus! {

/// The text that `base_62::base62::encode` gives of the UTF-8 bytes of a text.
pub uninterp spec fn base62_text(text: Seq<char>) -> Seq<char>;

/// A character of the base-62 alphabet `[0-9A-Za-z]`.
pub open spec fn is_base62_digit(c: char) -> bool {
    ('0' <= c && c <= '9') || ('A' <= c && c <= 'Z') || ('a' <= c && c <= 'z')
}

/// Relies on `base_62::base62::encode`: the empty input gives the empty text;
/// otherwise the input, with a leading byte 1, is read as a big-endian number
/// and written in base 62, so there are more digits than input bytes (and so
/// than input characters), each one from the alphabet.
#[verifier::external_body]
fn encode_base62(text: &str) -> (r: String)
    ensures
        r@ == base62_text(text@),
        text@.len() == 0 ==> r@.len() == 0,
        text@.len() > 0 ==> r@.len() > text@.len(),
        forall|i: int| 0 <= i < r@.len() ==> is_base62_digit(#[trigger] r@[i]),
{
    base_62::base62::encode(text.as_bytes())
}

/// The code of length at most `length` that stands for the URL `text`: the
/// first `length` digits of the base-62 encoding of its bytes.
pub open spec fn code_of(text: Seq<char>, length: nat) -> Seq<char> {
    let digits = base62_text(text);
    if length <= digits.len() {
        digits.take(length as int)
    } else {
        digits
    }
}

/// The length of the generated codes when none is configured.
pub const DEFAULT_SHORTENED_LENGTH: u8 = 5;

/// The length of a generated code: at least one character.
#[derive(PartialEq, Eq, Structural, PartialOrd, Ord, Clone, Copy, Debug, Hash)]
pub struct ShortUrlLength(u8);

impl View for ShortUrlLength {
    type V = nat;

    closed spec fn view(&self) -> nat {
        self.0 as nat
    }
}

impl ShortUrlLength {
    #[verifier::type_invariant]
    spec fn positive(self) -> bool {
        self.0 >= 1
    }

    /// A length of `length` characters; zero is refused.
    pub fn new(length: u8) -> (r: Result<ShortUrlLength, ConfigError>)
        ensures
            length >= 1 ==> (r matches Ok(l) && l@ == length as nat),
            length == 0 ==> r == Err::<ShortUrlLength, ConfigError>(ConfigError::ZeroLength),
    {
        if length > 0 {
            Ok(ShortUrlLength(length))
        } else {
            Err(ConfigError::ZeroLength)
        }
    }

    /// The number of characters.
    pub fn value(&self) -> (r: u8)
        ensures
            r as nat == self@,
            r >= 1,
    {
        proof {
            use_type_invariant(self);
        }
        self.0
    }
}

impl Default for ShortUrlLength {
    fn default() -> (r: ShortUrlLength)
        ensures
            r@ == DEFAULT_SHORTENED_LENGTH as nat,
    {
        ShortUrlLength(DEFAULT_SHORTENED_LENGTH)
    }
}

/// A short code: the key under which a long URL is kept.
#[derive(Debug, Hash)]
pub struct ShortPath(String);

impl View for ShortPath {
    type V = Seq<char>;

    closed spec fn view(&self) -> Seq<char> {
        self.0@
    }
}

impl Clone for ShortPath {
    fn clone(&self) -> (r: ShortPath)
        ensures
            r@ == self@,
    {
        ShortPath(self.0.clone())
    }
}

impl PartialEq for ShortPath {
    fn eq(&self, other: &ShortPath) -> (r: bool)
        ensures
            r == (self@ == other@),
    {
        self.0 == other.0
    }
}

impl vstd::std_specs::cmp::PartialEqSpecImpl for ShortPath {
    open spec fn obeys_eq_spec() -> bool {
        true
    }

    open spec fn eq_spec(&self, other: &ShortPath) -> bool {
        self@ == other@
    }
}

impl Eq for ShortPath {}

impl ShortPath {
    /// The code `text`, as it stands.
    pub fn new(text: &str) -> (r: ShortPath)
        ensures
            r@ == text@,
    {
        ShortPath(text.to_owned())
    }

    /// The text of the code.
    pub fn as_str(&self) -> (r: &str)
        ensures
            r@ == self@,
    {
        self.0.as_str()
    }
}

/// A full short URL: the configured base URL joined with a code.
#[derive(Debug)]
pub struct ShortUrl(pub WebUrl);

impl View for ShortUrl {
    type V = Seq<char>;

    closed spec fn view(&self) -> Seq<char> {
        self.0@
    }
}

impl From<WebUrl> for ShortUrl {
    fn from(value: WebUrl) -> (r: ShortUrl)
        ensures
            r@ == value@,
    {
        ShortUrl(value)
    }
}

impl vstd::std_specs::convert::FromSpecImpl<WebUrl> for ShortUrl {
    open spec fn obeys_from_spec() -> bool {
        true
    }

    open spec fn from_spec(value: WebUrl) -> ShortUrl {
        ShortUrl(value)
    }
}

impl ShortUrl {
    /// The text of the short URL.
    pub fn as_str(&self) -> (r: &str)
        ensures
            r@ == self@,
    {
        self.0.as_str()
    }

    /// The code for `long_url`: the first `short_length` digits (five where
    /// none is given) of the base-62 encoding of the URL's text, or all of
    /// them where the encoding is shorter.
    pub fn generate(long_url: &WebUrl, short_length: Option<ShortUrlLength>) -> (r: ShortPath)
        ensures
            r@ == code_of(
                long_url@,
                match short_length {
                    Some(l) => l@,
                    None => DEFAULT_SHORTENED_LENGTH as nat,
                },
            ),
            forall|i: int| 0 <= i < r@.len() ==> is_base62_digit(#[trigger] r@[i]),
            match short_length {
                Some(l) => l@ <= long_url@.len() ==> r@.len() == l@,
                None => DEFAULT_SHORTENED_LENGTH <= long_url@.len() ==> r@.len()
                    == DEFAULT_SHORTENED_LENGTH,
            },
    {
        let length = match short_length {
            Some(l) => l,
            None => ShortUrlLength::default(),
        };
        let digits = encode_base62(long_url.as_str());
        let wanted = length.value() as usize;
        let available = digits.as_str().unicode_len();
        let keep = if wanted <= available {
            wanted
        } else {
            available
        };
        let code = digits.as_str().substring_char(0, keep);
        ShortPath(code.to_owned())
    }
}

/// The code depends on the URL's text and the length alone: the same
/// inputs give the same code, call after call.
pub proof fn lemma_generate_deterministic(first: WebUrl, second: WebUrl, length: ShortUrlLength)
    requires
        first@ == second@,
    ensures
        code_of(first@, length@) == code_of(second@, length@),
{
}

/// Two URLs whose encodings agree on their first `length` digits get the
/// same code of that length: a collision is an ordinary result.
pub proof fn lemma_shared_prefix_collides(first: WebUrl, second: WebUrl, length: ShortUrlLength)
    requires
        base62_text(first@).len() >= length@,
        base62_text(second@).len() >= length@,
        base62_text(first@).take(length@ as int) == base62_text(second@).take(length@ as int),
    ensures
        code_of(first@, length@) == code_of(second@, length@),
        code_of(first@, length@).len() == length@,
{
}

} // verus!
