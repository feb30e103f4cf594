use vstd::prelude::*;

use crate::error::{AppError, INTERNAL_SERVER_ERROR};
use crate::shorturl::ShortPath;
use crate::weburl::{url_parsed, WebUrl};

verus! {

/// The table of string keys to string values that `toml::from_str` reads
/// from a document, or `None` where the document is not such a table.
pub uninterp spec fn toml_table(text: Seq<char>) -> Option<Map<Seq<char>, Seq<char>>>;

/// The document that `toml::to_string_pretty` writes of a table of string
/// keys to string values, or `None` where it fails.
pub uninterp spec fn toml_document(table: Map<Seq<char>, Seq<char>>) -> Option<Seq<char>>;

#[verifier::external_type_specification]
#[verifier::external_body]
pub struct ExTomlDeError(toml::de::Error);

#[verifier::external_type_specification]
#[verifier::external_body]
pub struct ExTomlSerError(toml::ser::Error);

/// The pairs of texts held in a vector of pairs of strings.
pub open spec fn pairs_view(v: Seq<(String, String)>) -> Seq<(Seq<char>, Seq<char>)> {
    v.map_values(|e: (String, String)| (e.0@, e.1@))
}

/// Relies on `toml::from_str`, read as a `BTreeMap<String, String>`: the
/// entries of the table, each key once, or the error.
#[verifier::external_body]
fn decode_toml_table(text: &str) -> (r: Result<Vec<(String, String)>, toml::de::Error>)
    ensures
        match r {
            Ok(v) => toml_table(text@) == Some(map_of(pairs_view(v@))) && keys_distinct(
                pairs_view(v@),
            ),
            Err(_) => toml_table(text@) is None,
        },
{
    toml::from_str::<std::collections::BTreeMap<String, String>>(text).map(
        |m| m.into_iter().collect(),
    )
}

/// Relies on `toml::to_string_pretty`, of the pairs (no two with the same
/// key) collected into a `BTreeMap<String, String>`: the document, or the error.
#[verifier::external_body]
fn encode_toml_table(pairs: &Vec<(String, String)>) -> (r: Result<String, toml::ser::Error>)
    requires
        keys_distinct(pairs_view(pairs@)),
    ensures
        match r {
            Ok(s) => toml_document(map_of(pairs_view(pairs@))) == Some(s@),
            Err(_) => toml_document(map_of(pairs_view(pairs@))) is None,
        },
{
    toml::to_string_pretty(&pairs.iter().cloned().collect::<std::collections::BTreeMap<String, String>>())
}

/// The mapping that a sequence of pairs gives when each pair is inserted in
/// turn: a later pair with the same key replaces an earlier one.
pub open spec fn map_of(s: Seq<(Seq<char>, Seq<char>)>) -> Map<Seq<char>, Seq<char>>
    decreases s.len(),
{
    if s.len() == 0 {
        Map::empty()
    } else {
        map_of(s.drop_last()).insert(s.last().0, s.last().1)
    }
}

/// No two pairs share a key.
pub open spec fn keys_distinct(s: Seq<(Seq<char>, Seq<char>)>) -> bool {
    forall|i: int, j: int| 0 <= i < j < s.len() ==> s[i].0 != s[j].0
}

/// Every value of the mapping parses as a URL.
pub open spec fn all_urls(m: Map<Seq<char>, Seq<char>>) -> bool {
    forall|k: Seq<char>| m.contains_key(k) ==> (#[trigger] url_parsed(m[k])) is Some
}

/// The serialization of a text that parses as a URL.
pub open spec fn parsed_url(v: Seq<char>) -> Seq<char> {
    match url_parsed(v) {
        Some(s) => s,
        None => v,
    }
}

/// The mapping that a document gives: its table with every value read as a
/// URL, or the empty mapping where the document is not such a table or a
/// value is not a URL.
pub open spec fn loaded_map(text: Seq<char>) -> Map<Seq<char>, Seq<char>> {
    match toml_table(text) {
        Some(m) => if all_urls(m) {
            m.map_values(|v: Seq<char>| parsed_url(v))
        } else {
            Map::empty()
        },
        None => Map::empty(),
    }
}

/// The pairs with each value replaced by the serialization of its URL.
spec fn with_parsed_urls(s: Seq<(Seq<char>, Seq<char>)>) -> Seq<(Seq<char>, Seq<char>)> {
    s.map_values(|e: (Seq<char>, Seq<char>)| (e.0, parsed_url(e.1)))
}

proof fn lemma_map_of_push(s: Seq<(Seq<char>, Seq<char>)>, e: (Seq<char>, Seq<char>))
    ensures
        map_of(s.push(e)) == map_of(s).insert(e.0, e.1),
{
    assert(s.push(e).drop_last() =~= s);
}

proof fn lemma_map_of_domain(s: Seq<(Seq<char>, Seq<char>)>, k: Seq<char>)
    ensures
        map_of(s).contains_key(k) <==> exists|i: int| 0 <= i < s.len() && s[i].0 == k,
    decreases s.len(),
{
    if s.len() > 0 {
        lemma_map_of_domain(s.drop_last(), k);
        if map_of(s).contains_key(k) && k != s.last().0 {
            let i = choose|i: int| 0 <= i < s.drop_last().len() && s.drop_last()[i].0 == k;
            assert(s[i].0 == k);
        }
        if exists|i: int| 0 <= i < s.len() && s[i].0 == k {
            let i = choose|i: int| 0 <= i < s.len() && s[i].0 == k;
            if i < s.len() - 1 {
                assert(s.drop_last()[i].0 == k);
            }
        }
    }
}

proof fn lemma_map_of_at(s: Seq<(Seq<char>, Seq<char>)>, i: int)
    requires
        keys_distinct(s),
        0 <= i < s.len(),
    ensures
        map_of(s).contains_key(s[i].0),
        map_of(s)[s[i].0] == s[i].1,
    decreases s.len(),
{
    if i < s.len() - 1 {
        lemma_map_of_at(s.drop_last(), i);
    }
}

proof fn lemma_map_of_update(s: Seq<(Seq<char>, Seq<char>)>, i: int, v: Seq<char>)
    requires
        keys_distinct(s),
        0 <= i < s.len(),
    ensures
        map_of(s.update(i, (s[i].0, v))) == map_of(s).insert(s[i].0, v),
    decreases s.len(),
{
    let t = s.update(i, (s[i].0, v));
    if i == s.len() - 1 {
        assert(t.drop_last() =~= s.drop_last());
        assert(map_of(t) =~= map_of(s).insert(s[i].0, v));
    } else {
        assert(t.drop_last() =~= s.drop_last().update(i, (s[i].0, v)));
        lemma_map_of_update(s.drop_last(), i, v);
        assert(map_of(t) =~= map_of(s).insert(s[i].0, v));
    }
}

proof fn lemma_map_of_parsed(s: Seq<(Seq<char>, Seq<char>)>)
    ensures
        map_of(with_parsed_urls(s)) == map_of(s).map_values(|v: Seq<char>| parsed_url(v)),
    decreases s.len(),
{
    if s.len() > 0 {
        assert(with_parsed_urls(s).drop_last() =~= with_parsed_urls(s.drop_last()));
        lemma_map_of_parsed(s.drop_last());
        assert(map_of(with_parsed_urls(s)) =~= map_of(s).map_values(|v: Seq<char>| parsed_url(v)));
    }
}

/// The store: a mapping from short codes to long URLs, with the path of the
/// file that holds it, if it is kept on disk.
#[derive(Debug)]
pub struct Database {
    file: Option<String>,
    data: Vec<(ShortPath, WebUrl)>,
}

impl View for Database {
    type V = Map<Seq<char>, Seq<char>>;

    closed spec fn view(&self) -> Map<Seq<char>, Seq<char>> {
        map_of(self.entries())
    }
}

impl Default for Database {
    /// An empty store that is not kept on disk.
    fn default() -> (r: Database)
        ensures
            r.wf(),
            r@ == Map::<Seq<char>, Seq<char>>::empty(),
            r.file_path() is None,
    {
        Database::new(None)
    }
}

impl Database {
    /// The entries of the store, as pairs of texts, in the order they are held.
    pub closed spec fn entries(&self) -> Seq<(Seq<char>, Seq<char>)> {
        self.data@.map_values(|e: (ShortPath, WebUrl)| (e.0@, e.1@))
    }

    /// The path of the backing file, if the store is kept on disk.
    pub closed spec fn file_path(&self) -> Option<Seq<char>> {
        match self.file {
            Some(f) => Some(f@),
            None => None,
        }
    }

    /// No code is held twice.
    pub closed spec fn wf(&self) -> bool {
        keys_distinct(self.entries())
    }

    /// An empty store, kept in the file at `file` if one is given.
    pub fn new(file: Option<String>) -> (r: Database)
        ensures
            r.wf(),
            r@ == Map::<Seq<char>, Seq<char>>::empty(),
            r.file_path() == (match file {
                Some(f) => Some(f@),
                None => None::<Seq<char>>,
            }),
    {
        let r = Database { file, data: Vec::new() };
        assert(r.entries() =~= Seq::<(Seq<char>, Seq<char>)>::empty());
        r
    }

    /// The path of the backing file, if the store is kept on disk.
    pub fn file(&self) -> (r: Option<&str>)
        ensures
            match r {
                Some(f) => self.file_path() == Some(f@),
                None => self.file_path() is None,
            },
    {
        match &self.file {
            Some(f) => Some(f.as_str()),
            None => None,
        }
    }

    /// The long URL kept under `short_path`, if any.
    pub fn get(&self, short_path: &ShortPath) -> (r: Option<&WebUrl>)
        requires
            self.wf(),
        ensures
            match r {
                Some(u) => self@.contains_key(short_path@) && self@[short_path@] == u@,
                None => !self@.contains_key(short_path@),
            },
    {
        let n = self.data.len();
        let mut i: usize = 0;
        while i < n
            invariant
                n == self.data@.len(),
                0 <= i <= n,
                self.wf(),
                forall|j: int| 0 <= j < i ==> self.entries()[j].0 != short_path@,
            decreases n - i,
        {
            if self.data[i].0 == *short_path {
                proof {
                    lemma_map_of_at(self.entries(), i as int);
                }
                return Some(&self.data[i].1);
            }
            i = i + 1;
        }
        proof {
            lemma_map_of_domain(self.entries(), short_path@);
        }
        None
    }

    /// Keeps `long_url` under `short_path`, replacing what was kept there;
    /// returns the URL it replaced, if any.
    pub fn set(&mut self, short_path: ShortPath, long_url: WebUrl) -> (r: Option<WebUrl>)
        requires
            old(self).wf(),
        ensures
            final(self).wf(),
            final(self)@ == old(self)@.insert(short_path@, long_url@),
            final(self).file_path() == old(self).file_path(),
            match r {
                Some(u) => old(self)@.contains_key(short_path@) && old(self)@[short_path@] == u@,
                None => !old(self)@.contains_key(short_path@),
            },
    {
        let n = self.data.len();
        let mut i: usize = 0;
        while i < n
            invariant
                n == self.data@.len(),
                0 <= i <= n,
                *self == *old(self),
                keys_distinct(self.entries()),
                forall|j: int| 0 <= j < i ==> self.entries()[j].0 != short_path@,
            decreases n - i,
        {
            if self.data[i].0 == short_path {
                let previous = self.data[i].1.clone();
                proof {
                    lemma_map_of_at(self.entries(), i as int);
                    lemma_map_of_update(self.entries(), i as int, long_url@);
                }
                let ghost before = self.entries();
                self.data.set(i, (short_path, long_url));
                assert(self.entries() =~= before.update(i as int, (before[i as int].0, long_url@)));
                return Some(previous);
            }
            i = i + 1;
        }
        proof {
            lemma_map_of_domain(self.entries(), short_path@);
            lemma_map_of_push(self.entries(), (short_path@, long_url@));
        }
        let ghost before = self.entries();
        self.data.push((short_path, long_url));
        assert(self.entries() =~= before.push((short_path@, long_url@)));
        None
    }

    /// The entries as pairs of strings: code, then URL.
    pub fn pairs(&self) -> (r: Vec<(String, String)>)
        ensures
            pairs_view(r@) == self.entries(),
    {
        let n = self.data.len();
        let mut r: Vec<(String, String)> = Vec::new();
        let mut i: usize = 0;
        while i < n
            invariant
                n == self.data@.len(),
                0 <= i <= n,
                pairs_view(r@) =~= self.entries().take(i as int),
            decreases n - i,
        {
            let code = self.data[i].0.as_str().to_owned();
            let url = self.data[i].1.as_str().to_owned();
            let ghost before = r@;
            r.push((code, url));
            proof {
                assert(pairs_view(r@) =~= pairs_view(before).push(self.entries()[i as int]));
                assert(self.entries().take(i + 1) =~= self.entries().take(i as int).push(
                    self.entries()[i as int],
                ));
            }
            i = i + 1;
        }
        assert(self.entries().take(n as int) =~= self.entries());
        r
    }

    /// The document to write to the backing file: `None` where the store is
    /// not kept on disk, else the TOML table of the mapping.
    pub fn to_document(&self) -> (r: Result<Option<String>, AppError>)
        requires
            self.wf(),
        ensures
            match self.file_path() {
                None => r matches Ok(None),
                Some(_) => match toml_document(self@) {
                    Some(d) => r matches Ok(Some(t)) && t@ == d,
                    None => r matches Err(e) && e.error_code == INTERNAL_SERVER_ERROR,
                },
            },
    {
        match &self.file {
            None => Ok(None),
            Some(_) => {
                let pairs = self.pairs();
                match encode_toml_table(&pairs) {
                    Ok(text) => Ok(Some(text)),
                    Err(e) => Err(AppError::internal_error(e.to_string())),
                }
            },
        }
    }

    /// The store kept in `file`, read from the document `text` that the file
    /// holds. A document that is not a table of texts, or holds a value that is
    /// not a URL, gives an empty store.
    pub fn from_document(file: String, text: &str) -> (r: Database)
        ensures
            r.wf(),
            r@ == loaded_map(text@),
            r.file_path() == Some(file@),
    {
        let ghost f = file@;
        let fallback = file.clone();
        let mut db = Database::new(Some(file));
        match decode_toml_table(text) {
            Err(_) => db,
            Ok(pairs) => {
                let ghost p = pairs_view(pairs@);
                let n = pairs.len();
                let mut i: usize = 0;
                assert(with_parsed_urls(p).take(0) =~= Seq::<(Seq<char>, Seq<char>)>::empty());
                while i < n
                    invariant
                        n == pairs@.len(),
                        p == pairs_view(pairs@),
                        keys_distinct(p),
                        toml_table(text@) == Some(map_of(p)),
                        fallback@ == f,
                        f == file@,
                        0 <= i <= n,
                        db.wf(),
                        db.file_path() == Some(fallback@),
                        db@ == map_of(with_parsed_urls(p).take(i as int)),
                        forall|j: int| 0 <= j < i ==> (#[trigger] url_parsed(p[j].1)) is Some,
                    decreases n - i,
                {
                    match WebUrl::parse(pairs[i].1.as_str()) {
                        Some(u) => {
                            proof {
                                assert(with_parsed_urls(p).take(i + 1).drop_last()
                                    =~= with_parsed_urls(p).take(i as int));
                            }
                            db.set(ShortPath::new(pairs[i].0.as_str()), u);
                        },
                        None => {
                            proof {
                                lemma_map_of_at(p, i as int);
                                assert(url_parsed(map_of(p)[p[i as int].0]) is None);
                                assert(!all_urls(map_of(p)));
                            }
                            return Database::new(Some(fallback));
                        },
                    }
                    i = i + 1;
                }
                proof {
                    assert(with_parsed_urls(p).take(n as int) =~= with_parsed_urls(p));
                    lemma_map_of_parsed(p);
                    let m = map_of(p);
                    assert forall|k: Seq<char>| m.contains_key(k) implies (#[trigger] url_parsed(
                        m[k],
                    )) is Some by {
                        lemma_map_of_domain(p, k);
                        let j = choose|j: int| 0 <= j < p.len() && p[j].0 == k;
                        lemma_map_of_at(p, j);
                        assert(url_parsed(p[j].1) is Some);
                    }
                }
                db
            },
        }
    }
}

/// Setting a code to a URL and then looking the code up gives that URL.
pub proof fn lemma_set_then_get(db: Database, short_path: ShortPath, long_url: WebUrl)
    ensures
        db@.insert(short_path@, long_url@).contains_key(short_path@),
        db@.insert(short_path@, long_url@)[short_path@] == long_url@,
{
}

/// Setting a code twice: the second `set` hands back the first URL, and a
/// lookup afterwards gives the second.
pub proof fn lemma_overwrite(db: Database, short_path: ShortPath, first: WebUrl, second: WebUrl)
    ensures
        ({
            let once = db@.insert(short_path@, first@);
            let twice = once.insert(short_path@, second@);
            &&& once.contains_key(short_path@)
            &&& once[short_path@] == first@
            &&& twice.contains_key(short_path@)
            &&& twice[short_path@] == second@
        }),
{
}

/// Writing a store and reading the document back gives the same mapping,
/// where every URL held is a serialization that parses to itself and the
/// document reads back as the table it was written from.
pub proof fn lemma_reload(db: Database, document: Seq<char>)
    requires
        forall|k: Seq<char>| #[trigger] db@.contains_key(k) ==> url_parsed(db@[k]) == Some(db@[k]),
        toml_document(db@) == Some(document),
        toml_table(document) == Some(db@),
    ensures
        loaded_map(document) == db@,
{
    assert(all_urls(db@));
    assert(db@.map_values(|v: Seq<char>| parsed_url(v)) =~= db@);
}

} // verus!
