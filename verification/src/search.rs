//! Looking up a build by what is known of it: which searches are accepted,
//! under which key the answer is cached, and the conditions that a search
//! puts on a build.

use crate::digest::{sha1_hex, sha1_of};
use crate::text::{decimal_of, decimal_u64, hex_of, join2, join3, replace_char, replace_of};
use vstd::prelude::*;

verus! {

/// The digests of a build's file, as far as the search names them.
#[derive(Clone, Debug, PartialEq, Eq)]
pub struct Hash {
    pub primary: Option<bool>,
    pub sha1: Option<String>,
    pub sha224: Option<String>,
    pub sha256: Option<String>,
    pub sha384: Option<String>,
    pub sha512: Option<String>,
    pub md5: Option<String>,
}

/// What is known of the build that is looked for.
#[derive(Clone, Debug, PartialEq, Eq)]
pub struct BuildSearch {
    pub id: Option<u32>,
    /// The server type, by its name.
    pub server_type: Option<String>,
    pub version_id: Option<String>,
    pub project_version_id: Option<String>,
    pub build_number: Option<u32>,
    pub experimental: Option<bool>,
    pub jar_url: Option<String>,
    pub jar_size: Option<u32>,
    pub zip_url: Option<String>,
    pub zip_size: Option<u32>,
    pub hash: Option<Hash>,
}

impl Hash {
    /// Whether the search names a digest.
    pub open spec fn names_digest(self) -> bool {
        ||| self.sha1 is Some
        ||| self.sha224 is Some
        ||| self.sha256 is Some
        ||| self.sha384 is Some
        ||| self.sha512 is Some
        ||| self.md5 is Some
    }

    /// Whether the search names a digest. Whether the digest is to be the
    /// primary one does not count.
    pub fn any(&self) -> (r: bool)
        ensures
            r == self.names_digest(),
    {
        self.sha1.is_some() || self.sha224.is_some() || self.sha256.is_some()
            || self.sha384.is_some() || self.sha512.is_some() || self.md5.is_some()
    }
}

impl BuildSearch {
    /// Whether the search names a digest.
    pub open spec fn by_digest(self) -> bool {
        self.hash matches Some(h) && h.names_digest()
    }

    /// Whether the search says anything.
    pub open spec fn says_anything(self) -> bool {
        ||| self.id is Some
        ||| self.server_type is Some
        ||| self.version_id is Some
        ||| self.project_version_id is Some
        ||| self.build_number is Some
        ||| self.experimental is Some
        ||| self.jar_url is Some
        ||| self.jar_size is Some
        ||| self.zip_url is Some
        ||| self.zip_size is Some
        ||| self.by_digest()
    }

    /// Whether the search says anything. A search that says nothing finds
    /// nothing.
    pub fn any(&self) -> (r: bool)
        ensures
            r == self.says_anything(),
    {
        let by_digest = match &self.hash {
            Some(h) => h.any(),
            None => false,
        };
        self.id.is_some() || self.server_type.is_some() || self.version_id.is_some()
            || self.project_version_id.is_some() || self.build_number.is_some()
            || self.experimental.is_some() || self.jar_url.is_some() || self.jar_size.is_some()
            || self.zip_url.is_some() || self.zip_size.is_some() || by_digest
    }
}

/// The largest number of searches in one request.
pub const MAX_SEARCHES: usize = 10;

/// Whether a request with `count` searches is refused as too large.
pub fn too_many_searches(count: usize) -> (r: bool)
    ensures
        r == (count > MAX_SEARCHES),
{
    count > MAX_SEARCHES
}

/// Number of rows that the lookup of a build gives when it finds one: the
/// build, and the latest build of its version.
pub const LOOKUP_ROWS: usize = 2;

/// Whether a lookup that gave `rows` rows found a build.
pub fn found_build(rows: usize) -> (r: bool)
    ensures
        r == (rows == LOOKUP_ROWS),
{
    rows == LOOKUP_ROWS
}

/// Seconds for which the answer to a search stays cached.
pub const BUILD_TTL: u64 = 3600;

/// The cache key of a search, given the search in its serialized form: the
/// prefix `build::` and the SHA-1 digest of the form in hexadecimal.
pub fn build_key(serialized: &[u8]) -> (r: String)
    ensures
        r@ == "build::"@ + hex_of(sha1_of(serialized@)),
{
    let fingerprint = sha1_hex(serialized);
    join2("build::", fingerprint.as_str())
}

/// `s` for use between single quotes: every single quote is doubled.
pub open spec fn escaped(s: Seq<char>) -> Seq<char> {
    replace_of(s, '\'', "''"@)
}

/// `s` for use between single quotes: every single quote is doubled.
pub fn escape_string(s: &str) -> (r: String)
    ensures
        r@ == escaped(s@),
{
    replace_char(s, '\'', "''")
}

/// The word for a truth value.
pub open spec fn truth_word(b: bool) -> Seq<char> {
    if b {
        "true"@
    } else {
        "false"@
    }
}

/// The condition that `column` is the number `n`, if a number is given.
pub open spec fn number_condition(column: Seq<char>, n: Option<u32>) -> Seq<Seq<char>> {
    match n {
        Some(n) => seq![column + " = "@ + decimal_of(n as int)],
        None => Seq::<Seq<char>>::empty(),
    }
}

/// The condition that `column` is the truth value `b`, if one is given.
pub open spec fn truth_condition(column: Seq<char>, b: Option<bool>) -> Seq<Seq<char>> {
    match b {
        Some(b) => seq![column + " = "@ + truth_word(b)],
        None => Seq::<Seq<char>>::empty(),
    }
}

/// The condition that `column` is the text `s` as it stands between single
/// quotes, if a text is given.
pub open spec fn quoted_condition(column: Seq<char>, s: Option<String>) -> Seq<Seq<char>> {
    match s {
        Some(s) => seq![column + " = '"@ + s@ + "'"@],
        None => Seq::<Seq<char>>::empty(),
    }
}

/// The condition that `column` is the text `s`, with its single quotes
/// doubled, if a text is given.
pub open spec fn text_condition(column: Seq<char>, s: Option<String>) -> Seq<Seq<char>> {
    match s {
        Some(s) => seq![column + " = '"@ + escaped(s@) + "'"@],
        None => Seq::<Seq<char>>::empty(),
    }
}

impl Hash {
    /// The conditions that the search puts on the digests of a build.
    pub open spec fn conditions_of(self) -> Seq<Seq<char>> {
        truth_condition("build_hashes.primary"@, self.primary) + quoted_condition(
            "build_hashes.sha1"@,
            self.sha1,
        ) + quoted_condition("build_hashes.sha224"@, self.sha224) + quoted_condition(
            "build_hashes.sha256"@,
            self.sha256,
        ) + quoted_condition("build_hashes.sha384"@, self.sha384) + quoted_condition(
            "build_hashes.sha512"@,
            self.sha512,
        ) + quoted_condition("build_hashes.md5"@, self.md5)
    }
}

/// The texts of `conditions`, in order.
pub open spec fn condition_texts(conditions: Seq<String>) -> Seq<Seq<char>> {
    conditions.map_values(|s: String| s@)
}

fn push_number(conditions: &mut Vec<String>, column: &str, n: Option<u32>)
    ensures
        condition_texts(final(conditions)@) == condition_texts(old(conditions)@) + number_condition(
            column@,
            n,
        ),
{
    match n {
        Some(n) => {
            let number = decimal_u64(n as u64);
            conditions.push(join3(column, " = ", number.as_str()));
        },
        None => {},
    }
    assert(condition_texts(conditions@) =~= condition_texts(old(conditions)@) + number_condition(
        column@,
        n,
    ));
}

fn push_truth(conditions: &mut Vec<String>, column: &str, b: Option<bool>)
    ensures
        condition_texts(final(conditions)@) == condition_texts(old(conditions)@) + truth_condition(
            column@,
            b,
        ),
{
    match b {
        Some(b) => {
            let word: &str = if b {
                "true"
            } else {
                "false"
            };
            conditions.push(join3(column, " = ", word));
        },
        None => {},
    }
    assert(condition_texts(conditions@) =~= condition_texts(old(conditions)@) + truth_condition(
        column@,
        b,
    ));
}

fn push_quoted(conditions: &mut Vec<String>, column: &str, s: &Option<String>)
    ensures
        condition_texts(final(conditions)@) == condition_texts(old(conditions)@) + quoted_condition(
            column@,
            *s,
        ),
{
    match s {
        Some(s) => {
            conditions.push(join3(column, " = '", s.as_str()).concat("'"));
        },
        None => {},
    }
    assert(condition_texts(conditions@) =~= condition_texts(old(conditions)@) + quoted_condition(
        column@,
        *s,
    ));
}

fn push_text(conditions: &mut Vec<String>, column: &str, s: &Option<String>)
    ensures
        condition_texts(final(conditions)@) == condition_texts(old(conditions)@) + text_condition(
            column@,
            *s,
        ),
{
    match s {
        Some(s) => {
            let safe = escape_string(s.as_str());
            conditions.push(join3(column, " = '", safe.as_str()).concat("'"));
        },
        None => {},
    }
    assert(condition_texts(conditions@) =~= condition_texts(old(conditions)@) + text_condition(
        column@,
        *s,
    ));
}

impl Hash {
    /// The conditions that the search puts on the digests of a build, each
    /// as text.
    pub fn conditions(&self) -> (r: Vec<String>)
        ensures
            condition_texts(r@) == self.conditions_of(),
    {
        let mut r: Vec<String> = Vec::new();
        assert(condition_texts(r@) =~= Seq::<Seq<char>>::empty());
        push_truth(&mut r, "build_hashes.primary", self.primary);
        assert(condition_texts(r@) =~= truth_condition("build_hashes.primary"@, self.primary));
        push_quoted(&mut r, "build_hashes.sha1", &self.sha1);
        push_quoted(&mut r, "build_hashes.sha224", &self.sha224);
        push_quoted(&mut r, "build_hashes.sha256", &self.sha256);
        push_quoted(&mut r, "build_hashes.sha384", &self.sha384);
        push_quoted(&mut r, "build_hashes.sha512", &self.sha512);
        push_quoted(&mut r, "build_hashes.md5", &self.md5);
        r
    }
}

impl BuildSearch {
    /// The conditions that the search puts on the build itself.
    pub open spec fn own_conditions_of(self) -> Seq<Seq<char>> {
        number_condition("builds.id"@, self.id) + quoted_condition("builds.type"@, self.server_type)
            + text_condition("builds.version_id"@, self.version_id) + text_condition(
            "builds.project_version_id"@,
            self.project_version_id,
        ) + number_condition("builds.build_number"@, self.build_number) + truth_condition(
            "builds.experimental"@,
            self.experimental,
        ) + text_condition("builds.jar_url"@, self.jar_url) + number_condition(
            "builds.jar_size"@,
            self.jar_size,
        ) + text_condition("builds.zip_url"@, self.zip_url) + number_condition(
            "builds.zip_size"@,
            self.zip_size,
        )
    }

    /// The conditions that the search puts on the digests of a build: none
    /// unless it names a digest.
    pub open spec fn digest_conditions_of(self) -> Seq<Seq<char>> {
        match self.hash {
            Some(h) => if h.names_digest() {
                h.conditions_of()
            } else {
                Seq::<Seq<char>>::empty()
            },
            None => Seq::<Seq<char>>::empty(),
        }
    }

    /// The conditions that the search puts on a build, in the order of its
    /// fields: first those on the build itself, then those on its digests.
    pub open spec fn conditions_of(self) -> Seq<Seq<char>> {
        self.own_conditions_of() + self.digest_conditions_of()
    }

    fn own_conditions(&self) -> (r: Vec<String>)
        ensures
            condition_texts(r@) == self.own_conditions_of(),
    {
        let mut r: Vec<String> = Vec::new();
        assert(condition_texts(r@) =~= Seq::<Seq<char>>::empty());
        push_number(&mut r, "builds.id", self.id);
        assert(condition_texts(r@) =~= number_condition("builds.id"@, self.id));
        push_quoted(&mut r, "builds.type", &self.server_type);
        push_text(&mut r, "builds.version_id", &self.version_id);
        push_text(&mut r, "builds.project_version_id", &self.project_version_id);
        push_number(&mut r, "builds.build_number", self.build_number);
        push_truth(&mut r, "builds.experimental", self.experimental);
        push_text(&mut r, "builds.jar_url", &self.jar_url);
        push_number(&mut r, "builds.jar_size", self.jar_size);
        push_text(&mut r, "builds.zip_url", &self.zip_url);
        push_number(&mut r, "builds.zip_size", self.zip_size);
        r
    }

    /// The conditions that the search puts on a build, each as text.
    pub fn conditions(&self) -> (r: Vec<String>)
        ensures
            condition_texts(r@) == self.conditions_of(),
    {
        let mut r = self.own_conditions();
        match &self.hash {
            Some(h) => {
                if h.any() {
                    let mut more = h.conditions();
                    let ghost first = r@;
                    let ghost second = more@;
                    r.append(&mut more);
                    assert(condition_texts(first + second) =~= condition_texts(first)
                        + condition_texts(second));
                }
            },
            None => {},
        }
        assert(condition_texts(r@) =~= self.conditions_of());
        r
    }

    /// The tables that the search reads: the builds alone, or joined with
    /// their digests if the search names one.
    pub fn source(&self) -> (r: &'static str)
        ensures
            r@ == if self.by_digest() {
                "build_hashes INNER JOIN builds ON builds.id = build_hashes.build_id"@
            } else {
                "builds"@
            },
    {
        let by_digest = match &self.hash {
            Some(h) => h.any(),
            None => false,
        };
        if by_digest {
            "build_hashes INNER JOIN builds ON builds.id = build_hashes.build_id"
        } else {
            "builds"
        }
    }
}

/// The texts of `parts` with `separator` between them.
pub open spec fn joined(parts: Seq<Seq<char>>, separator: Seq<char>) -> Seq<char>
    decreases parts.len(),
{
    if parts.len() == 0 {
        Seq::<char>::empty()
    } else if parts.len() == 1 {
        parts[0]
    } else {
        joined(parts.drop_last(), separator) + separator + parts.last()
    }
}

/// The conditions as one, each of which has to hold.
pub fn all_of(conditions: &Vec<String>) -> (r: String)
    ensures
        r@ == joined(condition_texts(conditions@), " AND "@),
{
    let mut r = String::new();
    let mut i: usize = 0;
    while i < conditions.len()
        invariant
            i <= conditions.len(),
            r@ == joined(condition_texts(conditions@).take(i as int), " AND "@),
        decreases conditions.len() - i,
    {
        if i > 0 {
            r.append(" AND ");
        }
        r.append(conditions[i].as_str());
        i += 1;
        proof {
            let texts = condition_texts(conditions@);
            assert(texts.take(i as int).drop_last() == texts.take(i - 1));
            assert(texts.take(i as int).last() == conditions@[i - 1]@);
            if i == 1 {
                assert(r@ =~= texts.take(1)[0]);
            }
        }
    }
    assert(condition_texts(conditions@).take(conditions.len() as int) == condition_texts(
        conditions@,
    ));
    r
}

} // verus!
