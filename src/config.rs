//! Static configuration of the buckets and the gateway registry's lookup.

use vstd::prelude::*;

use crate::text::same_text;

verus! {

/// How bucket names are put into request URLs.
#[derive(Debug, Clone, Copy, PartialEq, Eq, Structural)]
pub enum HostAccessStyle {
    Path,
    Subdomain,
}

impl Default for HostAccessStyle {
    fn default() -> (r: Self)
        ensures
            r == HostAccessStyle::Path,
    {
        HostAccessStyle::Path
    }
}

/// Whether uploads are cut into parts here or streamed by the store's own
/// primitive.
#[derive(Debug, Clone, Copy, PartialEq, Eq, Structural)]
pub enum S3UploadType {
    Parallel,
    Serial,
}

/// One configured bucket.
#[derive(Debug, Clone)]
pub struct S3Bucket {
    /// The key by which a request selects the bucket.
    pub alias: String,
    /// Base URL prepended to a file's key when non-empty.
    pub cdn_url: String,
    pub make_public: bool,
    pub style: HostAccessStyle,
    pub bucket: String,
    pub access_key: String,
    pub secret_key: String,
    pub url: String,
    /// Prefix put before a required group name for this bucket.
    pub sso_group_prefix: Option<String>,
    pub guess_mime: bool,
    /// Seconds a single remote call may take.
    pub timeout: u64,
    /// How many times a call that timed out is issued again.
    pub tries: usize,
}

/// Storage settings shared by all buckets.
#[derive(Debug, Clone)]
pub struct S3Config {
    pub upload_type: S3UploadType,
    pub workers: usize,
    /// Size of one upload part, in bytes.
    pub upload_memory_pool: usize,
    pub download_memory_pool: usize,
    pub buckets: Vec<S3Bucket>,
}

/// Authentication by a header that a proxy in front sets to the user name.
#[derive(Debug, Clone)]
pub struct HeaderAuth {
    pub header: String,
    pub admins: Vec<String>,
}

pub fn default_timeout() -> (r: u64)
    ensures
        r == 15,
{
    15
}

pub fn default_tries() -> (r: usize)
    ensures
        r == 3,
{
    3
}

pub fn default_make_pubic() -> (r: bool)
    ensures
        !r,
{
    false
}

pub fn default_guess_mime() -> (r: bool)
    ensures
        !r,
{
    false
}

/// Whether `name` stands in `names`.
pub open spec fn contains_name(names: Seq<String>, name: Seq<char>) -> bool {
    exists|i: int| 0 <= i < names.len() && #[trigger] names[i]@ == name
}

impl HeaderAuth {
    /// Whether `username` is one of the administrators.
    pub fn is_admin(&self, username: &str) -> (r: bool)
        ensures
            r == contains_name(self.admins@, username@),
    {
        let mut i: usize = 0;
        while i < self.admins.len()
            invariant
                i <= self.admins.len(),
                forall|j: int| 0 <= j < i ==> #[trigger] self.admins@[j]@ != username@,
            decreases self.admins.len() - i,
        {
            if same_text(self.admins[i].as_str(), username) {
                return true;
            }
            i = i + 1;
        }
        false
    }
}

impl S3Bucket {
    /// The bucket with its alias defaulted to the bucket name when empty.
    pub fn with_default_alias(self) -> (r: S3Bucket)
        ensures
            r.alias@ == (if self.alias@.len() == 0 {
                self.bucket@
            } else {
                self.alias@
            }),
            r.bucket == self.bucket,
            r.cdn_url == self.cdn_url,
            r.make_public == self.make_public,
            r.style == self.style,
            r.access_key == self.access_key,
            r.secret_key == self.secret_key,
            r.url == self.url,
            r.sso_group_prefix == self.sso_group_prefix,
            r.guess_mime == self.guess_mime,
            r.timeout == self.timeout,
            r.tries == self.tries,
    {
        let mut b = self;
        if b.alias.as_str().is_empty() {
            b.alias = b.bucket.as_str().to_owned();
        }
        b
    }
}

/// Whether a request with `alias` selects one of `buckets`: any bucket
/// when there is no alias, else one with that alias.
pub open spec fn bucket_selected(buckets: Seq<S3Bucket>, alias: Option<&str>) -> bool {
    match alias {
        None => buckets.len() > 0,
        Some(a) => exists|i: int| 0 <= i < buckets.len() && #[trigger] buckets[i].alias@ == a@,
    }
}

/// The index of the first bucket with alias `a`; the length when none has.
pub open spec fn alias_index(buckets: Seq<S3Bucket>, a: Seq<char>) -> int
    decreases buckets.len(),
{
    if buckets.len() == 0 {
        0
    } else if buckets[0].alias@ == a {
        0
    } else {
        1 + alias_index(buckets.drop_first(), a)
    }
}

/// The index of the bucket a request with `alias` selects: the first one
/// when there is no alias, else the first with that alias.
pub open spec fn selected_index(buckets: Seq<S3Bucket>, alias: Option<&str>) -> int {
    match alias {
        None => 0,
        Some(a) => alias_index(buckets, a@),
    }
}

/// The first bucket with alias `a` is at `i` when none before has it.
proof fn lemma_alias_index(buckets: Seq<S3Bucket>, a: Seq<char>, i: int)
    requires
        0 <= i <= buckets.len(),
        forall|j: int| 0 <= j < i ==> #[trigger] buckets[j].alias@ != a,
        i < buckets.len() ==> buckets[i].alias@ == a,
    ensures
        alias_index(buckets, a) == i,
    decreases i,
{
    if i > 0 {
        assert(buckets[0].alias@ != a);
        let d = buckets.drop_first();
        assert forall|j: int| 0 <= j < i - 1 implies #[trigger] d[j].alias@ != a by {
            assert(d[j] == buckets[j + 1]);
        }
        if i < buckets.len() {
            assert(d[i - 1] == buckets[i]);
        }
        lemma_alias_index(d, a, i - 1);
    }
}

/// Resolves a request's bucket alias against the configured buckets.
pub fn resolve_bucket(buckets: &Vec<S3Bucket>, alias: Option<&str>) -> (r: Option<usize>)
    ensures
        r is Some == bucket_selected(buckets@, alias),
        r matches Some(i) ==> i == selected_index(buckets@, alias),
        match alias {
            None => r == (if buckets.len() > 0 {
                Some(0usize)
            } else {
                None
            }),
            Some(a) => match r {
                Some(i) => i < buckets.len() && buckets@[i as int].alias@ == a@ && forall|j: int|
                    0 <= j < i ==> #[trigger] buckets@[j].alias@ != a@,
                None => forall|j: int| 0 <= j < buckets.len() ==> #[trigger] buckets@[j].alias@ != a@,
            },
        },
{
    match alias {
        None => if buckets.len() > 0 {
            Some(0)
        } else {
            None
        },
        Some(a) => find_alias(buckets, a),
    }
}

/// The index of the first bucket with alias `a`.
fn find_alias(buckets: &Vec<S3Bucket>, a: &str) -> (r: Option<usize>)
    ensures
        match r {
            Some(i) => i < buckets.len() && buckets@[i as int].alias@ == a@ && forall|j: int|
                0 <= j < i ==> #[trigger] buckets@[j].alias@ != a@,
            None => forall|j: int| 0 <= j < buckets.len() ==> #[trigger] buckets@[j].alias@ != a@,
        },
        r matches Some(i) ==> i == alias_index(buckets@, a@),
{
    let mut i: usize = 0;
    while i < buckets.len()
        invariant
            i <= buckets.len(),
            forall|j: int| 0 <= j < i ==> #[trigger] buckets@[j].alias@ != a@,
        decreases buckets.len() - i,
    {
        if same_text(buckets[i].alias.as_str(), a) {
            proof {
                lemma_alias_index(buckets@, a@, i as int);
            }
            return Some(i);
        }
        i = i + 1;
    }
    None
}

} // verus!
