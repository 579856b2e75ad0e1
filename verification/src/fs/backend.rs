//! Storage backends: what kind each is, what it can do, and the logic that
//! every backend shares.
use vstd::prelude::*;
use crate::text::{push_str, to_string};

verus! {

/// Backend type information for display and identification
#[derive(Debug, Clone)]
pub enum BackendType {
    Local,
    Kubernetes { namespace: String, pvc: String },
    S3 { bucket: String, region: String, provider: S3Provider },
    Gcs { bucket: String },
    Selecting,
}

impl BackendType {
    /// Get a short display name for the backend
    pub fn short_name(&self) -> (r: &'static str)
        ensures
            r@ == match self {
                BackendType::Local => "Local"@,
                BackendType::Kubernetes { .. } => "K8s"@,
                BackendType::S3 { .. } => "S3"@,
                BackendType::Gcs { .. } => "GCS"@,
                BackendType::Selecting => "Select"@,
            },
    {
        match self {
            BackendType::Local => "Local",
            BackendType::Kubernetes { .. } => "K8s",
            BackendType::S3 { .. } => "S3",
            BackendType::Gcs { .. } => "GCS",
            BackendType::Selecting => "Select",
        }
    }

    /// Whether this is the local filesystem.
    pub fn is_local(&self) -> (r: bool)
        ensures
            r == (self is Local),
    {
        match self {
            BackendType::Local => true,
            _ => false,
        }
    }
}

/// S3-compatible storage providers
#[derive(Debug, Clone)]
pub enum S3Provider {
    Aws,
    DigitalOcean,
    Hetzner,
    MinIO,
    CloudflareR2,
    Wasabi,
    Custom { name: String, endpoint: String },
}

/// The endpoint of a provider for `region`; AWS uses its default one.
pub open spec fn endpoint_of(p: S3Provider, region: Seq<char>) -> Option<Seq<char>> {
    match p {
        S3Provider::Aws => None,
        S3Provider::DigitalOcean => Some("https://"@ + region + ".digitaloceanspaces.com"@),
        S3Provider::Hetzner => Some("https://"@ + region + ".your-objectstorage.com"@),
        S3Provider::MinIO => Some("http://localhost:9000"@),
        S3Provider::CloudflareR2 => Some("https://"@ + region + ".r2.cloudflarestorage.com"@),
        S3Provider::Wasabi => Some("https://s3."@ + region + ".wasabisys.com"@),
        S3Provider::Custom { endpoint, .. } => Some(endpoint@),
    }
}

/// `prefix`, `middle`, `suffix` joined.
fn joined3(prefix: &str, middle: &str, suffix: &str) -> (r: String)
    ensures
        r@ == prefix@ + middle@ + suffix@,
{
    let mut s = to_string(prefix);
    push_str(&mut s, middle);
    push_str(&mut s, suffix);
    s
}

impl S3Provider {
    /// Get the endpoint URL for this provider
    pub fn endpoint(&self, region: &str) -> (r: Option<String>)
        ensures
            match endpoint_of(*self, region@) {
                Some(e) => r matches Some(s) && s@ == e,
                None => r is None,
            },
    {
        match self {
            S3Provider::Aws => None,
            S3Provider::DigitalOcean => Some(joined3("https://", region, ".digitaloceanspaces.com")),
            S3Provider::Hetzner => Some(joined3("https://", region, ".your-objectstorage.com")),
            S3Provider::MinIO => Some(to_string("http://localhost:9000")),
            S3Provider::CloudflareR2 => Some(joined3("https://", region, ".r2.cloudflarestorage.com")),
            S3Provider::Wasabi => Some(joined3("https://s3.", region, ".wasabisys.com")),
            S3Provider::Custom { endpoint, .. } => Some(endpoint.clone()),
        }
    }

    /// Get display name for the provider
    pub fn display_name(&self) -> (r: &str)
        ensures
            r@ == match self {
                S3Provider::Aws => "AWS S3"@,
                S3Provider::DigitalOcean => "DigitalOcean Spaces"@,
                S3Provider::Hetzner => "Hetzner Object Storage"@,
                S3Provider::MinIO => "MinIO"@,
                S3Provider::CloudflareR2 => "Cloudflare R2"@,
                S3Provider::Wasabi => "Wasabi"@,
                S3Provider::Custom { name, .. } => name@,
            },
    {
        match self {
            S3Provider::Aws => "AWS S3",
            S3Provider::DigitalOcean => "DigitalOcean Spaces",
            S3Provider::Hetzner => "Hetzner Object Storage",
            S3Provider::MinIO => "MinIO",
            S3Provider::CloudflareR2 => "Cloudflare R2",
            S3Provider::Wasabi => "Wasabi",
            S3Provider::Custom { name, .. } => name.as_str(),
        }
    }
}

/// Backend capability flags
#[derive(Debug, Clone, Copy, PartialEq, Eq, Structural)]
pub struct BackendCapabilities {
    /// Supports streaming read/write (vs full download)
    pub streaming: bool,
    /// Supports file append operations
    pub append: bool,
    /// Supports Unix-style permissions
    pub permissions: bool,
    /// Supports symbolic links
    pub symlinks: bool,
    /// Supports rename/move operations
    pub rename: bool,
    /// Supports file system stat (size, mtime, etc.)
    pub stat: bool,
    /// Supports hard links
    pub hardlinks: bool,
    /// Supports extended attributes
    pub xattr: bool,
}

/// Capabilities with every flag set to `v`.
pub open spec fn all_flags(v: bool) -> BackendCapabilities {
    BackendCapabilities {
        streaming: v,
        append: v,
        permissions: v,
        symlinks: v,
        rename: v,
        stat: v,
        hardlinks: v,
        xattr: v,
    }
}

impl Default for BackendCapabilities {
    fn default() -> (r: Self)
        ensures
            r == all_flags(false),
    {
        Self::selecting()
    }
}

impl BackendCapabilities {
    /// Local filesystem capabilities
    pub fn local() -> (r: Self)
        ensures
            r == all_flags(true),
    {
        BackendCapabilities {
            streaming: true,
            append: true,
            permissions: true,
            symlinks: true,
            rename: true,
            stat: true,
            hardlinks: true,
            xattr: true,
        }
    }

    /// Cloud storage (S3/GCS) capabilities: streaming, rename (by copy and
    /// delete) and stat.
    pub fn cloud() -> (r: Self)
        ensures
            r == (BackendCapabilities {
                streaming: true,
                append: false,
                permissions: false,
                symlinks: false,
                rename: true,
                stat: true,
                hardlinks: false,
                xattr: false,
            }),
    {
        BackendCapabilities {
            streaming: true,
            append: false,
            permissions: false,
            symlinks: false,
            rename: true,
            stat: true,
            hardlinks: false,
            xattr: false,
        }
    }

    /// Kubernetes PVC capabilities: everything but streaming (transfers go
    /// through tar) and extended attributes.
    pub fn kubernetes() -> (r: Self)
        ensures
            r == (BackendCapabilities {
                streaming: false,
                append: true,
                permissions: true,
                symlinks: true,
                rename: true,
                stat: true,
                hardlinks: true,
                xattr: false,
            }),
    {
        BackendCapabilities {
            streaming: false,
            append: true,
            permissions: true,
            symlinks: true,
            rename: true,
            stat: true,
            hardlinks: true,
            xattr: false,
        }
    }

    /// Selecting backend capabilities (readonly)
    pub fn selecting() -> (r: Self)
        ensures
            r == all_flags(false),
    {
        BackendCapabilities {
            streaming: false,
            append: false,
            permissions: false,
            symlinks: false,
            rename: false,
            stat: false,
            hardlinks: false,
            xattr: false,
        }
    }
}

/// The bytes `offset .. offset + length` of `all`, cut at its end; none
/// when the range starts at or past the end.
pub open spec fn range_spec(all: Seq<u8>, offset: int, length: int) -> Seq<u8> {
    if offset >= all.len() {
        Seq::empty()
    } else if offset + length < all.len() {
        all.subrange(offset, offset + length)
    } else {
        all.subrange(offset, all.len() as int)
    }
}

/// The part of a whole file that a ranged read returns.
pub fn byte_range(all: &[u8], offset: u64, length: u64) -> (r: Vec<u8>)
    requires
        offset + length <= u64::MAX,
    ensures
        r@ == range_spec(all@, offset as int, length as int),
{
    let mut v: Vec<u8> = Vec::new();
    if offset >= all.len() as u64 {
        return v;
    }
    let start = offset as usize;
    let end: usize = if offset + length < all.len() as u64 {
        (offset + length) as usize
    } else {
        all.len()
    };
    let mut i: usize = start;
    while i < end
        invariant
            start <= i <= end <= all@.len(),
            v@ == all@.subrange(start as int, i as int),
        decreases end - i,
    {
        v.push(all[i]);
        assert(v@ =~= all@.subrange(start as int, i + 1));
        i = i + 1;
    }
    v
}

/// The last position of `c` in `s`, if any.
pub open spec fn last_index_of(s: Seq<char>, c: char) -> Option<int>
    decreases s.len(),
{
    if s.len() == 0 {
        None
    } else if s.last() == c {
        Some(s.len() - 1)
    } else {
        last_index_of(s.drop_last(), c)
    }
}

/// The directory part and the name part of a slash-separated path: split
/// at its last slash, the directory being empty when there is none.
pub open spec fn parent_and_name_spec(path: Seq<char>) -> (Seq<char>, Seq<char>) {
    match last_index_of(path, '/') {
        Some(i) => (path.take(i), path.skip(i + 1)),
        None => (Seq::empty(), path),
    }
}

proof fn lemma_last_index(s: Seq<char>, c: char, k: int)
    requires
        0 <= k <= s.len(),
        forall|j: int| k <= j < s.len() ==> s[j] != c,
    ensures
        last_index_of(s, c) == last_index_of(s.take(k), c),
    decreases s.len(),
{
    if s.len() == k {
        assert(s.take(k) =~= s);
    } else {
        lemma_last_index(s.drop_last(), c, k);
        assert(s.drop_last().take(k) =~= s.take(k));
    }
}

/// Split a path into its directory and its name, at the last slash.
pub fn parent_and_name(path: &str) -> (r: (String, String))
    ensures
        r.0@ == parent_and_name_spec(path@).0,
        r.1@ == parent_and_name_spec(path@).1,
{
    let cs = crate::text::chars_of(path);
    let mut k: usize = cs.len();
    while k > 0 && cs[k - 1] != '/'
        invariant
            k <= cs@.len(),
            cs@ == path@,
            forall|j: int| k <= j < cs@.len() ==> cs@[j] != '/',
        decreases k,
    {
        k = k - 1;
    }
    proof {
        lemma_last_index(cs@, '/', k as int);
    }
    if k == 0 {
        proof {
            lemma_last_index(cs@, '/', 0);
        }
        (String::new(), to_string(path))
    } else {
        proof {
            assert(cs@.take(k as int).last() == cs@[k - 1]);
        }
        let parent = crate::text::string_of_range(&cs, 0, k - 1);
        let name = crate::text::string_of_range(&cs, k, cs.len());
        proof {
            assert(cs@.subrange(0, k - 1) =~= cs@.take(k - 1));
            assert(cs@.subrange(k as int, cs@.len() as int) =~= cs@.skip(k as int));
        }
        (parent, name)
    }
}

} // verus!
