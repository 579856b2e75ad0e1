//! Choosing storage: the menus of storage kinds and cloud providers, what
//! a chosen menu line leads to, and the settings a cloud connection is made
//! with, read from the environment's variables.
use vstd::prelude::*;
use crate::app::ActivePane;
use crate::fs::backend::S3Provider;
use crate::fs::types::{FileEntry, PvcInfo, StorageInfo};
use crate::text::{
    before_first,
    chars_of,
    contains_str,
    has_substring,
    push_str,
    str_eq,
    string_of_range,
    text_before,
    to_string,
};

verus! {

/// A directory-like menu line named `name`.
pub open spec fn is_menu_line(e: FileEntry, name: Seq<char>) -> bool {
    &&& e.name@ == name
    &&& e.size == 0
    &&& e.is_dir
    &&& e.modified is None
    &&& e.permissions is None
}

/// The lines of `v` are menu lines named `names`, in order.
pub open spec fn menu_of(v: Seq<FileEntry>, names: Seq<Seq<char>>) -> bool {
    &&& v.len() == names.len()
    &&& forall|i: int| 0 <= i < v.len() ==> is_menu_line(#[trigger] v[i], names[i])
}

/// A menu line named `name`.
pub(crate) fn menu_line(name: String) -> (r: FileEntry)
    ensures
        is_menu_line(r, name@),
{
    FileEntry { name, size: 0, is_dir: true, modified: None, permissions: None }
}

/// The names of the storage menu; coming back to it from the cloud
/// provider menu (`returning`) shows other icons.
pub open spec fn storage_menu_names(returning: bool) -> Seq<Seq<char>> {
    if returning {
        seq![
            "📂 Local Filesystem"@,
            "🗄 PersistentVolumes (PV) - Direct access"@,
            "📦 PersistentVolumeClaims (PVC) - Namespace scoped"@,
            "☁ Cloud Storage (S3/GCS/Hetzner/DO)"@
        ]
    } else {
        seq![
            "📁 Local Filesystem"@,
            "☸ PersistentVolumes (PV) - Direct access"@,
            "☸ PersistentVolumeClaims (PVC) - Namespace scoped"@,
            "☁ Cloud Storage (S3/GCS/Hetzner/DO)"@
        ]
    }
}

/// The storage menu: the local file system, persistent volumes, claims by
/// namespace, and cloud storage; `returning` when coming back to it from
/// the cloud provider menu.
pub fn storage_menu(returning: bool) -> (r: Vec<FileEntry>)
    ensures
        menu_of(r@, storage_menu_names(returning)),
{
    let mut v: Vec<FileEntry> = Vec::new();
    if returning {
        v.push(menu_line(to_string("📂 Local Filesystem")));
        v.push(menu_line(to_string("🗄 PersistentVolumes (PV) - Direct access")));
        v.push(menu_line(to_string("📦 PersistentVolumeClaims (PVC) - Namespace scoped")));
    } else {
        v.push(menu_line(to_string("📁 Local Filesystem")));
        v.push(menu_line(to_string("☸ PersistentVolumes (PV) - Direct access")));
        v.push(menu_line(to_string("☸ PersistentVolumeClaims (PVC) - Namespace scoped")));
    }
    v.push(menu_line(to_string("☁ Cloud Storage (S3/GCS/Hetzner/DO)")));
    v
}

/// The prompt shown while the pane `pane` offers the storage menu.
pub fn storage_prompt(pane: ActivePane) -> (r: String)
    ensures
        r@ == (match pane {
            ActivePane::Left => "LEFT"@,
            ActivePane::Right => "RIGHT"@,
        }) + " pane: Select storage type (↑/↓ to navigate, Enter to select, Esc to cancel)"@,
{
    let mut s = match pane {
        ActivePane::Left => to_string("LEFT"),
        ActivePane::Right => to_string("RIGHT"),
    };
    push_str(&mut s, " pane: Select storage type (↑/↓ to navigate, Enter to select, Esc to cancel)");
    s
}

/// The names of the cloud provider menu.
pub open spec fn cloud_menu_names() -> Seq<Seq<char>> {
    seq![
        "☁ AWS S3"@,
        "☁ Google Cloud Storage (GCS)"@,
        "☁ DigitalOcean Spaces"@,
        "☁ Hetzner Object Storage"@,
        "☁ Cloudflare R2"@,
        "☁ MinIO (Local/Self-hosted)"@,
        "☁ Wasabi"@
    ]
}

/// The cloud provider menu.
pub fn cloud_provider_menu() -> (r: Vec<FileEntry>)
    ensures
        menu_of(r@, cloud_menu_names()),
{
    let mut v: Vec<FileEntry> = Vec::new();
    v.push(menu_line(to_string("☁ AWS S3")));
    v.push(menu_line(to_string("☁ Google Cloud Storage (GCS)")));
    v.push(menu_line(to_string("☁ DigitalOcean Spaces")));
    v.push(menu_line(to_string("☁ Hetzner Object Storage")));
    v.push(menu_line(to_string("☁ Cloudflare R2")));
    v.push(menu_line(to_string("☁ MinIO (Local/Self-hosted)")));
    v.push(menu_line(to_string("☁ Wasabi")));
    v
}

/// What a line of the storage menu leads to.
#[derive(Debug, Clone, Copy, PartialEq, Eq, Structural)]
pub enum StorageChoice {
    Local,
    Volumes,
    Cloud,
    Claims,
    Nothing,
}

/// The storage menu line named `name` leads to: the first of the local
/// file system, persistent volumes, cloud storage and claims whose words it
/// holds.
pub open spec fn storage_choice_spec(name: Seq<char>) -> StorageChoice {
    if has_substring(name, "Local Filesystem"@) {
        StorageChoice::Local
    } else if has_substring(name, "PersistentVolumes"@) {
        StorageChoice::Volumes
    } else if has_substring(name, "Cloud Storage"@) {
        StorageChoice::Cloud
    } else if has_substring(name, "PersistentVolumeClaims"@) {
        StorageChoice::Claims
    } else {
        StorageChoice::Nothing
    }
}

/// What the storage menu line named `name` leads to.
pub fn storage_choice(name: &str) -> (r: StorageChoice)
    ensures
        r == storage_choice_spec(name@),
{
    if contains_str(name, "Local Filesystem") {
        StorageChoice::Local
    } else if contains_str(name, "PersistentVolumes") {
        StorageChoice::Volumes
    } else if contains_str(name, "Cloud Storage") {
        StorageChoice::Cloud
    } else if contains_str(name, "PersistentVolumeClaims") {
        StorageChoice::Claims
    } else {
        StorageChoice::Nothing
    }
}

/// The menu line of a volume: its name, its capacity in brackets, and the
/// claim bound to it or `Available`.
pub open spec fn volume_line_name(v: StorageInfo) -> Seq<char> {
    v.name@ + " ("@ + v.capacity@ + ") - "@ + match v.claim_ref {
        Some(c) => c@,
        None => "Available"@,
    }
}

/// The menu of volumes to choose from, and the prompt: none found sends
/// the user back to browsing.
pub fn volume_menu(volumes: &[StorageInfo]) -> (r: (Vec<FileEntry>, String))
    ensures
        r.0@.len() == volumes@.len(),
        forall|i: int| 0 <= i < r.0@.len() ==> is_menu_line(#[trigger] r.0@[i], volume_line_name(volumes@[i])),
        r.1@ == if volumes@.len() == 0 {
            "No PVs found in cluster"@
        } else {
            "Select PV (↑/↓ to navigate, Enter to select, Esc to cancel)"@
        },
{
    let mut v: Vec<FileEntry> = Vec::new();
    let mut i: usize = 0;
    while i < volumes.len()
        invariant
            i <= volumes@.len(),
            v@.len() == i,
            forall|j: int| 0 <= j < i ==> is_menu_line(#[trigger] v@[j], volume_line_name(volumes@[j])),
        decreases volumes@.len() - i,
    {
        let p = &volumes[i];
        let mut name = to_string(p.name.as_str());
        push_str(&mut name, " (");
        push_str(&mut name, p.capacity.as_str());
        push_str(&mut name, ") - ");
        match &p.claim_ref {
            Some(c) => push_str(&mut name, c.as_str()),
            None => push_str(&mut name, "Available"),
        }
        v.push(menu_line(name));
        i = i + 1;
    }
    let prompt = if volumes.len() == 0 {
        to_string("No PVs found in cluster")
    } else {
        to_string("Select PV (↑/↓ to navigate, Enter to select, Esc to cancel)")
    };
    (v, prompt)
}

/// The menu line of a claim: its name and its capacity in brackets.
pub open spec fn claim_line_name(c: PvcInfo) -> Seq<char> {
    c.name@ + " ("@ + c.capacity@ + ")"@
}

/// The menu of the claims of `namespace`, and the message: none found
/// sends the user back to browsing.
pub fn claim_menu(namespace: &str, claims: &[PvcInfo]) -> (r: (Vec<FileEntry>, String))
    ensures
        r.0@.len() == claims@.len(),
        forall|i: int| 0 <= i < r.0@.len() ==> is_menu_line(#[trigger] r.0@[i], claim_line_name(claims@[i])),
        r.1@ == if claims@.len() == 0 {
            "No PVCs found in namespace '"@ + namespace@ + "'"@
        } else {
            "Select PVC (↑/↓ to navigate, Enter to select, Esc to cancel)"@
        },
{
    let mut v: Vec<FileEntry> = Vec::new();
    let mut i: usize = 0;
    while i < claims.len()
        invariant
            i <= claims@.len(),
            v@.len() == i,
            forall|j: int| 0 <= j < i ==> is_menu_line(#[trigger] v@[j], claim_line_name(claims@[j])),
        decreases claims@.len() - i,
    {
        let mut name = to_string(claims[i].name.as_str());
        push_str(&mut name, " (");
        push_str(&mut name, claims[i].capacity.as_str());
        push_str(&mut name, ")");
        v.push(menu_line(name));
        i = i + 1;
    }
    let message = if claims.len() == 0 {
        let mut m = to_string("No PVCs found in namespace '");
        push_str(&mut m, namespace);
        push_str(&mut m, "'");
        m
    } else {
        to_string("Select PVC (↑/↓ to navigate, Enter to select, Esc to cancel)")
    };
    (v, message)
}

/// What choosing a line of the claim menu connects to: the claim named
/// before the capacity, browsed from `/data`, and the message.
pub fn claim_connection(line: &str) -> (r: (String, String, String))
    ensures
        r.0@ == before_first(line@, " ("@),
        r.1@ == "/data"@,
        r.2@ == "Connected to PVC: "@ + r.0@,
{
    proof {
        reveal_strlit(" (");
    }
    let name = text_before(line, " (");
    let mut message = to_string("Connected to PVC: ");
    push_str(&mut message, name.as_str());
    (name, to_string("/data"), message)
}

/// What choosing a line of the volume menu connects to: the volume named
/// by the line's first word, in the namespace `default`, browsed from
/// `/data`, and the message.
pub fn volume_connection(line: &str) -> (r: (String, String, String, String))
    ensures
        r.0@ == before_first(line@, " "@),
        r.1@ == "default"@,
        r.2@ == "/data"@,
        r.3@ == "Connected to PV: "@ + r.0@,
{
    proof {
        reveal_strlit(" ");
    }
    let name = text_before(line, " ");
    let mut message = to_string("Connected to PV: ");
    push_str(&mut message, name.as_str());
    (name, to_string("default"), to_string("/data"), message)
}

/// The menu of namespaces to choose from.
pub fn namespace_menu(namespaces: &[String]) -> (r: Vec<FileEntry>)
    ensures
        r@.len() == namespaces@.len(),
        forall|i: int| 0 <= i < r@.len() ==> is_menu_line(#[trigger] r@[i], namespaces@[i]@),
{
    let mut v: Vec<FileEntry> = Vec::new();
    let mut i: usize = 0;
    while i < namespaces.len()
        invariant
            i <= namespaces@.len(),
            v@.len() == i,
            forall|j: int| 0 <= j < i ==> is_menu_line(#[trigger] v@[j], namespaces@[j]@),
        decreases namespaces@.len() - i,
    {
        v.push(menu_line(to_string(namespaces[i].as_str())));
        i = i + 1;
    }
    v
}

/// `s` without all the copies of `p` it starts with.
pub open spec fn strip_leading(s: Seq<char>, p: Seq<char>) -> Seq<char>
    decreases s.len(),
{
    if p.len() > 0 && p.len() <= s.len() && s.take(p.len() as int) == p {
        strip_leading(s.skip(p.len() as int), p)
    } else {
        s
    }
}

/// The provider named by a line of the cloud menu: the line without its
/// leading cloud marks.
pub fn provider_name(line: &str) -> (r: String)
    ensures
        r@ == strip_leading(line@, "☁ "@),
{
    let cs = chars_of(line);
    let ps = chars_of("☁ ");
    proof {
        reveal_strlit("☁ ");
    }
    let mut i: usize = 0;
    assert(line@.skip(0) =~= line@);
    loop
        invariant
            cs@ == line@,
            ps@ == "☁ "@,
            ps@.len() == 2,
            i <= cs@.len(),
            strip_leading(line@, "☁ "@) == strip_leading(line@.skip(i as int), "☁ "@),
        decreases cs@.len() - i,
    {
        let ghost rest = line@.skip(i as int);
        if i < cs.len() && cs.len() - i >= 2 && cs[i] == ps[0] && cs[i + 1] == ps[1] {
            assert(rest.take(2) =~= ps@);
            assert(rest.skip(2) =~= line@.skip(i + 2));
            i = i + 2;
        } else {
            assert(rest.take(2) != ps@ || rest.len() < 2) by {
                if rest.len() >= 2 {
                    assert(rest.take(2)[0] == cs@[i as int]);
                    assert(rest.take(2)[1] == cs@[i + 1]);
                }
            }
            assert(strip_leading(rest, "☁ "@) == rest);
            assert(cs@.subrange(i as int, cs@.len() as int) =~= rest);
            return string_of_range(&cs, i, cs.len());
        }
    }
}

/// The value of the variable `name` in `env`: that of its first pair.
pub open spec fn env_lookup(env: Seq<(Seq<char>, Seq<char>)>, name: Seq<char>) -> Option<Seq<char>>
    decreases env.len(),
{
    if env.len() == 0 {
        None
    } else if env[0].0 == name {
        Some(env[0].1)
    } else {
        env_lookup(env.drop_first(), name)
    }
}

/// The pairs of `env` as text.
pub open spec fn env_view(env: Seq<(String, String)>) -> Seq<(Seq<char>, Seq<char>)> {
    env.map_values(|p: (String, String)| (p.0@, p.1@))
}

/// The value of the variable `name` among the variables `env`.
pub fn env_value(env: &[(String, String)], name: &str) -> (r: Option<String>)
    ensures
        match env_lookup(env_view(env@), name@) {
            Some(v) => r matches Some(s) && s@ == v,
            None => r is None,
        },
{
    let mut i: usize = 0;
    assert(env_view(env@).skip(0) =~= env_view(env@));
    while i < env.len()
        invariant
            i <= env@.len(),
            env_lookup(env_view(env@), name@) == env_lookup(env_view(env@).skip(i as int), name@),
        decreases env@.len() - i,
    {
        let ghost rest = env_view(env@).skip(i as int);
        assert(rest.drop_first() =~= env_view(env@).skip(i + 1));
        if str_eq(env[i].0.as_str(), name) {
            return Some(to_string(env[i].1.as_str()));
        }
        i = i + 1;
    }
    None
}

/// What an S3-compatible connection is made with: the bucket, the region
/// (for Cloudflare R2, the account), the provider, and the access key and
/// secret; without them the provider's own credential chain is used.
#[derive(Debug, Clone)]
pub struct S3Settings {
    pub bucket: String,
    pub region: String,
    pub provider: S3Provider,
    pub credentials: Option<(String, String)>,
}

/// The connection to make to a cloud provider.
#[derive(Debug, Clone)]
pub enum CloudConnection {
    S3(S3Settings),
    /// A bucket of Google Cloud Storage, with the path of a service account
    /// file, or the ambient credentials without one.
    Gcs { bucket: String, credentials_file: Option<String> },
}

/// Why no connection could be described.
#[derive(Debug, Clone, PartialEq, Eq)]
pub enum ConnectError {
    /// A variable the provider needs is not set.
    MissingEnv { name: String },
    /// The provider is not one of the menu's.
    UnknownProvider { name: String },
}

impl ConnectError {
    /// The error's text.
    pub fn message(&self) -> (r: String)
        ensures
            r@ == match self {
                ConnectError::MissingEnv { name } => "Missing env var: "@ + name@,
                ConnectError::UnknownProvider { name } => "Unknown provider: "@ + name@,
            },
    {
        match self {
            ConnectError::MissingEnv { name } => {
                let mut s = to_string("Missing env var: ");
                push_str(&mut s, name.as_str());
                s
            },
            ConnectError::UnknownProvider { name } => {
                let mut s = to_string("Unknown provider: ");
                push_str(&mut s, name.as_str());
                s
            },
        }
    }
}

/// The S3 settings `c` are those of `provider` with the given bucket,
/// region and credentials.
pub open spec fn s3_is(
    c: CloudConnection,
    provider: S3Provider,
    bucket: Seq<char>,
    region: Seq<char>,
    credentials: Option<(Seq<char>, Seq<char>)>,
) -> bool {
    &&& c matches CloudConnection::S3(s)
    &&& s.provider == provider
    &&& s.bucket@ == bucket
    &&& s.region@ == region
    &&& match (s.credentials, credentials) {
        (None, None) => true,
        (Some(k), Some(w)) => k.0@ == w.0 && k.1@ == w.1,
        _ => false,
    }
}

/// The connection to a keyed provider, which needs the variables
/// `bucket_var`, `region_var` (when it has one; MinIO's region is
/// `us-east-1`), `key_var` and `secret_var`: the first of them that is
/// missing is the error.
pub open spec fn keyed_connection(
    env: Seq<(Seq<char>, Seq<char>)>,
    provider: S3Provider,
    bucket_var: Seq<char>,
    region_var: Option<Seq<char>>,
    key_var: Seq<char>,
    secret_var: Seq<char>,
    r: Result<CloudConnection, ConnectError>,
) -> bool {
    let bucket = env_lookup(env, bucket_var);
    let region = match region_var {
        Some(v) => env_lookup(env, v),
        None => Some("us-east-1"@),
    };
    let key = env_lookup(env, key_var);
    let secret = env_lookup(env, secret_var);
    if bucket is None {
        r matches Err(ConnectError::MissingEnv { name }) && name@ == bucket_var
    } else if region is None {
        r matches Err(ConnectError::MissingEnv { name }) && name@ == region_var->0
    } else if key is None {
        r matches Err(ConnectError::MissingEnv { name }) && name@ == key_var
    } else if secret is None {
        r matches Err(ConnectError::MissingEnv { name }) && name@ == secret_var
    } else {
        r matches Ok(c) && s3_is(c, provider, bucket->0, region->0, Some((key->0, secret->0)))
    }
}

/// The connection to make to the provider named `provider`, with the
/// variables `env`.
pub open spec fn cloud_connection_spec(
    provider: Seq<char>,
    env: Seq<(Seq<char>, Seq<char>)>,
    r: Result<CloudConnection, ConnectError>,
) -> bool {
    if provider == "AWS S3"@ {
        match env_lookup(env, "S3_BUCKET"@) {
            None => r matches Err(ConnectError::MissingEnv { name }) && name@ == "S3_BUCKET"@,
            Some(bucket) => r matches Ok(c) && s3_is(
                c,
                S3Provider::Aws,
                bucket,
                match env_lookup(env, "AWS_REGION"@) {
                    Some(region) => region,
                    None => "us-east-1"@,
                },
                match (env_lookup(env, "AWS_ACCESS_KEY_ID"@), env_lookup(env, "AWS_SECRET_ACCESS_KEY"@)) {
                    (Some(k), Some(s)) => Some((k, s)),
                    _ => None,
                },
            ),
        }
    } else if provider == "Google Cloud Storage (GCS)"@ {
        match env_lookup(env, "GCS_BUCKET"@) {
            None => r matches Err(ConnectError::MissingEnv { name }) && name@ == "GCS_BUCKET"@,
            Some(bucket) => r matches Ok(CloudConnection::Gcs { bucket: b, credentials_file: f })
                && b@ == bucket && match (f, env_lookup(env, "GOOGLE_APPLICATION_CREDENTIALS"@)) {
                (None, None) => true,
                (Some(x), Some(y)) => x@ == y,
                _ => false,
            },
        }
    } else if provider == "DigitalOcean Spaces"@ {
        keyed_connection(
            env,
            S3Provider::DigitalOcean,
            "DO_BUCKET"@,
            Some("DO_REGION"@),
            "DO_ACCESS_KEY_ID"@,
            "DO_SECRET_ACCESS_KEY"@,
            r,
        )
    } else if provider == "Hetzner Object Storage"@ {
        keyed_connection(
            env,
            S3Provider::Hetzner,
            "HETZNER_BUCKET"@,
            Some("HETZNER_REGION"@),
            "HETZNER_ACCESS_KEY"@,
            "HETZNER_SECRET_ACCESS_KEY"@,
            r,
        )
    } else if provider == "Cloudflare R2"@ {
        keyed_connection(
            env,
            S3Provider::CloudflareR2,
            "R2_BUCKET"@,
            Some("R2_ACCOUNT_ID"@),
            "R2_ACCESS_KEY_ID"@,
            "R2_SECRET_ACCESS_KEY"@,
            r,
        )
    } else if provider == "MinIO (Local/Self-hosted)"@ {
        keyed_connection(
            env,
            S3Provider::MinIO,
            "MINIO_BUCKET"@,
            None,
            "MINIO_ACCESS_KEY"@,
            "MINIO_SECRET_KEY"@,
            r,
        )
    } else if provider == "Wasabi"@ {
        keyed_connection(
            env,
            S3Provider::Wasabi,
            "WASABI_BUCKET"@,
            Some("WASABI_REGION"@),
            "WASABI_ACCESS_KEY"@,
            "WASABI_SECRET_KEY"@,
            r,
        )
    } else {
        r matches Err(ConnectError::UnknownProvider { name }) && name@ == provider
    }
}

/// The value of `name`, or the error that it is missing.
fn required(env: &[(String, String)], name: &str) -> (r: Result<String, ConnectError>)
    ensures
        match env_lookup(env_view(env@), name@) {
            Some(v) => r matches Ok(s) && s@ == v,
            None => r matches Err(ConnectError::MissingEnv { name: n }) && n@ == name@,
        },
{
    match env_value(env, name) {
        Some(v) => Ok(v),
        None => Err(ConnectError::MissingEnv { name: to_string(name) }),
    }
}

/// The connection to a provider that needs a bucket, a region (unless it
/// has a fixed one), a key and a secret.
fn keyed(
    env: &[(String, String)],
    provider: S3Provider,
    bucket_var: &str,
    region_var: Option<&str>,
    key_var: &str,
    secret_var: &str,
) -> (r: Result<CloudConnection, ConnectError>)
    ensures
        keyed_connection(
            env_view(env@),
            provider,
            bucket_var@,
            match region_var {
                Some(v) => Some(v@),
                None => None,
            },
            key_var@,
            secret_var@,
            r,
        ),
{
    let bucket = match required(env, bucket_var) {
        Ok(v) => v,
        Err(err) => {
            return Err(err);
        },
    };
    let region = match region_var {
        Some(v) => match required(env, v) {
            Ok(x) => x,
            Err(err) => {
                return Err(err);
            },
        },
        None => to_string("us-east-1"),
    };
    let key = match required(env, key_var) {
        Ok(v) => v,
        Err(err) => {
            return Err(err);
        },
    };
    let secret = match required(env, secret_var) {
        Ok(v) => v,
        Err(err) => {
            return Err(err);
        },
    };
    Ok(CloudConnection::S3(S3Settings { bucket, region, provider, credentials: Some((key, secret)) }))
}

/// The connection to make to the provider named `provider` (a line of the
/// cloud menu without its mark), with the variables `env`: AWS S3 needs
/// `S3_BUCKET`, takes its region from `AWS_REGION` (else `us-east-1`) and
/// keys from `AWS_ACCESS_KEY_ID` and `AWS_SECRET_ACCESS_KEY` when both are
/// set; Google Cloud Storage needs `GCS_BUCKET` and takes a service account
/// file from `GOOGLE_APPLICATION_CREDENTIALS`; the other providers need a
/// bucket, a region (not MinIO), a key and a secret.
pub fn cloud_connection(provider: &str, env: &[(String, String)]) -> (r: Result<CloudConnection, ConnectError>)
    ensures
        cloud_connection_spec(provider@, env_view(env@), r),
{
    if str_eq(provider, "AWS S3") {
        let bucket = match required(env, "S3_BUCKET") {
            Ok(v) => v,
            Err(err) => {
                return Err(err);
            },
        };
        let region = match env_value(env, "AWS_REGION") {
            Some(r) => r,
            None => to_string("us-east-1"),
        };
        let credentials = match (env_value(env, "AWS_ACCESS_KEY_ID"), env_value(env, "AWS_SECRET_ACCESS_KEY")) {
            (Some(k), Some(s)) => Some((k, s)),
            _ => None,
        };
        Ok(CloudConnection::S3(S3Settings { bucket, region, provider: S3Provider::Aws, credentials }))
    } else if str_eq(provider, "Google Cloud Storage (GCS)") {
        let bucket = match required(env, "GCS_BUCKET") {
            Ok(v) => v,
            Err(err) => {
                return Err(err);
            },
        };
        Ok(CloudConnection::Gcs { bucket, credentials_file: env_value(env, "GOOGLE_APPLICATION_CREDENTIALS") })
    } else if str_eq(provider, "DigitalOcean Spaces") {
        keyed(env, S3Provider::DigitalOcean, "DO_BUCKET", Some("DO_REGION"), "DO_ACCESS_KEY_ID", "DO_SECRET_ACCESS_KEY")
    } else if str_eq(provider, "Hetzner Object Storage") {
        keyed(
            env,
            S3Provider::Hetzner,
            "HETZNER_BUCKET",
            Some("HETZNER_REGION"),
            "HETZNER_ACCESS_KEY",
            "HETZNER_SECRET_ACCESS_KEY",
        )
    } else if str_eq(provider, "Cloudflare R2") {
        keyed(env, S3Provider::CloudflareR2, "R2_BUCKET", Some("R2_ACCOUNT_ID"), "R2_ACCESS_KEY_ID", "R2_SECRET_ACCESS_KEY")
    } else if str_eq(provider, "MinIO (Local/Self-hosted)") {
        keyed(env, S3Provider::MinIO, "MINIO_BUCKET", None, "MINIO_ACCESS_KEY", "MINIO_SECRET_KEY")
    } else if str_eq(provider, "Wasabi") {
        keyed(env, S3Provider::Wasabi, "WASABI_BUCKET", Some("WASABI_REGION"), "WASABI_ACCESS_KEY", "WASABI_SECRET_KEY")
    } else {
        Err(ConnectError::UnknownProvider { name: to_string(provider) })
    }
}

/// The status message after connecting to `provider` finished with
/// `outcome` (the error's text on failure).
pub fn connection_message(provider: &str, outcome: Result<(), String>) -> (r: String)
    ensures
        r@ == match outcome {
            Ok(_) => "Connected to "@ + provider@,
            Err(e) => "❌ Connection failed: "@ + e@,
        },
{
    match outcome {
        Ok(_) => {
            let mut s = to_string("Connected to ");
            push_str(&mut s, provider);
            s
        },
        Err(e) => {
            let mut s = to_string("❌ Connection failed: ");
            push_str(&mut s, e.as_str());
            s
        },
    }
}

} // verus!
