//! Secret storage: the backend interface, an in-memory backend, and the
//! value cache and command protocol of the macOS Keychain backend.
use vstd::prelude::*;

use crate::config::{service_name_of, Config};
use crate::store::SecretStore;
use crate::text::{chars_of, contains_chars, contains_sub, string_of, trim, trim_chars};

verus! {

/// Why a Keychain operation failed.
pub enum KeychainError {
    /// `security add-generic-password` reported failure.
    SaveFailed,
    /// The item to delete does not exist.
    NotFound,
    /// `security delete-generic-password` failed for another reason; `detail`
    /// is its trimmed error output.
    DeleteFailed { detail: String },
    /// The `security` command could not be run; `detail` says why.
    Command { detail: String },
}

/// The text of an error, as the tool prints it.
pub open spec fn error_message(e: KeychainError) -> Seq<char> {
    match e {
        KeychainError::SaveFailed => "failed to save secret to Keychain"@,
        KeychainError::NotFound => "secret not found in Keychain"@,
        KeychainError::DeleteFailed { detail } => "failed to delete secret from Keychain: "@
            + detail@,
        KeychainError::Command { detail } => detail@,
    }
}

impl KeychainError {
    /// The text of the error, as the tool prints it.
    pub fn message(&self) -> (r: String)
        ensures
            r@ == error_message(*self),
    {
        match self {
            KeychainError::SaveFailed => String::from_str("failed to save secret to Keychain"),
            KeychainError::NotFound => String::from_str("secret not found in Keychain"),
            KeychainError::DeleteFailed { detail } => {
                let mut s = String::from_str("failed to delete secret from Keychain: ");
                s.append(detail.as_str());
                s
            },
            KeychainError::Command { detail } => detail.clone(),
        }
    }
}

/// Whether an error says that the secret was not in the Keychain: its
/// message contains "secret not found in Keychain".
pub fn is_not_found_error(error: &KeychainError) -> (r: bool)
    ensures
        r == contains_sub(error_message(*error), "secret not found in Keychain"@),
{
    let m = error.message();
    let hay = chars_of(m.as_str());
    let needle = chars_of("secret not found in Keychain");
    contains_chars(&hay, &needle)
}

/// Storage for secrets, keyed by project and key name.
pub trait KeychainBackend: Send + Sync {
    /// The secret stored for `project`/`key`, if any.
    fn get(&self, project: &str, key: &str) -> Option<String>;

    /// Stores `value` for `project`/`key`.
    fn set(&mut self, project: &str, key: &str, value: &str) -> Result<(), KeychainError>;

    /// Removes the secret stored for `project`/`key`.
    fn delete(&mut self, project: &str, key: &str) -> Result<(), KeychainError>;

    /// The `(key, value)` pairs of those `keys` that have a value, in the
    /// order of `keys`.
    fn list_values(&self, project: &str, keys: &[String]) -> Vec<(String, String)>;
}

/// The views of a list of strings.
pub open spec fn string_views(v: Seq<String>) -> Seq<Seq<char>> {
    v.map_values(|s: String| s@)
}

/// The views of key/value pairs.
pub open spec fn kv_views(v: Seq<(String, String)>) -> Seq<(Seq<char>, Seq<char>)> {
    v.map_values(|p: (String, String)| (p.0@, p.1@))
}

/// The `(key, value)` pairs of those `keys` that `m` holds a value for
/// under `project`, in the order of `keys`.
pub open spec fn present_values(
    m: Map<(Seq<char>, Seq<char>), Seq<char>>,
    project: Seq<char>,
    keys: Seq<Seq<char>>,
) -> Seq<(Seq<char>, Seq<char>)>
    decreases keys.len(),
{
    if keys.len() == 0 {
        Seq::empty()
    } else {
        let r = present_values(m, project, keys.drop_last());
        let k = keys.last();
        if m.contains_key((project, k)) {
            r.push((k, m[(project, k)]))
        } else {
            r
        }
    }
}

/// In-memory backend, for tests and for running without a Keychain.
pub struct MockKeychain {
    store: SecretStore,
}

impl MockKeychain {
    /// What the backend holds, by (project, key).
    pub closed spec fn contents(&self) -> Map<(Seq<char>, Seq<char>), Seq<char>> {
        self.store@
    }

    /// An empty backend.
    pub fn new() -> (m: Self)
        ensures
            m.contents() == Map::<(Seq<char>, Seq<char>), Seq<char>>::empty(),
    {
        MockKeychain { store: SecretStore::new() }
    }

    /// Stores `value` for `project`/`key`.
    pub fn set_mut(&mut self, project: &str, key: &str, value: &str)
        ensures
            final(self).contents() == old(self).contents().insert((project@, key@), value@),
    {
        self.store.insert(project, key, value);
    }

    /// Removes the secret stored for `project`/`key`.
    pub fn delete_mut(&mut self, project: &str, key: &str)
        ensures
            final(self).contents() == old(self).contents().remove((project@, key@)),
    {
        self.store.remove(project, key);
    }
}

impl KeychainBackend for MockKeychain {
    fn get(&self, project: &str, key: &str) -> (r: Option<String>)
        ensures
            r is Some <==> self.contents().contains_key((project@, key@)),
            r matches Some(v) ==> v@ == self.contents()[(project@, key@)],
    {
        self.store.get(project, key)
    }

    fn set(&mut self, project: &str, key: &str, value: &str) -> (r: Result<(), KeychainError>)
        ensures
            r is Ok,
            final(self).contents() == old(self).contents().insert((project@, key@), value@),
    {
        self.store.insert(project, key, value);
        Ok(())
    }

    fn delete(&mut self, project: &str, key: &str) -> (r: Result<(), KeychainError>)
        ensures
            r is Ok,
            final(self).contents() == old(self).contents().remove((project@, key@)),
    {
        self.store.remove(project, key);
        Ok(())
    }

    fn list_values(&self, project: &str, keys: &[String]) -> (r: Vec<(String, String)>)
        ensures
            kv_views(r@) == present_values(self.contents(), project@, string_views(keys@)),
    {
        let ghost ks = string_views(keys@);
        let mut out: Vec<(String, String)> = Vec::new();
        let mut i: usize = 0;
        assert(ks.subrange(0, 0) =~= Seq::<Seq<char>>::empty());
        while i < keys.len()
            invariant
                i <= keys.len(),
                ks == string_views(keys@),
                kv_views(out@) == present_values(self.contents(), project@, ks.subrange(0, i as int)),
            decreases keys.len() - i,
        {
            let ghost before = out@;
            let ghost sub = ks.subrange(0, i + 1);
            assert(sub.drop_last() =~= ks.subrange(0, i as int));
            assert(sub.last() == keys@[i as int]@);
            match self.store.get(project, keys[i].as_str()) {
                Some(v) => {
                    out.push((keys[i].clone(), v));
                    assert(kv_views(out@) =~= kv_views(before).push((keys@[i as int]@, self.contents()[(project@, keys@[i as int]@)])));
                },
                None => {
                },
            }
            i += 1;
        }
        assert(ks.subrange(0, keys.len() as int) =~= ks);
        out
    }
}

// ─── The macOS Keychain backend ───────────────────────────────────────

/// What `String::from_utf8_lossy` makes of `bytes`: their UTF-8 decoding,
/// with each invalid sequence replaced by U+FFFD.
pub uninterp spec fn lossy_utf8(bytes: Seq<u8>) -> Seq<char>;

/// `String::from_utf8_lossy`: the result is `lossy_utf8(bytes)`; for valid
/// UTF-8 it is the decoding of the bytes.
#[verifier::external_body]
pub(crate) fn from_utf8_lossy(bytes: &[u8]) -> (s: String)
    ensures
        s@ == lossy_utf8(bytes@),
        vstd::utf8::valid_utf8(bytes@) ==> s@ == vstd::utf8::decode_utf8(bytes@),
{
    String::from_utf8_lossy(bytes).into_owned()
}

/// The password in the output of `security find-generic-password -w`: the
/// text without one trailing `\n` (and a `\r` before it); none if empty.
pub open spec fn decode_password(text: Seq<char>) -> Option<Seq<char>> {
    let a = if text.len() > 0 && text.last() == '\n' {
        let b = text.drop_last();
        if b.len() > 0 && b.last() == '\r' {
            b.drop_last()
        } else {
            b
        }
    } else {
        text
    };
    if a.len() == 0 {
        None
    } else {
        Some(a)
    }
}

/// Whether the error output of `security delete-generic-password` says
/// the item does not exist.
pub open spec fn says_not_found(text: Seq<char>) -> bool {
    contains_sub(text, "could not be found"@) || contains_sub(text, "not be found"@)
}

/// The views of optional values.
pub open spec fn opt_views(v: Seq<Option<String>>) -> Seq<Option<Seq<char>>> {
    v.map_values(|o: Option<String>| match o {
        Some(s) => Some(s@),
        None => None,
    })
}

/// The views of fetched `(index, key, value)` triples.
pub open spec fn fetched_views(v: Seq<(usize, String, String)>) -> Seq<(int, Seq<char>, Seq<char>)> {
    v.map_values(|t: (usize, String, String)| (t.0 as int, t.1@, t.2@))
}

/// The per-key values after the fetched ones are filled in; a later fetch
/// for the same index wins.
pub open spec fn fill_fetched(
    ordered: Seq<Option<Seq<char>>>,
    fetched: Seq<(int, Seq<char>, Seq<char>)>,
) -> Seq<Option<Seq<char>>>
    decreases fetched.len(),
{
    if fetched.len() == 0 {
        ordered
    } else {
        let f = fetched.last();
        fill_fetched(ordered, fetched.drop_last()).update(f.0, Some(f.2))
    }
}

/// The cache after the fetched values are recorded under `project`.
pub open spec fn cache_fetched(
    m: Map<(Seq<char>, Seq<char>), Seq<char>>,
    project: Seq<char>,
    fetched: Seq<(int, Seq<char>, Seq<char>)>,
) -> Map<(Seq<char>, Seq<char>), Seq<char>>
    decreases fetched.len(),
{
    if fetched.len() == 0 {
        m
    } else {
        let f = fetched.last();
        cache_fetched(m, project, fetched.drop_last()).insert((project, f.1), f.2)
    }
}

/// `(keys[i], v)` for each `i` whose value is `Some(v)`, in order.
pub open spec fn collect_present(keys: Seq<Seq<char>>, vals: Seq<Option<Seq<char>>>) -> Seq<
    (Seq<char>, Seq<char>),
>
    decreases vals.len(),
{
    if vals.len() == 0 {
        Seq::empty()
    } else {
        let r = collect_present(keys, vals.drop_last());
        match vals.last() {
            Some(v) => r.push((keys[vals.len() - 1], v)),
            None => r,
        }
    }
}

/// The keys, in order with their indices, that the cache has no value for.
pub open spec fn uncached_keys(
    m: Map<(Seq<char>, Seq<char>), Seq<char>>,
    project: Seq<char>,
    keys: Seq<Seq<char>>,
) -> Seq<(int, Seq<char>)>
    decreases keys.len(),
{
    if keys.len() == 0 {
        Seq::empty()
    } else {
        let r = uncached_keys(m, project, keys.drop_last());
        if m.contains_key((project, keys.last())) {
            r
        } else {
            r.push((keys.len() - 1, keys.last()))
        }
    }
}

/// The views of `(index, key)` pairs.
pub open spec fn index_key_views(v: Seq<(usize, String)>) -> Seq<(int, Seq<char>)> {
    v.map_values(|p: (usize, String)| (p.0 as int, p.1@))
}

/// The per-key values that the cache already holds.
pub open spec fn cached_values(
    m: Map<(Seq<char>, Seq<char>), Seq<char>>,
    project: Seq<char>,
    keys: Seq<Seq<char>>,
) -> Seq<Option<Seq<char>>> {
    Seq::new(
        keys.len(),
        |i: int|
            if m.contains_key((project, keys[i])) {
                Some(m[(project, keys[i])])
            } else {
                None
            },
    )
}

/// The macOS Keychain backend's own state: a cache of values already read
/// or written, so that repeated lookups need no `security` call.
pub struct RealKeychain {
    value_cache: SecretStore,
}

impl RealKeychain {
    /// The cached values, by (project, key).
    pub closed spec fn cache(&self) -> Map<(Seq<char>, Seq<char>), Seq<char>> {
        self.value_cache@
    }

    /// A backend with an empty cache.
    pub fn new() -> (r: Self)
        ensures
            r.cache() == Map::<(Seq<char>, Seq<char>), Seq<char>>::empty(),
    {
        RealKeychain { value_cache: SecretStore::new() }
    }

    /// The password in the standard output of `security find-generic-password -w`.
    pub fn decode_security_password(stdout: &[u8]) -> (r: Option<String>)
        ensures
            match r {
                Some(v) => decode_password(lossy_utf8(stdout@)) == Some(v@),
                None => decode_password(lossy_utf8(stdout@)) is None,
            },
            vstd::utf8::valid_utf8(stdout@) ==> match r {
                Some(v) => decode_password(vstd::utf8::decode_utf8(stdout@)) == Some(v@),
                None => decode_password(vstd::utf8::decode_utf8(stdout@)) is None,
            },
    {
        let text = from_utf8_lossy(stdout);
        let mut v = chars_of(text.as_str());
        if v.len() > 0 && v[v.len() - 1] == '\n' {
            v.pop();
            if v.len() > 0 && v[v.len() - 1] == '\r' {
                v.pop();
            }
        }
        if v.len() == 0 {
            None
        } else {
            Some(string_of(&v))
        }
    }

    /// The arguments of `security` that read a password.
    pub fn find_password_args(project: &str, key: &str) -> (r: Vec<String>)
        ensures
            string_views(r@) == seq![
                "find-generic-password"@,
                "-s"@,
                service_name_of(project@),
                "-a"@,
                key@,
                "-w"@,
            ],
    {
        let mut r: Vec<String> = Vec::new();
        r.push(String::from_str("find-generic-password"));
        r.push(String::from_str("-s"));
        r.push(Config::service_name(project));
        r.push(String::from_str("-a"));
        r.push(String::from_str(key));
        r.push(String::from_str("-w"));
        assert(string_views(r@) =~= seq![
            "find-generic-password"@,
            "-s"@,
            service_name_of(project@),
            "-a"@,
            key@,
            "-w"@,
        ]);
        r
    }

    /// The arguments of `security` that store (or update) a password.
    pub fn add_password_args(project: &str, key: &str, value: &str) -> (r: Vec<String>)
        ensures
            string_views(r@) == seq![
                "add-generic-password"@,
                "-s"@,
                service_name_of(project@),
                "-a"@,
                key@,
                "-w"@,
                value@,
                "-U"@,
            ],
    {
        let mut r: Vec<String> = Vec::new();
        r.push(String::from_str("add-generic-password"));
        r.push(String::from_str("-s"));
        r.push(Config::service_name(project));
        r.push(String::from_str("-a"));
        r.push(String::from_str(key));
        r.push(String::from_str("-w"));
        r.push(String::from_str(value));
        r.push(String::from_str("-U"));
        assert(string_views(r@) =~= seq![
            "add-generic-password"@,
            "-s"@,
            service_name_of(project@),
            "-a"@,
            key@,
            "-w"@,
            value@,
            "-U"@,
        ]);
        r
    }

    /// The arguments of `security` that delete a password.
    pub fn delete_password_args(project: &str, key: &str) -> (r: Vec<String>)
        ensures
            string_views(r@) == seq![
                "delete-generic-password"@,
                "-s"@,
                service_name_of(project@),
                "-a"@,
                key@,
            ],
    {
        let mut r: Vec<String> = Vec::new();
        r.push(String::from_str("delete-generic-password"));
        r.push(String::from_str("-s"));
        r.push(Config::service_name(project));
        r.push(String::from_str("-a"));
        r.push(String::from_str(key));
        assert(string_views(r@) =~= seq![
            "delete-generic-password"@,
            "-s"@,
            service_name_of(project@),
            "-a"@,
            key@,
        ]);
        r
    }

    /// The cached value for `project`/`key`; a lookup that finds one needs
    /// no `security` call.
    pub fn cached_value(&self, project: &str, key: &str) -> (r: Option<String>)
        ensures
            r is Some <==> self.cache().contains_key((project@, key@)),
            r matches Some(v) ==> v@ == self.cache()[(project@, key@)],
    {
        self.value_cache.get(project, key)
    }

    /// Records what a `security` lookup returned and hands it back; a found
    /// value is cached.
    pub fn record_fetch(&mut self, project: &str, key: &str, fetched: Option<String>) -> (r:
        Option<String>)
        ensures
            r == fetched,
            match fetched {
                Some(v) => final(self).cache() == old(self).cache().insert((project@, key@), v@),
                None => final(self).cache() == old(self).cache(),
            },
    {
        match &fetched {
            Some(v) => {
                self.value_cache.insert(project, key, v.as_str());
            },
            None => {
            },
        }
        fetched
    }

    /// The outcome of storing a password: on success the value is cached.
    pub fn record_set(&mut self, project: &str, key: &str, value: &str, succeeded: bool) -> (r:
        Result<(), KeychainError>)
        ensures
            succeeded ==> r is Ok && final(self).cache() == old(self).cache().insert(
                (project@, key@),
                value@,
            ),
            !succeeded ==> r == Err::<(), KeychainError>(KeychainError::SaveFailed) && final(self).cache() == old(self).cache(),
    {
        if succeeded {
            self.value_cache.insert(project, key, value);
            Ok(())
        } else {
            Err(KeychainError::SaveFailed)
        }
    }

    /// The outcome of deleting a password, from whether the command
    /// succeeded and its error output: on success the cached value is
    /// dropped; an output that says the item could not be found gives
    /// `NotFound`; any other failure gives `DeleteFailed` with the trimmed output.
    pub fn record_delete(&mut self, project: &str, key: &str, succeeded: bool, stderr: &[u8]) -> (r:
        Result<(), KeychainError>)
        ensures
            succeeded ==> r is Ok && final(self).cache() == old(self).cache().remove(
                (project@, key@),
            ),
            !succeeded ==> final(self).cache() == old(self).cache(),
            !succeeded && says_not_found(lossy_utf8(stderr@)) ==> r matches Err(
                KeychainError::NotFound,
            ),
            !succeeded && !says_not_found(lossy_utf8(stderr@)) ==> (r matches Err(
                KeychainError::DeleteFailed { detail },
            ) && detail@ == trim(lossy_utf8(stderr@))),
            !succeeded && vstd::utf8::valid_utf8(stderr@) && says_not_found(vstd::utf8::decode_utf8(stderr@))
                ==> r matches Err(KeychainError::NotFound),
            !succeeded && vstd::utf8::valid_utf8(stderr@) && !says_not_found(vstd::utf8::decode_utf8(stderr@))
                ==> (r matches Err(KeychainError::DeleteFailed { detail }) && detail@ == trim(
                vstd::utf8::decode_utf8(stderr@),
            )),
    {
        if succeeded {
            self.value_cache.remove(project, key);
            return Ok(());
        }
        let text = from_utf8_lossy(stderr);
        let t = chars_of(text.as_str());
        let a = chars_of("could not be found");
        let b = chars_of("not be found");
        if contains_chars(&t, &a) || contains_chars(&t, &b) {
            Err(KeychainError::NotFound)
        } else {
            let trimmed = trim_chars(&t);
            Err(KeychainError::DeleteFailed { detail: string_of(&trimmed) })
        }
    }

    /// Splits a lookup of many keys into the values the cache already has
    /// (by position) and the keys, with their positions, that must be read
    /// from the Keychain.
    pub fn plan_list_values(&self, project: &str, keys: &[String]) -> (r: (
        Vec<Option<String>>,
        Vec<(usize, String)>,
    ))
        ensures
            opt_views(r.0@) == cached_values(self.cache(), project@, string_views(keys@)),
            index_key_views(r.1@) == uncached_keys(self.cache(), project@, string_views(keys@)),
    {
        let ghost ks = string_views(keys@);
        let mut ordered: Vec<Option<String>> = Vec::new();
        let mut uncached: Vec<(usize, String)> = Vec::new();
        let mut i: usize = 0;
        assert(ks.subrange(0, 0) =~= Seq::<Seq<char>>::empty());
        while i < keys.len()
            invariant
                i <= keys.len(),
                ks == string_views(keys@),
                opt_views(ordered@) == cached_values(self.cache(), project@, ks).subrange(0, i as int),
                index_key_views(uncached@) == uncached_keys(self.cache(), project@, ks.subrange(0, i as int)),
            decreases keys.len() - i,
        {
            let ghost sub = ks.subrange(0, i + 1);
            assert(sub.drop_last() =~= ks.subrange(0, i as int));
            assert(sub.last() == keys@[i as int]@);
            let ghost before_o = ordered@;
            let ghost before_u = uncached@;
            assert(ks[i as int] == keys@[i as int]@);
            match self.value_cache.get(project, keys[i].as_str()) {
                Some(v) => {
                    ordered.push(Some(v));
                    assert(opt_views(ordered@) =~= opt_views(before_o).push(Some(v@)));
                    assert(opt_views(ordered@) =~= cached_values(self.cache(), project@, ks).subrange(0, i + 1));
                },
                None => {
                    ordered.push(None);
                    assert(opt_views(ordered@) =~= opt_views(before_o).push(None));
                    uncached.push((i, keys[i].clone()));
                    assert(opt_views(ordered@) =~= cached_values(self.cache(), project@, ks).subrange(0, i + 1));
                    assert(index_key_views(uncached@) =~= index_key_views(before_u).push((i as int, keys@[i as int]@)));
                },
            }
            i += 1;
        }
        assert(ks.subrange(0, keys.len() as int) =~= ks);
        assert(cached_values(self.cache(), project@, ks).subrange(0, keys.len() as int) =~= cached_values(self.cache(), project@, ks));
        (ordered, uncached)
    }

    /// How many threads read the uncached keys and how many keys each takes:
    /// `min(parallelism, uncached)` workers (4 when the parallelism is
    /// unknown) and chunks of `ceil(uncached / workers)` keys.
    pub fn worker_plan(uncached: usize, parallelism: Option<usize>) -> (r: (usize, usize))
        requires
            uncached > 0,
            parallelism matches Some(p) ==> p > 0,
        ensures
            r.0 == (match parallelism {
                Some(p) => if p < uncached { p } else { uncached },
                None => if 4 < uncached { 4 } else { uncached },
            }),
            r.0 > 0,
            r.1 == (uncached + r.0 - 1) / (r.0 as int),
    {
        let p = match parallelism {
            Some(p) => p,
            None => 4,
        };
        let workers = if p < uncached { p } else { uncached };
        let q = uncached / workers;
        assert(uncached % workers != 0 ==> q < uncached) by (nonlinear_arith)
            requires
                workers > 0,
                q == uncached / workers,
        ;
        let chunk = if uncached % workers == 0 { q } else { q + 1 };
        proof {
            let n = uncached as int;
            let w = workers as int;
            assert((n + w - 1) / w == if n % w == 0 { n / w } else { n / w + 1 }) by (nonlinear_arith)
                requires w > 0, n >= 0;
        }
        (workers, chunk)
    }

    /// Completes a lookup of many keys: caches the values read from the
    /// Keychain, fills them into their positions, and returns the
    /// `(key, value)` pairs of the keys that have a value, in key order.
    pub fn finish_list_values(
        &mut self,
        project: &str,
        keys: &[String],
        ordered: Vec<Option<String>>,
        fetched: Vec<(usize, String, String)>,
    ) -> (r: Vec<(String, String)>)
        requires
            ordered.len() == keys.len(),
            forall|i: int| 0 <= i < fetched.len() ==> (#[trigger] fetched@[i]).0 < keys.len(),
        ensures
            final(self).cache() == cache_fetched(old(self).cache(), project@, fetched_views(fetched@)),
            kv_views(r@) == collect_present(
                string_views(keys@),
                fill_fetched(opt_views(ordered@), fetched_views(fetched@)),
            ),
    {
        let ghost fv = fetched_views(fetched@);
        let ghost ks = string_views(keys@);
        let mut vals = ordered;
        let ghost start = opt_views(vals@);
        let mut j: usize = 0;
        assert(fv.subrange(0, 0) =~= Seq::<(int, Seq<char>, Seq<char>)>::empty());
        while j < fetched.len()
            invariant
                j <= fetched.len(),
                fv == fetched_views(fetched@),
                vals.len() == keys.len(),
                forall|i: int| 0 <= i < fetched.len() ==> (#[trigger] fetched@[i]).0 < keys.len(),
                opt_views(vals@) == fill_fetched(start, fv.subrange(0, j as int)),
                self.cache() == cache_fetched(old(self).cache(), project@, fv.subrange(0, j as int)),
            decreases fetched.len() - j,
        {
            let idx = fetched[j].0;
            let ghost sub = fv.subrange(0, j + 1);
            assert(sub.drop_last() =~= fv.subrange(0, j as int));
            assert(sub.last() == (fetched@[j as int].0 as int, fetched@[j as int].1@, fetched@[j as int].2@));
            self.value_cache.insert(project, fetched[j].1.as_str(), fetched[j].2.as_str());
            let ghost before = vals@;
            vals.set(idx, Some(fetched[j].2.clone()));
            assert(opt_views(vals@) =~= opt_views(before).update(idx as int, Some(fetched@[j as int].2@)));
            j += 1;
        }
        assert(fv.subrange(0, fetched.len() as int) =~= fv);
        let ghost filled = opt_views(vals@);
        let mut out: Vec<(String, String)> = Vec::new();
        let mut i: usize = 0;
        assert(filled.subrange(0, 0) =~= Seq::<Option<Seq<char>>>::empty());
        while i < vals.len()
            invariant
                i <= vals.len(),
                vals.len() == keys.len(),
                ks == string_views(keys@),
                filled == opt_views(vals@),
                kv_views(out@) == collect_present(ks, filled.subrange(0, i as int)),
            decreases vals.len() - i,
        {
            let ghost sub = filled.subrange(0, i + 1);
            assert(sub.drop_last() =~= filled.subrange(0, i as int));
            let ghost before = out@;
            match &vals[i] {
                Some(v) => {
                    out.push((keys[i].clone(), v.clone()));
                    assert(kv_views(out@) =~= kv_views(before).push((ks[i as int], v@)));
                },
                None => {
                },
            }
            i += 1;
        }
        assert(filled.subrange(0, vals.len() as int) =~= filled);
        out
    }
}

// ─── Laws ─────────────────────────────────────────────────────────────

/// A backend gives back what was stored: after storing `value` for a pair,
/// a lookup of that pair finds `value`; every other pair keeps its value
/// (or its absence); after deleting a pair, a lookup finds nothing.
pub proof fn lemma_store_then_lookup(
    m: Map<(Seq<char>, Seq<char>), Seq<char>>,
    project: Seq<char>,
    key: Seq<char>,
    value: Seq<char>,
    other: (Seq<char>, Seq<char>),
)
    ensures
        m.insert((project, key), value).contains_key((project, key)),
        m.insert((project, key), value)[(project, key)] == value,
        other != (project, key) ==> (m.insert((project, key), value).contains_key(other)
            == m.contains_key(other) && m.insert((project, key), value)[other] == m[other]),
        !m.remove((project, key)).contains_key((project, key)),
        other != (project, key) ==> (m.remove((project, key)).contains_key(other)
            == m.contains_key(other) && m.remove((project, key))[other] == m[other]),
{
}

/// The Keychain values of the uncached keys, as the lookups of
/// `list_values` find them: `(index, key, value)` for each uncached key
/// that the Keychain holds.
pub open spec fn keychain_fetches(
    k: Map<(Seq<char>, Seq<char>), Seq<char>>,
    project: Seq<char>,
    uncached: Seq<(int, Seq<char>)>,
) -> Seq<(int, Seq<char>, Seq<char>)>
    decreases uncached.len(),
{
    if uncached.len() == 0 {
        Seq::empty()
    } else {
        let r = keychain_fetches(k, project, uncached.drop_last());
        let (i, key) = uncached.last();
        if k.contains_key((project, key)) {
            r.push((i, key, k[(project, key)]))
        } else {
            r
        }
    }
}

/// Every value in the cache is the Keychain's value.
pub open spec fn cache_agrees(
    cache: Map<(Seq<char>, Seq<char>), Seq<char>>,
    k: Map<(Seq<char>, Seq<char>), Seq<char>>,
) -> bool {
    forall|pair: (Seq<char>, Seq<char>)|
        #[trigger] cache.contains_key(pair) ==> k.contains_key(pair) && k[pair] == cache[pair]
}

proof fn lemma_fill_extend(
    ordered: Seq<Option<Seq<char>>>,
    c: Option<Seq<char>>,
    fetched: Seq<(int, Seq<char>, Seq<char>)>,
)
    requires
        forall|j: int| 0 <= j < fetched.len() ==> 0 <= (#[trigger] fetched[j]).0 < ordered.len(),
    ensures
        fill_fetched(ordered.push(c), fetched) == fill_fetched(ordered, fetched).push(c),
        fill_fetched(ordered, fetched).len() == ordered.len(),
    decreases fetched.len(),
{
    if fetched.len() > 0 {
        let fp = fetched.drop_last();
        assert forall|j: int| 0 <= j < fp.len() implies 0 <= (#[trigger] fp[j]).0 < ordered.len() by {
            assert(fp[j] == fetched[j]);
        }
        lemma_fill_extend(ordered, c, fp);
        let f = fetched.last();
        assert(fetched[fetched.len() - 1] == f);
        assert(fill_fetched(ordered.push(c), fetched) =~= fill_fetched(ordered, fetched).push(c));
    }
}

proof fn lemma_collect_extend(keys: Seq<Seq<char>>, key: Seq<char>, vals: Seq<Option<Seq<char>>>)
    requires
        vals.len() <= keys.len(),
    ensures
        collect_present(keys.push(key), vals) == collect_present(keys, vals),
    decreases vals.len(),
{
    if vals.len() > 0 {
        lemma_collect_extend(keys, key, vals.drop_last());
        assert(keys.push(key)[vals.len() - 1] == keys[vals.len() - 1]);
    }
}

proof fn lemma_uncached_indices(
    m: Map<(Seq<char>, Seq<char>), Seq<char>>,
    project: Seq<char>,
    keys: Seq<Seq<char>>,
)
    ensures
        forall|j: int|
            0 <= j < uncached_keys(m, project, keys).len() ==> 0 <= (#[trigger] uncached_keys(
                m,
                project,
                keys,
            )[j]).0 < keys.len(),
    decreases keys.len(),
{
    if keys.len() > 0 {
        let kp = keys.drop_last();
        lemma_uncached_indices(m, project, kp);
        let r = uncached_keys(m, project, kp);
        let u = uncached_keys(m, project, keys);
        assert forall|j: int| 0 <= j < u.len() implies 0 <= (#[trigger] u[j]).0 < keys.len() by {
            if j < r.len() {
                assert(u[j] == r[j]);
            }
        }
    }
}

proof fn lemma_fetch_indices(
    k: Map<(Seq<char>, Seq<char>), Seq<char>>,
    project: Seq<char>,
    unc: Seq<(int, Seq<char>)>,
    bound: int,
)
    requires
        forall|j: int| 0 <= j < unc.len() ==> 0 <= (#[trigger] unc[j]).0 < bound,
    ensures
        forall|j: int|
            0 <= j < keychain_fetches(k, project, unc).len() ==> 0 <= (#[trigger] keychain_fetches(
                k,
                project,
                unc,
            )[j]).0 < bound,
    decreases unc.len(),
{
    if unc.len() > 0 {
        let up = unc.drop_last();
        assert forall|j: int| 0 <= j < up.len() implies 0 <= (#[trigger] up[j]).0 < bound by {
            assert(up[j] == unc[j]);
        }
        lemma_fetch_indices(k, project, up, bound);
        assert(unc[unc.len() - 1] == unc.last());
        let r = keychain_fetches(k, project, up);
        let f = keychain_fetches(k, project, unc);
        assert forall|j: int| 0 <= j < f.len() implies 0 <= (#[trigger] f[j]).0 < bound by {
            if j < r.len() {
                assert(f[j] == r[j]);
            }
        }
    }
}

/// The cache never changes what a lookup of many keys gives: when every
/// cached value is the Keychain's and the uncached keys are read from the
/// Keychain, the pairs returned are exactly the Keychain's pairs for the
/// keys that have a value, in key order.
pub proof fn lemma_cached_lookup_matches_keychain(
    cache: Map<(Seq<char>, Seq<char>), Seq<char>>,
    k: Map<(Seq<char>, Seq<char>), Seq<char>>,
    project: Seq<char>,
    keys: Seq<Seq<char>>,
)
    requires
        cache_agrees(cache, k),
    ensures
        collect_present(
            keys,
            fill_fetched(
                cached_values(cache, project, keys),
                keychain_fetches(k, project, uncached_keys(cache, project, keys)),
            ),
        ) == present_values(k, project, keys),
    decreases keys.len(),
{
    if keys.len() > 0 {
        let kp = keys.drop_last();
        let key = keys.last();
        let n = kp.len() as int;
        lemma_cached_lookup_matches_keychain(cache, k, project, kp);
        let op = cached_values(cache, project, kp);
        let o = cached_values(cache, project, keys);
        let up = uncached_keys(cache, project, kp);
        let fp = keychain_fetches(k, project, up);
        lemma_uncached_indices(cache, project, kp);
        lemma_fetch_indices(k, project, up, n);
        let c: Option<Seq<char>> = if cache.contains_key((project, key)) {
            Some(cache[(project, key)])
        } else {
            None
        };
        assert(o =~= op.push(c));
        assert(keys =~= kp.push(key));
        lemma_fill_extend(op, c, fp);
        let filled_p = fill_fetched(op, fp);
        lemma_collect_extend(kp, key, filled_p);
        if cache.contains_key((project, key)) {
            assert(uncached_keys(cache, project, keys) == up);
            let filled = fill_fetched(o, fp);
            assert(filled == filled_p.push(c));
            assert(filled.drop_last() =~= filled_p);
            assert(k.contains_key((project, key)));
        } else {
            assert(uncached_keys(cache, project, keys) == up.push((n, key)));
            assert(up.push((n, key)).drop_last() =~= up);
            if k.contains_key((project, key)) {
                let f = keychain_fetches(k, project, up.push((n, key)));
                assert(f == fp.push((n, key, k[(project, key)])));
                assert(f.drop_last() =~= fp);
                let filled = fill_fetched(o, f);
                assert(filled == fill_fetched(o, fp).update(n, Some(k[(project, key)])));
                assert(filled =~= filled_p.push(Some(k[(project, key)])));
                assert(filled.drop_last() =~= filled_p);
            } else {
                let f = keychain_fetches(k, project, up.push((n, key)));
                assert(f == fp);
                let filled = fill_fetched(o, fp);
                assert(filled == filled_p.push(c));
                assert(filled.drop_last() =~= filled_p);
            }
        }
    }
}

/// The indices of `fetched` lie in `0..n` and no two are the same.
pub open spec fn distinct_indices(fetched: Seq<(int, Seq<char>, Seq<char>)>, n: int) -> bool {
    &&& forall|j: int| 0 <= j < fetched.len() ==> 0 <= (#[trigger] fetched[j]).0 < n
    &&& forall|a: int, b: int|
        0 <= a < fetched.len() && 0 <= b < fetched.len() && a != b ==> (#[trigger] fetched[a]).0
            != (#[trigger] fetched[b]).0
}

proof fn lemma_uncached_increasing(
    m: Map<(Seq<char>, Seq<char>), Seq<char>>,
    project: Seq<char>,
    keys: Seq<Seq<char>>,
)
    ensures
        ({
            let u = uncached_keys(m, project, keys);
            forall|a: int, b: int| 0 <= a < b < u.len() ==> (#[trigger] u[a]).0 < (#[trigger] u[b]).0
        }),
    decreases keys.len(),
{
    if keys.len() > 0 {
        let kp = keys.drop_last();
        lemma_uncached_increasing(m, project, kp);
        lemma_uncached_indices(m, project, kp);
        let r = uncached_keys(m, project, kp);
        let u = uncached_keys(m, project, keys);
        assert forall|a: int, b: int| 0 <= a < b < u.len() implies (#[trigger] u[a]).0 < (#[trigger] u[b]).0 by {
            assert(u[a] == r[a]);
            if b < r.len() {
                assert(u[b] == r[b]);
            }
        }
    }
}

proof fn lemma_fetch_increasing(
    k: Map<(Seq<char>, Seq<char>), Seq<char>>,
    project: Seq<char>,
    unc: Seq<(int, Seq<char>)>,
)
    requires
        forall|a: int, b: int| 0 <= a < b < unc.len() ==> (#[trigger] unc[a]).0 < (#[trigger] unc[b]).0,
        forall|j: int| 0 <= j < unc.len() ==> 0 <= (#[trigger] unc[j]).0,
    ensures
        ({
            let f = keychain_fetches(k, project, unc);
            forall|a: int, b: int| 0 <= a < b < f.len() ==> (#[trigger] f[a]).0 < (#[trigger] f[b]).0
        }),
    decreases unc.len(),
{
    if unc.len() > 0 {
        let up = unc.drop_last();
        let last = unc.last();
        assert forall|a: int, b: int| 0 <= a < b < up.len() implies (#[trigger] up[a]).0 < (#[trigger] up[b]).0 by {
            assert(up[a] == unc[a] && up[b] == unc[b]);
        }
        assert forall|j: int| 0 <= j < up.len() implies 0 <= (#[trigger] up[j]).0 < last.0 by {
            assert(up[j] == unc[j]);
            assert(unc[unc.len() - 1] == last);
        }
        lemma_fetch_increasing(k, project, up);
        lemma_fetch_indices(k, project, up, last.0);
        let r = keychain_fetches(k, project, up);
        let f = keychain_fetches(k, project, unc);
        assert forall|a: int, b: int| 0 <= a < b < f.len() implies (#[trigger] f[a]).0 < (#[trigger] f[b]).0 by {
            assert(f[a] == r[a]);
            if b < r.len() {
                assert(f[b] == r[b]);
            }
        }
    }
}

proof fn lemma_fill_pointwise(ordered: Seq<Option<Seq<char>>>, fetched: Seq<(int, Seq<char>, Seq<char>)>)
    requires
        distinct_indices(fetched, ordered.len() as int),
    ensures
        fill_fetched(ordered, fetched).len() == ordered.len(),
        forall|j: int| 0 <= j < fetched.len() ==> fill_fetched(ordered, fetched)[(#[trigger] fetched[j]).0]
            == Some(fetched[j].2),
        forall|i: int| 0 <= i < ordered.len() && (forall|j: int| 0 <= j < fetched.len() ==> (#[trigger] fetched[j]).0 != i)
            ==> fill_fetched(ordered, fetched)[i] == ordered[i],
    decreases fetched.len(),
{
    if fetched.len() > 0 {
        let fp = fetched.drop_last();
        let n = fetched.len() - 1;
        assert forall|a: int, b: int| 0 <= a < fp.len() && 0 <= b < fp.len() && a != b implies (#[trigger] fp[a]).0
            != (#[trigger] fp[b]).0 by {
            assert(fp[a] == fetched[a] && fp[b] == fetched[b]);
        }
        assert forall|j: int| 0 <= j < fp.len() implies 0 <= (#[trigger] fp[j]).0 < ordered.len() by {
            assert(fp[j] == fetched[j]);
        }
        lemma_fill_pointwise(ordered, fp);
        let r = fill_fetched(ordered, fp);
        let last = fetched[n];
        assert(fetched.last() == last);
        assert forall|j: int| 0 <= j < fetched.len() implies fill_fetched(ordered, fetched)[(#[trigger] fetched[j]).0]
            == Some(fetched[j].2) by {
            if j < n {
                assert(fp[j] == fetched[j]);
                assert(fetched[j].0 != last.0);
            }
        }
        assert forall|i: int| 0 <= i < ordered.len() && (forall|j: int| 0 <= j < fetched.len() ==> (#[trigger] fetched[j]).0 != i)
            implies fill_fetched(ordered, fetched)[i] == ordered[i] by {
            assert(fetched[n].0 != i);
            assert forall|j: int| 0 <= j < fp.len() implies (#[trigger] fp[j]).0 != i by {
                assert(fp[j] == fetched[j]);
            }
        }
    }
}

proof fn lemma_fill_same_contents(
    ordered: Seq<Option<Seq<char>>>,
    f: Seq<(int, Seq<char>, Seq<char>)>,
    g: Seq<(int, Seq<char>, Seq<char>)>,
)
    requires
        distinct_indices(f, ordered.len() as int),
        distinct_indices(g, ordered.len() as int),
        forall|x: (int, Seq<char>, Seq<char>)| f.contains(x) <==> g.contains(x),
    ensures
        fill_fetched(ordered, f) == fill_fetched(ordered, g),
{
    lemma_fill_pointwise(ordered, f);
    lemma_fill_pointwise(ordered, g);
    let a = fill_fetched(ordered, f);
    let b = fill_fetched(ordered, g);
    assert forall|i: int| 0 <= i < a.len() implies a[i] == b[i] by {
        if exists|j: int| 0 <= j < f.len() && (#[trigger] f[j]).0 == i {
            let j = choose|j: int| 0 <= j < f.len() && (#[trigger] f[j]).0 == i;
            assert(f.contains(f[j]));
            let k = choose|k: int| 0 <= k < g.len() && g[k] == f[j];
            assert(b[g[k].0] == Some(g[k].2));
            assert(a[f[j].0] == Some(f[j].2));
        } else if exists|k: int| 0 <= k < g.len() && (#[trigger] g[k]).0 == i {
            let k = choose|k: int| 0 <= k < g.len() && (#[trigger] g[k]).0 == i;
            assert(g.contains(g[k]));
            let j = choose|j: int| 0 <= j < f.len() && f[j] == g[k];
            assert(f[j].0 == i);
        } else {
            assert forall|j: int| 0 <= j < g.len() implies (#[trigger] g[j]).0 != i by {}
            assert forall|j: int| 0 <= j < f.len() implies (#[trigger] f[j]).0 != i by {}
            assert(a[i] == ordered[i]);
            assert(b[i] == ordered[i]);
        }
    }
    assert(a =~= b);
}

/// A lookup of many keys gives the Keychain's pairs in key order whatever
/// the number of workers and however the uncached keys are split among
/// them: when every cached value is the Keychain's and the values read
/// (in any order, each key's position once) are exactly the Keychain's
/// values of the uncached keys, `finish_list_values` returns the
/// Keychain's `(key, value)` pairs of the keys that have one, in the order
/// of `keys`, and the cache still agrees with the Keychain.
pub proof fn lemma_list_values_any_order(
    cache: Map<(Seq<char>, Seq<char>), Seq<char>>,
    k: Map<(Seq<char>, Seq<char>), Seq<char>>,
    project: Seq<char>,
    keys: Seq<Seq<char>>,
    fetched: Seq<(int, Seq<char>, Seq<char>)>,
)
    requires
        cache_agrees(cache, k),
        distinct_indices(fetched, keys.len() as int),
        forall|x: (int, Seq<char>, Seq<char>)|
            fetched.contains(x) <==> keychain_fetches(k, project, uncached_keys(cache, project, keys)).contains(x),
    ensures
        collect_present(keys, fill_fetched(cached_values(cache, project, keys), fetched))
            == present_values(k, project, keys),
        cache_agrees(cache_fetched(cache, project, fetched), k),
{
    let unc = uncached_keys(cache, project, keys);
    let g = keychain_fetches(k, project, unc);
    lemma_uncached_indices(cache, project, keys);
    lemma_uncached_increasing(cache, project, keys);
    lemma_fetch_indices(k, project, unc, keys.len() as int);
    lemma_fetch_increasing(k, project, unc);
    assert forall|a: int, b: int| 0 <= a < g.len() && 0 <= b < g.len() && a != b implies (#[trigger] g[a]).0
        != (#[trigger] g[b]).0 by {
        if a < b {
            assert(g[a].0 < g[b].0);
        } else {
            assert(g[b].0 < g[a].0);
        }
    }
    lemma_fill_same_contents(cached_values(cache, project, keys), fetched, g);
    lemma_cached_lookup_matches_keychain(cache, k, project, keys);
    lemma_fetches_are_keychain_values(k, project, unc);
    assert forall|j: int| 0 <= j < fetched.len() implies k.contains_key((project, (#[trigger] fetched[j]).1))
        && k[(project, fetched[j].1)] == fetched[j].2 by {
        assert(fetched.contains(fetched[j]));
        assert(g.contains(fetched[j]));
        let i = choose|i: int| 0 <= i < g.len() && g[i] == fetched[j];
    }
    lemma_cache_fetched_agrees(cache, k, project, fetched);
}

proof fn lemma_fetches_are_keychain_values(
    k: Map<(Seq<char>, Seq<char>), Seq<char>>,
    project: Seq<char>,
    unc: Seq<(int, Seq<char>)>,
)
    ensures
        ({
            let f = keychain_fetches(k, project, unc);
            forall|j: int| 0 <= j < f.len() ==> k.contains_key((project, (#[trigger] f[j]).1))
                && k[(project, f[j].1)] == f[j].2
        }),
    decreases unc.len(),
{
    if unc.len() > 0 {
        let up = unc.drop_last();
        lemma_fetches_are_keychain_values(k, project, up);
        let r = keychain_fetches(k, project, up);
        let f = keychain_fetches(k, project, unc);
        assert forall|j: int| 0 <= j < f.len() implies k.contains_key((project, (#[trigger] f[j]).1))
            && k[(project, f[j].1)] == f[j].2 by {
            if j < r.len() {
                assert(f[j] == r[j]);
            }
        }
    }
}

/// Recording values read from the Keychain keeps the cache in agreement
/// with it.
pub proof fn lemma_cache_fetched_agrees(
    cache: Map<(Seq<char>, Seq<char>), Seq<char>>,
    k: Map<(Seq<char>, Seq<char>), Seq<char>>,
    project: Seq<char>,
    fetched: Seq<(int, Seq<char>, Seq<char>)>,
)
    requires
        cache_agrees(cache, k),
        forall|j: int| 0 <= j < fetched.len() ==> k.contains_key((project, (#[trigger] fetched[j]).1))
            && k[(project, fetched[j].1)] == fetched[j].2,
    ensures
        cache_agrees(cache_fetched(cache, project, fetched), k),
    decreases fetched.len(),
{
    if fetched.len() > 0 {
        let fp = fetched.drop_last();
        assert forall|j: int| 0 <= j < fp.len() implies k.contains_key((project, (#[trigger] fp[j]).1))
            && k[(project, fp[j].1)] == fp[j].2 by {
            assert(fp[j] == fetched[j]);
        }
        lemma_cache_fetched_agrees(cache, k, project, fp);
        assert(fetched[fetched.len() - 1] == fetched.last());
    }
}

/// The cache stays in agreement with the Keychain through every recorded
/// operation, given the Keychain's contents `k` before it and what the
/// `security` call did to them:
/// - `record_set` after a successful store (the Keychain now maps the pair
///   to `value`), or after a failed one (the Keychain unchanged);
/// - `record_delete` after a successful delete (the pair is gone), or
///   after a failed one (the Keychain unchanged);
/// - `record_fetch` after a lookup that found `value` for the pair, or
///   found nothing.
pub proof fn lemma_records_keep_cache_agreement(
    cache: Map<(Seq<char>, Seq<char>), Seq<char>>,
    k: Map<(Seq<char>, Seq<char>), Seq<char>>,
    project: Seq<char>,
    key: Seq<char>,
    value: Seq<char>,
)
    requires
        cache_agrees(cache, k),
    ensures
        cache_agrees(cache.insert((project, key), value), k.insert((project, key), value)),
        cache_agrees(cache.remove((project, key)), k.remove((project, key))),
        k.contains_key((project, key)) && k[(project, key)] == value ==> cache_agrees(
            cache.insert((project, key), value),
            k,
        ),
{
    let pk = (project, key);
    assert forall|pair: (Seq<char>, Seq<char>)| #[trigger] cache.insert(pk, value).contains_key(pair)
        implies k.insert(pk, value).contains_key(pair) && k.insert(pk, value)[pair] == cache.insert(pk, value)[pair] by {
        if pair != pk {
            assert(cache.contains_key(pair));
        }
    }
    assert forall|pair: (Seq<char>, Seq<char>)| #[trigger] cache.remove(pk).contains_key(pair)
        implies k.remove(pk).contains_key(pair) && k.remove(pk)[pair] == cache.remove(pk)[pair] by {
        assert(cache.contains_key(pair));
    }
    if k.contains_key(pk) && k[pk] == value {
        assert forall|pair: (Seq<char>, Seq<char>)| #[trigger] cache.insert(pk, value).contains_key(pair)
            implies k.contains_key(pair) && k[pair] == cache.insert(pk, value)[pair] by {
            if pair != pk {
                assert(cache.contains_key(pair));
            }
        }
    }
}

/// Storing, reading and deleting a secret address the same Keychain item:
/// the service `keychain-env-<project>` and the account `key`; different
/// projects use different services. A stored value that is not empty and
/// does not end in `\r` reads back as itself from what
/// `security find-generic-password -w` prints (the value and a line break).
pub proof fn lemma_set_then_get_same_item(
    project: Seq<char>,
    other: Seq<char>,
    key: Seq<char>,
    value: Seq<char>,
)
    ensures
        ({
            let find = seq!["find-generic-password"@, "-s"@, service_name_of(project), "-a"@, key, "-w"@];
            let add = seq![
                "add-generic-password"@,
                "-s"@,
                service_name_of(project),
                "-a"@,
                key,
                "-w"@,
                value,
                "-U"@,
            ];
            let del = seq!["delete-generic-password"@, "-s"@, service_name_of(project), "-a"@, key];
            &&& find[2] == add[2] && add[2] == del[2]
            &&& find[4] == add[4] && add[4] == del[4]
            &&& add[6] == value
        }),
        service_name_of(project) == service_name_of(other) ==> project == other,
        value.len() > 0 && value.last() != '\r' ==> decode_password(value.push('\n')) == Some(value),
{
    if service_name_of(project) == service_name_of(other) {
        let n = "keychain-env-"@.len() as int;
        assert(service_name_of(project).subrange(n, service_name_of(project).len() as int) =~= project);
        assert(service_name_of(other).subrange(n, service_name_of(other).len() as int) =~= other);
    }
    if value.len() > 0 && value.last() != '\r' {
        assert(value.push('\n').drop_last() =~= value);
    }
}

} // verus!
