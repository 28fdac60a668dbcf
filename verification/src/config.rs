//! Where the project index lives, what it holds, and how it changes.
//!
//! The index is one file per project, named after the project, listing the
//! project's key names one per line. Reading and writing the files is the
//! caller's part; this module decides the paths, parses and renders the
//! files, and computes every change.
use vstd::prelude::*;
use vstd::relations::sorted_by;

use crate::keychain::string_views;
use crate::order::{insert_unique_sorted, lemma_strictly_sorted_unique, le_rel, lt_rel, sort_strings};
use crate::text::{
    chars_of, decimal, decimal_chars, is_ws, lemma_split_pieces, lemma_trim_facts, lemma_split_concat_sep, lemma_split_no_sep,
    lemma_split_nonempty, split, split_chars, string_of, trim, trim_chars, views,
};

verus! {

/// The Keychain service under which a project's secrets are stored.
pub open spec fn service_name_of(project: Seq<char>) -> Seq<char> {
    "keychain-env-"@ + project
}

/// `Path::join` on Unix: an absolute `rel` replaces `base`; otherwise a `/`
/// separates them unless `base` is empty or already ends with one.
pub open spec fn join_path(base: Seq<char>, rel: Seq<char>) -> Seq<char> {
    if rel.len() > 0 && rel[0] == '/' {
        rel
    } else if base.len() == 0 {
        rel
    } else if base.last() == '/' {
        base + rel
    } else {
        base + seq!['/'] + rel
    }
}

/// The path segments that `Path::components` keeps: no empty segments,
/// and `.` only as the first segment of a relative path.
pub open spec fn keep_segments(segs: Seq<Seq<char>>, relative: bool) -> Seq<Seq<char>>
    decreases segs.len(),
{
    if segs.len() == 0 {
        Seq::empty()
    } else {
        let r = keep_segments(segs.drop_last(), relative);
        let s = segs.last();
        if s.len() == 0 || (s == seq!['.'] && !(segs.len() == 1 && relative)) {
            r
        } else {
            r.push(s)
        }
    }
}

/// The components of a Unix path; the root directory is written `/`.
pub open spec fn path_components(p: Seq<char>) -> Seq<Seq<char>> {
    let relative = !(p.len() > 0 && p[0] == '/');
    let segs = keep_segments(split(p, '/'), relative);
    if relative {
        segs
    } else {
        seq![seq!['/']] + segs
    }
}

/// `Path::starts_with`: the components of `base` begin the components of `p`.
pub open spec fn path_starts_with(p: Seq<char>, base: Seq<char>) -> bool {
    let a = path_components(p);
    let b = path_components(base);
    b.len() <= a.len() && a.subrange(0, b.len() as int) == b
}

/// The iCloud Drive folder in a home directory.
pub open spec fn icloud_drive_of(home: Seq<char>) -> Seq<char> {
    join_path(home, "Library/Mobile Documents/com~apple~CloudDocs"@)
}

/// The iCloud folder that the index syncs through, if the index resolves
/// into iCloud Drive.
pub open spec fn detected_icloud(home: Seq<char>, resolved_index: Seq<char>, drive_exists: bool) -> Option<
    Seq<char>,
> {
    if !drive_exists {
        None
    } else if path_starts_with(resolved_index, icloud_drive_of(home)) {
        Some(join_path(icloud_drive_of(home), "ke"@))
    } else {
        None
    }
}

/// The index directory: `~/.config/ke` where it exists, else the older
/// `~/.config/keychain-env`.
pub open spec fn index_dir_of(home: Seq<char>, new_exists: bool) -> Seq<char> {
    let base = join_path(home, ".config"@);
    if new_exists {
        join_path(base, "ke"@)
    } else {
        join_path(base, "keychain-env"@)
    }
}

/// The non-empty trimmed lines, in order.
pub open spec fn clean_lines(lines: Seq<Seq<char>>) -> Seq<Seq<char>>
    decreases lines.len(),
{
    if lines.len() == 0 {
        Seq::empty()
    } else {
        let r = clean_lines(lines.drop_last());
        let t = trim(lines.last());
        if t.len() == 0 {
            r
        } else {
            r.push(t)
        }
    }
}

/// The key names an index file lists: its trimmed, non-empty lines.
pub open spec fn index_keys(content: Seq<char>) -> Seq<Seq<char>> {
    clean_lines(split(content, '\n'))
}

/// Each key followed by a newline.
pub open spec fn key_lines(keys: Seq<Seq<char>>) -> Seq<char>
    decreases keys.len(),
{
    if keys.len() == 0 {
        Seq::empty()
    } else {
        key_lines(keys.drop_last()) + keys.last() + seq!['\n']
    }
}

/// The text of an index file: the keys joined by newlines, then a newline.
pub open spec fn index_text(keys: Seq<Seq<char>>) -> Seq<char> {
    if keys.len() == 0 {
        seq!['\n']
    } else {
        key_lines(keys)
    }
}

/// The keys other than `key`, in order.
pub open spec fn without_key(keys: Seq<Seq<char>>, key: Seq<char>) -> Seq<Seq<char>>
    decreases keys.len(),
{
    if keys.len() == 0 {
        Seq::empty()
    } else {
        let r = without_key(keys.drop_last(), key);
        if keys.last() == key {
            r
        } else {
            r.push(keys.last())
        }
    }
}

/// The names of the directory entries that are files with UTF-8 names.
pub open spec fn file_names(entries: Seq<(Option<String>, bool)>) -> Seq<Seq<char>>
    decreases entries.len(),
{
    if entries.len() == 0 {
        Seq::empty()
    } else {
        let r = file_names(entries.drop_last());
        match entries.last() {
            (Some(n), true) => r.push(n@),
            _ => r,
        }
    }
}

/// How many flags are set.
pub open spec fn count_true(v: Seq<bool>) -> nat
    decreases v.len(),
{
    if v.len() == 0 {
        0
    } else {
        count_true(v.drop_last()) + if v.last() {
            1nat
        } else {
            0nat
        }
    }
}

/// A key that an index file can hold and give back: non-empty, no
/// surrounding whitespace, no line break.
pub open spec fn clean_key(k: Seq<char>) -> bool {
    k.len() > 0 && trim(k) == k && !k.contains('\n')
}

/// The label that `ke status` shows for a project with `total` keys, `have`
/// of which have a value on this machine.
pub open spec fn status_text(total: nat, have: nat) -> Seq<char> {
    if have == total {
        "✓ all"@
    } else if have == 0 {
        "✗ "@ + decimal((total - have) as nat) + " missing"@
    } else {
        "~ "@ + decimal((total - have) as nat) + " missing"@
    }
}

/// Why enabling iCloud sync failed.
pub enum ConfigError {
    /// There is no iCloud Drive folder in the home directory.
    ICloudNotFound,
    /// The index file `name` could not be copied into iCloud Drive; the old
    /// index is kept.
    CopyFailed { name: String },
}

/// The text of an error, as the tool prints it.
pub open spec fn config_error_message(e: ConfigError) -> Seq<char> {
    match e {
        ConfigError::ICloudNotFound => "iCloud Drive not found at ~/Library/Mobile Documents/com~apple~CloudDocs"@,
        ConfigError::CopyFailed { name } => "failed to copy "@ + name@
            + " to iCloud Drive; the index was left in place"@,
    }
}

impl ConfigError {
    /// The text of the error, as the tool prints it.
    pub fn message(&self) -> (r: String)
        ensures
            r@ == config_error_message(*self),
    {
        match self {
            ConfigError::ICloudNotFound => String::from_str(
                "iCloud Drive not found at ~/Library/Mobile Documents/com~apple~CloudDocs",
            ),
            ConfigError::CopyFailed { name } => {
                let mut s = String::from_str("failed to copy ");
                s.append(name.as_str());
                s.append(" to iCloud Drive; the index was left in place");
                s
            },
        }
    }
}

/// How an index file changes.
pub enum IndexUpdate {
    /// The file is written with this text.
    Write { content: String },
    /// The file is removed.
    Delete,
}

/// Where the index of projects and key names lives.
pub struct Config {
    /// The directory holding one index file per project.
    pub index_dir: String,
    /// The iCloud Drive folder the index is synced through, if it is.
    pub icloud_dir: Option<String>,
}

// ─── Paths ────────────────────────────────────────────────────────────

/// `Path::join` of two paths.
pub fn join(base: &str, rel: &str) -> (r: String)
    ensures
        r@ == join_path(base@, rel@),
{
    let b = chars_of(base);
    let r = chars_of(rel);
    if r.len() > 0 && r[0] == '/' {
        String::from_str(rel)
    } else if b.len() == 0 {
        String::from_str(rel)
    } else if b[b.len() - 1] == '/' {
        let mut s = String::from_str(base);
        s.append(rel);
        s
    } else {
        let mut s = String::from_str(base);
        s.append("/");
        s.append(rel);
        proof {
            reveal_strlit("/");
        }
        assert(s@ =~= join_path(base@, rel@));
        s
    }
}

/// Whether two character sequences are equal.
pub fn same_chars(a: &Vec<char>, b: &Vec<char>) -> (r: bool)
    ensures
        r == (a@ == b@),
{
    if a.len() != b.len() {
        return false;
    }
    let mut i: usize = 0;
    while i < a.len()
        invariant
            a.len() == b.len(),
            i <= a.len(),
            forall|t: int| 0 <= t < i ==> a@[t] == b@[t],
        decreases a.len() - i,
    {
        if a[i] != b[i] {
            return false;
        }
        i += 1;
    }
    assert(a@ =~= b@);
    true
}

/// The components of a path.
pub fn components(p: &str) -> (r: Vec<Vec<char>>)
    ensures
        views(r@) == path_components(p@),
{
    let c = chars_of(p);
    let relative = !(c.len() > 0 && c[0] == '/');
    let segs = split_chars(&c, '/');
    let ghost sv = views(segs@);
    let mut out: Vec<Vec<char>> = Vec::new();
    if !relative {
        let mut root: Vec<char> = Vec::new();
        root.push('/');
        out.push(root);
    }
    let ghost head = views(out@);
    let mut i: usize = 0;
    assert(sv.subrange(0, 0) =~= Seq::<Seq<char>>::empty());
    assert(views(out@) =~= head + keep_segments(sv.subrange(0, 0), relative));
    while i < segs.len()
        invariant
            i <= segs.len(),
            sv == views(segs@),
            views(out@) == head + keep_segments(sv.subrange(0, i as int), relative),
        decreases segs.len() - i,
    {
        let ghost sub = sv.subrange(0, i + 1);
        assert(sub.drop_last() =~= sv.subrange(0, i as int));
        assert(sub.last() == segs@[i as int]@);
        let s = &segs[i];
        let is_dot = s.len() == 1 && s[0] == '.';
        assert(is_dot == (s@ == seq!['.'])) by {
            if s@ == seq!['.'] {
                assert(s@[0] == '.');
            }
            if is_dot {
                assert(s@ =~= seq!['.']);
            }
        }
        if s.len() == 0 || (is_dot && !(i == 0 && relative)) {
        } else {
            let ghost before = views(out@);
            out.push(s.clone());
            assert(views(out@) =~= before.push(s@));
        }
        i += 1;
    }
    assert(sv.subrange(0, segs.len() as int) =~= sv);
    if relative {
        assert(head =~= Seq::<Seq<char>>::empty());
        assert(views(out@) =~= keep_segments(sv, relative));
    }
    out
}

/// `Path::starts_with`: whole components only.
pub fn starts_with_path(p: &str, base: &str) -> (r: bool)
    ensures
        r == path_starts_with(p@, base@),
{
    let a = components(p);
    let b = components(base);
    if b.len() > a.len() {
        return false;
    }
    let mut i: usize = 0;
    while i < b.len()
        invariant
            views(a@) == path_components(p@),
            views(b@) == path_components(base@),
            b.len() <= a.len(),
            i <= b.len(),
            forall|t: int| 0 <= t < i ==> views(a@)[t] == views(b@)[t],
        decreases b.len() - i,
    {
        assert(views(a@)[i as int] == a@[i as int]@);
        assert(views(b@)[i as int] == b@[i as int]@);
        if !same_chars(&a[i], &b[i]) {
            assert(views(a@).subrange(0, b.len() as int)[i as int] != views(b@)[i as int]);
            return false;
        }
        i += 1;
    }
    assert(views(a@).subrange(0, b.len() as int) =~= views(b@));
    true
}

/// The iCloud folder that the index syncs through: when iCloud Drive
/// exists and the index directory, with symlinks resolved, lies inside it,
/// the `ke` folder in iCloud Drive; otherwise none.
pub fn detect_icloud(home: &str, resolved_index: &str, drive_exists: bool) -> (r: Option<String>)
    ensures
        match r {
            Some(p) => detected_icloud(home@, resolved_index@, drive_exists) == Some(p@),
            None => detected_icloud(home@, resolved_index@, drive_exists) is None,
        },
{
    if !drive_exists {
        return None;
    }
    let drive = join(home, "Library/Mobile Documents/com~apple~CloudDocs");
    let ke = join(drive.as_str(), "ke");
    if starts_with_path(resolved_index, drive.as_str()) {
        Some(ke)
    } else {
        None
    }
}

/// The index directories other than `config_path` (compared by
/// components): `~/.config/ke`, then `~/.config/keychain-env`.
pub open spec fn other_index_dirs(home: Seq<char>, config_path: Seq<char>) -> Seq<Seq<char>> {
    let new_dir = index_dir_of(home, true);
    let old_dir = index_dir_of(home, false);
    let a = if path_components(new_dir) != path_components(config_path) {
        seq![new_dir]
    } else {
        Seq::empty()
    };
    let b = if path_components(old_dir) != path_components(config_path) {
        seq![old_dir]
    } else {
        Seq::empty()
    };
    a + b
}

/// The index directories that should also point at iCloud once the index
/// at `config_path` has moved there.
pub fn secondary_index_dirs(home: &str, config_path: &str) -> (r: Vec<String>)
    ensures
        string_views(r@) == other_index_dirs(home@, config_path@),
{
    let mut out: Vec<String> = Vec::new();
    let target = components(config_path);
    let new_dir = Config::index_dir_for(home, true);
    let old_dir = Config::index_dir_for(home, false);
    let ghost nv = new_dir@;
    let ghost ov = old_dir@;
    if !same_components(&components(new_dir.as_str()), &target) {
        out.push(new_dir);
    }
    let ghost mid = string_views(out@);
    if !same_components(&components(old_dir.as_str()), &target) {
        out.push(old_dir);
        assert(string_views(out@) =~= mid + seq![ov]);
    } else {
        assert(string_views(out@) =~= mid + Seq::<Seq<char>>::empty());
    }
    assert(string_views(out@) =~= other_index_dirs(home@, config_path@));
    out
}

fn same_components(a: &Vec<Vec<char>>, b: &Vec<Vec<char>>) -> (r: bool)
    ensures
        r == (views(a@) == views(b@)),
{
    if a.len() != b.len() {
        assert(views(a@).len() != views(b@).len());
        return false;
    }
    let mut i: usize = 0;
    while i < a.len()
        invariant
            a.len() == b.len(),
            i <= a.len(),
            forall|t: int| 0 <= t < i ==> views(a@)[t] == views(b@)[t],
        decreases a.len() - i,
    {
        assert(views(a@)[i as int] == a@[i as int]@);
        assert(views(b@)[i as int] == b@[i as int]@);
        if !same_chars(&a[i], &b[i]) {
            return false;
        }
        i += 1;
    }
    assert(views(a@) =~= views(b@));
    true
}

/// Whether an index file is copied into iCloud Drive: only files are, and
/// when the iCloud folder already existed only those it lacks.
pub fn copy_needed(fresh: bool, is_file: bool, target_exists: bool) -> (r: bool)
    ensures
        r == (is_file && (fresh || !target_exists)),
{
    is_file && (fresh || !target_exists)
}

/// One entry of the index directory when it is copied into iCloud Drive:
/// its name, whether it is a file, whether iCloud Drive already had a file
/// of that name, and whether the copy was made.
pub open spec fn copy_was_needed(fresh: bool, c: (Seq<char>, bool, bool, bool)) -> bool {
    c.1 && (fresh || !c.2)
}

/// The views of the copy records.
pub open spec fn copy_views(v: Seq<(String, bool, bool, bool)>) -> Seq<(Seq<char>, bool, bool, bool)> {
    v.map_values(|c: (String, bool, bool, bool)| (c.0@, c.1, c.2, c.3))
}

/// Whether the old index may be replaced by the iCloud folder once the
/// copies are done: only when every copy that was needed was made. The
/// error names the first entry whose copy failed.
pub fn move_allowed(fresh: bool, copies: &Vec<(String, bool, bool, bool)>) -> (r: Result<(), ConfigError>)
    ensures
        r is Ok <==> forall|i: int|
            0 <= i < copies.len() && copy_was_needed(fresh, #[trigger] copy_views(copies@)[i])
                ==> copy_views(copies@)[i].3,
        r is Err ==> (r matches Err(ConfigError::CopyFailed { name }) && exists|i: int|
            0 <= i < copies.len() && copy_was_needed(fresh, #[trigger] copy_views(copies@)[i])
                && !copy_views(copies@)[i].3 && name@ == copy_views(copies@)[i].0
                && forall|j: int| 0 <= j < i && copy_was_needed(fresh, #[trigger] copy_views(copies@)[j])
                    ==> copy_views(copies@)[j].3),
{
    let ghost cs = copy_views(copies@);
    let mut i: usize = 0;
    while i < copies.len()
        invariant
            i <= copies.len(),
            cs == copy_views(copies@),
            forall|j: int| 0 <= j < i && copy_was_needed(fresh, #[trigger] cs[j]) ==> cs[j].3,
        decreases copies.len() - i,
    {
        let (name, is_file, existed, copied) = (&copies[i].0, copies[i].1, copies[i].2, copies[i].3);
        assert(cs[i as int] == (name@, is_file, existed, copied));
        if copy_needed(fresh, is_file, existed) && !copied {
            return Err(ConfigError::CopyFailed { name: name.clone() });
        }
        i += 1;
    }
    Ok(())
}

/// No project is lost by the move: when the move is allowed, every index
/// file is in iCloud Drive afterwards, either copied there or already there
/// (and then left as it was).
pub proof fn lemma_move_keeps_projects(fresh: bool, copies: Seq<(Seq<char>, bool, bool, bool)>)
    requires
        forall|i: int| 0 <= i < copies.len() && copy_was_needed(fresh, #[trigger] copies[i]) ==> copies[i].3,
    ensures
        forall|i: int| 0 <= i < copies.len() && (#[trigger] copies[i]).1 ==> copies[i].3 || copies[i].2,
        forall|i: int| 0 <= i < copies.len() && (#[trigger] copies[i]).2 && !fresh ==> !copy_was_needed(fresh, copies[i]),
{
    assert forall|i: int| 0 <= i < copies.len() && (#[trigger] copies[i]).1 implies copies[i].3 || copies[i].2 by {
        if !copies[i].2 {
            assert(copy_was_needed(fresh, copies[i]));
        } else if fresh {
            assert(copy_was_needed(fresh, copies[i]));
        }
    }
}

/// The label that `ke status` shows for a project.
pub fn status_label(total: usize, have: usize) -> (r: String)
    requires
        have <= total,
    ensures
        r@ == status_text(total as nat, have as nat),
{
    if have == total {
        String::from_str("✓ all")
    } else {
        let missing = string_of(&decimal_chars(total - have));
        let mut s = if have == 0 {
            String::from_str("✗ ")
        } else {
            String::from_str("~ ")
        };
        s.append(missing.as_str());
        s.append(" missing");
        s
    }
}

impl Config {
    /// The Keychain service name for a project: `keychain-env-<project>`.
    pub fn service_name(project: &str) -> (r: String)
        ensures
            r@ == service_name_of(project@),
    {
        let mut s = String::from_str("keychain-env-");
        s.append(project);
        s
    }

    /// The index directory for a home directory.
    pub fn index_dir_for(home: &str, new_exists: bool) -> (r: String)
        ensures
            r@ == index_dir_of(home@, new_exists),
    {
        let base = join(home, ".config");
        if new_exists {
            join(base.as_str(), "ke")
        } else {
            join(base.as_str(), "keychain-env")
        }
    }

    /// The configuration found in a home directory: the index directory
    /// (`~/.config/ke` if it exists, else `~/.config/keychain-env`) and the
    /// iCloud folder it syncs through, judged from where the index
    /// directory resolves to and whether iCloud Drive exists.
    pub fn load(home: &str, new_exists: bool, resolved_index: &str, drive_exists: bool) -> (r:
        Config)
        ensures
            r.index_dir@ == index_dir_of(home@, new_exists),
            match r.icloud_dir {
                Some(p) => detected_icloud(home@, resolved_index@, drive_exists) == Some(p@),
                None => detected_icloud(home@, resolved_index@, drive_exists) is None,
            },
    {
        Config {
            index_dir: Config::index_dir_for(home, new_exists),
            icloud_dir: detect_icloud(home, resolved_index, drive_exists),
        }
    }

    /// The `ke` folder in iCloud Drive, when iCloud Drive exists.
    pub fn icloud_ke_path(home: &str, drive_exists: bool) -> (r: Option<String>)
        ensures
            drive_exists ==> (r matches Some(p) && p@ == join_path(icloud_drive_of(home@), "ke"@)),
            !drive_exists ==> r is None,
    {
        if drive_exists {
            let drive = join(home, "Library/Mobile Documents/com~apple~CloudDocs");
            Some(join(drive.as_str(), "ke"))
        } else {
            None
        }
    }

    /// Whether the index directory is synced through iCloud Drive.
    pub fn is_icloud_synced(&self) -> (r: bool)
        ensures
            r == self.icloud_dir is Some,
    {
        self.icloud_dir.is_some()
    }

    /// The index file of a project.
    pub fn index_file(&self, project: &str) -> (r: String)
        ensures
            r@ == join_path(self.index_dir@, project@),
    {
        join(self.index_dir.as_str(), project)
    }

    /// What enabling iCloud sync has to do: an error when there is no
    /// iCloud Drive, nothing when the index is already synced, otherwise the
    /// iCloud folder to move the index into.
    pub fn icloud_sync_target(&self, icloud_path: Option<String>) -> (r: Result<
        Option<String>,
        ConfigError,
    >)
        ensures
            icloud_path is None ==> r matches Err(ConfigError::ICloudNotFound),
            icloud_path is Some && self.icloud_dir is Some ==> r matches Ok(None),
            icloud_path is Some && self.icloud_dir is None ==> r == Ok::<Option<String>, ConfigError>(icloud_path),
    {
        match icloud_path {
            None => Err(ConfigError::ICloudNotFound),
            Some(p) => {
                if self.is_icloud_synced() {
                    Ok(None)
                } else {
                    Ok(Some(p))
                }
            },
        }
    }

    /// Records that the index at `config_path` now syncs through `icloud_path`.
    pub fn finish_icloud_sync(&mut self, config_path: String, icloud_path: String)
        ensures
            final(self).index_dir == config_path,
            final(self).icloud_dir == Some(icloud_path),
    {
        self.index_dir = config_path;
        self.icloud_dir = Some(icloud_path);
    }

    /// The projects of the index: the directory entries that are files with
    /// UTF-8 names (`(name, is_file)`), sorted in `String` order.
    pub fn list_projects(entries: &Vec<(Option<String>, bool)>) -> (r: Vec<String>)
        ensures
            sorted_by(string_views(r@), le_rel()),
            string_views(r@).to_multiset() == file_names(entries@).to_multiset(),
    {
        let mut names: Vec<String> = Vec::new();
        let mut i: usize = 0;
        assert(entries@.subrange(0, 0) =~= Seq::<(Option<String>, bool)>::empty());
        while i < entries.len()
            invariant
                i <= entries.len(),
                string_views(names@) == file_names(entries@.subrange(0, i as int)),
            decreases entries.len() - i,
        {
            let ghost sub = entries@.subrange(0, i + 1);
            assert(sub.drop_last() =~= entries@.subrange(0, i as int));
            let ghost before = names@;
            match &entries[i] {
                (Some(n), true) => {
                    names.push(n.clone());
                    assert(string_views(names@) =~= string_views(before).push(n@));
                },
                _ => {
                },
            }
            i += 1;
        }
        assert(entries@.subrange(0, entries.len() as int) =~= entries@);
        sort_strings(names)
    }

    /// The key names of an index file's text: its lines, trimmed, without
    /// the empty ones.
    pub fn list_keys(content: &str) -> (r: Vec<String>)
        ensures
            string_views(r@) == index_keys(content@),
    {
        let c = chars_of(content);
        let lines = split_chars(&c, '\n');
        let ghost ls = views(lines@);
        let mut out: Vec<String> = Vec::new();
        let mut i: usize = 0;
        assert(ls.subrange(0, 0) =~= Seq::<Seq<char>>::empty());
        while i < lines.len()
            invariant
                i <= lines.len(),
                ls == views(lines@),
                ls == split(content@, '\n'),
                string_views(out@) == clean_lines(ls.subrange(0, i as int)),
            decreases lines.len() - i,
        {
            let ghost sub = ls.subrange(0, i + 1);
            assert(sub.drop_last() =~= ls.subrange(0, i as int));
            assert(sub.last() == lines@[i as int]@);
            let t = trim_chars(&lines[i]);
            if t.len() > 0 {
                let ghost before = out@;
                out.push(string_of(&t));
                assert(string_views(out@) =~= string_views(before).push(t@));
            }
            i += 1;
        }
        assert(ls.subrange(0, lines.len() as int) =~= ls);
        out
    }

    /// The text an index file is written with: the keys joined by
    /// newlines, then a newline.
    pub fn index_content(keys: &Vec<String>) -> (r: String)
        ensures
            r@ == index_text(string_views(keys@)),
    {
        if keys.len() == 0 {
            proof {
                reveal_strlit("\n");
            }
            let s = String::from_str("\n");
            assert(s@ =~= seq!['\n']);
            return s;
        }
        let ghost ks = string_views(keys@);
        let mut s = String::new();
        let mut i: usize = 0;
        assert(ks.subrange(0, 0) =~= Seq::<Seq<char>>::empty());
        assert(s@ =~= key_lines(ks.subrange(0, 0)));
        while i < keys.len()
            invariant
                i <= keys.len(),
                ks == string_views(keys@),
                s@ == key_lines(ks.subrange(0, i as int)),
            decreases keys.len() - i,
        {
            let ghost sub = ks.subrange(0, i + 1);
            assert(sub.drop_last() =~= ks.subrange(0, i as int));
            assert(sub.last() == keys@[i as int]@);
            s.append(keys[i].as_str());
            s.append("\n");
            proof {
                reveal_strlit("\n");
            }
            i += 1;
            assert(s@ =~= key_lines(ks.subrange(0, i as int)));
        }
        assert(ks.subrange(0, keys.len() as int) =~= ks);
        s
    }

    /// The keys of an index after adding `key`, as a set: sorted in
    /// `String` order, without repeats.
    pub fn add_key(keys: &Vec<String>, key: &str) -> (r: Vec<String>)
        ensures
            sorted_by(string_views(r@), lt_rel()),
            string_views(r@).to_set() == string_views(keys@).to_set().insert(key@),
    {
        let mut out: Vec<String> = Vec::new();
        let ghost ks = string_views(keys@);
        let mut i: usize = 0;
        assert(string_views(out@).to_set() =~= ks.subrange(0, 0).to_set());
        while i < keys.len()
            invariant
                i <= keys.len(),
                ks == string_views(keys@),
                sorted_by(string_views(out@), lt_rel()),
                string_views(out@).to_set() == ks.subrange(0, i as int).to_set(),
            decreases keys.len() - i,
        {
            insert_unique_sorted(&mut out, &keys[i]);
            proof {
                lemma_prefix_set_step(ks, i as int);
            }
            i += 1;
        }
        assert(ks.subrange(0, keys.len() as int) =~= ks);
        let k = String::from_str(key);
        insert_unique_sorted(&mut out, &k);
        out
    }

    /// The keys of an index after adding each of `new_keys`, as a set.
    pub fn add_keys(keys: &Vec<String>, new_keys: &Vec<String>) -> (r: Vec<String>)
        ensures
            sorted_by(string_views(r@), lt_rel()),
            string_views(r@).to_set() == string_views(keys@).to_set().union(
                string_views(new_keys@).to_set(),
            ),
    {
        let mut out: Vec<String> = Vec::new();
        let ghost a = string_views(keys@);
        let ghost b = string_views(new_keys@);
        let mut i: usize = 0;
        assert(string_views(out@).to_set() =~= a.subrange(0, 0).to_set());
        while i < keys.len()
            invariant
                i <= keys.len(),
                a == string_views(keys@),
                sorted_by(string_views(out@), lt_rel()),
                string_views(out@).to_set() == a.subrange(0, i as int).to_set(),
            decreases keys.len() - i,
        {
            insert_unique_sorted(&mut out, &keys[i]);
            proof {
                lemma_prefix_set_step(a, i as int);
            }
            i += 1;
        }
        assert(a.subrange(0, keys.len() as int) =~= a);
        let mut j: usize = 0;
        assert(b.subrange(0, 0).to_set() =~= Set::<Seq<char>>::empty());
        assert(a.to_set().union(b.subrange(0, 0).to_set()) =~= a.to_set());
        while j < new_keys.len()
            invariant
                j <= new_keys.len(),
                a == string_views(keys@),
                b == string_views(new_keys@),
                sorted_by(string_views(out@), lt_rel()),
                string_views(out@).to_set() == a.to_set().union(b.subrange(0, j as int).to_set()),
            decreases new_keys.len() - j,
        {
            insert_unique_sorted(&mut out, &new_keys[j]);
            proof {
                lemma_prefix_set_step(b, j as int);
                assert(a.to_set().union(b.subrange(0, j as int).to_set()).insert(b[j as int])
                    =~= a.to_set().union(b.subrange(0, j + 1).to_set()));
            }
            j += 1;
        }
        assert(b.subrange(0, new_keys.len() as int) =~= b);
        out
    }

    /// How an index changes when `key` is removed: the other keys are
    /// written back in order, or the file is removed when none are left.
    pub fn remove_key(keys: &Vec<String>, key: &str) -> (r: IndexUpdate)
        ensures
            without_key(string_views(keys@), key@).len() == 0 ==> r is Delete,
            without_key(string_views(keys@), key@).len() > 0 ==> (r matches IndexUpdate::Write {
                content,
            } && content@ == index_text(without_key(string_views(keys@), key@))),
    {
        let k = String::from_str(key);
        let ghost ks = string_views(keys@);
        let mut rest: Vec<String> = Vec::new();
        let mut i: usize = 0;
        assert(ks.subrange(0, 0) =~= Seq::<Seq<char>>::empty());
        while i < keys.len()
            invariant
                i <= keys.len(),
                ks == string_views(keys@),
                k@ == key@,
                string_views(rest@) == without_key(ks.subrange(0, i as int), key@),
            decreases keys.len() - i,
        {
            let ghost sub = ks.subrange(0, i + 1);
            assert(sub.drop_last() =~= ks.subrange(0, i as int));
            assert(sub.last() == keys@[i as int]@);
            if !(keys[i] == k) {
                let ghost before = rest@;
                rest.push(keys[i].clone());
                assert(string_views(rest@) =~= string_views(before).push(keys@[i as int]@));
            }
            i += 1;
        }
        assert(ks.subrange(0, keys.len() as int) =~= ks);
        if rest.len() == 0 {
            IndexUpdate::Delete
        } else {
            IndexUpdate::Write { content: Config::index_content(&rest) }
        }
    }

    /// For `ke status`: each project with its number of keys and how many
    /// of them have a value on this machine (one flag per key).
    pub fn status(found: &Vec<(String, Vec<bool>)>) -> (r: Vec<(String, usize, usize)>)
        ensures
            r.len() == found.len(),
            forall|i: int|
                0 <= i < r.len() ==> {
                    &&& (#[trigger] r@[i]).0@ == found@[i].0@
                    &&& r@[i].1 == found@[i].1.len()
                    &&& r@[i].2 == count_true(found@[i].1@)
                    &&& r@[i].2 <= r@[i].1
                },
    {
        let mut out: Vec<(String, usize, usize)> = Vec::new();
        let mut i: usize = 0;
        while i < found.len()
            invariant
                i <= found.len(),
                out.len() == i,
                forall|t: int|
                    0 <= t < i ==> {
                        &&& (#[trigger] out@[t]).0@ == found@[t].0@
                        &&& out@[t].1 == found@[t].1.len()
                        &&& out@[t].2 == count_true(found@[t].1@)
                        &&& out@[t].2 <= out@[t].1
                    },
            decreases found.len() - i,
        {
            let flags = &found[i].1;
            let mut have: usize = 0;
            let mut j: usize = 0;
            assert(flags@.subrange(0, 0) =~= Seq::<bool>::empty());
            while j < flags.len()
                invariant
                    j <= flags.len(),
                    have == count_true(flags@.subrange(0, j as int)),
                    have <= j,
                decreases flags.len() - j,
            {
                assert(flags@.subrange(0, j + 1).drop_last() =~= flags@.subrange(0, j as int));
                if flags[j] {
                    have += 1;
                }
                j += 1;
            }
            assert(flags@.subrange(0, flags.len() as int) =~= flags@);
            out.push((found[i].0.clone(), flags.len(), have));
            i += 1;
        }
        out
    }
}

// ─── Laws ─────────────────────────────────────────────────────────────

proof fn lemma_prefix_set_step(s: Seq<Seq<char>>, i: int)
    requires
        0 <= i < s.len(),
    ensures
        s.subrange(0, i + 1).to_set() == s.subrange(0, i).to_set().insert(s[i]),
{
    let sub = s.subrange(0, i + 1);
    let pre = s.subrange(0, i);
    assert forall|x: Seq<char>| sub.to_set().contains(x) <==> pre.to_set().insert(s[i]).contains(x) by {
        if sub.contains(x) {
            let t = choose|t: int| 0 <= t < sub.len() && sub[t] == x;
            if t < i {
                assert(pre[t] == x);
            }
        }
        if pre.contains(x) {
            let t = choose|t: int| 0 <= t < i && pre[t] == x;
            assert(sub[t] == x);
        }
        if x == s[i] {
            assert(sub[i] == x);
        }
    }
    assert(sub.to_set() =~= pre.to_set().insert(s[i]));
}

proof fn lemma_clean_lines_one_empty()
    ensures
        clean_lines(seq![Seq::<char>::empty()]) == Seq::<Seq<char>>::empty(),
{
    let one = seq![Seq::<char>::empty()];
    assert(one.drop_last() =~= Seq::<Seq<char>>::empty());
    assert(clean_lines(one.drop_last()) == Seq::<Seq<char>>::empty());
    assert(one.last() == Seq::<char>::empty());
    assert(trim(Seq::<char>::empty()) == Seq::<char>::empty());
}

proof fn lemma_clean_lines_concat(x: Seq<Seq<char>>, y: Seq<Seq<char>>)
    ensures
        clean_lines(x + y) == clean_lines(x) + clean_lines(y),
    decreases y.len(),
{
    if y.len() == 0 {
        assert(x + y =~= x);
        assert(clean_lines(x) + clean_lines(y) =~= clean_lines(x));
    } else {
        assert((x + y).drop_last() =~= x + y.drop_last());
        lemma_clean_lines_concat(x, y.drop_last());
        if trim(y.last()).len() > 0 {
            assert(clean_lines(x + y) =~= clean_lines(x) + clean_lines(y));
        }
    }
}

proof fn lemma_trim_empty()
    ensures
        trim(Seq::<char>::empty()) == Seq::<char>::empty(),
{
}

proof fn lemma_index_keys_of_lines(keys: Seq<Seq<char>>)
    requires
        forall|i: int| 0 <= i < keys.len() ==> clean_key(#[trigger] keys[i]),
    ensures
        split(key_lines(keys), '\n') == keys.push(Seq::<char>::empty()),
    decreases keys.len(),
{
    if keys.len() == 0 {
        assert(key_lines(keys) =~= Seq::<char>::empty());
        assert(keys.push(Seq::<char>::empty()) =~= seq![Seq::<char>::empty()]);
    } else {
        let kp = keys.drop_last();
        assert forall|i: int| 0 <= i < kp.len() implies clean_key(#[trigger] kp[i]) by {
            assert(kp[i] == keys[i]);
        }
        lemma_index_keys_of_lines(kp);
        let k = keys.last();
        assert(clean_key(keys[keys.len() - 1]));
        let prev = key_lines(kp);
        // prev + k + "\n" splits into the lines of prev (ending in an empty
        // piece, which k extends) and a final empty piece.
        lemma_split_no_sep(k, '\n');
        let e = Seq::<char>::empty();
        assert(key_lines(keys) =~= (prev + k) + seq!['\n'] + e);
        lemma_split_concat_sep(prev + k, e, '\n');
        lemma_split_keys_extend(prev, k, kp);
        assert(split(key_lines(keys), '\n') =~= keys.push(e));
    }
}

proof fn lemma_split_keys_extend(prev: Seq<char>, k: Seq<char>, kp: Seq<Seq<char>>)
    requires
        split(prev, '\n') == kp.push(Seq::<char>::empty()),
        !k.contains('\n'),
    ensures
        split(prev + k, '\n') == kp.push(k),
    decreases k.len(),
{
    if k.len() == 0 {
        assert(prev + k =~= prev);
        assert(k =~= Seq::<char>::empty());
        assert(kp.push(k) =~= kp.push(Seq::<char>::empty()));
    } else {
        let kd = k.drop_last();
        assert(!kd.contains('\n')) by {
            if kd.contains('\n') {
                let i = choose|i: int| 0 <= i < kd.len() && kd[i] == '\n';
                assert(k[i] == '\n');
            }
        }
        lemma_split_keys_extend(prev, kd, kp);
        assert((prev + k).drop_last() =~= prev + kd);
        assert(k.last() != '\n') by {
            assert(k[k.len() - 1] == k.last());
        }
        assert((prev + k).last() == k.last());
        assert(kd.push(k.last()) =~= k);
        assert(split(prev + k, '\n') =~= kp.push(k));
    }
}

/// Writing an index and reading it back gives the same keys, for keys that
/// an index can hold (non-empty, no surrounding whitespace, no line break).
pub proof fn lemma_index_roundtrip(keys: Seq<Seq<char>>)
    requires
        forall|i: int| 0 <= i < keys.len() ==> clean_key(#[trigger] keys[i]),
    ensures
        index_keys(index_text(keys)) == keys,
{
    lemma_trim_empty();
    if keys.len() == 0 {
        let s = seq!['\n'];
        assert(s =~= Seq::<char>::empty() + seq!['\n'] + Seq::<char>::empty());
        lemma_split_concat_sep(Seq::<char>::empty(), Seq::<char>::empty(), '\n');
        let ls = split(s, '\n');
        assert(ls =~= seq![Seq::<char>::empty(), Seq::<char>::empty()]);
        assert(ls.drop_last() =~= seq![Seq::<char>::empty()]);
        lemma_clean_lines_one_empty();
        assert(ls.last() == Seq::<char>::empty());
        assert(clean_lines(ls) == clean_lines(ls.drop_last()));
        assert(clean_lines(ls) =~= keys);
    } else {
        lemma_index_keys_of_lines(keys);
        let ls = keys.push(Seq::<char>::empty());
        lemma_clean_lines_concat(keys, seq![Seq::<char>::empty()]);
        assert(ls =~= keys + seq![Seq::<char>::empty()]);
        lemma_clean_lines_one_empty();
        lemma_clean_lines_identity(keys);
        assert(clean_lines(ls) =~= keys);
    }
}

proof fn lemma_clean_lines_identity(keys: Seq<Seq<char>>)
    requires
        forall|i: int| 0 <= i < keys.len() ==> clean_key(#[trigger] keys[i]),
    ensures
        clean_lines(keys) == keys,
    decreases keys.len(),
{
    if keys.len() > 0 {
        let kp = keys.drop_last();
        assert forall|i: int| 0 <= i < kp.len() implies clean_key(#[trigger] kp[i]) by {
            assert(kp[i] == keys[i]);
        }
        lemma_clean_lines_identity(kp);
        assert(clean_key(keys[keys.len() - 1]));
        assert(keys =~= kp.push(keys.last()));
    }
}

/// Every key that an index file gives is one it can hold again: reading,
/// writing and reading an index gives the keys of the first read.
pub proof fn lemma_index_keys_clean(content: Seq<char>)
    ensures
        forall|i: int|
            0 <= i < index_keys(content).len() ==> clean_key(#[trigger] index_keys(content)[i]),
        index_keys(index_text(index_keys(content))) == index_keys(content),
{
    lemma_split_pieces(content, '\n');
    lemma_clean_lines_clean(split(content, '\n'));
    lemma_index_roundtrip(index_keys(content));
}

proof fn lemma_clean_lines_clean(lines: Seq<Seq<char>>)
    requires
        forall|i: int| 0 <= i < lines.len() ==> !(#[trigger] lines[i]).contains('\n'),
    ensures
        forall|i: int| 0 <= i < clean_lines(lines).len() ==> clean_key(#[trigger] clean_lines(lines)[i]),
    decreases lines.len(),
{
    if lines.len() > 0 {
        let lp = lines.drop_last();
        assert forall|i: int| 0 <= i < lp.len() implies !(#[trigger] lp[i]).contains('\n') by {
            assert(lp[i] == lines[i]);
        }
        lemma_clean_lines_clean(lp);
        let l = lines.last();
        assert(!lines[lines.len() - 1].contains('\n'));
        let t = trim(l);
        lemma_trim_facts(l);
        assert(!t.contains('\n')) by {
            if t.contains('\n') {
                let (a, b) = choose|a: int, b: int| 0 <= a <= b <= l.len() && t == l.subrange(a, b);
                let k = choose|k: int| 0 <= k < t.len() && t[k] == '\n';
                assert(l[a + k] == '\n');
            }
        }
        let r = clean_lines(lp);
        if t.len() > 0 {
            assert(clean_key(t));
            assert(clean_lines(lines) == r.push(t));
            assert forall|i: int| 0 <= i < clean_lines(lines).len() implies clean_key(#[trigger] clean_lines(lines)[i]) by {
                if i < r.len() {
                    assert(clean_lines(lines)[i] == r[i]);
                }
            }
        } else {
            assert(clean_lines(lines) == r);
        }
    }
}

/// Adding a key is fixed by its inputs and adding it again changes
/// nothing: any two lists that meet `add_key`'s contract for the same
/// index and key are equal, and adding the same key to the result gives
/// the result back.
pub proof fn lemma_add_key_twice(
    keys: Seq<Seq<char>>,
    key: Seq<char>,
    once: Seq<Seq<char>>,
    twice: Seq<Seq<char>>,
)
    requires
        sorted_by(once, lt_rel()),
        once.to_set() == keys.to_set().insert(key),
        sorted_by(twice, lt_rel()),
        twice.to_set() == once.to_set().insert(key),
    ensures
        twice == once,
{
    assert(once.to_set().insert(key) =~= once.to_set());
    lemma_strictly_sorted_unique(twice, once);
}

/// Removing a key from an index: the key is gone, every other key keeps
/// its place in the order, a key that was not there changes nothing, and
/// removing it again changes nothing.
pub proof fn lemma_remove_key_effect(keys: Seq<Seq<char>>, key: Seq<char>)
    ensures
        !without_key(keys, key).contains(key),
        without_key(keys, key) == keys.filter(|k: Seq<char>| k != key),
        forall|x: Seq<char>| x != key ==> (without_key(keys, key).contains(x) <==> keys.contains(x)),
        !keys.contains(key) ==> without_key(keys, key) == keys,
        without_key(without_key(keys, key), key) == without_key(keys, key),
    decreases keys.len(),
{
    reveal(Seq::filter);
    if keys.len() > 0 {
        let kp = keys.drop_last();
        lemma_remove_key_effect(kp, key);
        let r = without_key(kp, key);
        let w = without_key(keys, key);
        assert(keys.filter(|k: Seq<char>| k != key) == kp.filter(|k: Seq<char>| k != key).push(keys.last())
            || keys.filter(|k: Seq<char>| k != key) == kp.filter(|k: Seq<char>| k != key));
        if keys.last() != key {
            assert(w == r.push(keys.last()));
            assert forall|x: Seq<char>| x != key implies (w.contains(x) <==> keys.contains(x)) by {
                if w.contains(x) {
                    let t = choose|t: int| 0 <= t < w.len() && w[t] == x;
                    if t < r.len() {
                        assert(r[t] == x);
                        assert(r.contains(x));
                        assert(kp.contains(x));
                        let u = choose|u: int| 0 <= u < kp.len() && kp[u] == x;
                        assert(keys[u] == x);
                    } else {
                        assert(keys[keys.len() - 1] == x);
                    }
                }
                if keys.contains(x) {
                    let t = choose|t: int| 0 <= t < keys.len() && keys[t] == x;
                    if t < kp.len() {
                        assert(kp[t] == x);
                        assert(kp.contains(x));
                        let u = choose|u: int| 0 <= u < r.len() && r[u] == x;
                        assert(w[u] == x);
                    } else {
                        assert(w[r.len() as int] == x);
                    }
                }
            }
            assert(!w.contains(key)) by {
                if w.contains(key) {
                    let t = choose|t: int| 0 <= t < w.len() && w[t] == key;
                    if t < r.len() {
                        assert(r[t] == key);
                    }
                }
            }
            if !keys.contains(key) {
                assert(!kp.contains(key)) by {
                    if kp.contains(key) {
                        let t = choose|t: int| 0 <= t < kp.len() && kp[t] == key;
                        assert(keys[t] == key);
                    }
                }
                assert(keys =~= kp.push(keys.last()));
            }
            assert(w.drop_last() =~= r);
        } else {
            assert(w == r);
            assert forall|x: Seq<char>| x != key implies (w.contains(x) <==> keys.contains(x)) by {
                if keys.contains(x) {
                    let t = choose|t: int| 0 <= t < keys.len() && keys[t] == x;
                    if t < kp.len() {
                        assert(kp[t] == x);
                    }
                }
                if kp.contains(x) {
                    let t = choose|t: int| 0 <= t < kp.len() && kp[t] == x;
                    assert(keys[t] == x);
                }
            }
            assert(keys[keys.len() - 1] == key);
        }
    }
}

} // verus!
