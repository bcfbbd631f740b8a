//! The incremental-build cache: a manifest mapping each source file to the
//! content hash and output location of its last build, used to report
//! staleness.
//!
//! The manifest is modelled as an ordered association list with distinct
//! keys; lookups take the first match and updates replace in place, so the
//! persisted order is stable across rebuilds.

use vstd::prelude::*;
use vstd::string::*;

use crate::clock::now_timestamp;
use crate::text::str_eq;

verus! {

/// Per-file record of the previous build.
#[derive(Debug, Clone)]
pub struct FileRecord {
    pub content_hash: String,
    pub output_path: String,
    pub template_deps: Vec<String>,
}

/// Persisted state of one build: format version, timestamp, the hash of the
/// effective configuration and of the template tree, and one record per
/// source file.
#[derive(Debug, Clone)]
pub struct BuildManifest {
    pub version: String,
    pub last_build: i64,
    pub config_hash: String,
    pub template_hash: String,
    pub file_hashes: Vec<(String, FileRecord)>,
}

/// Mathematical value of a file record.
pub struct RecordModel {
    pub content_hash: Seq<char>,
    pub output_path: Seq<char>,
    pub template_deps: Seq<Seq<char>>,
}

/// Mathematical value of a manifest entry list.
pub open spec fn record_model(r: FileRecord) -> RecordModel {
    RecordModel {
        content_hash: r.content_hash@,
        output_path: r.output_path@,
        template_deps: r.template_deps@.map_values(|d: String| d@),
    }
}

/// The entry list as a sequence of key/record pairs over character
/// sequences.
pub open spec fn entries_model(es: Seq<(String, FileRecord)>) -> Seq<(Seq<char>, RecordModel)> {
    es.map_values(|p: (String, FileRecord)| (p.0@, record_model(p.1)))
}

/// First-match lookup in the modelled entry list.
pub open spec fn lookup_model(m: Seq<(Seq<char>, RecordModel)>, path: Seq<char>) -> Option<
    RecordModel,
>
    decreases m.len(),
{
    if m.len() == 0 {
        None
    } else if m.first().0 == path {
        Some(m.first().1)
    } else {
        lookup_model(m.drop_first(), path)
    }
}

/// Replace the first record under `path`, or append a new entry when the
/// path is unseen.
pub open spec fn update_model(
    m: Seq<(Seq<char>, RecordModel)>,
    path: Seq<char>,
    rec: RecordModel,
) -> Seq<(Seq<char>, RecordModel)>
    decreases m.len(),
{
    if m.len() == 0 {
        seq![(path, rec)]
    } else if m.first().0 == path {
        seq![(path, rec)] + m.drop_first()
    } else {
        seq![m.first()] + update_model(m.drop_first(), path, rec)
    }
}

/// A file is stale when force is set, the path is unseen, or its stored
/// hash differs from the current one.
pub open spec fn spec_is_dirty(
    force: bool,
    m: Seq<(Seq<char>, RecordModel)>,
    path: Seq<char>,
    hash: Seq<char>,
) -> bool {
    force || match lookup_model(m, path) {
        Some(rec) => rec.content_hash != hash,
        None => true,
    }
}

/// If no key before `i` matches, the lookup is decided by the entries from
/// `i` on.
proof fn lemma_lookup_skip(m: Seq<(Seq<char>, RecordModel)>, path: Seq<char>, i: int)
    requires
        0 <= i <= m.len(),
        forall|j: int| 0 <= j < i ==> (#[trigger] m[j]).0 != path,
    ensures
        lookup_model(m, path) == lookup_model(m.skip(i), path),
    decreases i,
{
    if i == 0 {
        assert(m.skip(0) =~= m);
    } else {
        assert(m.first().0 != path);
        lemma_lookup_skip(m.drop_first(), path, i - 1);
        assert(m.drop_first().skip(i - 1) =~= m.skip(i));
    }
}

/// When the first match sits at index `i`, the update is exactly the
/// in-place replacement of element `i`.
proof fn lemma_update_at(
    m: Seq<(Seq<char>, RecordModel)>,
    path: Seq<char>,
    rec: RecordModel,
    i: int,
)
    requires
        0 <= i < m.len(),
        forall|j: int| 0 <= j < i ==> (#[trigger] m[j]).0 != path,
        m[i].0 == path,
    ensures
        update_model(m, path, rec) =~= m.update(i, (path, rec)),
    decreases i,
{
    if i == 0 {
        assert(seq![(path, rec)] + m.drop_first() =~= m.update(0, (path, rec)));
    } else {
        lemma_update_at(m.drop_first(), path, rec, i - 1);
        assert(seq![m.first()] + m.drop_first().update(i - 1, (path, rec)) =~= m.update(
            i,
            (path, rec),
        ));
    }
}

/// When no key matches, the update is exactly an append.
proof fn lemma_update_append(m: Seq<(Seq<char>, RecordModel)>, path: Seq<char>, rec: RecordModel)
    requires
        forall|j: int| 0 <= j < m.len() ==> (#[trigger] m[j]).0 != path,
    ensures
        update_model(m, path, rec) =~= m.push((path, rec)),
    decreases m.len(),
{
    if m.len() == 0 {
        assert(update_model(m, path, rec) =~= m.push((path, rec)));
    } else {
        lemma_update_append(m.drop_first(), path, rec);
        assert(seq![m.first()] + m.drop_first().push((path, rec)) =~= m.push((path, rec)));
    }
}

/// Law: after recording `path`, looking `path` up yields exactly the new
/// record, and every other path resolves as before.
pub proof fn lemma_update_changes_one_path(
    m: Seq<(Seq<char>, RecordModel)>,
    path: Seq<char>,
    rec: RecordModel,
    q: Seq<char>,
)
    ensures
        lookup_model(update_model(m, path, rec), path) == Some(rec),
        q != path ==> lookup_model(update_model(m, path, rec), q) == lookup_model(m, q),
    decreases m.len(),
{
    if m.len() == 0 {
        let u = seq![(path, rec)];
        assert(update_model(m, path, rec) == u);
        assert(u.first() == (path, rec));
        assert(u.drop_first() =~= Seq::<(Seq<char>, RecordModel)>::empty());
        assert(lookup_model(u, path) == Some(rec));
        if q != path {
            assert(lookup_model(u, q) == lookup_model(u.drop_first(), q));
            assert(u.drop_first().len() == 0);
            assert(lookup_model(u.drop_first(), q) is None);
            assert(lookup_model(m, q) is None);
        }
    } else if m.first().0 == path {
        let u = seq![(path, rec)] + m.drop_first();
        assert(update_model(m, path, rec) == u);
        assert(u.first() == (path, rec));
        assert(u.drop_first() =~= m.drop_first());
        assert(lookup_model(u, path) == Some(rec));
        if q != path {
            assert(lookup_model(u, q) == lookup_model(u.drop_first(), q));
            assert(lookup_model(m, q) == lookup_model(m.drop_first(), q));
        }
    } else {
        lemma_update_changes_one_path(m.drop_first(), path, rec, q);
        let u = seq![m.first()] + update_model(m.drop_first(), path, rec);
        assert(update_model(m, path, rec) == u);
        assert(u.len() > 0);
        assert(u.first() == m.first());
        assert(u.drop_first() =~= update_model(m.drop_first(), path, rec));
        assert(lookup_model(u, path) == lookup_model(u.drop_first(), path));
        if q != path {
            if m.first().0 == q {
                assert(lookup_model(u, q) == Some(m.first().1));
                assert(lookup_model(m, q) == Some(m.first().1));
            } else {
                assert(lookup_model(u, q) == lookup_model(u.drop_first(), q));
                assert(lookup_model(m, q) == lookup_model(m.drop_first(), q));
            }
        }
    }
}

/// Law (change detection): recording a file's current hash makes it clean
/// again unless force is set, and flips no other path's staleness.
pub proof fn lemma_dirty_after_update(
    force: bool,
    m: Seq<(Seq<char>, RecordModel)>,
    path: Seq<char>,
    rec: RecordModel,
    q: Seq<char>,
    qhash: Seq<char>,
)
    ensures
        spec_is_dirty(force, update_model(m, path, rec), path, rec.content_hash) == force,
        q != path ==> spec_is_dirty(force, update_model(m, path, rec), q, qhash)
            == spec_is_dirty(force, m, q, qhash),
{
    lemma_update_changes_one_path(m, path, rec, q);
}

/// Law: recording a path under the record it already carries leaves the
/// entry list exactly as it was.
pub proof fn lemma_update_same_is_noop(
    m: Seq<(Seq<char>, RecordModel)>,
    path: Seq<char>,
    rec: RecordModel,
)
    requires
        lookup_model(m, path) == Some(rec),
    ensures
        update_model(m, path, rec) =~= m,
    decreases m.len(),
{
    if m.len() == 0 {
    } else if m.first().0 == path {
        assert(seq![(path, rec)] + m.drop_first() =~= m);
    } else {
        lemma_update_same_is_noop(m.drop_first(), path, rec);
        assert(seq![m.first()] + update_model(m.drop_first(), path, rec) =~= m);
    }
}

/// Law: recording the same path and record twice is the same as recording
/// it once.
pub proof fn lemma_update_idempotent(
    m: Seq<(Seq<char>, RecordModel)>,
    path: Seq<char>,
    rec: RecordModel,
)
    ensures
        update_model(update_model(m, path, rec), path, rec) =~= update_model(m, path, rec),
{
    lemma_update_changes_one_path(m, path, rec, path);
    lemma_update_same_is_noop(update_model(m, path, rec), path, rec);
}

impl BuildManifest {
    /// A fresh, empty manifest stamped with the given moment.
    pub fn new(now: i64) -> (r: BuildManifest)
        ensures
            r.version@ == "0.1.0"@,
            r.last_build == now,
            r.config_hash@ == Seq::<char>::empty(),
            r.template_hash@ == Seq::<char>::empty(),
            r.file_hashes@ == Seq::<(String, FileRecord)>::empty(),
    {
        BuildManifest {
            version: "0.1.0".to_owned(),
            last_build: now,
            config_hash: String::new(),
            template_hash: String::new(),
            file_hashes: Vec::new(),
        }
    }
}

/// The in-memory cache for one build: the manifest plus the force flag that
/// overrides every staleness question.
pub struct IncrementalCache {
    pub cache_dir: String,
    pub manifest: BuildManifest,
    pub force: bool,
}

impl IncrementalCache {
    /// Adopt a previously persisted manifest, or start from an empty one
    /// when forcing, when none exists, or when the persisted one could not
    /// be read (corruption never aborts a build).
    pub fn load(cache_dir: String, persisted: Option<BuildManifest>, force: bool, now: i64) -> (r:
        IncrementalCache)
        ensures
            r.cache_dir == cache_dir,
            r.force == force,
            !force ==> (persisted matches Some(m) ==> r.manifest == m),
            force || persisted is None ==> r.manifest.file_hashes@.len() == 0
                && r.manifest.last_build == now && r.manifest.version@ == "0.1.0"@
                && r.manifest.config_hash@ == Seq::<char>::empty() && r.manifest.template_hash@
                == Seq::<char>::empty(),
    {
        let manifest = if force {
            BuildManifest::new(now)
        } else {
            match persisted {
                Some(m) => m,
                None => BuildManifest::new(now),
            }
        };
        IncrementalCache { cache_dir, manifest, force }
    }

    /// Whether `path` must be rebuilt, given the hash of its current bytes.
    pub fn is_dirty(&self, path: &str, content_hash: &str) -> (r: bool)
        ensures
            r == spec_is_dirty(
                self.force,
                entries_model(self.manifest.file_hashes@),
                path@,
                content_hash@,
            ),
    {
        if self.force {
            return true;
        }
        let ghost m = entries_model(self.manifest.file_hashes@);
        let n = self.manifest.file_hashes.len();
        let mut i: usize = 0;
        while i < n
            invariant
                !self.force,
                i <= n,
                n == self.manifest.file_hashes@.len(),
                m == entries_model(self.manifest.file_hashes@),
                m.len() == n,
                forall|j: int| 0 <= j < i ==> (#[trigger] m[j]).0 != path@,
            decreases n - i,
        {
            let entry_path = &self.manifest.file_hashes[i].0;
            if str_eq(entry_path.as_str(), path) {
                let stored = &self.manifest.file_hashes[i].1.content_hash;
                let same = str_eq(stored.as_str(), content_hash);
                proof {
                    lemma_lookup_skip(m, path@, i as int);
                    assert(m.skip(i as int).first() == m[i as int]);
                    assert(lookup_model(m, path@) == Some(m[i as int].1));
                    assert(m[i as int] == (self.manifest.file_hashes@[i as int].0@, record_model(
                        self.manifest.file_hashes@[i as int].1,
                    )));
                }
                return !same;
            }
            i = i + 1;
        }
        proof {
            lemma_lookup_skip(m, path@, n as int);
            assert(m.skip(n as int) =~= Seq::<(Seq<char>, RecordModel)>::empty());
        }
        true
    }

    /// Whether the effective configuration differs from the one the last
    /// build ran under.
    pub fn config_changed(&self, config_hash: &str) -> (r: bool)
        ensures
            r == (self.force || self.manifest.config_hash@ != config_hash@),
    {
        if self.force {
            return true;
        }
        !str_eq(self.manifest.config_hash.as_str(), config_hash)
    }

    /// Whether the template tree differs from the one the last build saw.
    pub fn templates_changed(&self, template_hash: &str) -> (r: bool)
        ensures
            r == (self.force || self.manifest.template_hash@ != template_hash@),
    {
        if self.force {
            return true;
        }
        !str_eq(self.manifest.template_hash.as_str(), template_hash)
    }

    /// Record the hash and output location of one source file.
    pub fn update_file(&mut self, path: String, content_hash: String, output_path: String)
        ensures
            entries_model(final(self).manifest.file_hashes@) == update_model(
                entries_model(old(self).manifest.file_hashes@),
                path@,
                RecordModel {
                    content_hash: content_hash@,
                    output_path: output_path@,
                    template_deps: Seq::empty(),
                },
            ),
            final(self).manifest.version == old(self).manifest.version,
            final(self).manifest.last_build == old(self).manifest.last_build,
            final(self).manifest.config_hash == old(self).manifest.config_hash,
            final(self).manifest.template_hash == old(self).manifest.template_hash,
            final(self).cache_dir == old(self).cache_dir,
            final(self).force == old(self).force,
    {
        let rec = FileRecord { content_hash, output_path, template_deps: Vec::new() };
        let ghost m = entries_model(self.manifest.file_hashes@);
        let ghost rm = record_model(rec);
        proof {
            assert(rm.template_deps =~= Seq::<Seq<char>>::empty());
            assert(rm == (RecordModel {
                content_hash: content_hash@,
                output_path: output_path@,
                template_deps: Seq::empty(),
            }));
        }
        let n = self.manifest.file_hashes.len();
        let mut i: usize = 0;
        while i < n
            invariant
                *self == *old(self),
                rm == record_model(rec),
                rm == (RecordModel {
                    content_hash: content_hash@,
                    output_path: output_path@,
                    template_deps: Seq::empty(),
                }),
                i <= n,
                n == self.manifest.file_hashes@.len(),
                m == entries_model(self.manifest.file_hashes@),
                m.len() == n,
                forall|j: int| 0 <= j < i ==> (#[trigger] m[j]).0 != path@,
            decreases n - i,
        {
            let entry_path = &self.manifest.file_hashes[i].0;
            if str_eq(entry_path.as_str(), path.as_str()) {
                let ghost before = self.manifest.file_hashes@;
                let _previous = self.manifest.file_hashes.remove(i);
                self.manifest.file_hashes.insert(i, (path, rec));
                proof {
                    let updated = before.update(i as int, (path, rec));
                    assert(self.manifest.file_hashes@ =~= updated);
                    lemma_update_at(m, path@, rm, i as int);
                    assert forall|j: int| 0 <= j < updated.len() implies #[trigger] entries_model(
                        updated,
                    )[j] == m.update(i as int, (path@, rm))[j] by {
                        assert(entries_model(updated)[j] == (updated[j].0@, record_model(
                            updated[j].1,
                        )));
                        assert(m[j] == (before[j].0@, record_model(before[j].1)));
                    }
                    assert(entries_model(updated) =~= m.update(i as int, (path@, rm)));
                }
                return ;
            }
            i = i + 1;
        }
        let ghost before = self.manifest.file_hashes@;
        self.manifest.file_hashes.push((path, rec));
        proof {
            lemma_update_append(m, path@, rm);
            let pushed = before.push((path, rec));
            assert forall|j: int| 0 <= j < pushed.len() implies #[trigger] entries_model(
                pushed,
            )[j] == m.push((path@, rm))[j] by {
                assert(entries_model(pushed)[j] == (pushed[j].0@, record_model(pushed[j].1)));
                if j < before.len() {
                    assert(m[j] == (before[j].0@, record_model(before[j].1)));
                }
            }
            assert(entries_model(pushed) =~= m.push((path@, rm)));
        }
    }

    /// Remember the hash of the configuration this build ran under.
    pub fn set_config_hash(&mut self, hash: String)
        ensures
            final(self).manifest.config_hash == hash,
            final(self).manifest.version == old(self).manifest.version,
            final(self).manifest.last_build == old(self).manifest.last_build,
            final(self).manifest.template_hash == old(self).manifest.template_hash,
            final(self).manifest.file_hashes == old(self).manifest.file_hashes,
            final(self).cache_dir == old(self).cache_dir,
            final(self).force == old(self).force,
    {
        self.manifest.config_hash = hash;
    }

    /// Remember the hash of the template tree this build saw.
    pub fn set_template_hash(&mut self, hash: String)
        ensures
            final(self).manifest.template_hash == hash,
            final(self).manifest.version == old(self).manifest.version,
            final(self).manifest.last_build == old(self).manifest.last_build,
            final(self).manifest.config_hash == old(self).manifest.config_hash,
            final(self).manifest.file_hashes == old(self).manifest.file_hashes,
            final(self).cache_dir == old(self).cache_dir,
            final(self).force == old(self).force,
    {
        self.manifest.template_hash = hash;
    }

    /// Stamp the manifest with the present moment, just before it is
    /// persisted. Everything but the timestamp stays as it was.
    pub fn stamp(&mut self)
        ensures
            final(self).manifest.version == old(self).manifest.version,
            final(self).manifest.config_hash == old(self).manifest.config_hash,
            final(self).manifest.template_hash == old(self).manifest.template_hash,
            final(self).manifest.file_hashes == old(self).manifest.file_hashes,
            final(self).cache_dir == old(self).cache_dir,
            final(self).force == old(self).force,
    {
        self.manifest.last_build = now_timestamp();
    }

    /// The per-file records of the previous build.
    pub fn file_hashes(&self) -> (r: &Vec<(String, FileRecord)>)
        ensures
            r@ == self.manifest.file_hashes@,
    {
        &self.manifest.file_hashes
    }
}


/// A batch of per-file records applied in order, one `update_file` each.
pub open spec fn apply_updates(
    m: Seq<(Seq<char>, RecordModel)>,
    us: Seq<(Seq<char>, RecordModel)>,
) -> Seq<(Seq<char>, RecordModel)>
    decreases us.len(),
{
    if us.len() == 0 {
        m
    } else {
        apply_updates(update_model(m, us.first().0, us.first().1), us.drop_first())
    }
}

/// A path no update in the batch touches resolves afterwards as it did
/// before.
proof fn lemma_apply_preserves_other(
    m: Seq<(Seq<char>, RecordModel)>,
    us: Seq<(Seq<char>, RecordModel)>,
    q: Seq<char>,
)
    requires
        forall|j: int| 0 <= j < us.len() ==> (#[trigger] us[j]).0 != q,
    ensures
        lookup_model(apply_updates(m, us), q) == lookup_model(m, q),
    decreases us.len(),
{
    if us.len() > 0 {
        lemma_update_changes_one_path(m, us.first().0, us.first().1, q);
        lemma_apply_preserves_other(
            update_model(m, us.first().0, us.first().1),
            us.drop_first(),
            q,
        );
    }
}

/// The first record of a batch whose path never recurs in it survives the
/// whole batch.
proof fn lemma_apply_first_survives(
    m: Seq<(Seq<char>, RecordModel)>,
    us: Seq<(Seq<char>, RecordModel)>,
)
    requires
        us.len() > 0,
        forall|j: int| 1 <= j < us.len() ==> (#[trigger] us[j]).0 != us[0].0,
    ensures
        lookup_model(apply_updates(m, us), us[0].0) == Some(us[0].1),
{
    let m1 = update_model(m, us.first().0, us.first().1);
    lemma_update_changes_one_path(m, us.first().0, us.first().1, us[0].0);
    assert forall|j: int| 0 <= j < us.drop_first().len() implies (#[trigger] us.drop_first()[j]).0
        != us[0].0 by {
        assert(us.drop_first()[j] == us[j + 1]);
    }
    lemma_apply_preserves_other(m1, us.drop_first(), us[0].0);
}

/// Law (idempotent rebuild): with no source changes, the second build
/// records exactly the same path/record pairs as the first, and the file
/// table it persists is identical to the first build's, whatever manifest
/// the first build started from. Each source path is recorded once per
/// build.
pub proof fn lemma_rebuild_idempotent(
    m: Seq<(Seq<char>, RecordModel)>,
    us: Seq<(Seq<char>, RecordModel)>,
)
    requires
        forall|i: int, j: int|
            0 <= i < j < us.len() ==> (#[trigger] us[i]).0 != (#[trigger] us[j]).0,
    ensures
        apply_updates(apply_updates(m, us), us) == apply_updates(m, us),
    decreases us.len(),
{
    if us.len() > 0 {
        let u0 = us[0];
        let mp = update_model(m, u0.0, u0.1);
        let m1 = apply_updates(m, us);
        assert(m1 == apply_updates(mp, us.drop_first()));
        assert forall|i: int, j: int|
            0 <= i < j < us.drop_first().len() implies (#[trigger] us.drop_first()[i]).0 != (
        #[trigger] us.drop_first()[j]).0 by {
            assert(us.drop_first()[i] == us[i + 1]);
            assert(us.drop_first()[j] == us[j + 1]);
        }
        lemma_rebuild_idempotent(mp, us.drop_first());
        lemma_apply_first_survives(m, us);
        lemma_update_same_is_noop(m1, u0.0, u0.1);
        assert(update_model(m1, u0.0, u0.1) =~= m1);
        assert(apply_updates(m1, us) == apply_updates(update_model(m1, u0.0, u0.1), us.drop_first()));
        assert(apply_updates(update_model(m1, u0.0, u0.1), us.drop_first()) == apply_updates(m1, us.drop_first()));
    }
}
} // verus!
