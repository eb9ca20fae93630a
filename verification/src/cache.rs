//! Change detection: content digests and the cache of what was built from
//! which inputs.

use vstd::prelude::*;
use vstd::hash_map::StringHashMap;
use vstd::relations::{sorted_by, total_ordering};
use vstd::utf8::encode_utf8;
use crate::order::{
    keys_of, lemma_lex_antisymmetric, lemma_lex_reflexive, lemma_lex_total,
    lemma_lex_transitive, lex_le, lex_le_from, reordered, sorted_order, Keyed,
};
use crate::text::{chars_of, str_eq};

verus! {

/// The BLAKE3 digest of a byte string, as 64 lower-case hexadecimal digits.
pub uninterp spec fn content_digest(bytes: Seq<u8>) -> Seq<char>;

/// `blake3::hash` followed by `Hash::to_hex`: the digest of `bytes`, which
/// has 32 bytes and is written as 64 hexadecimal digits.
#[verifier::external_body]
fn blake3_hex(bytes: &[u8]) -> (digest: String)
    ensures
        digest@ == content_digest(bytes@),
        digest@.len() == 64,
{
    blake3::hash(bytes).to_hex().to_string()
}

/// `chrono::Utc::now` followed by `DateTime::to_rfc3339`: the current time
/// as text. Nothing is claimed of it. The call stops the program on a machine
/// whose clock stands before 1970.
#[verifier::external_body]
fn now_rfc3339() -> (stamp: String) {
    chrono::Utc::now().to_rfc3339()
}

/// The digest of a file's content.
pub fn hash_file(content: &[u8]) -> (digest: String)
    ensures
        digest@ == content_digest(content@),
        digest@.len() == 64,
{
    blake3_hex(content)
}

/// Equal contents have equal digests.
pub proof fn lemma_digest_deterministic(a: Seq<u8>, b: Seq<u8>)
    requires
        a == b,
    ensures
        content_digest(a) == content_digest(b),
{
}

/// What the cache remembers of one built file.
#[derive(Debug, Clone, PartialEq, Eq)]
pub struct CacheEntry {
    pub file_hash: String,
    pub template_hash: String,
    pub output_path: String,
    pub built_at: String,
}

/// A cache entry as plain texts.
pub struct EntryModel {
    pub file_hash: Seq<char>,
    pub template_hash: Seq<char>,
    pub output_path: Seq<char>,
    pub built_at: Seq<char>,
}

impl View for CacheEntry {
    type V = EntryModel;

    open spec fn view(&self) -> EntryModel {
        EntryModel {
            file_hash: self.file_hash@,
            template_hash: self.template_hash@,
            output_path: self.output_path@,
            built_at: self.built_at@,
        }
    }
}

/// Whether `path` has to be rebuilt, given the digests of its content and of
/// the templates: it has no entry, or one of the digests differs from the
/// entry's.
pub open spec fn is_stale(
    entries: Map<Seq<char>, EntryModel>,
    path: Seq<char>,
    file_hash: Seq<char>,
    template_hash: Seq<char>,
) -> bool {
    !entries.contains_key(path) || entries[path].file_hash != file_hash
        || entries[path].template_hash != template_hash
}

/// The map that a list of entries stands for; a later entry replaces an
/// earlier one for the same path.
pub open spec fn entries_of(list: Seq<(Seq<char>, EntryModel)>) -> Map<Seq<char>, EntryModel>
    decreases list.len(),
{
    if list.len() == 0 {
        Map::empty()
    } else {
        entries_of(list.drop_last()).insert(list.last().0, list.last().1)
    }
}

/// The pairs of path and entry that a vector of them stands for.
pub open spec fn entries_view(v: Seq<(String, CacheEntry)>) -> Seq<(Seq<char>, EntryModel)> {
    v.map_values(|p: (String, CacheEntry)| (p.0@, p.1@))
}

/// The entries by path, with the paths in the order in which they were
/// first entered.
struct Index {
    map: StringHashMap<CacheEntry>,
    paths: Vec<String>,
}

impl Index {
    spec fn model(&self) -> Map<Seq<char>, EntryModel> {
        self.map@.map_values(|e: CacheEntry| e@)
    }

    spec fn wf(&self) -> bool {
        &&& forall|i: int| 0 <= i < self.paths@.len() ==> self.map@.contains_key(#[trigger] self.paths@[i]@)
        &&& forall|i: int, j: int|
            0 <= i < j < self.paths@.len() ==> (#[trigger] self.paths@[i])@ != (
            #[trigger] self.paths@[j])@
        &&& forall|k: Seq<char>| #[trigger]
            self.map@.contains_key(k) ==> exists|i: int|
                0 <= i < self.paths@.len() && (#[trigger] self.paths@[i])@ == k
    }

    fn new() -> (index: Self)
        ensures
            index.wf(),
            index.model() == Map::<Seq<char>, EntryModel>::empty(),
    {
        let index = Index { map: StringHashMap::new(), paths: Vec::new() };
        assert(index.model() =~= Map::<Seq<char>, EntryModel>::empty());
        index
    }

    fn insert(&mut self, path: &str, entry: CacheEntry)
        requires
            old(self).wf(),
        ensures
            final(self).wf(),
            final(self).model() == old(self).model().insert(path@, entry@),
    {
        let ghost before = self.map@;
        let ghost listed = self.paths@;
        if !self.map.contains_key(path) {
            self.paths.push(path.to_owned());
        }
        self.map.insert(path.to_owned(), entry);
        proof {
            assert(self.model() =~= old(self).model().insert(path@, entry@));
            assert forall|k: Seq<char>| #[trigger] self.map@.contains_key(k) implies exists|
                i: int,
            |
                0 <= i < self.paths@.len() && (#[trigger] self.paths@[i])@ == k by {
                if k == path@ {
                    if before.contains_key(path@) {
                        let i = choose|i: int|
                            0 <= i < listed.len() && (#[trigger] listed[i])@ == k;
                        assert(self.paths@[i]@ == k);
                    } else {
                        assert(self.paths@[listed.len() as int]@ == k);
                    }
                } else {
                    assert(before.contains_key(k));
                    let i = choose|i: int| 0 <= i < listed.len() && (#[trigger] listed[i])@ == k;
                    assert(self.paths@[i]@ == k);
                }
            }
        }
    }
}

impl CacheEntry {
    /// A copy of this entry.
    pub fn duplicate(&self) -> (copy: CacheEntry)
        ensures
            copy@ == self@,
    {
        CacheEntry {
            file_hash: self.file_hash.clone(),
            template_hash: self.template_hash.clone(),
            output_path: self.output_path.clone(),
            built_at: self.built_at.clone(),
        }
    }
}

/// Entering a pair at the end of a list enters it into the list's map.
pub proof fn lemma_entries_of_push(list: Seq<(Seq<char>, EntryModel)>, pair: (Seq<char>, EntryModel))
    ensures
        entries_of(list.push(pair)) == entries_of(list).insert(pair.0, pair.1),
{
    assert(list.push(pair).drop_last() == list);
}

/// Viewing the values of a map does not change how many there are.
proof fn lemma_map_values_len(m: Map<Seq<char>, CacheEntry>)
    ensures
        m.map_values(|e: CacheEntry| e@).dom() == m.dom(),
        m.map_values(|e: CacheEntry| e@).len() == m.len(),
{
    assert(m.map_values(|e: CacheEntry| e@).dom() =~= m.dom());
}

/// A list of different paths that are exactly the keys of a map is as long
/// as the map is large.
proof fn lemma_distinct_paths_count(paths: Seq<String>, m: Map<Seq<char>, CacheEntry>)
    requires
        forall|i: int| 0 <= i < paths.len() ==> m.contains_key(#[trigger] paths[i]@),
        forall|i: int, j: int|
            0 <= i < j < paths.len() ==> (#[trigger] paths[i])@ != (#[trigger] paths[j])@,
        forall|k: Seq<char>| #[trigger]
            m.contains_key(k) ==> exists|i: int| 0 <= i < paths.len() && (#[trigger] paths[i])@ == k,
    ensures
        m.dom().finite(),
        m.len() == paths.len(),
    decreases paths.len(),
{
    if paths.len() == 0 {
        assert(m.dom() =~= Set::<Seq<char>>::empty());
    } else {
        let last = paths.last();
        let shorter = paths.drop_last();
        let rest = m.remove(last@);
        assert forall|k: Seq<char>| #[trigger] rest.contains_key(k) implies exists|i: int|
            0 <= i < shorter.len() && (#[trigger] shorter[i])@ == k by {
            let i = choose|i: int| 0 <= i < paths.len() && (#[trigger] paths[i])@ == k;
            assert(shorter[i] == paths[i]);
        }
        assert forall|i: int| 0 <= i < shorter.len() implies rest.contains_key(
            #[trigger] shorter[i]@,
        ) by {
            assert(shorter[i] == paths[i]);
            assert(paths[i]@ != paths[paths.len() - 1]@);
        }
        assert forall|i: int, j: int| 0 <= i < j < shorter.len() implies (#[trigger] shorter[i])@
            != (#[trigger] shorter[j])@ by {
            assert(shorter[i] == paths[i]);
            assert(shorter[j] == paths[j]);
        }
        lemma_distinct_paths_count(shorter, rest);
        assert(m.contains_key(paths[paths.len() - 1]@));
        assert(m.dom() =~= rest.dom().insert(last@));
    }
}

/// What was built from which inputs: one entry per source path.
pub struct BuildCache {
    version: String,
    index: Index,
}

impl BuildCache {
    #[verifier::type_invariant]
    spec fn well_formed(&self) -> bool {
        self.index.wf()
    }

    /// The entries by source path.
    pub closed spec fn entries(&self) -> Map<Seq<char>, EntryModel> {
        self.index.model()
    }

    /// The version of the program that wrote the cache.
    pub closed spec fn version_text(&self) -> Seq<char> {
        self.version@
    }

    /// An empty cache.
    pub fn new() -> (cache: Self)
        ensures
            cache.entries() == Map::<Seq<char>, EntryModel>::empty(),
            cache.version_text() == "0.1.0"@,
    {
        BuildCache { version: "0.1.0".to_owned(), index: Index::new() }
    }

    /// A cache with the given entries; a later entry replaces an earlier
    /// one for the same path.
    pub fn from_entries(version: String, list: Vec<(String, CacheEntry)>) -> (cache: Self)
        ensures
            cache.version_text() == version@,
            cache.entries() == entries_of(entries_view(list@)),
    {
        let mut index = Index::new();
        let ghost all = entries_view(list@);
        let mut k: usize = 0;
        assert(all.subrange(0, 0) == Seq::<(Seq<char>, EntryModel)>::empty());
        while k < list.len()
            invariant
                k <= list.len(),
                all == entries_view(list@),
                index.wf(),
                index.model() == entries_of(all.subrange(0, k as int)),
            decreases list.len() - k,
        {
            let entry = list[k].1.duplicate();
            index.insert(list[k].0.as_str(), entry);
            proof {
                lemma_entries_of_push(all.subrange(0, k as int), all[k as int]);
                assert(all.subrange(0, k + 1) == all.subrange(0, k as int).push(all[k as int]));
            }
            k += 1;
        }
        assert(all.subrange(0, list@.len() as int) == all);
        BuildCache { version, index }
    }

    /// A copy of this cache, made by listing its entries and entering them
    /// again: the copy has the same entries.
    pub fn duplicate(&self) -> (copy: Self)
        ensures
            copy.entries() == self.entries(),
            copy.version_text() == self.version_text(),
    {
        Self::from_entries(self.version.clone(), self.entries_list())
    }

    /// The version of the program that wrote the cache.
    pub fn version(&self) -> (version: &String)
        ensures
            version@ == self.version_text(),
    {
        &self.version
    }

    /// Number of entries. A cache holds finitely many.
    pub fn len(&self) -> (count: usize)
        ensures
            self.entries().dom().finite(),
            count == self.entries().len(),
    {
        proof {
            use_type_invariant(self);
            vstd::hash_map::axiom_string_hash_map_spec_len(&self.index.map);
            lemma_map_values_len(self.index.map@);
            lemma_distinct_paths_count(self.index.paths@, self.index.map@);
        }
        self.index.map.len()
    }

    /// The entry for `path`, if there is one.
    pub fn get(&self, path: &str) -> (entry: Option<&CacheEntry>)
        ensures
            match entry {
                Some(found) => self.entries().contains_key(path@) && found@ == self.entries()[path@],
                None => !self.entries().contains_key(path@),
            },
    {
        self.index.map.get(path)
    }

    /// All entries with their paths, each path once, in the order in which
    /// the paths were first entered.
    pub fn entries_list(&self) -> (list: Vec<(String, CacheEntry)>)
        ensures
            entries_of(entries_view(list@)) == self.entries(),
            list@.len() == self.entries().len(),
            forall|i: int, j: int|
                0 <= i < j < list@.len() ==> (#[trigger] list@[i]).0@ != (#[trigger] list@[j]).0@,
    {
        proof {
            use_type_invariant(self);
        }
        let mut list: Vec<(String, CacheEntry)> = Vec::new();
        let ghost model = self.index.model();
        let mut k: usize = 0;
        while k < self.index.paths.len()
            invariant
                k <= self.index.paths@.len(),
                self.index.wf(),
                model == self.index.model(),
                list@.len() == k,
                forall|i: int| 0 <= i < k ==> (#[trigger] list@[i]).0@ == self.index.paths@[i]@,
                forall|key: Seq<char>| #[trigger]
                    entries_of(entries_view(list@)).contains_key(key) <==> exists|i: int|
                        0 <= i < k && (#[trigger] self.index.paths@[i])@ == key,
                forall|key: Seq<char>| #[trigger]
                    entries_of(entries_view(list@)).contains_key(key) ==> entries_of(
                        entries_view(list@),
                    )[key] == model[key],
            decreases self.index.paths@.len() - k,
        {
            let path = &self.index.paths[k];
            let ghost before = entries_view(list@);
            match self.index.map.get(path.as_str()) {
                Some(entry) => {
                    list.push((path.clone(), entry.duplicate()));
                    proof {
                        let pair = (path@, entry@);
                        assert(entries_view(list@) =~= before.push(pair));
                        lemma_entries_of_push(before, pair);
                        let now = entries_of(entries_view(list@));
                        assert forall|key: Seq<char>| #[trigger]
                            now.contains_key(key) <==> exists|i: int|
                                0 <= i < k + 1 && (#[trigger] self.index.paths@[i])@ == key by {
                            if now.contains_key(key) {
                                if key == path@ {
                                    assert(self.index.paths@[k as int]@ == key);
                                } else {
                                    assert(entries_of(before).contains_key(key));
                                    let i = choose|i: int|
                                        0 <= i < k && (#[trigger] self.index.paths@[i])@ == key;
                                    assert(0 <= i < k + 1 && self.index.paths@[i]@ == key);
                                }
                            }
                            if exists|i: int|
                                0 <= i < k + 1 && (#[trigger] self.index.paths@[i])@ == key {
                                let i = choose|i: int|
                                    0 <= i < k + 1 && (#[trigger] self.index.paths@[i])@ == key;
                                if i < k {
                                    assert(entries_of(before).contains_key(key));
                                }
                            }
                        }
                    }
                },
                None => {
                    // Every listed path has an entry.
                    assert(false);
                },
            }
            k += 1;
        }
        proof {
            let got = entries_of(entries_view(list@));
            assert forall|key: Seq<char>| got.contains_key(key) <==> model.contains_key(key) by {
                if got.contains_key(key) {
                    let i = choose|i: int|
                        0 <= i < k && (#[trigger] self.index.paths@[i])@ == key;
                    assert(self.index.map@.contains_key(self.index.paths@[i]@));
                }
                if model.contains_key(key) {
                    assert(self.index.map@.contains_key(key));
                }
            }
            assert(got =~= model);
            lemma_distinct_paths_count(self.index.paths@, self.index.map@);
            lemma_map_values_len(self.index.map@);
            assert forall|i: int, j: int| 0 <= i < j < list@.len() implies (#[trigger] list@[i]).0@
                != (#[trigger] list@[j]).0@ by {
                assert(self.index.paths@[i]@ != self.index.paths@[j]@);
            }
        }
        list
    }

    /// Whether `path` has to be rebuilt: the cache has no entry for it, or
    /// the entry was built from another content or from other templates.
    pub fn needs_rebuild(&self, path: &str, current_hash: &str, current_template_hash: &str) -> (stale:
        bool)
        ensures
            stale == is_stale(self.entries(), path@, current_hash@, current_template_hash@),
    {
        match self.index.map.get(path) {
            None => true,
            Some(entry) => {
                !str_eq(entry.file_hash.as_str(), current_hash) || !str_eq(
                    entry.template_hash.as_str(),
                    current_template_hash,
                )
            },
        }
    }

    /// Enters what `path` was built from and to, built at the time
    /// `built_at`. An earlier entry for `path` is replaced.
    pub fn record_entry(
        &mut self,
        path: &str,
        hash: String,
        template_hash: String,
        output: String,
        built_at: String,
    )
        ensures
            final(self).version_text() == old(self).version_text(),
            final(self).entries() == old(self).entries().insert(
                path@,
                EntryModel {
                    file_hash: hash@,
                    template_hash: template_hash@,
                    output_path: output@,
                    built_at: built_at@,
                },
            ),
    {
        proof {
            use_type_invariant(&*self);
        }
        let entry = CacheEntry { file_hash: hash, template_hash, output_path: output, built_at };
        let mut index = Index::new();
        core::mem::swap(&mut self.index, &mut index);
        index.insert(path, entry);
        core::mem::swap(&mut self.index, &mut index);
    }

    /// Enters what `path` was built from and to, stamped with the current
    /// time. An earlier entry for `path` is replaced.
    pub fn update_entry(&mut self, path: &str, hash: String, template_hash: String, output: String)
        ensures
            final(self).version_text() == old(self).version_text(),
            final(self).entries().contains_key(path@),
            final(self).entries() == old(self).entries().insert(
                path@,
                EntryModel {
                    file_hash: hash@,
                    template_hash: template_hash@,
                    output_path: output@,
                    built_at: final(self).entries()[path@].built_at,
                },
            ),
    {
        let stamp = now_rfc3339();
        self.record_entry(path, hash, template_hash, output, stamp);
    }
}

impl Default for BuildCache {
    fn default() -> (cache: Self)
        ensures
            cache.entries() == Map::<Seq<char>, EntryModel>::empty(),
            cache.version_text() == "0.1.0"@,
    {
        Self::new()
    }
}

/// A file of a directory tree: its path and its content.
#[derive(Debug, Clone, PartialEq, Eq)]
pub struct DirectoryFile {
    pub path: String,
    pub content: Vec<u8>,
}

impl View for DirectoryFile {
    type V = (Seq<char>, Seq<u8>);

    open spec fn view(&self) -> (Seq<char>, Seq<u8>) {
        (self.path@, self.content@)
    }
}

/// The rank of a character in the order of paths: the separator `/` comes
/// before every other character, the others follow by code point. So paths
/// are ordered segment by segment.
pub open spec fn path_rank(c: char) -> int {
    if c == '/' {
        0
    } else {
        c as int + 1
    }
}

/// The key by which the files of a directory are ordered: by path, and two
/// entries for one path by content.
pub open spec fn file_key(file: (Seq<char>, Seq<u8>)) -> Seq<int> {
    file.0.map_values(|c: char| path_rank(c)) + seq![-1int] + file.1.map_values(|b: u8| b as int)
}

/// The order of the files of a directory.
pub open spec fn file_order() -> spec_fn((Seq<char>, Seq<u8>), (Seq<char>, Seq<u8>)) -> bool {
    |a: (Seq<char>, Seq<u8>), b: (Seq<char>, Seq<u8>)| lex_le(file_key(a), file_key(b))
}

/// What is hashed for a list of files: for each in turn, the bytes of its
/// path and then its content.
pub open spec fn directory_stream(files: Seq<(Seq<char>, Seq<u8>)>) -> Seq<u8>
    decreases files.len(),
{
    if files.len() == 0 {
        Seq::empty()
    } else {
        directory_stream(files.drop_last()) + encode_utf8(files.last().0) + files.last().1
    }
}

/// The digest of a directory: of the stream of its files in sorted order.
pub open spec fn directory_digest(files: Seq<(Seq<char>, Seq<u8>)>) -> Seq<char> {
    content_digest(directory_stream(files.sort_by(file_order())))
}

/// The files that a vector of files stands for.
pub open spec fn files_view(v: Seq<DirectoryFile>) -> Seq<(Seq<char>, Seq<u8>)> {
    v.map_values(|f: DirectoryFile| f@)
}

/// Ranks are not negative, and different characters have different ranks.
pub proof fn lemma_path_rank(x: char, y: char)
    ensures
        path_rank(x) >= 0,
        path_rank(x) == path_rank(y) ==> x == y,
        x != '/' && y != '/' ==> (path_rank(x) < path_rank(y)) == (x < y),
{
}

/// Files with the same key are the same file.
pub proof fn lemma_file_key_injective(a: (Seq<char>, Seq<u8>), b: (Seq<char>, Seq<u8>))
    requires
        file_key(a) == file_key(b),
    ensures
        a == b,
{
    let ka = file_key(a);
    let kb = file_key(b);
    let na = a.0.len() as int;
    let nb = b.0.len() as int;
    assert(ka[na] == -1);
    assert(kb[nb] == -1);
    if na < nb {
        assert(kb[na] == path_rank(b.0[na]));
        lemma_path_rank(b.0[na], b.0[na]);
    }
    if nb < na {
        assert(ka[nb] == path_rank(a.0[nb]));
        lemma_path_rank(a.0[nb], a.0[nb]);
    }
    assert(na == nb);
    assert(a.0 =~= b.0) by {
        assert forall|i: int| 0 <= i < na implies a.0[i] == b.0[i] by {
            assert(ka[i] == path_rank(a.0[i]));
            assert(kb[i] == path_rank(b.0[i]));
            lemma_path_rank(a.0[i], b.0[i]);
        }
    }
    assert(ka.len() == na + 1 + a.1.len());
    assert(kb.len() == nb + 1 + b.1.len());
    assert(a.1 =~= b.1) by {
        assert forall|i: int| 0 <= i < a.1.len() implies a.1[i] == b.1[i] by {
            assert(ka[na + 1 + i] == a.1[i] as int);
            assert(kb[nb + 1 + i] == b.1[i] as int);
        }
    }
}

/// The order of files is a total order.
pub proof fn lemma_file_order_total()
    ensures
        total_ordering(file_order()),
{
    let r = file_order();
    assert forall|x: (Seq<char>, Seq<u8>)| #[trigger] r(x, x) by {
        lemma_lex_reflexive(file_key(x), 0);
    }
    assert forall|x: (Seq<char>, Seq<u8>), y: (Seq<char>, Seq<u8>)| #[trigger]
        r(x, y) && #[trigger] r(y, x) implies x == y by {
        assert(file_key(x).subrange(0, 0) == file_key(y).subrange(0, 0));
        lemma_lex_antisymmetric(file_key(x), file_key(y), 0);
        lemma_file_key_injective(x, y);
    }
    assert forall|x: (Seq<char>, Seq<u8>), y: (Seq<char>, Seq<u8>), z: (Seq<char>, Seq<u8>)|
        #[trigger] r(x, y) && #[trigger] r(y, z) implies r(x, z) by {
        lemma_lex_transitive(file_key(x), file_key(y), file_key(z), 0);
    }
    assert forall|x: (Seq<char>, Seq<u8>), y: (Seq<char>, Seq<u8>)| #[trigger]
        r(x, y) || #[trigger] r(y, x) by {
        lemma_lex_total(file_key(x), file_key(y), 0);
    }
}

/// The digest of a directory does not depend on the order in which its
/// files are listed.
pub proof fn lemma_directory_digest_order_independent(
    a: Seq<(Seq<char>, Seq<u8>)>,
    b: Seq<(Seq<char>, Seq<u8>)>,
)
    requires
        a.to_multiset() == b.to_multiset(),
    ensures
        directory_digest(a) == directory_digest(b),
{
    lemma_file_order_total();
    a.lemma_sort_by_ensures(file_order());
    b.lemma_sort_by_ensures(file_order());
    vstd::seq_lib::lemma_sorted_unique(a.sort_by(file_order()), b.sort_by(file_order()), file_order());
}

impl Keyed for DirectoryFile {
    open spec fn key(&self) -> Seq<int> {
        file_key(self@)
    }

    fn key_le(&self, other: &Self) -> (le: bool) {
        let a = chars_of(self.path.as_str());
        let b = chars_of(other.path.as_str());
        let ghost ka = file_key(self@);
        let ghost kb = file_key(other@);
        let mut i: usize = 0;
        while i < a.len() && i < b.len()
            invariant
                i <= a.len(),
                i <= b.len(),
                a@ == self.path@,
                b@ == other.path@,
                ka == file_key(self@),
                kb == file_key(other@),
                lex_le(ka, kb) == lex_le_from(ka, kb, i as int),
            decreases a.len() - i,
        {
            let x = a[i];
            let y = b[i];
            assert(ka[i as int] == path_rank(x));
            assert(kb[i as int] == path_rank(y));
            proof {
                lemma_path_rank(x, y);
                lemma_path_rank(y, x);
            }
            if x != y {
                assert(lex_le_from(ka, kb, i as int) == (ka[i as int] < kb[i as int]));
                return if x == '/' {
                    true
                } else if y == '/' {
                    false
                } else {
                    x < y
                };
            }
            i += 1;
        }
        if i < b.len() {
            assert(ka[i as int] == -1);
            assert(kb[i as int] == path_rank(b@[i as int]));
            proof {
                lemma_path_rank(b@[i as int], b@[i as int]);
            }
            return true;
        }
        if i < a.len() {
            assert(kb[i as int] == -1);
            assert(ka[i as int] == path_rank(a@[i as int]));
            proof {
                lemma_path_rank(a@[i as int], a@[i as int]);
            }
            return false;
        }
        assert(ka[i as int] == -1 && kb[i as int] == -1);
        let n = i;
        let mut j: usize = 0;
        while j < self.content.len() && j < other.content.len()
            invariant
                j <= self.content.len(),
                j <= other.content.len(),
                n == self.path@.len(),
                n == other.path@.len(),
                ka == file_key(self@),
                kb == file_key(other@),
                lex_le(ka, kb) == lex_le_from(ka, kb, n + 1 + j),
            decreases self.content.len() - j,
        {
            let x = self.content[j];
            let y = other.content[j];
            assert(ka[n + 1 + j] == x as int);
            assert(kb[n + 1 + j] == y as int);
            if x != y {
                return x < y;
            }
            j += 1;
        }
        assert(ka.len() == n + 1 + self.content@.len());
        assert(kb.len() == n + 1 + other.content@.len());
        j >= self.content.len()
    }
}

/// The digest of a directory tree, given its files in any order: the
/// digest of the path bytes and content of each file, the files taken in
/// the order of their paths. Renaming a file changes what is hashed.
pub fn hash_directory(files: &Vec<DirectoryFile>) -> (digest: String)
    ensures
        digest@ == directory_digest(files_view(files@)),
        digest@.len() == 64,
{
    let ghost listed = files_view(files@);
    let order = sorted_order::<DirectoryFile, (Seq<char>, Seq<u8>)>(files, Ghost(listed));
    let ghost sorted = reordered(listed, order@);
    proof {
        lemma_file_order_total();
        listed.lemma_sort_by_ensures(file_order());
        assert(sorted_by(sorted, file_order())) by {
            assert forall|i: int, j: int| 0 <= i < j < sorted.len() implies #[trigger]
                file_order()(sorted[i], sorted[j]) by {
                assert(keys_of(files@)[order@[i] as int] == file_key(listed[order@[i] as int]));
                assert(keys_of(files@)[order@[j] as int] == file_key(listed[order@[j] as int]));
                assert(lex_le(
                    keys_of(files@)[order@[i] as int],
                    keys_of(files@)[order@[j] as int],
                ));
            }
        }
        vstd::seq_lib::lemma_sorted_unique(sorted, listed.sort_by(file_order()), file_order());
    }
    let mut stream: Vec<u8> = Vec::new();
    let mut k: usize = 0;
    while k < order.len()
        invariant
            k <= order.len(),
            order@.len() == files@.len(),
            forall|i: int| 0 <= i < order@.len() ==> (#[trigger] order@[i]) < files@.len(),
            listed == files_view(files@),
            sorted == reordered(listed, order@),
            stream@ == directory_stream(sorted.subrange(0, k as int)),
        decreases order.len() - k,
    {
        let file = &files[order[k]];
        let path_bytes = file.path.as_str().as_bytes();
        let ghost before = stream@;
        let mut p: usize = 0;
        while p < path_bytes.len()
            invariant
                p <= path_bytes@.len(),
                stream@ == before + path_bytes@.subrange(0, p as int),
            decreases path_bytes.len() - p,
        {
            stream.push(path_bytes[p]);
            assert(path_bytes@.subrange(0, p + 1) == path_bytes@.subrange(0, p as int).push(
                path_bytes@[p as int],
            ));
            p += 1;
        }
        assert(path_bytes@.subrange(0, path_bytes@.len() as int) == path_bytes@);
        let ghost with_path = stream@;
        let mut c: usize = 0;
        while c < file.content.len()
            invariant
                c <= file.content@.len(),
                stream@ == with_path + file.content@.subrange(0, c as int),
            decreases file.content.len() - c,
        {
            stream.push(file.content[c]);
            assert(file.content@.subrange(0, c + 1) == file.content@.subrange(0, c as int).push(
                file.content@[c as int],
            ));
            c += 1;
        }
        proof {
            assert(file.content@.subrange(0, file.content@.len() as int) == file.content@);
            let upto = sorted.subrange(0, k + 1);
            assert(upto.drop_last() == sorted.subrange(0, k as int));
            assert(upto.last() == file@);
            assert(path_bytes@ == encode_utf8(file.path@));
        }
        k += 1;
    }
    assert(sorted.subrange(0, order@.len() as int) == sorted);
    blake3_hex(stream.as_slice())
}

/// A path whose entry records the same digests is not rebuilt; one whose
/// entry records another digest is; one without an entry is.
pub proof fn lemma_stale_by_entry(
    entries: Map<Seq<char>, EntryModel>,
    path: Seq<char>,
    entry: EntryModel,
    file_hash: Seq<char>,
    template_hash: Seq<char>,
)
    ensures
        is_stale(entries.insert(path, entry), path, file_hash, template_hash) == (entry.file_hash
            != file_hash || entry.template_hash != template_hash),
        is_stale(entries.remove(path), path, file_hash, template_hash),
{
}

/// Entering one path changes nothing for another.
pub proof fn lemma_stale_elsewhere(
    entries: Map<Seq<char>, EntryModel>,
    path: Seq<char>,
    entry: EntryModel,
    other: Seq<char>,
    file_hash: Seq<char>,
    template_hash: Seq<char>,
)
    requires
        other != path,
    ensures
        is_stale(entries.insert(path, entry), other, file_hash, template_hash) == is_stale(
            entries,
            other,
            file_hash,
            template_hash,
        ),
{
}

/// The map made from a list with different paths holds exactly the listed
/// entries.
pub proof fn lemma_entries_of_distinct(list: Seq<(Seq<char>, EntryModel)>)
    requires
        forall|i: int, j: int|
            0 <= i < j < list.len() ==> (#[trigger] list[i]).0 != (#[trigger] list[j]).0,
    ensures
        forall|i: int|
            0 <= i < list.len() ==> entries_of(list).contains_key((#[trigger] list[i]).0)
                && entries_of(list)[list[i].0] == list[i].1,
        forall|path: Seq<char>| #[trigger]
            entries_of(list).contains_key(path) ==> exists|i: int|
                0 <= i < list.len() && (#[trigger] list[i]).0 == path,
    decreases list.len(),
{
    if list.len() > 0 {
        let shorter = list.drop_last();
        assert forall|i: int, j: int| 0 <= i < j < shorter.len() implies (#[trigger] shorter[i]).0
            != (#[trigger] shorter[j]).0 by {
            assert(shorter[i] == list[i]);
            assert(shorter[j] == list[j]);
        }
        lemma_entries_of_distinct(shorter);
        assert forall|i: int| 0 <= i < list.len() implies entries_of(list).contains_key(
            (#[trigger] list[i]).0,
        ) && entries_of(list)[list[i].0] == list[i].1 by {
            if i < list.len() - 1 {
                assert(shorter[i] == list[i]);
                assert(list[i].0 != list[list.len() - 1].0);
            }
        }
        assert forall|path: Seq<char>| #[trigger]
            entries_of(list).contains_key(path) implies exists|i: int|
            0 <= i < list.len() && (#[trigger] list[i]).0 == path by {
            if path == list.last().0 {
                assert(list[list.len() - 1].0 == path);
            } else {
                assert(entries_of(shorter).contains_key(path));
                let i = choose|i: int| 0 <= i < shorter.len() && (#[trigger] shorter[i]).0 == path;
                assert(list[i] == shorter[i]);
            }
        }
    }
}

} // verus!
