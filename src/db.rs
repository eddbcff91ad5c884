//! The plugin database: content addresses keyed by plugin release, and for
//! each IDE release the plugin version chosen for it.

use vstd::prelude::*;
use vstd::string::*;
use crate::ides::{IdeProduct, IdeVersion};
use crate::maps::{
    map_of, keys_unique, keys_sorted, key_lt, lemma_map_of_contains, lemma_map_of_index,
    lemma_map_of_push, lemma_map_of_update, lemma_map_of_restrict_step, lemma_same_pairs_same_map,
    lemma_sorted_unique, lemma_sorted_insert, lemma_sorted_update, lemma_key_lt_order, search_sorted,
    KeyedPair,
};
use crate::text::{first_index_of, str_eq};

verus! {

/// The key of a plugin release: the plugin id, the separator `/--/`, the version.
pub open spec fn plugin_key(name: Seq<char>, version: Seq<char>) -> Seq<char> {
    name + "/--/"@ + version
}

/// A plugin id that can stand in a key: it holds no `/`, so the separator
/// `/--/` marks where the id ends.
pub open spec fn valid_plugin_id(name: Seq<char>) -> bool {
    forall|i: int| 0 <= i < name.len() ==> name[i] != '/'
}

/// Distinct releases of plugins with valid ids get distinct keys.
pub proof fn lemma_plugin_key_injective(
    n1: Seq<char>,
    v1: Seq<char>,
    n2: Seq<char>,
    v2: Seq<char>,
)
    requires
        valid_plugin_id(n1),
        valid_plugin_id(n2),
        plugin_key(n1, v1) == plugin_key(n2, v2),
    ensures
        n1 == n2,
        v1 == v2,
{
    reveal_strlit("/--/");
    let sep = "/--/"@;
    assert(sep.len() == 4 && sep[0] == '/');
    let k = plugin_key(n1, v1);
    assert(k =~= n1 + sep + v1);
    assert(k =~= n2 + sep + v2);
    if n1.len() < n2.len() {
        assert(k[n1.len() as int] == '/');
        assert(k[n1.len() as int] == n2[n1.len() as int]);
    }
    if n2.len() < n1.len() {
        assert(k[n2.len() as int] == '/');
        assert(k[n2.len() as int] == n1[n2.len() as int]);
    }
    assert(n1 =~= k.subrange(0, n1.len() as int));
    assert(n2 =~= k.subrange(0, n2.len() as int));
    assert(v1 =~= k.subrange(n1.len() as int + 4, k.len() as int));
    assert(v2 =~= k.subrange(n2.len() as int + 4, k.len() as int));
}

/// The key of one plugin release in the entries table.
#[derive(Debug, PartialEq, Eq, Hash, PartialOrd, Ord)]
pub struct PluginVersion(String);

impl View for PluginVersion {
    type V = Seq<char>;

    closed spec fn view(&self) -> Seq<char> {
        self.0@
    }
}

impl PluginVersion {
    /// The key of release `version` of plugin `name`; `None` where the id
    /// holds a `/`, since its key could then be another release's key.
    pub fn new(name: &str, version: &str) -> (r: Option<Self>)
        ensures
            r is Some <==> valid_plugin_id(name@),
            r matches Some(k) ==> k@ == plugin_key(name@, version@),
    {
        match first_index_of(name, '/') {
            Some(_) => None,
            None => Some(PluginVersion::joined(name, version)),
        }
    }

    /// The key that joins `name` and `version` with the separator, as the
    /// entries table is saved.
    fn joined(name: &str, version: &str) -> (r: Self)
        ensures
            r@ == plugin_key(name@, version@),
    {
        PluginVersion(String::from_str(name).concat("/--/").concat(version))
    }

    /// A key as it was persisted.
    pub fn from_key(key: String) -> (r: Self)
        ensures
            r@ == key@,
    {
        PluginVersion(key)
    }

    /// The key as text.
    pub fn as_str(&self) -> (r: &str)
        ensures
            r@ == self@,
    {
        self.0.as_str()
    }
}

impl Clone for PluginVersion {
    fn clone(&self) -> (r: Self)
        ensures
            r@ == self@,
    {
        PluginVersion(self.0.clone())
    }
}

/// The content address of a plugin artifact: its download path below the
/// marketplace's download host, and the hash of its contents.
#[derive(Debug, PartialEq, Eq, Hash)]
pub struct PluginDbEntry {
    pub path: String,
    pub hash: String,
}

impl View for PluginDbEntry {
    type V = (Seq<char>, Seq<char>);

    open spec fn view(&self) -> (Seq<char>, Seq<char>) {
        (self.path@, self.hash@)
    }
}

impl Clone for PluginDbEntry {
    fn clone(&self) -> (r: Self)
        ensures
            r@ == self@,
    {
        PluginDbEntry { path: self.path.clone(), hash: self.hash.clone() }
    }
}

impl KeyedPair for PluginVersion {
    open spec fn key_view(&self) -> Seq<char> {
        self@
    }

    fn key_str(&self) -> (r: &str) {
        self.as_str()
    }
}

impl KeyedPair for (PluginVersion, PluginDbEntry) {
    open spec fn key_view(&self) -> Seq<char> {
        self.0@
    }

    fn key_str(&self) -> (r: &str) {
        self.0.as_str()
    }
}

impl KeyedPair for (String, String) {
    open spec fn key_view(&self) -> Seq<char> {
        self.0@
    }

    fn key_str(&self) -> (r: &str) {
        self.0.as_str()
    }
}

/// The entries table as key/value pairs of views.
pub open spec fn entry_pairs(s: Seq<(PluginVersion, PluginDbEntry)>) -> Seq<
    (Seq<char>, (Seq<char>, Seq<char>)),
> {
    s.map_values(|p: (PluginVersion, PluginDbEntry)| (p.0@, p.1@))
}

/// One IDE's table (plugin id to version) as key/value pairs of views.
pub open spec fn table_pairs(s: Seq<(String, String)>) -> Seq<(Seq<char>, Seq<char>)> {
    s.map_values(|p: (String, String)| (p.0@, p.1@))
}

/// The keys of the entries table are the keys of its pairs of views.
proof fn lemma_entry_keys(s: Seq<(PluginVersion, PluginDbEntry)>)
    ensures
        entry_pairs(s).len() == s.len(),
        forall|i: int| 0 <= i < s.len() ==> #[trigger] entry_pairs(s)[i].0 == s[i].key_view(),
        keys_sorted(entry_pairs(s)) ==> forall|i: int, j: int|
            0 <= i < j < s.len() ==> key_lt(#[trigger] s[i].key_view(), #[trigger] s[j].key_view()),
{
    if keys_sorted(entry_pairs(s)) {
        assert forall|i: int, j: int| 0 <= i < j < s.len() implies key_lt(
            #[trigger] s[i].key_view(),
            #[trigger] s[j].key_view(),
        ) by {
            assert(entry_pairs(s)[i].0 == s[i].key_view());
            assert(entry_pairs(s)[j].0 == s[j].key_view());
        }
    }
}

/// The keys of an IDE's table are the keys of its pairs of views.
proof fn lemma_table_keys(s: Seq<(String, String)>)
    ensures
        table_pairs(s).len() == s.len(),
        forall|i: int| 0 <= i < s.len() ==> #[trigger] table_pairs(s)[i].0 == s[i].key_view(),
        keys_sorted(table_pairs(s)) ==> forall|i: int, j: int|
            0 <= i < j < s.len() ==> key_lt(#[trigger] s[i].key_view(), #[trigger] s[j].key_view()),
{
    if keys_sorted(table_pairs(s)) {
        assert forall|i: int, j: int| 0 <= i < j < s.len() implies key_lt(
            #[trigger] s[i].key_view(),
            #[trigger] s[j].key_view(),
        ) by {
            assert(table_pairs(s)[i].0 == s[i].key_view());
            assert(table_pairs(s)[j].0 == s[j].key_view());
        }
    }
}

/// The per-IDE tables as key/value pairs of views.
pub open spec fn ide_pairs(s: Seq<(IdeVersion, Vec<(String, String)>)>) -> Seq<
    ((IdeProduct, Seq<char>), Map<Seq<char>, Seq<char>>),
> {
    s.map_values(
        |p: (IdeVersion, Vec<(String, String)>)| (p.0.key(), map_of(table_pairs(p.1@))),
    )
}

/// What the per-IDE tables map an IDE to: its table, or nothing.
pub open spec fn table_for(
    m: Map<(IdeProduct, Seq<char>), Map<Seq<char>, Seq<char>>>,
    ide: (IdeProduct, Seq<char>),
) -> Map<Seq<char>, Seq<char>> {
    if m.contains_key(ide) {
        m[ide]
    } else {
        Map::empty()
    }
}

/// The keys of all plugin releases that some IDE's table chooses.
pub open spec fn referenced(m: Map<(IdeProduct, Seq<char>), Map<Seq<char>, Seq<char>>>) -> Set<
    Seq<char>,
> {
    Set::new(
        |k: Seq<char>|
            exists|ide: (IdeProduct, Seq<char>), name: Seq<char>|
                m.contains_key(ide) && #[trigger] m[ide].contains_key(name) && k == plugin_key(
                    name,
                    m[ide][name],
                ),
    )
}

/// The views of a list of keys.
pub open spec fn key_views(v: Seq<PluginVersion>) -> Seq<Seq<char>> {
    v.map_values(|p: PluginVersion| p@)
}

/// The plugin keys that one IDE table's pairs make.
pub open spec fn table_keys(s: Seq<(String, String)>) -> Seq<Seq<char>> {
    s.map_values(|p: (String, String)| plugin_key(p.0@, p.1@))
}

/// The plugin keys of all tables, table after table.
pub open spec fn all_keys(s: Seq<(IdeVersion, Vec<(String, String)>)>) -> Seq<Seq<char>>
    decreases s.len(),
{
    if s.len() == 0 {
        Seq::empty()
    } else {
        all_keys(s.drop_last()) + table_keys(s.last().1@)
    }
}

proof fn lemma_push_contains<A>(s: Seq<A>, k: A, x: A)
    ensures
        s.push(k).contains(x) <==> s.contains(x) || x == k,
{
    if s.push(k).contains(x) {
        let i = choose|i: int| 0 <= i < s.push(k).len() && s.push(k)[i] == x;
        if i < s.len() {
            assert(s[i] == x);
        }
    }
    if s.contains(x) {
        let i = choose|i: int| 0 <= i < s.len() && s[i] == x;
        assert(s.push(k)[i] == x);
    }
    if x == k {
        assert(s.push(k)[s.len() as int] == x);
    }
}

proof fn lemma_all_keys(s: Seq<(IdeVersion, Vec<(String, String)>)>, k: Seq<char>)
    ensures
        all_keys(s).contains(k) <==> exists|u: int, j: int|
            0 <= u < s.len() && 0 <= j < s[u].1@.len() && k == plugin_key(
                #[trigger] s[u].1@[j].0@,
                s[u].1@[j].1@,
            ),
    decreases s.len(),
{
    if s.len() > 0 {
        let d = s.drop_last();
        let tk = table_keys(s.last().1@);
        lemma_all_keys(d, k);
        if all_keys(s).contains(k) {
            let i = choose|i: int| 0 <= i < all_keys(s).len() && all_keys(s)[i] == k;
            if i < all_keys(d).len() {
                assert(all_keys(d)[i] == k);
                let (u, j) = choose|u: int, j: int|
                    0 <= u < d.len() && 0 <= j < d[u].1@.len() && k == plugin_key(
                        #[trigger] d[u].1@[j].0@,
                        d[u].1@[j].1@,
                    );
                assert(s[u] == d[u]);
            } else {
                let j = i - all_keys(d).len();
                assert(tk[j] == k);
                assert(s[s.len() - 1].1@[j].0@ == s.last().1@[j].0@);
            }
        }
        if exists|u: int, j: int|
            0 <= u < s.len() && 0 <= j < s[u].1@.len() && k == plugin_key(
                #[trigger] s[u].1@[j].0@,
                s[u].1@[j].1@,
            ) {
            let (u, j) = choose|u: int, j: int|
                0 <= u < s.len() && 0 <= j < s[u].1@.len() && k == plugin_key(
                    #[trigger] s[u].1@[j].0@,
                    s[u].1@[j].1@,
                );
            if u < s.len() - 1 {
                assert(d[u] == s[u]);
                assert(all_keys(d).contains(k));
                let i = choose|i: int| 0 <= i < all_keys(d).len() && all_keys(d)[i] == k;
                assert(all_keys(s)[i] == k);
            } else {
                assert(tk[j] == k);
                assert(all_keys(s)[all_keys(d).len() + j] == k);
            }
        }
    }
}

/// The database: a deduplicated table of content addresses, and for each IDE
/// release the version of each plugin chosen for it. The per-IDE tables hold
/// keys into the entries table, never the entries themselves.
pub struct PluginDb {
    all_plugins: Vec<(PluginVersion, PluginDbEntry)>,
    ides: Vec<(IdeVersion, Vec<(String, String)>)>,
}

impl PluginDb {
    /// The entries table: plugin key to (path, hash).
    pub closed spec fn entries(&self) -> Map<Seq<char>, (Seq<char>, Seq<char>)> {
        map_of(entry_pairs(self.all_plugins@))
    }

    /// The per-IDE tables: (product, version) to a map from plugin id to version.
    pub closed spec fn per_ide(&self) -> Map<(IdeProduct, Seq<char>), Map<Seq<char>, Seq<char>>> {
        map_of(ide_pairs(self.ides@))
    }

    /// The entries table and each IDE's table keep their keys in ascending
    /// order; each IDE release has one table.
    pub closed spec fn wf(&self) -> bool {
        &&& keys_sorted(entry_pairs(self.all_plugins@))
        &&& keys_unique(ide_pairs(self.ides@))
        &&& forall|t: int|
            0 <= t < self.ides@.len() ==> keys_sorted(table_pairs(#[trigger] self.ides@[t].1@))
    }

    /// Every version that an IDE's table chooses has its entry.
    pub open spec fn intact(&self) -> bool {
        referenced(self.per_ide()).subset_of(self.entries().dom())
    }

    /// An empty database.
    pub fn new() -> (r: Self)
        ensures
            r.wf(),
            r.entries() == Map::<Seq<char>, (Seq<char>, Seq<char>)>::empty(),
            r.per_ide() == Map::<(IdeProduct, Seq<char>), Map<Seq<char>, Seq<char>>>::empty(),
    {
        PluginDb { all_plugins: Vec::new(), ides: Vec::new() }
    }

    /// A database whose entries table holds the given pairs, a later pair
    /// overriding an earlier one with the same key, and no per-IDE tables.
    pub fn init(init: Vec<(PluginVersion, PluginDbEntry)>) -> (r: PluginDb)
        ensures
            r.wf(),
            r.entries() == map_of(entry_pairs(init@)),
            r.per_ide() == Map::<(IdeProduct, Seq<char>), Map<Seq<char>, Seq<char>>>::empty(),
    {
        let mut db = PluginDb::new();
        let mut i: usize = 0;
        proof {
            assert(entry_pairs(init@.subrange(0, 0)) =~= Seq::empty());
            assert(db.entries() =~= map_of(entry_pairs(init@.subrange(0, 0))));
        }
        while i < init.len()
            invariant
                i <= init@.len(),
                db.wf(),
                db.per_ide() == Map::<(IdeProduct, Seq<char>), Map<Seq<char>, Seq<char>>>::empty(),
                db.entries() == map_of(entry_pairs(init@.subrange(0, i as int))),
            decreases init@.len() - i,
        {
            db.put_entry(init[i].0.clone(), init[i].1.clone());
            proof {
                let pre = entry_pairs(init@.subrange(0, i + 1));
                assert(pre.drop_last() =~= entry_pairs(init@.subrange(0, i as int)));
                assert(pre.last() == (init@[i as int].0@, init@[i as int].1@));
            }
            i += 1;
        }
        proof {
            assert(init@.subrange(0, init@.len() as int) =~= init@);
        }
        db
    }

    /// Sets the entry under `key`, replacing the one it had.
    fn put_entry(&mut self, key: PluginVersion, entry: PluginDbEntry)
        requires
            old(self).wf(),
        ensures
            final(self).wf(),
            final(self).per_ide() == old(self).per_ide(),
            final(self).entries() == old(self).entries().insert(key@, entry@),
    {
        let ghost pairs = entry_pairs(self.all_plugins@);
        proof {
            lemma_entry_keys(self.all_plugins@);
            lemma_sorted_unique(pairs);
        }
        match search_sorted(&self.all_plugins, key.as_str()) {
            Ok(i) => {
                proof {
                    lemma_map_of_update(pairs, i as int, entry@);
                    lemma_sorted_update(pairs, i as int, entry@);
                }
                self.all_plugins.set(i, (key, entry));
                proof {
                    assert(entry_pairs(self.all_plugins@) =~= pairs.update(
                        i as int,
                        (pairs[i as int].0, entry@),
                    ));
                }
            },
            Err(lo) => {
                proof {
                    lemma_sorted_insert(pairs, lo as int, (key@, entry@));
                }
                let ghost p = (key@, entry@);
                self.all_plugins.insert(lo, (key, entry));
                proof {
                    assert(entry_pairs(self.all_plugins@) =~= pairs.insert(lo as int, p));
                }
            },
        }
    }

    /// Adds an entry under `key` unless the table already has one.
    fn put_entry_if_absent(&mut self, key: PluginVersion, entry: PluginDbEntry)
        requires
            old(self).wf(),
        ensures
            final(self).wf(),
            final(self).per_ide() == old(self).per_ide(),
            final(self).entries() == if old(self).entries().contains_key(key@) {
                old(self).entries()
            } else {
                old(self).entries().insert(key@, entry@)
            },
    {
        let ghost pairs = entry_pairs(self.all_plugins@);
        proof {
            lemma_entry_keys(self.all_plugins@);
            lemma_sorted_unique(pairs);
            lemma_map_of_contains(pairs, key@);
        }
        match search_sorted(&self.all_plugins, key.as_str()) {
            Ok(i) => {
                proof {
                    assert(pairs[i as int].0 == key@);
                }
            },
            Err(lo) => {
                proof {
                    lemma_key_lt_order(key@, key@, key@);
                    assert forall|j: int| 0 <= j < pairs.len() implies pairs[j].0 != key@ by {
                        assert(pairs[j].0 == self.all_plugins@[j].key_view());
                    }
                    lemma_sorted_insert(pairs, lo as int, (key@, entry@));
                }
                let ghost p = (key@, entry@);
                self.all_plugins.insert(lo, (key, entry));
                proof {
                    assert(entry_pairs(self.all_plugins@) =~= pairs.insert(lo as int, p));
                }
            },
        }
    }

    /// The position of the table of IDE release `ide`.
    fn find_ide(&self, ide: &IdeVersion) -> (r: Option<usize>)
        ensures
            match r {
                Some(t) => t < self.ides@.len() && self.ides@[t as int].0.key() == ide.key(),
                None => forall|t: int|
                    0 <= t < self.ides@.len() ==> self.ides@[t].0.key() != ide.key(),
            },
    {
        let mut t: usize = 0;
        while t < self.ides.len()
            invariant
                t <= self.ides@.len(),
                forall|j: int| 0 <= j < t ==> self.ides@[j].0.key() != ide.key(),
            decreases self.ides@.len() - t,
        {
            if self.ides[t].0.ide == ide.ide && str_eq(
                self.ides[t].0.version.as_str(),
                ide.version.as_str(),
            ) {
                return Some(t);
            }
            t += 1;
        }
        None
    }

    /// Sets the version of plugin `name` in an IDE's table, replacing the one it
    /// had.
    fn table_put(table: &mut Vec<(String, String)>, name: &str, version: &str)
        requires
            keys_sorted(table_pairs(old(table)@)),
        ensures
            keys_sorted(table_pairs(final(table)@)),
            map_of(table_pairs(final(table)@)) == map_of(table_pairs(old(table)@)).insert(
                name@,
                version@,
            ),
    {
        let ghost pairs = table_pairs(table@);
        proof {
            lemma_table_keys(table@);
            lemma_sorted_unique(pairs);
        }
        match search_sorted(table, name) {
            Ok(j) => {
                proof {
                    lemma_map_of_update(pairs, j as int, version@);
                    lemma_sorted_update(pairs, j as int, version@);
                }
                table.set(j, (String::from_str(name), String::from_str(version)));
                proof {
                    assert(table_pairs(table@) =~= pairs.update(j as int, (pairs[j as int].0, version@)));
                }
            },
            Err(lo) => {
                proof {
                    lemma_sorted_insert(pairs, lo as int, (name@, version@));
                }
                table.insert(lo, (String::from_str(name), String::from_str(version)));
                proof {
                    assert(table_pairs(table@) =~= pairs.insert(lo as int, (name@, version@)));
                }
            },
        }
    }

    /// Records that IDE release `ide` gets version `version` of plugin `name`.
    fn choose_version(&mut self, ide: &IdeVersion, name: &str, version: &str)
        requires
            old(self).wf(),
        ensures
            final(self).wf(),
            final(self).entries() == old(self).entries(),
            final(self).per_ide() == old(self).per_ide().insert(
                ide.key(),
                table_for(old(self).per_ide(), ide.key()).insert(name@, version@),
            ),
    {
        let ghost pairs = ide_pairs(self.ides@);
        match self.find_ide(ide) {
            Some(t) => {
                let (key, mut table) = self.ides.remove(t);
                proof {
                    assert(pairs[t as int].0 == ide.key());
                    lemma_map_of_index(pairs, t as int);
                    assert(keys_sorted(table_pairs(table@)));
                }
                PluginDb::table_put(&mut table, name, version);
                self.ides.insert(t, (key, table));
                proof {
                    let m = map_of(table_pairs(table@));
                    lemma_map_of_update(pairs, t as int, m);
                    assert(ide_pairs(self.ides@) =~= pairs.update(t as int, (pairs[t as int].0, m)));
                    assert forall|u: int|
                        0 <= u < self.ides@.len() implies keys_sorted(
                        table_pairs(#[trigger] self.ides@[u].1@),
                    ) by {
                        if u != t {
                            assert(self.ides@[u] == old(self).ides@[u]);
                        }
                    }
                }
            },
            None => {
                proof {
                    lemma_map_of_contains(pairs, ide.key());
                }
                let mut table: Vec<(String, String)> = Vec::new();
                PluginDb::table_put(&mut table, name, version);
                proof {
                    assert(table_pairs(Seq::<(String, String)>::empty()) =~= Seq::empty());
                    lemma_map_of_push(pairs, (ide.key(), map_of(table_pairs(table@))));
                }
                self.ides.push((ide.clone(), table));
                proof {
                    assert(ide_pairs(self.ides@) =~= pairs.push(
                        (ide.key(), map_of(table_pairs(table@))),
                    ));
                }
            },
        }
    }

    /// Merges one resolution: IDE release `ideversion` gets version `version`
    /// of plugin `name`, and the entries table gets `entry` under that
    /// release's key unless it already has one for it.
    pub fn insert(&mut self, ideversion: &IdeVersion, name: &str, version: &str, entry: &PluginDbEntry)
        requires
            old(self).wf(),
            valid_plugin_id(name@),
        ensures
            final(self).wf(),
            final(self).entries() == merge_entry(
                old(self).entries(),
                plugin_key(name@, version@),
                entry@,
            ),
            final(self).per_ide() == merge_choice(
                old(self).per_ide(),
                ideversion.key(),
                name@,
                version@,
            ),
            old(self).intact() ==> final(self).intact(),
    {
        self.put_entry_if_absent(PluginVersion::joined(name, version), entry.clone());
        self.choose_version(ideversion, name, version);
        proof {
            if old(self).intact() {
                lemma_merge_keeps_intact(
                    old(self).entries(),
                    old(self).per_ide(),
                    ideversion.key(),
                    name@,
                    version@,
                    entry@,
                );
            }
        }
    }

    /// Sets the whole table of IDE release `ide`, as read back from its file; a
    /// later pair of `mapping` overrides an earlier one for the same plugin.
    pub fn set_ide_table(&mut self, ide: IdeVersion, mapping: Vec<(String, String)>)
        requires
            old(self).wf(),
        ensures
            final(self).wf(),
            final(self).entries() == old(self).entries(),
            final(self).per_ide() == old(self).per_ide().insert(
                ide.key(),
                map_of(table_pairs(mapping@)),
            ),
    {
        let mut table: Vec<(String, String)> = Vec::new();
        let mut i: usize = 0;
        proof {
            assert(table_pairs(table@) =~= table_pairs(mapping@.subrange(0, 0)));
        }
        while i < mapping.len()
            invariant
                i <= mapping@.len(),
                keys_sorted(table_pairs(table@)),
                map_of(table_pairs(table@)) == map_of(table_pairs(mapping@.subrange(0, i as int))),
            decreases mapping@.len() - i,
        {
            PluginDb::table_put(&mut table, mapping[i].0.as_str(), mapping[i].1.as_str());
            proof {
                let pre = table_pairs(mapping@.subrange(0, i + 1));
                assert(pre.drop_last() =~= table_pairs(mapping@.subrange(0, i as int)));
                assert(pre.last() == (mapping@[i as int].0@, mapping@[i as int].1@));
            }
            i += 1;
        }
        proof {
            assert(mapping@.subrange(0, mapping@.len() as int) =~= mapping@);
        }
        let ghost pairs = ide_pairs(self.ides@);
        let ghost m = map_of(table_pairs(table@));
        match self.find_ide(&ide) {
            Some(t) => {
                proof {
                    assert(pairs[t as int].0 == ide.key());
                    lemma_map_of_update(pairs, t as int, m);
                }
                self.ides.set(t, (ide, table));
                proof {
                    assert(ide_pairs(self.ides@) =~= pairs.update(t as int, (pairs[t as int].0, m)));
                    assert forall|u: int|
                        0 <= u < self.ides@.len() implies keys_sorted(
                        table_pairs(#[trigger] self.ides@[u].1@),
                    ) by {
                        if u != t {
                            assert(self.ides@[u] == old(self).ides@[u]);
                        }
                    }
                }
            },
            None => {
                proof {
                    lemma_map_of_contains(pairs, ide.key());
                    lemma_map_of_push(pairs, (ide.key(), m));
                }
                let ghost key = ide.key();
                self.ides.push((ide, table));
                proof {
                    assert(ide_pairs(self.ides@) =~= pairs.push((key, m)));
                }
            },
        }
    }

    /// The keys of all tables, table after table, are the referenced keys.
    proof fn lemma_all_keys_referenced(&self)
        requires
            self.wf(),
        ensures
            forall|k: Seq<char>|
                #[trigger] all_keys(self.ides@).contains(k) <==> referenced(self.per_ide()).contains(k),
    {
            let pairs = ide_pairs(self.ides@);
            let m = self.per_ide();
            assert forall|k: Seq<char>|
                #[trigger] all_keys(self.ides@).contains(k) <==> referenced(m).contains(k) by {
                lemma_all_keys(self.ides@, k);
                if all_keys(self.ides@).contains(k) {
                    let (u, j) = choose|u: int, j: int|
                        0 <= u < self.ides@.len() && 0 <= j < self.ides@[u].1@.len() && k
                            == plugin_key(
                            #[trigger] self.ides@[u].1@[j].0@,
                            self.ides@[u].1@[j].1@,
                        );
                    lemma_map_of_index(pairs, u);
                    let tp = table_pairs(self.ides@[u].1@);
                    assert(tp[j] == (self.ides@[u].1@[j].0@, self.ides@[u].1@[j].1@));
                    lemma_sorted_unique(tp);
                    lemma_map_of_index(tp, j);
                    assert(m.contains_key(pairs[u].0) && m[pairs[u].0].contains_key(tp[j].0));
                }
                if referenced(m).contains(k) {
                    let (ide, name) = choose|ide: (IdeProduct, Seq<char>), name: Seq<char>|
                        m.contains_key(ide) && #[trigger] m[ide].contains_key(name) && k
                            == plugin_key(name, m[ide][name]);
                    lemma_map_of_contains(pairs, ide);
                    let u = choose|u: int| 0 <= u < pairs.len() && pairs[u].0 == ide;
                    lemma_map_of_index(pairs, u);
                    let tp = table_pairs(self.ides@[u].1@);
                    lemma_map_of_contains(tp, name);
                    let j = choose|j: int| 0 <= j < tp.len() && tp[j].0 == name;
                    lemma_sorted_unique(tp);
                    lemma_map_of_index(tp, j);
                    assert(k == plugin_key(self.ides@[u].1@[j].0@, self.ides@[u].1@[j].1@));
                }
            }
        }

    /// For each entry, in order, whether some IDE's table chooses it.
    fn referenced_marks(&self) -> (r: Vec<bool>)
        requires
            self.wf(),
        ensures
            r@.len() == self.all_plugins@.len(),
            forall|a: int|
                0 <= a < r@.len() ==> r@[a] == referenced(self.per_ide()).contains(
                    #[trigger] entry_pairs(self.all_plugins@)[a].0,
                ),
    {
        let ghost pairs = entry_pairs(self.all_plugins@);
        let mut marks: Vec<bool> = Vec::new();
        let mut i: usize = 0;
        while i < self.all_plugins.len()
            invariant
                i <= self.all_plugins@.len(),
                marks@.len() == i,
                forall|a: int| 0 <= a < i ==> !marks@[a],
            decreases self.all_plugins@.len() - i,
        {
            marks.push(false);
            i += 1;
        }
        proof {
            lemma_entry_keys(self.all_plugins@);
            lemma_sorted_unique(pairs);
            assert(all_keys(self.ides@.subrange(0, 0)) =~= Seq::empty());
        }
        let mut t: usize = 0;
        while t < self.ides.len()
            invariant
                self.wf(),
                pairs == entry_pairs(self.all_plugins@),
                keys_unique(pairs),
                marks@.len() == pairs.len(),
                t <= self.ides@.len(),
                forall|a: int|
                    0 <= a < pairs.len() ==> marks@[a] == all_keys(self.ides@.subrange(0, t as int)).contains(
                        #[trigger] pairs[a].0,
                    ),
            decreases self.ides@.len() - t,
        {
            let table = &self.ides[t].1;
            let ghost done = all_keys(self.ides@.subrange(0, t as int));
            let mut j: usize = 0;
            proof {
                assert(done + table_keys(table@.subrange(0, 0)) =~= done);
            }
            while j < table.len()
                invariant
                    self.wf(),
                    pairs == entry_pairs(self.all_plugins@),
                    keys_unique(pairs),
                    marks@.len() == pairs.len(),
                    t < self.ides@.len(),
                    table == self.ides@[t as int].1,
                    done == all_keys(self.ides@.subrange(0, t as int)),
                    j <= table@.len(),
                    forall|a: int|
                        0 <= a < pairs.len() ==> marks@[a] == (done + table_keys(
                            table@.subrange(0, j as int),
                        )).contains(#[trigger] pairs[a].0),
                decreases table@.len() - j,
            {
                let key = PluginVersion::joined(table[j].0.as_str(), table[j].1.as_str());
                let ghost seen = done + table_keys(table@.subrange(0, j as int));
                let ghost before = marks@;
                let ghost k = key@;
                proof {
                    lemma_entry_keys(self.all_plugins@);
                }
                match search_sorted(&self.all_plugins, key.as_str()) {
                    Ok(f) => {
                        proof {
                            assert(pairs[f as int].0 == k);
                        }
                        marks.set(f, true);
                    },
                    Err(_) => {
                        proof {
                            lemma_key_lt_order(k, k, k);
                            assert forall|a: int| 0 <= a < pairs.len() implies pairs[a].0 != k by {
                                assert(pairs[a].0 == self.all_plugins@[a].key_view());
                            }
                        }
                    },
                }
                proof {
                    let next = done + table_keys(table@.subrange(0, j + 1));
                    assert(table_keys(table@.subrange(0, j + 1)) =~= table_keys(
                        table@.subrange(0, j as int),
                    ).push(k));
                    assert(next =~= seen.push(k));
                    assert forall|a: int| 0 <= a < pairs.len() implies marks@[a] == next.contains(
                        #[trigger] pairs[a].0,
                    ) by {
                        lemma_push_contains(seen, k, pairs[a].0);
                    }
                }
                j += 1;
            }
            proof {
                let pre = self.ides@.subrange(0, t + 1);
                assert(pre.drop_last() =~= self.ides@.subrange(0, t as int));
                assert(table@.subrange(0, table@.len() as int) =~= table@);
                assert(all_keys(pre) == done + table_keys(table@));
            }
            t += 1;
        }
        proof {
            assert(self.ides@.subrange(0, self.ides@.len() as int) =~= self.ides@);
            self.lemma_all_keys_referenced();
        }
        marks
    }

    /// The entries table as a list of pairs, each key once.
    pub fn entry_list(&self) -> (r: &Vec<(PluginVersion, PluginDbEntry)>)
        requires
            self.wf(),
        ensures
            r@ == self.saved_entries(),
            keys_sorted(entry_pairs(r@)),
            keys_unique(entry_pairs(r@)),
            map_of(entry_pairs(r@)) == self.entries(),
    {
        proof {
            lemma_sorted_unique(entry_pairs(self.all_plugins@));
        }
        &self.all_plugins
    }

    /// The per-IDE tables as a list, each IDE release once and each plugin
    /// once within a table.
    pub fn ide_tables(&self) -> (r: &Vec<(IdeVersion, Vec<(String, String)>)>)
        requires
            self.wf(),
        ensures
            r@ == self.saved_tables(),
            keys_unique(ide_pairs(r@)),
            map_of(ide_pairs(r@)) == self.per_ide(),
            forall|t: int| 0 <= t < r@.len() ==> keys_sorted(table_pairs(#[trigger] r@[t].1@)),
    {
        &self.ides
    }

    /// What `entry_list` and `ide_tables` hand out stands for the tables.
    pub proof fn lemma_saved(&self)
        requires
            self.wf(),
        ensures
            keys_unique(entry_pairs(self.saved_entries())),
            map_of(entry_pairs(self.saved_entries())) == self.entries(),
            keys_unique(ide_pairs(self.saved_tables())),
            map_of(ide_pairs(self.saved_tables())) == self.per_ide(),
    {
        lemma_sorted_unique(entry_pairs(self.all_plugins@));
    }

    /// What `entry_list` hands out.
    pub closed spec fn saved_entries(&self) -> Seq<(PluginVersion, PluginDbEntry)> {
        self.all_plugins@
    }

    /// What `ide_tables` hands out.
    pub closed spec fn saved_tables(&self) -> Seq<(IdeVersion, Vec<(String, String)>)> {
        self.ides@
    }

    /// The version of plugin `name` that IDE release `ide` chose.
    pub fn chosen_version(&self, ide: &IdeVersion, name: &str) -> (r: Option<&String>)
        requires
            self.wf(),
        ensures
            match r {
                Some(v) => self.per_ide().contains_key(ide.key()) && self.per_ide()[ide.key()].contains_key(
                    name@,
                ) && self.per_ide()[ide.key()][name@] == v@,
                None => !(self.per_ide().contains_key(ide.key()) && self.per_ide()[ide.key()].contains_key(
                    name@,
                )),
            },
    {
        let ghost pairs = ide_pairs(self.ides@);
        proof {
            lemma_map_of_contains(pairs, ide.key());
        }
        match self.find_ide(ide) {
            None => None,
            Some(t) => {
                let table = &self.ides[t].1;
                let ghost tp = table_pairs(table@);
                proof {
                    assert(pairs[t as int].0 == ide.key());
                    lemma_map_of_index(pairs, t as int);
                    lemma_map_of_contains(tp, name@);
                    assert(self.per_ide()[ide.key()] == map_of(tp));
                }
                proof {
                    lemma_table_keys(table@);
                    lemma_sorted_unique(tp);
                }
                match search_sorted(table, name) {
                    Ok(j) => {
                        proof {
                            lemma_map_of_index(tp, j as int);
                        }
                        Some(&table[j].1)
                    },
                    Err(_) => {
                        proof {
                            lemma_key_lt_order(name@, name@, name@);
                            assert forall|i: int| 0 <= i < tp.len() implies tp[i].0 != name@ by {
                                assert(tp[i].0 == table@[i].key_view());
                            }
                        }
                        None
                    },
                }
            },
        }
    }

    /// The entry stored under `key`.
    pub fn get(&self, key: &PluginVersion) -> (r: Option<&PluginDbEntry>)
        requires
            self.wf(),
        ensures
            match r {
                Some(e) => self.entries().contains_key(key@) && self.entries()[key@] == e@,
                None => !self.entries().contains_key(key@),
            },
    {
        let ghost pairs = entry_pairs(self.all_plugins@);
        proof {
            lemma_entry_keys(self.all_plugins@);
            lemma_sorted_unique(pairs);
            lemma_map_of_contains(pairs, key@);
        }
        match search_sorted(&self.all_plugins, key.as_str()) {
            Ok(i) => {
                proof {
                    assert(pairs[i as int].0 == key@);
                    lemma_map_of_index(pairs, i as int);
                }
                Some(&self.all_plugins[i].1)
            },
            Err(_) => {
                proof {
                    lemma_key_lt_order(key@, key@, key@);
                    assert forall|j: int| 0 <= j < pairs.len() implies pairs[j].0 != key@ by {
                        assert(pairs[j].0 == self.all_plugins@[j].key_view());
                    }
                }
                None
            },
        }
    }
}

/// Removes from the entries table every entry that no IDE's table chooses.
pub fn db_cleanup(db: &mut PluginDb)
    requires
        old(db).wf(),
    ensures
        final(db).wf(),
        final(db).per_ide() == old(db).per_ide(),
        final(db).entries() == collected(old(db).entries(), old(db).per_ide()),
{
    let marks = db.referenced_marks();
    let ghost keep = referenced(db.per_ide());
    let ghost pairs = entry_pairs(db.all_plugins@);
    let mut kept: Vec<(PluginVersion, PluginDbEntry)> = Vec::new();
    let mut i: usize = 0;
    proof {
        assert(entry_pairs(kept@) =~= Seq::empty());
        assert(map_of(pairs.subrange(0, 0)) =~= map_of(pairs.subrange(0, 0)).restrict(keep));
    }
    while i < db.all_plugins.len()
        invariant
            *db == *old(db),
            db.wf(),
            pairs == entry_pairs(db.all_plugins@),
            keep == referenced(db.per_ide()),
            marks@.len() == pairs.len(),
            forall|a: int| 0 <= a < marks@.len() ==> marks@[a] == keep.contains(#[trigger] pairs[a].0),
            i <= pairs.len(),
            keys_sorted(entry_pairs(kept@)),
            forall|a: int, j: int|
                0 <= a < kept@.len() && i <= j < pairs.len() ==> key_lt(
                    #[trigger] entry_pairs(kept@)[a].0,
                    #[trigger] pairs[j].0,
                ),
            map_of(entry_pairs(kept@)) == map_of(pairs.subrange(0, i as int)).restrict(keep),
        decreases pairs.len() - i,
    {
        proof {
            lemma_map_of_restrict_step(entry_pairs(kept@), pairs, i as int, keep);
        }
        if marks[i] {
            let ghost kp = entry_pairs(kept@);
            kept.push((db.all_plugins[i].0.clone(), db.all_plugins[i].1.clone()));
            proof {
                assert(entry_pairs(kept@) =~= kp.push(pairs[i as int]));
                assert forall|a: int, b: int|
                    0 <= a < b < entry_pairs(kept@).len() implies key_lt(
                    entry_pairs(kept@)[a].0,
                    entry_pairs(kept@)[b].0,
                ) by {
                    if b == kp.len() {
                        assert(key_lt(kp[a].0, pairs[i as int].0));
                    } else {
                        assert(entry_pairs(kept@)[a] == kp[a] && entry_pairs(kept@)[b] == kp[b]);
                    }
                }
                assert forall|a: int, j: int|
                    0 <= a < kept@.len() && i + 1 <= j < pairs.len() implies key_lt(
                    #[trigger] entry_pairs(kept@)[a].0,
                    #[trigger] pairs[j].0,
                ) by {
                    if a == kp.len() {
                        assert(key_lt(pairs[i as int].0, pairs[j].0));
                    } else {
                        assert(entry_pairs(kept@)[a] == kp[a]);
                    }
                }
            }
        }
        i += 1;
    }
    proof {
        assert(pairs.subrange(0, pairs.len() as int) =~= pairs);
    }
    db.all_plugins = kept;
}

/// The entries table after merging `entry` under `key`: the first entry for a
/// key stays.
pub open spec fn merge_entry(
    m: Map<Seq<char>, (Seq<char>, Seq<char>)>,
    key: Seq<char>,
    entry: (Seq<char>, Seq<char>),
) -> Map<Seq<char>, (Seq<char>, Seq<char>)> {
    if m.contains_key(key) {
        m
    } else {
        m.insert(key, entry)
    }
}

/// The per-IDE tables after IDE release `ide` chose `version` of `name`.
pub open spec fn merge_choice(
    m: Map<(IdeProduct, Seq<char>), Map<Seq<char>, Seq<char>>>,
    ide: (IdeProduct, Seq<char>),
    name: Seq<char>,
    version: Seq<char>,
) -> Map<(IdeProduct, Seq<char>), Map<Seq<char>, Seq<char>>> {
    m.insert(ide, table_for(m, ide).insert(name, version))
}

/// The entries table after garbage collection: only the entries that some
/// IDE's table chooses.
pub open spec fn collected(
    m: Map<Seq<char>, (Seq<char>, Seq<char>)>,
    per_ide: Map<(IdeProduct, Seq<char>), Map<Seq<char>, Seq<char>>>,
) -> Map<Seq<char>, (Seq<char>, Seq<char>)> {
    m.restrict(referenced(per_ide))
}

/// Merging the same resolution twice gives what merging it once gives, and the
/// entries table then holds exactly one entry under its key.
pub proof fn lemma_merge_idempotent(
    entries: Map<Seq<char>, (Seq<char>, Seq<char>)>,
    per_ide: Map<(IdeProduct, Seq<char>), Map<Seq<char>, Seq<char>>>,
    ide: (IdeProduct, Seq<char>),
    name: Seq<char>,
    version: Seq<char>,
    entry: (Seq<char>, Seq<char>),
)
    ensures
        merge_entry(merge_entry(entries, plugin_key(name, version), entry), plugin_key(name, version), entry)
            == merge_entry(entries, plugin_key(name, version), entry),
        merge_entry(entries, plugin_key(name, version), entry).contains_key(plugin_key(name, version)),
        merge_choice(merge_choice(per_ide, ide, name, version), ide, name, version) == merge_choice(
            per_ide,
            ide,
            name,
            version,
        ),
        merge_choice(per_ide, ide, name, version)[ide][name] == version,
{
    let once = merge_choice(per_ide, ide, name, version);
    assert(table_for(once, ide) == table_for(per_ide, ide).insert(name, version));
    assert(table_for(once, ide).insert(name, version) =~= table_for(once, ide));
    assert(merge_choice(once, ide, name, version) =~= once);
}

/// Merging a resolution keeps every chosen version backed by an entry.
pub proof fn lemma_merge_keeps_intact(
    entries: Map<Seq<char>, (Seq<char>, Seq<char>)>,
    per_ide: Map<(IdeProduct, Seq<char>), Map<Seq<char>, Seq<char>>>,
    ide: (IdeProduct, Seq<char>),
    name: Seq<char>,
    version: Seq<char>,
    entry: (Seq<char>, Seq<char>),
)
    requires
        referenced(per_ide).subset_of(entries.dom()),
    ensures
        referenced(merge_choice(per_ide, ide, name, version)).subset_of(
            merge_entry(entries, plugin_key(name, version), entry).dom(),
        ),
{
    let m2 = merge_choice(per_ide, ide, name, version);
    let e2 = merge_entry(entries, plugin_key(name, version), entry);
    assert forall|k: Seq<char>| referenced(m2).contains(k) implies e2.dom().contains(k) by {
        let (i, n) = choose|i: (IdeProduct, Seq<char>), n: Seq<char>|
            m2.contains_key(i) && #[trigger] m2[i].contains_key(n) && k == plugin_key(n, m2[i][n]);
        if i == ide && n == name {
            assert(k == plugin_key(name, version));
        } else {
            assert(per_ide.contains_key(i) && per_ide[i].contains_key(n) && per_ide[i][n] == m2[i][n]);
            assert(referenced(per_ide).contains(k));
        }
    }
}

/// Merges converge: two resolutions merged in either order give the same
/// database, provided that entries for one key agree and that one IDE
/// release does not choose two versions of one plugin.
pub proof fn lemma_merges_commute(
    entries: Map<Seq<char>, (Seq<char>, Seq<char>)>,
    per_ide: Map<(IdeProduct, Seq<char>), Map<Seq<char>, Seq<char>>>,
    ide1: (IdeProduct, Seq<char>),
    name1: Seq<char>,
    version1: Seq<char>,
    entry1: (Seq<char>, Seq<char>),
    ide2: (IdeProduct, Seq<char>),
    name2: Seq<char>,
    version2: Seq<char>,
    entry2: (Seq<char>, Seq<char>),
)
    requires
        plugin_key(name1, version1) == plugin_key(name2, version2) ==> entry1 == entry2,
        ide1 == ide2 && name1 == name2 ==> version1 == version2,
    ensures
        merge_entry(
            merge_entry(entries, plugin_key(name1, version1), entry1),
            plugin_key(name2, version2),
            entry2,
        ) == merge_entry(
            merge_entry(entries, plugin_key(name2, version2), entry2),
            plugin_key(name1, version1),
            entry1,
        ),
        merge_choice(merge_choice(per_ide, ide1, name1, version1), ide2, name2, version2)
            == merge_choice(merge_choice(per_ide, ide2, name2, version2), ide1, name1, version1),
{
    let k1 = plugin_key(name1, version1);
    let k2 = plugin_key(name2, version2);
    assert(merge_entry(merge_entry(entries, k1, entry1), k2, entry2) =~= merge_entry(
        merge_entry(entries, k2, entry2),
        k1,
        entry1,
    ));
    let a = merge_choice(merge_choice(per_ide, ide1, name1, version1), ide2, name2, version2);
    let b = merge_choice(merge_choice(per_ide, ide2, name2, version2), ide1, name1, version1);
    if ide1 == ide2 {
        assert(a[ide1] =~= b[ide1]);
    }
    assert(a =~= b);
}

/// Two IDE releases landing on the same plugin release, merged in either
/// order (as concurrent merges under one lock are), leave the same database,
/// with exactly one entry under the release's key.
pub proof fn lemma_same_release_any_order(
    entries: Map<Seq<char>, (Seq<char>, Seq<char>)>,
    per_ide: Map<(IdeProduct, Seq<char>), Map<Seq<char>, Seq<char>>>,
    ide1: (IdeProduct, Seq<char>),
    ide2: (IdeProduct, Seq<char>),
    name: Seq<char>,
    version: Seq<char>,
    entry: (Seq<char>, Seq<char>),
)
    ensures
        merge_entry(
            merge_entry(entries, plugin_key(name, version), entry),
            plugin_key(name, version),
            entry,
        ) == merge_entry(entries, plugin_key(name, version), entry),
        merge_entry(entries, plugin_key(name, version), entry).contains_key(plugin_key(name, version)),
        merge_choice(merge_choice(per_ide, ide1, name, version), ide2, name, version)
            == merge_choice(merge_choice(per_ide, ide2, name, version), ide1, name, version),
{
    lemma_merges_commute(entries, per_ide, ide1, name, version, entry, ide2, name, version, entry);
    lemma_merge_idempotent(entries, per_ide, ide1, name, version, entry);
}

/// Garbage collection keeps exactly the referenced entries, and running it a
/// second time changes nothing.
pub proof fn lemma_collect_idempotent(
    entries: Map<Seq<char>, (Seq<char>, Seq<char>)>,
    per_ide: Map<(IdeProduct, Seq<char>), Map<Seq<char>, Seq<char>>>,
)
    ensures
        collected(entries, per_ide).dom() == entries.dom().intersect(referenced(per_ide)),
        forall|k: Seq<char>| #[trigger]
            collected(entries, per_ide).contains_key(k) ==> collected(entries, per_ide)[k]
                == entries[k],
        collected(collected(entries, per_ide), per_ide) == collected(entries, per_ide),
{
    assert(collected(entries, per_ide).dom() =~= entries.dom().intersect(referenced(per_ide)));
    assert(collected(collected(entries, per_ide), per_ide) =~= collected(entries, per_ide));
}

/// Writing out the entries table and reading it back, in whatever order the
/// pairs come, rebuilds the same entries table.
pub proof fn lemma_entries_round_trip(db: PluginDb, loaded: Seq<(PluginVersion, PluginDbEntry)>)
    requires
        db.wf(),
        keys_unique(entry_pairs(loaded)),
        forall|p: (Seq<char>, (Seq<char>, Seq<char>))|
            entry_pairs(db.saved_entries()).contains(p) <==> entry_pairs(loaded).contains(p),
    ensures
        map_of(entry_pairs(loaded)) == db.entries(),
{
    db.lemma_saved();
    lemma_same_pairs_same_map(entry_pairs(db.saved_entries()), entry_pairs(loaded));
}

/// Writing out the per-IDE tables and reading them back, in whatever order the
/// files come, rebuilds the same per-IDE tables.
pub proof fn lemma_tables_round_trip(db: PluginDb, loaded: Seq<(IdeVersion, Vec<(String, String)>)>)
    requires
        db.wf(),
        keys_unique(ide_pairs(loaded)),
        forall|p: ((IdeProduct, Seq<char>), Map<Seq<char>, Seq<char>>)|
            ide_pairs(db.saved_tables()).contains(p) <==> ide_pairs(loaded).contains(p),
    ensures
        map_of(ide_pairs(loaded)) == db.per_ide(),
{
    db.lemma_saved();
    lemma_same_pairs_same_map(ide_pairs(db.saved_tables()), ide_pairs(loaded));
}

} // verus!
