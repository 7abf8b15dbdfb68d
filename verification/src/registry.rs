use vstd::prelude::*;
use vstd::string::StrSliceExecFns;

use crate::error::CoreError;
use crate::error::CoreResult;

verus! {

/// A named, versioned reference from one package to another.
#[derive(Debug)]
pub struct Dependency {
    pub name: String,
    pub version: String,
}

/// Mathematical model of a `Dependency`.
pub ghost struct DepView {
    pub name: Seq<char>,
    pub version: Seq<char>,
}

impl View for Dependency {
    type V = DepView;

    open spec fn view(&self) -> DepView {
        DepView { name: self.name@, version: self.version@ }
    }
}

impl Clone for Dependency {
    fn clone(&self) -> (r: Self)
        ensures
            r@ == self@,
    {
        Dependency { name: self.name.clone(), version: self.version.clone() }
    }
}

impl Dependency {
    pub fn new(name: &str, version: &str) -> (r: Self)
        ensures
            r@ == (DepView { name: name@, version: version@ }),
    {
        Dependency { name: name.to_owned(), version: version.to_owned() }
    }
}

/// The full descriptive record shipped beside one package artifact.
#[derive(Debug)]
pub struct PackageInfo {
    pub package_name: String,
    pub file_name: String,
    pub version: String,
    pub description: String,
    pub hash: String,
    pub dependencies: Option<Vec<Dependency>>,
}

/// Mathematical model of a `PackageInfo`.
pub ghost struct PackageView {
    pub package_name: Seq<char>,
    pub file_name: Seq<char>,
    pub version: Seq<char>,
    pub description: Seq<char>,
    pub hash: Seq<char>,
    pub dependencies: Option<Seq<DepView>>,
}

/// The model of an optional dependency list.
pub open spec fn deps_view(d: Option<Vec<Dependency>>) -> Option<Seq<DepView>> {
    match d {
        Some(v) => Some(v@.map_values(|dep: Dependency| dep@)),
        None => None,
    }
}

/// The model of an optional string.
pub open spec fn opt_view(o: Option<String>) -> Option<Seq<char>> {
    match o {
        Some(s) => Some(s@),
        None => None,
    }
}

impl View for PackageInfo {
    type V = PackageView;

    open spec fn view(&self) -> PackageView {
        PackageView {
            package_name: self.package_name@,
            file_name: self.file_name@,
            version: self.version@,
            description: self.description@,
            hash: self.hash@,
            dependencies: deps_view(self.dependencies),
        }
    }
}

impl PackageInfo {
    pub fn new(
        package_name: String,
        file_name: String,
        version: String,
        description: String,
        hash: String,
        dependencies: Option<Vec<Dependency>>,
    ) -> (r: PackageInfo)
        ensures
            r@ == (PackageView {
                package_name: package_name@,
                file_name: file_name@,
                version: version@,
                description: description@,
                hash: hash@,
                dependencies: deps_view(dependencies),
            }),
    {
        PackageInfo { package_name, file_name, version, description, hash, dependencies }
    }
}

/// The catalog entry for one package: what the registry knows about an
/// artifact without fetching its full descriptor.
#[derive(Debug)]
pub struct PackageBasicInfo {
    pub url: String,
    pub file_name: String,
    pub version: String,
    pub hash: String,
    pub dependencies: Option<Vec<Dependency>>,
    pub entry: Option<String>,
    pub description: Option<String>,
}

/// Mathematical model of a catalog entry.
pub ghost struct EntryView {
    pub url: Seq<char>,
    pub file_name: Seq<char>,
    pub version: Seq<char>,
    pub hash: Seq<char>,
    pub dependencies: Option<Seq<DepView>>,
    pub entry: Option<Seq<char>>,
    pub description: Option<Seq<char>>,
}

impl View for PackageBasicInfo {
    type V = EntryView;

    open spec fn view(&self) -> EntryView {
        EntryView {
            url: self.url@,
            file_name: self.file_name@,
            version: self.version@,
            hash: self.hash@,
            dependencies: deps_view(self.dependencies),
            entry: opt_view(self.entry),
            description: opt_view(self.description),
        }
    }
}

/// The registry: a mapping from package name to catalog entry, held as a
/// list of pairs with pairwise distinct keys.
#[derive(Debug)]
pub struct RepoInfo {
    packages: Vec<(String, PackageBasicInfo)>,
}

/// The map that a list of named entries denotes; a later binding of a key
/// overrides an earlier one.
pub open spec fn entries_map(s: Seq<(String, PackageBasicInfo)>) -> Map<Seq<char>, EntryView>
    decreases s.len(),
{
    if s.len() == 0 {
        Map::empty()
    } else {
        entries_map(s.drop_last()).insert(s.last().0@, s.last().1@)
    }
}

/// Pairwise distinct package names.
pub open spec fn unique_keys(s: Seq<(String, PackageBasicInfo)>) -> bool {
    forall|i: int, j: int| 0 <= i < j < s.len() ==> s[i].0@ != s[j].0@
}

/// A key is in the denoted map exactly when some pair carries it.
pub(crate) proof fn lemma_map_contains(s: Seq<(String, PackageBasicInfo)>, k: Seq<char>)
    ensures
        entries_map(s).contains_key(k) <==> (exists|i: int| 0 <= i < s.len() && s[i].0@ == k),
    decreases s.len(),
{
    if s.len() > 0 {
        lemma_map_contains(s.drop_last(), k);
        if s.last().0@ == k {
            assert(s[s.len() - 1].0@ == k);
        } else {
            if exists|i: int| 0 <= i < s.len() && s[i].0@ == k {
                let i = choose|i: int| 0 <= i < s.len() && s[i].0@ == k;
                assert(s.drop_last()[i].0@ == k);
            }
        }
    }
}

/// With distinct keys, the pair at any index gives the map's value at its key.
proof fn lemma_map_index(s: Seq<(String, PackageBasicInfo)>, i: int)
    requires
        unique_keys(s),
        0 <= i < s.len(),
    ensures
        entries_map(s).contains_key(s[i].0@),
        entries_map(s)[s[i].0@] == s[i].1@,
    decreases s.len(),
{
    if i == s.len() - 1 {
    } else {
        assert(unique_keys(s.drop_last())) by {
            assert(forall|a: int, b: int|
                0 <= a < b < s.drop_last().len() ==> s.drop_last()[a].0@ != s.drop_last()[b].0@);
        }
        lemma_map_index(s.drop_last(), i);
        assert(s.drop_last()[i] == s[i]);
        assert(s.last().0@ != s[i].0@);
    }
}

/// Appending a pair binds its key to its value and changes nothing else.
proof fn lemma_map_push(s: Seq<(String, PackageBasicInfo)>, t: Seq<(String, PackageBasicInfo)>)
    requires
        t.len() == s.len() + 1,
        forall|i: int| 0 <= i < s.len() ==> t[i] == s[i],
    ensures
        entries_map(t) == entries_map(s).insert(t.last().0@, t.last().1@),
{
    assert(t.drop_last() =~= s);
}

/// Removing the pair at an index removes its key from the denoted map, when
/// the keys are pairwise distinct; distinctness is kept.
proof fn lemma_map_remove(s: Seq<(String, PackageBasicInfo)>, i: int)
    requires
        unique_keys(s),
        0 <= i < s.len(),
    ensures
        entries_map(s.remove(i)) == entries_map(s).remove(s[i].0@),
        unique_keys(s.remove(i)),
        forall|j: int| 0 <= j < s.remove(i).len() ==> s.remove(i)[j].0@ != s[i].0@,
    decreases s.len(),
{
    let k = s[i].0@;
    s.remove_ensures(i);
    assert forall|a: int, b: int| 0 <= a < b < s.remove(i).len() implies s.remove(i)[a].0@
        != s.remove(i)[b].0@ by {
        assert(s.remove(i)[a] == (if a < i { s[a] } else { s[a + 1] }));
        assert(s.remove(i)[b] == (if b < i { s[b] } else { s[b + 1] }));
    }
    assert forall|j: int| 0 <= j < s.remove(i).len() implies s.remove(i)[j].0@ != k by {
        assert(s.remove(i)[j] == (if j < i { s[j] } else { s[j + 1] }));
    }
    if i == s.len() - 1 {
        assert(s.remove(i) =~= s.drop_last());
        lemma_map_contains(s.drop_last(), k);
        assert(forall|j: int| 0 <= j < s.drop_last().len() ==> s.drop_last()[j].0@ != k);
        assert(!entries_map(s.drop_last()).contains_key(k));
        assert(entries_map(s.drop_last()) =~= entries_map(s).remove(k));
    } else {
        assert(unique_keys(s.drop_last())) by {
            assert(forall|a: int, b: int|
                0 <= a < b < s.drop_last().len() ==> s.drop_last()[a].0@ != s.drop_last()[b].0@);
        }
        lemma_map_remove(s.drop_last(), i);
        s.drop_last().remove_ensures(i);
        assert(s.remove(i).drop_last() =~= s.drop_last().remove(i));
        assert(s.remove(i).last() == s.last());
        assert(s.last().0@ != k);
        assert(entries_map(s.remove(i)) == entries_map(s.drop_last()).remove(k).insert(
            s.last().0@,
            s.last().1@,
        ));
        assert(entries_map(s.drop_last()).remove(k).insert(s.last().0@, s.last().1@)
            =~= entries_map(s.drop_last()).insert(s.last().0@, s.last().1@).remove(k));
    }
}

/// The value kept for one field of a partial update: the supplied one, or the
/// existing one where none was supplied.
pub open spec fn or_keep(new: Option<Seq<char>>, old_val: Seq<char>) -> Seq<char> {
    match new {
        Some(s) => s,
        None => old_val,
    }
}

/// The value taken for one required field when an update creates an entry.
pub open spec fn or_empty(o: Option<Seq<char>>) -> Seq<char> {
    match o {
        Some(s) => s,
        None => Seq::empty(),
    }
}

/// The entry that a partial update leaves behind: every supplied field
/// overwrites, every absent field keeps the prior value, and a supplied
/// dependency list replaces the whole prior list.
pub open spec fn merged_entry(
    e: EntryView,
    url: Option<Seq<char>>,
    file_name: Option<Seq<char>>,
    version: Option<Seq<char>>,
    hash: Option<Seq<char>>,
    dependencies: Option<Seq<DepView>>,
    entry: Option<Seq<char>>,
    description: Option<Seq<char>>,
) -> EntryView {
    EntryView {
        url: or_keep(url, e.url),
        file_name: or_keep(file_name, e.file_name),
        version: or_keep(version, e.version),
        hash: or_keep(hash, e.hash),
        dependencies: match dependencies {
            Some(d) => Some(d),
            None => e.dependencies,
        },
        entry: match entry {
            Some(s) => Some(s),
            None => e.entry,
        },
        description: match description {
            Some(s) => Some(s),
            None => e.description,
        },
    }
}

/// The entry that an update of an absent name creates: supplied fields are
/// taken, omitted required fields default to the empty string, and the
/// dependency list starts absent.
pub open spec fn created_entry(
    url: Option<Seq<char>>,
    file_name: Option<Seq<char>>,
    version: Option<Seq<char>>,
    hash: Option<Seq<char>>,
    entry: Option<Seq<char>>,
    description: Option<Seq<char>>,
) -> EntryView {
    EntryView {
        url: or_empty(url),
        file_name: or_empty(file_name),
        version: or_empty(version),
        hash: or_empty(hash),
        dependencies: None,
        entry,
        description,
    }
}

impl View for RepoInfo {
    type V = Map<Seq<char>, EntryView>;

    closed spec fn view(&self) -> Map<Seq<char>, EntryView> {
        entries_map(self.packages@)
    }
}

/// Character-wise equality of two string slices.
pub(crate) fn str_eq(a: &str, b: &str) -> (r: bool)
    ensures
        r == (a@ == b@),
{
    let alen = a.unicode_len();
    let blen = b.unicode_len();
    if alen != blen {
        assert(a@ != b@);
        return false;
    }
    for i in 0..alen
        invariant
            alen == a@.len(),
            blen == b@.len(),
            alen == blen,
            forall|j: int| 0 <= j < i ==> a@[j] == b@[j],
    {
        if a.get_char(i) != b.get_char(i) {
            assert(a@ != b@) by {
                assert(a@[i as int] != b@[i as int]);
            }
            return false;
        }
    }
    proof {
        assert(a@ =~= b@);
    }
    true
}

impl RepoInfo {
    /// Well-formedness: the entry list binds each package name at most once.
    /// `new` establishes it and every operation preserves it.
    pub closed spec fn wf(&self) -> bool {
        unique_keys(self.packages@)
    }

    /// A fresh registry holds no packages.
    pub fn new() -> (r: Self)
        ensures
            r@ == Map::<Seq<char>, EntryView>::empty(),
            r.wf(),
    {
        RepoInfo { packages: Vec::new() }
    }

    /// The index of the pair that carries `name`, if any.
    fn find(&self, name: &str) -> (r: Option<usize>)
        ensures
            match r {
                Some(i) => i < self.packages@.len() && self.packages@[i as int].0@ == name@,
                None => forall|j: int|
                    0 <= j < self.packages@.len() ==> self.packages@[j].0@ != name@,
            },
    {
        let n = self.packages.len();
        for i in 0..n
            invariant
                n == self.packages@.len(),
                forall|j: int| 0 <= j < i ==> self.packages@[j].0@ != name@,
        {
            if str_eq(self.packages[i].0.as_str(), name) {
                return Some(i);
            }
        }
        None
    }

    /// Whether the catalog holds a package of this name.
    pub fn has_package(&self, package_name: &str) -> (r: bool)
        ensures
            r == self@.contains_key(package_name@),
    {
        proof {
            lemma_map_contains(self.packages@, package_name@);
        }
        match self.find(package_name) {
            Some(_) => true,
            None => false,
        }
    }

    /// The catalog entry of this name; `PackageNotFound` when absent.
    pub fn get_package(&self, package_name: &str) -> (r: CoreResult<&PackageBasicInfo>)
        requires
            self.wf(),
        ensures
            match r {
                Ok(p) => self@.contains_key(package_name@) && p@ == self@[package_name@],
                Err(e) => !self@.contains_key(package_name@) && (e matches
                    CoreError::PackageNotFound(n) && n@ == package_name@),
            },
    {
        proof {
            lemma_map_contains(self.packages@, package_name@);
        }
        match self.find(package_name) {
            Some(i) => {
                proof {
                    lemma_map_index(self.packages@, i as int);
                }
                Ok(&self.packages[i].1)
            },
            None => Err(CoreError::PackageNotFound(package_name.to_owned())),
        }
    }

    /// The whole entry list; its denoted map is the registry's own, and its
    /// names are pairwise distinct.
    pub fn get_package_handler(&self) -> (r: &Vec<(String, PackageBasicInfo)>)
        requires
            self.wf(),
        ensures
            entries_map(r@) == self@,
            unique_keys(r@),
    {
        &self.packages
    }
}

/// The supplied value, or the prior one where none was supplied.
fn pick(new: Option<String>, old_val: String) -> (r: String)
    ensures
        r@ == or_keep(opt_view(new), old_val@),
{
    match new {
        Some(s) => s,
        None => old_val,
    }
}

/// The supplied value, or the prior optional one where none was supplied.
fn pick_opt(new: Option<String>, old_val: Option<String>) -> (r: Option<String>)
    ensures
        opt_view(r) == (match opt_view(new) {
            Some(s) => Some(s),
            None => opt_view(old_val),
        }),
{
    match new {
        Some(s) => Some(s),
        None => old_val,
    }
}

/// The supplied dependency list, or the prior one where none was supplied.
fn pick_deps(new: Option<Vec<Dependency>>, old_val: Option<Vec<Dependency>>) -> (r: Option<
    Vec<Dependency>,
>)
    ensures
        deps_view(r) == (match deps_view(new) {
            Some(d) => Some(d),
            None => deps_view(old_val),
        }),
{
    match new {
        Some(d) => Some(d),
        None => old_val,
    }
}

/// The supplied value, or the empty string where none was supplied.
fn pick_or_empty(new: Option<String>) -> (r: String)
    ensures
        r@ == or_empty(opt_view(new)),
{
    match new {
        Some(s) => s,
        None => String::new(),
    }
}

impl RepoInfo {
    /// Bind `name` to `info`, fully replacing any prior entry of that name.
    fn insert_entry(&mut self, name: String, info: PackageBasicInfo)
        requires
            old(self).wf(),
        ensures
            final(self).wf(),
            final(self)@ == old(self)@.insert(name@, info@),
    {
        let ghost s0 = self.packages@;
        let ghost k = name@;
        let ghost v = info@;
        let idx = self.find(name.as_str());
        match idx {
            Some(i) => {
                proof {
                    lemma_map_remove(s0, i as int);
                }
                self.packages.remove(i);
                let ghost s1 = self.packages@;
                self.packages.push((name, info));
                proof {
                    lemma_map_push(s1, self.packages@);
                    assert(self.packages@.last().0@ == k);
                    assert(self.packages@.last().1@ == v);
                    assert(entries_map(self.packages@) =~= entries_map(s0).insert(k, v));
                    assert(forall|j: int| 0 <= j < s1.len() ==> s1[j].0@ != k);
                    assert forall|a: int, b: int|
                        0 <= a < b < self.packages@.len() implies self.packages@[a].0@
                        != self.packages@[b].0@ by {
                        if b < self.packages@.len() - 1 {
                            assert(self.packages@[a] == s1[a]);
                            assert(self.packages@[b] == s1[b]);
                        } else {
                            assert(self.packages@[a] == s1[a]);
                        }
                    }
                }
            },
            None => {
                let ghost s1 = self.packages@;
                self.packages.push((name, info));
                proof {
                    lemma_map_push(s1, self.packages@);
                    assert(self.packages@.last().0@ == k);
                    assert(self.packages@.last().1@ == v);
                    assert forall|a: int, b: int|
                        0 <= a < b < self.packages@.len() implies self.packages@[a].0@
                        != self.packages@[b].0@ by {
                        if b < self.packages@.len() - 1 {
                            assert(self.packages@[a] == s1[a]);
                            assert(self.packages@[b] == s1[b]);
                        } else {
                            assert(self.packages@[a] == s1[a]);
                        }
                    }
                }
            },
        }
    }

    /// Insert or fully replace the entry of `name` from its parts.  No shape
    /// of the url, version or hash is checked: validation is not the
    /// catalog's job.
    pub fn add_package(
        &mut self,
        name: String,
        url: String,
        file_name: String,
        version: String,
        hash: String,
        dependencies: Option<Vec<Dependency>>,
        entry: Option<String>,
        description: Option<String>,
    )
        requires
            old(self).wf(),
        ensures
            final(self).wf(),
            final(self)@ == old(self)@.insert(
                name@,
                EntryView {
                    url: url@,
                    file_name: file_name@,
                    version: version@,
                    hash: hash@,
                    dependencies: deps_view(dependencies),
                    entry: opt_view(entry),
                    description: opt_view(description),
                },
            ),
    {
        let package = PackageBasicInfo { url, file_name, version, hash, dependencies, entry, description };
        self.insert_entry(name, package);
    }

    /// Insert or fully replace the entry of `name` from a pre-built record.
    pub fn add_package_with_info(&mut self, name: String, info: PackageBasicInfo)
        requires
            old(self).wf(),
        ensures
            final(self).wf(),
            final(self)@ == old(self)@.insert(name@, info@),
    {
        self.insert_entry(name, info);
    }

    /// Detach and return the entry of this name; `PackageNotFound` when
    /// absent, and then nothing changes.
    pub fn remove_package(&mut self, package_name: &str) -> (r: CoreResult<PackageBasicInfo>)
        requires
            old(self).wf(),
        ensures
            final(self).wf(),
            match r {
                Ok(p) => old(self)@.contains_key(package_name@)
                    && p@ == old(self)@[package_name@]
                    && final(self)@ == old(self)@.remove(package_name@)
                    && !final(self)@.contains_key(package_name@),
                Err(e) => !old(self)@.contains_key(package_name@) && final(self)@ == old(self)@
                    && (e matches CoreError::PackageNotFound(n) && n@ == package_name@),
            },
    {
        proof {
            lemma_map_contains(self.packages@, package_name@);
        }
        let idx = self.find(package_name);
        match idx {
            Some(i) => {
                proof {
                    lemma_map_index(self.packages@, i as int);
                    lemma_map_remove(self.packages@, i as int);
                }
                let pair = self.packages.remove(i);
                Ok(pair.1)
            },
            None => Err(CoreError::PackageNotFound(package_name.to_owned())),
        }
    }

    /// Partial update with upsert semantics.  On an existing name every
    /// supplied field overwrites and every absent field is untouched; a
    /// supplied dependency list replaces the whole prior list.  On an absent
    /// name a new entry is created from the supplied fields, with the empty
    /// string for omitted required fields and no dependency list.
    pub fn update_package(
        &mut self,
        package_name: &str,
        url: Option<String>,
        file_name: Option<String>,
        version: Option<String>,
        hash: Option<String>,
        dependencies: Option<Vec<Dependency>>,
        entry: Option<String>,
        description: Option<String>,
    )
        requires
            old(self).wf(),
        ensures
            final(self).wf(),
            final(self)@ == old(self)@.insert(
                package_name@,
                if old(self)@.contains_key(package_name@) {
                    merged_entry(
                        old(self)@[package_name@],
                        opt_view(url),
                        opt_view(file_name),
                        opt_view(version),
                        opt_view(hash),
                        deps_view(dependencies),
                        opt_view(entry),
                        opt_view(description),
                    )
                } else {
                    created_entry(
                        opt_view(url),
                        opt_view(file_name),
                        opt_view(version),
                        opt_view(hash),
                        opt_view(entry),
                        opt_view(description),
                    )
                },
            ),
    {
        proof {
            lemma_map_contains(self.packages@, package_name@);
        }
        let idx = self.find(package_name);
        match idx {
            Some(i) => {
                proof {
                    lemma_map_index(self.packages@, i as int);
                }
                let pair = self.packages.remove(i);
                proof {
                    lemma_map_remove(old(self).packages@, i as int);
                }
                let existing = pair.1;
                let updated = PackageBasicInfo {
                    url: pick(url, existing.url),
                    file_name: pick(file_name, existing.file_name),
                    version: pick(version, existing.version),
                    hash: pick(hash, existing.hash),
                    dependencies: pick_deps(dependencies, existing.dependencies),
                    entry: pick_opt(entry, existing.entry),
                    description: pick_opt(description, existing.description),
                };
                self.insert_entry(pair.0, updated);
                proof {
                    assert(final(self)@ =~= old(self)@.insert(
                        package_name@,
                        merged_entry(
                            old(self)@[package_name@],
                            opt_view(url),
                            opt_view(file_name),
                            opt_view(version),
                            opt_view(hash),
                            deps_view(dependencies),
                            opt_view(entry),
                            opt_view(description),
                        ),
                    ));
                }
            },
            None => {
                let created = PackageBasicInfo {
                    url: pick_or_empty(url),
                    file_name: pick_or_empty(file_name),
                    version: pick_or_empty(version),
                    hash: pick_or_empty(hash),
                    dependencies: None,
                    entry,
                    description,
                };
                self.insert_entry(package_name.to_owned(), created);
            },
        }
    }

    /// Replace the whole package map with a freshly fetched registry's map:
    /// a refresh is a full overwrite, never a merge.
    pub fn apply_refresh(&mut self, fetched: RepoInfo)
        requires
            fetched.wf(),
        ensures
            final(self).wf(),
            final(self)@ == fetched@,
    {
        *self = fetched;
    }
}

/// Adding a package under a name that was added before fully replaces the
/// prior entry: however many additions went before, the catalog holds the
/// entry of the last one alone.
pub proof fn lemma_add_is_last_write(
    m: Map<Seq<char>, EntryView>,
    n: Seq<char>,
    e1: EntryView,
    e2: EntryView,
)
    ensures
        m.insert(n, e1).insert(n, e2) == m.insert(n, e2),
        m.insert(n, e2).contains_key(n),
        m.insert(n, e2)[n] == e2,
{
    assert(m.insert(n, e1).insert(n, e2) =~= m.insert(n, e2));
}

/// The map that a run of additions under one name leaves, made in order.
pub open spec fn after_adds(
    m: Map<Seq<char>, EntryView>,
    n: Seq<char>,
    es: Seq<EntryView>,
) -> Map<Seq<char>, EntryView>
    decreases es.len(),
{
    if es.len() == 0 {
        m
    } else {
        after_adds(m, n, es.drop_last()).insert(n, es.last())
    }
}

/// However many additions under one name went before, the catalog holds the
/// name, bound to the entry of the most recent addition alone.
pub proof fn lemma_adds_keep_last(m: Map<Seq<char>, EntryView>, n: Seq<char>, es: Seq<EntryView>)
    requires
        es.len() > 0,
    ensures
        after_adds(m, n, es) == m.insert(n, es.last()),
        after_adds(m, n, es).contains_key(n),
        after_adds(m, n, es)[n] == es.last(),
    decreases es.len(),
{
    if es.len() == 1 {
        assert(es.drop_last().len() == 0);
        assert(after_adds(m, n, es.drop_last()) == m);
    } else {
        lemma_adds_keep_last(m, n, es.drop_last());
        assert(m.insert(n, es.drop_last().last()).insert(n, es.last()) =~= m.insert(
            n,
            es.last(),
        ));
    }
}

/// A partial update that supplies only a version changes the version and
/// leaves the url, file name, hash, dependency list and the optional fields
/// exactly as they were.
pub proof fn lemma_partial_update_version(e: EntryView, v: Seq<char>)
    ensures
        merged_entry(e, None, None, Some(v), None, None, None, None) == (EntryView {
            url: e.url,
            file_name: e.file_name,
            version: v,
            hash: e.hash,
            dependencies: e.dependencies,
            entry: e.entry,
            description: e.description,
        }),
{
}

/// An update of an absent name with no fields supplied creates an entry of
/// empty strings, with no dependency list and no optional fields.
pub proof fn lemma_upsert_defaults()
    ensures
        created_entry(None, None, None, None, None, None) == (EntryView {
            url: Seq::empty(),
            file_name: Seq::empty(),
            version: Seq::empty(),
            hash: Seq::empty(),
            dependencies: None,
            entry: None,
            description: None,
        }),
{
}

} // verus!
