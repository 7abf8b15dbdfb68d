use vstd::prelude::*;

use crate::error::CoreError;
use crate::error::CoreResult;
use crate::registry::DepView;
use crate::registry::Dependency;
use crate::registry::EntryView;
use crate::registry::PackageBasicInfo;
use crate::registry::PackageInfo;
use crate::registry::PackageView;
use crate::registry::RepoInfo;
use crate::registry::entries_map;
use crate::registry::str_eq;

verus! {

/// One node of a structural document: the subset of JSON that the catalog's
/// wire format uses (null, strings, arrays and objects; an object keeps its
/// fields as a list of key/value pairs in written order).
pub enum JsonDoc {
    Null,
    Text(String),
    List(Vec<JsonDoc>),
    Object(Vec<(String, JsonDoc)>),
}

/// Mathematical model of a `JsonDoc`.
pub ghost enum DocView {
    Null,
    Text(Seq<char>),
    List(Seq<DocView>),
    Object(Seq<(Seq<char>, DocView)>),
}

impl View for JsonDoc {
    type V = DocView;

    open spec fn view(&self) -> DocView
        decreases self,
    {
        match self {
            JsonDoc::Null => DocView::Null,
            JsonDoc::Text(s) => DocView::Text(s@),
            JsonDoc::List(items) => DocView::List(list_view(items@)),
            JsonDoc::Object(fields) => DocView::Object(fields_view(fields@)),
        }
    }
}

/// The model of a document list.
pub open spec fn list_view(s: Seq<JsonDoc>) -> Seq<DocView>
    decreases s,
{
    Seq::new(s.len(), |i: int| if 0 <= i < s.len() {
        s[i]@
    } else {
        DocView::Null
    })
}

/// The model of an object's field list.
pub open spec fn fields_view(s: Seq<(String, JsonDoc)>) -> Seq<(Seq<char>, DocView)>
    decreases s,
{
    Seq::new(s.len(), |i: int| if 0 <= i < s.len() {
        (s[i].0@, s[i].1@)
    } else {
        (Seq::empty(), DocView::Null)
    })
}

/// The first binding of `key` at or after position `i`.
pub open spec fn lookup_from(
    fields: Seq<(Seq<char>, DocView)>,
    key: Seq<char>,
    i: int,
) -> Option<DocView>
    decreases fields.len() - i,
{
    if i < 0 || i >= fields.len() {
        None
    } else if fields[i].0 == key {
        Some(fields[i].1)
    } else {
        lookup_from(fields, key, i + 1)
    }
}

/// The value of the first binding of `key` in an object's field list.
pub open spec fn lookup_field(fields: Seq<(Seq<char>, DocView)>, key: Seq<char>) -> Option<
    DocView,
> {
    lookup_from(fields, key, 0)
}

proof fn lemma_lookup_from_at(fields: Seq<(Seq<char>, DocView)>, key: Seq<char>, s: int, i: int)
    requires
        0 <= s <= i < fields.len(),
        fields[i].0 == key,
        forall|j: int| s <= j < i ==> fields[j].0 != key,
    ensures
        lookup_from(fields, key, s) == Some(fields[i].1),
    decreases i - s,
{
    if s < i {
        lemma_lookup_from_at(fields, key, s + 1, i);
    }
}

/// A key bound first at position `i` is looked up there.
proof fn lemma_lookup_at(fields: Seq<(Seq<char>, DocView)>, key: Seq<char>, i: int)
    requires
        0 <= i < fields.len(),
        fields[i].0 == key,
        forall|j: int| 0 <= j < i ==> fields[j].0 != key,
    ensures
        lookup_field(fields, key) == Some(fields[i].1),
{
    lemma_lookup_from_at(fields, key, 0, i);
}

proof fn lemma_lookup_from_absent(fields: Seq<(Seq<char>, DocView)>, key: Seq<char>, s: int)
    requires
        forall|j: int| 0 <= j < fields.len() ==> fields[j].0 != key,
    ensures
        lookup_from(fields, key, s) is None,
    decreases fields.len() - s,
{
    if 0 <= s < fields.len() {
        lemma_lookup_from_absent(fields, key, s + 1);
    }
}

/// A key bound nowhere is not looked up.
proof fn lemma_lookup_absent(fields: Seq<(Seq<char>, DocView)>, key: Seq<char>)
    requires
        forall|j: int| 0 <= j < fields.len() ==> fields[j].0 != key,
    ensures
        lookup_field(fields, key) is None,
{
    lemma_lookup_from_absent(fields, key, 0);
}

/// A required text field: it must be bound, to text.
pub open spec fn req_str_field(fields: Seq<(Seq<char>, DocView)>, key: Seq<char>) -> Option<
    Seq<char>,
> {
    match lookup_field(fields, key) {
        Some(DocView::Text(s)) => Some(s),
        _ => None,
    }
}

/// An optional text field: absent or null gives nothing; a present field
/// must be text.  The outer `None` marks a malformed field.
pub open spec fn opt_str_field(fields: Seq<(Seq<char>, DocView)>, key: Seq<char>) -> Option<
    Option<Seq<char>>,
> {
    match lookup_field(fields, key) {
        None => Some(None),
        Some(DocView::Null) => Some(None),
        Some(DocView::Text(s)) => Some(Some(s)),
        Some(_) => None,
    }
}

/// A dependency record: an object binding `name` and `version` to text.
pub open spec fn dep_of_doc(d: DocView) -> Option<DepView> {
    match d {
        DocView::Object(fields) => match (
            req_str_field(fields, "name"@),
            req_str_field(fields, "version"@),
        ) {
            (Some(n), Some(v)) => Some(DepView { name: n, version: v }),
            _ => None,
        },
        _ => None,
    }
}

/// The dependency records of a list document, read from position `i` on.
pub open spec fn deps_from(items: Seq<DocView>, i: int) -> Option<Seq<DepView>>
    decreases items.len() - i,
{
    if i < 0 || i >= items.len() {
        Some(Seq::empty())
    } else {
        match (dep_of_doc(items[i]), deps_from(items, i + 1)) {
            (Some(d), Some(rest)) => Some(seq![d] + rest),
            _ => None,
        }
    }
}

/// The dependency records of a list document.
pub open spec fn deps_of_list(items: Seq<DocView>) -> Option<Seq<DepView>> {
    deps_from(items, 0)
}

/// The dependency field of a record: absent or null is an absent list, as
/// the wire format writes an absent list as null.
pub open spec fn deps_field(fields: Seq<(Seq<char>, DocView)>) -> Option<Option<Seq<DepView>>> {
    match lookup_field(fields, "dependencies"@) {
        None => Some(None),
        Some(DocView::Null) => Some(None),
        Some(DocView::List(items)) => match deps_of_list(items) {
            Some(ds) => Some(Some(ds)),
            None => None,
        },
        Some(_) => None,
    }
}

/// A catalog entry read from its document form.
pub open spec fn entry_of_doc(d: DocView) -> Option<EntryView> {
    match d {
        DocView::Object(fields) => match (
            req_str_field(fields, "url"@),
            req_str_field(fields, "file_name"@),
            req_str_field(fields, "version"@),
            req_str_field(fields, "hash"@),
        ) {
            (Some(u), Some(f), Some(v), Some(h)) => match (
                deps_field(fields),
                opt_str_field(fields, "entry"@),
                opt_str_field(fields, "description"@),
            ) {
                (Some(dp), Some(en), Some(de)) => Some(
                    EntryView {
                        url: u,
                        file_name: f,
                        version: v,
                        hash: h,
                        dependencies: dp,
                        entry: en,
                        description: de,
                    },
                ),
                _ => None,
            },
            _ => None,
        },
        _ => None,
    }
}

/// A package descriptor read from its document form.
pub open spec fn pkg_of_doc(d: DocView) -> Option<PackageView> {
    match d {
        DocView::Object(fields) => match (
            req_str_field(fields, "package_name"@),
            req_str_field(fields, "file_name"@),
            req_str_field(fields, "version"@),
            req_str_field(fields, "description"@),
            req_str_field(fields, "hash"@),
        ) {
            (Some(p), Some(f), Some(v), Some(de), Some(h)) => match deps_field(fields) {
                Some(dp) => Some(
                    PackageView {
                        package_name: p,
                        file_name: f,
                        version: v,
                        description: de,
                        hash: h,
                        dependencies: dp,
                    },
                ),
                _ => None,
            },
            _ => None,
        },
        _ => None,
    }
}

/// The package map denoted by the field list of a registry document's
/// `packages` object; a later binding of a name overrides an earlier one.
pub open spec fn packages_of_fields(fields: Seq<(Seq<char>, DocView)>) -> Option<
    Map<Seq<char>, EntryView>,
>
    decreases fields.len(),
{
    if fields.len() == 0 {
        Some(Map::empty())
    } else {
        match (packages_of_fields(fields.drop_last()), entry_of_doc(fields.last().1)) {
            (Some(m), Some(e)) => Some(m.insert(fields.last().0, e)),
            _ => None,
        }
    }
}

/// The package map of a registry document: an object binding `packages` to
/// an object of entry records.
pub open spec fn registry_of_doc(d: DocView) -> Option<Map<Seq<char>, EntryView>> {
    match d {
        DocView::Object(fields) => match lookup_field(fields, "packages"@) {
            Some(DocView::Object(pkgs)) => packages_of_fields(pkgs),
            _ => None,
        },
        _ => None,
    }
}

/// A fresh format error for a malformed structural record.
fn json_err() -> (r: CoreError)
    ensures
        r matches CoreError::JsonError(m) && m@.len() > 0,
{
    proof {
        reveal_strlit("malformed record");
    }
    CoreError::JsonError("malformed record".to_owned())
}

/// The value of the first binding of `key`, if any.
fn get_field<'a>(fields: &'a Vec<(String, JsonDoc)>, key: &str) -> (r: Option<&'a JsonDoc>)
    ensures
        match r {
            Some(d) => lookup_field(fields_view(fields@), key@) == Some(d@),
            None => lookup_field(fields_view(fields@), key@) is None,
        },
{
    let n = fields.len();
    for i in 0..n
        invariant
            n == fields@.len(),
            forall|j: int| 0 <= j < i ==> fields_view(fields@)[j].0 != key@,
    {
        if str_eq(fields[i].0.as_str(), key) {
            proof {
                lemma_lookup_at(fields_view(fields@), key@, i as int);
            }
            return Some(&fields[i].1);
        }
    }
    proof {
        lemma_lookup_absent(fields_view(fields@), key@);
    }
    None
}

impl Dependency {
    /// The document form of one dependency: an object of `name` and
    /// `version`.  Reading the document back yields this dependency.
    pub fn to_doc(&self) -> (r: JsonDoc)
        ensures
            dep_of_doc(r@) == Some(self@),
    {
        let mut fields: Vec<(String, JsonDoc)> = Vec::new();
        fields.push(("name".to_owned(), JsonDoc::Text(self.name.clone())));
        fields.push(("version".to_owned(), JsonDoc::Text(self.version.clone())));
        proof {
            reveal_strlit("name");
            reveal_strlit("version");
            let fv = fields_view(fields@);
            assert(fields@.len() == 2);
            assert(fv[0].0 == "name"@);
            assert(fv[1].0 == "version"@);
            lemma_lookup_at(fv, "name"@, 0);
            lemma_lookup_at(fv, "version"@, 1);
        }
        JsonDoc::Object(fields)
    }

    /// Read one dependency from its document form.
    pub fn from_doc(d: &JsonDoc) -> (r: CoreResult<Dependency>)
        ensures
            match r {
                Ok(dep) => dep_of_doc(d@) == Some(dep@),
                Err(e) => dep_of_doc(d@) is None && (e matches CoreError::JsonError(m) && m@.len()
                    > 0),
            },
    {
        let fields = match d {
            JsonDoc::Object(f) => f,
            _ => {
                return Err(json_err());
            },
        };
        let name = match get_field(fields, "name") {
            Some(JsonDoc::Text(s)) => s.clone(),
            _ => {
                return Err(json_err());
            },
        };
        let version = match get_field(fields, "version") {
            Some(JsonDoc::Text(s)) => s.clone(),
            _ => {
                return Err(json_err());
            },
        };
        Ok(Dependency { name, version })
    }
}

/// Turn a dependency list into its document list.
fn deps_to_list(deps: &Vec<Dependency>) -> (r: Vec<JsonDoc>)
    ensures
        deps_of_list(list_view(r@)) == Some(deps@.map_values(|d: Dependency| d@)),
{
    let n = deps.len();
    let mut out: Vec<JsonDoc> = Vec::new();
    for i in 0..n
        invariant
            n == deps@.len(),
            out@.len() == i,
            forall|j: int| 0 <= j < i ==> dep_of_doc(list_view(out@)[j]) == Some(deps@[j]@),
    {
        let d = deps[i].to_doc();
        let ghost prev = out@;
        out.push(d);
        proof {
            assert forall|j: int| 0 <= j < i + 1 implies dep_of_doc(list_view(out@)[j]) == Some(
                deps@[j]@,
            ) by {
                if j < i {
                    assert(out@[j] == prev[j]);
                    assert(list_view(out@)[j] == out@[j]@);
                    assert(list_view(prev)[j] == prev[j]@);
                } else {
                    assert(list_view(out@)[j] == d@);
                }
            }
        }
    }
    proof {
        lemma_deps_pointwise(list_view(out@), deps@.map_values(|d: Dependency| d@), 0);
        assert(deps@.map_values(|d: Dependency| d@).skip(0) =~= deps@.map_values(
            |d: Dependency| d@,
        ));
    }
    out
}

/// A list whose elements each read as the matching dependency reads as the
/// whole dependency sequence.
proof fn lemma_deps_pointwise(items: Seq<DocView>, ds: Seq<DepView>, i: int)
    requires
        0 <= i <= items.len(),
        items.len() == ds.len(),
        forall|j: int| 0 <= j < items.len() ==> dep_of_doc(items[j]) == Some(ds[j]),
    ensures
        deps_from(items, i) == Some(ds.skip(i)),
    decreases items.len() - i,
{
    if i == items.len() {
        assert(ds.skip(i) =~= Seq::<DepView>::empty());
    } else {
        lemma_deps_pointwise(items, ds, i + 1);
        assert(seq![ds[i]] + ds.skip(i + 1) =~= ds.skip(i));
    }
}

/// Read a dependency list document: every element must be a dependency
/// record.
fn deps_from_list(items: &Vec<JsonDoc>) -> (r: CoreResult<Vec<Dependency>>)
    ensures
        match r {
            Ok(ds) => deps_of_list(list_view(items@)) == Some(
                ds@.map_values(|d: Dependency| d@),
            ),
            Err(e) => deps_of_list(list_view(items@)) is None && (e matches CoreError::JsonError(
                m,
            ) && m@.len() > 0),
        },
{
    let n = items.len();
    let mut out: Vec<Dependency> = Vec::new();
    for i in 0..n
        invariant
            n == items@.len(),
            out@.len() == i,
            forall|j: int| 0 <= j < i ==> dep_of_doc(list_view(items@)[j]) == Some(out@[j]@),
    {
        match Dependency::from_doc(&items[i]) {
            Ok(dep) => {
                let ghost dv = dep@;
                let ghost prev = out@;
                out.push(dep);
                proof {
                    assert forall|j: int| 0 <= j < i + 1 implies dep_of_doc(
                        list_view(items@)[j],
                    ) == Some(out@[j]@) by {
                        if j < i {
                            assert(out@[j] == prev[j]);
                        } else {
                            assert(out@[j]@ == dv);
                            assert(list_view(items@)[j] == items@[j]@);
                        }
                    }
                }
            },
            Err(e) => {
                proof {
                    lemma_deps_bad(list_view(items@), i as int);
                }
                return Err(e);
            },
        }
        proof {
            assert(list_view(items@)[i as int] == items@[i as int]@);
        }
    }
    proof {
        lemma_deps_pointwise(list_view(items@), out@.map_values(|d: Dependency| d@), 0);
        assert(out@.map_values(|d: Dependency| d@).skip(0) =~= out@.map_values(
            |d: Dependency| d@,
        ));
    }
    Ok(out)
}

/// A list with one element that is no dependency record reads as nothing.
proof fn lemma_deps_bad(items: Seq<DocView>, j: int)
    requires
        0 <= j < items.len(),
        dep_of_doc(items[j]) is None,
    ensures
        forall|i: int| 0 <= i <= j ==> deps_from(items, i) is None,
{
    assert forall|i: int| 0 <= i <= j implies deps_from(items, i) is None by {
        lemma_deps_bad_from(items, i, j);
    }
}

proof fn lemma_deps_bad_from(items: Seq<DocView>, i: int, j: int)
    requires
        0 <= i <= j < items.len(),
        dep_of_doc(items[j]) is None,
    ensures
        deps_from(items, i) is None,
    decreases j - i,
{
    if i < j {
        lemma_deps_bad_from(items, i + 1, j);
    }
}

/// A field list shaped as `PackageBasicInfo::to_doc` builds it reads back
/// as the entry it was built from.
proof fn lemma_entry_doc_fields(fv: Seq<(Seq<char>, DocView)>, e: EntryView)
    requires
        fv.len() >= 5,
        fv[0] == ("url"@, DocView::Text(e.url)),
        fv[1] == ("file_name"@, DocView::Text(e.file_name)),
        fv[2] == ("version"@, DocView::Text(e.version)),
        fv[3] == ("hash"@, DocView::Text(e.hash)),
        fv[4].0 == "dependencies"@,
        match e.dependencies {
            Some(ds) => fv[4].1 matches DocView::List(items) && deps_of_list(items) == Some(ds),
            None => fv[4].1 == DocView::Null,
        },
        match (e.entry, e.description) {
            (Some(en), Some(de)) => fv.len() == 7 && fv[5] == ("entry"@, DocView::Text(en))
                && fv[6] == ("description"@, DocView::Text(de)),
            (Some(en), None) => fv.len() == 6 && fv[5] == ("entry"@, DocView::Text(en)),
            (None, Some(de)) => fv.len() == 6 && fv[5] == ("description"@, DocView::Text(de)),
            (None, None) => fv.len() == 5,
        },
    ensures
        entry_of_doc(DocView::Object(fv)) == Some(e),
{
    reveal_strlit("url");
    reveal_strlit("file_name");
    reveal_strlit("version");
    reveal_strlit("hash");
    reveal_strlit("dependencies");
    reveal_strlit("entry");
    reveal_strlit("description");
    assert(fv[0].0 == "url"@);
    assert(fv[1].0 == "file_name"@);
    assert(fv[2].0 == "version"@);
    assert(fv[3].0 == "hash"@);
    assert("url"@.len() == 3);
    assert("file_name"@.len() == 9);
    assert("version"@.len() == 7);
    assert("hash"@.len() == 4);
    assert("dependencies"@.len() == 12);
    assert("entry"@.len() == 5);
    assert("description"@.len() == 11);
    lemma_lookup_at(fv, "url"@, 0);
    assert forall|j: int| 0 <= j < 1 implies fv[j].0 != "file_name"@ by {
        assert(fv[0].0 == "url"@);
    }
    lemma_lookup_at(fv, "file_name"@, 1);
    assert forall|j: int| 0 <= j < 2 implies fv[j].0 != "version"@ by {
        if j == 0 {
        } else {
            assert(fv[1].0 == "file_name"@);
        }
    }
    lemma_lookup_at(fv, "version"@, 2);
    assert forall|j: int| 0 <= j < 3 implies fv[j].0 != "hash"@ by {
        if j == 0 {
        } else if j == 1 {
        } else {
            assert(fv[2].0 == "version"@);
        }
    }
    lemma_lookup_at(fv, "hash"@, 3);
    assert forall|j: int| 0 <= j < 4 implies fv[j].0 != "dependencies"@ by {
        if j == 0 {
        } else if j == 1 {
        } else if j == 2 {
        } else {
            assert(fv[3].0 == "hash"@);
        }
    }
    lemma_lookup_at(fv, "dependencies"@, 4);
    assert(deps_field(fv) == Some(e.dependencies));
    assert forall|j: int| 0 <= j < 5 implies fv[j].0 != "entry"@ && fv[j].0 != "description"@ by {
        if j == 0 {
        } else if j == 1 {
        } else if j == 2 {
        } else if j == 3 {
        } else {
            assert(fv[4].0 == "dependencies"@);
        }
    }
    if e.entry is Some {
        lemma_lookup_at(fv, "entry"@, 5);
        if e.description is Some {
            assert forall|j: int| 0 <= j < 6 implies fv[j].0 != "description"@ by {
                if j == 5 {
                    assert(fv[5].0 == "entry"@);
                }
            }
            lemma_lookup_at(fv, "description"@, 6);
        } else {
            assert forall|j: int| 0 <= j < fv.len() implies fv[j].0 != "description"@ by {
                if j == 5 {
                    assert(fv[5].0 == "entry"@);
                }
            }
            lemma_lookup_absent(fv, "description"@);
        }
    } else {
        if e.description is Some {
            lemma_lookup_at(fv, "description"@, 5);
            assert forall|j: int| 0 <= j < fv.len() implies fv[j].0 != "entry"@ by {
                if j == 5 {
                    assert(fv[5].0 == "description"@);
                }
            }
            lemma_lookup_absent(fv, "entry"@);
        } else {
            lemma_lookup_absent(fv, "entry"@);
            lemma_lookup_absent(fv, "description"@);
        }
    }
}

impl PackageBasicInfo {
    /// The document form of one catalog entry: the four required strings,
    /// `dependencies` always written (null when the list is absent), and
    /// `entry` and `description` written only when present.  Reading the
    /// document back yields exactly this entry.
    pub fn to_doc(&self) -> (r: JsonDoc)
        ensures
            entry_of_doc(r@) == Some(self@),
    {
        let mut fields: Vec<(String, JsonDoc)> = Vec::new();
        fields.push(("url".to_owned(), JsonDoc::Text(self.url.clone())));
        fields.push(("file_name".to_owned(), JsonDoc::Text(self.file_name.clone())));
        fields.push(("version".to_owned(), JsonDoc::Text(self.version.clone())));
        fields.push(("hash".to_owned(), JsonDoc::Text(self.hash.clone())));
        let deps_doc = match &self.dependencies {
            Some(ds) => JsonDoc::List(deps_to_list(ds)),
            None => JsonDoc::Null,
        };
        fields.push(("dependencies".to_owned(), deps_doc));
        match (&self.entry, &self.description) {
            (Some(e), Some(dsc)) => {
                fields.push(("entry".to_owned(), JsonDoc::Text(e.clone())));
                fields.push(("description".to_owned(), JsonDoc::Text(dsc.clone())));
                proof {
                    lemma_entry_doc_fields(fields_view(fields@), self@);
                }
                JsonDoc::Object(fields)
            },
            (Some(e), None) => {
                fields.push(("entry".to_owned(), JsonDoc::Text(e.clone())));
                proof {
                    lemma_entry_doc_fields(fields_view(fields@), self@);
                }
                JsonDoc::Object(fields)
            },
            (None, Some(dsc)) => {
                fields.push(("description".to_owned(), JsonDoc::Text(dsc.clone())));
                proof {
                    lemma_entry_doc_fields(fields_view(fields@), self@);
                }
                JsonDoc::Object(fields)
            },
            (None, None) => {
                proof {
                    lemma_entry_doc_fields(fields_view(fields@), self@);
                }
                JsonDoc::Object(fields)
            },
        }
    }

    /// Read one catalog entry from its document form.
    pub fn from_doc(d: &JsonDoc) -> (r: CoreResult<PackageBasicInfo>)
        ensures
            match r {
                Ok(p) => entry_of_doc(d@) == Some(p@),
                Err(e) => entry_of_doc(d@) is None && (e matches CoreError::JsonError(m)
                    && m@.len() > 0),
            },
    {
        let fields = match d {
            JsonDoc::Object(f) => f,
            _ => {
                return Err(json_err());
            },
        };
        let url = match get_field(fields, "url") {
            Some(JsonDoc::Text(s)) => s.clone(),
            _ => {
                return Err(json_err());
            },
        };
        let file_name = match get_field(fields, "file_name") {
            Some(JsonDoc::Text(s)) => s.clone(),
            _ => {
                return Err(json_err());
            },
        };
        let version = match get_field(fields, "version") {
            Some(JsonDoc::Text(s)) => s.clone(),
            _ => {
                return Err(json_err());
            },
        };
        let hash = match get_field(fields, "hash") {
            Some(JsonDoc::Text(s)) => s.clone(),
            _ => {
                return Err(json_err());
            },
        };
        let dependencies = match get_field(fields, "dependencies") {
            None => None,
            Some(JsonDoc::Null) => None,
            Some(JsonDoc::List(items)) => match deps_from_list(items) {
                Ok(ds) => Some(ds),
                Err(e) => {
                    return Err(e);
                },
            },
            Some(_) => {
                return Err(json_err());
            },
        };
        let entry = match get_field(fields, "entry") {
            None => None,
            Some(JsonDoc::Null) => None,
            Some(JsonDoc::Text(s)) => Some(s.clone()),
            Some(_) => {
                return Err(json_err());
            },
        };
        let description = match get_field(fields, "description") {
            None => None,
            Some(JsonDoc::Null) => None,
            Some(JsonDoc::Text(s)) => Some(s.clone()),
            Some(_) => {
                return Err(json_err());
            },
        };
        Ok(PackageBasicInfo { url, file_name, version, hash, dependencies, entry, description })
    }
}

impl PackageInfo {
    /// The document form of one package descriptor; every field is written,
    /// `dependencies` as null when the list is absent.  Reading the document
    /// back yields exactly this descriptor.
    pub fn to_doc(&self) -> (r: JsonDoc)
        ensures
            pkg_of_doc(r@) == Some(self@),
    {
        let mut fields: Vec<(String, JsonDoc)> = Vec::new();
        fields.push(("package_name".to_owned(), JsonDoc::Text(self.package_name.clone())));
        fields.push(("file_name".to_owned(), JsonDoc::Text(self.file_name.clone())));
        fields.push(("version".to_owned(), JsonDoc::Text(self.version.clone())));
        fields.push(("description".to_owned(), JsonDoc::Text(self.description.clone())));
        fields.push(("hash".to_owned(), JsonDoc::Text(self.hash.clone())));
        let deps_doc = match &self.dependencies {
            Some(ds) => JsonDoc::List(deps_to_list(ds)),
            None => JsonDoc::Null,
        };
        fields.push(("dependencies".to_owned(), deps_doc));
        proof {
            reveal_strlit("package_name");
            reveal_strlit("file_name");
            reveal_strlit("version");
            reveal_strlit("description");
            reveal_strlit("hash");
            reveal_strlit("dependencies");
            assert("package_name"@.len() == 12);
            assert("file_name"@.len() == 9);
            assert("version"@.len() == 7);
            assert("description"@.len() == 11);
            assert("hash"@.len() == 4);
            assert("dependencies"@.len() == 12);
            assert("package_name"@[0] == 'p' && "dependencies"@[0] == 'd');
            let fv = fields_view(fields@);
            assert(fv[0].0 == "package_name"@ && fv[0].1 == DocView::Text(self.package_name@));
            assert(fv[1].0 == "file_name"@ && fv[1].1 == DocView::Text(self.file_name@));
            assert(fv[2].0 == "version"@ && fv[2].1 == DocView::Text(self.version@));
            assert(fv[3].0 == "description"@ && fv[3].1 == DocView::Text(self.description@));
            assert(fv[4].0 == "hash"@ && fv[4].1 == DocView::Text(self.hash@));
            assert(fv[5].0 == "dependencies"@);
            lemma_lookup_at(fv, "package_name"@, 0);
            lemma_lookup_at(fv, "file_name"@, 1);
            assert forall|j: int| 0 <= j < 2 implies fv[j].0 != "version"@ by {
                if j == 0 {
                } else {
                    assert(fv[1].0 == "file_name"@);
                }
            }
            lemma_lookup_at(fv, "version"@, 2);
            assert forall|j: int| 0 <= j < 3 implies fv[j].0 != "description"@ by {
                if j == 0 {
                } else if j == 1 {
                } else {
                    assert(fv[2].0 == "version"@);
                }
            }
            lemma_lookup_at(fv, "description"@, 3);
            assert forall|j: int| 0 <= j < 4 implies fv[j].0 != "hash"@ by {
                if j == 0 {
                } else if j == 1 {
                } else if j == 2 {
                } else {
                    assert(fv[3].0 == "description"@);
                }
            }
            lemma_lookup_at(fv, "hash"@, 4);
            assert forall|j: int| 0 <= j < 5 implies fv[j].0 != "dependencies"@ by {
                if j == 0 {
                } else if j == 1 {
                } else if j == 2 {
                } else if j == 3 {
                } else {
                    assert(fv[4].0 == "hash"@);
                }
            }
            lemma_lookup_at(fv, "dependencies"@, 5);
            assert(deps_field(fv) == Some(self@.dependencies));
        }
        JsonDoc::Object(fields)
    }

    /// Read one package descriptor from its document form.
    pub fn from_doc(d: &JsonDoc) -> (r: CoreResult<PackageInfo>)
        ensures
            match r {
                Ok(p) => pkg_of_doc(d@) == Some(p@),
                Err(e) => pkg_of_doc(d@) is None && (e matches CoreError::JsonError(m)
                    && m@.len() > 0),
            },
    {
        let fields = match d {
            JsonDoc::Object(f) => f,
            _ => {
                return Err(json_err());
            },
        };
        let package_name = match get_field(fields, "package_name") {
            Some(JsonDoc::Text(s)) => s.clone(),
            _ => {
                return Err(json_err());
            },
        };
        let file_name = match get_field(fields, "file_name") {
            Some(JsonDoc::Text(s)) => s.clone(),
            _ => {
                return Err(json_err());
            },
        };
        let version = match get_field(fields, "version") {
            Some(JsonDoc::Text(s)) => s.clone(),
            _ => {
                return Err(json_err());
            },
        };
        let description = match get_field(fields, "description") {
            Some(JsonDoc::Text(s)) => s.clone(),
            _ => {
                return Err(json_err());
            },
        };
        let hash = match get_field(fields, "hash") {
            Some(JsonDoc::Text(s)) => s.clone(),
            _ => {
                return Err(json_err());
            },
        };
        let dependencies = match get_field(fields, "dependencies") {
            None => None,
            Some(JsonDoc::Null) => None,
            Some(JsonDoc::List(items)) => match deps_from_list(items) {
                Ok(ds) => Some(ds),
                Err(e) => {
                    return Err(e);
                },
            },
            Some(_) => {
                return Err(json_err());
            },
        };
        Ok(PackageInfo { package_name, file_name, version, description, hash, dependencies })
    }
}

/// A packages object with one field that reads as no entry reads as nothing.
proof fn lemma_packages_none(fields: Seq<(Seq<char>, DocView)>, j: int)
    requires
        0 <= j < fields.len(),
        entry_of_doc(fields[j].1) is None,
    ensures
        packages_of_fields(fields) is None,
    decreases fields.len(),
{
    if j < fields.len() - 1 {
        lemma_packages_none(fields.drop_last(), j);
    }
}

impl RepoInfo {
    /// The registry's document form: one field per package under the
    /// top-level `packages` object.  Reading the document back yields
    /// exactly this registry's package map: the round trip over the
    /// document format is the identity on the map.
    pub fn to_doc(&self) -> (r: JsonDoc)
        requires
            self.wf(),
        ensures
            registry_of_doc(r@) == Some(self@),
    {
        let pairs = self.get_package_handler();
        let n = pairs.len();
        let mut pkg_fields: Vec<(String, JsonDoc)> = Vec::new();
        for i in 0..n
            invariant
                n == pairs@.len(),
                pkg_fields@.len() == i,
                packages_of_fields(fields_view(pkg_fields@)) == Some(
                    entries_map(pairs@.subrange(0, i as int)),
                ),
        {
            let doc = pairs[i].1.to_doc();
            let ghost prevf = pkg_fields@;
            pkg_fields.push((pairs[i].0.clone(), doc));
            proof {
                assert(fields_view(pkg_fields@).drop_last() =~= fields_view(prevf));
                assert(fields_view(pkg_fields@).last() == (pairs@[i as int].0@, doc@));
                assert(pairs@.subrange(0, i + 1).drop_last() =~= pairs@.subrange(0, i as int));
                assert(pairs@.subrange(0, i + 1).last() == pairs@[i as int]);
            }
        }
        proof {
            assert(pairs@.subrange(0, n as int) =~= pairs@);
        }
        let mut top: Vec<(String, JsonDoc)> = Vec::new();
        top.push(("packages".to_owned(), JsonDoc::Object(pkg_fields)));
        proof {
            let tv = fields_view(top@);
            lemma_lookup_at(tv, "packages"@, 0);
        }
        JsonDoc::Object(top)
    }

    /// Read a registry from its document form.  Any malformed piece is a
    /// format error and nothing is returned; a later binding of a package
    /// name overrides an earlier one.
    pub fn from_doc(d: &JsonDoc) -> (r: CoreResult<RepoInfo>)
        ensures
            match r {
                Ok(reg) => registry_of_doc(d@) == Some(reg@) && reg.wf(),
                Err(e) => registry_of_doc(d@) is None && (e matches CoreError::JsonError(m)
                    && m@.len() > 0),
            },
    {
        let top = match d {
            JsonDoc::Object(f) => f,
            _ => {
                return Err(json_err());
            },
        };
        let pkgs_doc = match get_field(top, "packages") {
            Some(doc2) => doc2,
            None => {
                return Err(json_err());
            },
        };
        let pkgs = match pkgs_doc {
            JsonDoc::Object(f) => f,
            _ => {
                return Err(json_err());
            },
        };
        proof {
            assert(registry_of_doc(d@) == packages_of_fields(fields_view(pkgs@)));
        }
        let n = pkgs.len();
        let mut reg = RepoInfo::new();
        for i in 0..n
            invariant
                n == pkgs@.len(),
                reg.wf(),
                registry_of_doc(d@) == packages_of_fields(fields_view(pkgs@)),
                packages_of_fields(fields_view(pkgs@).subrange(0, i as int)) == Some(reg@),
        {
            let info = match PackageBasicInfo::from_doc(&pkgs[i].1) {
                Ok(p) => p,
                Err(e) => {
                    proof {
                        assert(fields_view(pkgs@)[i as int].1 == pkgs@[i as int].1@);
                        lemma_packages_none(fields_view(pkgs@), i as int);
                        assert(registry_of_doc(d@) is None);
                    }
                    return Err(json_err());
                },
            };
            reg.add_package_with_info(pkgs[i].0.clone(), info);
            proof {
                assert(fields_view(pkgs@).subrange(0, i + 1).drop_last() =~= fields_view(
                    pkgs@,
                ).subrange(0, i as int));
                assert(fields_view(pkgs@).subrange(0, i + 1).last() == fields_view(
                    pkgs@,
                )[i as int]);
            }
        }
        proof {
            assert(fields_view(pkgs@).subrange(0, n as int) =~= fields_view(pkgs@));
        }
        Ok(reg)
    }
}

} // verus!
