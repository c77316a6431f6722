//! Project manifest (`.wefc`) objects and the read / merge operations on them.
//!
//! A manifest tracks the tool outputs of a project container as WeFC JSON
//! objects identified by `guid`. Each object is held with the string fields
//! that the merge logic reads (`guid`, `type`, `path`) next to the JSON value
//! itself, which is carried through unchanged.

use vstd::prelude::*;

use crate::container::DEFAULT_MANIFEST_FILENAME;
use crate::seqs::{first_index, lemma_first_index, lemma_first_index_skip};
use crate::timestamp::{iso8601_text, now_iso8601};

verus! {

#[verifier::external_type_specification]
#[verifier::external_body]
pub struct ExJsonValue(serde_json::Value);

/// The string held under `key` in the JSON value `value`, as
/// `serde_json::Value::get` and `as_str` find it: `None` when `value` is not
/// an object, has no such key, or holds something other than a string there.
pub uninterp spec fn json_str_at(value: serde_json::Value, key: Seq<char>) -> Option<Seq<char>>;

/// The string held under `key` in the JSON object `value`, if there is one.
///
/// Calls `serde_json::Value::get` and `serde_json::Value::as_str`; the result
/// depends on the value and the key alone and is named [`json_str_at`].
#[verifier::external_body]
fn json_str_field(value: &serde_json::Value, key: &str) -> (r: Option<String>)
    ensures
        opt_view(r) == json_str_at(*value, key@),
{
    match value.get(key) {
        Some(v) => match v.as_str() {
            Some(s) => Some(s.to_string()),
            None => None,
        },
        None => None,
    }
}

/// Sixteen bytes from the operating system's random source, or `None` when
/// that source fails.
///
/// Calls `getrandom::fill`, which reports a failure as an error rather than
/// panicking. The bytes are random, so nothing is stated of them.
#[verifier::external_body]
fn random_bytes() -> (r: Option<[u8; 16]>) {
    let mut buf = [0u8; 16];
    match getrandom::fill(&mut buf) {
        Ok(()) => Some(buf),
        Err(_) => None,
    }
}

/// The lower-case hexadecimal digit for `d < 16`.
pub open spec fn hex_lower(d: int) -> char {
    if d < 10 {
        ((48 + d) as u32) as char
    } else {
        ((87 + d) as u32) as char
    }
}

/// The bytes of a version 4 UUID made from `b`: the high half of byte 6 is
/// the version 4, the top two bits of byte 8 are the variant `10`.
pub open spec fn v4_bytes(b: Seq<u8>) -> Seq<u8> {
    b.update(6, (b[6] % 16 + 64) as u8).update(8, (b[8] % 64 + 128) as u8)
}

/// Hyphens that come before position `i` of the hyphenated text.
pub open spec fn hyphens_before(i: int) -> int {
    if i < 8 {
        0
    } else if i < 13 {
        1
    } else if i < 18 {
        2
    } else if i < 23 {
        3
    } else {
        4
    }
}

/// The `n`th half-byte of `b`, high half first.
pub open spec fn nibble(b: Seq<u8>, n: int) -> int {
    if n % 2 == 0 {
        (b[n / 2] / 16) as int
    } else {
        (b[n / 2] % 16) as int
    }
}

/// The hyphenated lower-case text of the 16 bytes `b`
/// (`xxxxxxxx-xxxx-xxxx-xxxx-xxxxxxxxxxxx`).
pub open spec fn uuid_text(b: Seq<u8>) -> Seq<char> {
    Seq::new(
        36,
        |i: int|
            if i == 8 || i == 13 || i == 18 || i == 23 {
                '-'
            } else {
                hex_lower(nibble(b, i - hyphens_before(i)))
            },
    )
}

/// The text of the version 4 UUID made from the random bytes `random`.
///
/// Calls `uuid::Builder::from_random_bytes`, which sets the version and
/// variant bits (`(b6 & 0x0f) | 0x40`, `(b8 & 0x3f) | 0x80`), and formats the
/// UUID with `Display`, which writes it hyphenated in lower-case hex; that is
/// what the contract states.
#[verifier::external_body]
fn uuid_v4_text(random: [u8; 16]) -> (r: String)
    ensures
        r@ == uuid_text(v4_bytes(random@)),
{
    uuid::Builder::from_random_bytes(random).into_uuid().to_string()
}

/// The text of a version 4 UUID has the version 4 form.
pub proof fn lemma_uuid_text_form(b: Seq<u8>)
    requires
        b.len() == 16,
    ensures
        is_uuid_text(uuid_text(v4_bytes(b))),
{
    let v = v4_bytes(b);
    let t = uuid_text(v);
    assert forall|i: int| 0 <= i < 36 && !(i == 8 || i == 13 || i == 18 || i == 23) implies is_lower_hex(
        #[trigger] t[i],
    ) by {
        let n = i - hyphens_before(i);
        assert(0 <= n < 32);
        assert(0 <= n / 2 < 16);
        let d = nibble(v, n);
        assert(0 <= d < 16);
    }
    assert(v[6] == (b[6] % 16 + 64) as u8);
    assert(nibble(v, 12) == 4);
}

/// A lower-case hexadecimal digit.
pub open spec fn is_lower_hex(c: char) -> bool {
    ('0' <= c && c <= '9') || ('a' <= c && c <= 'f')
}

/// The hyphenated text form of a version 4 UUID.
pub open spec fn is_uuid_text(s: Seq<char>) -> bool {
    &&& s.len() == 36
    &&& forall|i: int|
        0 <= i < 36 ==> if i == 8 || i == 13 || i == 18 || i == 23 {
            s[i] == '-'
        } else {
            is_lower_hex(#[trigger] s[i])
        }
    &&& s[14] == '4'
}

/// The characters of an optional string.
pub open spec fn opt_view(o: Option<String>) -> Option<Seq<char>> {
    match o {
        Some(s) => Some(s@),
        None => None,
    }
}

/// A data object of a manifest: a JSON value with its `guid`, `type` and
/// `path` string fields read out (each `None` when the value has no such
/// string field).
pub struct ManifestObject {
    guid: Option<String>,
    object_type: Option<String>,
    path: Option<String>,
    value: serde_json::Value,
}

impl ManifestObject {
    /// The read-out fields are those of the JSON value.
    #[verifier::type_invariant]
    spec fn fields_match(self) -> bool {
        &&& opt_view(self.guid) == json_str_at(self.value, "guid"@)
        &&& opt_view(self.object_type) == json_str_at(self.value, "type"@)
        &&& opt_view(self.path) == json_str_at(self.value, "path"@)
    }

    /// The whole JSON value.
    pub closed spec fn json(&self) -> serde_json::Value {
        self.value
    }

    /// The object's `guid` string field.
    pub closed spec fn guid_view(&self) -> Option<Seq<char>> {
        opt_view(self.guid)
    }

    /// The object's `type` string field.
    pub closed spec fn type_view(&self) -> Option<Seq<char>> {
        opt_view(self.object_type)
    }

    /// The object's `path` string field.
    pub closed spec fn path_view(&self) -> Option<Seq<char>> {
        opt_view(self.path)
    }

    /// The object's guid is `g`.
    pub open spec fn has_guid(&self, g: Seq<char>) -> bool {
        self.guid_view() == Some(g)
    }

    /// The object's type is `t`.
    pub open spec fn has_type(&self, t: Seq<char>) -> bool {
        self.type_view() == Some(t)
    }

    /// The object's path is `p`.
    pub open spec fn has_path(&self, p: Seq<char>) -> bool {
        self.path_view() == Some(p)
    }

    /// Reads the `guid`, `type` and `path` string fields out of a JSON object.
    pub fn from_value(value: serde_json::Value) -> (r: ManifestObject)
        ensures
            r.json() == value,
            r.guid_view() == json_str_at(value, "guid"@),
            r.type_view() == json_str_at(value, "type"@),
            r.path_view() == json_str_at(value, "path"@),
    {
        let guid = json_str_field(&value, "guid");
        let object_type = json_str_field(&value, "type");
        let path = json_str_field(&value, "path");
        ManifestObject { guid, object_type, path, value }
    }

    /// The `guid` string field of the JSON value.
    pub fn guid(&self) -> (r: Option<&str>)
        ensures
            match r {
                Some(s) => self.guid_view() == Some(s@),
                None => self.guid_view() is None,
            },
            self.guid_view() == json_str_at(self.json(), "guid"@),
    {
        proof {
            use_type_invariant(self);
        }
        match &self.guid {
            Some(g) => Some(g.as_str()),
            None => None,
        }
    }

    /// The `type` string field of the JSON value.
    pub fn object_type(&self) -> (r: Option<&str>)
        ensures
            match r {
                Some(s) => self.type_view() == Some(s@),
                None => self.type_view() is None,
            },
            self.type_view() == json_str_at(self.json(), "type"@),
    {
        proof {
            use_type_invariant(self);
        }
        match &self.object_type {
            Some(t) => Some(t.as_str()),
            None => None,
        }
    }

    /// The `path` string field of the JSON value.
    pub fn path(&self) -> (r: Option<&str>)
        ensures
            match r {
                Some(s) => self.path_view() == Some(s@),
                None => self.path_view() is None,
            },
            self.path_view() == json_str_at(self.json(), "path"@),
    {
        proof {
            use_type_invariant(self);
        }
        match &self.path {
            Some(p) => Some(p.as_str()),
            None => None,
        }
    }

    /// The whole JSON value.
    pub fn value(&self) -> (r: &serde_json::Value)
        ensures
            *r == self.json(),
    {
        &self.value
    }

    /// The whole JSON value, taken out of the object.
    pub fn into_value(self) -> (r: serde_json::Value)
        ensures
            r == self.json(),
    {
        self.value
    }
}

/// Manifest header with schema info and last-write metadata.
pub struct ManifestHeader {
    /// Always `"WeFC"`.
    pub schema: String,
    /// Schema version.
    pub schema_version: String,
    /// Unique file identifier (UUID v4).
    pub file_id: String,
    /// Optional human-readable description.
    pub description: Option<String>,
    /// ISO 8601 timestamp of last modification.
    pub timestamp: String,
    /// Tool name that last wrote the manifest.
    pub application: String,
    /// Version of the application that last wrote the manifest.
    pub application_version: Option<String>,
}

/// A project manifest (`.wefc` file).
pub struct ProjectManifest {
    pub header: ManifestHeader,
    pub data: Vec<ManifestObject>,
}

// ── Model of the data operations ────────────────────────────

/// Index of the first object with guid `g`, or -1.
pub open spec fn guid_index(data: Seq<ManifestObject>, g: Seq<char>) -> int {
    first_index(data, |o: ManifestObject| o.has_guid(g))
}

/// Index of the first object with path `p`, or -1.
pub open spec fn path_index(data: Seq<ManifestObject>, p: Seq<char>) -> int {
    first_index(data, |o: ManifestObject| o.has_path(p))
}

/// Index of the object that `obj` replaces when it is added, or -1 when it is appended.
pub open spec fn upsert_index(data: Seq<ManifestObject>, obj: ManifestObject) -> int {
    match obj.guid_view() {
        Some(g) => guid_index(data, g),
        None => -1,
    }
}

/// The data after adding `obj`: it replaces the first object with the same
/// guid, or is appended when there is none (or it has no guid).
pub open spec fn upsert_data(data: Seq<ManifestObject>, obj: ManifestObject) -> Seq<ManifestObject> {
    let i = upsert_index(data, obj);
    if i >= 0 {
        data.update(i, obj)
    } else {
        data.push(obj)
    }
}

/// The data without every object whose guid is `g`, in the same order.
pub open spec fn without_guid(data: Seq<ManifestObject>, g: Seq<char>) -> Seq<ManifestObject>
    decreases data.len(),
{
    if data.len() == 0 {
        data
    } else {
        let rest = without_guid(data.drop_first(), g);
        if data[0].has_guid(g) { rest } else { seq![data[0]] + rest }
    }
}

/// The objects whose type is `t`, in order.
pub open spec fn objects_of_type(data: Seq<ManifestObject>, t: Seq<char>) -> Seq<ManifestObject>
    decreases data.len(),
{
    if data.len() == 0 {
        data
    } else {
        let rest = objects_of_type(data.drop_first(), t);
        if data[0].has_type(t) { seq![data[0]] + rest } else { rest }
    }
}

/// The header after a write: only the timestamp changed, to the current time.
pub open spec fn touched(old: ManifestHeader, new: ManifestHeader) -> bool {
    &&& new.schema == old.schema
    &&& new.schema_version == old.schema_version
    &&& new.file_id == old.file_id
    &&& new.description == old.description
    &&& new.application == old.application
    &&& new.application_version == old.application_version
    &&& exists|secs: nat| new.timestamp@ == iso8601_text(secs)
}

} // verus!

verus! {

/// Whether the optional string is present and equal to `s`.
fn opt_eq(o: &Option<String>, s: &str) -> (r: bool)
    ensures
        r == (opt_view(*o) == Some(s@)),
{
    match o {
        Some(x) => crate::text::str_eq(x.as_str(), s),
        None => false,
    }
}

/// Position of the first object whose guid is `g`.
fn find_guid_position(data: &Vec<ManifestObject>, g: &str) -> (r: Option<usize>)
    ensures
        match r {
            Some(i) => i < data@.len() && i as int == guid_index(data@, g@),
            None => guid_index(data@, g@) == -1,
        },
{
    let ghost p = |o: ManifestObject| o.has_guid(g@);
    let mut i: usize = 0;
    while i < data.len()
        invariant
            i <= data@.len(),
            p == (|o: ManifestObject| o.has_guid(g@)),
            forall|j: int| 0 <= j < i ==> !p(#[trigger] data@[j]),
        decreases data@.len() - i,
    {
        if opt_eq(&data[i].guid, g) {
            proof {
                lemma_first_index_skip(data@, p, i as int);
            }
            return Some(i);
        }
        i = i + 1;
    }
    proof {
        lemma_first_index_skip(data@, p, i as int);
    }
    None
}

} // verus!

verus! {

impl ProjectManifest {
    /// Create a new empty manifest for a given application, with the
    /// version 4 UUID made from `random` as its `fileId` and the current time.
    pub fn from_random(application: &str, random: [u8; 16]) -> (r: ProjectManifest)
        ensures
            r.header.schema@ == "WeFC"@,
            r.header.schema_version@ == "1.0.0"@,
            r.header.file_id@ == uuid_text(v4_bytes(random@)),
            is_uuid_text(r.header.file_id@),
            r.header.description is None,
            exists|secs: nat| r.header.timestamp@ == iso8601_text(secs),
            r.header.application@ == application@,
            r.header.application_version is None,
            r.data@.len() == 0,
    {
        proof {
            lemma_uuid_text_form(random@);
        }
        ProjectManifest {
            header: ManifestHeader {
                schema: "WeFC".to_string(),
                schema_version: "1.0.0".to_string(),
                file_id: uuid_v4_text(random),
                description: None,
                timestamp: now_iso8601(),
                application: application.to_string(),
                application_version: None,
            },
            data: Vec::new(),
        }
    }

    /// Create a new empty manifest for a given application.
    ///
    /// The header gets a fresh random UUID v4 `fileId` and the current time
    /// (see [`ProjectManifest::from_random`]); `None` when the operating
    /// system's random source fails.
    pub fn new(application: &str) -> (r: Option<ProjectManifest>)
        ensures
            r matches Some(m) ==> {
                &&& m.header.schema@ == "WeFC"@
                &&& m.header.schema_version@ == "1.0.0"@
                &&& exists|random: Seq<u8>| random.len() == 16 && m.header.file_id@ == uuid_text(v4_bytes(random))
                &&& is_uuid_text(m.header.file_id@)
                &&& m.header.description is None
                &&& exists|secs: nat| m.header.timestamp@ == iso8601_text(secs)
                &&& m.header.application@ == application@
                &&& m.header.application_version is None
                &&& m.data@.len() == 0
            },
    {
        match random_bytes() {
            Some(random) => Some(ProjectManifest::from_random(application, random)),
            None => None,
        }
    }

    /// Number of objects in the manifest.
    pub fn len(&self) -> (r: usize)
        ensures
            r == self.data@.len(),
    {
        self.data.len()
    }

    /// Whether the manifest has no data objects.
    pub fn is_empty(&self) -> (r: bool)
        ensures
            r == (self.data@.len() == 0),
    {
        self.data.len() == 0
    }

    /// The default filename for project manifests (`project.wefc`).
    pub fn default_filename() -> (r: &'static str)
        ensures
            r@ == DEFAULT_MANIFEST_FILENAME@,
    {
        DEFAULT_MANIFEST_FILENAME
    }

    /// The default filename for project manifests (`project.wefc`); the
    /// same as [`ProjectManifest::default_filename`].
    pub fn filename() -> (r: &'static str)
        ensures
            r@ == DEFAULT_MANIFEST_FILENAME@,
    {
        DEFAULT_MANIFEST_FILENAME
    }

    /// Find all objects whose `type` is `kind`, in order.
    pub fn find_by_type(&self, kind: &str) -> (r: Vec<&ManifestObject>)
        ensures
            r@.map_values(|o: &ManifestObject| *o) == objects_of_type(self.data@, kind@),
    {
        let mut r: Vec<&ManifestObject> = Vec::new();
        let n = self.data.len();
        let mut i: usize = n;
        // Collect from the back so that the result follows the model's recursion.
        let mut rev: Vec<&ManifestObject> = Vec::new();
        while i > 0
            invariant
                n == self.data@.len(),
                i <= n,
                rev@.map_values(|o: &ManifestObject| *o).reverse()
                    == objects_of_type(self.data@.skip(i as int), kind@),
            decreases i,
        {
            i = i - 1;
            let obj = &self.data[i];
            proof {
                let s = self.data@.skip(i as int);
                assert(s.drop_first() =~= self.data@.skip(i + 1));
                assert(s[0] == self.data@[i as int]);
            }
            if opt_eq(&obj.object_type, kind) {
                rev.push(obj);
                assert(rev@.map_values(|o: &ManifestObject| *o).reverse() =~= seq![*obj]
                    + rev@.drop_last().map_values(|o: &ManifestObject| *o).reverse());
            }
        }
        assert(self.data@.skip(0) =~= self.data@);
        let m = rev.len();
        let mut j: usize = m;
        while j > 0
            invariant
                m == rev@.len(),
                j <= m,
                r@.map_values(|o: &ManifestObject| *o) =~= rev@.map_values(
                    |o: &ManifestObject| *o,
                ).reverse().take((m - j) as int),
            decreases j,
        {
            j = j - 1;
            r.push(rev[j]);
            assert(rev@.map_values(|o: &ManifestObject| *o).reverse().take((m - j) as int)
                =~= rev@.map_values(|o: &ManifestObject| *o).reverse().take((m - j - 1) as int).push(*rev@[j as int]));
        }
        assert(rev@.map_values(|o: &ManifestObject| *o).reverse().take(m as int)
            =~= rev@.map_values(|o: &ManifestObject| *o).reverse());
        r
    }

    /// Find the first object whose `guid` is `guid`.
    pub fn find_by_guid(&self, guid: &str) -> (r: Option<&ManifestObject>)
        ensures
            match r {
                Some(o) => {
                    &&& guid_index(self.data@, guid@) >= 0
                    &&& *o == self.data@[guid_index(self.data@, guid@)]
                },
                None => guid_index(self.data@, guid@) == -1,
            },
    {
        match find_guid_position(&self.data, guid) {
            Some(i) => Some(&self.data[i]),
            None => None,
        }
    }

    /// Find the first object whose `path` is `path`.
    ///
    /// Useful for merge-by-path instead of merge-by-guid when correlating
    /// objects across multiple manifest files.
    pub fn find_by_path(&self, path: &str) -> (r: Option<&ManifestObject>)
        ensures
            match r {
                Some(o) => {
                    &&& path_index(self.data@, path@) >= 0
                    &&& *o == self.data@[path_index(self.data@, path@)]
                },
                None => path_index(self.data@, path@) == -1,
            },
    {
        let ghost p = |o: ManifestObject| o.has_path(path@);
        let mut i: usize = 0;
        while i < self.data.len()
            invariant
                i <= self.data@.len(),
                p == (|o: ManifestObject| o.has_path(path@)),
                forall|j: int| 0 <= j < i ==> !p(#[trigger] self.data@[j]),
            decreases self.data@.len() - i,
        {
            if opt_eq(&self.data[i].path, path) {
                proof {
                    lemma_first_index_skip(self.data@, p, i as int);
                }
                return Some(&self.data[i]);
            }
            i = i + 1;
        }
        proof {
            lemma_first_index_skip(self.data@, p, i as int);
        }
        None
    }

    /// Set the header timestamp to the current time.
    fn touch(&mut self)
        ensures
            touched(old(self).header, final(self).header),
            final(self).data == old(self).data,
    {
        self.header.timestamp = now_iso8601();
    }

    /// Add a new object or update an existing one (matched by `guid`).
    ///
    /// Returns `true` if an existing object was replaced, `false` if `object`
    /// was appended. Either way the header timestamp is set to now.
    pub fn add_or_update(&mut self, object: ManifestObject) -> (r: bool)
        ensures
            r == (upsert_index(old(self).data@, object) >= 0),
            final(self).data@ == upsert_data(old(self).data@, object),
            touched(old(self).header, final(self).header),
    {
        let pos = match &object.guid {
            Some(g) => find_guid_position(&self.data, g.as_str()),
            None => None,
        };
        match pos {
            Some(i) => {
                self.data.set(i, object);
                self.touch();
                true
            },
            None => {
                self.data.push(object);
                self.touch();
                false
            },
        }
    }

    /// Remove every object whose `guid` is `guid`. Returns `true` if any was removed.
    ///
    /// The header timestamp is set to now only when something was removed.
    pub fn remove_by_guid(&mut self, guid: &str) -> (r: bool)
        ensures
            r == (guid_index(old(self).data@, guid@) >= 0),
            final(self).data@ == without_guid(old(self).data@, guid@),
            r ==> touched(old(self).header, final(self).header),
            !r ==> final(self).header == old(self).header,
    {
        let ghost orig = self.data@;
        let ghost p = |o: ManifestObject| o.has_guid(guid@);
        let mut rest: Vec<ManifestObject> = Vec::new();
        std::mem::swap(&mut rest, &mut self.data);
        let mut kept: Vec<ManifestObject> = Vec::new();
        let mut removed = false;
        let n = rest.len();
        let mut k: usize = 0;
        assert(orig.skip(0) =~= orig);
        while k < n
            invariant
                n == orig.len(),
                k <= n,
                rest@ == orig.skip(k as int),
                kept@ + without_guid(rest@, guid@) == without_guid(orig, guid@),
                p == (|o: ManifestObject| o.has_guid(guid@)),
                removed == (exists|j: int| 0 <= j < k && p(#[trigger] orig[j])),
                self.header == old(self).header,
            decreases n - k,
        {
            let ghost before = rest@;
            let x = rest.remove(0);
            assert(before.drop_first() =~= rest@);
            assert(rest@ =~= orig.skip(k + 1));
            assert(x == orig[k as int]);
            if opt_eq(&x.guid, guid) {
                removed = true;
            } else {
                kept.push(x);
                assert(kept@ + without_guid(rest@, guid@) =~= kept@.drop_last() + without_guid(
                    before,
                    guid@,
                ));
            }
            k = k + 1;
        }
        assert(kept@ + without_guid(rest@, guid@) =~= kept@);
        self.data = kept;
        proof {
            lemma_first_index(orig, p);
            if removed {
                let j = choose|j: int| 0 <= j < n && p(#[trigger] orig[j]);
                assert(p(orig[j]));
            }
        }
        if removed {
            self.touch();
        }
        removed
    }
}

} // verus!

verus! {

/// After adding an object with guid `g`, looking up `g` finds that object.
pub proof fn law_upsert_then_find(data: Seq<ManifestObject>, obj: ManifestObject, g: Seq<char>)
    requires
        obj.has_guid(g),
    ensures
        guid_index(upsert_data(data, obj), g) >= 0,
        upsert_data(data, obj)[guid_index(upsert_data(data, obj), g)] == obj,
{
    let p = |o: ManifestObject| o.has_guid(g);
    let d2 = upsert_data(data, obj);
    lemma_first_index(data, p);
    let i = guid_index(data, g);
    if i >= 0 {
        assert forall|j: int| 0 <= j < i implies !p(#[trigger] d2[j]) by {
            assert(d2[j] == data[j]);
        }
        lemma_first_index_skip(d2, p, i);
    } else {
        assert forall|j: int| 0 <= j < data.len() implies !p(#[trigger] d2[j]) by {
            assert(d2[j] == data[j]);
        }
        lemma_first_index_skip(d2, p, data.len() as int);
    }
}

/// Adding an object replaces one object (length unchanged) or appends one.
pub proof fn law_upsert_len(data: Seq<ManifestObject>, obj: ManifestObject)
    ensures
        upsert_data(data, obj).len() == data.len() + if upsert_index(data, obj) >= 0 { 0int } else { 1int },
{
    if let Some(g) = obj.guid_view() {
        lemma_first_index(data, |o: ManifestObject| o.has_guid(g));
    }
}

/// Adding the same object twice leaves the data as adding it once, for an
/// object that has a guid (one without a guid is appended each time).
pub proof fn law_upsert_idempotent(data: Seq<ManifestObject>, obj: ManifestObject)
    requires
        obj.guid_view() is Some,
    ensures
        upsert_data(upsert_data(data, obj), obj) == upsert_data(data, obj),
{
    let g = obj.guid_view()->0;
    let d1 = upsert_data(data, obj);
    law_upsert_then_find(data, obj, g);
    let i = guid_index(d1, g);
    lemma_first_index(d1, |o: ManifestObject| o.has_guid(g));
    assert(d1.update(i, obj) =~= d1);
}

/// After removing guid `g`, no object with guid `g` is left.
pub proof fn law_remove_then_find(data: Seq<ManifestObject>, g: Seq<char>)
    ensures
        guid_index(without_guid(data, g), g) == -1,
    decreases data.len(),
{
    if data.len() > 0 {
        law_remove_then_find(data.drop_first(), g);
        let rest = without_guid(data.drop_first(), g);
        assert((seq![data[0]] + rest).drop_first() =~= rest);
    }
}

/// Removing guid `g` keeps every other object, in order: the result is the
/// data filtered to the objects whose guid is not `g`.
pub proof fn law_remove_keeps_others(data: Seq<ManifestObject>, g: Seq<char>)
    ensures
        without_guid(data, g) == data.filter(|o: ManifestObject| !o.has_guid(g)),
    decreases data.len(),
{
    reveal(Seq::filter);
    let p = |o: ManifestObject| !o.has_guid(g);
    if data.len() > 0 {
        law_remove_keeps_others(data.drop_first(), g);
        data.drop_first().lemma_filter_prepend(data[0], p);
        assert(data =~= seq![data[0]] + data.drop_first());
        if p(data[0]) {
            assert(seq![data[0]] + without_guid(data.drop_first(), g) =~= seq![data[0]] + data.drop_first().filter(p));
        } else {
            assert(Seq::<ManifestObject>::empty() + data.drop_first().filter(p) =~= data.drop_first().filter(p));
        }
    }
}

/// Removing a guid that was just added as a new object undoes the addition.
pub proof fn law_remove_undoes_new_upsert(data: Seq<ManifestObject>, obj: ManifestObject, g: Seq<char>)
    requires
        obj.has_guid(g),
        guid_index(data, g) == -1,
    ensures
        without_guid(upsert_data(data, obj), g) == data,
{
    lemma_no_guid_removal(data, g);
    lemma_without_guid_push(data, obj, g);
}

/// Removing a guid that no object has changes nothing.
proof fn lemma_no_guid_removal(data: Seq<ManifestObject>, g: Seq<char>)
    requires
        guid_index(data, g) == -1,
    ensures
        without_guid(data, g) == data,
    decreases data.len(),
{
    if data.len() > 0 {
        lemma_no_guid_removal(data.drop_first(), g);
        assert(data =~= seq![data[0]] + data.drop_first());
    }
}

/// Removing guid `g` after appending an object with guid `g`.
proof fn lemma_without_guid_push(data: Seq<ManifestObject>, obj: ManifestObject, g: Seq<char>)
    requires
        obj.has_guid(g),
    ensures
        without_guid(data.push(obj), g) == without_guid(data, g),
    decreases data.len(),
{
    if data.len() == 0 {
        assert(data.push(obj).drop_first() =~= data);
    } else {
        lemma_without_guid_push(data.drop_first(), obj, g);
        assert(data.push(obj).drop_first() =~= data.drop_first().push(obj));
    }
}

} // verus!
