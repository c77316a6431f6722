//! Multi-tenant configuration: one Nextcloud instance per tenant.

use vstd::prelude::*;

use crate::paths::{answered, join_path, path_join};
use crate::timestamp::{decimal, format_padded, padded_decimal};
use crate::CloudError;

verus! {

/// Configuration for a single tenant.
pub struct TenantConfig {
    /// Short identifier (e.g. `"3bm"`).
    pub slug: String,
    /// Display name (e.g. `"3BM Cooperatie"`).
    pub name: String,
    /// Internal Nextcloud URL (e.g. `"http://nc-3bm:80"`).
    pub nextcloud_url: String,
    /// Public Nextcloud domain (e.g. `"cloud-3bm.open-aec.com"`).
    pub nextcloud_domain: String,
    /// Service account username.
    pub service_user: String,
    /// Service account password.
    pub service_pass: String,
    /// Group Folder ID in Nextcloud (default: 1).
    pub group_folder_id: u32,
    /// Volume mount path (e.g. `"/nc-data-3bm"`).
    pub volume_mount: String,
}

/// `{volume_mount}/__groupfolders/{group_folder_id}/files`.
pub open spec fn projects_root_of(volume_mount: Seq<char>, group_folder_id: u32) -> Seq<char> {
    path_join(
        path_join(path_join(volume_mount, "__groupfolders"@), decimal(group_folder_id as nat)),
        "files"@,
    )
}

impl TenantConfig {
    /// Path to the Group Folder files root on the volume mount.
    pub fn projects_root(&self) -> (r: String)
        ensures
            r@ == projects_root_of(self.volume_mount@, self.group_folder_id),
    {
        let id = format_padded(self.group_folder_id as u64, 0);
        assert(padded_decimal(self.group_folder_id as nat, 0) == decimal(self.group_folder_id as nat));
        let a = join_path(self.volume_mount.as_str(), "__groupfolders");
        let b = join_path(a.as_str(), id.as_str());
        join_path(b.as_str(), "files")
    }

    /// Whether the volume mount is accessible: it is configured and `is_dir`
    /// finds its projects root to be a directory.
    pub fn has_volume_mount<D: Fn(&str) -> bool>(&self, is_dir: &D) -> (r: bool)
        requires
            forall|d: &str| is_dir.requires((d,)),
        ensures
            self.volume_mount@.len() == 0 ==> !r,
            self.volume_mount@.len() > 0 ==> answered(
                *is_dir,
                projects_root_of(self.volume_mount@, self.group_folder_id),
                r,
            ),
    {
        if self.volume_mount.unicode_len() == 0 {
            return false;
        }
        let root = self.projects_root();
        let r = is_dir(root.as_str());
        assert(answered(*is_dir, root@, r));
        r
    }
}

} // verus!

verus! {

/// A tenant entry as written in `tenants.json`, before defaults are applied.
pub struct RawTenant {
    pub name: Option<String>,
    pub nextcloud_url: String,
    pub nextcloud_domain: Option<String>,
    pub service_user: Option<String>,
    /// Name of the environment variable that holds the service password.
    pub service_pass_env: String,
    pub group_folder_id: Option<u32>,
}

/// The characters of an optional string, or `default`.
pub open spec fn view_or(o: Option<String>, default: Seq<char>) -> Seq<char> {
    match o {
        Some(s) => s@,
        None => default,
    }
}

/// `t` is the tenant built from entry `raw` under `slug` with password `pass`.
pub open spec fn tenant_from_raw(t: TenantConfig, slug: Seq<char>, raw: RawTenant, pass: Seq<char>) -> bool {
    &&& t.slug@ == slug
    &&& t.name@ == view_or(raw.name, slug)
    &&& t.nextcloud_url@ == raw.nextcloud_url@
    &&& t.nextcloud_domain@ == view_or(raw.nextcloud_domain, Seq::empty())
    &&& t.service_user@ == view_or(raw.service_user, "openaec-service"@)
    &&& t.service_pass@ == pass
    &&& t.group_folder_id == match raw.group_folder_id { Some(id) => id, None => 1u32 }
    &&& t.volume_mount@ == "/nc-data-"@ + slug
}

fn string_or(o: Option<String>, default: &str) -> (r: String)
    ensures
        r@ == view_or(o, default@),
{
    match o {
        Some(s) => s,
        None => default.to_string(),
    }
}

impl TenantConfig {
    /// Build a tenant from its `tenants.json` entry and the value of its
    /// password variable.
    ///
    /// A tenant whose password variable is unset or empty gets no cloud
    /// storage: the result is `None`. Otherwise the optional fields get their
    /// defaults (name: the slug; user: `openaec-service`; group folder: 1) and
    /// the volume mount is `/nc-data-{slug}`.
    pub fn from_raw(slug: &str, raw: RawTenant, password: Option<String>) -> (r: Option<TenantConfig>)
        ensures
            match password {
                Some(p) if p@.len() > 0 => r matches Some(t) && tenant_from_raw(t, slug@, raw, p@),
                _ => r is None,
            },
    {
        let pass = match password {
            Some(p) => {
                if p.unicode_len() == 0 {
                    return None;
                }
                p
            },
            None => {
                return None;
            },
        };
        let mut volume_mount = "/nc-data-".to_string();
        volume_mount.append(slug);
        let group_folder_id = match raw.group_folder_id {
            Some(id) => id,
            None => 1,
        };
        let t = TenantConfig {
            slug: slug.to_string(),
            name: string_or(raw.name, slug),
            nextcloud_url: raw.nextcloud_url,
            nextcloud_domain: {
                proof {
                    reveal_strlit("");
                }
                string_or(raw.nextcloud_domain, "")
            },
            service_user: string_or(raw.service_user, "openaec-service"),
            service_pass: pass,
            group_folder_id,
            volume_mount,
        };
        assert(t.slug@ == slug@);
        assert(t.name@ == view_or(raw.name, slug@));
        assert(t.nextcloud_domain@ == view_or(raw.nextcloud_domain, Seq::empty()));
        assert(t.service_user@ == view_or(raw.service_user, "openaec-service"@));
        assert(t.volume_mount@ == "/nc-data-"@ + slug@);
        assert(t.service_pass@ == password->0@);
        Some(t)
    }
}

} // verus!

verus! {

/// Index of the tenant with slug `slug`, or -1.
pub open spec fn slug_index(tenants: Seq<TenantConfig>, slug: Seq<char>) -> int {
    crate::seqs::first_index(tenants, slug_is(slug))
}

/// The tenant's slug is `slug`.
pub open spec fn slug_is(slug: Seq<char>) -> spec_fn(TenantConfig) -> bool {
    |t: TenantConfig| t.slug@ == slug
}

/// No two tenants share a slug.
pub open spec fn slugs_distinct(tenants: Seq<TenantConfig>) -> bool {
    forall|i: int, j: int|
        0 <= i < tenants.len() && 0 <= j < tenants.len() && i != j ==> #[trigger] tenants[i].slug@
            != #[trigger] tenants[j].slug@
}

/// The tenants after inserting `t`: it replaces the tenant with the same slug,
/// or is appended.
pub open spec fn insert_tenant(tenants: Seq<TenantConfig>, t: TenantConfig) -> Seq<TenantConfig> {
    let i = slug_index(tenants, t.slug@);
    if i >= 0 {
        tenants.update(i, t)
    } else {
        tenants.push(t)
    }
}

/// Registry of all configured tenants, keyed by slug.
pub struct TenantsRegistry {
    tenants: Vec<TenantConfig>,
}

impl TenantsRegistry {
    #[verifier::type_invariant]
    spec fn inv(self) -> bool {
        slugs_distinct(self.tenants@)
    }

    /// The tenants, in the order they were first inserted.
    pub closed spec fn tenants(&self) -> Seq<TenantConfig> {
        self.tenants@
    }

    /// A registry without tenants.
    pub fn new() -> (r: TenantsRegistry)
        ensures
            r.tenants().len() == 0,
    {
        TenantsRegistry { tenants: Vec::new() }
    }

    fn find(&self, slug: &str) -> (r: Option<usize>)
        ensures
            match r {
                Some(i) => i < self.tenants().len() && i as int == slug_index(self.tenants(), slug@),
                None => slug_index(self.tenants(), slug@) == -1,
            },
    {
        let ghost p = slug_is(slug@);
        let mut i: usize = 0;
        while i < self.tenants.len()
            invariant
                i <= self.tenants@.len(),
                p == slug_is(slug@),
                forall|j: int| 0 <= j < i ==> !p(#[trigger] self.tenants@[j]),
            decreases self.tenants@.len() - i,
        {
            if crate::text::str_eq(self.tenants[i].slug.as_str(), slug) {
                proof {
                    crate::seqs::lemma_first_index_skip(self.tenants@, p, i as int);
                }
                return Some(i);
            }
            i = i + 1;
        }
        proof {
            crate::seqs::lemma_first_index_skip(self.tenants@, p, i as int);
        }
        None
    }

    /// The tenant with slug `slug`.
    pub fn get(&self, slug: &str) -> (r: Option<&TenantConfig>)
        ensures
            match r {
                Some(t) => {
                    &&& slug_index(self.tenants(), slug@) >= 0
                    &&& *t == self.tenants()[slug_index(self.tenants(), slug@)]
                },
                None => slug_index(self.tenants(), slug@) == -1,
            },
    {
        match self.find(slug) {
            Some(i) => Some(&self.tenants[i]),
            None => None,
        }
    }

    /// The tenant with slug `slug`, or `NotFound("unknown tenant: {slug}")`.
    pub fn get_or_err(&self, slug: &str) -> (r: Result<&TenantConfig, CloudError>)
        ensures
            match r {
                Ok(t) => {
                    &&& slug_index(self.tenants(), slug@) >= 0
                    &&& *t == self.tenants()[slug_index(self.tenants(), slug@)]
                },
                Err(e) => {
                    &&& slug_index(self.tenants(), slug@) == -1
                    &&& e matches CloudError::NotFound(msg)
                    &&& msg@ == "unknown tenant: "@ + slug@
                },
            },
    {
        match self.get(slug) {
            Some(t) => Ok(t),
            None => {
                let mut msg = "unknown tenant: ".to_string();
                msg.append(slug);
                Err(CloudError::NotFound(msg))
            },
        }
    }

    /// All tenant slugs.
    pub fn slugs(&self) -> (r: Vec<&str>)
        ensures
            r@.len() == self.tenants().len(),
            forall|i: int| 0 <= i < r@.len() ==> (#[trigger] r@[i])@ == self.tenants()[i].slug@,
            forall|i: int, j: int| 0 <= i < r@.len() && 0 <= j < r@.len() && i != j ==> (#[trigger] r@[i])@ != (#[trigger] r@[j])@,
    {
        proof {
            use_type_invariant(self);
        }
        let mut r: Vec<&str> = Vec::new();
        let mut i: usize = 0;
        while i < self.tenants.len()
            invariant
                i <= self.tenants@.len(),
                r@.len() == i,
                forall|j: int| 0 <= j < i ==> (#[trigger] r@[j])@ == self.tenants@[j].slug@,
            decreases self.tenants@.len() - i,
        {
            r.push(self.tenants[i].slug.as_str());
            i = i + 1;
        }
        r
    }

    /// Whether any tenant is configured.
    pub fn is_configured(&self) -> (r: bool)
        ensures
            r == (self.tenants().len() > 0),
    {
        self.tenants.len() > 0
    }

    /// All tenants with their slugs.
    pub fn iter(&self) -> (r: Vec<(&str, &TenantConfig)>)
        ensures
            r@.len() == self.tenants().len(),
            forall|i: int|
                0 <= i < r@.len() ==> (#[trigger] r@[i]).0@ == self.tenants()[i].slug@ && *r@[i].1
                    == self.tenants()[i],
            slugs_distinct(self.tenants()),
    {
        proof {
            use_type_invariant(self);
        }
        let mut r: Vec<(&str, &TenantConfig)> = Vec::new();
        let mut i: usize = 0;
        while i < self.tenants.len()
            invariant
                i <= self.tenants@.len(),
                r@.len() == i,
                forall|j: int|
                    0 <= j < i ==> (#[trigger] r@[j]).0@ == self.tenants@[j].slug@ && *r@[j].1
                        == self.tenants@[j],
            decreases self.tenants@.len() - i,
        {
            let t = &self.tenants[i];
            r.push((t.slug.as_str(), t));
            i = i + 1;
        }
        r
    }

    /// Insert a tenant, replacing the one with the same slug.
    pub fn insert(&mut self, tenant: TenantConfig)
        ensures
            final(self).tenants() == insert_tenant(old(self).tenants(), tenant),
    {
        proof {
            use_type_invariant(&*self);
        }
        let ghost old_t = self.tenants@;
        match self.find(tenant.slug.as_str()) {
            Some(i) => {
                let mut v: Vec<TenantConfig> = Vec::new();
                std::mem::swap(&mut v, &mut self.tenants);
                v.set(i, tenant);
                proof {
                    crate::seqs::lemma_first_index(old_t, slug_is(tenant.slug@));
                    assert forall|a: int, b: int|
                        0 <= a < v@.len() && 0 <= b < v@.len() && a != b implies #[trigger] v@[a].slug@
                            != #[trigger] v@[b].slug@ by {
                        if a != i && b != i {
                            assert(v@[a] == old_t[a] && v@[b] == old_t[b]);
                        }
                    }
                }
                self.tenants = v;
            },
            None => {
                let mut v: Vec<TenantConfig> = Vec::new();
                std::mem::swap(&mut v, &mut self.tenants);
                v.push(tenant);
                proof {
                    crate::seqs::lemma_first_index(old_t, slug_is(tenant.slug@));
                    assert forall|a: int, b: int|
                        0 <= a < v@.len() && 0 <= b < v@.len() && a != b implies #[trigger] v@[a].slug@
                            != #[trigger] v@[b].slug@ by {
                        if a < old_t.len() && b < old_t.len() {
                            assert(v@[a] == old_t[a] && v@[b] == old_t[b]);
                        } else if a < old_t.len() {
                            assert(v@[a] == old_t[a]);
                        } else {
                            assert(v@[b] == old_t[b]);
                        }
                    }
                }
                self.tenants = v;
            },
        }
    }
}

} // verus!

verus! {

impl Default for TenantsRegistry {
    /// A registry without tenants (multi-tenancy disabled).
    fn default() -> (r: TenantsRegistry)
        ensures
            r.tenants().len() == 0,
    {
        TenantsRegistry::new()
    }
}

/// One tenant of `tenants.json` with the value of its password variable.
pub struct TenantEntry {
    pub slug: String,
    pub raw: RawTenant,
    /// The value of the variable named by `raw.service_pass_env`, if set.
    pub password: Option<String>,
}

/// The entry yields a tenant: its password is set and not empty.
pub open spec fn entry_enabled(e: TenantEntry) -> bool {
    e.password matches Some(p) && p@.len() > 0
}

impl TenantEntry {
    /// Whether the entry yields a tenant: its password is set and not empty
    /// (otherwise cloud storage is disabled for it).
    pub fn enabled(&self) -> (r: bool)
        ensures
            r == entry_enabled(*self),
    {
        match &self.password {
            Some(p) => p.unicode_len() > 0,
            None => false,
        }
    }
}

/// `ts` are the tenants built, in order, from the enabled entries of `es`.
pub open spec fn tenants_built(ts: Seq<TenantConfig>, es: Seq<TenantEntry>) -> bool
    decreases es.len(),
{
    if es.len() == 0 {
        ts.len() == 0
    } else {
        let e = es.last();
        if entry_enabled(e) {
            &&& ts.len() > 0
            &&& tenant_from_raw(ts.last(), e.slug@, e.raw, e.password->0@)
            &&& tenants_built(ts.drop_last(), es.drop_last())
        } else {
            tenants_built(ts, es.drop_last())
        }
    }
}

/// Every built tenant's slug is the slug of one of the entries.
proof fn lemma_built_slugs(ts: Seq<TenantConfig>, es: Seq<TenantEntry>)
    requires
        tenants_built(ts, es),
    ensures
        forall|i: int| 0 <= i < ts.len() ==> exists|j: int| 0 <= j < es.len() && es[j].slug@ == (#[trigger] ts[i]).slug@,
    decreases es.len(),
{
    if es.len() > 0 {
        let e = es.last();
        let pre = es.drop_last();
        if entry_enabled(e) {
            lemma_built_slugs(ts.drop_last(), pre);
            assert forall|i: int| 0 <= i < ts.len() implies exists|j: int| 0 <= j < es.len() && es[j].slug@ == (#[trigger] ts[i]).slug@ by {
                if i == ts.len() - 1 {
                    assert(es[es.len() - 1].slug@ == ts[i].slug@);
                } else {
                    assert(ts[i] == ts.drop_last()[i]);
                    let j = choose|j: int| 0 <= j < pre.len() && pre[j].slug@ == ts.drop_last()[i].slug@;
                    assert(es[j] == pre[j]);
                }
            }
        } else {
            lemma_built_slugs(ts, pre);
            assert forall|i: int| 0 <= i < ts.len() implies exists|j: int| 0 <= j < es.len() && es[j].slug@ == (#[trigger] ts[i]).slug@ by {
                let j = choose|j: int| 0 <= j < pre.len() && pre[j].slug@ == ts[i].slug@;
                assert(es[j] == pre[j]);
            }
        }
    }
}

impl TenantsRegistry {
    /// Build the registry from the entries of `tenants.json`.
    ///
    /// Entries whose password variable is unset or empty are left out (cloud
    /// storage is disabled for that tenant); every other entry becomes a
    /// tenant as [`TenantConfig::from_raw`] builds it.
    pub fn from_entries(entries: Vec<TenantEntry>) -> (r: TenantsRegistry)
        requires
            forall|i: int, j: int|
                0 <= i < entries@.len() && 0 <= j < entries@.len() && i != j ==> (#[trigger] entries@[i]).slug@
                    != (#[trigger] entries@[j]).slug@,
        ensures
            tenants_built(r.tenants(), entries@),
    {
        let ghost es = entries@;
        let n = entries.len();
        let mut rest = entries;
        let mut reg = TenantsRegistry::new();
        let mut k: usize = 0;
        assert(es.take(0) =~= Seq::<TenantEntry>::empty());
        assert(es.skip(0) =~= es);
        while k < n
            invariant
                n == es.len(),
                k <= n,
                rest@ == es.skip(k as int),
                tenants_built(reg.tenants(), es.take(k as int)),
                forall|i: int, j: int|
                    0 <= i < es.len() && 0 <= j < es.len() && i != j ==> (#[trigger] es[i]).slug@
                        != (#[trigger] es[j]).slug@,
            decreases n - k,
        {
            let ghost before = rest@;
            let e = rest.remove(0);
            assert(before.drop_first() =~= rest@);
            assert(rest@ =~= es.skip(k + 1));
            assert(e == es[k as int]);
            let ghost pre = es.take(k as int);
            let ghost next = es.take(k + 1);
            assert(next.drop_last() =~= pre);
            assert(next.last() == e);
            let TenantEntry { slug, raw, password } = e;
            match TenantConfig::from_raw(slug.as_str(), raw, password) {
                Some(t) => {
                    proof {
                        lemma_built_slugs(reg.tenants(), pre);
                        crate::seqs::lemma_first_index(reg.tenants(), slug_is(t.slug@));
                        let i = crate::seqs::first_index(reg.tenants(), slug_is(t.slug@));
                        if i >= 0 {
                            let j = choose|j: int| 0 <= j < pre.len() && pre[j].slug@ == (#[trigger] reg.tenants()[i]).slug@;
                            assert(pre[j] == es[j]);
                        }
                    }
                    let ghost old_ts = reg.tenants();
                    reg.insert(t);
                    assert(reg.tenants().drop_last() =~= old_ts);
                },
                None => {},
            }
            k = k + 1;
        }
        assert(es.take(n as int) =~= es);
        reg
    }
}

} // verus!

verus! {

/// After inserting a tenant, looking up its slug finds it.
pub proof fn law_insert_then_get(ts: Seq<TenantConfig>, t: TenantConfig)
    ensures
        slug_index(insert_tenant(ts, t), t.slug@) >= 0,
        insert_tenant(ts, t)[slug_index(insert_tenant(ts, t), t.slug@)] == t,
{
    let p = slug_is(t.slug@);
    let ts2 = insert_tenant(ts, t);
    crate::seqs::lemma_first_index(ts, p);
    let i = slug_index(ts, t.slug@);
    if i >= 0 {
        assert forall|j: int| 0 <= j < i implies !p(#[trigger] ts2[j]) by {
            assert(ts2[j] == ts[j]);
        }
        crate::seqs::lemma_first_index_skip(ts2, p, i);
    } else {
        assert forall|j: int| 0 <= j < ts.len() implies !p(#[trigger] ts2[j]) by {
            assert(ts2[j] == ts[j]);
        }
        crate::seqs::lemma_first_index_skip(ts2, p, ts.len() as int);
    }
}

/// Inserting a tenant leaves the lookup of every other slug unchanged.
pub proof fn law_insert_keeps_others(ts: Seq<TenantConfig>, t: TenantConfig, slug: Seq<char>)
    requires
        slug != t.slug@,
    ensures
        slug_index(insert_tenant(ts, t), slug) == slug_index(ts, slug),
        slug_index(ts, slug) >= 0 ==> insert_tenant(ts, t)[slug_index(ts, slug)] == ts[slug_index(ts, slug)],
{
    let p = slug_is(slug);
    let ts2 = insert_tenant(ts, t);
    crate::seqs::lemma_first_index(ts, slug_is(slug));
    crate::seqs::lemma_first_index(ts, slug_is(t.slug@));
    let k = slug_index(ts, t.slug@);
    assert forall|j: int| 0 <= j < ts.len() implies p(#[trigger] ts2[j]) == p(ts[j]) by {
        if j == k {
            assert(ts2[j] == t);
        } else {
            assert(ts2[j] == ts[j]);
        }
    }
    assert(ts2.len() > ts.len() ==> !p(ts2[ts.len() as int]));
    let i = slug_index(ts, slug);
    assert(i < ts.len());
    if i >= 0 {
        assert forall|j: int| 0 <= j < i implies !p(#[trigger] ts2[j]) by {
            assert(j < ts.len());
            assert(p(ts2[j]) == p(ts[j]));
        }
        assert(p(ts2[i]) == p(ts[i]));
        crate::seqs::lemma_first_index_skip(ts2, p, i);
        if i != k {
            assert(ts2[i] == ts[i]);
        }
    } else {
        assert forall|j: int| 0 <= j < ts2.len() implies !p(#[trigger] ts2[j]) by {
            if j < ts.len() {
                assert(p(ts2[j]) == p(ts[j]));
            }
        }
        crate::seqs::lemma_first_index_skip(ts2, p, ts2.len() as int);
    }
}

/// Inserting keeps the slugs distinct.
pub proof fn law_insert_keeps_slugs_distinct(ts: Seq<TenantConfig>, t: TenantConfig)
    requires
        slugs_distinct(ts),
    ensures
        slugs_distinct(insert_tenant(ts, t)),
{
    let ts2 = insert_tenant(ts, t);
    let i = slug_index(ts, t.slug@);
    crate::seqs::lemma_first_index(ts, slug_is(t.slug@));
    assert forall|a: int, b: int|
        0 <= a < ts2.len() && 0 <= b < ts2.len() && a != b implies #[trigger] ts2[a].slug@
            != #[trigger] ts2[b].slug@ by {
        if i >= 0 {
            if a != i && b != i {
                assert(ts2[a] == ts[a] && ts2[b] == ts[b]);
            } else if a == i {
                assert(ts2[b] == ts[b]);
            } else {
                assert(ts2[a] == ts[a]);
            }
        } else {
            if a < ts.len() {
                assert(ts2[a] == ts[a]);
            }
            if b < ts.len() {
                assert(ts2[b] == ts[b]);
            }
        }
    }
}

} // verus!

verus! {

/// The projects root is `{volume_mount}/__groupfolders/{group_folder_id}/files`
/// with the id in decimal, so tenants with different group folders read
/// different roots.
pub proof fn law_projects_root_names_group_folder(volume_mount: Seq<char>, id1: u32, id2: u32)
    ensures
        projects_root_of(volume_mount, id1) == path_join(volume_mount, "__groupfolders"@) + "/"@ + decimal(
            id1 as nat,
        ) + "/files"@,
        id1 != id2 ==> projects_root_of(volume_mount, id1) != projects_root_of(volume_mount, id2),
{
    lemma_root_shape(volume_mount, id1);
    lemma_root_shape(volume_mount, id2);
    if id1 != id2 && projects_root_of(volume_mount, id1) == projects_root_of(volume_mount, id2) {
        lemma_middle_unique(
            path_join(volume_mount, "__groupfolders"@),
            "/"@,
            decimal(id1 as nat),
            decimal(id2 as nat),
            "/files"@,
        );
        crate::timestamp::law_decimal_injective(id1 as nat, id2 as nat);
    }
}

/// Two texts with the same beginning and the same end are equal in the middle.
proof fn lemma_middle_unique(p: Seq<char>, x: Seq<char>, d1: Seq<char>, d2: Seq<char>, y: Seq<char>)
    requires
        p + x + d1 + y == p + x + d2 + y,
    ensures
        d1 == d2,
{
    let r1 = p + x + d1 + y;
    let r2 = p + x + d2 + y;
    assert(r1.len() == r2.len());
    let k = p.len() + x.len();
    assert forall|i: int| 0 <= i < d1.len() implies d1[i] == d2[i] by {
        assert(r1[k + i] == d1[i]);
        assert(r2[k + i] == d2[i]);
    }
    assert(d1 =~= d2);
}

/// The projects root spelled out: the group folder id follows
/// `{volume_mount}/__groupfolders` after a `/`, and `/files` follows it.
proof fn lemma_root_shape(volume_mount: Seq<char>, id: u32)
    ensures
        projects_root_of(volume_mount, id) == path_join(volume_mount, "__groupfolders"@) + "/"@ + decimal(id as nat)
            + "/files"@,
{
    reveal_strlit("__groupfolders");
    reveal_strlit("files");
    reveal_strlit("/");
    reveal_strlit("/files");
    let p = path_join(volume_mount, "__groupfolders"@);
    let d = decimal(id as nat);
    crate::timestamp::lemma_decimal_digits(id as nat);
    assert(p.len() > 0 && p[p.len() - 1] == 's');
    assert(d[0] != '/');
    let q = path_join(p, d);
    assert(q =~= p + "/"@ + d);
    assert(q[q.len() - 1] == d[d.len() - 1]);
    assert(q[q.len() - 1] != '/');
    assert(path_join(q, "files"@) =~= p + "/"@ + d + "/files"@);
}

} // verus!
