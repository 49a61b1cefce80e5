//! The catalog of crates and versions, which a merge reads to find the
//! version that a staging row counts.

use vstd::prelude::*;

verus! {

/// What a `CatalogVersion` is in contracts.
pub struct CatalogVersionView {
    pub id: i32,
    pub name: Seq<char>,
    pub num: Seq<char>,
}

/// Whether some version of the catalog has this crate name and version text.
pub open spec fn lists(catalog: Seq<CatalogVersionView>, name: Seq<char>, num: Seq<char>) -> bool {
    exists|i: int|
        0 <= i < catalog.len() && (#[trigger] catalog[i]).name == name && catalog[i].num == num
}

/// The identity of the version with this crate name and version text.
pub open spec fn resolve(catalog: Seq<CatalogVersionView>, name: Seq<char>, num: Seq<char>) -> Option<
    i32,
> {
    if lists(catalog, name, num) {
        let i = choose|i: int|
            0 <= i < catalog.len() && (#[trigger] catalog[i]).name == name && catalog[i].num == num;
        Some(catalog[i].id)
    } else {
        None
    }
}

/// A version of a crate, as the catalog knows it.
#[derive(Debug)]
pub struct CatalogVersion {
    pub id: i32,
    pub name: String,
    pub num: String,
}

impl View for CatalogVersion {
    type V = CatalogVersionView;

    open spec fn view(&self) -> CatalogVersionView {
        CatalogVersionView { id: self.id, name: self.name@, num: self.num@ }
    }
}

/// The crates and versions that the registry knows. A merge only reads it.
#[derive(Debug)]
pub struct Catalog {
    versions: Vec<CatalogVersion>,
}

impl View for Catalog {
    type V = Seq<CatalogVersionView>;

    closed spec fn view(&self) -> Seq<CatalogVersionView> {
        self.versions@.map_values(|v: CatalogVersion| v@)
    }
}

/// No crate name and version text is listed twice, and the identities are
/// the numbers from one on, in the order of listing.
pub open spec fn catalog_wf(catalog: Seq<CatalogVersionView>) -> bool {
    &&& catalog.len() <= i32::MAX
    &&& forall|i: int| 0 <= i < catalog.len() ==> (#[trigger] catalog[i]).id == i + 1
    &&& forall|i: int, j: int|
        0 <= i < j < catalog.len() ==> !((#[trigger] catalog[i]).name == (#[trigger] catalog[j]).name
            && catalog[i].num == catalog[j].num)
}

impl Catalog {
    #[verifier::type_invariant]
    spec fn inv(&self) -> bool {
        catalog_wf(self@)
    }

    /// The catalog without any version.
    pub fn new() -> (catalog: Catalog)
        ensures
            catalog@ == Seq::<CatalogVersionView>::empty(),
    {
        let versions: Vec<CatalogVersion> = Vec::new();
        assert(versions@.map_values(|v: CatalogVersion| v@) =~= Seq::<CatalogVersionView>::empty());
        Catalog { versions }
    }

    /// The number of versions listed.
    pub fn len(&self) -> (len: usize)
        ensures
            len == self@.len(),
    {
        self.versions.len()
    }

    /// The identity of the version with this crate name and version text.
    pub fn resolve(&self, name: &str, num: &str) -> (id: Option<i32>)
        ensures
            catalog_wf(self@),
            id == resolve(self@, name@, num@),
    {
        proof {
            use_type_invariant(self);
        }
        let wanted_name = name.to_owned();
        let wanted_num = num.to_owned();
        let n = self.versions.len();
        let mut i: usize = 0;
        while i < n
            invariant
                n == self.versions.len(),
                i <= n,
                catalog_wf(self@),
                wanted_name@ == name@,
                wanted_num@ == num@,
                forall|j: int|
                    0 <= j < i ==> !((#[trigger] self@[j]).name == name@ && self@[j].num == num@),
            decreases n - i,
        {
            let listed = &self.versions[i];
            assert(self@[i as int] == listed@);
            if listed.name == wanted_name && listed.num == wanted_num {
                proof {
                    assert(lists(self@, name@, num@));
                    let c = choose|c: int|
                        0 <= c < self@.len() && (#[trigger] self@[c]).name == name@ && self@[c].num
                            == num@;
                    assert(c == i) by {
                        if c != i {
                            assert(self@[c].name == self@[i as int].name);
                        }
                    }
                }
                return Some(listed.id);
            }
            i = i + 1;
        }
        None
    }

    /// Lists one more version and returns its identity. Changes nothing, and
    /// returns `None`, where the crate name and version text are listed
    /// already or the identities are used up.
    pub fn add_version(&mut self, name: String, num: String) -> (id: Option<i32>)
        ensures
            id is Some <==> !lists(old(self)@, name@, num@) && old(self)@.len() < i32::MAX,
            id matches Some(new_id) ==> new_id == old(self)@.len() + 1 && final(self)@ == old(
                self,
            )@.push(CatalogVersionView { id: new_id, name: name@, num: num@ }),
            id is None ==> final(self)@ == old(self)@,
    {
        let n = self.versions.len();
        if n >= 0x7fff_ffff {
            return None;
        }
        if self.resolve(name.as_str(), num.as_str()).is_some() {
            return None;
        }
        let new_id: i32 = (n + 1) as i32;
        let ghost before = self@;
        let version = CatalogVersion { id: new_id, name, num };
        proof {
            let after = self.versions@.push(version).map_values(|v: CatalogVersion| v@);
            assert(after =~= before.push(version@));
            assert forall|i: int, j: int| 0 <= i < j < after.len() implies !((
            #[trigger] after[i]).name == (#[trigger] after[j]).name && after[i].num
                == after[j].num) by {
                if j == before.len() {
                    assert(before[i] == after[i]);
                } else {
                    assert(before[i] == after[i] && before[j] == after[j]);
                }
            }
            assert(Seq::<CatalogVersion>::empty().map_values(|v: CatalogVersion| v@)
                =~= Seq::<CatalogVersionView>::empty());
        }
        let mut versions: Vec<CatalogVersion> = Vec::new();
        core::mem::swap(&mut self.versions, &mut versions);
        versions.push(version);
        self.versions = versions;
        Some(new_id)
    }
}

} // verus!
