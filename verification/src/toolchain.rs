//! Discovery of Visual Studio toolchain installations.
//!
//! The caller enumerates raw setup instances (one per installed product) and
//! hands them over as [`RawSetupInstance`] records, whose fields carry the
//! outcome of reading each OS-native property: decoded text, a decode
//! failure, or a source error code. This module normalizes those records,
//! maps each installation version onto a platform-toolset label (dropping
//! versions outside the known table), deduplicates, and ranks the survivors
//! by installation version.

use crate::aggregate::dedup_keep_first;
use crate::aggregate::pairwise_distinct;
use crate::version::split_dot;
use crate::version::str_eq;
use crate::version::version_cmp;
use crate::version::VersionOrder;
use vstd::prelude::*;

verus! {

/// A directory path, kept as decoded text.
#[derive(Debug)]
pub struct DirPath {
    pub text: String,
}

impl View for DirPath {
    type V = Seq<char>;

    open spec fn view(&self) -> Seq<char> {
        self.text@
    }
}

/// One OS-native property of a raw setup instance, as the enumeration
/// source delivered it: decoded text, text that was not valid Unicode, or a
/// source-level error code.
pub enum RawField {
    Text(String),
    NotUnicode,
    Error(i32),
}

/// One raw Visual Studio setup instance, before normalization.
pub struct RawSetupInstance {
    pub instance_id: RawField,
    pub installation_name: RawField,
    pub installation_path: RawField,
    pub installation_version: RawField,
    pub product_path: RawField,
}

/// One normalized Visual Studio installation.
#[derive(Debug)]
pub struct VisualStudioInstallationInstance {
    pub instance_id: String,
    pub installation_name: String,
    pub installation_path: DirPath,
    pub installation_version: String,
    pub product_path: DirPath,
    pub platform_toolset: String,
}

/// The mathematical content of a [`VisualStudioInstallationInstance`].
pub ghost struct ToolchainView {
    pub instance_id: Seq<char>,
    pub installation_name: Seq<char>,
    pub installation_path: Seq<char>,
    pub installation_version: Seq<char>,
    pub product_path: Seq<char>,
    pub platform_toolset: Seq<char>,
}

impl View for VisualStudioInstallationInstance {
    type V = ToolchainView;

    open spec fn view(&self) -> ToolchainView {
        ToolchainView {
            instance_id: self.instance_id@,
            installation_name: self.installation_name@,
            installation_path: self.installation_path@,
            installation_version: self.installation_version@,
            product_path: self.product_path@,
            platform_toolset: self.platform_toolset@,
        }
    }
}

impl DeepView for VisualStudioInstallationInstance {
    type V = ToolchainView;

    open spec fn deep_view(&self) -> ToolchainView {
        self.view()
    }
}

impl VisualStudioInstallationInstance {
    /// Replaces the platform-toolset label, leaving every other field as it
    /// was.
    pub fn set_platform_toolset(&mut self, platform_toolset: String)
        ensures
            final(self).instance_id@ == old(self).instance_id@,
            final(self).installation_name@ == old(self).installation_name@,
            final(self).installation_path@ == old(self).installation_path@,
            final(self).installation_version@ == old(self).installation_version@,
            final(self).product_path@ == old(self).product_path@,
            final(self).platform_toolset@ == platform_toolset@,
    {
        self.platform_toolset = platform_toolset;
    }
}

/// What decoding one raw field yields: the text, or the error the
/// normalizer reports (`None` for a Unicode decode failure, `Some` for a
/// source error code).
pub open spec fn decode_field(f: RawField) -> Result<Seq<char>, Option<i32>> {
    match f {
        RawField::Text(s) => Result::Ok(s@),
        RawField::NotUnicode => Result::Err(Option::None),
        RawField::Error(i) => Result::Err(Option::Some(i)),
    }
}

pub open spec fn string_res_view(r: Result<String, Option<i32>>) -> Result<
    Seq<char>,
    Option<i32>,
> {
    match r {
        Result::Ok(s) => Result::Ok(s@),
        Result::Err(e) => Result::Err(e),
    }
}

pub open spec fn path_res_view(r: Result<DirPath, Option<i32>>) -> Result<Seq<char>, Option<i32>> {
    match r {
        Result::Ok(p) => Result::Ok(p@),
        Result::Err(e) => Result::Err(e),
    }
}

/// Decodes one raw text field, as `decode_field` describes.
pub fn os_to_res_string(res: &RawField) -> (r: Result<String, Option<i32>>)
    ensures
        string_res_view(r) == decode_field(*res),
{
    match res {
        RawField::Text(s) => Result::Ok(s.clone()),
        RawField::NotUnicode => Result::Err(Option::None),
        RawField::Error(i) => Result::Err(Option::Some(*i)),
    }
}

/// Decodes one raw path field, as `decode_field` describes.
pub fn os_to_res_pathbuf(res: &RawField) -> (r: Result<DirPath, Option<i32>>)
    ensures
        path_res_view(r) == decode_field(*res),
{
    match res {
        RawField::Text(s) => Result::Ok(DirPath { text: s.clone() }),
        RawField::NotUnicode => Result::Err(Option::None),
        RawField::Error(i) => Result::Err(Option::Some(*i)),
    }
}

/// What normalizing one raw instance yields: a record with every field
/// decoded and an empty toolset label, or the first field's error in the
/// order the fields are read. Normalization is all or nothing: no record is
/// ever partially filled.
pub open spec fn transform_spec(raw: RawSetupInstance) -> Result<ToolchainView, Option<i32>> {
    match decode_field(raw.instance_id) {
        Result::Err(e) => Result::Err(e),
        Result::Ok(id) => match decode_field(raw.installation_name) {
            Result::Err(e) => Result::Err(e),
            Result::Ok(name) => match decode_field(raw.installation_path) {
                Result::Err(e) => Result::Err(e),
                Result::Ok(path) => match decode_field(raw.installation_version) {
                    Result::Err(e) => Result::Err(e),
                    Result::Ok(version) => match decode_field(raw.product_path) {
                        Result::Err(e) => Result::Err(e),
                        Result::Ok(product) => Result::Ok(
                            ToolchainView {
                                instance_id: id,
                                installation_name: name,
                                installation_path: path,
                                installation_version: version,
                                product_path: product,
                                platform_toolset: Seq::<char>::empty(),
                            },
                        ),
                    },
                },
            },
        },
    }
}

pub open spec fn transform_res_view(r: Result<VisualStudioInstallationInstance, Option<i32>>) -> Result<
    ToolchainView,
    Option<i32>,
> {
    match r {
        Result::Ok(v) => Result::Ok(v@),
        Result::Err(e) => Result::Err(e),
    }
}

/// Normalizes one raw setup instance, as `transform_spec` describes.
pub fn transform(instance: &RawSetupInstance) -> (r: Result<
    VisualStudioInstallationInstance,
    Option<i32>,
>)
    ensures
        transform_res_view(r) == transform_spec(*instance),
{
    let instance_id = match os_to_res_string(&instance.instance_id) {
        Result::Ok(s) => s,
        Result::Err(e) => {
            return Result::Err(e);
        },
    };
    let installation_name = match os_to_res_string(&instance.installation_name) {
        Result::Ok(s) => s,
        Result::Err(e) => {
            return Result::Err(e);
        },
    };
    let installation_path = match os_to_res_pathbuf(&instance.installation_path) {
        Result::Ok(p) => p,
        Result::Err(e) => {
            return Result::Err(e);
        },
    };
    let installation_version = match os_to_res_string(&instance.installation_version) {
        Result::Ok(s) => s,
        Result::Err(e) => {
            return Result::Err(e);
        },
    };
    let product_path = match os_to_res_pathbuf(&instance.product_path) {
        Result::Ok(p) => p,
        Result::Err(e) => {
            return Result::Err(e);
        },
    };
    Result::Ok(
        VisualStudioInstallationInstance {
            instance_id,
            installation_name,
            installation_path,
            installation_version,
            product_path,
            platform_toolset: String::new(),
        },
    )
}

/// The platform-toolset label belonging to an installation version, keyed
/// by the leading dot-separated component, except that a leading `7` is
/// disambiguated by the second component. A version outside the table has
/// no label.
pub open spec fn toolset_for_version(v: Seq<char>) -> Option<Seq<char>> {
    let comps = split_dot(v);
    let major = comps[0];
    if major == "15"@ {
        Option::Some("v141"@)
    } else if major == "14"@ {
        Option::Some("v140"@)
    } else if major == "12"@ {
        Option::Some("v120"@)
    } else if major == "11"@ {
        Option::Some("v110"@)
    } else if major == "10"@ {
        Option::Some("v100"@)
    } else if major == "9"@ {
        Option::Some("v90"@)
    } else if major == "8"@ {
        Option::Some("v80"@)
    } else if major == "7"@ {
        if comps.len() >= 2 && comps[1] == "1"@ {
            Option::Some("v71"@)
        } else if comps.len() >= 2 && comps[1] == "0"@ {
            Option::Some("v70"@)
        } else {
            Option::None
        }
    } else if major == "6"@ {
        Option::Some("v60"@)
    } else {
        Option::None
    }
}

pub open spec fn opt_string_view(o: Option<String>) -> Option<Seq<char>> {
    match o {
        Option::Some(s) => Option::Some(s@),
        Option::None => Option::None,
    }
}

/// Looks an installation version up in the toolset table, as
/// `toolset_for_version` describes.
pub fn platform_toolset_for(version: &str) -> (r: Option<String>)
    ensures
        opt_string_view(r) == toolset_for_version(version@),
{
    let comps = crate::version::split_components(version);
    proof {
        crate::version::lemma_split_dot_len(version@);
        assert(comps@.len() == comps.deep_view().len());
        assert(comps.deep_view()[0] == comps@[0]@);
    }
    let major = &comps[0];
    if str_eq(major.as_str(), "15") {
        Option::Some(String::from_str("v141"))
    } else if str_eq(major.as_str(), "14") {
        Option::Some(String::from_str("v140"))
    } else if str_eq(major.as_str(), "12") {
        Option::Some(String::from_str("v120"))
    } else if str_eq(major.as_str(), "11") {
        Option::Some(String::from_str("v110"))
    } else if str_eq(major.as_str(), "10") {
        Option::Some(String::from_str("v100"))
    } else if str_eq(major.as_str(), "9") {
        Option::Some(String::from_str("v90"))
    } else if str_eq(major.as_str(), "8") {
        Option::Some(String::from_str("v80"))
    } else if str_eq(major.as_str(), "7") {
        if comps.len() >= 2 {
            proof {
                assert(comps.deep_view()[1] == comps@[1]@);
            }
            if str_eq(comps[1].as_str(), "1") {
                Option::Some(String::from_str("v71"))
            } else if str_eq(comps[1].as_str(), "0") {
                Option::Some(String::from_str("v70"))
            } else {
                Option::None
            }
        } else {
            Option::None
        }
    } else if str_eq(major.as_str(), "6") {
        Option::Some(String::from_str("v60"))
    } else {
        Option::None
    }
}

/// The given record with its toolset label replaced.
pub open spec fn with_toolset(tv: ToolchainView, ts: Seq<char>) -> ToolchainView {
    ToolchainView {
        instance_id: tv.instance_id,
        installation_name: tv.installation_name,
        installation_path: tv.installation_path,
        installation_version: tv.installation_version,
        product_path: tv.product_path,
        platform_toolset: ts,
    }
}

/// The normalized, toolset-labelled records of a sequence of enumeration
/// outcomes, in source order. An outcome that signals an enumeration error,
/// fails normalization, or has a version outside the toolset table
/// contributes nothing; its siblings are unaffected.
pub open spec fn mapped_toolchains(raws: Seq<Result<RawSetupInstance, i32>>) -> Seq<ToolchainView>
    decreases raws.len(),
{
    if raws.len() == 0 {
        Seq::<ToolchainView>::empty()
    } else {
        let prefix = mapped_toolchains(raws.drop_last());
        match raws.last() {
            Result::Ok(raw) => match transform_spec(raw) {
                Result::Ok(tv) => match toolset_for_version(tv.installation_version) {
                    Option::Some(ts) => prefix.push(with_toolset(tv, ts)),
                    Option::None => prefix,
                },
                Result::Err(_) => prefix,
            },
            Result::Err(_) => prefix,
        }
    }
}

/// Stable insertion of a record into a version-ranked sequence: it goes
/// after every record that does not rank strictly after it.
pub open spec fn toolchain_insert(s: Seq<ToolchainView>, x: ToolchainView) -> Seq<ToolchainView>
    decreases s.len(),
{
    if s.len() == 0 {
        seq![x]
    } else if version_cmp(s[0].installation_version, x.installation_version)
        == VersionOrder::Greater {
        seq![x] + s
    } else {
        seq![s[0]] + toolchain_insert(s.skip(1), x)
    }
}

/// Stable ranking of records by installation version, latest first under
/// the ranking comparator.
pub open spec fn toolchain_sort(s: Seq<ToolchainView>) -> Seq<ToolchainView>
    decreases s.len(),
{
    if s.len() == 0 {
        Seq::<ToolchainView>::empty()
    } else {
        toolchain_insert(toolchain_sort(s.drop_last()), s.last())
    }
}

/// The whole toolchain discovery pipeline: normalize and label the raw
/// outcomes, collapse structurally identical records, rank by version.
pub open spec fn toolchains_spec(raws: Seq<Result<RawSetupInstance, i32>>) -> Seq<ToolchainView> {
    toolchain_sort(dedup_keep_first(mapped_toolchains(raws)))
}

/// Whether a sequence of toolchain records is ranked: no record ranks
/// strictly after an earlier one under the version comparator.
pub open spec fn toolchain_ranked(s: Seq<ToolchainView>) -> bool {
    forall|i: int, j: int|
        0 <= i < j < s.len() ==> version_cmp(
            s[i].installation_version,
            s[j].installation_version,
        ) != VersionOrder::Greater
}

proof fn lemma_toolchain_insert_ranked(s: Seq<ToolchainView>, x: ToolchainView)
    requires
        toolchain_ranked(s),
    ensures
        toolchain_ranked(toolchain_insert(s, x)),
        forall|m: int|
            0 <= m < toolchain_insert(s, x).len() ==> toolchain_insert(s, x)[m] == x || s.contains(
                toolchain_insert(s, x)[m],
            ),
    decreases s.len(),
{
    let r = toolchain_insert(s, x);
    let xv = x.installation_version;
    if s.len() == 0 {
        assert(r =~= seq![x]);
    } else if version_cmp(s[0].installation_version, xv) == VersionOrder::Greater {
        assert(r =~= seq![x] + s);
        crate::version::lemma_version_order_asymmetric(s[0].installation_version, xv);
        assert forall|i: int, j: int|
            0 <= i < j < r.len() implies version_cmp(
            r[i].installation_version,
            r[j].installation_version,
        ) != VersionOrder::Greater by {
            if i == 0 && j >= 2 {
                let sv = s[0].installation_version;
                let tv = s[j - 1].installation_version;
                if version_cmp(sv, tv) == VersionOrder::Less {
                    crate::version::lemma_version_order_asymmetric(xv, sv);
                    crate::version::lemma_version_order_transitive(xv, sv, tv);
                } else {
                    crate::version::lemma_version_order_less_then_tie(xv, sv, tv);
                }
            }
        }
        assert forall|m: int| 0 <= m < r.len() implies r[m] == x || s.contains(r[m]) by {
            if m >= 1 {
                assert(r[m] == s[m - 1]);
            }
        }
    } else {
        let s1 = s.skip(1);
        assert(r =~= seq![s[0]] + toolchain_insert(s1, x));
        assert forall|i: int, j: int|
            0 <= i < j < s1.len() implies version_cmp(
            s1[i].installation_version,
            s1[j].installation_version,
        ) != VersionOrder::Greater by {
            assert(s1[i] == s[i + 1]);
            assert(s1[j] == s[j + 1]);
        }
        lemma_toolchain_insert_ranked(s1, x);
        let r1 = toolchain_insert(s1, x);
        assert forall|i: int, j: int|
            0 <= i < j < r.len() implies version_cmp(
            r[i].installation_version,
            r[j].installation_version,
        ) != VersionOrder::Greater by {
            if i == 0 {
                let e = r1[j - 1];
                assert(r[j] == e);
                if e == x {
                } else {
                    let m = choose|m: int| 0 <= m < s1.len() && s1[m] == e;
                    assert(s1[m] == s[m + 1]);
                }
            } else {
                assert(r[i] == r1[i - 1]);
                assert(r[j] == r1[j - 1]);
            }
        }
        assert forall|m: int| 0 <= m < r.len() implies r[m] == x || s.contains(r[m]) by {
            if m == 0 {
                assert(s.contains(s[0]));
            } else {
                let e = r1[m - 1];
                assert(r[m] == e);
                if e != x {
                    let q = choose|q: int| 0 <= q < s1.len() && s1[q] == e;
                    assert(s[q + 1] == e);
                    assert(s.contains(e));
                }
            }
        }
    }
}

proof fn lemma_toolchain_sort_ranked(s: Seq<ToolchainView>)
    ensures
        toolchain_ranked(toolchain_sort(s)),
    decreases s.len(),
{
    if s.len() > 0 {
        lemma_toolchain_sort_ranked(s.drop_last());
        lemma_toolchain_insert_ranked(toolchain_sort(s.drop_last()), s.last());
    }
}

/// The toolchain discovery result is genuinely ranked: no record in it
/// ranks strictly after an earlier one, so the head ranks no later than any
/// other surviving record.
pub proof fn lemma_toolchains_spec_ranked(raws: Seq<Result<RawSetupInstance, i32>>)
    ensures
        toolchain_ranked(toolchains_spec(raws)),
{
    lemma_toolchain_sort_ranked(dedup_keep_first(mapped_toolchains(raws)));
}

proof fn lemma_toolchain_insert_distinct(s: Seq<ToolchainView>, x: ToolchainView)
    requires
        pairwise_distinct(s),
        !s.contains(x),
    ensures
        pairwise_distinct(toolchain_insert(s, x)),
        forall|e: ToolchainView|
            toolchain_insert(s, x).contains(e) == (s.contains(e) || e == x),
    decreases s.len(),
{
    let r = toolchain_insert(s, x);
    if s.len() == 0 {
        assert(r =~= seq![x]);
        assert forall|e: ToolchainView| r.contains(e) == (s.contains(e) || e == x) by {
            if e == x {
                assert(r[0] == e);
            }
        }
    } else if version_cmp(
        s[0].installation_version,
        x.installation_version,
    ) == VersionOrder::Greater {
        assert(r =~= seq![x] + s);
        assert forall|i: int, j: int| 0 <= i < j < r.len() implies r[i] != r[j] by {
            if i == 0 {
                assert(s.contains(s[j - 1]));
            }
        }
        assert forall|e: ToolchainView| r.contains(e) == (s.contains(e) || e == x) by {
            if r.contains(e) {
                let m = choose|m: int| 0 <= m < r.len() && r[m] == e;
                if m >= 1 {
                    assert(s[m - 1] == e);
                    assert(s.contains(e));
                }
            }
            if s.contains(e) {
                let m = choose|m: int| 0 <= m < s.len() && s[m] == e;
                assert(r[m + 1] == e);
                assert(r.contains(e));
            }
            if e == x {
                assert(r[0] == e);
            }
        }
    } else {
        let s1 = s.skip(1);
        assert(r =~= seq![s[0]] + toolchain_insert(s1, x));
        assert forall|i: int, j: int| 0 <= i < j < s1.len() implies s1[i] != s1[j] by {
            assert(s1[i] == s[i + 1]);
            assert(s1[j] == s[j + 1]);
        }
        assert(!s1.contains(x)) by {
            if s1.contains(x) {
                let m = choose|m: int| 0 <= m < s1.len() && s1[m] == x;
                assert(s[m + 1] == x);
                assert(s.contains(x));
            }
        }
        lemma_toolchain_insert_distinct(s1, x);
        let r1 = toolchain_insert(s1, x);
        assert(s.contains(s[0]));
        assert forall|i: int, j: int| 0 <= i < j < r.len() implies r[i] != r[j] by {
            if i == 0 {
                let e = r1[j - 1];
                assert(r1.contains(e));
                assert(r1.contains(e) == (s1.contains(e) || e == x));
                if e == x {
                } else {
                    assert(s1.contains(e));
                    let m = choose|m: int| 0 <= m < s1.len() && s1[m] == e;
                    assert(s1[m] == s[m + 1]);
                }
            } else {
                assert(r[i] == r1[i - 1]);
                assert(r[j] == r1[j - 1]);
            }
        }
        assert forall|e: ToolchainView| r.contains(e) == (s.contains(e) || e == x) by {
            if r.contains(e) {
                let m = choose|m: int| 0 <= m < r.len() && r[m] == e;
                if m == 0 {
                } else {
                    assert(r1[m - 1] == e);
                    assert(r1.contains(e));
                    assert(r1.contains(e) == (s1.contains(e) || e == x));
                    if e != x {
                        let q = choose|q: int| 0 <= q < s1.len() && s1[q] == e;
                        assert(s1[q] == s[q + 1]);
                        assert(s.contains(e));
                    }
                }
            }
            if s.contains(e) {
                let m = choose|m: int| 0 <= m < s.len() && s[m] == e;
                if m == 0 {
                    assert(r[0] == e);
                } else {
                    assert(s1[m - 1] == s[m]);
                    assert(s1.contains(e));
                    assert(r1.contains(e) == (s1.contains(e) || e == x));
                    let q = choose|q: int| 0 <= q < r1.len() && r1[q] == e;
                    assert(r[q + 1] == e);
                }
                assert(r.contains(e));
            }
            if e == x {
                assert(r1.contains(e) == (s1.contains(e) || e == x));
                let q = choose|q: int| 0 <= q < r1.len() && r1[q] == e;
                assert(r[q + 1] == e);
                assert(r.contains(e));
            }
        }
    }
}

proof fn lemma_toolchain_sort_distinct(s: Seq<ToolchainView>)
    requires
        pairwise_distinct(s),
    ensures
        pairwise_distinct(toolchain_sort(s)),
        forall|e: ToolchainView| toolchain_sort(s).contains(e) == s.contains(e),
    decreases s.len(),
{
    if s.len() == 0 {
        assert forall|e: ToolchainView| toolchain_sort(s).contains(e) == s.contains(e) by {}
    } else {
        let dl = s.drop_last();
        assert forall|i: int, j: int| 0 <= i < j < dl.len() implies dl[i] != dl[j] by {
            assert(dl[i] == s[i]);
            assert(dl[j] == s[j]);
        }
        lemma_toolchain_sort_distinct(dl);
        assert(!dl.contains(s.last())) by {
            if dl.contains(s.last()) {
                let m = choose|m: int| 0 <= m < dl.len() && dl[m] == s.last();
                assert(s[m] == s[s.len() - 1]);
            }
        }
        lemma_toolchain_insert_distinct(toolchain_sort(dl), s.last());
        assert forall|e: ToolchainView| toolchain_sort(s).contains(e) == s.contains(e) by {
            if s.contains(e) {
                let m = choose|m: int| 0 <= m < s.len() && s[m] == e;
                if m < s.len() - 1 {
                    assert(dl[m] == e);
                    assert(dl.contains(e));
                }
            }
            if dl.contains(e) {
                let m = choose|m: int| 0 <= m < dl.len() && dl[m] == e;
                assert(s[m] == e);
                assert(s.contains(e));
            }
            if e == s.last() {
                assert(s.contains(e));
            }
        }
    }
}

/// The toolchain discovery result holds no two field-wise identical
/// records: duplicates collapsed by aggregation stay collapsed through
/// ranking.
pub proof fn lemma_toolchains_spec_distinct(raws: Seq<Result<RawSetupInstance, i32>>)
    ensures
        pairwise_distinct(toolchains_spec(raws)),
{
    crate::aggregate::lemma_dedup_collapses_duplicates(mapped_toolchains(raws));
    lemma_toolchain_sort_distinct(dedup_keep_first(mapped_toolchains(raws)));
}

/// Structural equality of two normalized records: every field equal.
fn toolchain_eq(a: &VisualStudioInstallationInstance, b: &VisualStudioInstallationInstance) -> (r:
    bool)
    ensures
        r == (a@ == b@),
{
    let r = a.instance_id == b.instance_id && a.installation_name == b.installation_name
        && a.installation_path.text == b.installation_path.text && a.installation_version
        == b.installation_version && a.product_path.text == b.product_path.text
        && a.platform_toolset == b.platform_toolset;
    proof {
        if r {
            assert(a@ == b@);
        }
    }
    r
}

fn toolchains_contain(v: &Vec<VisualStudioInstallationInstance>, x: &VisualStudioInstallationInstance) -> (r: bool)
    ensures
        r == v.deep_view().contains(x@),
{
    let mut i: usize = 0;
    while i < v.len()
        invariant
            i <= v@.len(),
            forall|k: int| 0 <= k < i ==> v.deep_view()[k] != x@,
        decreases v@.len() - i,
    {
        if toolchain_eq(&v[i], x) {
            proof {
                assert(v.deep_view()[i as int] == x@);
            }
            return true;
        }
        i += 1;
    }
    false
}

/// Normalizes, labels, deduplicates and ranks the raw enumeration outcomes,
/// as `toolchains_spec` describes: the result holds exactly the surviving
/// records, latest installation version first.
pub fn get_toolchains(raws: Vec<Result<RawSetupInstance, i32>>) -> (r: Vec<
    VisualStudioInstallationInstance,
>)
    ensures
        r.deep_view() == toolchains_spec(raws@),
{
    let ghost raws_seq = raws@;
    let mut candidates: Vec<VisualStudioInstallationInstance> = Vec::new();
    let mut i: usize = 0;
    proof {
        assert(candidates.deep_view() =~= mapped_toolchains(raws_seq.take(0)));
    }
    while i < raws.len()
        invariant
            raws@ == raws_seq,
            i <= raws_seq.len(),
            candidates.deep_view() == mapped_toolchains(raws_seq.take(i as int)),
        decreases raws_seq.len() - i,
    {
        proof {
            assert(raws_seq.take(i as int + 1).drop_last() =~= raws_seq.take(i as int));
            assert(raws_seq.take(i as int + 1).last() == raws_seq[i as int]);
        }
        let ghost old_dv = candidates.deep_view();
        match &raws[i] {
            Result::Ok(raw) => {
                match transform(raw) {
                    Result::Ok(mut inst) => {
                        match platform_toolset_for(inst.installation_version.as_str()) {
                            Option::Some(ts) => {
                                let ghost tv = transform_spec(*raw).unwrap();
                                inst.set_platform_toolset(ts);
                                proof {
                                    assert(inst@ == with_toolset(
                                        tv,
                                        toolset_for_version(tv.installation_version).unwrap(),
                                    ));
                                }
                                candidates.push(inst);
                                proof {
                                    assert(candidates.deep_view() =~= old_dv.push(inst@));
                                }
                            },
                            Option::None => {},
                        }
                    },
                    Result::Err(_) => {},
                }
            },
            Result::Err(_) => {},
        }
        i += 1;
    }
    proof {
        assert(raws_seq.take(raws_seq.len() as int) =~= raws_seq);
    }
    // structural deduplication, keeping the first occurrence
    let ghost mapped = candidates.deep_view();
    let mut unique: Vec<VisualStudioInstallationInstance> = Vec::new();
    let ghost mut j: int = 0;
    proof {
        assert(unique.deep_view() =~= dedup_keep_first(mapped.take(0)));
        assert(candidates.deep_view() =~= mapped.skip(0));
    }
    while candidates.len() > 0
        invariant
            0 <= j,
            j + candidates@.len() == mapped.len(),
            candidates.deep_view() == mapped.skip(j),
            unique.deep_view() == dedup_keep_first(mapped.take(j)),
        decreases candidates@.len(),
    {
        let ghost before = candidates@;
        let ghost before_dv = candidates.deep_view();
        let x = candidates.remove(0);
        proof {
            assert(mapped.skip(j)[0] == mapped[j]);
            assert(x@ == mapped[j]);
            assert(candidates@ =~= before.skip(1));
            assert forall|m: int|
                0 <= m < candidates@.len() implies candidates.deep_view()[m] == mapped.skip(
                j + 1,
            )[m] by {
                assert(candidates@[m] == before[m + 1]);
                assert(before_dv[m + 1] == before[m + 1].deep_view());
            }
            assert(candidates.deep_view() =~= mapped.skip(j + 1));
            assert(mapped.take(j + 1).drop_last() =~= mapped.take(j));
            assert(mapped.take(j + 1).last() == mapped[j]);
        }
        let ghost old_dv = unique.deep_view();
        if !toolchains_contain(&unique, &x) {
            unique.push(x);
            proof {
                assert(unique.deep_view() =~= old_dv.push(mapped[j]));
            }
        }
        proof {
            j = j + 1;
        }
    }
    proof {
        assert(mapped.take(mapped.len() as int) =~= mapped);
    }
    // rank by installation version, latest first
    let ghost deduped = unique.deep_view();
    let mut ranked: Vec<VisualStudioInstallationInstance> = Vec::new();
    let ghost mut k: int = 0;
    proof {
        assert(ranked.deep_view() =~= toolchain_sort(deduped.take(0)));
        assert(unique.deep_view() =~= deduped.skip(0));
    }
    while unique.len() > 0
        invariant
            0 <= k,
            k + unique@.len() == deduped.len(),
            unique.deep_view() == deduped.skip(k),
            ranked.deep_view() == toolchain_sort(deduped.take(k)),
        decreases unique@.len(),
    {
        let ghost before_u = unique@;
        let ghost before_u_dv = unique.deep_view();
        let x = unique.remove(0);
        proof {
            assert(deduped.skip(k)[0] == deduped[k]);
            assert(x@ == deduped[k]);
            assert(unique@ =~= before_u.skip(1));
            assert forall|m: int|
                0 <= m < unique@.len() implies unique.deep_view()[m] == deduped.skip(k + 1)[m] by {
                assert(unique@[m] == before_u[m + 1]);
                assert(before_u_dv[m + 1] == before_u[m + 1].deep_view());
            }
            assert(unique.deep_view() =~= deduped.skip(k + 1));
            assert(deduped.take(k + 1).drop_last() =~= deduped.take(k));
            assert(deduped.take(k + 1).last() == deduped[k]);
        }
        let ghost sorted = ranked.deep_view();
        let mut p: usize = 0;
        let mut found: bool = false;
        proof {
            assert(sorted.skip(0) =~= sorted);
            assert(toolchain_insert(sorted, x@) == sorted.take(0) + toolchain_insert(
                sorted.skip(0),
                x@,
            ));
        }
        while p < ranked.len() && !found
            invariant
                p <= sorted.len(),
                ranked.deep_view() == sorted,
                x@ == deduped[k],
                found ==> p < sorted.len() && version_cmp(
                    sorted[p as int].installation_version,
                    x@.installation_version,
                ) == VersionOrder::Greater,
                toolchain_insert(sorted, x@) == sorted.take(p as int) + toolchain_insert(
                    sorted.skip(p as int),
                    x@,
                ),
            decreases sorted.len() - p, (if found { 0int } else { 1int }),
        {
            proof {
                assert(sorted.skip(p as int)[0] == sorted[p as int]);
                assert(ranked@[p as int].deep_view() == ranked.deep_view()[p as int]);
            }
            let c = crate::version::compare_versions(
                ranked[p].installation_version.as_str(),
                x.installation_version.as_str(),
            );
            match c {
                VersionOrder::Greater => {
                    found = true;
                },
                _ => {
                    proof {
                        assert(sorted.skip(p as int).skip(1) =~= sorted.skip(p as int + 1));
                        assert(sorted.take(p as int).push(sorted[p as int]) =~= sorted.take(
                            p as int + 1,
                        ));
                        assert(toolchain_insert(sorted, x@) == sorted.take(p as int + 1)
                            + toolchain_insert(sorted.skip(p as int + 1), x@));
                    }
                    p += 1;
                },
            }
        }
        proof {
            if found {
                assert(toolchain_insert(sorted.skip(p as int), x@) =~= seq![x@] + sorted.skip(
                    p as int,
                ));
            } else {
                assert(p == sorted.len());
                assert(sorted.skip(p as int) =~= Seq::<ToolchainView>::empty());
                assert(toolchain_insert(sorted.skip(p as int), x@) =~= seq![x@]);
            }
            assert(toolchain_insert(sorted, x@) == sorted.take(p as int) + seq![x@] + sorted.skip(
                p as int,
            ));
        }
        let ghost before_r = ranked@;
        ranked.insert(p, x);
        proof {
            assert forall|m: int|
                0 <= m < ranked@.len() implies ranked.deep_view()[m] == (sorted.take(p as int)
                + seq![deduped[k]] + sorted.skip(p as int))[m] by {
                if m < p {
                    assert(ranked@[m] == before_r[m]);
                } else if m == p {
                    assert(ranked@[m] == x);
                } else {
                    assert(ranked@[m] == before_r[m - 1]);
                }
            }
            assert(ranked.deep_view() =~= sorted.take(p as int) + seq![deduped[k]] + sorted.skip(
                p as int,
            ));
            k = k + 1;
        }
    }
    proof {
        assert(deduped.take(deduped.len() as int) =~= deduped);
    }
    ranked
}

/// The toolset label of the best-ranked toolchain, or nothing when no
/// toolchain survives discovery.
pub fn get_lasted_platform_toolset(raws: Vec<Result<RawSetupInstance, i32>>) -> (r: Option<String>)
    ensures
        opt_string_view(r) == (if toolchains_spec(raws@).len() == 0 {
            Option::<Seq<char>>::None
        } else {
            Option::Some(toolchains_spec(raws@)[0].platform_toolset)
        }),
{
    let toolchains = get_toolchains(raws);
    if toolchains.len() == 0 {
        Option::None
    } else {
        proof {
            assert(toolchains.deep_view()[0] == toolchains@[0]@);
        }
        Option::Some(toolchains[0].platform_toolset.clone())
    }
}

} // verus!
