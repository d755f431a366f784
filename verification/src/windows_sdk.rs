//! Discovery of Windows platform SDK installations.
//!
//! The caller probes each candidate SDK root (a registry value or a
//! `Windows Kits` directory under a program-files root) and hands over one
//! [`SdkRootEvidence`] record per root: whether the root's `Include`
//! directory exists and is listable, and for each of its entries the entry
//! name and which marker files are present. This module validates that
//! evidence, builds the normalized SDK records, deduplicates them and ranks
//! them by target platform version. No evidence — no candidates; absence is
//! never an error.

use crate::aggregate::dedup_keep_first;
use crate::aggregate::pairwise_distinct;
use crate::toolchain::opt_string_view;
use crate::toolchain::DirPath;
use crate::version::version_cmp;
use crate::version::VersionOrder;
use vstd::prelude::*;

verus! {

/// The Windows generation an SDK targets.
#[derive(Clone, Copy, Debug, PartialEq, Eq, Structural)]
pub enum SdkVersion {
    Win8,
    Win10,
}

/// One normalized Windows SDK installation.
#[derive(Debug)]
pub struct WindowsSdk {
    pub windows_version: SdkVersion,
    pub windows_target_platform_version: String,
    pub path: DirPath,
}

/// The mathematical content of a [`WindowsSdk`].
pub ghost struct WindowsSdkView {
    pub windows_version: SdkVersion,
    pub windows_target_platform_version: Seq<char>,
    pub path: Seq<char>,
}

impl View for WindowsSdk {
    type V = WindowsSdkView;

    open spec fn view(&self) -> WindowsSdkView {
        WindowsSdkView {
            windows_version: self.windows_version,
            windows_target_platform_version: self.windows_target_platform_version@,
            path: self.path@,
        }
    }
}

impl DeepView for WindowsSdk {
    type V = WindowsSdkView;

    open spec fn deep_view(&self) -> WindowsSdkView {
        self.view()
    }
}

/// What the prober observed about one entry of an SDK root's `Include`
/// directory: the entry's name (`None` where the OS name was not valid
/// Unicode) and whether the two marker files exist under it.
pub struct SdkDirEntry {
    pub name: Option<String>,
    pub has_um_windows_h: bool,
    pub has_shared_sdkddkver_h: bool,
}

/// What the prober observed about one candidate SDK root directory.
pub struct SdkRootEvidence {
    pub root: String,
    pub include_exists: bool,
    pub include_listable: bool,
    pub entries: Vec<SdkDirEntry>,
}

/// Joining two path segments with a backslash.
pub open spec fn path_join(a: Seq<char>, b: Seq<char>) -> Seq<char> {
    a + seq!['\\'] + b
}

/// Joins two path segments, as `path_join` describes.
pub fn join_path(a: &str, b: &str) -> (r: String)
    ensures
        r@ == path_join(a@, b@),
{
    let mut r = String::from_str(a);
    r.append("\\");
    r.append(b);
    proof {
        reveal_strlit("\\");
        assert("\\"@ =~= seq!['\\']);
    }
    r
}

/// Whether an `Include` entry name marks a Windows 10 SDK version
/// subdirectory: it starts with `10`.
pub open spec fn is_win10_entry_name(n: Seq<char>) -> bool {
    n.len() >= 2 && n[0] == '1' && n[1] == '0'
}

fn starts_with_10(s: &str) -> (r: bool)
    ensures
        r == is_win10_entry_name(s@),
{
    if s.unicode_len() < 2 {
        return false;
    }
    s.get_char(0) == '1' && s.get_char(1) == '0'
}

/// The Windows 10 SDK record one `Include` entry yields, if any: the entry
/// name must be decoded text starting with `10`, and both marker files
/// (`um\windows.h` and `shared\sdkddkver.h`) must be present. A failing
/// entry yields nothing; its siblings are judged independently.
pub open spec fn win10_sdk_of_entry(root: Seq<char>, e: SdkDirEntry) -> Option<WindowsSdkView> {
    match e.name {
        Option::Some(n) => {
            if is_win10_entry_name(n@) && e.has_um_windows_h && e.has_shared_sdkddkver_h {
                Option::Some(
                    WindowsSdkView {
                        windows_version: SdkVersion::Win10,
                        windows_target_platform_version: n@,
                        path: path_join(path_join(root, "Include"@), n@),
                    },
                )
            } else {
                Option::None
            }
        },
        Option::None => Option::None,
    }
}

pub open spec fn win10_candidates(root: Seq<char>, entries: Seq<SdkDirEntry>) -> Seq<
    WindowsSdkView,
>
    decreases entries.len(),
{
    if entries.len() == 0 {
        Seq::<WindowsSdkView>::empty()
    } else {
        let prefix = win10_candidates(root, entries.drop_last());
        match win10_sdk_of_entry(root, entries.last()) {
            Option::Some(v) => prefix.push(v),
            Option::None => prefix,
        }
    }
}

/// The Windows 10 SDK records one probed root yields: nothing unless the
/// root's `Include` directory exists and is listable, else one record per
/// surviving version subdirectory.
pub open spec fn check_win10_spec(ev: SdkRootEvidence) -> Seq<WindowsSdkView> {
    if ev.include_exists && ev.include_listable {
        win10_candidates(ev.root@, ev.entries@)
    } else {
        Seq::<WindowsSdkView>::empty()
    }
}

/// The Windows 8.1 SDK record one probed root yields: exactly one, with the
/// fixed target platform version `8.1`, when the root's `Include` directory
/// exists and is listable; nothing otherwise.
pub open spec fn check_win81_spec(ev: SdkRootEvidence) -> Seq<WindowsSdkView> {
    if ev.include_exists && ev.include_listable {
        seq![
            WindowsSdkView {
                windows_version: SdkVersion::Win8,
                windows_target_platform_version: "8.1"@,
                path: path_join(ev.root@, "Include"@),
            },
        ]
    } else {
        Seq::<WindowsSdkView>::empty()
    }
}

/// Validates one probed root against the Windows 10 SDK rules and appends
/// the surviving records, as `check_win10_spec` describes.
pub fn check_add_windows_10_sdk(ev: &SdkRootEvidence, valid_instance: Vec<WindowsSdk>) -> (r: Vec<
    WindowsSdk,
>)
    ensures
        r.deep_view() == valid_instance.deep_view() + check_win10_spec(*ev),
{
    let ghost base = valid_instance.deep_view();
    let mut out = valid_instance;
    if !ev.include_exists || !ev.include_listable {
        proof {
            assert(out.deep_view() =~= base + check_win10_spec(*ev));
        }
        return out;
    }
    let inc_dir = join_path(ev.root.as_str(), "Include");
    let mut i: usize = 0;
    proof {
        assert(win10_candidates(ev.root@, ev.entries@.take(0)) =~= Seq::<WindowsSdkView>::empty());
        assert(out.deep_view() =~= base + win10_candidates(ev.root@, ev.entries@.take(0)));
    }
    while i < ev.entries.len()
        invariant
            i <= ev.entries@.len(),
            inc_dir@ == path_join(ev.root@, "Include"@),
            out.deep_view() == base + win10_candidates(ev.root@, ev.entries@.take(i as int)),
        decreases ev.entries@.len() - i,
    {
        proof {
            assert(ev.entries@.take(i as int + 1).drop_last() =~= ev.entries@.take(i as int));
            assert(ev.entries@.take(i as int + 1).last() == ev.entries@[i as int]);
        }
        let e = &ev.entries[i];
        match &e.name {
            Option::Some(name) => {
                if starts_with_10(name.as_str()) && e.has_um_windows_h && e.has_shared_sdkddkver_h {
                    let path = join_path(inc_dir.as_str(), name.as_str());
                    let ghost old_dv = out.deep_view();
                    let sdk = WindowsSdk {
                        windows_version: SdkVersion::Win10,
                        windows_target_platform_version: name.clone(),
                        path: DirPath { text: path },
                    };
                    proof {
                        assert(sdk@ == win10_sdk_of_entry(ev.root@, ev.entries@[i as int]).unwrap());
                    }
                    out.push(sdk);
                    proof {
                        assert(out.deep_view() =~= old_dv.push(
                            win10_sdk_of_entry(ev.root@, ev.entries@[i as int]).unwrap(),
                        ));
                    }
                }
            },
            Option::None => {},
        }
        i += 1;
    }
    proof {
        assert(ev.entries@.take(ev.entries@.len() as int) =~= ev.entries@);
    }
    out
}

/// Validates one probed root against the Windows 8.1 SDK rules and appends
/// the surviving record, as `check_win81_spec` describes.
pub fn check_add_windows_81_sdk(ev: &SdkRootEvidence, valid_instance: Vec<WindowsSdk>) -> (r: Vec<
    WindowsSdk,
>)
    ensures
        r.deep_view() == valid_instance.deep_view() + check_win81_spec(*ev),
{
    let ghost base = valid_instance.deep_view();
    let mut out = valid_instance;
    if ev.include_exists && ev.include_listable {
        let path = join_path(ev.root.as_str(), "Include");
        let sdk = WindowsSdk {
            windows_version: SdkVersion::Win8,
            windows_target_platform_version: String::from_str("8.1"),
            path: DirPath { text: path },
        };
        out.push(sdk);
        proof {
            assert(out.deep_view() =~= base + check_win81_spec(*ev));
        }
    } else {
        proof {
            assert(out.deep_view() =~= base + check_win81_spec(*ev));
        }
    }
    out
}

pub open spec fn collect_win10(roots: Seq<SdkRootEvidence>) -> Seq<WindowsSdkView>
    decreases roots.len(),
{
    if roots.len() == 0 {
        Seq::<WindowsSdkView>::empty()
    } else {
        collect_win10(roots.drop_last()) + check_win10_spec(roots.last())
    }
}

pub open spec fn collect_win81(roots: Seq<SdkRootEvidence>) -> Seq<WindowsSdkView>
    decreases roots.len(),
{
    if roots.len() == 0 {
        Seq::<WindowsSdkView>::empty()
    } else {
        collect_win81(roots.drop_last()) + check_win81_spec(roots.last())
    }
}

/// Every SDK record the probed roots yield, Windows 10 candidates first, in
/// probe order, before deduplication and ranking.
pub open spec fn gathered_sdks(roots10: Seq<SdkRootEvidence>, roots81: Seq<SdkRootEvidence>) -> Seq<
    WindowsSdkView,
> {
    collect_win10(roots10) + collect_win81(roots81)
}

/// Stable insertion of an SDK record into a version-ranked sequence: it
/// goes after every record that does not rank strictly after it.
pub open spec fn sdk_insert(s: Seq<WindowsSdkView>, x: WindowsSdkView) -> Seq<WindowsSdkView>
    decreases s.len(),
{
    if s.len() == 0 {
        seq![x]
    } else if version_cmp(
        s[0].windows_target_platform_version,
        x.windows_target_platform_version,
    ) == VersionOrder::Greater {
        seq![x] + s
    } else {
        seq![s[0]] + sdk_insert(s.skip(1), x)
    }
}

/// Stable ranking of SDK records by target platform version, latest first
/// under the ranking comparator.
pub open spec fn sdk_sort(s: Seq<WindowsSdkView>) -> Seq<WindowsSdkView>
    decreases s.len(),
{
    if s.len() == 0 {
        Seq::<WindowsSdkView>::empty()
    } else {
        sdk_insert(sdk_sort(s.drop_last()), s.last())
    }
}

/// The whole SDK discovery pipeline: validate the probed roots, collapse
/// structurally identical records, rank by target platform version.
pub open spec fn windows_sdk_spec(
    roots10: Seq<SdkRootEvidence>,
    roots81: Seq<SdkRootEvidence>,
) -> Seq<WindowsSdkView> {
    sdk_sort(dedup_keep_first(gathered_sdks(roots10, roots81)))
}

/// Whether a sequence of SDK records is ranked: no record ranks strictly
/// after an earlier one under the version comparator.
pub open spec fn sdk_ranked(s: Seq<WindowsSdkView>) -> bool {
    forall|i: int, j: int|
        0 <= i < j < s.len() ==> version_cmp(
            s[i].windows_target_platform_version,
            s[j].windows_target_platform_version,
        ) != VersionOrder::Greater
}

proof fn lemma_sdk_insert_ranked(s: Seq<WindowsSdkView>, x: WindowsSdkView)
    requires
        sdk_ranked(s),
    ensures
        sdk_ranked(sdk_insert(s, x)),
        forall|m: int|
            0 <= m < sdk_insert(s, x).len() ==> sdk_insert(s, x)[m] == x || s.contains(
                sdk_insert(s, x)[m],
            ),
    decreases s.len(),
{
    let r = sdk_insert(s, x);
    let xv = x.windows_target_platform_version;
    if s.len() == 0 {
        assert(r =~= seq![x]);
    } else if version_cmp(s[0].windows_target_platform_version, xv) == VersionOrder::Greater {
        assert(r =~= seq![x] + s);
        crate::version::lemma_version_order_asymmetric(s[0].windows_target_platform_version, xv);
        assert forall|i: int, j: int|
            0 <= i < j < r.len() implies version_cmp(
            r[i].windows_target_platform_version,
            r[j].windows_target_platform_version,
        ) != VersionOrder::Greater by {
            if i == 0 && j >= 2 {
                let sv = s[0].windows_target_platform_version;
                let tv = s[j - 1].windows_target_platform_version;
                if version_cmp(sv, tv) == VersionOrder::Less {
                    crate::version::lemma_version_order_asymmetric(xv, sv);
                    crate::version::lemma_version_order_transitive(xv, sv, tv);
                } else {
                    crate::version::lemma_version_order_less_then_tie(xv, sv, tv);
                }
            }
        }
        assert forall|m: int| 0 <= m < r.len() implies r[m] == x || s.contains(r[m]) by {
            if m >= 1 {
                assert(r[m] == s[m - 1]);
            }
        }
    } else {
        let s1 = s.skip(1);
        assert(r =~= seq![s[0]] + sdk_insert(s1, x));
        assert forall|i: int, j: int|
            0 <= i < j < s1.len() implies version_cmp(
            s1[i].windows_target_platform_version,
            s1[j].windows_target_platform_version,
        ) != VersionOrder::Greater by {
            assert(s1[i] == s[i + 1]);
            assert(s1[j] == s[j + 1]);
        }
        lemma_sdk_insert_ranked(s1, x);
        let r1 = sdk_insert(s1, x);
        assert forall|i: int, j: int|
            0 <= i < j < r.len() implies version_cmp(
            r[i].windows_target_platform_version,
            r[j].windows_target_platform_version,
        ) != VersionOrder::Greater by {
            if i == 0 {
                let e = r1[j - 1];
                assert(r[j] == e);
                if e == x {
                } else {
                    let m = choose|m: int| 0 <= m < s1.len() && s1[m] == e;
                    assert(s1[m] == s[m + 1]);
                }
            } else {
                assert(r[i] == r1[i - 1]);
                assert(r[j] == r1[j - 1]);
            }
        }
        assert forall|m: int| 0 <= m < r.len() implies r[m] == x || s.contains(r[m]) by {
            if m == 0 {
                assert(s.contains(s[0]));
            } else {
                let e = r1[m - 1];
                assert(r[m] == e);
                if e != x {
                    let q = choose|q: int| 0 <= q < s1.len() && s1[q] == e;
                    assert(s[q + 1] == e);
                    assert(s.contains(e));
                }
            }
        }
    }
}

proof fn lemma_sdk_sort_ranked(s: Seq<WindowsSdkView>)
    ensures
        sdk_ranked(sdk_sort(s)),
    decreases s.len(),
{
    if s.len() > 0 {
        lemma_sdk_sort_ranked(s.drop_last());
        lemma_sdk_insert_ranked(sdk_sort(s.drop_last()), s.last());
    }
}

/// The SDK discovery result is genuinely ranked: no record in it ranks
/// strictly after an earlier one, so the head ranks no later than any other
/// surviving record.
pub proof fn lemma_windows_sdk_spec_ranked(
    roots10: Seq<SdkRootEvidence>,
    roots81: Seq<SdkRootEvidence>,
)
    ensures
        sdk_ranked(windows_sdk_spec(roots10, roots81)),
{
    lemma_sdk_sort_ranked(dedup_keep_first(gathered_sdks(roots10, roots81)));
}

/// Aggregation collapses structurally identical SDK records: however many
/// probed roots (registry-derived or filesystem-derived) yield field-wise
/// identical records, exactly one survives deduplication, and no record is
/// invented or lost.
pub proof fn lemma_sdk_duplicates_collapse(
    roots10: Seq<SdkRootEvidence>,
    roots81: Seq<SdkRootEvidence>,
)
    ensures
        pairwise_distinct(dedup_keep_first(gathered_sdks(roots10, roots81))),
        forall|x: WindowsSdkView|
            dedup_keep_first(gathered_sdks(roots10, roots81)).contains(x) == gathered_sdks(
                roots10,
                roots81,
            ).contains(x),
{
    crate::aggregate::lemma_dedup_collapses_duplicates(gathered_sdks(roots10, roots81));
}

proof fn lemma_sdk_insert_distinct(s: Seq<WindowsSdkView>, x: WindowsSdkView)
    requires
        pairwise_distinct(s),
        !s.contains(x),
    ensures
        pairwise_distinct(sdk_insert(s, x)),
        forall|e: WindowsSdkView|
            sdk_insert(s, x).contains(e) == (s.contains(e) || e == x),
    decreases s.len(),
{
    let r = sdk_insert(s, x);
    if s.len() == 0 {
        assert(r =~= seq![x]);
        assert forall|e: WindowsSdkView| r.contains(e) == (s.contains(e) || e == x) by {
            if e == x {
                assert(r[0] == e);
            }
        }
    } else if version_cmp(
        s[0].windows_target_platform_version,
        x.windows_target_platform_version,
    ) == VersionOrder::Greater {
        assert(r =~= seq![x] + s);
        assert forall|i: int, j: int| 0 <= i < j < r.len() implies r[i] != r[j] by {
            if i == 0 {
                assert(s.contains(s[j - 1]));
            }
        }
        assert forall|e: WindowsSdkView| r.contains(e) == (s.contains(e) || e == x) by {
            if r.contains(e) {
                let m = choose|m: int| 0 <= m < r.len() && r[m] == e;
                if m >= 1 {
                    assert(s[m - 1] == e);
                    assert(s.contains(e));
                }
            }
            if s.contains(e) {
                let m = choose|m: int| 0 <= m < s.len() && s[m] == e;
                assert(r[m + 1] == e);
                assert(r.contains(e));
            }
            if e == x {
                assert(r[0] == e);
            }
        }
    } else {
        let s1 = s.skip(1);
        assert(r =~= seq![s[0]] + sdk_insert(s1, x));
        assert forall|i: int, j: int| 0 <= i < j < s1.len() implies s1[i] != s1[j] by {
            assert(s1[i] == s[i + 1]);
            assert(s1[j] == s[j + 1]);
        }
        assert(!s1.contains(x)) by {
            if s1.contains(x) {
                let m = choose|m: int| 0 <= m < s1.len() && s1[m] == x;
                assert(s[m + 1] == x);
                assert(s.contains(x));
            }
        }
        lemma_sdk_insert_distinct(s1, x);
        let r1 = sdk_insert(s1, x);
        assert(s.contains(s[0]));
        assert forall|i: int, j: int| 0 <= i < j < r.len() implies r[i] != r[j] by {
            if i == 0 {
                let e = r1[j - 1];
                assert(r1.contains(e));
                assert(r1.contains(e) == (s1.contains(e) || e == x));
                if e == x {
                } else {
                    assert(s1.contains(e));
                    let m = choose|m: int| 0 <= m < s1.len() && s1[m] == e;
                    assert(s1[m] == s[m + 1]);
                }
            } else {
                assert(r[i] == r1[i - 1]);
                assert(r[j] == r1[j - 1]);
            }
        }
        assert forall|e: WindowsSdkView| r.contains(e) == (s.contains(e) || e == x) by {
            if r.contains(e) {
                let m = choose|m: int| 0 <= m < r.len() && r[m] == e;
                if m == 0 {
                } else {
                    assert(r1[m - 1] == e);
                    assert(r1.contains(e));
                    assert(r1.contains(e) == (s1.contains(e) || e == x));
                    if e != x {
                        let q = choose|q: int| 0 <= q < s1.len() && s1[q] == e;
                        assert(s1[q] == s[q + 1]);
                        assert(s.contains(e));
                    }
                }
            }
            if s.contains(e) {
                let m = choose|m: int| 0 <= m < s.len() && s[m] == e;
                if m == 0 {
                    assert(r[0] == e);
                } else {
                    assert(s1[m - 1] == s[m]);
                    assert(s1.contains(e));
                    assert(r1.contains(e) == (s1.contains(e) || e == x));
                    let q = choose|q: int| 0 <= q < r1.len() && r1[q] == e;
                    assert(r[q + 1] == e);
                }
                assert(r.contains(e));
            }
            if e == x {
                assert(r1.contains(e) == (s1.contains(e) || e == x));
                let q = choose|q: int| 0 <= q < r1.len() && r1[q] == e;
                assert(r[q + 1] == e);
                assert(r.contains(e));
            }
        }
    }
}

proof fn lemma_sdk_sort_distinct(s: Seq<WindowsSdkView>)
    requires
        pairwise_distinct(s),
    ensures
        pairwise_distinct(sdk_sort(s)),
        forall|e: WindowsSdkView| sdk_sort(s).contains(e) == s.contains(e),
    decreases s.len(),
{
    if s.len() == 0 {
        assert forall|e: WindowsSdkView| sdk_sort(s).contains(e) == s.contains(e) by {}
    } else {
        let dl = s.drop_last();
        assert forall|i: int, j: int| 0 <= i < j < dl.len() implies dl[i] != dl[j] by {
            assert(dl[i] == s[i]);
            assert(dl[j] == s[j]);
        }
        lemma_sdk_sort_distinct(dl);
        assert(!dl.contains(s.last())) by {
            if dl.contains(s.last()) {
                let m = choose|m: int| 0 <= m < dl.len() && dl[m] == s.last();
                assert(s[m] == s[s.len() - 1]);
            }
        }
        lemma_sdk_insert_distinct(sdk_sort(dl), s.last());
        assert forall|e: WindowsSdkView| sdk_sort(s).contains(e) == s.contains(e) by {
            if s.contains(e) {
                let m = choose|m: int| 0 <= m < s.len() && s[m] == e;
                if m < s.len() - 1 {
                    assert(dl[m] == e);
                    assert(dl.contains(e));
                }
            }
            if dl.contains(e) {
                let m = choose|m: int| 0 <= m < dl.len() && dl[m] == e;
                assert(s[m] == e);
                assert(s.contains(e));
            }
            if e == s.last() {
                assert(s.contains(e));
            }
        }
    }
}

/// The SDK discovery result holds no two field-wise identical records:
/// duplicates collapsed by aggregation stay collapsed through ranking.
pub proof fn lemma_windows_sdk_spec_distinct(
    roots10: Seq<SdkRootEvidence>,
    roots81: Seq<SdkRootEvidence>,
)
    ensures
        pairwise_distinct(windows_sdk_spec(roots10, roots81)),
{
    crate::aggregate::lemma_dedup_collapses_duplicates(gathered_sdks(roots10, roots81));
    lemma_sdk_sort_distinct(dedup_keep_first(gathered_sdks(roots10, roots81)));
}

/// Structural equality of two SDK records: every field equal.
fn sdk_eq(a: &WindowsSdk, b: &WindowsSdk) -> (r: bool)
    ensures
        r == (a@ == b@),
{
    let r = a.windows_version == b.windows_version && a.windows_target_platform_version
        == b.windows_target_platform_version && a.path.text == b.path.text;
    proof {
        if r {
            assert(a@ == b@);
        }
    }
    r
}

fn sdks_contain(v: &Vec<WindowsSdk>, x: &WindowsSdk) -> (r: bool)
    ensures
        r == v.deep_view().contains(x@),
{
    let mut i: usize = 0;
    while i < v.len()
        invariant
            i <= v@.len(),
            forall|k: int| 0 <= k < i ==> v.deep_view()[k] != x@,
        decreases v@.len() - i,
    {
        if sdk_eq(&v[i], x) {
            proof {
                assert(v.deep_view()[i as int] == x@);
            }
            return true;
        }
        i += 1;
    }
    false
}

/// Validates every probed root, deduplicates and ranks the surviving SDK
/// records, as `windows_sdk_spec` describes: the result holds exactly the
/// surviving records, latest target platform version first.
pub fn get_windows_sdk(roots10: Vec<SdkRootEvidence>, roots81: Vec<SdkRootEvidence>) -> (r: Vec<
    WindowsSdk,
>)
    ensures
        r.deep_view() == windows_sdk_spec(roots10@, roots81@),
{
    let mut windows_sdk: Vec<WindowsSdk> = Vec::new();
    let mut i: usize = 0;
    proof {
        assert(windows_sdk.deep_view() =~= collect_win10(roots10@.take(0)));
    }
    while i < roots10.len()
        invariant
            i <= roots10@.len(),
            windows_sdk.deep_view() == collect_win10(roots10@.take(i as int)),
        decreases roots10@.len() - i,
    {
        proof {
            assert(roots10@.take(i as int + 1).drop_last() =~= roots10@.take(i as int));
            assert(roots10@.take(i as int + 1).last() == roots10@[i as int]);
        }
        windows_sdk = check_add_windows_10_sdk(&roots10[i], windows_sdk);
        i += 1;
    }
    proof {
        assert(roots10@.take(roots10@.len() as int) =~= roots10@);
        assert(collect_win81(roots81@.take(0)) =~= Seq::<WindowsSdkView>::empty());
        assert(windows_sdk.deep_view() =~= collect_win10(roots10@) + collect_win81(
            roots81@.take(0),
        ));
    }
    let mut j: usize = 0;
    while j < roots81.len()
        invariant
            j <= roots81@.len(),
            windows_sdk.deep_view() == collect_win10(roots10@) + collect_win81(
                roots81@.take(j as int),
            ),
        decreases roots81@.len() - j,
    {
        proof {
            assert(roots81@.take(j as int + 1).drop_last() =~= roots81@.take(j as int));
            assert(roots81@.take(j as int + 1).last() == roots81@[j as int]);
        }
        windows_sdk = check_add_windows_81_sdk(&roots81[j], windows_sdk);
        j += 1;
    }
    proof {
        assert(roots81@.take(roots81@.len() as int) =~= roots81@);
        assert(windows_sdk.deep_view() == gathered_sdks(roots10@, roots81@));
    }
    // structural deduplication, keeping the first occurrence
    let ghost gathered = windows_sdk.deep_view();
    let mut unique: Vec<WindowsSdk> = Vec::new();
    let ghost mut u: int = 0;
    proof {
        assert(unique.deep_view() =~= dedup_keep_first(gathered.take(0)));
        assert(windows_sdk.deep_view() =~= gathered.skip(0));
    }
    while windows_sdk.len() > 0
        invariant
            0 <= u,
            u + windows_sdk@.len() == gathered.len(),
            windows_sdk.deep_view() == gathered.skip(u),
            unique.deep_view() == dedup_keep_first(gathered.take(u)),
        decreases windows_sdk@.len(),
    {
        let ghost before = windows_sdk@;
        let ghost before_dv = windows_sdk.deep_view();
        let x = windows_sdk.remove(0);
        proof {
            assert(gathered.skip(u)[0] == gathered[u]);
            assert(x@ == gathered[u]);
            assert(windows_sdk@ =~= before.skip(1));
            assert forall|m: int|
                0 <= m < windows_sdk@.len() implies windows_sdk.deep_view()[m] == gathered.skip(
                u + 1,
            )[m] by {
                assert(windows_sdk@[m] == before[m + 1]);
                assert(before_dv[m + 1] == before[m + 1].deep_view());
            }
            assert(windows_sdk.deep_view() =~= gathered.skip(u + 1));
            assert(gathered.take(u + 1).drop_last() =~= gathered.take(u));
            assert(gathered.take(u + 1).last() == gathered[u]);
        }
        let ghost old_dv = unique.deep_view();
        if !sdks_contain(&unique, &x) {
            unique.push(x);
            proof {
                assert(unique.deep_view() =~= old_dv.push(gathered[u]));
            }
        }
        proof {
            u = u + 1;
        }
    }
    proof {
        assert(gathered.take(gathered.len() as int) =~= gathered);
    }
    // rank by target platform version, latest first
    let ghost deduped = unique.deep_view();
    let mut ranked: Vec<WindowsSdk> = Vec::new();
    let ghost mut k: int = 0;
    proof {
        assert(ranked.deep_view() =~= sdk_sort(deduped.take(0)));
        assert(unique.deep_view() =~= deduped.skip(0));
    }
    while unique.len() > 0
        invariant
            0 <= k,
            k + unique@.len() == deduped.len(),
            unique.deep_view() == deduped.skip(k),
            ranked.deep_view() == sdk_sort(deduped.take(k)),
        decreases unique@.len(),
    {
        let ghost before_u = unique@;
        let ghost before_u_dv = unique.deep_view();
        let x = unique.remove(0);
        proof {
            assert(deduped.skip(k)[0] == deduped[k]);
            assert(x@ == deduped[k]);
            assert(unique@ =~= before_u.skip(1));
            assert forall|m: int|
                0 <= m < unique@.len() implies unique.deep_view()[m] == deduped.skip(k + 1)[m] by {
                assert(unique@[m] == before_u[m + 1]);
                assert(before_u_dv[m + 1] == before_u[m + 1].deep_view());
            }
            assert(unique.deep_view() =~= deduped.skip(k + 1));
            assert(deduped.take(k + 1).drop_last() =~= deduped.take(k));
            assert(deduped.take(k + 1).last() == deduped[k]);
        }
        let ghost sorted = ranked.deep_view();
        let mut p: usize = 0;
        let mut found: bool = false;
        proof {
            assert(sorted.skip(0) =~= sorted);
            assert(sdk_insert(sorted, x@) == sorted.take(0) + sdk_insert(sorted.skip(0), x@));
        }
        while p < ranked.len() && !found
            invariant
                p <= sorted.len(),
                ranked.deep_view() == sorted,
                x@ == deduped[k],
                found ==> p < sorted.len() && version_cmp(
                    sorted[p as int].windows_target_platform_version,
                    x@.windows_target_platform_version,
                ) == VersionOrder::Greater,
                sdk_insert(sorted, x@) == sorted.take(p as int) + sdk_insert(
                    sorted.skip(p as int),
                    x@,
                ),
            decreases sorted.len() - p, (if found {
                0int
            } else {
                1int
            }),
        {
            proof {
                assert(sorted.skip(p as int)[0] == sorted[p as int]);
                assert(ranked@[p as int].deep_view() == ranked.deep_view()[p as int]);
            }
            let c = crate::version::compare_versions(
                ranked[p].windows_target_platform_version.as_str(),
                x.windows_target_platform_version.as_str(),
            );
            match c {
                VersionOrder::Greater => {
                    found = true;
                },
                _ => {
                    proof {
                        assert(sorted.skip(p as int).skip(1) =~= sorted.skip(p as int + 1));
                        assert(sorted.take(p as int).push(sorted[p as int]) =~= sorted.take(
                            p as int + 1,
                        ));
                        assert(sdk_insert(sorted, x@) == sorted.take(p as int + 1) + sdk_insert(
                            sorted.skip(p as int + 1),
                            x@,
                        ));
                    }
                    p += 1;
                },
            }
        }
        proof {
            if found {
                assert(sdk_insert(sorted.skip(p as int), x@) =~= seq![x@] + sorted.skip(p as int));
            } else {
                assert(p == sorted.len());
                assert(sorted.skip(p as int) =~= Seq::<WindowsSdkView>::empty());
                assert(sdk_insert(sorted.skip(p as int), x@) =~= seq![x@]);
            }
            assert(sdk_insert(sorted, x@) == sorted.take(p as int) + seq![x@] + sorted.skip(
                p as int,
            ));
        }
        let ghost before_r = ranked@;
        ranked.insert(p, x);
        proof {
            assert forall|m: int|
                0 <= m < ranked@.len() implies ranked.deep_view()[m] == (sorted.take(p as int)
                + seq![deduped[k]] + sorted.skip(p as int))[m] by {
                if m < p {
                    assert(ranked@[m] == before_r[m]);
                } else if m == p {
                    assert(ranked@[m] == x);
                } else {
                    assert(ranked@[m] == before_r[m - 1]);
                }
            }
            assert(ranked.deep_view() =~= sorted.take(p as int) + seq![deduped[k]] + sorted.skip(
                p as int,
            ));
            k = k + 1;
        }
    }
    proof {
        assert(deduped.take(deduped.len() as int) =~= deduped);
    }
    ranked
}

/// The target platform version of the best-ranked SDK, or nothing when no
/// SDK survives discovery. An empty result is a normal outcome, not a
/// failure.
pub fn get_latest_windows_sdk(roots10: Vec<SdkRootEvidence>, roots81: Vec<SdkRootEvidence>) -> (r:
    Option<String>)
    ensures
        opt_string_view(r) == (if windows_sdk_spec(roots10@, roots81@).len() == 0 {
            Option::<Seq<char>>::None
        } else {
            Option::Some(windows_sdk_spec(roots10@, roots81@)[0].windows_target_platform_version)
        }),
{
    let sdks = get_windows_sdk(roots10, roots81);
    if sdks.len() == 0 {
        Option::None
    } else {
        proof {
            assert(sdks.deep_view()[0] == sdks@[0]@);
        }
        Option::Some(sdks[0].windows_target_platform_version.clone())
    }
}

} // verus!
