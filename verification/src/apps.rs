//! The trusted-application catalog: the curated identifier list, path
//! resolution from registry lookups with a system-directory fallback,
//! friendly-name derivation, and the assembled "open with" candidate list.

use vstd::prelude::*;
use crate::text::{
    base_name, base_name_spec, contains_char, ends_with, ends_with_spec, eq_fold, eq_ignore_case,
    first_at, lemma_first_at_found, lemma_first_at_missing, lemma_first_at_range, stem_of, stem_spec, str_eq, trim_nuls,
    trim_nuls_spec,
};

verus! {

/// The fixed, curated list of application identifiers considered for the
/// "open with" menu, in its significant order.
pub open spec fn trusted_apps_spec() -> Seq<Seq<char>> {
    seq![
        "mspaint.exe"@,
        "Fireworks.exe"@,
        "Photoshop.exe"@,
        "sdraw.exe"@,
        "Affinity.exe"@,
        "AffinityPhoto.exe"@,
        "AffinityDesigner.exe"@,
        "AffinityPublisher.exe"@,
        "C:\\Program Files\\Affinity\\Affinity\\Affinity.exe"@,
        "ImageJ.exe"@,
        "C:\\ImageJ\\ImageJ.exe"@,
        "xnview.exe"@,
        "FSViewer.exe"@,
        "i_view64.exe"@,
        "paintdotnet.exe"@,
        "gimp.exe"@,
        "nomacs.exe"@,
        "picasa.exe"@,
        "Honeyview.exe"@,
        "FastPictureViewer.exe"@,
        "acdsee.exe"@,
        "lightroom.exe"@,
        "voidImageViewer.exe"@,
        "C:\\Program Files\\voidImageViewer\\voidImageViewer.exe"@,
        "chrome.exe"@,
        "firefox.exe"@,
        "msedge.exe"@,
    ]
}

/// The curated application identifiers, in their significant order.
pub fn trusted_apps() -> (r: Vec<&'static str>)
    ensures
        r@.map_values(|s: &str| s@) == trusted_apps_spec(),
{
    let r: Vec<&'static str> = vec![
        "mspaint.exe",
        "Fireworks.exe",
        "Photoshop.exe",
        "sdraw.exe",
        "Affinity.exe",
        "AffinityPhoto.exe",
        "AffinityDesigner.exe",
        "AffinityPublisher.exe",
        "C:\\Program Files\\Affinity\\Affinity\\Affinity.exe",
        "ImageJ.exe",
        "C:\\ImageJ\\ImageJ.exe",
        "xnview.exe",
        "FSViewer.exe",
        "i_view64.exe",
        "paintdotnet.exe",
        "gimp.exe",
        "nomacs.exe",
        "picasa.exe",
        "Honeyview.exe",
        "FastPictureViewer.exe",
        "acdsee.exe",
        "lightroom.exe",
        "voidImageViewer.exe",
        "C:\\Program Files\\voidImageViewer\\voidImageViewer.exe",
        "chrome.exe",
        "firefox.exe",
        "msedge.exe",
    ];
    proof {
        assert(r@.map_values(|s: &str| s@) =~= trusted_apps_spec());
    }
    r
}

/// A packaged-application identifier: it holds the package separator marker
/// and does not end in the classic executable suffix.
pub open spec fn is_uwp_spec(id: Seq<char>) -> bool {
    id.contains('!') && !ends_with_spec(id, ".exe"@)
}

/// Whether the identifier names a packaged application.
pub fn is_uwp(id: &str) -> (r: bool)
    ensures
        r == is_uwp_spec(id@),
{
    contains_char(id, '!') && !ends_with(id, ".exe")
}

/// The display label of a packaged application: a hard-coded friendly label
/// for the two known identifiers, else the part before the separator marker,
/// else the identifier itself, so that the label is empty only for an empty
/// identifier.
pub open spec fn uwp_label_spec(id: Seq<char>) -> Seq<char> {
    if id == "Microsoft.Windows.Photos_8wekyb3d8bbwe!App"@ {
        "Photos"@
    } else if id == "Microsoft.Paint_8wekyb3d8bbwe!App"@ {
        "Paint"@
    } else if first_at(id, '!') > 0 {
        id.subrange(0, first_at(id, '!'))
    } else {
        id
    }
}

/// The label of a packaged application is empty only for an empty
/// identifier.
pub proof fn lemma_uwp_label_nonempty(id: Seq<char>)
    requires
        id.len() > 0,
    ensures
        uwp_label_spec(id).len() > 0,
{
    reveal_strlit("Photos");
    reveal_strlit("Paint");
    lemma_first_at_range(id, '!');
}

/// Derives the display label of a packaged-application identifier.  The
/// label is never empty for a non-empty identifier.
pub fn uwp_label(id: &str) -> (r: String)
    ensures
        r@ == uwp_label_spec(id@),
        id@.len() > 0 ==> r@.len() > 0,
{
    proof {
        if id@.len() > 0 {
            lemma_uwp_label_nonempty(id@);
        }
    }
    if str_eq(id, "Microsoft.Windows.Photos_8wekyb3d8bbwe!App") {
        return String::from_str("Photos");
    }
    if str_eq(id, "Microsoft.Paint_8wekyb3d8bbwe!App") {
        return String::from_str("Paint");
    }
    let len = id.unicode_len();
    let mut i: usize = 0;
    while i < len
        invariant
            len == id@.len(),
            0 <= i <= len,
            id@ != "Microsoft.Windows.Photos_8wekyb3d8bbwe!App"@,
            id@ != "Microsoft.Paint_8wekyb3d8bbwe!App"@,
            forall|j: int| 0 <= j < i ==> id@[j] != '!',
        decreases len - i,
    {
        if id.get_char(i) == '!' {
            proof {
                lemma_first_at_found(id@, '!', i as int);
            }
            if i > 0 {
                return String::from_str(id.substring_char(0, i));
            } else {
                return String::from_str(id);
            }
        }
        i = i + 1;
    }
    proof {
        lemma_first_at_missing(id@, '!');
    }
    String::from_str(id)
}

/// The view of an optional string.
pub open spec fn opt_str_view(o: Option<String>) -> Option<Seq<char>> {
    match o {
        Some(s) => Some(s@),
        None => None,
    }
}

/// The view of an optional byte buffer.
pub open spec fn opt_bytes_view(o: Option<Vec<u8>>) -> Option<Seq<u8>> {
    match o {
        Some(b) => Some(b@),
        None => None,
    }
}

/// The system-directory fallback location of an executable.
pub open spec fn system32_path_spec(windir: Seq<char>, exe: Seq<char>) -> Seq<char> {
    windir + "\\System32\\"@ + exe
}

/// Builds the system-directory fallback path for an executable.
pub fn system32_path(windir: &String, exe: &str) -> (r: String)
    ensures
        r@ == system32_path_spec(windir@, exe@),
{
    windir.clone().concat("\\System32\\").concat(exe)
}

/// Resolution of an executable name to an absolute path from the two registry
/// scopes and the system-directory fallback: the per-user value wins, then
/// the system-wide value, then the fallback path when it exists on disk.
pub open spec fn resolve_spec(
    exe: Seq<char>,
    user: Option<Seq<char>>,
    machine: Option<Seq<char>>,
    windir: Option<Seq<char>>,
    fallback_exists: bool,
) -> Option<Seq<char>> {
    if user is Some {
        user
    } else if machine is Some {
        machine
    } else if windir is Some && fallback_exists {
        Some(system32_path_spec(windir->0, exe))
    } else {
        None
    }
}

/// Resolves an executable name to an absolute path.
///
/// `user_path` and `machine_path` are the values the per-user and the
/// system-wide registry scope hold for this executable, `windir` the system
/// root directory, and `system_fallback_exists` whether the fallback path
/// under it exists on disk.  Returns nothing when no source yields a path:
/// a normal outcome, not an error.
pub fn resolve_app_path(
    exe: &str,
    user_path: Option<String>,
    machine_path: Option<String>,
    windir: Option<String>,
    system_fallback_exists: bool,
) -> (r: Option<String>)
    ensures
        opt_str_view(r) == resolve_spec(
            exe@,
            opt_str_view(user_path),
            opt_str_view(machine_path),
            opt_str_view(windir),
            system_fallback_exists,
        ),
{
    match user_path {
        Some(p) => Some(p),
        None => match machine_path {
            Some(p) => Some(p),
            None => {
                if system_fallback_exists {
                    match windir {
                        Some(w) => Some(system32_path(&w, exe)),
                        None => None,
                    }
                } else {
                    None
                }
            },
        },
    }
}

/// The views of a vector of strings.
pub open spec fn strs_views(v: Seq<String>) -> Seq<Seq<char>> {
    v.map_values(|s: String| s@)
}

/// The first version-resource string that is non-empty once trailing NULs
/// are removed, in query order.
pub open spec fn first_resource_label(rs: Seq<Seq<char>>) -> Option<Seq<char>>
    decreases rs.len(),
{
    if rs.len() == 0 {
        None
    } else if trim_nuls_spec(rs[0]).len() > 0 {
        Some(trim_nuls_spec(rs[0]))
    } else {
        first_resource_label(rs.drop_first())
    }
}

/// The friendly display name of a resolved executable: a hard-coded override
/// keyed on the case-folded base name wins; otherwise the first non-empty
/// trimmed version-resource string; otherwise the base name without its
/// extension; otherwise, when the path has no base name, the path itself.
/// Derivation never fails, and its result is empty only for an empty path.
pub open spec fn friendly_name_spec(path: Seq<char>, rs: Seq<Seq<char>>) -> Seq<char> {
    let name = base_name_spec(path);
    if eq_fold(name, "mspaint.exe"@) {
        "Paint"@
    } else if eq_fold(name, "photos.exe"@) {
        "Photos"@
    } else {
        match first_resource_label(rs) {
            Some(l) => l,
            None => {
                if stem_spec(name).len() > 0 {
                    stem_spec(name)
                } else {
                    path
                }
            },
        }
    }
}

/// Name derivation yields the empty string only for an empty path.
pub proof fn lemma_friendly_name_nonempty(path: Seq<char>, rs: Seq<Seq<char>>)
    requires
        path.len() > 0,
    ensures
        friendly_name_spec(path, rs).len() > 0,
{
    reveal_strlit("Paint");
    reveal_strlit("Photos");
    lemma_first_resource_label_nonempty(rs);
}

/// Derives the friendly display name of the executable at `exe_path`, given
/// the version-resource strings read from it in query order.  The name is
/// never empty for a non-empty path.
pub fn exe_friendly_name(exe_path: &str, resource_strings: &Vec<String>) -> (r: String)
    ensures
        r@ == friendly_name_spec(exe_path@, strs_views(resource_strings@)),
        exe_path@.len() > 0 ==> r@.len() > 0,
{
    proof {
        if exe_path@.len() > 0 {
            lemma_friendly_name_nonempty(exe_path@, strs_views(resource_strings@));
        }
    }
    let name = base_name(exe_path);
    if eq_ignore_case(name, "mspaint.exe") {
        return String::from_str("Paint");
    }
    if eq_ignore_case(name, "photos.exe") {
        return String::from_str("Photos");
    }
    let ghost rs = strs_views(resource_strings@);
    let n = resource_strings.len();
    let mut i: usize = 0;
    proof {
        assert(rs.skip(0) =~= rs);
    }
    while i < n
        invariant
            n == resource_strings@.len(),
            rs == strs_views(resource_strings@),
            0 <= i <= n,
            name@ == base_name_spec(exe_path@),
            !eq_fold(name@, "mspaint.exe"@),
            !eq_fold(name@, "photos.exe"@),
            first_resource_label(rs) == first_resource_label(rs.skip(i as int)),
        decreases n - i,
    {
        let trimmed = trim_nuls(resource_strings[i].as_str());
        proof {
            assert(rs[i as int] == resource_strings@[i as int]@);
            assert(rs.skip(i as int)[0] == rs[i as int]);
            assert(rs.skip(i as int).drop_first() =~= rs.skip(i + 1));
        }
        if trimmed.unicode_len() > 0 {
            proof {
                assert(first_resource_label(rs.skip(i as int)) == Some(
                    trim_nuls_spec(rs[i as int]),
                ));
            }
            return String::from_str(trimmed);
        }
        i = i + 1;
    }
    proof {
        assert(rs.skip(n as int).len() == 0);
    }
    let stem = stem_of(name);
    if stem.unicode_len() > 0 {
        String::from_str(stem)
    } else {
        String::from_str(exe_path)
    }
}

/// The identifier without its classic executable suffix, or unchanged when
/// there is no suffix or stripping would leave nothing.
pub open spec fn strip_exe_spec(id: Seq<char>) -> Seq<char> {
    if ends_with_spec(id, ".exe"@) && id.len() > 4 {
        id.subrange(0, id.len() - 4)
    } else {
        id
    }
}

/// Removes a trailing ".exe" from the identifier, keeping it unchanged when
/// there is no suffix or stripping would leave nothing.
pub fn strip_exe(id: &str) -> (r: String)
    ensures
        r@ == strip_exe_spec(id@),
{
    let len = id.unicode_len();
    if ends_with(id, ".exe") && len > 4 {
        proof {
            reveal_strlit(".exe");
        }
        String::from_str(id.substring_char(0, len - 4))
    } else {
        String::from_str(id)
    }
}

/// What one catalog pass gathered about one curated identifier: the raw
/// registry and filesystem lookup results, and, for the path those resolve
/// to, the version-resource strings and the rasterized icon.
pub struct AppProbe {
    pub identifier: String,
    pub user_path: Option<String>,
    pub machine_path: Option<String>,
    pub windir: Option<String>,
    pub system_fallback_exists: bool,
    pub resource_strings: Vec<String>,
    pub icon: Option<Vec<u8>>,
}

/// The path a probe's lookup results resolve to.
pub open spec fn probe_resolution(p: AppProbe) -> Option<Seq<char>> {
    resolve_spec(
        p.identifier@,
        opt_str_view(p.user_path),
        opt_str_view(p.machine_path),
        opt_str_view(p.windir),
        p.system_fallback_exists,
    )
}

/// The label of a resolved classic entry: the friendly name when it is
/// non-empty, else the identifier without its executable suffix, so that the
/// label is empty only for an empty identifier.
pub open spec fn classic_label_spec(id: Seq<char>, path: Seq<char>, rs: Seq<Seq<char>>) -> Seq<
    char,
> {
    if friendly_name_spec(path, rs).len() > 0 {
        friendly_name_spec(path, rs)
    } else {
        strip_exe_spec(id)
    }
}

/// The catalog entry a probe produces: packaged applications always appear,
/// with their derived label and no icon; classic executables appear exactly
/// when they resolve, with the friendly name and the probe's icon; an
/// unresolved identifier is omitted.
pub open spec fn entry_spec(p: AppProbe) -> Option<(Seq<char>, Seq<char>, Option<Seq<u8>>)> {
    if is_uwp_spec(p.identifier@) {
        Some((p.identifier@, uwp_label_spec(p.identifier@), None))
    } else {
        match probe_resolution(p) {
            Some(path) => Some(
                (
                    p.identifier@,
                    classic_label_spec(p.identifier@, path, strs_views(p.resource_strings@)),
                    opt_bytes_view(p.icon),
                ),
            ),
            None => None,
        }
    }
}

/// The candidate list assembled from a probe sequence, in probe order.
pub open spec fn catalog_spec(ps: Seq<AppProbe>) -> Seq<(Seq<char>, Seq<char>, Option<Seq<u8>>)>
    decreases ps.len(),
{
    if ps.len() == 0 {
        Seq::empty()
    } else {
        let rest = catalog_spec(ps.drop_last());
        match entry_spec(ps.last()) {
            Some(e) => rest.push(e),
            None => rest,
        }
    }
}

/// The views of a vector of catalog entries.
pub open spec fn entry_views(s: Seq<(String, String, Option<Vec<u8>>)>) -> Seq<
    (Seq<char>, Seq<char>, Option<Seq<u8>>),
> {
    s.map_values(|e: (String, String, Option<Vec<u8>>)| (e.0@, e.1@, opt_bytes_view(e.2)))
}

/// Assembles the "open with" candidate list from the probes of one catalog
/// pass, in probe order: `(identifier, label, icon)` per candidate.  An
/// identifier that does not resolve is silently omitted; the call itself
/// never fails, and every emitted label is non-empty except for an empty
/// identifier, which no curated identifier is.
pub fn get_open_with_apps(probes: Vec<AppProbe>) -> (r: Vec<(String, String, Option<Vec<u8>>)>)
    ensures
        entry_views(r@) == catalog_spec(probes@),
        forall|k: int|
            0 <= k < r@.len() ==> (#[trigger] r@[k]).1@.len() > 0 || r@[k].0@.len() == 0,
{
    let ghost orig = probes@;
    let mut rest = probes;
    let mut out: Vec<(String, String, Option<Vec<u8>>)> = Vec::new();
    let ghost mut done: int = 0;
    while rest.len() > 0
        invariant
            0 <= done <= orig.len(),
            rest@ =~= orig.skip(done),
            entry_views(out@) == catalog_spec(orig.take(done)),
        decreases rest@.len(),
    {
        let p = rest.remove(0);
        proof {
            assert(orig.skip(done).remove(0) =~= orig.skip(done + 1));
            assert(p == orig[done]);
            assert(orig.take(done + 1).drop_last() =~= orig.take(done));
            assert(orig.take(done + 1).last() == orig[done]);
        }
        let ghost prev = entry_views(out@);
        let AppProbe {
            identifier,
            user_path,
            machine_path,
            windir,
            system_fallback_exists,
            resource_strings,
            icon,
        } = p;
        if is_uwp(identifier.as_str()) {
            let label = uwp_label(identifier.as_str());
            out.push((identifier, label, None));
            proof {
                assert(entry_views(out@) =~~= prev.push(entry_spec(orig[done])->0));
            }
        } else {
            match resolve_app_path(
                identifier.as_str(),
                user_path,
                machine_path,
                windir,
                system_fallback_exists,
            ) {
                Some(full) => {
                    let mut label = exe_friendly_name(full.as_str(), &resource_strings);
                    if label.unicode_len() == 0 {
                        label = strip_exe(identifier.as_str());
                    }
                    out.push((identifier, label, icon));
                    proof {
                        assert(entry_views(out@) =~~= prev.push(entry_spec(orig[done])->0));
                    }
                },
                None => {
                    proof {
                        assert(entry_spec(orig[done]) is None);
                    }
                },
            }
        }
        proof {
            done = done + 1;
        }
    }
    proof {
        assert(orig.take(done) =~= orig);
        assert forall|k: int|
            0 <= k < out@.len() implies (#[trigger] out@[k]).1@.len() > 0 || out@[k].0@.len()
            == 0 by {
            lemma_catalog_labels_nonempty(orig, k);
            assert(entry_views(out@)[k] == (out@[k].0@, out@[k].1@, opt_bytes_view(out@[k].2)));
        }
    }
    out
}

/// A non-empty version-resource label is only ever built from a non-empty
/// trimmed string.
proof fn lemma_first_resource_label_nonempty(rs: Seq<Seq<char>>)
    ensures
        first_resource_label(rs) matches Some(l) ==> l.len() > 0,
    decreases rs.len(),
{
    if rs.len() > 0 && !(trim_nuls_spec(rs[0]).len() > 0) {
        lemma_first_resource_label_nonempty(rs.drop_first());
    }
}

/// The display label of a catalog entry is never empty, except for an
/// entry whose identifier is itself empty.
proof fn lemma_entry_label_nonempty(p: AppProbe)
    requires
        entry_spec(p) is Some,
    ensures
        (entry_spec(p)->0).1.len() > 0 || (entry_spec(p)->0).0.len() == 0,
{
    reveal_strlit(".exe");
    if is_uwp_spec(p.identifier@) {
        if p.identifier@.len() > 0 {
            lemma_uwp_label_nonempty(p.identifier@);
        }
    } else {
        let path = probe_resolution(p)->0;
        let rs = strs_views(p.resource_strings@);
        lemma_first_resource_label_nonempty(rs);
        if friendly_name_spec(path, rs).len() == 0 {
            assert(strip_exe_spec(p.identifier@).len() > 0 || p.identifier@.len() == 0);
        }
    }
}

/// Every entry of the assembled catalog carries a non-empty display label,
/// provided its identifier is non-empty; identifiers come from the curated
/// list, where none is empty.
pub proof fn lemma_catalog_labels_nonempty(ps: Seq<AppProbe>, k: int)
    requires
        0 <= k < catalog_spec(ps).len(),
    ensures
        catalog_spec(ps)[k].1.len() > 0 || catalog_spec(ps)[k].0.len() == 0,
    decreases ps.len(),
{
    let rest = catalog_spec(ps.drop_last());
    match entry_spec(ps.last()) {
        Some(e) => {
            if k == rest.len() {
                lemma_entry_label_nonempty(ps.last());
            } else {
                lemma_catalog_labels_nonempty(ps.drop_last(), k);
            }
        },
        None => {
            lemma_catalog_labels_nonempty(ps.drop_last(), k);
        },
    }
}

/// An identifier that does not resolve is silently omitted: when every
/// probe bearing a given classic identifier fails to resolve, no entry of
/// the catalog carries that identifier — no error and no placeholder entry,
/// while the call itself still returns the other candidates.
pub proof fn lemma_unresolved_omitted(ps: Seq<AppProbe>, id: Seq<char>)
    requires
        forall|i: int|
            0 <= i < ps.len() && (#[trigger] ps[i]).identifier@ == id ==> !is_uwp_spec(id)
                && probe_resolution(ps[i]) is None,
    ensures
        forall|k: int|
            0 <= k < catalog_spec(ps).len() ==> (#[trigger] catalog_spec(ps)[k]).0 != id,
    decreases ps.len(),
{
    if ps.len() > 0 {
        lemma_unresolved_omitted(ps.drop_last(), id);
        let rest = catalog_spec(ps.drop_last());
        match entry_spec(ps.last()) {
            Some(e) => {
                assert(ps[ps.len() - 1] == ps.last());
                assert(e.0 == ps.last().identifier@);
                assert(forall|k: int|
                    0 <= k < rest.len() ==> (#[trigger] catalog_spec(ps)[k]) == rest[k]);
            },
            None => {
            },
        }
    }
}

/// The catalog never yields more entries than it was given probes.
pub proof fn lemma_catalog_len(ps: Seq<AppProbe>)
    ensures
        catalog_spec(ps).len() <= ps.len(),
    decreases ps.len(),
{
    if ps.len() > 0 {
        lemma_catalog_len(ps.drop_last());
    }
}

/// How many entries the probes before index `i` contribute: the position at
/// which probe `i`'s own entry, if any, appears.
pub open spec fn emitted_before(ps: Seq<AppProbe>, i: int) -> int {
    catalog_spec(ps.take(i)).len() as int
}

/// A probe that produces an entry finds it in the catalog at position
/// `emitted_before`, unchanged.
pub proof fn lemma_catalog_entry_at(ps: Seq<AppProbe>, i: int)
    requires
        0 <= i < ps.len(),
        entry_spec(ps[i]) is Some,
    ensures
        0 <= emitted_before(ps, i) < catalog_spec(ps).len(),
        catalog_spec(ps)[emitted_before(ps, i)] == entry_spec(ps[i])->0,
    decreases ps.len(),
{
    lemma_catalog_len(ps.take(i));
    if i == ps.len() - 1 {
        assert(ps.take(i) =~= ps.drop_last());
    } else {
        lemma_catalog_entry_at(ps.drop_last(), i);
        assert(ps.take(i) =~= ps.drop_last().take(i));
        lemma_catalog_len_monotone(ps.drop_last(), i + 1, ps.len() - 1);
        assert(ps.drop_last().take(i + 1) =~= ps.take(i + 1));
        assert(catalog_spec(ps.take(i + 1)).len() >= emitted_before(ps, i) + 1) by {
            assert(ps.take(i + 1).drop_last() =~= ps.take(i));
            assert(ps.take(i + 1).last() == ps[i]);
        }
        assert(ps.drop_last().take(ps.len() - 1) =~= ps.drop_last());
    }
}

/// The number of emitted entries grows monotonically along the probe list.
pub proof fn lemma_catalog_len_monotone(ps: Seq<AppProbe>, a: int, b: int)
    requires
        0 <= a <= b <= ps.len(),
    ensures
        catalog_spec(ps.take(a)).len() <= catalog_spec(ps.take(b)).len(),
    decreases b - a,
{
    if a < b {
        lemma_catalog_len_monotone(ps, a, b - 1);
        assert(ps.take(b).drop_last() =~= ps.take(b - 1));
    }
}

/// Catalog entries preserve probe order: when two probes both produce
/// entries, the earlier probe's entry stands at a strictly earlier position.
pub proof fn lemma_catalog_preserves_order(ps: Seq<AppProbe>, i: int, j: int)
    requires
        0 <= i < j < ps.len(),
        entry_spec(ps[i]) is Some,
        entry_spec(ps[j]) is Some,
    ensures
        emitted_before(ps, i) < emitted_before(ps, j),
        catalog_spec(ps)[emitted_before(ps, i)] == entry_spec(ps[i])->0,
        catalog_spec(ps)[emitted_before(ps, j)] == entry_spec(ps[j])->0,
{
    lemma_catalog_entry_at(ps, i);
    lemma_catalog_entry_at(ps, j);
    assert(catalog_spec(ps.take(i + 1)).len() >= emitted_before(ps, i) + 1) by {
        assert(ps.take(i + 1).drop_last() =~= ps.take(i));
        assert(ps.take(i + 1).last() == ps[i]);
    }
    lemma_catalog_len_monotone(ps, i + 1, j);
}

/// The override table always wins over resource-string lookups: for a path
/// whose base name case-folds to an override key, the friendly name is the
/// override label, whatever the resource strings hold.
pub proof fn lemma_override_wins(path: Seq<char>, rs1: Seq<Seq<char>>, rs2: Seq<Seq<char>>)
    requires
        eq_fold(base_name_spec(path), "mspaint.exe"@) || eq_fold(base_name_spec(path), "photos.exe"@),
    ensures
        friendly_name_spec(path, rs1) == friendly_name_spec(path, rs2),
        eq_fold(base_name_spec(path), "mspaint.exe"@) ==> friendly_name_spec(path, rs1)
            == "Paint"@,
        eq_fold(base_name_spec(path), "photos.exe"@) ==> friendly_name_spec(path, rs1)
            == "Photos"@,
{
    reveal_strlit("mspaint.exe");
    reveal_strlit("photos.exe");
    let name = base_name_spec(path);
    if eq_fold(name, "mspaint.exe"@) {
        assert(!eq_fold(name, "photos.exe"@)) by {
            assert("mspaint.exe"@.len() == 11);
            assert("photos.exe"@.len() == 10);
        }
    }
}

/// The command to launch an application on a file: the packaged-application
/// shell invocation for an identifier with the separator marker, else the
/// resolved executable with the file as its argument, else an error naming
/// the identifier.
pub fn open_with_app_command(app: &String, path: &String, resolved: Option<String>) -> (r: Result<
    (String, Vec<String>),
    String,
>)
    ensures
        app@.contains('!') ==> (r matches Ok(c) && c.0@ == "explorer"@ && c.1@.len() == 1
            && c.1@[0]@ == "shell:AppsFolder\\"@ + app@),
        !app@.contains('!') ==> match resolved {
            Some(p) => r matches Ok(c) && c.0@ == p@ && c.1@.len() == 1 && c.1@[0]@ == path@,
            None => r matches Err(m) && m@ == "Executable not found: "@ + app@,
        },
{
    if contains_char(app.as_str(), '!') {
        let arg = String::from_str("shell:AppsFolder\\").concat(app.as_str());
        let mut args: Vec<String> = Vec::new();
        args.push(arg);
        Ok((String::from_str("explorer"), args))
    } else {
        match resolved {
            Some(p) => {
                let mut args: Vec<String> = Vec::new();
                args.push(path.clone());
                Ok((p, args))
            },
            None => Err(String::from_str("Executable not found: ").concat(app.as_str())),
        }
    }
}

} // verus!
