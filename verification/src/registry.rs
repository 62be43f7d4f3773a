//! The registry loader.  Configuration directories are scanned for files
//! with the recognized suffix, a name filter is applied to each candidate,
//! and the descriptors that load are merged across directories in precedence
//! order: the first directory to define a manager name wins, and later
//! definitions of the same name are ignored entirely.

use vstd::prelude::*;

use crate::manager::{load_descriptor, load_result, PackageManager, PackageManagerView};
use crate::text::{stem_of_path, stem_spec, str_eq};

verus! {

/// Ghost image of a directory entry.
#[verifier::ext_equal]
pub struct FileEntryView {
    pub name: Seq<char>,
    pub content: Seq<char>,
}

/// One file of a configuration directory: its bare name and its text.
#[derive(Debug)]
pub struct FileEntry {
    pub name: String,
    pub content: String,
}

impl View for FileEntry {
    type V = FileEntryView;

    open spec fn view(&self) -> FileEntryView {
        FileEntryView { name: self.name@, content: self.content@ }
    }
}

impl DeepView for FileEntry {
    type V = FileEntryView;

    open spec fn deep_view(&self) -> FileEntryView {
        self.view()
    }
}

/// Ghost image of a directory listing.
#[verifier::ext_equal]
pub struct DirListingView {
    pub path: Seq<char>,
    pub files: Seq<FileEntryView>,
}

/// The enumerated contents of one configuration directory.
#[derive(Debug)]
pub struct DirListing {
    pub path: String,
    pub files: Vec<FileEntry>,
}

impl View for DirListing {
    type V = DirListingView;

    open spec fn view(&self) -> DirListingView {
        DirListingView { path: self.path@, files: self.files.deep_view() }
    }
}

impl DeepView for DirListing {
    type V = DirListingView;

    open spec fn deep_view(&self) -> DirListingView {
        self.view()
    }
}

/// Ghost image of a directory scan outcome.
pub enum DirScanView {
    Listed(DirListingView),
    Unreadable(Seq<char>),
}

/// The outcome of enumerating one configuration directory: its contents, or
/// the path of a directory that could not be read.
#[derive(Debug)]
pub enum DirScan {
    Listed(DirListing),
    Unreadable(String),
}

impl View for DirScan {
    type V = DirScanView;

    open spec fn view(&self) -> DirScanView {
        match self {
            DirScan::Listed(l) => DirScanView::Listed(l@),
            DirScan::Unreadable(p) => DirScanView::Unreadable(p@),
        }
    }
}

impl DeepView for DirScan {
    type V = DirScanView;

    open spec fn deep_view(&self) -> DirScanView {
        self.view()
    }
}

/// The error carrying the first configured directory that could not be
/// enumerated.
#[derive(Debug)]
pub struct DirectoryError {
    pub directory: String,
}

/// Ghost image of the name filter.
pub enum ManagerSpecifierView {
    Excludes(Seq<Seq<char>>),
    Includes(Seq<Seq<char>>),
    Empty,
}

/// A single type to exclude, or solely include, certain package manager
/// names during a scan.
#[derive(Debug)]
pub enum ManagerSpecifier {
    Excludes(Vec<String>),
    Includes(Vec<String>),
    Empty,
}

impl View for ManagerSpecifier {
    type V = ManagerSpecifierView;

    open spec fn view(&self) -> ManagerSpecifierView {
        match self {
            ManagerSpecifier::Excludes(set) => ManagerSpecifierView::Excludes(set.deep_view()),
            ManagerSpecifier::Includes(set) => ManagerSpecifierView::Includes(set.deep_view()),
            ManagerSpecifier::Empty => ManagerSpecifierView::Empty,
        }
    }
}

/// Whether the filter lets the manager name `name` through.
pub open spec fn specifier_admits(sp: ManagerSpecifierView, name: Seq<char>) -> bool {
    match sp {
        ManagerSpecifierView::Excludes(set) => !set.contains(name),
        ManagerSpecifierView::Includes(set) => set.contains(name),
        ManagerSpecifierView::Empty => true,
    }
}

/// Whether a file name carries the recognized configuration suffix.
pub open spec fn has_toml_ext(name: Seq<char>) -> bool {
    &&& name.len() >= 5
    &&& name[name.len() - 5] == '.'
    &&& name[name.len() - 4] == 't'
    &&& name[name.len() - 3] == 'o'
    &&& name[name.len() - 2] == 'm'
    &&& name[name.len() - 1] == 'l'
}

/// The descriptor that one directory entry contributes to a scan, if any:
/// the entry must carry the suffix, pass the filter with its stem, and load.
pub open spec fn entry_descriptor(
    dir: Seq<char>,
    f: FileEntryView,
    sp: ManagerSpecifierView,
) -> Option<PackageManagerView> {
    if has_toml_ext(f.name) && specifier_admits(sp, stem_spec(f.name)) {
        load_result(stem_spec(f.name), dir, f.content)
    } else {
        Option::None
    }
}

/// The descriptors a directory scan yields, in entry order.
pub open spec fn scan_spec(
    dir: Seq<char>,
    files: Seq<FileEntryView>,
    sp: ManagerSpecifierView,
) -> Seq<PackageManagerView>
    decreases files.len(),
{
    if files.len() == 0 {
        seq![]
    } else {
        let prev = scan_spec(dir, files.drop_last(), sp);
        match entry_descriptor(dir, files.last(), sp) {
            Option::Some(pm) => prev.push(pm),
            Option::None => prev,
        }
    }
}

/// Whether some descriptor in `s` bears the name `n`.
pub open spec fn has_name(s: Seq<PackageManagerView>, n: Seq<char>) -> bool {
    exists|t: int| 0 <= t < s.len() && s[t].name == n
}

/// Inserts each descriptor in turn, keeping only the first of each name.
pub open spec fn registry_merge(s: Seq<PackageManagerView>) -> Seq<PackageManagerView>
    decreases s.len(),
{
    if s.len() == 0 {
        seq![]
    } else {
        let prev = registry_merge(s.drop_last());
        if has_name(prev, s.last().name) {
            prev
        } else {
            prev.push(s.last())
        }
    }
}

/// The descriptors one scanned directory contributes.
pub open spec fn scan_of_dir(d: DirScanView, sp: ManagerSpecifierView) -> Seq<PackageManagerView> {
    match d {
        DirScanView::Listed(l) => scan_spec(l.path, l.files, sp),
        DirScanView::Unreadable(_) => seq![],
    }
}

/// All descriptors of all directories, in precedence order.
pub open spec fn all_descriptors(
    dirs: Seq<DirScanView>,
    sp: ManagerSpecifierView,
) -> Seq<PackageManagerView>
    decreases dirs.len(),
{
    if dirs.len() == 0 {
        seq![]
    } else {
        all_descriptors(dirs.drop_last(), sp) + scan_of_dir(dirs.last(), sp)
    }
}

/// The path of the first directory that could not be enumerated, if any.
pub open spec fn first_unreadable(dirs: Seq<DirScanView>) -> Option<Seq<char>>
    decreases dirs.len(),
{
    if dirs.len() == 0 {
        Option::None
    } else {
        match dirs[0] {
            DirScanView::Unreadable(p) => Option::Some(p),
            DirScanView::Listed(_) => first_unreadable(dirs.drop_first()),
        }
    }
}

/// The merged registry holds pairwise-distinct names, holds only
/// descriptors that were scanned, and holds exactly the names that were
/// scanned.
pub proof fn lemma_merge_props(s: Seq<PackageManagerView>)
    ensures
        forall|x: int, y: int|
            0 <= x < y < registry_merge(s).len() ==> registry_merge(s)[x].name != registry_merge(
                s,
            )[y].name,
        forall|t: int|
            0 <= t < registry_merge(s).len() ==> s.contains(#[trigger] registry_merge(s)[t]),
        forall|n: Seq<char>|
            #![trigger has_name(registry_merge(s), n)]
            #![trigger has_name(s, n)]
            has_name(registry_merge(s), n) <==> has_name(s, n),
    decreases s.len(),
{
    if s.len() == 0 {
    } else {
        lemma_merge_props(s.drop_last());
        let short = s.drop_last();
        let prev = registry_merge(short);
        let last = s.last();
        let m = registry_merge(s);
        assert(s[s.len() - 1] == last);
        assert forall|t: int| 0 <= t < m.len() implies s.contains(#[trigger] m[t]) by {
            if t < prev.len() {
                assert(short.contains(prev[t]));
                let w = choose|w: int| 0 <= w < short.len() && short[w] == prev[t];
                assert(s[w] == prev[t]);
            } else {
                assert(m[t] == last);
            }
        }
        assert forall|n: Seq<char>|
            #![trigger has_name(registry_merge(s), n)]
            #![trigger has_name(s, n)]
            has_name(m, n) <==> has_name(s, n) by {
            if has_name(m, n) {
                let w = choose|w: int| 0 <= w < m.len() && m[w].name == n;
                if w < prev.len() {
                    assert(has_name(prev, n));
                    let v = choose|v: int| 0 <= v < short.len() && short[v].name == n;
                    assert(s[v].name == n);
                } else {
                    assert(m[w] == last);
                }
            }
            if has_name(s, n) {
                let w = choose|w: int| 0 <= w < s.len() && s[w].name == n;
                if w < s.len() - 1 {
                    assert(short[w].name == n);
                    assert(has_name(short, n));
                    assert(has_name(prev, n));
                    let v = choose|v: int| 0 <= v < prev.len() && prev[v].name == n;
                    assert(m[v].name == n);
                } else {
                    if has_name(prev, last.name) {
                        let v = choose|v: int| 0 <= v < prev.len() && prev[v].name == last.name;
                        assert(m[v].name == n);
                    } else {
                        assert(m[m.len() - 1].name == n);
                    }
                }
            }
        }
    }
}

/// The first descriptor of each name survives the merge.
pub proof fn lemma_merge_keeps_first(s: Seq<PackageManagerView>, i: int)
    requires
        0 <= i < s.len(),
        forall|t: int| 0 <= t < i ==> (#[trigger] s[t]).name != s[i].name,
    ensures
        registry_merge(s).contains(s[i]),
    decreases s.len(),
{
    let short = s.drop_last();
    let prev = registry_merge(short);
    let m = registry_merge(s);
    if i == s.len() - 1 {
        lemma_merge_props(short);
        assert(!has_name(short, s.last().name)) by {
            if has_name(short, s.last().name) {
                let w = choose|w: int| 0 <= w < short.len() && short[w].name == s.last().name;
                assert(s[w].name == s[i].name);
            }
        }
        assert(m == prev.push(s.last()));
        assert(m[m.len() - 1] == s[i]);
    } else {
        assert forall|t: int| 0 <= t < i implies (#[trigger] short[t]).name != short[i].name by {
            assert(short[t] == s[t]);
        }
        lemma_merge_keeps_first(short, i);
        assert(short[i] == s[i]);
        let w = choose|w: int| 0 <= w < prev.len() && prev[w] == s[i];
        assert(m[w] == s[i]);
    }
}

/// First directory wins: when the first directory scans to a descriptor,
/// and no earlier entry of that directory bears the same name, the merged
/// registry of the two directories keeps that very descriptor, whatever the
/// second directory defines under the same name; and every name occurs at
/// most once in the merged registry.
pub proof fn lemma_first_directory_wins(
    d0: DirScanView,
    d1: DirScanView,
    sp: ManagerSpecifierView,
    i: int,
)
    requires
        0 <= i < scan_of_dir(d0, sp).len(),
        forall|t: int|
            0 <= t < i ==> (#[trigger] scan_of_dir(d0, sp)[t]).name != scan_of_dir(d0, sp)[i].name,
    ensures
        ({
            let merged = registry_merge(all_descriptors(seq![d0, d1], sp));
            &&& merged.contains(scan_of_dir(d0, sp)[i])
            &&& forall|x: int, y: int|
                0 <= x < y < merged.len() ==> merged[x].name != merged[y].name
        }),
{
    let s0 = scan_of_dir(d0, sp);
    let s1 = scan_of_dir(d1, sp);
    let both = seq![d0, d1];
    assert(both.drop_last() =~= seq![d0]);
    assert(seq![d0].drop_last() =~= Seq::<DirScanView>::empty());
    assert(both.last() == d1);
    assert(seq![d0].last() == d0);
    assert(all_descriptors(Seq::<DirScanView>::empty(), sp) =~= Seq::<PackageManagerView>::empty());
    assert(all_descriptors(seq![d0], sp) =~= s0);
    assert(all_descriptors(both, sp) =~= s0 + s1);
    assert((s0 + s1)[i] == s0[i]);
    assert forall|t: int| 0 <= t < i implies (#[trigger] (s0 + s1)[t]).name != (s0 + s1)[i].name by {
        assert((s0 + s1)[t] == s0[t]);
    }
    lemma_merge_keeps_first(s0 + s1, i);
    lemma_merge_props(s0 + s1);
}

/// A scan under an exclusion set never yields a descriptor whose name is in
/// the set.
pub proof fn lemma_excludes_filters(
    dir: Seq<char>,
    files: Seq<FileEntryView>,
    excl: Seq<Seq<char>>,
    n: Seq<char>,
)
    requires
        excl.contains(n),
    ensures
        forall|t: int|
            0 <= t < scan_spec(dir, files, ManagerSpecifierView::Excludes(excl)).len() ==> (
            #[trigger] scan_spec(dir, files, ManagerSpecifierView::Excludes(excl))[t]).name != n,
    decreases files.len(),
{
    if files.len() > 0 {
        lemma_excludes_filters(dir, files.drop_last(), excl, n);
    }
}

/// A scan under an inclusion set yields only descriptors whose names are in
/// the set.
pub proof fn lemma_includes_only(dir: Seq<char>, files: Seq<FileEntryView>, incl: Seq<Seq<char>>)
    ensures
        forall|t: int|
            0 <= t < scan_spec(dir, files, ManagerSpecifierView::Includes(incl)).len()
                ==> incl.contains(
                (#[trigger] scan_spec(dir, files, ManagerSpecifierView::Includes(incl))[t]).name,
            ),
    decreases files.len(),
{
    if files.len() > 0 {
        lemma_includes_only(dir, files.drop_last(), incl);
    }
}

/// A descriptor appears in a scan exactly when some entry of the directory
/// carries the suffix, passes the filter, and loads to it.
pub proof fn lemma_scan_membership(
    dir: Seq<char>,
    files: Seq<FileEntryView>,
    sp: ManagerSpecifierView,
    pm: PackageManagerView,
)
    ensures
        scan_spec(dir, files, sp).contains(pm) <==> exists|k: int|
            0 <= k < files.len() && #[trigger] entry_descriptor(dir, files[k], sp) == Some(pm),
    decreases files.len(),
{
    if files.len() == 0 {
    } else {
        lemma_scan_membership(dir, files.drop_last(), sp, pm);
        let shorter = files.drop_last();
        let prev = scan_spec(dir, shorter, sp);
        let m = scan_spec(dir, files, sp);
        assert(files[files.len() - 1] == files.last());
        if m.contains(pm) {
            let w = choose|w: int| 0 <= w < m.len() && m[w] == pm;
            if w < prev.len() {
                assert(prev.contains(pm));
                let k = choose|k: int|
                    0 <= k < shorter.len() && #[trigger] entry_descriptor(dir, shorter[k], sp)
                        == Some(pm);
                assert(entry_descriptor(dir, files[k], sp) == Some(pm));
            } else {
                assert(entry_descriptor(dir, files[files.len() - 1], sp) == Some(pm));
            }
        }
        if exists|k: int|
            0 <= k < files.len() && #[trigger] entry_descriptor(dir, files[k], sp) == Some(pm) {
            let k = choose|k: int|
                0 <= k < files.len() && #[trigger] entry_descriptor(dir, files[k], sp) == Some(pm);
            if k < files.len() - 1 {
                assert(entry_descriptor(dir, shorter[k], sp) == Some(pm));
                assert(prev.contains(pm));
                let w = choose|w: int| 0 <= w < prev.len() && prev[w] == pm;
                assert(m[w] == pm);
                assert(m.contains(pm));
            } else {
                assert(m[m.len() - 1] == pm);
                assert(m.contains(pm));
            }
        }
    }
}

/// A file from which no descriptor loads changes nothing: the scan result
/// equals the scan of the directory without that file, so one bad file never
/// disturbs its siblings.
pub proof fn lemma_bad_file_ignored(
    dir: Seq<char>,
    files: Seq<FileEntryView>,
    sp: ManagerSpecifierView,
    k: int,
)
    requires
        0 <= k < files.len(),
        load_result(stem_spec(files[k].name), dir, files[k].content) is None,
    ensures
        scan_spec(dir, files, sp) == scan_spec(dir, files.remove(k), sp),
    decreases files.len(),
{
    if k == files.len() - 1 {
        assert(files[k] == files.last());
        assert(files.remove(k) =~= files.drop_last());
    } else {
        assert(files.drop_last()[k] == files[k]);
        lemma_bad_file_ignored(dir, files.drop_last(), sp, k);
        assert(files.remove(k).drop_last() =~= files.drop_last().remove(k));
        assert(files.remove(k).last() == files.last());
    }
}

fn name_in_set(set: &Vec<String>, name: &str) -> (r: bool)
    ensures
        r == set.deep_view().contains(name@),
{
    let mut i: usize = 0;
    while i < set.len()
        invariant
            i <= set.len(),
            forall|t: int| 0 <= t < i ==> set.deep_view()[t] != name@,
        decreases set.len() - i,
    {
        if str_eq(set[i].as_str(), name) {
            proof {
                assert(set.deep_view()[i as int] == name@);
            }
            return true;
        }
        proof {
            assert(set.deep_view()[i as int] == set@[i as int]@);
        }
        i = i + 1;
    }
    false
}

fn ends_with_toml(name: &str) -> (r: bool)
    ensures
        r == has_toml_ext(name@),
{
    let n = name.unicode_len();
    if n < 5 {
        return false;
    }
    name.get_char(n - 5) == '.' && name.get_char(n - 4) == 't' && name.get_char(n - 3) == 'o'
        && name.get_char(n - 2) == 'm' && name.get_char(n - 1) == 'l'
}

fn specifier_admits_exec(sp: &ManagerSpecifier, name: &str) -> (r: bool)
    ensures
        r == specifier_admits(sp@, name@),
{
    match sp {
        ManagerSpecifier::Excludes(set) => !name_in_set(set, name),
        ManagerSpecifier::Includes(set) => name_in_set(set, name),
        ManagerSpecifier::Empty => true,
    }
}

/// Get the package managers specified in the given directory listing,
/// filtered by the specifier.  An entry that fails to load is skipped; it
/// never aborts the scan of the rest of the directory.
pub fn get_managers(listing: &DirListing, names: &ManagerSpecifier) -> (r: Vec<PackageManager>)
    ensures
        r.deep_view() == scan_spec(listing@.path, listing@.files, names@),
{
    let mut result: Vec<PackageManager> = Vec::new();
    let mut idx: usize = 0;
    while idx < listing.files.len()
        invariant
            idx <= listing.files.len(),
            result.deep_view() == scan_spec(
                listing@.path,
                listing@.files.subrange(0, idx as int),
                names@,
            ),
        decreases listing.files.len() - idx,
    {
        let ghost prefix = listing@.files.subrange(0, idx as int);
        let ghost ext = listing@.files.subrange(0, idx + 1);
        proof {
            assert(ext.drop_last() =~= prefix);
            assert(ext.last() == listing.files.deep_view()[idx as int]);
            assert(listing.files.deep_view()[idx as int] == listing.files@[idx as int]@);
        }
        let entry = &listing.files[idx];
        if ends_with_toml(entry.name.as_str()) {
            let stem = stem_of_path(entry.name.as_str());
            if specifier_admits_exec(names, stem.as_str()) {
                match load_descriptor(stem, listing.path.clone(), entry.content.as_str()) {
                    Ok(pm) => {
                        result.push(pm);
                        proof {
                            assert(result.deep_view() =~= scan_spec(
                                listing@.path,
                                ext,
                                names@,
                            ));
                        }
                    },
                    Err(_) => {},
                }
            }
        }
        idx = idx + 1;
    }
    proof {
        assert(listing@.files.subrange(0, listing@.files.len() as int) =~= listing@.files);
    }
    result
}

fn registry_has_name(v: &Vec<PackageManager>, name: &str) -> (r: bool)
    ensures
        r == has_name(v.deep_view(), name@),
{
    let mut i: usize = 0;
    while i < v.len()
        invariant
            i <= v.len(),
            forall|t: int| 0 <= t < i ==> v.deep_view()[t].name != name@,
        decreases v.len() - i,
    {
        proof {
            assert(v.deep_view()[i as int] == v@[i as int]@);
        }
        if str_eq(v[i].name.as_str(), name) {
            return true;
        }
        i = i + 1;
    }
    false
}

proof fn lemma_first_unreadable_at(dirs: Seq<DirScanView>, i: int)
    requires
        0 <= i < dirs.len(),
        forall|t: int| 0 <= t < i ==> dirs[t] is Listed,
        dirs[i] is Unreadable,
    ensures
        first_unreadable(dirs) == Option::Some(dirs[i]->Unreadable_0),
    decreases i,
{
    if i == 0 {
    } else {
        assert forall|t: int| 0 <= t < i - 1 implies dirs.drop_first()[t] is Listed by {
            assert(dirs.drop_first()[t] == dirs[t + 1]);
        }
        assert(dirs.drop_first()[i - 1] == dirs[i]);
        lemma_first_unreadable_at(dirs.drop_first(), i - 1);
    }
}

proof fn lemma_first_unreadable_none(dirs: Seq<DirScanView>)
    requires
        forall|t: int| 0 <= t < dirs.len() ==> dirs[t] is Listed,
    ensures
        first_unreadable(dirs) is None,
    decreases dirs.len(),
{
    if dirs.len() > 0 {
        assert forall|t: int| 0 <= t < dirs.len() - 1 implies dirs.drop_first()[t] is Listed by {
            assert(dirs.drop_first()[t] == dirs[t + 1]);
        }
        lemma_first_unreadable_none(dirs.drop_first());
    }
}

/// Read the configuration directories listed from highest precedence to
/// lowest, with the option to exclude or solely include certain package
/// manager names.  The first directory to define a manager name wins.  The
/// first directory that could not be enumerated aborts the merge with an
/// error naming it.
pub fn read_config_dirs(directories: &Vec<DirScan>, exceptions: &ManagerSpecifier) -> (r: Result<
    Vec<PackageManager>,
    DirectoryError,
>)
    ensures
        ({
            let dirs = directories.deep_view();
            match first_unreadable(dirs) {
                Option::Some(d) => r matches Err(e) && e.directory@ == d,
                Option::None => r matches Ok(v) && v.deep_view() == registry_merge(
                    all_descriptors(dirs, exceptions@),
                ),
            }
        }),
{
    let ghost dirs = directories.deep_view();
    let mut result: Vec<PackageManager> = Vec::new();
    let mut di: usize = 0;
    while di < directories.len()
        invariant
            di <= directories.len(),
            dirs == directories.deep_view(),
            forall|t: int| 0 <= t < di ==> dirs[t] is Listed,
            result.deep_view() == registry_merge(
                all_descriptors(dirs.subrange(0, di as int), exceptions@),
            ),
        decreases directories.len() - di,
    {
        proof {
            assert(dirs[di as int] == directories@[di as int]@);
        }
        match &directories[di] {
            DirScan::Unreadable(p) => {
                proof {
                    lemma_first_unreadable_at(dirs, di as int);
                }
                return Err(DirectoryError { directory: p.clone() });
            },
            DirScan::Listed(listing) => {
                let mut scanned = get_managers(listing, exceptions);
                let ghost scan_seq = scan_of_dir(dirs[di as int], exceptions@);
                let ghost merged_prefix = all_descriptors(dirs.subrange(0, di as int), exceptions@);
                let ghost total = scan_seq.len();
                while scanned.len() > 0
                    invariant
                        scanned.deep_view() == scan_seq.subrange(
                            total - scanned.len(),
                            total as int,
                        ),
                        scanned.len() <= total,
                        total == scan_seq.len(),
                        result.deep_view() == registry_merge(
                            merged_prefix + scan_seq.subrange(0, total - scanned.len()),
                        ),
                    decreases scanned.len(),
                {
                    let ghost consumed = total - scanned.len();
                    let ghost old_scanned = scanned@;
                    let ghost old_deep = scanned.deep_view();
                    let pm = scanned.remove(0);
                    proof {
                        assert(old_deep[0] == old_scanned[0]@);
                        assert(pm@ == scan_seq.subrange(consumed, total as int)[0]);
                        assert(pm@ == scan_seq[consumed]);
                        assert(scanned@ =~= old_scanned.drop_first());
                        assert forall|t: int| 0 <= t < scanned@.len() implies #[trigger] scanned.deep_view()[t]
                            == old_deep[t + 1] by {
                            assert(scanned@[t] == old_scanned[t + 1]);
                            assert(scanned.deep_view()[t] == scanned@[t]@);
                            assert(old_deep[t + 1] == old_scanned[t + 1]@);
                        }
                        assert(scanned.deep_view() =~= scan_seq.subrange(
                            consumed + 1,
                            total as int,
                        ));
                        assert((merged_prefix + scan_seq.subrange(0, consumed)).push(pm@)
                            =~= merged_prefix + scan_seq.subrange(0, consumed + 1));
                    }
                    let present = registry_has_name(&result, pm.name.as_str());
                    proof {
                        let acc = merged_prefix + scan_seq.subrange(0, consumed);
                        assert((merged_prefix + scan_seq.subrange(0, consumed + 1)).drop_last()
                            =~= acc);
                    }
                    if !present {
                        result.push(pm);
                        proof {
                            assert(result.deep_view() =~= registry_merge(
                                merged_prefix + scan_seq.subrange(0, total - scanned.len()),
                            ));
                        }
                    }
                }
                proof {
                    assert(merged_prefix + scan_seq.subrange(0, total as int) =~= merged_prefix
                        + scan_seq);
                    assert(dirs.subrange(0, di + 1).drop_last() =~= dirs.subrange(0, di as int));
                    assert(dirs.subrange(0, di + 1).last() == dirs[di as int]);
                }
            },
        }
        di = di + 1;
    }
    proof {
        assert(dirs.subrange(0, directories.len() as int) =~= dirs);
        lemma_first_unreadable_none(dirs);
    }
    Ok(result)
}

} // verus!
