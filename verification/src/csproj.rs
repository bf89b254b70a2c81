//! Visual Studio C# projects.
//!
//! A C# project is a directory with a `.csproj` file and a
//! `Properties/AssemblyInfo.cs` file. Its GUID and name come from the
//! `.csproj` XML, its version from the `AssemblyVersion` attribute line, and
//! setup projects (`.vdproj`) that name its GUID are rewritten along with it.

use vstd::prelude::*;

use crate::errors::Error;
use crate::project::{ProjectBuilder, ProjectId, Rewriter};
use crate::config::{config_ignores, ProjectConfiguration};
use crate::graph::{full_name, index_limit, ProjectGraphBuilder};
use crate::repository::names_view;
use crate::pypa::{lines_view, spec_replace_literal, replace_text_in_string_literal};
use crate::repository::{basename_start, is_suffix, RepoPath, RepoPathBuf};
use crate::text::{
    split_once, split_once_chars, append_chars, ascii_lowercase, ascii_uppercase, chars_to_string, contains, contains_seq,
    find_first, find_last, first_index_of, last_index_of, occurs_at, owned, slice_chars,
    starts_with, str_to_chars, to_ascii_lowercase, to_ascii_uppercase, trim, trim_chars,
};
use crate::version::dotnet::{spec_parse_dotnet, split_char, split_chars, DotNetVersion};
use crate::version::{render_version, Version, VersionModel};
use vstd::string::StringSliceAdditionalSpecFns;

verus! {

// ---------------------------------------------------------------------------
// Discovering projects

/// What is known of one directory that may hold a C# project.
#[derive(Debug)]
pub struct CsDirEntry {
    /// The project directory.
    pub dir: RepoPathBuf,
    /// The path of its `.csproj` file, once seen.
    pub csproj: Option<RepoPathBuf>,
    /// The path of its `AssemblyInfo.cs` file, once seen.
    pub assembly_info: Option<RepoPathBuf>,
}

/// The model of a directory entry: the directory, the `.csproj` path and the
/// `AssemblyInfo.cs` path.
pub type CsDirModel = (Seq<u8>, Option<Seq<u8>>, Option<Seq<u8>>);

pub open spec fn opt_path_view(p: Option<RepoPathBuf>) -> Option<Seq<u8>> {
    match p {
        Some(x) => Some(x@),
        None => None,
    }
}

pub open spec fn entry_view(e: CsDirEntry) -> CsDirModel {
    (e.dir@, opt_path_view(e.csproj), opt_path_view(e.assembly_info))
}

/// The position of the entry for directory `d`.
pub open spec fn find_dir(entries: Seq<CsDirModel>, d: Seq<u8>) -> Option<int>
    decreases entries.len(),
{
    if entries.len() == 0 {
        None
    } else if entries.last().0 == d {
        Some(entries.len() - 1)
    } else {
        find_dir(entries.drop_last(), d)
    }
}

proof fn lemma_find_dir(entries: Seq<CsDirModel>, d: Seq<u8>)
    ensures
        find_dir(entries, d) matches Some(i) ==> 0 <= i < entries.len() && entries[i].0 == d,
        find_dir(entries, d) is None ==> forall|i: int| 0 <= i < entries.len() ==> entries[i].0 != d,
    decreases entries.len(),
{
    if entries.len() > 0 && entries.last().0 != d {
        lemma_find_dir(entries.drop_last(), d);
        assert forall|i: int| 0 <= i < entries.len() - 1 implies entries[i] == entries.drop_last()[i] by {}
    }
}

/// No directory has two entries.
pub open spec fn dirs_distinct(entries: Seq<CsDirModel>) -> bool {
    forall|i: int, j: int| 0 <= i < j < entries.len() ==> entries[i].0 != entries[j].0
}

/// The entries after recording `p` as the `.csproj` file of directory `d`.
pub open spec fn with_csproj(entries: Seq<CsDirModel>, d: Seq<u8>, p: Seq<u8>) -> Seq<CsDirModel> {
    match find_dir(entries, d) {
        Some(i) => entries.update(i, (d, Some(p), entries[i].2)),
        None => entries.push((d, Some(p), None)),
    }
}

/// The entries after recording `p` as the `AssemblyInfo.cs` file of
/// directory `d`.
pub open spec fn with_assembly_info(entries: Seq<CsDirModel>, d: Seq<u8>, p: Seq<u8>) -> Seq<
    CsDirModel,
> {
    match find_dir(entries, d) {
        Some(i) => entries.update(i, (d, entries[i].1, Some(p))),
        None => entries.push((d, None, Some(p))),
    }
}

/// The project directory of an `AssemblyInfo.cs` file in directory `d`: the
/// parent of `d`, which is conventionally `Properties/`.
pub open spec fn assembly_info_project_dir(d: Seq<u8>) -> Seq<u8> {
    let p = if d.len() > 0 && d.last() == 47u8 {
        d.drop_last()
    } else {
        d
    };
    p.take(basename_start(p))
}

/// Framework for auto-loading Visual Studio C# projects from the repository
/// contents.
#[derive(Debug)]
pub struct CsProjLoader {
    dirs_of_interest: Vec<CsDirEntry>,
    vdproj_files: Vec<RepoPathBuf>,
}

impl CsProjLoader {
    /// The directories of interest, in the order in which they were found.
    pub closed spec fn entries_view(&self) -> Seq<CsDirModel> {
        self.dirs_of_interest@.map_values(|e: CsDirEntry| entry_view(e))
    }

    /// The setup-project files found, in order.
    pub closed spec fn vdproj_view(&self) -> Seq<Seq<u8>> {
        self.vdproj_files@.map_values(|p: RepoPathBuf| p@)
    }

    pub open spec fn wf(&self) -> bool {
        dirs_distinct(self.entries_view())
    }

    /// A loader that has seen nothing yet.
    pub fn new() -> (res: CsProjLoader)
        ensures
            res.wf(),
            res.entries_view() == Seq::<CsDirModel>::empty(),
            res.vdproj_view() == Seq::<Seq<u8>>::empty(),
    {
        let res = CsProjLoader { dirs_of_interest: Vec::new(), vdproj_files: Vec::new() };
        assert(res.entries_view() =~= Seq::<CsDirModel>::empty());
        assert(res.vdproj_view() =~= Seq::<Seq<u8>>::empty());
        res
    }

    /// The position of the entry for a directory.
    fn find_entry(&self, d: &RepoPath) -> (res: Option<usize>)
        ensures
            opt_index(res) == find_dir(self.entries_view(), d@),
    {
        let ghost all = self.entries_view();
        let mut i: usize = self.dirs_of_interest.len();
        proof {
            assert(all.subrange(0, all.len() as int) =~= all);
        }
        while i > 0
            invariant
                i <= self.dirs_of_interest@.len(),
                all == self.entries_view(),
                all.len() == self.dirs_of_interest@.len(),
                find_dir(all, d@) == find_dir(all.subrange(0, i as int), d@),
            decreases i,
        {
            let ghost pre = all.subrange(0, i as int);
            proof {
                assert(pre.last() == all[i - 1]);
                assert(pre.drop_last() =~= all.subrange(0, i - 1));
            }
            if crate::repository::bytes_equal(
                ((self.dirs_of_interest[i - 1].dir).0).0.as_slice(),
                d.0.as_slice(),
            ) {
                return Some(i - 1);
            }
            i = i - 1;
        }
        None
    }

    /// Records `p` as the `.csproj` (when `is_csproj`) or `AssemblyInfo.cs`
    /// file of directory `d`.
    fn record(&mut self, d: &RepoPath, p: &RepoPath, is_csproj: bool)
        requires
            old(self).wf(),
        ensures
            final(self).wf(),
            final(self).vdproj_view() == old(self).vdproj_view(),
            final(self).entries_view() == if is_csproj {
                with_csproj(old(self).entries_view(), d@, p@)
            } else {
                with_assembly_info(old(self).entries_view(), d@, p@)
            },
    {
        let ghost old_entries = self.entries_view();
        proof {
            lemma_find_dir(old_entries, d@);
        }
        match self.find_entry(d) {
            Some(i) => {
                let ghost e = old_entries[i as int];
                let mut entry = self.dirs_of_interest.remove(i);
                if is_csproj {
                    entry.csproj = Some(p.to_owned());
                } else {
                    entry.assembly_info = Some(p.to_owned());
                }
                self.dirs_of_interest.insert(i, entry);
                proof {
                    assert(self.entries_view() =~= if is_csproj {
                        old_entries.update(i as int, (d@, Some(p@), e.2))
                    } else {
                        old_entries.update(i as int, (d@, e.1, Some(p@)))
                    });
                }
            },
            None => {
                let entry = if is_csproj {
                    CsDirEntry { dir: d.to_owned(), csproj: Some(p.to_owned()), assembly_info: None }
                } else {
                    CsDirEntry { dir: d.to_owned(), csproj: None, assembly_info: Some(p.to_owned()) }
                };
                self.dirs_of_interest.push(entry);
                proof {
                    assert(self.entries_view() =~= old_entries.push(entry_view(entry)));
                }
            },
        }
    }

    /// Processes one entry of the repository index. A `.csproj` file names
    /// its directory's project file; an `AssemblyInfo.cs` file belongs to the
    /// project one directory up; `.vdproj` files are kept for later.
    pub fn process_index_item(&mut self, repopath: &RepoPath, dirname: &RepoPath, basename: &RepoPath) -> (res:
        Result<(), Error>)
        requires
            old(self).wf(),
        ensures
            res is Ok,
            final(self).wf(),
            if is_suffix(".csproj".spec_bytes(), basename@) {
                final(self).entries_view() == with_csproj(old(self).entries_view(), dirname@, repopath@)
                    && final(self).vdproj_view() == old(self).vdproj_view()
            } else if basename@ == "AssemblyInfo.cs".spec_bytes() {
                final(self).entries_view() == with_assembly_info(
                    old(self).entries_view(),
                    assembly_info_project_dir(dirname@),
                    repopath@,
                ) && final(self).vdproj_view() == old(self).vdproj_view()
            } else if is_suffix(".vdproj".spec_bytes(), basename@) {
                final(self).entries_view() == old(self).entries_view() && final(self).vdproj_view()
                    == old(self).vdproj_view().push(repopath@)
            } else {
                final(self).entries_view() == old(self).entries_view() && final(self).vdproj_view()
                    == old(self).vdproj_view()
            },
    {
        if basename.ends_with(".csproj".as_bytes()) {
            self.record(dirname, repopath, true);
        } else if crate::repository::bytes_equal(basename.as_bytes(), "AssemblyInfo.cs".as_bytes()) {
            let (dir, _base) = dirname.pop_sep().split_basename();
            proof {
                let p = if dirname@.len() > 0 && dirname@.last() == 47u8 {
                    dirname@.drop_last()
                } else {
                    dirname@
                };
                assert(dir@ =~= p.take(basename_start(p)));
            }
            self.record(&dir, repopath, false);
        } else if basename.ends_with(".vdproj".as_bytes()) {
            self.vdproj_files.push(repopath.to_owned());
            proof {
                assert(self.vdproj_view() =~= old(self).vdproj_view().push(repopath@));
            }
        }
        Ok(())
    }

    /// The directories of interest, in the order in which they were found.
    pub fn dir_entries(&self) -> (res: &[CsDirEntry])
        ensures
            res@.map_values(|e: CsDirEntry| entry_view(e)) == self.entries_view(),
    {
        self.dirs_of_interest.as_slice()
    }

    /// The setup-project files found, in order.
    pub fn vdproj_files(&self) -> (res: &[RepoPathBuf])
        ensures
            res@.map_values(|p: RepoPathBuf| p@) == self.vdproj_view(),
    {
        self.vdproj_files.as_slice()
    }
}

pub open spec fn opt_index(o: Option<usize>) -> Option<int> {
    match o {
        Some(i) => Some(i as int),
        None => None,
    }
}

// ---------------------------------------------------------------------------
// Line-level syntax

/// The text from the first `{` to the last `}` of a line, braces included.
pub open spec fn spec_braced_text(line: Seq<char>) -> Option<Seq<char>> {
    match (first_index_of(line, '{'), last_index_of(line, '}')) {
        (Some(l), Some(r)) => if l < r {
            Some(line.subrange(l, r + 1))
        } else {
            None
        },
        _ => None,
    }
}

/// Extracts the braced text of a line, such as a GUID.
pub fn extract_braced_text(line: &str) -> (res: Result<String, Error>)
    ensures
        match res {
            Ok(t) => spec_braced_text(line@) == Some(t@),
            Err(e) => spec_braced_text(line@) is None && (e matches Error::BracedText(t) && t@
                == line@),
        },
{
    let l = str_to_chars(line);
    match (find_first(&l, '{'), find_last(&l, '}')) {
        (Some(lc), Some(rc)) => if lc < rc {
            Ok(chars_to_string(&slice_chars(&l, lc, rc + 1)))
        } else {
            Err(Error::BracedText(owned(line)))
        },
        _ => Err(Error::BracedText(owned(line))),
    }
}

/// A vdproj value line with the text between its last `:` and its last `"`
/// replaced by `new_val`.
pub open spec fn spec_replace_vdproj(line: Seq<char>, new_val: Seq<char>) -> Option<Seq<char>> {
    match (last_index_of(line, ':'), last_index_of(line, '"')) {
        (Some(l), Some(r)) => Some(line.take(l + 1) + new_val + line.skip(r)),
        _ => None,
    }
}

/// Replaces the value of a vdproj line such as `"ProductVersion" =
/// "8:6.0.13"`: the text after the last `:` and before the last `"`.
pub fn replace_vdproj_text(line: &str, new_val: &str) -> (res: Result<String, Error>)
    ensures
        match res {
            Ok(t) => spec_replace_vdproj(line@, new_val@) == Some(t@),
            Err(e) => spec_replace_vdproj(line@, new_val@) is None && (e matches Error::VdprojSyntax(
                t,
            ) && t@ == line@),
        },
{
    let l = str_to_chars(line);
    match (find_last(&l, ':'), find_last(&l, '"')) {
        (Some(li), Some(ri)) => {
            let mut out = slice_chars(&l, 0, li + 1);
            append_chars(&mut out, &str_to_chars(new_val));
            append_chars(&mut out, &slice_chars(&l, ri, l.len()));
            proof {
                assert(l@.take(li + 1) =~= l@.subrange(0, li + 1));
                assert(l@.skip(ri as int) =~= l@.subrange(ri as int, l@.len() as int));
            }
            Ok(chars_to_string(&out))
        },
        _ => Err(Error::VdprojSyntax(owned(line))),
    }
}

// ---------------------------------------------------------------------------
// Reading versions and GUIDs

/// The version after reading one `AssemblyInfo.cs` line: an `AssemblyVersion`
/// attribute line gives the .NET version between its first and last `"`.
/// `None` when such a line cannot be read.
pub open spec fn assembly_version_step(line: Seq<char>, cur: Option<DotNetVersion>) -> Option<
    Option<DotNetVersion>,
> {
    if occurs_at(line, "[assembly: AssemblyVersion"@, 0) {
        match (first_index_of(line, '"'), last_index_of(line, '"')) {
            (Some(a), Some(b)) => if a < b {
                match spec_parse_dotnet(line.subrange(a + 1, b)) {
                    Some(v) => Some(Some(v)),
                    None => None,
                }
            } else {
                None
            },
            _ => None,
        }
    } else {
        Some(cur)
    }
}

/// The version stated by the lines of an `AssemblyInfo.cs` file: that of its
/// last `AssemblyVersion` line. `Some(None)` when there is none, `None` when
/// one cannot be read.
pub open spec fn spec_assembly_version(lines: Seq<Seq<char>>) -> Option<Option<DotNetVersion>>
    decreases lines.len(),
{
    if lines.len() == 0 {
        Some(None)
    } else {
        match spec_assembly_version(lines.drop_last()) {
            Some(cur) => assembly_version_step(lines.last(), cur),
            None => None,
        }
    }
}

proof fn lemma_assembly_version_none(all: Seq<Seq<char>>, i: int)
    requires
        0 <= i < all.len(),
        spec_assembly_version(all.subrange(0, i + 1)) is None,
    ensures
        spec_assembly_version(all) is None,
    decreases all.len() - i,
{
    if i + 1 == all.len() {
        assert(all.subrange(0, i + 1) =~= all);
    } else {
        assert(all.subrange(0, i + 2).drop_last() =~= all.subrange(0, i + 1));
        lemma_assembly_version_none(all, i + 1);
    }
}

/// Reads the version of a C# project out of the lines of its
/// `AssemblyInfo.cs`.
pub fn assembly_version(lines: &Vec<String>) -> (res: Result<Option<DotNetVersion>, Error>)
    ensures
        match res {
            Ok(v) => spec_assembly_version(lines_view(lines@)) == Some(v),
            Err(e) => spec_assembly_version(lines_view(lines@)) is None
                && e is AssemblyVersionSyntax,
        },
{
    let ghost all = lines_view(lines@);
    let mut cur: Option<DotNetVersion> = None;
    let prefix = str_to_chars("[assembly: AssemblyVersion");
    let mut i: usize = 0;
    proof {
        assert(all.subrange(0, 0) =~= Seq::<Seq<char>>::empty());
    }
    while i < lines.len()
        invariant
            i <= lines@.len(),
            all == lines_view(lines@),
            all.len() == lines@.len(),
            prefix@ == "[assembly: AssemblyVersion"@,
            spec_assembly_version(all.subrange(0, i as int)) == Some(cur),
        decreases lines.len() - i,
    {
        let l = str_to_chars(lines[i].as_str());
        proof {
            assert(all.subrange(0, i + 1).drop_last() =~= all.subrange(0, i as int));
            assert(all.subrange(0, i + 1).last() == l@);
        }
        if starts_with(&l, &prefix) {
            let read = match (find_first(&l, '"'), find_last(&l, '"')) {
                (Some(a), Some(b)) => if a < b {
                    let t = chars_to_string(&slice_chars(&l, a + 1, b));
                    match DotNetVersion::parse(t.as_str()) {
                        Ok(v) => Some(v),
                        Err(_) => None,
                    }
                } else {
                    None
                },
                _ => None,
            };
            match read {
                Some(v) => {
                    cur = Some(v);
                },
                None => {
                    proof {
                        lemma_assembly_version_none(all, i as int);
                    }
                    return Err(Error::AssemblyVersionSyntax(chars_to_string(&l)));
                },
            }
        }
        i = i + 1;
    }
    proof {
        assert(all.subrange(0, i as int) =~= all);
    }
    Ok(cur)
}

/// The key-project GUID state after reading one vdproj line: the GUID seen so
/// far, and whether the file names more than one and is to be ignored. A line
/// that mentions `OutputProjectGuid` names the lower-cased braced text in it.
/// `None` when such a line has no braced text.
pub open spec fn vdproj_guid_step(line: Seq<char>, st: (Option<Seq<char>>, bool)) -> Option<
    (Option<Seq<char>>, bool),
> {
    if contains_seq(line, "OutputProjectGuid"@) {
        match spec_braced_text(line) {
            None => None,
            Some(b) => {
                let g = ascii_lowercase(b);
                match st.0 {
                    Some(prev) => if g != prev {
                        Some((st.0, true))
                    } else {
                        Some(st)
                    },
                    None => Some((Some(g), st.1)),
                }
            },
        }
    } else {
        Some(st)
    }
}

pub open spec fn vdproj_guid_scan(lines: Seq<Seq<char>>) -> Option<(Option<Seq<char>>, bool)>
    decreases lines.len(),
{
    if lines.len() == 0 {
        Some((None, false))
    } else {
        match vdproj_guid_scan(lines.drop_last()) {
            Some(st) => vdproj_guid_step(lines.last(), st),
            None => None,
        }
    }
}

/// The key-project GUID of a setup project: `Some(None)` when it names none
/// or more than one; `None` when a GUID line cannot be read.
pub open spec fn spec_vdproj_guid(lines: Seq<Seq<char>>) -> Option<Option<Seq<char>>> {
    match vdproj_guid_scan(lines) {
        Some((g, ignore)) => if ignore {
            Some(None)
        } else {
            Some(g)
        },
        None => None,
    }
}

proof fn lemma_vdproj_guid_none(all: Seq<Seq<char>>, i: int)
    requires
        0 <= i < all.len(),
        vdproj_guid_scan(all.subrange(0, i + 1)) is None,
    ensures
        vdproj_guid_scan(all) is None,
    decreases all.len() - i,
{
    if i + 1 == all.len() {
        assert(all.subrange(0, i + 1) =~= all);
    } else {
        assert(all.subrange(0, i + 2).drop_last() =~= all.subrange(0, i + 1));
        lemma_vdproj_guid_none(all, i + 1);
    }
}

/// Reads the GUID of the project that a setup project (`.vdproj`) packages.
pub fn vdproj_guid(lines: &Vec<String>) -> (res: Result<Option<String>, Error>)
    ensures
        match res {
            Ok(g) => spec_vdproj_guid(lines_view(lines@)) == Some(
                match g {
                    Some(x) => Some(x@),
                    None => None,
                },
            ),
            Err(e) => spec_vdproj_guid(lines_view(lines@)) is None && e is BracedText,
        },
{
    let ghost all = lines_view(lines@);
    let mut guid: Option<String> = None;
    let mut ignore = false;
    let key = str_to_chars("OutputProjectGuid");
    let mut i: usize = 0;
    proof {
        assert(all.subrange(0, 0) =~= Seq::<Seq<char>>::empty());
    }
    while i < lines.len()
        invariant
            i <= lines@.len(),
            all == lines_view(lines@),
            all.len() == lines@.len(),
            key@ == "OutputProjectGuid"@,
            vdproj_guid_scan(all.subrange(0, i as int)) == Some(
                (
                    match guid {
                        Some(x) => Some(x@),
                        None => None,
                    },
                    ignore,
                ),
            ),
        decreases lines.len() - i,
    {
        let line = lines[i].as_str();
        let l = str_to_chars(line);
        proof {
            assert(all.subrange(0, i + 1).drop_last() =~= all.subrange(0, i as int));
            assert(all.subrange(0, i + 1).last() == line@);
        }
        if contains(&l, &key) {
            match extract_braced_text(line) {
                Ok(b) => {
                    let this_guid = to_ascii_lowercase(b.as_str());
                    match &guid {
                        Some(prev) => {
                            if this_guid != *prev {
                                ignore = true;
                            }
                        },
                        None => {
                            guid = Some(this_guid);
                        },
                    }
                },
                Err(e) => {
                    proof {
                        lemma_vdproj_guid_none(all, i as int);
                    }
                    return Err(e);
                },
            }
        }
        i = i + 1;
    }
    proof {
        assert(all.subrange(0, i as int) =~= all);
    }
    if ignore {
        Ok(None)
    } else {
        Ok(guid)
    }
}

// ---------------------------------------------------------------------------
// Rewriting

/// Rewrites `AssemblyInfo.cs` to include real version numbers.
#[derive(Debug)]
pub struct AssemblyInfoCsRewriter {
    proj_id: ProjectId,
    cs_path: RepoPathBuf,
}

impl AssemblyInfoCsRewriter {
    pub closed spec fn proj_view(&self) -> ProjectId {
        self.proj_id
    }

    pub closed spec fn path_view(&self) -> Seq<u8> {
        self.cs_path@
    }

    /// Creates a new `AssemblyInfo.cs` rewriter.
    pub fn new(proj_id: ProjectId, cs_path: RepoPathBuf) -> (res: Self)
        ensures
            res.proj_view() == proj_id,
            res.path_view() == cs_path@,
    {
        AssemblyInfoCsRewriter { proj_id, cs_path }
    }

    /// The project whose version is written.
    pub fn proj_id(&self) -> (res: ProjectId)
        ensures
            res == self.proj_view(),
    {
        self.proj_id
    }

    /// The file that is rewritten.
    pub fn cs_path(&self) -> (res: &RepoPathBuf)
        ensures
            res@ == self.path_view(),
    {
        &self.cs_path
    }
}

/// One line of `AssemblyInfo.cs` after rewriting, and whether it is a
/// version attribute line: those get the version in their string literal.
pub open spec fn assembly_info_line(line: Seq<char>, v: VersionModel) -> Option<(Seq<char>, bool)> {
    if occurs_at(line, "[assembly: AssemblyVersion"@, 0) || occurs_at(
        line,
        "[assembly: AssemblyFileVersion"@,
        0,
    ) {
        match spec_replace_literal(line, render_version(v)) {
            Some(r) => Some((r, true)),
            None => None,
        }
    } else {
        Some((line, false))
    }
}

pub open spec fn spec_rewrite_assembly_info(lines: Seq<Seq<char>>, v: VersionModel) -> Option<
    (Seq<Seq<char>>, bool),
>
    decreases lines.len(),
{
    if lines.len() == 0 {
        Some((Seq::empty(), false))
    } else {
        match (spec_rewrite_assembly_info(lines.drop_last(), v), assembly_info_line(lines.last(), v)) {
            (Some((out, d)), Some((l, d2))) => Some((out.push(l), d || d2)),
            _ => None,
        }
    }
}

/// Whether a line of `AssemblyInfo.cs` declares the assembly version or the
/// assembly file version.
pub open spec fn is_version_attribute(line: Seq<char>) -> bool {
    occurs_at(line, "[assembly: AssemblyVersion"@, 0) || occurs_at(line, "[assembly: AssemblyFileVersion"@, 0)
}

/// A version attribute line whose string literal cannot be replaced.
pub open spec fn bad_attribute(line: Seq<char>, v: VersionModel) -> bool {
    is_version_attribute(line) && spec_replace_literal(line, render_version(v)) is None
}

proof fn lemma_assembly_line(line: Seq<char>, v: VersionModel)
    ensures
        assembly_info_line(line, v) is None <==> bad_attribute(line, v),
        assembly_info_line(line, v) matches Some((l, d)) ==> (d == is_version_attribute(line)) && if is_version_attribute(line) {
            spec_replace_literal(line, render_version(v)) == Some(l)
        } else {
            l == line
        },
{
}

proof fn lemma_assembly_failure(lines: Seq<Seq<char>>, v: VersionModel)
    ensures
        spec_rewrite_assembly_info(lines, v) is None <==> exists|i: int|
            0 <= i < lines.len() && bad_attribute(#[trigger] lines[i], v),
    decreases lines.len(),
{
    if lines.len() > 0 {
        let init = lines.drop_last();
        lemma_assembly_failure(init, v);
        lemma_assembly_line(lines.last(), v);
        assert(lines.last() == lines[lines.len() - 1]);
        if exists|i: int| 0 <= i < init.len() && bad_attribute(#[trigger] init[i], v) {
            let i = choose|i: int| 0 <= i < init.len() && bad_attribute(#[trigger] init[i], v);
            assert(lines[i] == init[i]);
        }
        if exists|i: int| 0 <= i < lines.len() && bad_attribute(#[trigger] lines[i], v) {
            let i = choose|i: int| 0 <= i < lines.len() && bad_attribute(#[trigger] lines[i], v);
            if i < init.len() {
                assert(init[i] == lines[i]);
            }
        }
    }
}

proof fn lemma_assembly_success(lines: Seq<Seq<char>>, v: VersionModel)
    ensures
        spec_rewrite_assembly_info(lines, v) matches Some((out, d)) ==> {
            &&& out.len() == lines.len()
            &&& forall|i: int|
                0 <= i < lines.len() ==> if is_version_attribute(#[trigger] lines[i]) {
                    spec_replace_literal(lines[i], render_version(v)) == Some(out[i])
                } else {
                    out[i] == lines[i]
                }
            &&& d <==> exists|i: int| 0 <= i < lines.len() && is_version_attribute(#[trigger] lines[i])
        },
    decreases lines.len(),
{
    if lines.len() > 0 {
        let init = lines.drop_last();
        let last = lines.last();
        lemma_assembly_success(init, v);
        lemma_assembly_line(last, v);
        assert(last == lines[lines.len() - 1]);
        if let Some((out, d)) = spec_rewrite_assembly_info(lines, v) {
            let (out0, d0) = spec_rewrite_assembly_info(init, v).unwrap();
            let (l, d2) = assembly_info_line(last, v).unwrap();
            assert(out == out0.push(l));
            assert forall|i: int| 0 <= i < lines.len() implies if is_version_attribute(#[trigger] lines[i]) {
                spec_replace_literal(lines[i], render_version(v)) == Some(out[i])
            } else {
                out[i] == lines[i]
            } by {
                if i < init.len() {
                    assert(lines[i] == init[i]);
                    assert(out[i] == out0[i]);
                }
            }
            if exists|i: int| 0 <= i < init.len() && is_version_attribute(#[trigger] init[i]) {
                let i = choose|i: int| 0 <= i < init.len() && is_version_attribute(#[trigger] init[i]);
                assert(lines[i] == init[i]);
            }
            if exists|i: int| 0 <= i < lines.len() && is_version_attribute(#[trigger] lines[i]) {
                let i = choose|i: int| 0 <= i < lines.len() && is_version_attribute(#[trigger] lines[i]);
                if i < init.len() {
                    assert(init[i] == lines[i]);
                }
            }
        }
    }
}

/// Rewriting `AssemblyInfo.cs` gives each `AssemblyVersion` and each
/// `AssemblyFileVersion` line the rendered version in its string literal,
/// keeps every other line, and reports whether any such line was found. It
/// fails exactly when such a line has no string literal.
pub proof fn law_assembly_info_rewrites_version_lines(lines: Seq<Seq<char>>, v: VersionModel)
    ensures
        spec_rewrite_assembly_info(lines, v) is None <==> exists|i: int|
            0 <= i < lines.len() && is_version_attribute(#[trigger] lines[i]) && spec_replace_literal(
                lines[i],
                render_version(v),
            ) is None,
        spec_rewrite_assembly_info(lines, v) matches Some((out, d)) ==> {
            &&& out.len() == lines.len()
            &&& forall|i: int|
                0 <= i < lines.len() ==> if is_version_attribute(#[trigger] lines[i]) {
                    spec_replace_literal(lines[i], render_version(v)) == Some(out[i])
                } else {
                    out[i] == lines[i]
                }
            &&& d <==> exists|i: int| 0 <= i < lines.len() && is_version_attribute(#[trigger] lines[i])
        },
{
    lemma_assembly_failure(lines, v);
    lemma_assembly_success(lines, v);
}

proof fn lemma_rewrite_assembly_info_none(all: Seq<Seq<char>>, v: VersionModel, i: int)
    requires
        0 <= i < all.len(),
        spec_rewrite_assembly_info(all.subrange(0, i + 1), v) is None,
    ensures
        spec_rewrite_assembly_info(all, v) is None,
    decreases all.len() - i,
{
    if i + 1 == all.len() {
        assert(all.subrange(0, i + 1) =~= all);
    } else {
        assert(all.subrange(0, i + 2).drop_last() =~= all.subrange(0, i + 1));
        lemma_rewrite_assembly_info_none(all, v, i + 1);
    }
}

/// Rewrites the lines of an `AssemblyInfo.cs` file, returning the new lines
/// and whether any version attribute was found.
pub fn rewrite_assembly_info_lines(lines: &Vec<String>, version: &Version) -> (res: Result<
    (Vec<String>, bool),
    Error,
>)
    requires
        version@.wf(),
    ensures
        match res {
            Ok((out, d)) => spec_rewrite_assembly_info(lines_view(lines@), version@) == Some(
                (lines_view(out@), d),
            ),
            Err(e) => spec_rewrite_assembly_info(lines_view(lines@), version@) is None
                && e is StringLiteral,
        },
{
    let ghost all = lines_view(lines@);
    let vtext = version.to_string();
    let p1 = str_to_chars("[assembly: AssemblyVersion");
    let p2 = str_to_chars("[assembly: AssemblyFileVersion");
    let mut out: Vec<String> = Vec::new();
    let mut did_anything = false;
    let mut i: usize = 0;
    proof {
        assert(all.subrange(0, 0) =~= Seq::<Seq<char>>::empty());
        assert(lines_view(out@) =~= Seq::<Seq<char>>::empty());
    }
    while i < lines.len()
        invariant
            i <= lines@.len(),
            all == lines_view(lines@),
            all.len() == lines@.len(),
            vtext@ == render_version(version@),
            p1@ == "[assembly: AssemblyVersion"@,
            p2@ == "[assembly: AssemblyFileVersion"@,
            spec_rewrite_assembly_info(all.subrange(0, i as int), version@) == Some(
                (lines_view(out@), did_anything),
            ),
        decreases lines.len() - i,
    {
        let line = lines[i].as_str();
        let l = str_to_chars(line);
        proof {
            assert(all.subrange(0, i + 1).drop_last() =~= all.subrange(0, i as int));
            assert(all.subrange(0, i + 1).last() == line@);
        }
        let ghost before = lines_view(out@);
        if starts_with(&l, &p1) || starts_with(&l, &p2) {
            match replace_text_in_string_literal(line, vtext.as_str()) {
                Ok(t) => {
                    out.push(t);
                    did_anything = true;
                },
                Err(e) => {
                    proof {
                        lemma_rewrite_assembly_info_none(all, version@, i as int);
                    }
                    return Err(e);
                },
            }
        } else {
            out.push(owned(line));
        }
        proof {
            assert(lines_view(out@) =~= before.push(out@.last()@));
        }
        i = i + 1;
    }
    proof {
        assert(all.subrange(0, i as int) =~= all);
    }
    Ok((out, did_anything))
}

/// Rewrites a vdproj (setup installer) to include real version numbers.
#[derive(Debug)]
pub struct VdprojRewriter {
    proj_id: ProjectId,
    vdproj_path: RepoPathBuf,
}

impl VdprojRewriter {
    pub closed spec fn proj_view(&self) -> ProjectId {
        self.proj_id
    }

    pub closed spec fn path_view(&self) -> Seq<u8> {
        self.vdproj_path@
    }

    /// Creates a new vdproj rewriter.
    pub fn new(proj_id: ProjectId, vdproj_path: RepoPathBuf) -> (res: Self)
        ensures
            res.proj_view() == proj_id,
            res.path_view() == vdproj_path@,
    {
        VdprojRewriter { proj_id, vdproj_path }
    }

    /// The project whose version is written.
    pub fn proj_id(&self) -> (res: ProjectId)
        ensures
            res == self.proj_view(),
    {
        self.proj_id
    }

    /// The file that is rewritten.
    pub fn vdproj_path(&self) -> (res: &RepoPathBuf)
        ensures
            res@ == self.path_view(),
    {
        &self.vdproj_path
    }
}

/// Whether a text has the form of a hyphenated UUID: 36 characters, hyphens
/// at positions 8, 13, 18 and 23, and lower-case hexadecimal digits elsewhere.
pub open spec fn is_hyphenated_uuid(t: Seq<char>) -> bool {
    t.len() == 36 && forall|i: int|
        0 <= i < 36 ==> if i == 8 || i == 13 || i == 18 || i == 23 {
            #[trigger] t[i] == '-'
        } else {
            ('0' <= t[i] && t[i] <= '9') || ('a' <= t[i] && t[i] <= 'f')
        }
}

/// Calls `uuid::Uuid::new_v4` and renders the result with `hyphenated()`.
/// The UUID is random; the contract states only the textual form that the
/// crate's hyphenated formatter writes.
#[verifier::external_body]
fn random_uuid_text() -> (res: String)
    ensures
        is_hyphenated_uuid(res@),
{
    uuid::Uuid::new_v4().hyphenated().to_string()
}

/// The product or package code written into a setup project for a UUID in
/// hyphenated form: upper-cased and braced.
pub open spec fn package_code_text(uuid: Seq<char>) -> Seq<char> {
    "{"@ + ascii_uppercase(uuid) + "}"@
}

/// Formats a UUID as a setup-project product code.
pub fn package_code(uuid: &str) -> (res: String)
    ensures
        res@ == package_code_text(uuid@),
{
    let mut out = str_to_chars("{");
    let up = to_ascii_uppercase(uuid);
    append_chars(&mut out, &str_to_chars(up.as_str()));
    append_chars(&mut out, &str_to_chars("}"));
    chars_to_string(&out)
}

/// A fresh random product code for a setup project.
pub fn new_package_code() -> (res: String)
    ensures
        exists|u: Seq<char>| is_hyphenated_uuid(u) && res@ == package_code_text(u),
{
    let u = random_uuid_text();
    package_code(u.as_str())
}

/// The `X.Y.Z` product version of a version: the first three dot-separated
/// pieces of its text.
pub open spec fn product_version(v: VersionModel) -> Seq<char> {
    let p = split_char(render_version(v), '.');
    p[0] + "."@ + p[1] + "."@ + p[2]
}

/// One vdproj line after rewriting, whether it was rewritten, and whether
/// the `"Product"` section has been entered. The `ProductVersion` line gets
/// the product version; within the `"Product"` section, the `ProductCode`
/// and `PackageCode` lines get the new package code.
pub open spec fn vdproj_line(line: Seq<char>, seen: bool, v: VersionModel, pcode: Seq<char>) -> Option<
    (Seq<char>, bool, bool),
> {
    let seen2 = seen || trim(line) == "\"Product\""@;
    if contains_seq(line, "\"ProductVersion\" ="@) {
        match spec_replace_vdproj(line, product_version(v)) {
            Some(r) => Some((r, true, seen2)),
            None => None,
        }
    } else if seen2 && (contains_seq(line, "\"ProductCode\" ="@) || contains_seq(
        line,
        "\"PackageCode\" ="@,
    )) {
        match spec_replace_vdproj(line, pcode) {
            Some(r) => Some((r, true, seen2)),
            None => None,
        }
    } else {
        Some((line, false, seen2))
    }
}

/// The lines of a vdproj file after rewriting, whether any was rewritten, and
/// whether the `"Product"` section was entered; `None` when a line cannot be
/// rewritten.
pub open spec fn spec_rewrite_vdproj(lines: Seq<Seq<char>>, v: VersionModel, pcode: Seq<char>) -> Option<
    (Seq<Seq<char>>, bool, bool),
>
    decreases lines.len(),
{
    if lines.len() == 0 {
        Some((Seq::empty(), false, false))
    } else {
        match spec_rewrite_vdproj(lines.drop_last(), v, pcode) {
            Some((out, d, seen)) => match vdproj_line(lines.last(), seen, v, pcode) {
                Some((l, d2, seen2)) => Some((out.push(l), d || d2, seen2)),
                None => None,
            },
            None => None,
        }
    }
}

proof fn lemma_rewrite_vdproj_none(all: Seq<Seq<char>>, v: VersionModel, pcode: Seq<char>, i: int)
    requires
        0 <= i < all.len(),
        spec_rewrite_vdproj(all.subrange(0, i + 1), v, pcode) is None,
    ensures
        spec_rewrite_vdproj(all, v, pcode) is None,
    decreases all.len() - i,
{
    if i + 1 == all.len() {
        assert(all.subrange(0, i + 1) =~= all);
    } else {
        assert(all.subrange(0, i + 2).drop_last() =~= all.subrange(0, i + 1));
        lemma_rewrite_vdproj_none(all, v, pcode, i + 1);
    }
}

/// Computes the product version text.
fn product_version_text(version: &Version) -> (res: String)
    requires
        version@.wf(),
        split_char(render_version(version@), '.').len() >= 3,
    ensures
        res@ == product_version(version@),
{
    let vt = version.to_string();
    let pieces = split_chars(&str_to_chars(vt.as_str()), '.');
    let mut out: Vec<char> = Vec::new();
    append_chars(&mut out, &pieces[0]);
    out.push('.');
    append_chars(&mut out, &pieces[1]);
    out.push('.');
    append_chars(&mut out, &pieces[2]);
    proof {
        reveal_strlit(".");
        assert(out@ =~= product_version(version@));
    }
    chars_to_string(&out)
}

/// Whether some line mentions `"ProductVersion" =`.
pub open spec fn has_product_version_line(lines: Seq<Seq<char>>) -> bool {
    exists|i: int| 0 <= i < lines.len() && contains_seq(#[trigger] lines[i], "\"ProductVersion\" ="@)
}

/// Rewrites the lines of a vdproj file with the project's version and a new
/// package code, returning the new lines and whether any line was
/// rewritten. Where a line states the product version, the version's text
/// must have at least three dot-separated pieces.
pub fn rewrite_vdproj_lines(lines: &Vec<String>, version: &Version, pcode: &str) -> (res: Result<
    (Vec<String>, bool),
    Error,
>)
    requires
        version@.wf(),
        has_product_version_line(lines_view(lines@)) ==> split_char(render_version(version@), '.').len() >= 3,
    ensures
        match res {
            Ok((out, d)) => spec_rewrite_vdproj(lines_view(lines@), version@, pcode@) matches Some(
                (o, d2, _),
            ) && o == lines_view(out@) && d2 == d,
            Err(e) => spec_rewrite_vdproj(lines_view(lines@), version@, pcode@) is None
                && e is VdprojSyntax,
        },
{
    let ghost all = lines_view(lines@);
    let vt = version.to_string();
    let n_pieces = split_chars(&str_to_chars(vt.as_str()), '.').len();
    let pv = if n_pieces >= 3 {
        product_version_text(version)
    } else {
        String::new()
    };
    let k_product = str_to_chars("\"Product\"");
    let k_version = str_to_chars("\"ProductVersion\" =");
    let k_pcode = str_to_chars("\"ProductCode\" =");
    let k_package = str_to_chars("\"PackageCode\" =");
    let mut out: Vec<String> = Vec::new();
    let mut did_anything = false;
    let mut seen_product = false;
    let mut i: usize = 0;
    proof {
        assert(all.subrange(0, 0) =~= Seq::<Seq<char>>::empty());
        assert(lines_view(out@) =~= Seq::<Seq<char>>::empty());
    }
    while i < lines.len()
        invariant
            i <= lines@.len(),
            all == lines_view(lines@),
            all.len() == lines@.len(),
            n_pieces >= 3 ==> pv@ == product_version(version@),
            n_pieces == split_char(render_version(version@), '.').len(),
            has_product_version_line(all) ==> split_char(render_version(version@), '.').len() >= 3,
            k_product@ == "\"Product\""@,
            k_version@ == "\"ProductVersion\" ="@,
            k_pcode@ == "\"ProductCode\" ="@,
            k_package@ == "\"PackageCode\" ="@,
            spec_rewrite_vdproj(all.subrange(0, i as int), version@, pcode@) == Some(
                (lines_view(out@), did_anything, seen_product),
            ),
        decreases lines.len() - i,
    {
        let line = lines[i].as_str();
        let l = str_to_chars(line);
        proof {
            assert(all.subrange(0, i + 1).drop_last() =~= all.subrange(0, i as int));
            assert(all.subrange(0, i + 1).last() == line@);
        }
        let ghost before = lines_view(out@);
        let t = trim_chars(&l);
        if crate::text::chars_equal(&t, k_product.as_slice()) {
            seen_product = true;
        }
        if contains(&l, &k_version) {
            proof {
                assert(all[i as int] == line@);
                assert(has_product_version_line(all));
            }
            match replace_vdproj_text(line, pv.as_str()) {
                Ok(r) => {
                    out.push(r);
                    did_anything = true;
                },
                Err(e) => {
                    proof {
                        lemma_rewrite_vdproj_none(all, version@, pcode@, i as int);
                    }
                    return Err(e);
                },
            }
        } else if seen_product && (contains(&l, &k_pcode) || contains(&l, &k_package)) {
            match replace_vdproj_text(line, pcode) {
                Ok(r) => {
                    out.push(r);
                    did_anything = true;
                },
                Err(e) => {
                    proof {
                        lemma_rewrite_vdproj_none(all, version@, pcode@, i as int);
                    }
                    return Err(e);
                },
            }
        } else {
            out.push(owned(line));
        }
        proof {
            assert(lines_view(out@) =~= before.push(out@.last()@));
        }
        i = i + 1;
    }
    proof {
        assert(all.subrange(0, i as int) =~= all);
    }
    Ok((out, did_anything))
}

// ---------------------------------------------------------------------------
// Reading the project XML

/// Declared so that an XML reader can be held by verified code.
#[verifier::external_type_specification]
#[verifier::external_body]
#[verifier::reject_recursive_types(R)]
pub struct ExXmlReader<R>(quick_xml::reader::Reader<R>);

/// One XML event, as far as project files need it: a start tag with its
/// name, raw (still escaped) text, an end tag, the end of input, any other
/// event, or a syntax error.
#[derive(Debug)]
pub enum XmlItem {
    Start(Vec<u8>),
    Text(Vec<u8>),
    End,
    Eof,
    Other,
    Failure,
}

pub enum XmlItemModel {
    Start(Seq<u8>),
    Text(Seq<u8>),
    End,
    Eof,
    Other,
    Failure,
}

impl View for XmlItem {
    type V = XmlItemModel;

    open spec fn view(&self) -> XmlItemModel {
        match self {
            XmlItem::Start(n) => XmlItemModel::Start(n@),
            XmlItem::Text(t) => XmlItemModel::Text(t@),
            XmlItem::End => XmlItemModel::End,
            XmlItem::Eof => XmlItemModel::Eof,
            XmlItem::Other => XmlItemModel::Other,
            XmlItem::Failure => XmlItemModel::Failure,
        }
    }
}

/// The events that `quick_xml`'s reader, in its default configuration,
/// yields for a document, as project files need them: from the first up to
/// and including the first end of input or error. They are a function of
/// the document's bytes alone.
pub uninterp spec fn xml_document_events(doc: Seq<u8>) -> Seq<XmlItemModel>;

/// The events that a reader yields from its current position on, up to and
/// including the first end of input or error.
pub uninterp spec fn xml_pending_events(r: quick_xml::reader::Reader<&[u8]>) -> Seq<XmlItemModel>;

/// Whether an event ends the reading of a document.
pub open spec fn is_final_event(e: XmlItemModel) -> bool {
    e is Eof || e is Failure
}

/// Whether events run up to exactly one final event, the last.
pub open spec fn runs_to_end(evs: Seq<XmlItemModel>) -> bool {
    &&& evs.len() > 0
    &&& is_final_event(evs.last())
    &&& forall|i: int| 0 <= i < evs.len() - 1 ==> !is_final_event(#[trigger] evs[i])
}

/// Calls `quick_xml::Reader::from_reader` on the bytes of a document. The
/// reader then yields the document's events; reading a byte slice, it
/// reaches the end of input or an error after finitely many events.
#[verifier::external_body]
fn xml_reader<'a>(bytes: &'a [u8]) -> (res: quick_xml::reader::Reader<&'a [u8]>)
    ensures
        xml_pending_events(res) == xml_document_events(bytes@),
        runs_to_end(xml_pending_events(res)),
{
    quick_xml::reader::Reader::from_reader(bytes)
}

/// Calls `quick_xml::Reader::read_event` and keeps what project files need
/// of the event: the next pending event, which the reader then leaves
/// behind. Nothing is stated of reads past the end of input or an error.
#[verifier::external_body]
fn next_xml_item(reader: &mut quick_xml::reader::Reader<&[u8]>) -> (res: XmlItem)
    ensures
        xml_pending_events(*old(reader)).len() > 0 ==> res@ == xml_pending_events(*old(reader))[0]
            && xml_pending_events(*final(reader)) == xml_pending_events(*old(reader)).drop_first(),
{
    match reader.read_event() {
        Ok(quick_xml::events::Event::Start(e)) => XmlItem::Start(e.name().0.to_vec()),
        Ok(quick_xml::events::Event::Text(t)) => XmlItem::Text(t.into_inner().into_owned()),
        Ok(quick_xml::events::Event::End(_)) => XmlItem::End,
        Ok(quick_xml::events::Event::Eof) => XmlItem::Eof,
        Ok(_) => XmlItem::Other,
        Err(_) => XmlItem::Failure,
    }
}

/// The text that `quick_xml::escape::unescape` makes of escaped XML text:
/// entity and character references replaced; `None` where it reports an
/// error.
pub uninterp spec fn xml_unescaped(s: Seq<char>) -> Option<Seq<char>>;

/// Calls `quick_xml::escape::unescape`; its result is named `xml_unescaped`.
#[verifier::external_body]
fn xml_unescape(s: &str) -> (res: Option<String>)
    ensures
        match res {
            Some(t) => xml_unescaped(s@) == Some(t@),
            None => xml_unescaped(s@) is None,
        },
{
    match quick_xml::escape::unescape(s) {
        Ok(t) => Some(t.into_owned()),
        Err(_) => None,
    }
}

/// The text of an XML text event: its bytes decoded as UTF-8 and then
/// unescaped, as `BytesText::unescape` does.
pub open spec fn xml_text(raw: Seq<u8>) -> Option<Seq<char>> {
    if vstd::utf8::valid_utf8(raw) {
        xml_unescaped(vstd::utf8::decode_utf8(raw))
    } else {
        None
    }
}

/// Decodes the text of an XML text event.
pub fn decode_xml_text(raw: &Vec<u8>) -> (res: Option<String>)
    ensures
        match res {
            Some(t) => xml_text(raw@) == Some(t@),
            None => xml_text(raw@) is None,
        },
{
    match core::str::from_utf8(raw.as_slice()) {
        Ok(s) => xml_unescape(s),
        Err(_) => None,
    }
}

/// What reading events gives, with `fuel` reads allowed past the first:
/// the events before the end of input, or a failure at an error or when
/// the fuel runs out.
pub open spec fn spec_read_items(evs: Seq<XmlItemModel>, fuel: nat) -> Result<Seq<XmlItemModel>, ()>
    decreases evs.len(),
{
    if evs.len() == 0 {
        Err(())
    } else if evs[0] is Eof {
        Ok(Seq::empty())
    } else if evs[0] is Failure || fuel == 0 {
        Err(())
    } else {
        match spec_read_items(evs.drop_first(), (fuel - 1) as nat) {
            Ok(rest) => Ok(seq![evs[0]] + rest),
            Err(_) => Err(()),
        }
    }
}

/// The events of a document before its end, read as `read_xml_items`
/// reads them: at most one event per byte of the document.
pub open spec fn document_items(doc: Seq<u8>) -> Result<Seq<XmlItemModel>, ()> {
    spec_read_items(xml_document_events(doc), doc.len())
}

pub open spec fn after_items(done: Seq<XmlItemModel>, r: Result<Seq<XmlItemModel>, ()>) -> Result<
    Seq<XmlItemModel>,
    (),
> {
    match r {
        Ok(rest) => Ok(done + rest),
        Err(_) => Err(()),
    }
}

/// Reads the events of an XML document up to its end. Every event but the
/// end of input consumes input, so at most one read per byte is made before
/// the end; a document that gave more would be reported as malformed.
pub fn read_xml_items(bytes: &[u8]) -> (res: Result<Vec<XmlItem>, Error>)
    ensures
        match document_items(bytes@) {
            Ok(evs) => res matches Ok(items) && items_view(items@) == evs,
            Err(_) => res matches Err(Error::XmlSyntax),
        },
        res matches Ok(items) ==> forall|i: int| 0 <= i < items@.len() ==> !(#[trigger] items@[i] is Eof)
            && !(items@[i] is Failure),
{
    let mut reader = xml_reader(bytes);
    let mut items: Vec<XmlItem> = Vec::new();
    let mut fuel: usize = bytes.len();
    proof {
        assert(items_view(items@) =~= Seq::<XmlItemModel>::empty());
        match spec_read_items(xml_pending_events(reader), fuel as nat) {
            Ok(r) => assert(Seq::<XmlItemModel>::empty() + r =~= r),
            Err(_) => {},
        }
    }
    loop
        invariant
            runs_to_end(xml_pending_events(reader)),
            document_items(bytes@) == after_items(
                items_view(items@),
                spec_read_items(xml_pending_events(reader), fuel as nat),
            ),
            forall|i: int| 0 <= i < items@.len() ==> !(#[trigger] items@[i] is Eof) && !(
            items@[i] is Failure),
        decreases fuel,
    {
        let ghost pend = xml_pending_events(reader);
        let item = next_xml_item(&mut reader);
        match item {
            XmlItem::Eof => {
                proof {
                    assert(items_view(items@) + Seq::<XmlItemModel>::empty() =~= items_view(items@));
                }
                return Ok(items);
            },
            XmlItem::Failure => return Err(Error::XmlSyntax),
            _ => {},
        }
        if fuel == 0 {
            return Err(Error::XmlSyntax);
        }
        let ghost before = items_view(items@);
        items.push(item);
        fuel = fuel - 1;
        proof {
            assert(!is_final_event(pend[0]));
            assert(pend.len() >= 2);
            let d = pend.drop_first();
            assert(d.last() == pend.last());
            assert forall|i: int| 0 <= i < d.len() - 1 implies !is_final_event(#[trigger] d[i]) by {
                assert(d[i] == pend[i + 1]);
            }
            assert(items_view(items@) =~= before.push(pend[0]));
            match spec_read_items(d, fuel as nat) {
                Ok(r) => assert(before + (seq![pend[0]] + r) =~= before.push(pend[0]) + r),
                Err(_) => {},
            }
        }
    }
}

/// Where the scan of a project file stands: which element's text comes
/// next, if any that matters.
#[derive(Debug, Clone, Copy, PartialEq, Eq, Structural)]
pub enum CsState {
    Scanning,
    GuidText,
    NameText,
    DepGuidText,
    DepReqText,
}

/// What a project file says: its GUID and assembly name (lower-cased GUIDs),
/// the GUIDs of the projects it references, and the `CrankoInternalDepVersion`
/// requirement texts keyed by GUID.
#[derive(Debug)]
pub struct CsprojXml {
    pub guid: Option<String>,
    pub name: Option<String>,
    pub dep_guids: Vec<String>,
    pub dep_reqs: Vec<(String, String)>,
}

pub struct CsprojModel {
    pub guid: Option<Seq<char>>,
    pub name: Option<Seq<char>>,
    pub dep_guids: Seq<Seq<char>>,
    pub dep_reqs: Seq<(Seq<char>, Seq<char>)>,
}

impl View for CsprojXml {
    type V = CsprojModel;

    open spec fn view(&self) -> CsprojModel {
        CsprojModel {
            guid: opt_text(self.guid),
            name: opt_text(self.name),
            dep_guids: lines_view(self.dep_guids@),
            dep_reqs: crate::text::pairs_view(self.dep_reqs@),
        }
    }
}

pub open spec fn opt_text(o: Option<String>) -> Option<Seq<char>> {
    match o {
        Some(t) => Some(t@),
        None => None,
    }
}

/// Why a project file could not be read.
pub enum CsFail {
    Syntax,
    Text,
    Malformed(Seq<char>),
}

/// The state after a start tag with this name. A `Project` element is a
/// project reference only once the file's own GUID is known, which keeps the
/// top-level `Project` element out.
pub open spec fn state_after_start(name: Seq<u8>, m: CsprojModel) -> CsState {
    if name == "ProjectGuid".spec_bytes() {
        CsState::GuidText
    } else if name == "AssemblyName".spec_bytes() {
        CsState::NameText
    } else if name == "Project".spec_bytes() {
        if m.guid is Some {
            CsState::DepGuidText
        } else {
            CsState::Scanning
        }
    } else if name == "CrankoInternalDepVersion".spec_bytes() {
        CsState::DepReqText
    } else {
        CsState::Scanning
    }
}

/// What one text event does in a given state.
pub open spec fn text_step(st: CsState, raw: Seq<u8>, m: CsprojModel) -> Result<
    (CsState, CsprojModel),
    CsFail,
> {
    match st {
        CsState::Scanning => Ok((st, m)),
        _ => match xml_text(raw) {
            None => Err(CsFail::Text),
            Some(t) => match st {
                CsState::GuidText => Ok(
                    (CsState::Scanning, CsprojModel { guid: Some(ascii_lowercase(t)), ..m }),
                ),
                CsState::NameText => Ok((CsState::Scanning, CsprojModel { name: Some(t), ..m })),
                CsState::DepGuidText => Ok(
                    (
                        CsState::Scanning,
                        CsprojModel { dep_guids: m.dep_guids.push(ascii_lowercase(t)), ..m },
                    ),
                ),
                _ => match split_once(t, '=') {
                    None => Err(CsFail::Malformed(t)),
                    Some((g, r)) => Ok(
                        (
                            CsState::Scanning,
                            CsprojModel { dep_reqs: m.dep_reqs.push((ascii_lowercase(g), r)), ..m },
                        ),
                    ),
                },
            },
        },
    }
}

/// What a project file's events say, from state `st` and knowledge `m` on.
/// Reading stops at the end of input.
pub open spec fn spec_scan_csproj(items: Seq<XmlItemModel>, st: CsState, m: CsprojModel) -> Result<
    CsprojModel,
    CsFail,
>
    decreases items.len(),
{
    if items.len() == 0 {
        Ok(m)
    } else {
        match items[0] {
            XmlItemModel::Eof => Ok(m),
            XmlItemModel::Failure => Err(CsFail::Syntax),
            XmlItemModel::Start(n) => spec_scan_csproj(items.drop_first(), state_after_start(n, m), m),
            XmlItemModel::End => spec_scan_csproj(items.drop_first(), CsState::Scanning, m),
            XmlItemModel::Other => spec_scan_csproj(items.drop_first(), st, m),
            XmlItemModel::Text(raw) => match text_step(st, raw, m) {
                Ok((st2, m2)) => spec_scan_csproj(items.drop_first(), st2, m2),
                Err(f) => Err(f),
            },
        }
    }
}

pub open spec fn empty_csproj_model() -> CsprojModel {
    CsprojModel { guid: None, name: None, dep_guids: Seq::empty(), dep_reqs: Seq::empty() }
}

pub open spec fn items_view(items: Seq<XmlItem>) -> Seq<XmlItemModel> {
    items.map_values(|i: XmlItem| i@)
}

fn names_equal(n: &Vec<u8>, s: &str) -> (r: bool)
    ensures
        r == (n@ == s.spec_bytes()),
{
    crate::repository::bytes_equal(n.as_slice(), s.as_bytes())
}

/// Handles one text event.
fn scan_text(st: CsState, raw: &Vec<u8>, m: &mut CsprojXml) -> (res: Result<CsState, Error>)
    ensures
        match text_step(st, raw@, old(m)@) {
            Ok((st2, m2)) => res == Ok::<CsState, Error>(st2) && final(m)@ == m2,
            Err(CsFail::Syntax) => false,
            Err(CsFail::Text) => res matches Err(Error::XmlText),
            Err(CsFail::Malformed(t)) => res matches Err(Error::MalformedInternalDepVersion(x))
                && x@ == t,
        },
{
    if st == CsState::Scanning {
        return Ok(st);
    }
    let t = match decode_xml_text(raw) {
        Some(t) => t,
        None => return Err(Error::XmlText),
    };
    match st {
        CsState::GuidText => {
            m.guid = Some(to_ascii_lowercase(t.as_str()));
        },
        CsState::NameText => {
            m.name = Some(t);
        },
        CsState::DepGuidText => {
            let g = to_ascii_lowercase(t.as_str());
            let ghost before = lines_view(m.dep_guids@);
            m.dep_guids.push(g);
            assert(lines_view(m.dep_guids@) =~= before.push(g@));
        },
        _ => {
            let tc = str_to_chars(t.as_str());
            match split_once_chars(&tc, '=') {
                None => return Err(Error::MalformedInternalDepVersion(t)),
                Some((g, r)) => {
                    let gs = chars_to_string(&g);
                    let key = to_ascii_lowercase(gs.as_str());
                    let val = chars_to_string(&r);
                    let ghost before = crate::text::pairs_view(m.dep_reqs@);
                    m.dep_reqs.push((key, val));
                    assert(crate::text::pairs_view(m.dep_reqs@) =~= before.push((key@, val@)));
                },
            }
        },
    }
    Ok(CsState::Scanning)
}

/// Reads what a project file's XML events say.
pub fn scan_csproj_items(items: &Vec<XmlItem>) -> (res: Result<CsprojXml, Error>)
    ensures
        match spec_scan_csproj(items_view(items@), CsState::Scanning, empty_csproj_model()) {
            Ok(m) => res matches Ok(x) && x@ == m,
            Err(CsFail::Syntax) => res matches Err(Error::XmlSyntax),
            Err(CsFail::Text) => res matches Err(Error::XmlText),
            Err(CsFail::Malformed(t)) => res matches Err(Error::MalformedInternalDepVersion(x))
                && x@ == t,
        },
{
    let ghost all = items_view(items@);
    let mut m = CsprojXml { guid: None, name: None, dep_guids: Vec::new(), dep_reqs: Vec::new() };
    proof {
        assert(m@.dep_guids =~= Seq::<Seq<char>>::empty());
        assert(m@.dep_reqs =~= Seq::<(Seq<char>, Seq<char>)>::empty());
        assert(all.skip(0) =~= all);
    }
    let mut st = CsState::Scanning;
    let mut i: usize = 0;
    while i < items.len()
        invariant
            i <= items@.len(),
            all == items_view(items@),
            all.len() == items@.len(),
            spec_scan_csproj(all, CsState::Scanning, empty_csproj_model()) == spec_scan_csproj(
                all.skip(i as int),
                st,
                m@,
            ),
        decreases items.len() - i,
    {
        proof {
            assert(all.skip(i as int)[0] == items@[i as int]@);
            assert(all.skip(i as int).drop_first() =~= all.skip(i + 1));
        }
        match &items[i] {
            XmlItem::Eof => return Ok(m),
            XmlItem::Failure => return Err(Error::XmlSyntax),
            XmlItem::Start(n) => {
                st = if names_equal(n, "ProjectGuid") {
                    CsState::GuidText
                } else if names_equal(n, "AssemblyName") {
                    CsState::NameText
                } else if names_equal(n, "Project") {
                    if m.guid.is_some() {
                        CsState::DepGuidText
                    } else {
                        CsState::Scanning
                    }
                } else if names_equal(n, "CrankoInternalDepVersion") {
                    CsState::DepReqText
                } else {
                    CsState::Scanning
                };
            },
            XmlItem::End => {
                st = CsState::Scanning;
            },
            XmlItem::Other => {},
            XmlItem::Text(raw) => {
                match scan_text(st, raw, &mut m) {
                    Ok(s2) => {
                        st = s2;
                    },
                    Err(e) => return Err(e),
                }
            },
        }
        i = i + 1;
    }
    proof {
        assert(all.skip(i as int) =~= Seq::<XmlItemModel>::empty());
    }
    Ok(m)
}

/// What a `.csproj` file says, read from its bytes.
pub open spec fn spec_csproj_file(bytes: Seq<u8>) -> Result<CsprojModel, CsFail> {
    match document_items(bytes) {
        Ok(evs) => spec_scan_csproj(evs, CsState::Scanning, empty_csproj_model()),
        Err(_) => Err(CsFail::Syntax),
    }
}

/// Reads a `.csproj` file: its GUID, assembly name, project references and
/// internal-dependency requirement texts.
pub fn scan_csproj(bytes: &[u8]) -> (res: Result<CsprojXml, Error>)
    ensures
        match spec_csproj_file(bytes@) {
            Ok(m) => res matches Ok(x) && x@ == m,
            Err(CsFail::Syntax) => res matches Err(Error::XmlSyntax),
            Err(CsFail::Text) => res matches Err(Error::XmlText),
            Err(CsFail::Malformed(t)) => res matches Err(Error::MalformedInternalDepVersion(x))
                && x@ == t,
        },
{
    match read_xml_items(bytes) {
        Ok(items) => scan_csproj_items(&items),
        Err(e) => Err(e),
    }
}

// ---------------------------------------------------------------------------
// Completing the projects

/// The files of one C# project directory, as read from the working tree.
#[derive(Debug)]
pub struct CsDirFiles {
    /// The bytes of the `.csproj` file.
    pub csproj_xml: Vec<u8>,
    /// The lines of `AssemblyInfo.cs`.
    pub assembly_info: Vec<String>,
}

/// An internal dependency between C# projects, whose Cranko requirement text
/// still has to be resolved.
#[derive(Debug)]
pub struct CsPendingDep {
    pub depender: ProjectId,
    pub dependee: ProjectId,
    /// The requirement text as the project file states it, or `UNDEFINED`.
    pub literal: String,
    /// The `CrankoInternalDepVersion` requirement text, when there is one.
    pub req_text: Option<String>,
    /// The project file that states the requirement.
    pub csproj: RepoPathBuf,
}

/// What is known of a registered C# project while its dependencies are
/// linked.
struct CsInfo {
    ident: ProjectId,
    name: String,
    guid: String,
    csproj: RepoPathBuf,
    /// The GUIDs depended on, with their requirement texts.
    deps: Vec<(String, Option<String>)>,
}

/// Whether `info` was made for the registered project of directory `x`,
/// one of the first `i` directories.
spec fn cs_info_for(
    info: CsInfo,
    ents: Seq<CsDirModel>,
    fs: Seq<Option<CsDirFiles>>,
    pconfig: Seq<(String, ProjectConfiguration)>,
    x: int,
    i: int,
) -> bool {
    &&& 0 <= x < i
    &&& cs_dir_project(ents, fs, pconfig, x) is Some
    &&& cs_dir_project(ents, fs, pconfig, x).unwrap().guid == Some(info.guid@)
    &&& info.deps@.len() == cs_dir_project(ents, fs, pconfig, x).unwrap().dep_guids.len()
    &&& forall|b: int|
        0 <= b < info.deps@.len() ==> (#[trigger] info.deps@[b]).0@ == cs_dir_project(ents, fs, pconfig, x).unwrap().dep_guids[b]
}

/// Finds the project registered with a GUID; a later registration overrides
/// an earlier one.
fn find_guid(infos: &Vec<CsInfo>, guid: &String) -> (res: Option<usize>)
    ensures
        match res {
            Some(k) => k < infos@.len() && infos@[k as int].guid@ == guid@,
            None => forall|k: int| 0 <= k < infos@.len() ==> infos@[k].guid@ != guid@,
        },
{
    let mut i: usize = infos.len();
    while i > 0
        invariant
            i <= infos@.len(),
            forall|k: int| i <= k < infos@.len() ==> infos@[k].guid@ != guid@,
        decreases i,
    {
        if infos[i - 1].guid == *guid {
            return Some(i - 1);
        }
        i = i - 1;
    }
    None
}

/// The shape of a project that the C# loader registers: named by its
/// assembly name qualified as `csproj`, with a prefix, a .NET version, an
/// `AssemblyInfo.cs` rewriter followed by setup-project rewriters, and no
/// dependencies yet.
pub open spec fn cs_registered(p: ProjectBuilder) -> bool {
    &&& p.qnames@.len() == 2
    &&& p.qnames@[1]@ == "csproj"@
    &&& p.prefix is Some
    &&& p.version matches Some(Version::DotNet(_))
    &&& p.rewriters@.len() >= 1
    &&& p.rewriters@[0] is AssemblyInfoCs
    &&& forall|j: int| 1 <= j < p.rewriters@.len() ==> p.rewriters@[j] is Vdproj
    &&& p.internal_deps@.len() == 0
}

/// The literal requirement text of a pending dependency: the stated text,
/// or `UNDEFINED` where the project file states none.
pub open spec fn cs_literal_ok(d: CsPendingDep) -> bool {
    match d.req_text {
        Some(t) => d.literal@ == t@,
        None => d.literal@ == "UNDEFINED"@,
    }
}

/// What reading the files of a directory gives: an error when its project
/// file cannot be read, or when it names a GUID and an assembly name but its
/// `AssemblyInfo.cs` cannot be read; nothing when it lacks a GUID, an
/// assembly name or a version; else what the project file says and the
/// version.
pub open spec fn cs_dir_reading(f: CsDirFiles) -> Result<Option<(CsprojModel, DotNetVersion)>, ()> {
    match spec_csproj_file(f.csproj_xml@) {
        Err(_) => Err(()),
        Ok(m) => if m.guid is Some && m.name is Some {
            match spec_assembly_version(lines_view(f.assembly_info@)) {
                None => Err(()),
                Some(None) => Ok(None),
                Some(Some(v)) => Ok(Some((m, v))),
            }
        } else {
            Ok(None)
        },
    }
}

/// Whether the files of directory `x` are read: they were found, and its
/// entry has both a project file and an `AssemblyInfo.cs`.
pub open spec fn cs_scanned(entries: Seq<CsDirModel>, files: Seq<Option<CsDirFiles>>, x: int) -> bool {
    files[x] is Some && entries[x].1 is Some && entries[x].2 is Some
}

/// What the project file of directory `x` says, where the directory's
/// project is registered: it is read without error, states a GUID, an
/// assembly name and a version, and the configuration does not ignore it.
pub open spec fn cs_dir_project(
    entries: Seq<CsDirModel>,
    files: Seq<Option<CsDirFiles>>,
    pconfig: Seq<(String, ProjectConfiguration)>,
    x: int,
) -> Option<CsprojModel> {
    if cs_scanned(entries, files, x) {
        match cs_dir_reading(files[x].unwrap()) {
            Ok(Some((m, _))) => if config_ignores(pconfig, full_name(seq![m.name.unwrap(), "csproj"@])) {
                None
            } else {
                Some(m)
            },
            _ => None,
        }
    } else {
        None
    }
}

/// Whether the lines of some setup project cannot be read.
pub open spec fn vdproj_fails(vl: Seq<Vec<String>>) -> bool {
    exists|v: int| 0 <= v < vl.len() && spec_vdproj_guid(lines_view(#[trigger] vl[v]@)) is None
}

/// Whether the files of some read directory cannot be read.
pub open spec fn cs_dirs_fail(entries: Seq<CsDirModel>, files: Seq<Option<CsDirFiles>>) -> bool {
    exists|x: int|
        0 <= x < files.len() && cs_scanned(entries, files, x) && #[trigger] cs_dir_reading(files[x].unwrap()) is Err
}

/// Whether every project that a registered project references by GUID is
/// registered too.
pub open spec fn cs_links_ok(
    entries: Seq<CsDirModel>,
    files: Seq<Option<CsDirFiles>>,
    pconfig: Seq<(String, ProjectConfiguration)>,
) -> bool {
    forall|x: int, k: int|
        0 <= x < files.len() && cs_dir_project(entries, files, pconfig, x) is Some && 0 <= k
            < cs_dir_project(entries, files, pconfig, x).unwrap().dep_guids.len() ==> exists|y: int|
            0 <= y < files.len() && #[trigger] cs_dir_project(entries, files, pconfig, y) is Some
                && cs_dir_project(entries, files, pconfig, y).unwrap().guid == Some(
                #[trigger] cs_dir_project(entries, files, pconfig, x).unwrap().dep_guids[k],
            )
}

/// The directories, among the first `n`, whose projects are registered, in
/// order.
pub open spec fn cs_registered_dirs(
    ents: Seq<CsDirModel>,
    fs: Seq<Option<CsDirFiles>>,
    pconfig: Seq<(String, ProjectConfiguration)>,
    n: int,
) -> Seq<int>
    decreases n,
{
    if n <= 0 {
        Seq::empty()
    } else {
        let prev = cs_registered_dirs(ents, fs, pconfig, n - 1);
        if cs_dir_project(ents, fs, pconfig, n - 1) is Some {
            prev.push(n - 1)
        } else {
            prev
        }
    }
}

/// Whether `p`, with identifier `ident`, is the project registered for
/// directory `x`: named by the assembly name qualified as `csproj`, with the
/// version of its `AssemblyInfo.cs`, the directory as prefix, and first a
/// rewriter for that `AssemblyInfo.cs`.
pub open spec fn cs_project_for(
    p: ProjectBuilder,
    ents: Seq<CsDirModel>,
    fs: Seq<Option<CsDirFiles>>,
    pconfig: Seq<(String, ProjectConfiguration)>,
    x: int,
    ident: int,
) -> bool {
    let m = cs_dir_project(ents, fs, pconfig, x).unwrap();
    &&& names_view(p.qnames@) == seq![m.name.unwrap(), "csproj"@]
    &&& p.version matches Some(Version::DotNet(v)) && cs_dir_reading(fs[x].unwrap()) == Ok::<
        Option<(CsprojModel, DotNetVersion)>,
        (),
    >(Some((m, v)))
    &&& p.prefix matches Some(d) && d@ == ents[x].0
    &&& p.rewriters@.len() >= 1
    &&& p.rewriters@[0] matches Rewriter::AssemblyInfoCs(r) && r.proj_view() == ident && r.path_view()
        == ents[x].2.unwrap()
}

/// Whether a pending dependency links the projects registered for two of
/// the registered directories `regd` (numbered from `base`): the depender's
/// project file references the GUID of the dependee's.
pub open spec fn cs_pending_links(
    d: CsPendingDep,
    ents: Seq<CsDirModel>,
    fs: Seq<Option<CsDirFiles>>,
    pconfig: Seq<(String, ProjectConfiguration)>,
    regd: Seq<int>,
    base: int,
) -> bool {
    exists|a: int, t: int, b: int|
        0 <= a < regd.len() && 0 <= t < regd.len() && d.depender == base + a && d.dependee == base + t
            && 0 <= b < cs_dir_project(ents, fs, pconfig, regd[a]).unwrap().dep_guids.len()
            && cs_dir_project(ents, fs, pconfig, regd[t]).unwrap().guid == Some(
            cs_dir_project(ents, fs, pconfig, regd[a]).unwrap().dep_guids[b],
        )
}

/// What a directory's files give: the project's GUID, assembly name,
/// references with their requirement texts, and version.
struct CsRead {
    guid: String,
    name: String,
    deps: Vec<(String, Option<String>)>,
    version: DotNetVersion,
}

/// Reads the files of one directory.
fn read_cs_dir(files: &CsDirFiles) -> (res: Result<Option<CsRead>, Error>)
    ensures
        match cs_dir_reading(*files) {
            Err(_) => res is Err,
            Ok(None) => res matches Ok(None),
            Ok(Some((m, v))) => res matches Ok(Some(r)) && m.guid == Some(r.guid@) && m.name == Some(r.name@)
                && r.version == v && r.deps@.len() == m.dep_guids.len() && forall|b: int|
                0 <= b < r.deps@.len() ==> (#[trigger] r.deps@[b]).0@ == m.dep_guids[b],
        },
{
    let xml = match scan_csproj(files.csproj_xml.as_slice()) {
        Ok(x) => x,
        Err(e) => return Err(e),
    };
    let (guid, name) = match (&xml.guid, &xml.name) {
        (Some(g), Some(nm)) => (g.clone(), nm.clone()),
        _ => return Ok(None),
    };
    // The requirement of each dependency, by the GUID depended on.
    let mut deps: Vec<(String, Option<String>)> = Vec::new();
    let mut d: usize = 0;
    while d < xml.dep_guids.len()
        invariant
            d <= xml.dep_guids@.len(),
            deps@.len() == d,
            forall|b: int| 0 <= b < d ==> (#[trigger] deps@[b]).0@ == xml.dep_guids@[b]@,
        decreases xml.dep_guids.len() - d,
    {
        let g = &xml.dep_guids[d];
        let text = match crate::text::table_get(&xml.dep_reqs, g) {
            Some(t) => Some(t.clone()),
            None => None,
        };
        deps.push((g.clone(), text));
        d = d + 1;
    }
    let version = match assembly_version(&files.assembly_info) {
        Ok(Some(v)) => v,
        Ok(None) => return Ok(None),
        Err(e) => return Err(e),
    };
    Ok(Some(CsRead { guid, name, deps, version }))
}

proof fn lemma_cs_link_missing(
    infos: Seq<CsInfo>,
    regs: Seq<int>,
    ents: Seq<CsDirModel>,
    fs: Seq<Option<CsDirFiles>>,
    pconfig: Seq<(String, ProjectConfiguration)>,
    n: int,
    a: int,
    b: int,
)
    requires
        n == fs.len(),
        regs.len() == infos.len(),
        forall|k: int| 0 <= k < regs.len() ==> cs_info_for(#[trigger] infos[k], ents, fs, pconfig, regs[k], n),
        forall|x: int|
            0 <= x < n && #[trigger] cs_dir_project(ents, fs, pconfig, x) is Some ==> exists|k: int|
                0 <= k < regs.len() && #[trigger] regs[k] == x,
        0 <= a < infos.len(),
        0 <= b < infos[a].deps@.len(),
        forall|t: int| 0 <= t < infos.len() ==> infos[t].guid@ != infos[a].deps@[b].0@,
    ensures
        !cs_links_ok(ents, fs, pconfig),
{
    let x = regs[a];
    assert(cs_info_for(infos[a], ents, fs, pconfig, x, n));
    let m = cs_dir_project(ents, fs, pconfig, x).unwrap();
    assert(infos[a].deps@[b].0@ == m.dep_guids[b]);
    if cs_links_ok(ents, fs, pconfig) {
        assert(0 <= b < cs_dir_project(ents, fs, pconfig, x).unwrap().dep_guids.len());
        let y = choose|y: int|
            0 <= y < fs.len() && #[trigger] cs_dir_project(ents, fs, pconfig, y) is Some
                && cs_dir_project(ents, fs, pconfig, y).unwrap().guid == Some(
                cs_dir_project(ents, fs, pconfig, x).unwrap().dep_guids[b],
            );
        let k = choose|k: int| 0 <= k < regs.len() && #[trigger] regs[k] == y;
        assert(cs_info_for(infos[k], ents, fs, pconfig, regs[k], n));
        assert(infos[k].guid@ == infos[a].deps@[b].0@);
    }
}

proof fn lemma_cs_links_found(
    infos: Seq<CsInfo>,
    regs: Seq<int>,
    ents: Seq<CsDirModel>,
    fs: Seq<Option<CsDirFiles>>,
    pconfig: Seq<(String, ProjectConfiguration)>,
    n: int,
)
    requires
        n == fs.len(),
        regs.len() == infos.len(),
        forall|k: int| 0 <= k < regs.len() ==> cs_info_for(#[trigger] infos[k], ents, fs, pconfig, regs[k], n),
        forall|x: int|
            0 <= x < n && #[trigger] cs_dir_project(ents, fs, pconfig, x) is Some ==> exists|k: int|
                0 <= k < regs.len() && #[trigger] regs[k] == x,
        forall|a2: int, b2: int|
            0 <= a2 < infos.len() && 0 <= b2 < infos[a2].deps@.len() ==> exists|t: int|
                0 <= t < infos.len() && infos[t].guid@ == (#[trigger] infos[a2].deps@[b2]).0@,
    ensures
        cs_links_ok(ents, fs, pconfig),
{
    assert forall|x: int, k: int|
        0 <= x < fs.len() && cs_dir_project(ents, fs, pconfig, x) is Some && 0 <= k
            < cs_dir_project(ents, fs, pconfig, x).unwrap().dep_guids.len() implies exists|y: int|
            0 <= y < fs.len() && #[trigger] cs_dir_project(ents, fs, pconfig, y) is Some
                && cs_dir_project(ents, fs, pconfig, y).unwrap().guid == Some(
                #[trigger] cs_dir_project(ents, fs, pconfig, x).unwrap().dep_guids[k],
            ) by {
        let a = choose|a: int| 0 <= a < regs.len() && #[trigger] regs[a] == x;
        assert(cs_info_for(infos[a], ents, fs, pconfig, regs[a], n));
        assert(infos[a].deps@[k].0@ == cs_dir_project(ents, fs, pconfig, x).unwrap().dep_guids[k]);
        let t = choose|t: int| 0 <= t < infos.len() && infos[t].guid@ == (#[trigger] infos[a].deps@[k]).0@;
        let y = regs[t];
        assert(cs_info_for(infos[t], ents, fs, pconfig, regs[t], n));
        assert(cs_dir_project(ents, fs, pconfig, y).unwrap().guid == Some(infos[t].guid@));
    }
}

impl CsProjLoader {
    /// Completes the C# projects, given the files of each directory of
    /// interest (`None` for a directory that lacks its `.csproj` or its
    /// `AssemblyInfo.cs`, which is skipped) and the lines of each setup
    /// project. A directory whose project file names no GUID or assembly
    /// name, or whose `AssemblyInfo.cs` states no version, is skipped too.
    /// The others are registered under their assembly name qualified as
    /// `csproj`, with an `AssemblyInfo.cs` rewriter and a rewriter for each
    /// setup project that packages them. Returns the dependencies between
    /// the registered projects.
    #[verifier::spinoff_prover]
    #[verifier::rlimit(40)]
    pub fn finalize(
        self,
        graph: &mut ProjectGraphBuilder,
        pconfig: &Vec<(String, ProjectConfiguration)>,
        dir_files: &Vec<Option<CsDirFiles>>,
        vdproj_lines: &Vec<Vec<String>>,
    ) -> (res: Result<Vec<CsPendingDep>, Error>)
        requires
            old(graph).wf(),
            dir_files@.len() == self.entries_view().len(),
            vdproj_lines@.len() == self.vdproj_view().len(),
            old(graph).projects_view().len() + dir_files@.len() + 1 < index_limit(),
        ensures
            final(graph).wf(),
            final(graph).projects_view().len() >= old(graph).projects_view().len(),
            final(graph).projects_view().subrange(0, old(graph).projects_view().len() as int)
                == old(graph).projects_view(),
            res matches Ok(pending) ==> forall|k: int|
                0 <= k < pending@.len() ==> old(graph).projects_view().len() <= (
                #[trigger] pending@[k]).depender < final(graph).projects_view().len()
                    && old(graph).projects_view().len() <= pending@[k].dependee
                    < final(graph).projects_view().len() && cs_literal_ok(pending@[k]),
            forall|k: int|
                old(graph).projects_view().len() <= k < final(graph).projects_view().len()
                    ==> cs_registered(#[trigger] final(graph).projects_view()[k]),
            res is Ok <==> !vdproj_fails(vdproj_lines@) && !cs_dirs_fail(self.entries_view(), dir_files@)
                && cs_links_ok(self.entries_view(), dir_files@, pconfig@),
            res matches Ok(pending) ==> ({
                let base = old(graph).projects_view().len() as int;
                let ps = final(graph).projects_view();
                let regd = cs_registered_dirs(self.entries_view(), dir_files@, pconfig@, dir_files@.len() as int);
                &&& ps.len() == base + regd.len()
                &&& forall|k: int|
                    0 <= k < regd.len() ==> cs_project_for(
                        #[trigger] ps[base + k],
                        self.entries_view(),
                        dir_files@,
                        pconfig@,
                        regd[k],
                        base + k,
                    )
                &&& forall|k: int|
                    0 <= k < pending@.len() ==> cs_pending_links(
                        #[trigger] pending@[k],
                        self.entries_view(),
                        dir_files@,
                        pconfig@,
                        regd,
                        base,
                    )
            }),
    {
        let ghost g0 = graph.projects_view();
        let ghost base = g0.len();
        // Setup projects, by the GUID of the project they package.
        let mut guid_to_vdproj: Vec<(String, usize)> = Vec::new();
        let mut v: usize = 0;
        while v < vdproj_lines.len()
            invariant
                v <= vdproj_lines@.len(),
                vdproj_lines@.len() == self.vdproj_files@.len(),
                g0 == old(graph).projects_view(),
                graph.projects_view() == g0,
                graph.wf(),
                forall|k: int| 0 <= k < guid_to_vdproj@.len() ==> (#[trigger] guid_to_vdproj@[k]).1 < self.vdproj_files@.len(),
                forall|w: int| 0 <= w < v ==> spec_vdproj_guid(lines_view(#[trigger] vdproj_lines@[w]@)) is Some,
            decreases vdproj_lines.len() - v,
        {
            match vdproj_guid(&vdproj_lines[v]) {
                Ok(Some(g)) => {
                    guid_to_vdproj.push((g, v));
                },
                Ok(None) => {},
                Err(e) => {
                    proof {
                        assert(spec_vdproj_guid(lines_view(vdproj_lines@[v as int]@)) is None);
                    }
                    return Err(e);
                },
            }
            v = v + 1;
        }
        proof {
            assert(!vdproj_fails(vdproj_lines@));
        }
        let mut vdproj_used: Vec<bool> = Vec::new();
        let mut u: usize = 0;
        while u < guid_to_vdproj.len()
            invariant
                u <= guid_to_vdproj@.len(),
                vdproj_used@.len() == u,
                g0 == old(graph).projects_view(),
                graph.projects_view() == g0,
                graph.wf(),
            decreases guid_to_vdproj.len() - u,
        {
            vdproj_used.push(false);
            u = u + 1;
        }
        let mut infos: Vec<CsInfo> = Vec::new();
        let ghost mut regs: Seq<int> = Seq::empty();
        let ghost ents = self.entries_view();
        let ghost fs = dir_files@;
        let n = self.dirs_of_interest.len();
        let mut i: usize = 0;
        proof {
            assert(graph.projects_view().subrange(0, base as int) =~= g0);
            assert(self.entries_view().len() == self.dirs_of_interest@.len());
        }
        while i < n
            invariant
                i <= n,
                n == self.dirs_of_interest@.len(),
                n == dir_files@.len(),
                graph.wf(),
                g0 == old(graph).projects_view(),
                base == g0.len(),
                base + n + 1 < index_limit(),
                graph.projects_view().len() <= base + i,
                graph.projects_view().len() >= base,
                graph.projects_view().subrange(0, base as int) == g0,
                vdproj_used@.len() == guid_to_vdproj@.len(),
                forall|k: int| 0 <= k < guid_to_vdproj@.len() ==> (#[trigger] guid_to_vdproj@[k]).1 < self.vdproj_files@.len(),
                forall|k: int|
                    0 <= k < infos@.len() ==> base <= (#[trigger] infos@[k]).ident < graph.projects_view().len(),
                forall|k: int|
                    base <= k < graph.projects_view().len() ==> cs_registered(#[trigger] graph.projects_view()[k]),
                !vdproj_fails(vdproj_lines@),
                ents == self.entries_view(),
                fs == dir_files@,
                forall|x: int| 0 <= x < i && cs_scanned(ents, fs, x) ==> #[trigger] cs_dir_reading(fs[x].unwrap()) is Ok,
                regs.len() == infos@.len(),
                forall|k: int| 0 <= k < regs.len() ==> cs_info_for(#[trigger] infos@[k], ents, fs, pconfig@, regs[k], i as int),
                regs == cs_registered_dirs(ents, fs, pconfig@, i as int),
                graph.projects_view().len() == base + infos@.len(),
                forall|k: int| 0 <= k < infos@.len() ==> (#[trigger] infos@[k]).ident == base + k,
                forall|k: int|
                    0 <= k < regs.len() ==> cs_project_for(
                        #[trigger] graph.projects_view()[base + k],
                        ents,
                        fs,
                        pconfig@,
                        regs[k],
                        base + k,
                    ),
                forall|x: int|
                    0 <= x < i && #[trigger] cs_dir_project(ents, fs, pconfig@, x) is Some ==> exists|k: int|
                        0 <= k < regs.len() && #[trigger] regs[k] == x,
            decreases n - i,
        {
            let entry = &self.dirs_of_interest[i];
            proof {
                assert(ents[i as int] == entry_view(*entry));
            }
            let files = match &dir_files[i] {
                Some(f) => f,
                None => {
                    proof {
                        assert(!cs_scanned(ents, fs, i as int));
                    }
                    i = i + 1;
                    continue;
                },
            };
            let (csproj, assembly_info) = match (&entry.csproj, &entry.assembly_info) {
                (Some(c), Some(a)) => (c, a),
                _ => {
                    proof {
                        assert(!cs_scanned(ents, fs, i as int));
                    }
                    i = i + 1;
                    continue;
                },
            };
            proof {
                assert(ents[i as int] == entry_view(*entry));
                assert(cs_scanned(ents, fs, i as int));
            }
            let read = match read_cs_dir(files) {
                Ok(Some(r)) => r,
                Ok(None) => {
                    proof {
                        assert(cs_dir_project(ents, fs, pconfig@, i as int) is None);
                    }
                    i = i + 1;
                    continue;
                },
                Err(e) => {
                    proof {
                        assert(cs_dirs_fail(ents, fs));
                    }
                    return Err(e);
                },
            };
            let CsRead { guid, name, deps, version } = read;
            let mut qnames: Vec<String> = Vec::new();
            qnames.push(name.clone());
            qnames.push(owned("csproj"));
            let ghost qv = qnames@;
            let ghost before = graph.projects_view();
            proof {
                assert(names_view(qv) =~= seq![name@, "csproj"@]);
            }
            match graph.try_add_project(qnames, pconfig) {
                None => {
                    proof {
                        assert(cs_dir_project(ents, fs, pconfig@, i as int) is None);
                    }
                },
                Some(ident) => {
                    let ghost p0 = graph.projects_view();
                    graph.set_prefix(ident, entry.dir.copy());
                    let ghost p1 = graph.projects_view();
                    graph.set_version(ident, Version::DotNet(version));
                    let ghost p2 = graph.projects_view();
                    graph.add_rewriter(
                        ident,
                        Rewriter::AssemblyInfoCs(AssemblyInfoCsRewriter::new(ident, assembly_info.copy())),
                    );
                    proof {
                        assert(p0[ident as int].qnames@ == qv);
                        assert(qv.len() == 2 && qv[1]@ == "csproj"@);
                        assert(graph.projects_view()[ident as int].rewriters@ =~= seq![
                            graph.projects_view()[ident as int].rewriters@[0]]);
                        assert forall|k: int|
                            base <= k < graph.projects_view().len() implies cs_registered(
                                #[trigger] graph.projects_view()[k]) by {
                            if k != ident {
                                assert(graph.projects_view()[k] == before[k]);
                            }
                        }
                        assert(cs_dir_project(ents, fs, pconfig@, i as int) is Some);
                        assert(cs_project_for(graph.projects_view()[ident as int], ents, fs, pconfig@, i as int, ident as int));
                        assert forall|k: int|
                            0 <= k < regs.len() implies cs_project_for(
                                #[trigger] graph.projects_view()[base + k],
                                ents,
                                fs,
                                pconfig@,
                                regs[k],
                                base + k,
                            ) by {
                            assert(graph.projects_view()[base + k] == before[base + k]);
                        }
                    }
                    let mut w: usize = 0;
                    #[verifier::loop_isolation(false)]
                    while w < guid_to_vdproj.len()
                        invariant
                            w <= guid_to_vdproj@.len(),
                            vdproj_used@.len() == guid_to_vdproj@.len(),
                            forall|k: int| 0 <= k < guid_to_vdproj@.len() ==> (#[trigger] guid_to_vdproj@[k]).1 < self.vdproj_files@.len(),
                            graph.wf(),
                            ident == before.len(),
                            ident < graph.projects_view().len(),
                            graph.projects_view().len() == before.len() + 1,
                            graph.projects_view().subrange(0, before.len() as int) == before,
                            base <= before.len(),
                            forall|k: int|
                                base <= k < graph.projects_view().len() ==> cs_registered(#[trigger] graph.projects_view()[k]),
                            forall|k: int|
                                0 <= k < regs.len() ==> cs_project_for(
                                    #[trigger] graph.projects_view()[base + k],
                                    ents,
                                    fs,
                                    pconfig@,
                                    regs[k],
                                    base + k,
                                ),
                            cs_project_for(graph.projects_view()[ident as int], ents, fs, pconfig@, i as int, ident as int),
                        decreases guid_to_vdproj.len() - w,
                    {
                        if !vdproj_used[w] && guid_to_vdproj[w].0 == guid {
                            let path = self.vdproj_files[guid_to_vdproj[w].1].copy();
                            let ghost pv = graph.projects_view();
                            graph.add_rewriter(ident, Rewriter::Vdproj(VdprojRewriter::new(ident, path)));
                            proof {
                                assert(graph.projects_view().subrange(0, before.len() as int) =~= before) by {
                                    assert forall|x: int| 0 <= x < before.len() implies graph.projects_view()[x] == pv[x] by {}
                                    assert(pv.subrange(0, before.len() as int) == before);
                                }
                                assert(graph.projects_view()[ident as int].rewriters@[0] == pv[ident as int].rewriters@[0]);
                                assert forall|k: int|
                                    0 <= k < regs.len() implies cs_project_for(
                                        #[trigger] graph.projects_view()[base + k],
                                        ents,
                                        fs,
                                        pconfig@,
                                        regs[k],
                                        base + k,
                                    ) by {
                                    assert(graph.projects_view()[base + k] == pv[base + k]);
                                }
                            }
                            vdproj_used.set(w, true);
                        }
                        w = w + 1;
                    }
                    let ghost old_infos = infos@;
                    infos.push(CsInfo { ident, name, guid, csproj: csproj.copy(), deps });
                    proof {
                        let ghost old_regs = regs;
                        regs = regs.push(i as int);
                        assert(regs =~= cs_registered_dirs(ents, fs, pconfig@, i + 1));
                        assert(cs_info_for(infos@[infos@.len() - 1], ents, fs, pconfig@, i as int, i + 1));
                        assert forall|k: int| 0 <= k < regs.len() implies cs_info_for(
                            #[trigger] infos@[k],
                            ents,
                            fs,
                            pconfig@,
                            regs[k],
                            i + 1,
                        ) by {
                            if k < old_regs.len() {
                                assert(infos@[k] == old_infos[k]);
                                assert(cs_info_for(old_infos[k], ents, fs, pconfig@, old_regs[k], i as int));
                            }
                        }
                        assert forall|x: int|
                            0 <= x < i + 1 && #[trigger] cs_dir_project(ents, fs, pconfig@, x) is Some implies exists|k: int|
                                0 <= k < regs.len() && #[trigger] regs[k] == x by {
                            if x == i {
                                assert(regs[regs.len() - 1] == x);
                            } else {
                                let k = choose|k: int| 0 <= k < old_regs.len() && #[trigger] old_regs[k] == x;
                                assert(regs[k] == x);
                            }
                        }
                    }
                    proof {
                        assert(graph.projects_view().subrange(0, base as int) =~= g0) by {
                            assert(before.subrange(0, base as int) == g0);
                        }
                    }
                },
            }
            i = i + 1;
        }
        // Link the dependencies.
        let mut pending: Vec<CsPendingDep> = Vec::new();
        let mut a: usize = 0;
        #[verifier::loop_isolation(false)]
        while a < infos.len()
            invariant
                a <= infos@.len(),
                graph.wf(),
                g0 == old(graph).projects_view(),
                base == g0.len(),
                graph.projects_view().len() >= base,
                graph.projects_view().subrange(0, base as int) == g0,
                forall|k: int|
                    0 <= k < infos@.len() ==> base <= (#[trigger] infos@[k]).ident < graph.projects_view().len(),
                forall|k: int|
                    0 <= k < pending@.len() ==> base <= (#[trigger] pending@[k]).depender < graph.projects_view().len()
                        && base <= pending@[k].dependee < graph.projects_view().len() && cs_literal_ok(pending@[k]),
                forall|k: int|
                    base <= k < graph.projects_view().len() ==> cs_registered(#[trigger] graph.projects_view()[k]),
                forall|a2: int, b2: int|
                    0 <= a2 < a && 0 <= b2 < infos@[a2].deps@.len() ==> exists|t: int|
                        0 <= t < infos@.len() && infos@[t].guid@ == (#[trigger] infos@[a2].deps@[b2]).0@,
                forall|k: int|
                    0 <= k < pending@.len() ==> cs_pending_links(#[trigger] pending@[k], ents, fs, pconfig@, regs, base as int),
            decreases infos.len() - a,
        {
            let info = &infos[a];
            let mut b: usize = 0;
            #[verifier::loop_isolation(false)]
            while b < info.deps.len()
                invariant
                    b <= info.deps@.len(),
                    a < infos@.len(),
                    graph.wf(),
                    g0 == old(graph).projects_view(),
                    base == g0.len(),
                    graph.projects_view().len() >= base,
                    graph.projects_view().subrange(0, base as int) == g0,
                    *info == infos@[a as int],
                    forall|k: int|
                        0 <= k < infos@.len() ==> base <= (#[trigger] infos@[k]).ident < graph.projects_view().len(),
                    forall|k: int|
                        0 <= k < pending@.len() ==> base <= (#[trigger] pending@[k]).depender
                            < graph.projects_view().len() && base <= pending@[k].dependee
                            < graph.projects_view().len() && cs_literal_ok(pending@[k]),
                    forall|k: int|
                        base <= k < graph.projects_view().len() ==> cs_registered(#[trigger] graph.projects_view()[k]),
                    forall|a2: int, b2: int|
                        0 <= a2 < a && 0 <= b2 < infos@[a2].deps@.len() ==> exists|t: int|
                            0 <= t < infos@.len() && infos@[t].guid@ == (#[trigger] infos@[a2].deps@[b2]).0@,
                    forall|b2: int|
                        0 <= b2 < b ==> exists|t: int|
                            0 <= t < infos@.len() && infos@[t].guid@ == (#[trigger] infos@[a as int].deps@[b2]).0@,
                    forall|k: int|
                        0 <= k < pending@.len() ==> cs_pending_links(#[trigger] pending@[k], ents, fs, pconfig@, regs, base as int),
                decreases info.deps.len() - b,
            {
                let (g, text) = (&info.deps[b].0, &info.deps[b].1);
                let target = match find_guid(&infos, g) {
                    Some(t) => t,
                    None => {
                        proof {
                            lemma_cs_link_missing(infos@, regs, ents, fs, pconfig@, n as int, a as int, b as int);
                        }
                        return Err(Error::UnknownProjectGuid(info.name.clone(), g.clone()));
                    },
                };
                proof {
                    assert(cs_info_for(infos@[a as int], ents, fs, pconfig@, regs[a as int], n as int));
                    assert(cs_info_for(infos@[target as int], ents, fs, pconfig@, regs[target as int], n as int));
                }
                let ghost pend_before = pending@;
                let literal = match text {
                    Some(t) => t.clone(),
                    None => owned("UNDEFINED"),
                };
                pending.push(
                    CsPendingDep {
                        depender: info.ident,
                        dependee: infos[target].ident,
                        literal,
                        req_text: text.clone(),
                        csproj: info.csproj.copy(),
                    },
                );
                proof {
                    let d = pending@[pending@.len() - 1];
                    assert(d.depender == base + a && d.dependee == base + target);
                    assert(cs_pending_links(d, ents, fs, pconfig@, regs, base as int)) by {
                        assert(infos@[a as int].deps@[b as int].0@ == cs_dir_project(ents, fs, pconfig@, regs[a as int]).unwrap().dep_guids[b as int]);
                    }
                    assert forall|k: int| 0 <= k < pending@.len() implies cs_pending_links(
                        #[trigger] pending@[k],
                        ents,
                        fs,
                        pconfig@,
                        regs,
                        base as int,
                    ) by {
                        if k < pend_before.len() {
                            assert(pending@[k] == pend_before[k]);
                        }
                    }
                }
                b = b + 1;
            }
            a = a + 1;
        }
        proof {
            lemma_cs_links_found(infos@, regs, ents, fs, pconfig@, n as int);
            assert(!cs_dirs_fail(ents, fs));
        }
        Ok(pending)
    }
}

} // verus!
