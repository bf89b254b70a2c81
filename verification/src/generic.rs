//! Generic projects.
//!
//! A directory with a `CrankoProject.toml` file is a project of its own. That
//! file names the project and lists files in which a placeholder stands for
//! the version; the placeholder is replaced when a release is made.

use vstd::prelude::*;

use crate::config::{config_ignores, ProjectConfiguration};
use crate::errors::Error;
use crate::graph::{full_name, index_limit, ProjectGraphBuilder};
use crate::project::{ProjectId, Rewriter};
use crate::pypa::lines_view;
use crate::repository::{names_view, DirSet, RepoPath, RepoPathBuf};
use crate::text::{append_chars, chars_to_string, matches_at, occurs_at, owned, str_to_chars};
use crate::version::semantic::SemverVersion;
use crate::version::Version;
use vstd::string::StringSliceAdditionalSpecFns;

verus! {

/// Framework for auto-loading generic projects from the repository contents.
#[derive(Debug)]
pub struct GenericLoader {
    dirs_of_interest: DirSet,
}

impl GenericLoader {
    /// The directories found so far, in the order in which they were found.
    pub closed spec fn dirs_view(&self) -> Seq<Seq<u8>> {
        self.dirs_of_interest.seq_view()
    }

    pub closed spec fn wf(&self) -> bool {
        self.dirs_of_interest.wf()
    }

    /// A loader that has seen nothing yet.
    pub fn new() -> (res: GenericLoader)
        ensures
            res.wf(),
            res.dirs_view() == Seq::<Seq<u8>>::empty(),
    {
        GenericLoader { dirs_of_interest: DirSet::new() }
    }

    /// Processes one entry of the repository index: a `CrankoProject.toml`
    /// file marks its directory as a project.
    pub fn process_index_item(&mut self, dirname: &RepoPath, basename: &RepoPath) -> (res: Result<(), Error>)
        requires
            old(self).wf(),
        ensures
            res is Ok,
            final(self).wf(),
            final(self).dirs_view() == if basename@ == "CrankoProject.toml".spec_bytes()
                && !old(self).dirs_view().contains(dirname@) {
                old(self).dirs_view().push(dirname@)
            } else {
                old(self).dirs_view()
            },
    {
        if crate::repository::bytes_equal(basename.as_bytes(), "CrankoProject.toml".as_bytes()) {
            self.dirs_of_interest.insert(dirname);
        }
        Ok(())
    }

    /// The directories found so far, in the order in which they were found.
    pub fn dirs_of_interest(&self) -> (res: &[RepoPathBuf])
        ensures
            res@.map_values(|p: RepoPathBuf| p@) == self.dirs_view(),
    {
        self.dirs_of_interest.items()
    }
}

/// A block of a `CrankoProject.toml` that describes how a set of files is
/// rewritten.
#[derive(Debug)]
pub struct GenericRewriteSpec {
    /// The text that stands for the version in the files.
    pub version_placeholder: String,
    /// The files, relative to the project directory.
    pub files: Vec<String>,
}

/// The contents of a `CrankoProject.toml` file.
#[derive(Debug)]
pub struct GenericProjectFile {
    pub name: String,
    pub rewrite: Vec<GenericRewriteSpec>,
}

/// The generic rewriter: replaces a placeholder in some files of a project.
#[derive(Debug)]
pub struct GenericRewriter {
    proj_id: ProjectId,
    proj_root: RepoPathBuf,
    spec: GenericRewriteSpec,
}

impl GenericRewriter {
    pub closed spec fn proj_view(&self) -> ProjectId {
        self.proj_id
    }

    pub closed spec fn root_view(&self) -> Seq<u8> {
        self.proj_root@
    }

    pub closed spec fn placeholder_view(&self) -> Seq<char> {
        self.spec.version_placeholder@
    }

    pub closed spec fn files_view(&self) -> Seq<Seq<char>> {
        names_view(self.spec.files@)
    }

    /// A rewriter for the files of one rewrite block of a project.
    pub fn new(proj_id: ProjectId, proj_root: RepoPathBuf, spec: GenericRewriteSpec) -> (res: Self)
        ensures
            res.proj_view() == proj_id,
            res.root_view() == proj_root@,
            res.placeholder_view() == spec.version_placeholder@,
            res.files_view() == names_view(spec.files@),
    {
        GenericRewriter { proj_id, proj_root, spec }
    }

    /// The project whose version is written.
    pub fn proj_id(&self) -> (res: ProjectId)
        ensures
            res == self.proj_view(),
    {
        self.proj_id
    }

    /// The project's directory.
    pub fn proj_root(&self) -> (res: &RepoPathBuf)
        ensures
            res@ == self.root_view(),
    {
        &self.proj_root
    }

    /// The files to rewrite, relative to the project's directory.
    pub fn files(&self) -> (res: &Vec<String>)
        ensures
            names_view(res@) == self.files_view(),
    {
        &self.spec.files
    }

    /// Rewrites the lines of one file with the project's version, returning
    /// the new lines and whether any line held the placeholder.
    pub fn rewrite_lines(&self, lines: &Vec<String>, version: &String) -> (res: (Vec<String>, bool))
        ensures
            lines_view(res.0@) == lines_view(lines@).map_values(
                |l: Seq<char>| replace_all(l, self.placeholder_view(), version@),
            ),
            res.1 == exists|i: int|
                0 <= i < lines@.len() && crate::text::contains_seq(
                    #[trigger] lines_view(lines@)[i],
                    self.placeholder_view(),
                ),
    {
        let pat = str_to_chars(self.spec.version_placeholder.as_str());
        let rep = str_to_chars(version.as_str());
        let mut out: Vec<String> = Vec::new();
        let mut did_anything = false;
        let mut i: usize = 0;
        while i < lines.len()
            invariant
                i <= lines@.len(),
                pat@ == self.placeholder_view(),
                rep@ == version@,
                lines_view(out@) == lines_view(lines@).take(i as int).map_values(
                    |l: Seq<char>| replace_all(l, pat@, rep@),
                ),
                did_anything == exists|k: int|
                    0 <= k < i && crate::text::contains_seq(#[trigger] lines_view(lines@)[k], pat@),
            decreases lines.len() - i,
        {
            let l = str_to_chars(lines[i].as_str());
            proof {
                assert(lines_view(lines@)[i as int] == l@);
            }
            if crate::text::contains(&l, &pat) {
                did_anything = true;
            }
            let r = replace_all_chars(&l, &pat, &rep);
            let ghost before = lines_view(out@);
            let rs = chars_to_string(&r);
            out.push(rs);
            proof {
                assert(lines_view(out@) =~= before.push(r@));
                assert(lines_view(lines@).take(i + 1).map_values(
                    |l: Seq<char>| replace_all(l, pat@, rep@),
                ) =~= lines_view(lines@).take(i as int).map_values(
                    |l: Seq<char>| replace_all(l, pat@, rep@),
                ).push(replace_all(l@, pat@, rep@)));
                assert(lines_view(out@) =~= lines_view(lines@).take(i + 1).map_values(
                    |l: Seq<char>| replace_all(l, pat@, rep@),
                ));
            }
            i = i + 1;
        }
        proof {
            assert(lines_view(lines@).take(lines@.len() as int) =~= lines_view(lines@));
        }
        (out, did_anything)
    }
}

/// Every occurrence of `pat` in `s` replaced by `rep`, as `str::replace`
/// does: matches are found from the left and do not overlap. An empty
/// pattern matches before every character and at the end.
pub open spec fn replace_all(s: Seq<char>, pat: Seq<char>, rep: Seq<char>) -> Seq<char>
    decreases s.len(),
{
    if pat.len() == 0 {
        if s.len() == 0 {
            rep
        } else {
            rep + seq![s[0]] + replace_all(s.drop_first(), pat, rep)
        }
    } else if s.len() == 0 {
        Seq::empty()
    } else if occurs_at(s, pat, 0) {
        rep + replace_all(s.skip(pat.len() as int), pat, rep)
    } else {
        seq![s[0]] + replace_all(s.drop_first(), pat, rep)
    }
}

/// Replaces every occurrence of a pattern.
pub fn replace_all_chars(s: &Vec<char>, pat: &Vec<char>, rep: &Vec<char>) -> (res: Vec<char>)
    ensures
        res@ == replace_all(s@, pat@, rep@),
{
    let mut out: Vec<char> = Vec::new();
    let mut i: usize = 0;
    proof {
        assert(s@.skip(0) =~= s@);
    }
    while i < s.len()
        invariant
            i <= s@.len(),
            replace_all(s@, pat@, rep@) == out@ + replace_all(s@.skip(i as int), pat@, rep@),
        decreases s.len() - i,
    {
        let ghost rest = s@.skip(i as int);
        let ghost o = out@;
        if pat.len() == 0 {
            append_chars(&mut out, rep);
            out.push(s[i]);
            proof {
                assert(rest[0] == s@[i as int]);
                assert(rest.drop_first() =~= s@.skip(i + 1));
                assert(o + (rep@ + seq![s@[i as int]] + replace_all(rest.drop_first(), pat@, rep@))
                    =~= out@ + replace_all(s@.skip(i + 1), pat@, rep@));
            }
            i = i + 1;
        } else if matches_at(s, pat, i) {
            append_chars(&mut out, rep);
            proof {
                assert(occurs_at(rest, pat@, 0)) by {
                    assert(rest.subrange(0, pat@.len() as int) =~= s@.subrange(i as int, i + pat@.len()));
                }
                assert(rest.skip(pat@.len() as int) =~= s@.skip(i + pat@.len()));
                assert(o + (rep@ + replace_all(rest.skip(pat@.len() as int), pat@, rep@))
                    =~= out@ + replace_all(s@.skip(i + pat@.len()), pat@, rep@));
            }
            i = i + pat.len();
        } else {
            out.push(s[i]);
            proof {
                assert(!occurs_at(rest, pat@, 0)) by {
                    if occurs_at(rest, pat@, 0) {
                        assert(rest.subrange(0, pat@.len() as int) =~= s@.subrange(i as int, i + pat@.len()));
                    }
                }
                assert(rest[0] == s@[i as int]);
                assert(rest.drop_first() =~= s@.skip(i + 1));
                assert(o + (seq![s@[i as int]] + replace_all(rest.drop_first(), pat@, rep@))
                    =~= out@ + replace_all(s@.skip(i + 1), pat@, rep@));
            }
            i = i + 1;
        }
    }
    let ghost o = out@;
    if pat.len() == 0 {
        append_chars(&mut out, rep);
    }
    proof {
        assert(s@.skip(i as int) =~= Seq::<char>::empty());
        assert(out@ =~= o + replace_all(s@.skip(i as int), pat@, rep@));
    }
    out
}

/// The qualified names of a generic project.
pub open spec fn generic_qnames(name: Seq<char>) -> Seq<Seq<char>> {
    seq![name, "generic"@]
}

/// The positions of the files whose projects the configuration does not
/// ignore, in order.
pub open spec fn kept_files(names: Seq<Seq<char>>, pconfig: Seq<(String, ProjectConfiguration)>) -> Seq<int>
    decreases names.len(),
{
    if names.len() == 0 {
        Seq::empty()
    } else {
        let prev = kept_files(names.drop_last(), pconfig);
        if config_ignores(pconfig, full_name(generic_qnames(names.last()))) {
            prev
        } else {
            prev.push(names.len() - 1)
        }
    }
}

pub open spec fn file_names(files: Seq<GenericProjectFile>) -> Seq<Seq<char>> {
    files.map_values(|f: GenericProjectFile| f.name@)
}

/// Whether a rewriter rewrites the files of a block for a project.
pub open spec fn rewriter_for(rw: Rewriter, id: ProjectId, root: Seq<u8>, spec: GenericRewriteSpec) -> bool {
    rw matches Rewriter::Generic(g) && g.proj_view() == id && g.root_view() == root
        && g.placeholder_view() == spec.version_placeholder@ && g.files_view() == names_view(spec.files@)
}

/// The zero semantic version, `0.0.0`.
pub open spec fn zero_semver_model() -> crate::version::VersionModel {
    crate::version::VersionModel::Semver(
        crate::version::semantic::SemverModel {
            major: 0,
            minor: 0,
            patch: 0,
            pre: Seq::empty(),
            build: Seq::empty(),
        },
    )
}

impl GenericLoader {
    /// Registers the generic projects found, given the contents of each
    /// directory's `CrankoProject.toml` in the order of `dirs_of_interest`.
    /// Each project not ignored by the configuration is named after its file
    /// (qualified as `generic`), rooted in its directory, versioned `0.0.0`,
    /// and gets one rewriter per rewrite block.
    pub fn finalize(
        self,
        graph: &mut ProjectGraphBuilder,
        pconfig: &Vec<(String, ProjectConfiguration)>,
        files: Vec<GenericProjectFile>,
    )
        requires
            old(graph).wf(),
            files@.len() == self.dirs_view().len(),
            old(graph).projects_view().len() + files@.len() + 1 < index_limit(),
        ensures
            final(graph).wf(),
            ({
                let base = old(graph).projects_view().len();
                let kept = kept_files(file_names(files@), pconfig@);
                let ps = final(graph).projects_view();
                &&& ps.len() == base + kept.len()
                &&& ps.subrange(0, base as int) == old(graph).projects_view()
                &&& forall|r: int|
                    0 <= r < kept.len() ==> {
                        let k = kept[r];
                        let b = #[trigger] ps[base + r];
                        &&& 0 <= k < files@.len()
                        &&& names_view(b.qnames@) == generic_qnames(files@[k].name@)
                        &&& b.prefix matches Some(p) && p@ == self.dirs_view()[k]
                        &&& b.version matches Some(v) && v@ == zero_semver_model()
                        &&& b.rewriters@.len() == files@[k].rewrite@.len()
                        &&& forall|m: int|
                            0 <= m < b.rewriters@.len() ==> rewriter_for(
                                #[trigger] b.rewriters@[m],
                                (base + r) as ProjectId,
                                self.dirs_view()[k],
                                files@[k].rewrite@[m],
                            )
                    }
            }),
    {
        let ghost base = graph.projects_view().len();
        let ghost fv = files@;
        let ghost names = file_names(files@);
        let ghost dirs = self.dirs_view();
        let ghost g0 = graph.projects_view();
        let items = self.dirs_of_interest.items();
        let mut rest = files;
        let mut i: usize = 0;
        proof {
            assert(fv.skip(0) =~= fv);
            assert(names.take(0) =~= Seq::<Seq<char>>::empty());
            assert(graph.projects_view().subrange(0, base as int) =~= g0);
        }
        while rest.len() > 0
            invariant
                i + rest@.len() == fv.len(),
                rest@ == fv.skip(i as int),
                fv.len() == dirs.len(),
                names == file_names(fv),
                items@.map_values(|p: RepoPathBuf| p@) == dirs,
                graph.wf(),
                base + fv.len() + 1 < index_limit(),
                ({
                    let kept = kept_files(names.take(i as int), pconfig@);
                    let ps = graph.projects_view();
                    &&& ps.len() == base + kept.len()
                    &&& kept.len() <= i
                    &&& ps.subrange(0, base as int) == g0
                    &&& forall|r: int|
                        0 <= r < kept.len() ==> {
                            let k = kept[r];
                            let b = #[trigger] ps[base + r];
                            &&& 0 <= k < i
                            &&& names_view(b.qnames@) == generic_qnames(fv[k].name@)
                            &&& b.prefix matches Some(p) && p@ == dirs[k]
                            &&& b.version matches Some(v) && v@ == zero_semver_model()
                            &&& b.rewriters@.len() == fv[k].rewrite@.len()
                            &&& forall|m: int|
                                0 <= m < b.rewriters@.len() ==> rewriter_for(
                                    #[trigger] b.rewriters@[m],
                                    (base + r) as ProjectId,
                                    dirs[k],
                                    fv[k].rewrite@[m],
                                )
                        }
                }),
            decreases rest@.len(),
        {
            let file = rest.remove(0);
            proof {
                assert(file == fv[i as int]);
                assert(rest@ =~= fv.skip(i + 1));
                assert(names.take(i + 1).drop_last() =~= names.take(i as int));
                assert(names.take(i + 1).last() == file.name@);
            }
            let GenericProjectFile { name, rewrite } = file;
            let mut qnames: Vec<String> = Vec::new();
            qnames.push(name);
            qnames.push(owned("generic"));
            proof {
                assert(names_view(qnames@) =~= generic_qnames(fv[i as int].name@));
            }
            let ghost kept_before = kept_files(names.take(i as int), pconfig@);
            let ghost ps_before = graph.projects_view();
            match graph.try_add_project(qnames, pconfig) {
                None => {},
                Some(ident) => {
                    let dir = items[i].copy();
                    graph.set_prefix(ident, dir);
                    graph.set_version(
                        ident,
                        Version::Semver(
                            SemverVersion {
                                major: 0,
                                minor: 0,
                                patch: 0,
                                pre: String::new(),
                                build: String::new(),
                            },
                        ),
                    );
                    let ghost rw_specs = rewrite@;
                    let n_specs = rewrite.len();
                    let mut specs = rewrite;
                    let mut m: usize = 0;
                    while specs.len() > 0
                        invariant
                            m + specs@.len() == rw_specs.len(),
                            n_specs == rw_specs.len(),
                            specs@ == rw_specs.skip(m as int),
                            i < fv.len(),
                            items@.len() == fv.len(),
                            items@.map_values(|p: RepoPathBuf| p@) == dirs,
                            graph.wf(),
                            ident == ps_before.len(),
                            graph.projects_view().len() == ps_before.len() + 1,
                            graph.projects_view().subrange(0, ps_before.len() as int) == ps_before,
                            names_view(graph.projects_view()[ident as int].qnames@) == generic_qnames(fv[i as int].name@),
                            graph.projects_view()[ident as int].prefix matches Some(p) && p@ == dirs[i as int],
                            graph.projects_view()[ident as int].version matches Some(v) && v@ == zero_semver_model(),
                            graph.projects_view()[ident as int].rewriters@.len() == m,
                            forall|mm: int|
                                0 <= mm < m ==> rewriter_for(
                                    #[trigger] graph.projects_view()[ident as int].rewriters@[mm],
                                    ident,
                                    dirs[i as int],
                                    rw_specs[mm],
                                ),
                        decreases specs@.len(),
                    {
                        let spec = specs.remove(0);
                        proof {
                            assert(spec == rw_specs[m as int]);
                            assert(specs@ =~= rw_specs.skip(m + 1));
                        }
                        let rw = GenericRewriter::new(ident, items[i].copy(), spec);
                        let ghost pv = graph.projects_view();
                        graph.add_rewriter(ident, Rewriter::Generic(rw));
                        proof {
                            assert(graph.projects_view().subrange(0, ps_before.len() as int) =~= ps_before) by {
                                assert forall|x: int| 0 <= x < ps_before.len() implies graph.projects_view()[x] == pv[x] by {}
                                assert(pv.subrange(0, ps_before.len() as int) == ps_before);
                            }
                        }
                        m = m + 1;
                    }
                },
            }
            proof {
                let kept = kept_files(names.take(i + 1), pconfig@);
                let ps = graph.projects_view();
                assert forall|r: int| 0 <= r < kept_before.len() implies #[trigger] ps[base + r] == ps_before[base + r] by {
                    assert(ps.subrange(0, ps_before.len() as int) == ps_before);
                }
                assert(ps.subrange(0, base as int) =~= g0) by {
                    assert(ps.subrange(0, ps_before.len() as int) == ps_before);
                    assert(ps_before.subrange(0, base as int) == g0);
                }
            }
            i = i + 1;
        }
        proof {
            assert(names.take(fv.len() as int) =~= names);
        }
    }
}

} // verus!
