//! Changelogs.
//!
//! Much of Cranko looks at the repository history since the most recent
//! releases, which is what a release changelog records. A project's changelog
//! is a Markdown file whose first section is, between releases, headed by an
//! `# rc: {bump spec}` line that states the requested version bump.

use vstd::prelude::*;

use crate::errors::Error;
use crate::project::Project;
use crate::pypa::lines_view;
use crate::repository::{push_spec, PathMatcher, RcProjectInfo, RepoPathBuf, TermModel};
use crate::text::{
    append_chars, chars_to_string, occurs_at, owned, slice_chars, starts_with, str_to_chars, trim,
    trim_chars,
};
use crate::version::bump::{zero_padded, zero_padded_i64, LocalTime};
use vstd::string::StringSliceAdditionalSpecFns;

verus! {

// ---------------------------------------------------------------------------
// Templates and wrapping

/// What `dynfmt::SimpleCurlyFormat` makes of a template with named
/// arguments: each `{name}` replaced by its argument. `None` when it reports
/// an error.
pub uninterp spec fn curly_formatted(template: Seq<char>, args: Seq<(Seq<char>, Seq<char>)>) -> Option<
    Seq<char>,
>;

/// Calls `SimpleCurlyFormat::format` with the arguments gathered in a
/// `HashMap`; the result is named `curly_formatted`.
#[verifier::external_body]
pub(crate) fn curly_format(template: &str, args: &Vec<(String, String)>) -> (res: Option<String>)
    ensures
        match res {
            Some(t) => curly_formatted(template@, crate::text::pairs_view(args@)) == Some(t@),
            None => curly_formatted(template@, crate::text::pairs_view(args@)) is None,
        },
{
    let map: std::collections::HashMap<&str, &str> = args.iter().map(|(k, v)| (k.as_str(), v.as_str())).collect();
    match dynfmt::Format::format(&dynfmt::SimpleCurlyFormat, template, &map) {
        Ok(t) => Some(t.into_owned()),
        Err(_) => None,
    }
}

/// The lines that `textwrap::wrap` breaks a text into at a given width.
pub uninterp spec fn wrapped(text: Seq<char>, width: usize) -> Seq<Seq<char>>;

/// Calls `textwrap::wrap`; the lines are named `wrapped`.
#[verifier::external_body]
pub(crate) fn wrap_text(text: &str, width: usize) -> (res: Vec<String>)
    ensures
        lines_view(res@) == wrapped(text@, width),
{
    textwrap::wrap(text, width).into_iter().map(|l| l.into_owned()).collect()
}

// ---------------------------------------------------------------------------
// Markdown changelogs

/// An error returned when a changelog file does not obey the structure that
/// Cranko expects. The inner value is the path to the offending changelog.
#[derive(Debug)]
pub struct InvalidChangelogFormatError(pub String);

impl InvalidChangelogFormatError {
    /// The error's message.
    pub fn message(&self) -> (res: String)
        ensures
            res@ == "changelog file `"@ + self.0@ + "` does not obey the expected formatting"@,
    {
        let mut v = str_to_chars("changelog file `");
        append_chars(&mut v, &str_to_chars(self.0.as_str()));
        append_chars(&mut v, &str_to_chars("` does not obey the expected formatting"));
        chars_to_string(&v)
    }
}

/// Settings for Markdown-formatted changelogs.
#[derive(Debug)]
pub struct MarkdownChangelog {
    basename: String,
    release_header_format: String,
    stage_header_format: String,
    footer_format: String,
}

impl MarkdownChangelog {
    pub closed spec fn basename_view(&self) -> Seq<char> {
        self.basename@
    }

    pub closed spec fn release_header_view(&self) -> Seq<char> {
        self.release_header_format@
    }

    pub closed spec fn stage_header_view(&self) -> Seq<char> {
        self.stage_header_format@
    }

    pub closed spec fn footer_view(&self) -> Seq<char> {
        self.footer_format@
    }

    /// The default settings: a `CHANGELOG.md` file whose release sections are
    /// headed `# {project_slug} {version} ({yyyy_mm_dd})` and whose pending
    /// section is headed `# rc: {bump_spec}`, with no footer.
    pub fn new() -> (res: MarkdownChangelog)
        ensures
            res.basename_view() == "CHANGELOG.md"@,
            res.release_header_view() == "# {project_slug} {version} ({yyyy_mm_dd})\n"@,
            res.stage_header_view() == "# rc: {bump_spec}\n"@,
            res.footer_view() == ""@,
    {
        MarkdownChangelog {
            basename: owned("CHANGELOG.md"),
            release_header_format: owned("# {project_slug} {version} ({yyyy_mm_dd})\n"),
            stage_header_format: owned("# rc: {bump_spec}\n"),
            footer_format: owned(""),
        }
    }

    /// The repository path of a project's changelog: its basename in the
    /// project's directory.
    pub fn changelog_repopath(&self, proj: &Project) -> (res: RepoPathBuf)
        ensures
            res@ == push_spec(proj.prefix_view(), vstd::utf8::encode_utf8(self.basename_view())),
    {
        let mut p = proj.prefix().copy();
        p.push_str(self.basename.as_str());
        p
    }
}

/// Whether a line holds nothing but white space.
pub open spec fn is_blank(l: Seq<char>) -> bool {
    trim(l).len() == 0
}

fn blank(l: &Vec<char>) -> (res: bool)
    ensures
        res == is_blank(l@),
{
    trim_chars(l).len() == 0
}

/// The bump specification of a changelog's pending release: the text after
/// `# rc:` on its first non-blank line, trimmed. `None` when the first
/// non-blank line is not such a header, or there is none.
pub open spec fn spec_rc_bump(lines: Seq<Seq<char>>) -> Option<Seq<char>>
    decreases lines.len(),
{
    if lines.len() == 0 {
        None
    } else if is_blank(lines[0]) {
        spec_rc_bump(lines.drop_first())
    } else if occurs_at(lines[0], "# rc:"@, 0) {
        Some(trim(lines[0].skip(5)))
    } else {
        None
    }
}

/// The changelog's pending section header, the lines that `textwrap` gives
/// for each commit summary (the first prefixed with `- `, the others with two
/// spaces), and the footer.
pub open spec fn summary_lines(summaries: Seq<Seq<char>>) -> Seq<Seq<char>>
    decreases summaries.len(),
{
    if summaries.len() == 0 {
        Seq::empty()
    } else {
        summary_lines(summaries.drop_last()) + prefixed(wrapped(summaries.last(), 78))
    }
}

/// Wrapped lines of one summary, the first marked as a list item.
pub open spec fn prefixed(ls: Seq<Seq<char>>) -> Seq<Seq<char>> {
    Seq::new(ls.len(), |i: int| if i == 0 {
        "- "@ + ls[i]
    } else {
        "  "@ + ls[i]
    })
}

/// Where the rewriting of a changelog for a release stands.
#[derive(Clone, Copy, PartialEq, Eq, Structural)]
pub enum FinalizeState {
    BeforeHeader,
    BlanksAfterHeader,
    AfterHeader,
}

/// The changelog lines after its `# rc:` header has been replaced by
/// `header`: blank lines before the header and right after it are dropped.
/// `None` when the first non-blank line is not an `# rc:` header.
pub open spec fn finalized_lines(lines: Seq<Seq<char>>, st: FinalizeState, header: Seq<char>) -> Option<
    Seq<Seq<char>>,
>
    decreases lines.len(),
{
    if lines.len() == 0 {
        Some(Seq::empty())
    } else {
        let l = lines[0];
        let rest = lines.drop_first();
        match st {
            FinalizeState::BeforeHeader => if is_blank(l) {
                finalized_lines(rest, st, header)
            } else if !occurs_at(l, "# rc:"@, 0) {
                None
            } else {
                match finalized_lines(rest, FinalizeState::BlanksAfterHeader, header) {
                    Some(r) => Some(seq![header] + r),
                    None => None,
                }
            },
            FinalizeState::BlanksAfterHeader => if is_blank(l) {
                finalized_lines(rest, st, header)
            } else {
                match finalized_lines(rest, FinalizeState::AfterHeader, header) {
                    Some(r) => Some(seq![l] + r),
                    None => None,
                }
            },
            FinalizeState::AfterHeader => match finalized_lines(rest, st, header) {
                Some(r) => Some(seq![l] + r),
                None => None,
            },
        }
    }
}

/// Blank lines only.
pub open spec fn all_blank(ls: Seq<Seq<char>>) -> bool {
    forall|i: int| 0 <= i < ls.len() ==> is_blank(#[trigger] ls[i])
}

proof fn lemma_trailing_space_short(s: Seq<char>)
    requires
        s.len() > 0,
        !crate::text::is_white_space(s[0]),
    ensures
        crate::text::trailing_space(s) < s.len(),
    decreases s.len(),
{
    if s.len() > 1 && crate::text::is_white_space(s.last()) {
        lemma_trailing_space_short(s.drop_last());
    }
}

/// A line that starts with a character other than white space is not blank.
proof fn lemma_not_blank(l: Seq<char>)
    requires
        l.len() > 0,
        !crate::text::is_white_space(l[0]),
    ensures
        !is_blank(l),
{
    lemma_trailing_space_short(l);
    assert(crate::text::leading_space(l) == 0);
    assert(l.skip(0) =~= l);
}

/// After the first line of the release text, every line is copied.
proof fn lemma_after_header_copies(rest: Seq<Seq<char>>, header: Seq<char>)
    ensures
        finalized_lines(rest, FinalizeState::AfterHeader, header) == Some(rest),
    decreases rest.len(),
{
    if rest.len() > 0 {
        lemma_after_header_copies(rest.drop_first(), header);
        assert(seq![rest[0]] + rest.drop_first() =~= rest);
    }
}

/// Blank lines are dropped before the header and right after it.
proof fn lemma_blanks_dropped(blanks: Seq<Seq<char>>, tail: Seq<Seq<char>>, st: FinalizeState, header: Seq<char>)
    requires
        all_blank(blanks),
        st != FinalizeState::AfterHeader,
    ensures
        finalized_lines(blanks + tail, st, header) == finalized_lines(tail, st, header),
    decreases blanks.len(),
{
    if blanks.len() > 0 {
        let all = blanks + tail;
        assert(all[0] == blanks[0]);
        assert(all.drop_first() =~= blanks.drop_first() + tail);
        lemma_blanks_dropped(blanks.drop_first(), tail, st, header);
    }
}

/// Finalizing a changelog made of blank lines, the `# rc:` header, blank
/// lines, a first line of release text and any further lines gives the new
/// header, that first line, and every further line unchanged: earlier
/// release sections survive as they were. Where no line follows the header
/// but blank ones, only the new header remains.
pub proof fn law_finalize_keeps_later_lines(
    before: Seq<Seq<char>>,
    rc: Seq<char>,
    blanks: Seq<Seq<char>>,
    first: Seq<char>,
    rest: Seq<Seq<char>>,
    header: Seq<char>,
)
    requires
        all_blank(before),
        occurs_at(rc, "# rc:"@, 0),
        all_blank(blanks),
        !is_blank(first),
    ensures
        finalized_lines(before + seq![rc] + blanks + seq![first] + rest, FinalizeState::BeforeHeader, header)
            == Some(seq![header, first] + rest),
        finalized_lines(before + seq![rc] + blanks, FinalizeState::BeforeHeader, header) == Some(seq![header]),
{
    reveal_strlit("# rc:");
    assert(rc.subrange(0, 5)[0] == rc[0]);
    assert(rc[0] == '#');
    lemma_not_blank(rc);
    let tail1 = seq![rc] + blanks + seq![first] + rest;
    assert(before + seq![rc] + blanks + seq![first] + rest =~= before + tail1);
    lemma_blanks_dropped(before, tail1, FinalizeState::BeforeHeader, header);
    assert(tail1[0] == rc);
    let after_rc = blanks + (seq![first] + rest);
    assert(tail1.drop_first() =~= after_rc);
    lemma_blanks_dropped(blanks, seq![first] + rest, FinalizeState::BlanksAfterHeader, header);
    let t2 = seq![first] + rest;
    assert(t2[0] == first);
    assert(t2.drop_first() =~= rest);
    lemma_after_header_copies(rest, header);
    assert(seq![first] + rest =~= t2);
    assert(seq![header] + (seq![first] + rest) =~= seq![header, first] + rest);

    let tail2 = seq![rc] + blanks;
    assert(before + seq![rc] + blanks =~= before + tail2);
    lemma_blanks_dropped(before, tail2, FinalizeState::BeforeHeader, header);
    assert(tail2[0] == rc);
    assert(tail2.drop_first() =~= blanks + Seq::<Seq<char>>::empty());
    lemma_blanks_dropped(blanks, Seq::<Seq<char>>::empty(), FinalizeState::BlanksAfterHeader, header);
    assert(seq![header] + Seq::<Seq<char>>::empty() =~= seq![header]);
}

/// The most recent release section of a changelog: from its first line that
/// starts with `# ` up to the next such line, each line followed by a
/// newline. Empty when there is no such line.
pub open spec fn latest_section(lines: Seq<Seq<char>>, inside: bool) -> Seq<char>
    decreases lines.len(),
{
    if lines.len() == 0 {
        Seq::empty()
    } else {
        let l = lines[0];
        if occurs_at(l, "# "@, 0) {
            if inside {
                Seq::empty()
            } else {
                l + seq!['\n'] + latest_section(lines.drop_first(), true)
            }
        } else if inside {
            l + seq!['\n'] + latest_section(lines.drop_first(), true)
        } else {
            latest_section(lines.drop_first(), false)
        }
    }
}

/// The `YYYY-MM-DD` form of a date.
pub open spec fn iso_date(t: LocalTime) -> Seq<char> {
    zero_padded(t.year as int, 4) + seq!['-'] + zero_padded(t.month as int, 2) + seq!['-']
        + zero_padded(t.day as int, 2)
}

/// The arguments of a release header.
pub open spec fn header_args(name: Seq<char>, version: Seq<char>, date: Seq<char>) -> Seq<
    (Seq<char>, Seq<char>),
> {
    seq![("project_slug"@, name), ("version"@, version), ("yyyy_mm_dd"@, date)]
}

impl MarkdownChangelog {
    /// What rewriting a changelog for a release at time `now` gives: the
    /// lines with the release header in place of the `# rc:` header, or an
    /// error when the header template or the changelog is malformed.
    pub open spec fn finalize_outcome(
        &self,
        proj: &Project,
        lines: Seq<Seq<char>>,
        now: LocalTime,
        res: Result<Vec<String>, Error>,
    ) -> bool {
        match curly_formatted(
            self.release_header_view(),
            header_args(
                proj.name_view(),
                crate::version::render_version(proj.version_view()),
                iso_date(now),
            ),
        ) {
            None => res matches Err(Error::Format(_)),
            Some(h) => match finalized_lines(lines, FinalizeState::BeforeHeader, h) {
                Some(out) => res matches Ok(ls) && lines_view(ls@) == out,
                None => res matches Err(Error::InvalidChangelogFormat),
            },
        }
    }

    /// The new section of a changelog when a release is drafted: the pending
    /// header (with bump spec `micro bump`), the wrapped commit summaries,
    /// and the footer. Each element is written as a line.
    pub fn draft_section(&self, summaries: &Vec<String>) -> (res: Result<Vec<String>, Error>)
        ensures
            match (
                curly_formatted(self.stage_header_view(), seq![("bump_spec"@, "micro bump"@)]),
                curly_formatted(self.footer_view(), seq![("bump_spec"@, "micro bump"@)]),
            ) {
                (Some(h), Some(f)) => res matches Ok(ls) && lines_view(ls@) == seq![h] + summary_lines(
                    lines_view(summaries@),
                ) + seq![f],
                _ => res matches Err(Error::Format(_)),
            },
    {
        let mut args: Vec<(String, String)> = Vec::new();
        args.push((owned("bump_spec"), owned("micro bump")));
        proof {
            assert(crate::text::pairs_view(args@) =~= seq![("bump_spec"@, "micro bump"@)]);
        }
        let header = match curly_format(self.stage_header_format.as_str(), &args) {
            Some(h) => h,
            None => return Err(Error::Format(self.stage_header_format.clone())),
        };
        let footer = match curly_format(self.footer_format.as_str(), &args) {
            Some(f) => f,
            None => return Err(Error::Format(self.footer_format.clone())),
        };
        let ghost sv = lines_view(summaries@);
        let mut out: Vec<String> = Vec::new();
        let ghost hv = header@;
        out.push(header);
        let mut i: usize = 0;
        proof {
            assert(sv.take(0) =~= Seq::<Seq<char>>::empty());
            assert(lines_view(out@) =~= seq![hv] + summary_lines(sv.take(0)));
        }
        while i < summaries.len()
            invariant
                i <= summaries@.len(),
                sv == lines_view(summaries@),
                lines_view(out@) == seq![hv] + summary_lines(sv.take(i as int)),
            decreases summaries.len() - i,
        {
            let ls = wrap_text(summaries[i].as_str(), 78);
            let ghost before = lines_view(out@);
            let mut k: usize = 0;
            proof {
                assert(sv.take(i + 1).drop_last() =~= sv.take(i as int));
                assert(sv.take(i + 1).last() == summaries@[i as int]@);
            }
            let ghost wl = lines_view(ls@);
            while k < ls.len()
                invariant
                    k <= ls@.len(),
                    wl == lines_view(ls@),
                    lines_view(out@) == before + prefixed(wl).take(k as int),
                decreases ls.len() - k,
            {
                let mut line = if k == 0 {
                    str_to_chars("- ")
                } else {
                    str_to_chars("  ")
                };
                append_chars(&mut line, &str_to_chars(ls[k].as_str()));
                let ghost lo = lines_view(out@);
                let s = chars_to_string(&line);
                out.push(s);
                proof {
                    assert(lines_view(out@) =~= lo.push(s@));
                    assert(prefixed(wl).take(k + 1) =~= prefixed(wl).take(k as int).push(
                        prefixed(wl)[k as int],
                    ));
                }
                k = k + 1;
            }
            proof {
                assert(prefixed(wl).take(ls@.len() as int) =~= prefixed(wl));
                assert(lines_view(out@) =~= seq![hv] + summary_lines(sv.take(i + 1)));
            }
            i = i + 1;
        }
        let ghost lo = lines_view(out@);
        let ghost fv = footer@;
        out.push(footer);
        proof {
            assert(sv.take(sv.len() as int) =~= sv);
            assert(lines_view(out@) =~= lo.push(fv));
        }
        Ok(out)
    }

    /// Reads the pending release request from the lines of a project's
    /// changelog; the bump specification must be one that the project's
    /// version accepts.
    pub fn scan_rc_info(&self, proj: &Project, lines: &Vec<String>) -> (res: Result<RcProjectInfo, Error>)
        ensures
            match spec_rc_bump(lines_view(lines@)) {
                None => res matches Err(Error::InvalidChangelogFormat),
                Some(b) => match crate::version::spec_bump_scheme(b) {
                    Ok(_) => res matches Ok(info) && info.bump_spec@ == b
                        && crate::repository::names_view(info.qnames@) == proj.qnames_view(),
                    Err(_) => res matches Err(Error::UnsupportedBumpScheme(t)) && t@ == b,
                },
            },
    {
        let ghost all = lines_view(lines@);
        let prefix = str_to_chars("# rc:");
        let mut i: usize = 0;
        proof {
            assert(all.skip(0) =~= all);
        }
        while i < lines.len()
            invariant
                i <= lines@.len(),
                all == lines_view(lines@),
                prefix@ == "# rc:"@,
                spec_rc_bump(all) == spec_rc_bump(all.skip(i as int)),
            decreases lines.len() - i,
        {
            let l = str_to_chars(lines[i].as_str());
            proof {
                assert(all.skip(i as int)[0] == l@);
                assert(all.skip(i as int).drop_first() =~= all.skip(i + 1));
            }
            if blank(&l) {
                i = i + 1;
                continue;
            }
            if starts_with(&l, &prefix) {
                proof {
                    reveal_strlit("# rc:");
                }
                let rest = slice_chars(&l, 5, l.len());
                let spec = chars_to_string(&trim_chars(&rest));
                proof {
                    assert(rest@ =~= l@.skip(5));
                }
                return match proj.version().parse_bump_scheme(spec.as_str()) {
                    Ok(_) => Ok(
                        RcProjectInfo { qnames: proj.qualified_names().clone(), bump_spec: spec },
                    ),
                    Err(_) => Err(Error::UnsupportedBumpScheme(spec)),
                };
            }
            return Err(Error::InvalidChangelogFormat);
        }
        proof {
            assert(all.skip(i as int) =~= Seq::<Seq<char>>::empty());
        }
        Err(Error::InvalidChangelogFormat)
    }

    /// Rewrites a changelog for a release at a given time: its `# rc:`
    /// header becomes the release header, filled in with the project's name,
    /// version and the date.
    pub fn finalize_changelog_at(&self, proj: &Project, lines: &Vec<String>, now: &LocalTime) -> (res: Result<
        Vec<String>,
        Error,
    >)
        requires
            proj.version_view().wf(),
        ensures
            self.finalize_outcome(proj, lines_view(lines@), *now, res),
    {
        let mut date = zero_padded_i64(now.year as i64, 4);
        date.push('-');
        append_chars(&mut date, &zero_padded_i64(now.month as i64, 2));
        date.push('-');
        append_chars(&mut date, &zero_padded_i64(now.day as i64, 2));
        let mut args: Vec<(String, String)> = Vec::new();
        args.push((owned("project_slug"), proj.name().clone()));
        args.push((owned("version"), proj.version().to_string()));
        args.push((owned("yyyy_mm_dd"), chars_to_string(&date)));
        proof {
            assert(date@ =~= iso_date(*now));
            assert(crate::text::pairs_view(args@) =~= header_args(
                proj.name_view(),
                crate::version::render_version(proj.version_view()),
                iso_date(*now),
            ));
        }
        let header = match curly_format(self.release_header_format.as_str(), &args) {
            Some(h) => h,
            None => return Err(Error::Format(self.release_header_format.clone())),
        };
        let ghost all = lines_view(lines@);
        let prefix = str_to_chars("# rc:");
        let mut st = FinalizeState::BeforeHeader;
        let mut out: Vec<String> = Vec::new();
        let mut i: usize = 0;
        proof {
            assert(all.skip(0) =~= all);
            assert(lines_view(out@) =~= Seq::<Seq<char>>::empty());
        }
        while i < lines.len()
            invariant
                i <= lines@.len(),
                all == lines_view(lines@),
                prefix@ == "# rc:"@,
                curly_formatted(
                    self.release_header_view(),
                    header_args(
                        proj.name_view(),
                        crate::version::render_version(proj.version_view()),
                        iso_date(*now),
                    ),
                ) == Some(header@),
                finalized_lines(all, FinalizeState::BeforeHeader, header@) == match finalized_lines(
                    all.skip(i as int),
                    st,
                    header@,
                ) {
                    Some(r) => Some(lines_view(out@) + r),
                    None => None::<Seq<Seq<char>>>,
                },
            decreases lines.len() - i,
        {
            let l = str_to_chars(lines[i].as_str());
            let ghost rest = all.skip(i + 1);
            let ghost lo = lines_view(out@);
            proof {
                assert(all.skip(i as int)[0] == l@);
                assert(all.skip(i as int).drop_first() =~= rest);
            }
            match st {
                FinalizeState::BeforeHeader => {
                    if !blank(&l) {
                        if !starts_with(&l, &prefix) {
                            proof {
                                assert(finalized_lines(all.skip(i as int), st, header@) is None);
                            }
                            return Err(Error::InvalidChangelogFormat);
                        }
                        st = FinalizeState::BlanksAfterHeader;
                        out.push(header.clone());
                        proof {
                            assert(lines_view(out@) =~= lo.push(header@));
                            assert forall|r: Seq<Seq<char>>| lo + (seq![header@] + r) =~= lines_view(out@) + r by {}
                        }
                    }
                },
                FinalizeState::BlanksAfterHeader => {
                    if !blank(&l) {
                        st = FinalizeState::AfterHeader;
                        out.push(lines[i].clone());
                        proof {
                            assert(lines_view(out@) =~= lo.push(l@));
                            assert forall|r: Seq<Seq<char>>| lo + (seq![l@] + r) =~= lines_view(out@) + r by {}
                        }
                    }
                },
                FinalizeState::AfterHeader => {
                    out.push(lines[i].clone());
                    proof {
                        assert(lines_view(out@) =~= lo.push(l@));
                        assert forall|r: Seq<Seq<char>>| lo + (seq![l@] + r) =~= lines_view(out@) + r by {}
                    }
                },
            }
            i = i + 1;
        }
        proof {
            assert(all.skip(i as int) =~= Seq::<Seq<char>>::empty());
            assert(lines_view(out@) + Seq::<Seq<char>>::empty() =~= lines_view(out@));
        }
        Ok(out)
    }

    /// Rewrites a changelog for a release now; see `finalize_changelog_at`.
    pub fn finalize_changelog(&self, proj: &Project, lines: &Vec<String>) -> (res: Result<Vec<String>, Error>)
        requires
            proj.version_view().wf(),
        ensures
            exists|now: LocalTime| #[trigger] self.finalize_outcome(proj, lines_view(lines@), now, res),
    {
        let now = crate::version::bump::local_now();
        self.finalize_changelog_at(proj, lines, &now)
    }

    /// The text of the most recent release section of a changelog, given its
    /// lines as of a release commit.
    pub fn scan_changelog(&self, lines: &Vec<String>) -> (res: String)
        ensures
            res@ == latest_section(lines_view(lines@), false),
    {
        let ghost all = lines_view(lines@);
        let marker = str_to_chars("# ");
        let mut inside = false;
        let mut out: Vec<char> = Vec::new();
        let mut i: usize = 0;
        proof {
            assert(all.skip(0) =~= all);
        }
        while i < lines.len()
            invariant
                i <= lines@.len(),
                all == lines_view(lines@),
                marker@ == "# "@,
                latest_section(all, false) == out@ + latest_section(all.skip(i as int), inside),
            decreases lines.len() - i,
        {
            let l = str_to_chars(lines[i].as_str());
            let ghost lo = out@;
            proof {
                assert(all.skip(i as int)[0] == l@);
                assert(all.skip(i as int).drop_first() =~= all.skip(i + 1));
            }
            if starts_with(&l, &marker) {
                if inside {
                    proof {
                        assert(out@ + Seq::<char>::empty() =~= out@);
                    }
                    return chars_to_string(&out);
                }
                append_chars(&mut out, &l);
                out.push('\n');
                inside = true;
            } else if inside {
                append_chars(&mut out, &l);
                out.push('\n');
            }
            proof {
                assert forall|r: Seq<char>| lo + (l@ + seq!['\n'] + r) =~= lo + l@ + seq!['\n'] + r by {}
            }
            i = i + 1;
        }
        proof {
            assert(all.skip(i as int) =~= Seq::<Seq<char>>::empty());
            assert(out@ + Seq::<char>::empty() =~= out@);
        }
        chars_to_string(&out)
    }

    /// A matcher for the project's changelog file.
    pub fn create_path_matcher(&self, proj: &Project) -> (res: PathMatcher)
        ensures
            res.terms_view() == seq![
                TermModel::Include(push_spec(proj.prefix_view(), vstd::utf8::encode_utf8(self.basename_view()))),
            ],
    {
        PathMatcher::new_include(self.changelog_repopath(proj))
    }
}

/// The changelog handling that projects get by default: Markdown, with
/// the default settings of `MarkdownChangelog::new`.
pub fn default() -> (res: MarkdownChangelog)
    ensures
        res.basename_view() == "CHANGELOG.md"@,
        res.release_header_view() == "# {project_slug} {version} ({yyyy_mm_dd})\n"@,
        res.stage_header_view() == "# rc: {bump_spec}\n"@,
        res.footer_view() == ""@,
{
    MarkdownChangelog::new()
}

} // verus!
