//! The report writer: the exact Markdown document structure — header,
//! numbered per-group sections, and one fenced code block per file — as a
//! sequence of chunks that the caller streams to the output sink.

use crate::date::Date;
use crate::date::date_text;
use crate::date::format_date;
use crate::errors::ExtensionError;
use crate::errors::ValidationError;
use crate::lang::LanguageTag;
use crate::lang::last_extension;
use crate::lang::resolve_language_tag;
use crate::lang::tag_of_ext;
use crate::lang::tag_text;
use crate::num::dec_digits;
use crate::num::u64_to_dec;
use crate::paths::AssignmentFiles;
use crate::paths::check_path;
use crate::paths::file_name_of;
use crate::paths::last_segment;
use crate::paths::lemma_valid_path_has_segment_char;
use crate::paths::valid_path;
use vstd::prelude::*;
use vstd::string::*;

verus! {

/// The section wording: tutorials and assignments differ only here.
pub open spec fn kind_text(tutorial: bool) -> Seq<char> {
    if tutorial {
        "Tutorial"@
    } else {
        "Assignment"@
    }
}

/// The wording for the report kind.
pub fn kind_str(tutorial: bool) -> (r: &'static str)
    ensures
        r@ == kind_text(tutorial),
{
    if tutorial {
        "Tutorial"
    } else {
        "Assignment"
    }
}

/// The header block: title line, student metadata and date, each line
/// ended by the two-space hard line break, with blank hard-break lines
/// after the title and after the metadata.
pub open spec fn header_text(
    name: Seq<char>,
    class: Seq<char>,
    student_number: nat,
    week: nat,
    tutorial: bool,
    date: Date,
) -> Seq<char> {
    "# "@ + kind_text(tutorial) + " week "@ + dec_digits(week) + "  \n"@ + "  \n"@ + "Name: "@
        + name + "  \n"@ + "Student number: "@ + dec_digits(student_number) + "  \n"@ + "Class: "@
        + class + "  \n"@ + "Date: "@ + date_text(date) + "  \n"@ + "  \n"@
}

/// One numbered section heading, followed by a blank hard-break line.
pub open spec fn group_heading_text(tutorial: bool, number: nat) -> Seq<char> {
    "## "@ + kind_text(tutorial) + " "@ + dec_digits(number) + "  \n  \n"@
}

/// One file heading, followed by a blank hard-break line.
pub open spec fn file_heading_text(name: Seq<char>) -> Seq<char> {
    "### File: "@ + name + "  \n  \n"@
}

/// The opening fence with its language tag.
pub open spec fn fence_open_text(tag: LanguageTag) -> Seq<char> {
    "```"@ + tag_text(tag) + "\n"@
}

/// The closing fence line.
pub open spec fn fence_close_text() -> Seq<char> {
    "```  \n"@
}

/// The full report configuration, constructed once from validated input
/// and consumed by the writer.
#[derive(Debug)]
pub struct ReportConfig {
    /// Student display name.
    pub name: String,
    /// Class identifier.
    pub class: String,
    /// Student number.
    pub student_number: u32,
    /// Week number.
    pub week: u8,
    /// Selects the "Tutorial" wording instead of "Assignment".
    pub tutorial: bool,
    /// The groups of file paths, in command-line order.
    pub groups: Vec<AssignmentFiles>,
    /// Where the document goes.
    pub output_file: String,
}

impl ReportConfig {
    /// At least one group, each group well-formed.
    pub open spec fn wf(&self) -> bool {
        &&& self.groups@.len() > 0
        &&& forall|i: int| 0 <= i < self.groups@.len() ==> (#[trigger] self.groups@[i]).wf()
    }

    /// The groups as plain sequences of path texts.
    pub open spec fn groups_view(&self) -> Seq<Seq<Seq<char>>> {
        Seq::new(self.groups@.len(), |i: int| self.groups@[i].paths.deep_view())
    }

    /// Builds a validated configuration. Succeeds exactly when there is
    /// at least one group and every group holds one or more valid paths;
    /// an absent output path defaults to `week<N>.md`. On failure the
    /// error identifies the first offence in order: an empty group list
    /// or the first empty group as a missing path list, otherwise the
    /// first invalid path.
    pub fn new(
        name: String,
        class: String,
        student_number: u32,
        week: u8,
        tutorial: bool,
        groups: Vec<AssignmentFiles>,
        output_file: Option<String>,
    ) -> (r: Result<ReportConfig, ValidationError>)
        ensures
            r is Ok <==> (groups@.len() > 0 && forall|i: int|
                0 <= i < groups@.len() ==> (#[trigger] groups@[i]).wf()),
            (r matches Err(e) ==> {
                ||| (groups@.len() == 0 && e == ValidationError::EmptyPathList)
                ||| exists|g: int|
                    {
                        &&& 0 <= g < groups@.len()
                        &&& !(#[trigger] groups@[g]).wf()
                        &&& (forall|g2: int| 0 <= g2 < g ==> (#[trigger] groups@[g2]).wf())
                        &&& if groups@[g].paths@.len() == 0 {
                            e == ValidationError::EmptyPathList
                        } else {
                            exists|f: int|
                                {
                                    &&& 0 <= f < groups@[g].paths.deep_view().len()
                                    &&& !valid_path(#[trigger] groups@[g].paths.deep_view()[f])
                                    &&& (forall|f2: int|
                                        0 <= f2 < f ==> valid_path(
                                            groups@[g].paths.deep_view()[f2],
                                        ))
                                    &&& (e matches ValidationError::InvalidPath { path } && path@
                                        == groups@[g].paths.deep_view()[f])
                                }
                        }
                    }
            }),
            (r matches Ok(c) ==> {
                &&& c.wf()
                &&& c.name == name
                &&& c.class == class
                &&& c.student_number == student_number
                &&& c.week == week
                &&& c.tutorial == tutorial
                &&& c.groups == groups
                &&& c.output_file@ == (match output_file {
                    Some(p) => p@,
                    None => "week"@ + dec_digits(week as nat) + ".md"@,
                })
            }),
    {
        if groups.len() == 0 {
            return Err(ValidationError::EmptyPathList);
        }
        let mut g: usize = 0;
        while g < groups.len()
            invariant
                0 <= g <= groups@.len(),
                forall|i: int| 0 <= i < g ==> (#[trigger] groups@[i]).wf(),
            decreases groups@.len() - g,
        {
            let group = &groups[g];
            if group.paths.len() == 0 {
                proof {
                    assert(!groups@[g as int].wf());
                }
                return Err(ValidationError::EmptyPathList);
            }
            let mut f: usize = 0;
            while f < group.paths.len()
                invariant
                    0 <= f <= group.paths@.len(),
                    0 <= g < groups@.len(),
                    *group == groups@[g as int],
                    group.paths@.len() > 0,
                    forall|i: int| 0 <= i < g ==> (#[trigger] groups@[i]).wf(),
                    forall|j: int|
                        0 <= j < f ==> valid_path(#[trigger] group.paths.deep_view()[j]),
                decreases group.paths@.len() - f,
            {
                let p = &group.paths[f];
                if !check_path(p.as_str()) {
                    proof {
                        assert(group.paths.deep_view()[f as int] == p@);
                        assert(!valid_path(group.paths.deep_view()[f as int]));
                        assert(!groups@[g as int].wf());
                    }
                    return Err(ValidationError::InvalidPath { path: p.clone() });
                }
                f += 1;
            }
            g += 1;
        }
        let out = match output_file {
            Some(p) => p,
            None => {
                let mut o = String::from_str("week");
                o.append(u64_to_dec(week as u64).as_str());
                o.append(".md");
                o
            },
        };
        Ok(
            ReportConfig {
                name,
                class,
                student_number,
                week,
                tutorial,
                groups,
                output_file: out,
            },
        )
    }
}

/// Renders the header block, exactly as [`header_text`] describes.
pub fn render_header(cfg: &ReportConfig, date: &Date) -> (r: String)
    requires
        date.wf(),
    ensures
        r@ == header_text(
            cfg.name@,
            cfg.class@,
            cfg.student_number as nat,
            cfg.week as nat,
            cfg.tutorial,
            *date,
        ),
{
    let mut s = String::from_str("# ");
    s.append(kind_str(cfg.tutorial));
    s.append(" week ");
    s.append(u64_to_dec(cfg.week as u64).as_str());
    s.append("  \n");
    s.append("  \n");
    s.append("Name: ");
    s.append(cfg.name.as_str());
    s.append("  \n");
    s.append("Student number: ");
    s.append(u64_to_dec(cfg.student_number as u64).as_str());
    s.append("  \n");
    s.append("Class: ");
    s.append(cfg.class.as_str());
    s.append("  \n");
    s.append("Date: ");
    s.append(format_date(date).as_str());
    s.append("  \n");
    s.append("  \n");
    proof {
        assert(s@ =~= header_text(
            cfg.name@,
            cfg.class@,
            cfg.student_number as nat,
            cfg.week as nat,
            cfg.tutorial,
            *date,
        ));
    }
    s
}

/// Renders one numbered section heading, as [`group_heading_text`]
/// describes.
pub fn render_group_heading(tutorial: bool, number: u64) -> (r: String)
    ensures
        r@ == group_heading_text(tutorial, number as nat),
{
    let mut s = String::from_str("## ");
    s.append(kind_str(tutorial));
    s.append(" ");
    s.append(u64_to_dec(number).as_str());
    s.append("  \n  \n");
    proof {
        assert(s@ =~= group_heading_text(tutorial, number as nat));
    }
    s
}

/// Renders one file heading, as [`file_heading_text`] describes.
pub fn render_file_heading(name: &str) -> (r: String)
    ensures
        r@ == file_heading_text(name@),
{
    let mut s = String::from_str("### File: ");
    s.append(name);
    s.append("  \n  \n");
    proof {
        assert(s@ =~= file_heading_text(name@));
    }
    s
}

/// Renders the opening fence with its tag, as [`fence_open_text`]
/// describes.
pub fn render_fence_open(tag: LanguageTag) -> (r: String)
    ensures
        r@ == fence_open_text(tag),
{
    let mut s = String::from_str("```");
    s.append(tag.as_str());
    s.append("\n");
    proof {
        assert(s@ =~= fence_open_text(tag));
    }
    s
}

/// Renders the closing fence line, as [`fence_close_text`] describes.
pub fn render_fence_close() -> (r: String)
    ensures
        r@ == fence_close_text(),
{
    String::from_str("```  \n")
}

/// One write to the output sink: rendered text, or a file's raw bytes
/// copied verbatim.
pub enum Chunk {
    /// Rendered Markdown text.
    Text(String),
    /// One input file's bytes, unchanged.
    Raw(Vec<u8>),
}

/// The mathematical value of a chunk.
pub enum ChunkModel {
    /// Rendered Markdown text.
    Text(Seq<char>),
    /// One input file's bytes, unchanged.
    Raw(Seq<u8>),
}

impl View for Chunk {
    type V = ChunkModel;

    open spec fn view(&self) -> ChunkModel {
        match self {
            Chunk::Text(s) => ChunkModel::Text(s@),
            Chunk::Raw(b) => ChunkModel::Raw(b@),
        }
    }
}

impl DeepView for Chunk {
    type V = ChunkModel;

    open spec fn deep_view(&self) -> ChunkModel {
        self.view()
    }
}

/// The tag a file is fenced with: its display name's last extension
/// occurrence, put through the closed table.
pub open spec fn file_tag(path: Seq<char>) -> Option<LanguageTag> {
    match last_extension(last_segment(path)) {
        Some(e) => tag_of_ext(e),
        None => None,
    }
}

/// Whether a file can be rendered at all.
pub open spec fn file_renders(path: Seq<char>) -> bool {
    file_tag(path) is Some
}

/// The four chunks of one file's block: heading, tagged opening fence,
/// the raw bytes, closing fence.
pub open spec fn file_chunks(path: Seq<char>, contents: Seq<u8>) -> Seq<ChunkModel>
    recommends
        file_renders(path),
{
    seq![
        ChunkModel::Text(file_heading_text(last_segment(path))),
        ChunkModel::Text(fence_open_text(file_tag(path).unwrap())),
        ChunkModel::Raw(contents),
        ChunkModel::Text(fence_close_text()),
    ]
}

/// The chunks of a run of files, in order.
pub open spec fn files_chunks(paths: Seq<Seq<char>>, contents: Seq<Seq<u8>>) -> Seq<ChunkModel>
    decreases paths.len(),
{
    if paths.len() == 0 {
        Seq::<ChunkModel>::empty()
    } else {
        file_chunks(paths[0], contents[0]) + files_chunks(
            paths.drop_first(),
            contents.drop_first(),
        )
    }
}

/// The chunks of a run of groups: each group's numbered heading, then
/// its files' blocks, numbering counting up from `number`.
pub open spec fn groups_chunks(
    tutorial: bool,
    number: nat,
    groups: Seq<Seq<Seq<char>>>,
    contents: Seq<Seq<Seq<u8>>>,
) -> Seq<ChunkModel>
    decreases groups.len(),
{
    if groups.len() == 0 {
        Seq::<ChunkModel>::empty()
    } else {
        seq![ChunkModel::Text(group_heading_text(tutorial, number))] + files_chunks(
            groups[0],
            contents[0],
        ) + groups_chunks(tutorial, number + 1, groups.drop_first(), contents.drop_first())
    }
}

/// The whole document: the header chunk, then the groups numbered from 1.
pub open spec fn report_chunks(cfg: ReportConfig, date: Date, contents: Seq<Seq<Seq<u8>>>) -> Seq<
    ChunkModel,
> {
    seq![
        ChunkModel::Text(
            header_text(
                cfg.name@,
                cfg.class@,
                cfg.student_number as nat,
                cfg.week as nat,
                cfg.tutorial,
                date,
            ),
        ),
    ] + groups_chunks(cfg.tutorial, 1, cfg.groups_view(), contents)
}

/// Every file of every group can be rendered.
pub open spec fn all_files_render(groups: Seq<Seq<Seq<char>>>) -> bool {
    forall|g: int, f: int|
        0 <= g < groups.len() && 0 <= f < groups[g].len() ==> file_renders(
            #[trigger] groups[g][f],
        )
}

/// The error a failing file produces, exactly as the resolver reports it.
pub open spec fn error_names_file(path: Seq<char>, e: ExtensionError) -> bool {
    match e {
        ExtensionError::Missing { file, path: on_path } => {
            &&& last_extension(last_segment(path)) is None
            &&& file@ == last_segment(path)
            &&& on_path@ == path
        },
        ExtensionError::Unsupported { extension } => match last_extension(last_segment(path)) {
            Some(x) => tag_of_ext(x) is None && extension@ == x,
            None => false,
        },
    }
}

/// Copies a byte vector.
fn clone_bytes(v: &Vec<u8>) -> (r: Vec<u8>)
    ensures
        r@ == v@,
{
    let mut r: Vec<u8> = Vec::new();
    let mut i: usize = 0;
    proof {
        assert(r@ =~= v@.subrange(0, 0));
    }
    while i < v.len()
        invariant
            0 <= i <= v@.len(),
            r@ == v@.subrange(0, i as int),
        decreases v@.len() - i,
    {
        r.push(v[i]);
        proof {
            assert(r@ =~= v@.subrange(0, i + 1));
        }
        i += 1;
    }
    proof {
        assert(v@.subrange(0, v@.len() as int) =~= v@);
    }
    r
}

/// Assembles the whole document for the given per-file contents, as the
/// chunk sequence [`report_chunks`] describes. Succeeds exactly when
/// every file's display name yields a supported extension; otherwise the
/// run fails with the first failing file's error, and nothing of the
/// document is produced.
pub fn render_report(cfg: &ReportConfig, date: &Date, contents: &Vec<Vec<Vec<u8>>>) -> (r: Result<
    Vec<Chunk>,
    ExtensionError,
>)
    requires
        cfg.wf(),
        date.wf(),
        contents.deep_view().len() == cfg.groups_view().len(),
        forall|g: int|
            0 <= g < contents.deep_view().len() ==> (#[trigger] contents.deep_view()[g]).len()
                == cfg.groups_view()[g].len(),
    ensures
        r is Ok <==> all_files_render(cfg.groups_view()),
        (r matches Ok(cs) ==> cs.deep_view() == report_chunks(*cfg, *date, contents.deep_view())),
        (r matches Err(e) ==> exists|g: int, f: int|
            {
                &&& 0 <= g < cfg.groups_view().len()
                &&& 0 <= f < cfg.groups_view()[g].len()
                &&& !file_renders(#[trigger] cfg.groups_view()[g][f])
                &&& error_names_file(cfg.groups_view()[g][f], e)
                &&& forall|g2: int, f2: int|
                    ((0 <= g2 < g && 0 <= f2 < cfg.groups_view()[g2].len()) || (g2 == g && 0 <= f2
                        < f)) ==> file_renders(#[trigger] cfg.groups_view()[g2][f2])
            }),
{
    let ghost gv = cfg.groups_view();
    let ghost cv = contents.deep_view();
    let mut out: Vec<Chunk> = Vec::new();
    let header = render_header(cfg, date);
    out.push(Chunk::Text(header));
    proof {
        assert(gv.skip(0) =~= gv);
        assert(cv.skip(0) =~= cv);
        assert(out.deep_view() + groups_chunks(cfg.tutorial, 1, gv, cv) =~= report_chunks(
            *cfg,
            *date,
            cv,
        ));
    }
    let mut g: usize = 0;
    while g < cfg.groups.len()
        invariant
            cfg.wf(),
            gv == cfg.groups_view(),
            cv == contents.deep_view(),
            cfg.groups@.len() == gv.len(),
            contents@.len() == cv.len(),
            cv.len() == gv.len(),
            forall|x: int| 0 <= x < cv.len() ==> (#[trigger] cv[x]).len() == gv[x].len(),
            0 <= g <= gv.len(),
            forall|g2: int, f2: int|
                0 <= g2 < g && 0 <= f2 < gv[g2].len() ==> file_renders(#[trigger] gv[g2][f2]),
            report_chunks(*cfg, *date, cv) == out.deep_view() + groups_chunks(
                cfg.tutorial,
                (g + 1) as nat,
                gv.skip(g as int),
                cv.skip(g as int),
            ),
        decreases gv.len() - g,
    {
        let heading = render_group_heading(cfg.tutorial, (g + 1) as u64);
        let ghost before = out.deep_view();
        out.push(Chunk::Text(heading));
        proof {
            assert(out.deep_view() =~= before.push(ChunkModel::Text(group_heading_text(
                cfg.tutorial,
                (g + 1) as nat,
            ))));
            assert(gv.skip(g as int)[0] == gv[g as int]);
            assert(cv.skip(g as int)[0] == cv[g as int]);
            assert(gv.skip(g as int).drop_first() =~= gv.skip(g + 1));
            assert(cv.skip(g as int).drop_first() =~= cv.skip(g + 1));
            assert(gv[g as int].skip(0) =~= gv[g as int]);
            assert(cv[g as int].skip(0) =~= cv[g as int]);
            assert(report_chunks(*cfg, *date, cv) =~= out.deep_view() + files_chunks(
                gv[g as int].skip(0),
                cv[g as int].skip(0),
            ) + groups_chunks(cfg.tutorial, (g + 2) as nat, gv.skip(g + 1), cv.skip(g + 1)));
        }
        let group = &cfg.groups[g];
        let row = &contents[g];
        let mut f: usize = 0;
        while f < group.paths.len()
            invariant
                cfg.wf(),
                gv == cfg.groups_view(),
                cv == contents.deep_view(),
                cfg.groups@.len() == gv.len(),
                contents@.len() == cv.len(),
                cv.len() == gv.len(),
                0 <= g < gv.len(),
                *group == cfg.groups@[g as int],
                *row == contents@[g as int],
                group.paths@.len() == gv[g as int].len(),
                row@.len() == cv[g as int].len(),
                cv[g as int].len() == gv[g as int].len(),
                forall|x: int| 0 <= x < cv.len() ==> (#[trigger] cv[x]).len() == gv[x].len(),
                0 <= f <= gv[g as int].len(),
                forall|g2: int, f2: int|
                    0 <= g2 < g && 0 <= f2 < gv[g2].len() ==> file_renders(#[trigger] gv[g2][f2]),
                forall|f2: int|
                    0 <= f2 < f ==> file_renders(#[trigger] gv[g as int][f2]),
                report_chunks(*cfg, *date, cv) == out.deep_view() + files_chunks(
                    gv[g as int].skip(f as int),
                    cv[g as int].skip(f as int),
                ) + groups_chunks(cfg.tutorial, (g + 2) as nat, gv.skip(g + 1), cv.skip(g + 1)),
            decreases gv[g as int].len() - f,
        {
            let path = &group.paths[f];
            proof {
                assert(group.paths.deep_view()[f as int] == path@);
                assert(gv[g as int][f as int] == path@);
                assert(valid_path(path@));
                lemma_valid_path_has_segment_char(path@);
            }
            let name = file_name_of(path.as_str());
            match resolve_language_tag(name.as_str(), path.as_str()) {
                Ok(tag) => {
                    let ghost prev = out.deep_view();
                    out.push(Chunk::Text(render_file_heading(name.as_str())));
                    out.push(Chunk::Text(render_fence_open(tag)));
                    out.push(Chunk::Raw(clone_bytes(&row[f])));
                    out.push(Chunk::Text(render_fence_close()));
                    proof {
                        assert(row@[f as int]@ == cv[g as int][f as int]);
                        assert(file_tag(path@) == Some(tag));
                        assert(out.deep_view() =~= prev + file_chunks(
                            gv[g as int][f as int],
                            cv[g as int][f as int],
                        ));
                        assert(gv[g as int].skip(f as int)[0] == gv[g as int][f as int]);
                        assert(cv[g as int].skip(f as int)[0] == cv[g as int][f as int]);
                        assert(gv[g as int].skip(f as int).drop_first() =~= gv[g as int].skip(
                            f + 1,
                        ));
                        assert(cv[g as int].skip(f as int).drop_first() =~= cv[g as int].skip(
                            f + 1,
                        ));
                        assert(report_chunks(*cfg, *date, cv) =~= out.deep_view() + files_chunks(
                            gv[g as int].skip(f + 1),
                            cv[g as int].skip(f + 1),
                        ) + groups_chunks(
                            cfg.tutorial,
                            (g + 2) as nat,
                            gv.skip(g + 1),
                            cv.skip(g + 1),
                        ));
                    }
                },
                Err(e) => {
                    proof {
                        assert(!file_renders(gv[g as int][f as int]));
                        assert(error_names_file(gv[g as int][f as int], e));
                        assert(!all_files_render(gv));
                    }
                    return Err(e);
                },
            }
            f += 1;
        }
        proof {
            assert(gv[g as int].skip(gv[g as int].len() as int) =~= Seq::<Seq<char>>::empty());
            assert(cv[g as int].skip(cv[g as int].len() as int) =~= Seq::<Seq<u8>>::empty());
            assert(report_chunks(*cfg, *date, cv) =~= out.deep_view() + groups_chunks(
                cfg.tutorial,
                (g + 2) as nat,
                gv.skip(g + 1),
                cv.skip(g + 1),
            ));
        }
        g += 1;
    }
    proof {
        assert(gv.skip(gv.len() as int) =~= Seq::<Seq<Seq<char>>>::empty());
        assert(cv.skip(cv.len() as int) =~= Seq::<Seq<Seq<u8>>>::empty());
        assert(out.deep_view() =~= report_chunks(*cfg, *date, cv));
    }
    Ok(out)
}

} // verus!
