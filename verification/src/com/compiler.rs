//! The stages of a compilation: which files are staged, what was read from
//! them, and the reports gathered on the way.

use vstd::prelude::*;
use std::path::PathBuf;
use crate::com::ast;
use crate::com::ir;
use crate::com::reporting::{Header, Report};
use crate::com::reporting::header::header_msg;
use crate::com::reporting::report::Severity;
use crate::com::token::Token;
use crate::com::loc::Span;
use crate::com::parser::{Parser, lexed_ok, first_token, starts_expression, grouped_at};
use vstd::utf8::encode_utf8;

verus! {

#[verifier::external_type_specification]
#[verifier::external_body]
pub struct ExPathBuf(PathBuf);

/// What is known of a staged file: whether it belongs to the standard library.
#[derive(Default, Clone)]
pub struct StagedFileInfo {
    pub is_from_std: bool,
}

impl StagedFileInfo {
    /// The information of a file of the standard library.
    pub fn marin_std_file() -> (info: Self)
        ensures
            info.is_from_std,
    {
        Self { is_from_std: true }
    }
}

/// A file staged for compilation: its path and what is known of it.
pub struct Staged(pub PathBuf, pub StagedFileInfo);

/// A file whose source text was read.
pub struct Sourced(pub StagedFileInfo);

/// A parsed file.
pub struct Parsed(pub ast::File, pub StagedFileInfo);

/// A checked file.
pub struct Checked(pub ir::Module);

/// A compiled file.
pub struct Compiled;

/// What the compiler knows while files are staged.
pub struct StagedInfo {
    pub is_std_staged: bool,
}

/// What the compiler knows once the sources are read.
pub struct SourceInfo {
    pub is_std_staged: bool,
}

/// What the compiler knows once the files are parsed.
pub struct ParsedInfo {
    pub is_std_staged: bool,
}

/// What the compiler knows once the files are checked: the entities, and
/// the order in which the files depend on each other.
pub struct CheckedInfo {
    pub entities: ir::Entities,
    pub dependency_order: Vec<usize>,
}

/// The compiled program.
pub struct CompiledInfo {
    pub bytecode: Vec<u8>,
}

/// A source file: the name it is shown under, and its text.
pub struct SourceFile {
    pub name: String,
    pub source: String,
}

/// The files of a compilation, each with its path and its stage.
pub struct Files<T>(pub Vec<(SourceFile, PathBuf, T)>);

/// A compilation at some stage: its reports, its files and what it knows.
pub struct Compiler<Stage, Info> {
    pub reports: Vec<Report>,
    pub files: Files<Stage>,
    pub info: Info,
}

/// Whether one of `reports` stops the compilation.
pub open spec fn any_fatal(reports: Seq<Report>) -> bool {
    exists|i: int| 0 <= i < reports.len() && #[trigger] reports[i].severity == Severity::Error
}

/// A compilation with no file staged and no report yet.
pub fn init() -> (c: Compiler<Staged, StagedInfo>)
    ensures
        c.reports@.len() == 0,
        c.files.0@.len() == 0,
        !c.info.is_std_staged,
{
    Compiler { reports: Vec::new(), files: Files(Vec::new()), info: StagedInfo { is_std_staged: false } }
}

impl<T, I> Compiler<T, I> {
    /// What the compiler knows at this stage.
    pub fn into_content(self) -> (info: I)
        ensures
            info == self.info,
    {
        self.info
    }

    /// Whether a report gathered so far stops the compilation.
    pub fn is_fatal(&self) -> (b: bool)
        ensures
            b == any_fatal(self.reports@),
    {
        let mut i: usize = 0;
        while i < self.reports.len()
            invariant
                0 <= i <= self.reports@.len(),
                forall|j: int| 0 <= j < i ==> self.reports@[j].severity != Severity::Error,
            decreases self.reports.len() - i,
        {
            if self.reports[i].is_fatal() {
                return true;
            }
            i = i + 1;
        }
        false
    }
}

/// The headers of the reports for the files that could not be read, in order.
pub open spec fn read_error_headers(outcomes: Seq<(String, Result<String, String>)>) -> Seq<Header>
    decreases outcomes.len(),
{
    if outcomes.len() == 0 {
        Seq::empty()
    } else {
        let rest = read_error_headers(outcomes.drop_last());
        match outcomes.last().1 {
            Ok(_) => rest,
            Err(e) => rest.push(Header::CompilerIO(outcomes.last().0, e)),
        }
    }
}

/// The header of each of `reports`.
pub open spec fn headers(reports: Seq<Report>) -> Seq<Header> {
    reports.map_values(|r: Report| r.header)
}

impl Compiler<Staged, StagedInfo> {
    /// The compilation with the sources of the staged files. For each file,
    /// in order, `outcomes` holds the name to show it under and either its
    /// text or the description of the error that reading it gave. A file
    /// that could not be read gets an empty text and an error report; a
    /// compilation with no file at all gets an error report first.
    pub fn read_sources(self, outcomes: Vec<(String, Result<String, String>)>) -> (c: Compiler<Sourced, SourceInfo>)
        requires
            outcomes@.len() == self.files.0@.len(),
        ensures
            c.info.is_std_staged == self.info.is_std_staged,
            c.files.0@.len() == self.files.0@.len(),
            forall|i: int| 0 <= i < c.files.0@.len() ==> {
                let (file, path, stage) = #[trigger] c.files.0@[i];
                &&& file.name@ == outcomes@[i].0@
                &&& file.source@ == match outcomes@[i].1 { Ok(s) => s@, Err(_) => Seq::<char>::empty() }
                &&& path == self.files.0@[i].1
                &&& stage.0 == self.files.0@[i].2.1
            },
            headers(c.reports@) == headers(self.reports@)
                + (if self.files.0@.len() == 0 { seq![Header::CompilerNoInput()] } else { Seq::empty() })
                + read_error_headers(outcomes@),
            forall|i: int| self.reports@.len() <= i < c.reports@.len() ==> #[trigger] c.reports@[i].severity == Severity::Error,
            forall|i: int| 0 <= i < self.reports@.len() ==> #[trigger] c.reports@[i] == self.reports@[i],
    {
        let mut reports = self.reports;
        if self.files.0.len() == 0 {
            reports.push(Report::error(Header::CompilerNoInput()));
        }
        let ghost kept = reports@;
        let mut files: Vec<(SourceFile, PathBuf, Sourced)> = Vec::new();
        let mut staged = self.files.0;
        let mut outcomes = outcomes;
        let ghost all_staged = staged@;
        let ghost all_outcomes = outcomes@;
        let n = staged.len();
        let mut i: usize = 0;
        while i < n
            invariant
                n == all_staged.len(),
                all_outcomes.len() == n,
                0 <= i <= n,
                staged@ == all_staged.subrange(i as int, n as int),
                outcomes@ == all_outcomes.subrange(i as int, n as int),
                files@.len() == i,
                forall|j: int| 0 <= j < i ==> {
                    let (file, path, stage) = #[trigger] files@[j];
                    &&& file.name@ == all_outcomes[j].0@
                    &&& file.source@ == match all_outcomes[j].1 { Ok(s) => s@, Err(_) => Seq::<char>::empty() }
                    &&& path == all_staged[j].1
                    &&& stage.0 == all_staged[j].2.1
                },
                reports@.len() >= kept.len(),
                forall|j: int| 0 <= j < kept.len() ==> #[trigger] reports@[j] == kept[j],
                forall|j: int| kept.len() <= j < reports@.len() ==> #[trigger] reports@[j].severity == Severity::Error,
                headers(reports@) == headers(kept) + read_error_headers(all_outcomes.subrange(0, i as int)),
            decreases n - i,
        {
            let (_, path, Staged(_, info)) = staged.remove(0);
            let (name, outcome) = outcomes.remove(0);
            proof {
                assert(all_outcomes.subrange(0, i + 1).drop_last() =~= all_outcomes.subrange(0, i as int));
                assert(all_outcomes.subrange(0, i + 1).last() == all_outcomes[i as int]);
            }
            let source = match outcome {
                Ok(source) => source,
                Err(err) => {
                    let ghost before = reports@;
                    reports.push(Report::error(Header::CompilerIO(name.clone(), err)));
                    proof {
                        assert(headers(reports@) =~= headers(before).push(reports@.last().header));
                    }
                    String::new()
                },
            };
            files.push((SourceFile { name, source }, path, Sourced(info)));
            i = i + 1;
            proof {
                assert(staged@ =~= all_staged.subrange(i as int, n as int));
                assert(outcomes@ =~= all_outcomes.subrange(i as int, n as int));
            }
        }
        proof {
            assert(all_outcomes.subrange(0, n as int) =~= all_outcomes);
            if all_staged.len() == 0 {
                assert(headers(kept) =~= headers(self.reports@).push(Header::CompilerNoInput()));
            } else {
                assert(headers(kept) =~= headers(self.reports@));
            }
        }
        Compiler { reports, files: Files(files), info: SourceInfo { is_std_staged: self.info.is_std_staged } }
    }
}

impl Compiler<Sourced, SourceInfo> {
    /// Parses one file, whose tokens are `lexed`, as file `id`.
    fn parse_file(file: &SourceFile, id: usize, info: StagedFileInfo, lexed: Vec<(Option<Token>, Span)>, reports: &mut Vec<Report>) -> (p: Parsed)
        requires
            lexed_ok(encode_utf8(file.source@), lexed@),
        ensures
            p.1 == info,
            starts_expression(first_token(lexed@)) ==> p.0.0@.len() > 0,
            !starts_expression(first_token(lexed@)) && first_token(lexed@) != Token::Newline ==> p.0.0@.len() == 0,
            forall|i: int| 0 <= i < p.0.0@.len() ==> grouped_at(#[trigger] p.0.0@[i], 0),
            final(reports)@.len() >= old(reports)@.len(),
            forall|i: int| 0 <= i < old(reports)@.len() ==> #[trigger] final(reports)@[i] == old(reports)@[i],
    {
        let mut taken: Vec<Report> = Vec::new();
        std::mem::swap(&mut taken, reports);
        let mut parser = Parser::new(file.source.as_str(), lexed, id, taken);
        let ast = parser.parse_file();
        *reports = parser.into_reports();
        Parsed(ast, info)
    }

    /// The compilation with each file parsed from its tokens: `lexed` holds,
    /// for each file in order, the tokens that lexing its source gave. The
    /// errors met are reported after those made before.
    pub fn parse(self, lexed: Vec<Vec<(Option<Token>, Span)>>) -> (c: Compiler<Parsed, ParsedInfo>)
        requires
            lexed@.len() == self.files.0@.len(),
            forall|i: int| 0 <= i < lexed@.len() ==>
                lexed_ok(encode_utf8(self.files.0@[i].0.source@), #[trigger] lexed@[i]@),
        ensures
            c.info.is_std_staged == self.info.is_std_staged,
            c.files.0@.len() == self.files.0@.len(),
            forall|i: int| 0 <= i < c.files.0@.len() ==> {
                let (file, path, stage) = #[trigger] c.files.0@[i];
                &&& file == self.files.0@[i].0
                &&& path == self.files.0@[i].1
                &&& stage.1 == self.files.0@[i].2.0
                &&& starts_expression(first_token(lexed@[i]@)) ==> stage.0.0@.len() > 0
                &&& !starts_expression(first_token(lexed@[i]@)) && first_token(lexed@[i]@) != Token::Newline
                    ==> stage.0.0@.len() == 0
                &&& forall|k: int| 0 <= k < stage.0.0@.len() ==> grouped_at(#[trigger] stage.0.0@[k], 0)
            },
            c.reports@.len() >= self.reports@.len(),
            forall|i: int| 0 <= i < self.reports@.len() ==> #[trigger] c.reports@[i] == self.reports@[i],
    {
        let mut reports: Vec<Report> = Vec::new();
        let mut sourced = self.files.0;
        let mut lexed = lexed;
        let ghost all_files = sourced@;
        let ghost all_lexed = lexed@;
        let n = sourced.len();
        let mut parsed: Vec<(SourceFile, PathBuf, Parsed)> = Vec::new();
        let mut id: usize = 0;
        while id < n
            invariant
                n == all_files.len(),
                all_lexed.len() == n,
                0 <= id <= n,
                sourced@ == all_files.subrange(id as int, n as int),
                lexed@ == all_lexed.subrange(id as int, n as int),
                forall|i: int| 0 <= i < n ==> lexed_ok(encode_utf8(all_files[i].0.source@), #[trigger] all_lexed[i]@),
                parsed@.len() == id,
                forall|j: int| 0 <= j < id ==> {
                    let (file, path, stage) = #[trigger] parsed@[j];
                    &&& file == all_files[j].0
                    &&& path == all_files[j].1
                    &&& stage.1 == all_files[j].2.0
                    &&& starts_expression(first_token(all_lexed[j]@)) ==> stage.0.0@.len() > 0
                    &&& !starts_expression(first_token(all_lexed[j]@)) && first_token(all_lexed[j]@) != Token::Newline
                        ==> stage.0.0@.len() == 0
                    &&& forall|k: int| 0 <= k < stage.0.0@.len() ==> grouped_at(#[trigger] stage.0.0@[k], 0)
                },
            decreases n - id,
        {
            let (file, path, Sourced(info)) = sourced.remove(0);
            let tokens = lexed.remove(0);
            proof {
                assert(all_files[id as int] == (file, path, Sourced(info)));
                assert(all_lexed[id as int] == tokens);
            }
            let p = Self::parse_file(&file, id, info, tokens, &mut reports);
            parsed.push((file, path, p));
            id = id + 1;
            proof {
                assert(sourced@ =~= all_files.subrange(id as int, n as int));
                assert(lexed@ =~= all_lexed.subrange(id as int, n as int));
            }
        }
        let mut all_reports = self.reports;
        let ghost before = all_reports@;
        all_reports.append(&mut reports);
        Compiler { reports: all_reports, files: Files(parsed), info: ParsedInfo { is_std_staged: self.info.is_std_staged } }
    }
}

/// Whether a path's extension is that of Marin source files.
pub open spec fn is_marin_extension(extension: Option<String>) -> bool {
    extension matches Some(e) && e@ == "mar"@
}

impl Compiler<Staged, StagedInfo> {
    /// Stages a file, given what is known of its path: how it is shown,
    /// whether it exists, its extension and, for a Marin source file that
    /// exists, its full path and the path it was given by. A path that does
    /// not exist, or a file that is not a Marin source file, is reported
    /// instead.
    pub fn add_file_with_info(
        &mut self,
        shown: String,
        exists: bool,
        extension: Option<String>,
        paths: Option<(PathBuf, PathBuf)>,
        info: StagedFileInfo,
    )
        requires
            exists && is_marin_extension(extension) ==> paths is Some,
        ensures
            final(self).info.is_std_staged == old(self).info.is_std_staged,
            forall|i: int| 0 <= i < old(self).reports@.len() ==> #[trigger] final(self).reports@[i] == old(self).reports@[i],
            forall|i: int| 0 <= i < old(self).files.0@.len() ==> #[trigger] final(self).files.0@[i] == old(self).files.0@[i],
            !exists ==> {
                &&& final(self).files.0@.len() == old(self).files.0@.len()
                &&& final(self).reports@.len() == old(self).reports@.len() + 1
                &&& final(self).reports@.last().header == Header::CompilerNoSuchPath(shown)
                &&& final(self).reports@.last().severity == Severity::Error
            },
            exists && !is_marin_extension(extension) ==> {
                &&& final(self).files.0@.len() == old(self).files.0@.len()
                &&& final(self).reports@.len() == old(self).reports@.len() + 1
                &&& final(self).reports@.last().header == Header::CompilerBadExtension(shown)
                &&& final(self).reports@.last().severity == Severity::Error
            },
            exists && is_marin_extension(extension) ==> {
                &&& final(self).reports@ == old(self).reports@
                &&& final(self).files.0@.len() == old(self).files.0@.len() + 1
                &&& final(self).files.0@.last().0.name@ == Seq::<char>::empty()
                &&& final(self).files.0@.last().0.source@ == Seq::<char>::empty()
                &&& final(self).files.0@.last().1 == (paths->0).0
                &&& final(self).files.0@.last().2.0 == (paths->0).1
                &&& final(self).files.0@.last().2.1 == info
            },
    {
        if !exists {
            self.reports.push(Report::error(Header::CompilerNoSuchPath(shown)));
            return;
        }
        let mar = "mar".to_owned();
        proof {
            reveal_strlit("mar");
        }
        let is_mar = match &extension {
            Some(e) => *e == mar,
            None => false,
        };
        if !is_mar {
            self.reports.push(Report::error(Header::CompilerBadExtension(shown)));
            return;
        }
        match paths {
            Some((full_path, given)) => {
                self.files.0.push((SourceFile { name: String::new(), source: String::new() }, full_path, Staged(given, info)));
            },
            None => {},
        }
    }
}

} // verus!
