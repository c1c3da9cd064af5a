//! The extraction itself: mode, configuration, scan, canonical tables.

use crate::decls::lemma_nothing_scanned;
use crate::decls::lemma_tables_determined;
use crate::decls::Decls;
use crate::decls::RawDecls;
use crate::env::ParserEnv;
use crate::mode::Mode;
use crate::mode::ParseMode;
use crate::source::RelativePath;
use crate::source::SourceText;
use vstd::prelude::*;
use vstd::string::StringSliceAdditionalSpecFns;

verus! {

/// What one scan of a file hands back.
#[derive(Debug, PartialEq, Eq)]
pub struct ScanOutput<C, F, T, K> {
    /// That a syntax root was produced, or why the text could not be scanned
    /// at all.
    pub root: Result<(), String>,
    /// The syntax errors that the scan recovered from.
    pub errors: Vec<String>,
    /// The declarations that the scan came by, in its order.
    pub decls: RawDecls<C, F, T, K>,
}

/// The parser that the extraction relies on. It reads the mode of a file off
/// its leading pragma, and scans a file once for its declarations.
///
/// Nothing is asked of an implementation beyond the types of what it
/// returns: the extraction is proved for every answer.
pub trait DeclParser {
    /// What the scan keeps of a class.
    type Class;

    /// What the scan keeps of a function.
    type Fun;

    /// What the scan keeps of a type alias.
    type Typedef;

    /// What the scan keeps of a constant.
    type Const;

    /// The mode that the header of `text` declares, if it has a header that
    /// can be read.
    fn parse_mode(&self, text: &SourceText) -> Option<Mode>;

    /// One pass over `text` in the configuration `env`.
    fn parse_script(&self, text: &SourceText, env: ParserEnv) -> ScanOutput<
        Self::Class,
        Self::Fun,
        Self::Typedef,
        Self::Const,
    >;
}

/// `result` is what the extraction returns for the scan `out`: the failure
/// of the scan as it came, or else the canonical tables of all that was
/// scanned, whatever errors the scan recovered from.
pub open spec fn extracted<C, F, T, K>(
    out: ScanOutput<C, F, T, K>,
    result: Result<Decls<C, F, T, K>, String>,
) -> bool {
    match result {
        Ok(decls) => out.root is Ok && decls.wf() && decls.canonical_of(out.decls),
        Err(reason) => out.root == Err::<(), String>(reason),
    }
}

/// Turns the output of a scan into the result of the extraction.
pub fn decls_of_scan<C, F, T, K>(out: ScanOutput<C, F, T, K>) -> (result: Result<
    Decls<C, F, T, K>,
    String,
>)
    ensures
        extracted(out, result),
{
    match out.root {
        Ok(_) => Ok(Decls::from_raw(out.decls)),
        Err(reason) => Err(reason),
    }
}

/// The parser, asked for the header of `source`, can answer with `header`
/// and then, asked to scan in the configuration for that header, with `out`;
/// `source` is the file `filename` with the bytes `text`, and `result` is
/// what the extraction returns for `out`.
pub open spec fn parsed_by<S: DeclParser>(
    parser: &S,
    filename: RelativePath,
    text: Seq<u8>,
    source: SourceText,
    header: Option<Mode>,
    out: ScanOutput<S::Class, S::Fun, S::Typedef, S::Const>,
    result: Result<Decls<S::Class, S::Fun, S::Typedef, S::Const>, String>,
) -> bool {
    &&& source.is_source_of(filename, text)
    &&& call_ensures(S::parse_mode, (parser, &source), header)
    &&& call_ensures(
        S::parse_script,
        (parser, &source, ParserEnv::of_mode(ParseMode::of_header(header))),
        out,
    )
    &&& extracted(out, result)
}

/// `result` is an extraction of the file `filename` with the bytes `text`:
/// the parser was asked once for the header and once for a scan in the
/// configuration for that header, and `result` is what the extraction
/// returns for that scan.
pub open spec fn parsed<S: DeclParser>(
    parser: &S,
    filename: RelativePath,
    text: Seq<u8>,
    result: Result<Decls<S::Class, S::Fun, S::Typedef, S::Const>, String>,
) -> bool {
    exists|
        source: SourceText,
        header: Option<Mode>,
        out: ScanOutput<S::Class, S::Fun, S::Typedef, S::Const>,
    |
        parsed_by(parser, filename, text, source, header, out, result)
}

/// Extracts the declarations of the file `filename` with the text `text`.
///
/// The file is not read: `filename` only identifies it to the parser. The
/// result is a failure exactly if the scan produced no root, and then it is
/// the reason that the scan gave. Otherwise it holds the four canonical
/// tables of what the scan came by.
pub fn parse_decls<S: DeclParser>(parser: &S, filename: RelativePath, text: &str) -> (result:
    Result<Decls<S::Class, S::Fun, S::Typedef, S::Const>, String>)
    ensures
        parsed(parser, filename, text.spec_bytes(), result),
{
    let source = SourceText::make(filename, text.as_bytes());
    let header = parser.parse_mode(&source);
    let env = ParserEnv::for_mode(ParseMode::from_header(header));
    let out = parser.parse_script(&source, env);
    let result = decls_of_scan(out);
    proof {
        assert(parsed_by(parser, filename, text.spec_bytes(), source, header, out, result));
    }
    result
}

/// The parser answers as a function of the file `filename` with the bytes
/// `text`: whatever it can answer about the header of that file is one
/// answer, and whatever it can answer to a scan of it in one configuration
/// has one root and one sequence of declarations for each kind.
pub open spec fn parser_is_function<S: DeclParser>(
    parser: &S,
    filename: RelativePath,
    text: Seq<u8>,
) -> bool {
    &&& forall|
        source1: SourceText,
        source2: SourceText,
        header1: Option<Mode>,
        header2: Option<Mode>,
    |
        {
            &&& source1.is_source_of(filename, text)
            &&& source2.is_source_of(filename, text)
            &&& #[trigger] call_ensures(S::parse_mode, (parser, &source1), header1)
            &&& #[trigger] call_ensures(S::parse_mode, (parser, &source2), header2)
        } ==> header1 == header2
    &&& forall|
        source1: SourceText,
        source2: SourceText,
        env: ParserEnv,
        out1: ScanOutput<S::Class, S::Fun, S::Typedef, S::Const>,
        out2: ScanOutput<S::Class, S::Fun, S::Typedef, S::Const>,
    |
        {
            &&& source1.is_source_of(filename, text)
            &&& source2.is_source_of(filename, text)
            &&& #[trigger] call_ensures(S::parse_script, (parser, &source1, env), out1)
            &&& #[trigger] call_ensures(S::parse_script, (parser, &source2, env), out2)
        } ==> out1.root == out2.root && out1.decls.same_entries(out2.decls)
}

/// With a parser that answers as a function of the file, two extractions of
/// one file give the same failure, or tables with the same names in the same
/// order and the same payloads.
pub proof fn lemma_parse_decls_determined<S: DeclParser>(
    parser: &S,
    filename: RelativePath,
    text: Seq<u8>,
    result1: Result<Decls<S::Class, S::Fun, S::Typedef, S::Const>, String>,
    result2: Result<Decls<S::Class, S::Fun, S::Typedef, S::Const>, String>,
)
    requires
        parser_is_function(parser, filename, text),
        parsed(parser, filename, text, result1),
        parsed(parser, filename, text, result2),
    ensures
        match (result1, result2) {
            (Ok(decls1), Ok(decls2)) => decls1.same_entries(decls2),
            (Err(reason1), Err(reason2)) => reason1 == reason2,
            _ => false,
        },
{
    let (source1, header1, out1) = choose|
        source: SourceText,
        header: Option<Mode>,
        out: ScanOutput<S::Class, S::Fun, S::Typedef, S::Const>,
    |
        parsed_by(parser, filename, text, source, header, out, result1);
    let (source2, header2, out2) = choose|
        source: SourceText,
        header: Option<Mode>,
        out: ScanOutput<S::Class, S::Fun, S::Typedef, S::Const>,
    |
        parsed_by(parser, filename, text, source, header, out, result2);
    assert(header1 == header2);
    lemma_extraction_determined(out1, out2, result1, result2);
}

/// The extraction is a function of what the scan returned: scans with the
/// same root and the same declarations give the same failure, or tables with
/// the same names in the same order and the same payloads. The errors that
/// the scans recovered from have no part in it.
pub proof fn lemma_extraction_determined<C, F, T, K>(
    out1: ScanOutput<C, F, T, K>,
    out2: ScanOutput<C, F, T, K>,
    result1: Result<Decls<C, F, T, K>, String>,
    result2: Result<Decls<C, F, T, K>, String>,
)
    requires
        out1.root == out2.root,
        out1.decls.same_entries(out2.decls),
        extracted(out1, result1),
        extracted(out2, result2),
    ensures
        match (result1, result2) {
            (Ok(decls1), Ok(decls2)) => decls1.same_entries(decls2),
            (Err(reason1), Err(reason2)) => reason1 == reason2,
            _ => false,
        },
{
    if let (Ok(decls1), Ok(decls2)) = (result1, result2) {
        lemma_tables_determined(out1.decls, out2.decls, decls1, decls2);
    }
}

/// A scan that produced a root and no declaration gives four empty tables.
pub proof fn lemma_empty_scan<C, F, T, K>(
    out: ScanOutput<C, F, T, K>,
    result: Result<Decls<C, F, T, K>, String>,
)
    requires
        out.root is Ok,
        out.decls.is_empty(),
        extracted(out, result),
    ensures
        result is Ok,
        result->Ok_0.is_empty(),
{
    lemma_nothing_scanned(out.decls, result->Ok_0);
}

/// A scan that failed gives its failure and no table, whatever it had come
/// by before it failed.
pub proof fn lemma_failed_scan<C, F, T, K>(
    out: ScanOutput<C, F, T, K>,
    result: Result<Decls<C, F, T, K>, String>,
)
    requires
        out.root is Err,
        extracted(out, result),
    ensures
        result is Err,
        result->Err_0 == out.root->Err_0,
{
}

} // verus!
