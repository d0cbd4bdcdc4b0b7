//! What messages say: each names all that it is about, in full and in a fixed place.

use crate::analysis::graph::reason_text;
use crate::analysis::graph::reports::{report_text, ReportView};
use crate::analysis::subject::ReasonView;
use crate::discover::{discover_error_text, DiscoverErrorView};
use crate::model::pattern::{parse_error_text, ParseErrorView};
use crate::text::{debug_quoted, decimal};
use crate::{analyze_error_text, AnalyzeErrorView};
use vstd::prelude::*;

verus! {

/// A text that starts and ends as given, with something between.
pub open spec fn between(start: Seq<char>, middle: Seq<char>, end: Seq<char>) -> Seq<char> {
    start + middle + end
}

/// What did not resolve is told by its crate, its place and the reason.
pub proof fn law_unresolved_is_told(
    crate_name: Seq<char>,
    location: Seq<char>,
    reason: Seq<char>,
)
    ensures
        report_text(ReportView::UnresolvedSubject { crate_name, location, reason }) == between(
            "unresolved subject in "@,
            between(crate_name, " at "@, location),
            between(": "@, reason, Seq::empty()),
        ),
        report_text(ReportView::UnresolvedConsumerName { crate_name, location, reason })
            == between(
            "unresolved consumer name in "@,
            between(crate_name, " at "@, location),
            between(": "@, reason, Seq::empty()),
        ),
{
    let tail = between(": "@, reason, Seq::empty());
    let middle = between(crate_name, " at "@, location);
    assert(report_text(ReportView::UnresolvedSubject { crate_name, location, reason })
        =~= between("unresolved subject in "@, middle, tail));
    assert(report_text(ReportView::UnresolvedConsumerName { crate_name, location, reason })
        =~= between("unresolved consumer name in "@, middle, tail));
}

/// A subject that is no pattern is told by where it came from, what it is and what
/// is wrong with it.
pub proof fn law_malformed_is_told(origin: Seq<char>, raw: Seq<char>, reason: Seq<char>)
    ensures
        report_text(ReportView::MalformedSubject { origin, raw, reason }) == between(
            "malformed subject from "@,
            between(origin, ": "@, debug_quoted(raw)),
            between(" ("@, reason, ")"@),
        ),
{
    assert(report_text(ReportView::MalformedSubject { origin, raw, reason }) =~= between(
        "malformed subject from "@,
        between(origin, ": "@, debug_quoted(raw)),
        between(" ("@, reason, ")"@),
    ));
}

/// What has no counterpart is told by its name and its subject, and by what is
/// missing; a crate that could not be checked by its role.
pub proof fn law_orphans_are_told(name: Seq<char>, subject: Seq<char>)
    ensures
        report_text(ReportView::OrphanIngress { ingress_name: name, pattern: subject })
            == between(
            "orphan ingress "@,
            between(debug_quoted(name), ": declared pattern "@, debug_quoted(subject)),
            " has no observed consumer in code (data flows in but nothing subscribes)"@,
        ),
        report_text(ReportView::OrphanEgress { egress_name: name, pattern: subject }) == between(
            "orphan egress "@,
            between(debug_quoted(name), ": declared trigger pattern "@, debug_quoted(subject)),
            " has no observed publisher in code (sink declared but nothing fires)"@,
        ),
        report_text(ReportView::OrphanPublisher { crate_name: name, subject }) == between(
            "orphan publisher in "@,
            between(name, ": subject "@, debug_quoted(subject)),
            " has no observed consumer in code (events fire but nothing subscribes)"@,
        ),
        report_text(ReportView::OrphanConsumer { crate_name: name, subject }) == between(
            "orphan consumer in "@,
            between(name, ": subject "@, debug_quoted(subject)),
            " has no observed publisher in code (subscribed but nothing fires)"@,
        ),
        report_text(ReportView::UnresolvedSubjectCoverage { crate_name: name, role: subject })
            == between(
            "unresolved "@,
            between(subject, " subject in "@, name),
            ": not checked for counterparts"@,
        ),
{
    assert(report_text(ReportView::OrphanIngress { ingress_name: name, pattern: subject })
        =~= between(
        "orphan ingress "@,
        between(debug_quoted(name), ": declared pattern "@, debug_quoted(subject)),
        " has no observed consumer in code (data flows in but nothing subscribes)"@,
    ));
    assert(report_text(ReportView::OrphanEgress { egress_name: name, pattern: subject })
        =~= between(
        "orphan egress "@,
        between(debug_quoted(name), ": declared trigger pattern "@, debug_quoted(subject)),
        " has no observed publisher in code (sink declared but nothing fires)"@,
    ));
    assert(report_text(ReportView::OrphanPublisher { crate_name: name, subject }) =~= between(
        "orphan publisher in "@,
        between(name, ": subject "@, debug_quoted(subject)),
        " has no observed consumer in code (events fire but nothing subscribes)"@,
    ));
    assert(report_text(ReportView::OrphanConsumer { crate_name: name, subject }) =~= between(
        "orphan consumer in "@,
        between(name, ": subject "@, debug_quoted(subject)),
        " has no observed publisher in code (subscribed but nothing fires)"@,
    ));
    assert(report_text(
        ReportView::UnresolvedSubjectCoverage { crate_name: name, role: subject },
    ) =~= between(
        "unresolved "@,
        between(subject, " subject in "@, name),
        ": not checked for counterparts"@,
    ));
}

/// What is wrong with a pattern is told with the place in it.
pub proof fn law_pattern_faults_are_told(i: int, token: Seq<char>)
    ensures
        parse_error_text(ParseErrorView::Empty) == "empty pattern"@,
        parse_error_text(ParseErrorView::EmptySegment(i)) == "empty segment at position "@
            + decimal(i as nat),
        parse_error_text(ParseErrorView::GtNotAtTail(i))
            == "`>` (tail wildcard) must appear last; found at position "@ + decimal(i as nat),
        parse_error_text(ParseErrorView::IllegalCharInToken { position: i, token }) == between(
            "illegal character in literal token at position "@,
            decimal(i as nat),
            ": "@ + debug_quoted(token),
        ),
{
    assert(parse_error_text(ParseErrorView::IllegalCharInToken { position: i, token }) =~= between(
        "illegal character in literal token at position "@,
        decimal(i as nat),
        ": "@ + debug_quoted(token),
    ));
}

/// Why something did not resolve is told with what it is about.
pub proof fn law_reasons_are_told(a: Seq<char>, b: Seq<char>)
    ensures
        reason_text(ReasonView::DepthExhausted) == "DepthExhausted"@,
        reason_text(ReasonView::SymbolNotFound { path: a }) == between(
            "SymbolNotFound { path: "@,
            debug_quoted(a),
            " }"@,
        ),
        reason_text(ReasonView::UnsupportedShape { kind: a }) == between(
            "UnsupportedShape { kind: "@,
            debug_quoted(a),
            " }"@,
        ),
        reason_text(ReasonView::ParseError { snippet: a, message: b }) == between(
            "ParseError { snippet: "@,
            between(debug_quoted(a), ", message: "@, debug_quoted(b)),
            " }"@,
        ),
{
    assert(reason_text(ReasonView::ParseError { snippet: a, message: b }) =~= between(
        "ParseError { snippet: "@,
        between(debug_quoted(a), ", message: "@, debug_quoted(b)),
        " }"@,
    ));
}

/// What went wrong on the way to the sources, or in them, is told with the file,
/// the pattern or the message that it came with.
pub proof fn law_errors_are_told(a: Seq<char>, b: Seq<char>)
    ensures
        analyze_error_text(AnalyzeErrorView::Discover(a)) == "workspace discovery failed: "@ + a,
        analyze_error_text(AnalyzeErrorView::Config(a)) == "config error: "@ + a,
        analyze_error_text(AnalyzeErrorView::Parse { file: a, message: b })
            == "parse error in "@ + between(a, ": "@, b),
        discover_error_text(DiscoverErrorView::Metadata(a)) == "cargo metadata failed: "@ + a,
        discover_error_text(DiscoverErrorView::InvalidGlob { pattern: a, source: b })
            == "invalid glob pattern "@ + between(debug_quoted(a), ": "@, b),
        discover_error_text(DiscoverErrorView::Io { path: a, source: b })
            == "I/O error walking "@ + between(a, ": "@, b),
{
    assert(analyze_error_text(AnalyzeErrorView::Parse { file: a, message: b })
        =~= "parse error in "@ + between(a, ": "@, b));
    assert(discover_error_text(DiscoverErrorView::InvalidGlob { pattern: a, source: b })
        =~= "invalid glob pattern "@ + between(debug_quoted(a), ": "@, b));
    assert(discover_error_text(DiscoverErrorView::Io { path: a, source: b })
        =~= "I/O error walking "@ + between(a, ": "@, b));
}

} // verus!
