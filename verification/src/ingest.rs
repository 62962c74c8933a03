//! Handling an ingest request: which points of a batch are accepted, and the
//! reply that tells the client how the batch went.

use vstd::prelude::*;

use crate::parser::{ParsedLine, batch_entry_matches, parse_batch};
use crate::text::{decimal_string, decimal_text, decimal_value, lemma_decimal_round_trip, join_strings, join_text, owned, push_text, text_lines};
use crate::types::{PointView, TimeSeriesPoint};
use vstd::utf8::{decode_utf8, valid_utf8};

verus! {

/// The points of a batch's outcomes, in order.
pub open spec fn accepted_points(parsed: Seq<ParsedLine>) -> Seq<PointView>
    decreases parsed.len(),
{
    if parsed.len() == 0 {
        Seq::<PointView>::empty()
    } else {
        let earlier = accepted_points(parsed.drop_last());
        match parsed.last() {
            ParsedLine::Point(p) => earlier.push(p.deep_view()),
            ParsedLine::Invalid { .. } => earlier,
        }
    }
}

/// The report line for a rejected line: `Line <n>: <error>`.
pub open spec fn error_line_text(line: usize, error: Seq<char>) -> Seq<char> {
    "Line "@ + decimal_text(line as nat) + ": "@ + error
}

/// The report lines of a batch's rejected lines, in order.
pub open spec fn error_lines(parsed: Seq<ParsedLine>) -> Seq<Seq<char>>
    decreases parsed.len(),
{
    if parsed.len() == 0 {
        Seq::<Seq<char>>::empty()
    } else {
        let earlier = error_lines(parsed.drop_last());
        match parsed.last() {
            ParsedLine::Point(_) => earlier,
            ParsedLine::Invalid { line, error } => earlier.push(error_line_text(line, error@)),
        }
    }
}

/// The reply to an ingest request: an error listing every rejected line when
/// nothing was accepted; `OK (<n> lines inserted)` followed by the rejected
/// lines when some were rejected; plain `OK` otherwise.
pub open spec fn ingest_reply(accepted: nat, errors: Seq<Seq<char>>) -> Seq<char> {
    if accepted == 0 {
        "Error: No valid lines found.\n"@ + join_text(errors, "\n"@)
    } else if errors.len() > 0 {
        "OK ("@ + decimal_text(accepted) + " lines inserted)\n"@ + join_text(errors, "\n"@)
    } else {
        "OK"@
    }
}

/// The outcome of an ingest request: the points to append to the log, in
/// order, and the reply.
pub struct IngestReport {
    pub accepted: Vec<TimeSeriesPoint>,
    pub response: String,
}

/// Every outcome is either accepted or reported, never both.
pub proof fn lemma_outcomes_partition(parsed: Seq<ParsedLine>)
    ensures
        accepted_points(parsed).len() + error_lines(parsed).len() == parsed.len(),
    decreases parsed.len(),
{
    if parsed.len() > 0 {
        lemma_outcomes_partition(parsed.drop_last());
    }
}

/// The reply is a plain `OK` exactly when the batch had lines and none of them
/// was rejected.
pub proof fn lemma_reply_ok_iff_all_accepted(parsed: Seq<ParsedLine>)
    ensures
        (ingest_reply(accepted_points(parsed).len(), error_lines(parsed)) == "OK"@) <==> (parsed.len() > 0
            && error_lines(parsed).len() == 0),
{
    reveal_strlit("OK");
    reveal_strlit("OK (");
    reveal_strlit("Error: No valid lines found.\n");
    lemma_outcomes_partition(parsed);
    let reply = ingest_reply(accepted_points(parsed).len(), error_lines(parsed));
    if accepted_points(parsed).len() == 0 {
        assert(reply[0] == 'E');
    } else if error_lines(parsed).len() > 0 {
        assert(reply.len() > 2);
    }
}

/// When some lines were accepted and some rejected, the reply starts with
/// `OK (`, then the number of accepted points written in decimal (it reads back
/// as that number), then ` lines inserted)`.
pub proof fn lemma_reply_counts_accepted(accepted: nat, errors: Seq<Seq<char>>)
    requires
        accepted > 0,
        errors.len() > 0,
    ensures
        ingest_reply(accepted, errors) == "OK ("@ + decimal_text(accepted) + " lines inserted)\n"@ + join_text(
            errors,
            "\n"@,
        ),
        decimal_value(ingest_reply(accepted, errors).subrange(4, 4 + decimal_text(accepted).len() as int)) == accepted,
{
    reveal_strlit("OK (");
    lemma_decimal_round_trip(accepted);
    let reply = ingest_reply(accepted, errors);
    let d = decimal_text(accepted);
    assert(reply.subrange(4, 4 + d.len() as int) =~= d);
}

/// Sorts a batch's outcomes into accepted points and the reply.
pub fn summarize_batch(parsed: Vec<ParsedLine>) -> (report: IngestReport)
    ensures
        report.accepted.deep_view() == accepted_points(parsed@),
        report.response@ == ingest_reply(accepted_points(parsed@).len(), error_lines(parsed@)),
        report.accepted.len() + error_lines(parsed@).len() == parsed.len(),
        report.accepted.len() > 0 && error_lines(parsed@).len() > 0 ==> report.response@ == "OK ("@
            + decimal_text(report.accepted.len() as nat) + " lines inserted)\n"@ + join_text(error_lines(parsed@), "\n"@),
        report.accepted.len() == 0 ==> report.response@ == "Error: No valid lines found.\n"@ + join_text(
            error_lines(parsed@),
            "\n"@,
        ),
        report.accepted.len() > 0 && error_lines(parsed@).len() == 0 ==> report.response@ == "OK"@,
{
    let ghost all = parsed@;
    let mut accepted: Vec<TimeSeriesPoint> = Vec::new();
    let mut errors: Vec<String> = Vec::new();
    for entry in iter: parsed
        invariant
            iter.seq() == all,
            accepted.deep_view() == accepted_points(all.take(iter.index())),
            errors.deep_view() == error_lines(all.take(iter.index())),
    {
        let ghost k = iter.index();
        assert(entry == all[k]);
        assert(all.take(k + 1).drop_last() =~= all.take(k));
        let ghost before_accepted = accepted.deep_view();
        let ghost before_errors = errors.deep_view();
        match entry {
            ParsedLine::Point(p) => {
                let ghost pv = p.deep_view();
                accepted.push(p);
                assert(accepted.deep_view() =~= before_accepted.push(pv));
            },
            ParsedLine::Invalid { line, error } => {
                let mut text = owned("Line ");
                let number = decimal_string(line as u64);
                push_text(&mut text, number.as_str());
                push_text(&mut text, ": ");
                push_text(&mut text, error.as_str());
                let ghost tv = text@;
                errors.push(text);
                assert(errors.deep_view() =~= before_errors.push(tv));
            },
        }
    }
    assert(all.take(all.len() as int) =~= all);
    let count = accepted.len();
    let response = if count == 0 {
        let mut r = owned("Error: No valid lines found.\n");
        let listed = join_strings(&errors, "\n");
        push_text(&mut r, listed.as_str());
        r
    } else if errors.len() > 0 {
        let mut r = owned("OK (");
        let digits = decimal_string(count as u64);
        push_text(&mut r, digits.as_str());
        push_text(&mut r, " lines inserted)\n");
        let listed = join_strings(&errors, "\n");
        push_text(&mut r, listed.as_str());
        r
    } else {
        owned("OK")
    };
    proof {
        lemma_outcomes_partition(all);
    }
    IngestReport { accepted, response }
}

/// Parses a request body of line protocol for node `node_id` and settles what
/// to store and what to answer: the outcomes are those of [`parse_batch`]
/// (one per line, as its contract states), the accepted points are their
/// points in order, and the reply is [`ingest_reply`] of them.
pub fn ingest_batch(input: &str, node_id: &str) -> (report: IngestReport)
    ensures
        exists|parsed: Seq<ParsedLine>|
            {
                &&& parsed.len() == text_lines(input@).len()
                &&& forall|i: int| 0 <= i < parsed.len() ==> batch_entry_matches(text_lines(input@), node_id@, i, #[trigger] parsed[i])
                &&& report.accepted.deep_view() == #[trigger] accepted_points(parsed)
                &&& report.response@ == ingest_reply(accepted_points(parsed).len(), error_lines(parsed))
            },
{
    let parsed = parse_batch(input, node_id);
    let ghost outcomes = parsed@;
    let report = summarize_batch(parsed);
    assert(forall|i: int| 0 <= i < outcomes.len() ==> batch_entry_matches(text_lines(input@), node_id@, i, #[trigger] outcomes[i]));
    report
}

/// The text `String::from_utf8_lossy` makes of `bytes`.
pub uninterp spec fn utf8_lossy_text(bytes: Seq<u8>) -> Seq<char>;

/// Decodes a request body with `String::from_utf8_lossy`.
/// Trusted: the text is `utf8_lossy_text(bytes@)`, a function of the bytes
/// alone, and well-formed UTF-8 decodes to exactly the characters it encodes.
#[verifier::external_body]
fn decode_body(bytes: &[u8]) -> (text: String)
    ensures
        text@ == utf8_lossy_text(bytes@),
        valid_utf8(bytes@) ==> text@ == decode_utf8(bytes@),
{
    String::from_utf8_lossy(bytes).into_owned()
}

/// Handles an ingest request body: decodes it (invalid UTF-8 sequences become
/// replacement characters) and settles it as [`ingest_batch`] does.
pub fn ingest_request(body: &[u8], node_id: &str) -> (report: IngestReport)
    ensures
        exists|parsed: Seq<ParsedLine>|
            {
                &&& parsed.len() == text_lines(utf8_lossy_text(body@)).len()
                &&& forall|i: int|
                    0 <= i < parsed.len() ==> batch_entry_matches(
                        text_lines(utf8_lossy_text(body@)),
                        node_id@,
                        i,
                        #[trigger] parsed[i],
                    )
                &&& report.accepted.deep_view() == #[trigger] accepted_points(parsed)
                &&& report.response@ == ingest_reply(accepted_points(parsed).len(), error_lines(parsed))
            },
{
    let text = decode_body(body);
    ingest_batch(text.as_str(), node_id)
}

} // verus!
